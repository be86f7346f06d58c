//! Decimal numerals of the feed, read as fixed-point integers.
//!
//! A numeral is a run of digits, optionally followed by a point and a second
//! run of digits; one of the two runs may be empty, not both. There is no
//! sign and no exponent.

use vstd::prelude::*;
use vstd::string::*;
use vstd::utf8::is_ascii_chars;

verus! {

/// Number of decimal places of a price key.
pub const PRICE_DECIMALS: u32 = 4;

/// Number of decimal places of a size.
pub const SIZE_DECIMALS: u32 = 6;

pub open spec fn is_digit(c: char) -> bool {
    '0' <= c && c <= '9'
}

/// The value of a digit; 0 for any other character.
pub open spec fn digit_value(c: char) -> nat {
    if is_digit(c) {
        (c as int - '0' as int) as nat
    } else {
        0
    }
}

pub open spec fn all_digits(s: Seq<char>) -> bool {
    forall|i: int| 0 <= i < s.len() ==> is_digit(#[trigger] s[i])
}

/// The number that a run of digits writes in base ten.
pub open spec fn digits_value(s: Seq<char>) -> nat
    decreases s.len(),
{
    if s.len() == 0 {
        0
    } else {
        digits_value(s.drop_last()) * 10 + digit_value(s.last())
    }
}

/// `v` with `k` zeros appended in base ten.
pub open spec fn shift10(v: nat, k: nat) -> nat
    decreases k,
{
    if k == 0 {
        v
    } else {
        shift10(v, (k - 1) as nat) * 10
    }
}

/// Whether the first `k` characters of `s` are digits and the next one, if
/// there is one, is not.
pub open spec fn is_digit_run(s: Seq<char>, k: int) -> bool {
    &&& 0 <= k <= s.len()
    &&& forall|j: int| 0 <= j < k ==> is_digit(#[trigger] s[j])
    &&& k < s.len() ==> !is_digit(s[k])
}

/// Length of the run of digits that `s` starts with.
pub open spec fn digit_run_len(s: Seq<char>) -> int {
    choose|k: int| is_digit_run(s, k)
}

/// The two runs of digits of a numeral, or `None` where `s` is not one.
pub open spec fn decimal_parts(s: Seq<char>) -> Option<(Seq<char>, Seq<char>)> {
    let k = digit_run_len(s);
    if k == s.len() {
        if k > 0 {
            Some((s, Seq::<char>::empty()))
        } else {
            None
        }
    } else if s[k] == '.' {
        let f = s.skip(k + 1);
        if all_digits(f) && k + f.len() > 0 {
            Some((s.take(k), f))
        } else {
            None
        }
    } else {
        None
    }
}

/// The digits that count at the given scale: the whole part, then at most
/// `scale` places of the fraction.
pub open spec fn kept_digits(whole: Seq<char>, frac: Seq<char>, scale: nat) -> Seq<char> {
    whole + frac.take(if frac.len() < scale { frac.len() as int } else { scale as int })
}

/// The numeral's value times ten to the `scale`, rounded down.
pub open spec fn scaled_floor(whole: Seq<char>, frac: Seq<char>, scale: nat) -> nat {
    let m = if frac.len() < scale { frac.len() } else { scale };
    shift10(digits_value(kept_digits(whole, frac, scale)), (scale - m) as nat)
}

/// Whether the places beyond the scale amount to a half or more.
pub open spec fn half_or_more(frac: Seq<char>, scale: nat) -> bool {
    frac.len() > scale && digit_value(frac[scale as int]) >= 5
}

/// Whether any place beyond the scale is not zero.
pub open spec fn any_beyond(frac: Seq<char>, scale: nat) -> bool {
    exists|j: int| scale <= j < frac.len() && #[trigger] frac[j] != '0'
}

/// The value of the numeral `s` times ten to the `scale`, as an integer:
/// rounded up from any excess if `ceil`, else rounded to the nearest with
/// halves going up. `None` where `s` is not a numeral.
pub open spec fn decimal_value(s: Seq<char>, scale: nat, ceil: bool) -> Option<nat> {
    match decimal_parts(s) {
        None => None,
        Some((whole, frac)) => {
            let up = if ceil {
                any_beyond(frac, scale)
            } else {
                half_or_more(frac, scale)
            };
            Some(scaled_floor(whole, frac, scale) + if up { 1nat } else { 0nat })
        },
    }
}

/// The price key that a numeral writes: its value in ten-thousandths,
/// rounded to the nearest, if that fits.
pub open spec fn price_key_of(s: Seq<char>) -> Option<u32> {
    match decimal_value(s, PRICE_DECIMALS as nat, false) {
        Some(v) => if v <= u32::MAX {
            Some(v as u32)
        } else {
            None
        },
        None => None,
    }
}

/// The size that a numeral writes: its value in millionths, rounded up so
/// that no positive size becomes zero, if that fits.
pub open spec fn size_of(s: Seq<char>) -> Option<u64> {
    match decimal_value(s, SIZE_DECIMALS as nat, true) {
        Some(v) => if v <= u64::MAX {
            Some(v as u64)
        } else {
            None
        },
        None => None,
    }
}

/// A string starts with exactly one run of digits.
pub proof fn lemma_digit_run_unique(s: Seq<char>, k: int)
    requires
        is_digit_run(s, k),
    ensures
        digit_run_len(s) == k,
{
    let c = digit_run_len(s);
    assert(is_digit_run(s, c));
    if c < k {
        assert(is_digit(s[c]));
    }
    if k < c {
        assert(is_digit(s[k]));
    }
}

/// Appending digits does not make the number smaller.
pub proof fn lemma_digits_value_prefix(a: Seq<char>, b: Seq<char>)
    ensures
        digits_value(a + b) >= digits_value(a),
    decreases b.len(),
{
    if b.len() == 0 {
        assert(a + b == a);
    } else {
        assert((a + b).drop_last() == a + b.drop_last());
        lemma_digits_value_prefix(a, b.drop_last());
    }
}

/// Appending more zeros does not make the number smaller.
pub proof fn lemma_shift10_monotone(v: nat, j: nat, k: nat)
    requires
        j <= k,
    ensures
        shift10(v, j) <= shift10(v, k),
    decreases k,
{
    if j < k {
        lemma_shift10_monotone(v, j, (k - 1) as nat);
    }
}

fn is_digit_byte(b: u8) -> (r: bool)
    ensures
        r == (48 <= b && b <= 57),
{
    48 <= b && b <= 57
}

/// Reads the numeral `s` at the given scale. Returns `None` where `s` is not
/// a numeral or the result does not fit.
#[verifier::rlimit(40)]
pub fn parse_scaled(s: &str, scale: u32, ceil: bool) -> (r: Option<u64>)
    ensures
        r == (match decimal_value(s@, scale as nat, ceil) {
            Some(v) => if v <= u64::MAX {
                Some(v as u64)
            } else {
                None
            },
            None => None,
        }),
{
    broadcast use is_ascii_spec_bytes;

    let ghost cs = s@;
    if !s.is_ascii() {
        proof {
            let k = digit_run_len(cs);
            if decimal_parts(cs) is Some {
                let j = choose|j: int| 0 <= j < cs.len() && !('\0' <= #[trigger] cs[j] <= '\u{7f}');
                lemma_whole_digits(cs);
                if j < k {
                    assert(is_digit(cs[j]));
                } else if j > k {
                    assert(cs.skip(k + 1)[j - k - 1] == cs[j]);
                }
            }
        }
        return None;
    }
    let bytes = s.as_bytes();
    let n = bytes.len();
    assert(n == cs.len());
    assert(forall|j: int| 0 <= j < n ==> bytes@[j] == #[trigger] cs[j] as u8);
    // The run of digits that the numeral starts with.
    let mut whole_len: usize = 0;
    while whole_len < n && is_digit_byte(bytes[whole_len])
        invariant
            whole_len <= n,
            cs == s@,
            n == cs.len(),
            n == bytes@.len(),
            is_ascii_chars(cs),
            forall|j: int| 0 <= j < n ==> bytes@[j] == #[trigger] cs[j] as u8,
            forall|j: int| 0 <= j < whole_len ==> is_digit(#[trigger] cs[j]),
        decreases n - whole_len,
    {
        whole_len += 1;
    }
    proof {
        if whole_len < n {
            assert(bytes@[whole_len as int] == cs[whole_len as int] as u8);
        }
        assert(is_digit_run(cs, whole_len as int));
        lemma_digit_run_unique(cs, whole_len as int);
    }
    let mut frac_start: usize = whole_len;
    if whole_len < n {
        if bytes[whole_len] != 46 {
            assert(cs[whole_len as int] != '.');
            return None;
        }
        assert(cs[whole_len as int] == '.');
        frac_start = whole_len + 1;
    }
    // The rest must be digits.
    let mut i: usize = frac_start;
    while i < n
        invariant
            frac_start <= i <= n,
            cs == s@,
            n == cs.len(),
            n == bytes@.len(),
            is_ascii_chars(cs),
            whole_len <= n,
            digit_run_len(cs) == whole_len,
            whole_len < n ==> cs[whole_len as int] == '.' && frac_start == whole_len + 1,
            whole_len == n ==> frac_start == n,
            forall|j: int| 0 <= j < n ==> bytes@[j] == #[trigger] cs[j] as u8,
            forall|j: int| frac_start <= j < i ==> is_digit(#[trigger] cs[j]),
        decreases n - i,
    {
        if !is_digit_byte(bytes[i]) {
            proof {
                assert(bytes@[i as int] == cs[i as int] as u8);
                assert(!is_digit(cs[i as int]));
                let f = cs.skip(whole_len as int + 1);
                assert(f[i - frac_start] == cs[i as int]);
                assert(!all_digits(f));
            }
            return None;
        }
        proof {
            assert(bytes@[i as int] == cs[i as int] as u8);
        }
        i += 1;
    }
    let frac_len: usize = n - frac_start;
    if whole_len == 0 && frac_len == 0 {
        return None;
    }
    let ghost whole = cs.take(whole_len as int);
    let ghost frac = cs.skip(frac_start as int);
    proof {
        assert forall|j: int| 0 <= j < frac.len() implies is_digit(#[trigger] frac[j]) by {
            assert(frac[j] == cs[frac_start + j]);
        }
        if whole_len == n {
            assert(whole == cs);
            assert(frac == Seq::<char>::empty());
        }
        assert(decimal_parts(cs) == Some((whole, frac)));
    }
    let kept_frac: usize = if frac_len < scale as usize {
        frac_len
    } else {
        scale as usize
    };
    let ghost kept = kept_digits(whole, frac, scale as nat);
    let kept_len: usize = whole_len + kept_frac;
    assert(kept.len() == kept_len);
    // The digits that count, most significant first.
    let mut acc: u64 = 0;
    let mut j: usize = 0;
    while j < kept_len
        invariant
            j <= kept_len,
            kept_len == whole_len + kept_frac,
            kept.len() == kept_len,
            kept == kept_digits(whole, frac, scale as nat),
            whole == cs.take(whole_len as int),
            frac == cs.skip(frac_start as int),
            kept_frac <= frac_len,
            frac_len == n - frac_start,
            whole_len <= frac_start <= n,
            cs == s@,
            n == cs.len(),
            n == bytes@.len(),
            is_ascii_chars(cs),
            all_digits(frac),
            forall|t: int| 0 <= t < whole_len ==> is_digit(#[trigger] cs[t]),
            forall|t: int| 0 <= t < n ==> bytes@[t] == #[trigger] cs[t] as u8,
            acc == digits_value(kept.take(j as int)),
            decimal_parts(cs) == Some((whole, frac)),
            frac.len() == frac_len,
            kept_frac == (if frac_len < scale { frac_len } else { scale as usize }),
        decreases kept_len - j,
    {
        let at: usize = if j < whole_len {
            j
        } else {
            frac_start + (j - whole_len)
        };
        let b = bytes[at];
        proof {
            assert(bytes@[at as int] == cs[at as int] as u8);
            if j < whole_len {
                assert(kept[j as int] == whole[j as int]);
            } else {
                assert(kept[j as int] == frac[j - whole_len]);
                assert(frac[j - whole_len] == cs[at as int]);
                assert(is_digit(frac[j - whole_len]));
            }
            assert(kept[j as int] == cs[at as int]);
            assert(is_digit(cs[at as int]));
            assert(kept.take(j as int + 1).drop_last() == kept.take(j as int));
        }
        let d: u64 = (b - 48) as u64;
        assert(d == digit_value(kept[j as int]));
        if acc > (u64::MAX - d) / 10 {
            proof {
                assert(digits_value(kept.take(j as int + 1)) > u64::MAX);
                assert(kept == kept.take(j as int + 1) + kept.skip(j as int + 1));
                lemma_digits_value_prefix(kept.take(j as int + 1), kept.skip(j as int + 1));
                lemma_shift10_monotone(
                    digits_value(kept),
                    0,
                    (scale as nat - kept_frac as nat) as nat,
                );
                assert(scaled_floor(whole, frac, scale as nat) == shift10(
                    digits_value(kept),
                    (scale as nat - kept_frac as nat) as nat,
                ));
                assert(scaled_floor(whole, frac, scale as nat) > u64::MAX);
            }
            return None;
        }
        acc = acc * 10 + d;
        j += 1;
    }
    proof {
        assert(kept.take(kept_len as int) == kept);
    }
    // Zeros up to the scale.
    let mut places: usize = kept_frac;
    while places < scale as usize
        invariant
            cs == s@,
            kept_frac <= places <= scale,
            acc == shift10(digits_value(kept), (places - kept_frac) as nat),
            decimal_parts(cs) == Some((whole, frac)),
            kept == kept_digits(whole, frac, scale as nat),
            frac.len() == frac_len,
            kept_frac == (if frac_len < scale { frac_len } else { scale as usize }),
        decreases scale - places,
    {
        if acc > u64::MAX / 10 {
            proof {
                lemma_shift10_monotone(
                    digits_value(kept),
                    (places + 1 - kept_frac) as nat,
                    (scale - kept_frac) as nat,
                );
                assert(shift10(digits_value(kept), (places + 1 - kept_frac) as nat) == acc * 10);
                assert(scaled_floor(whole, frac, scale as nat) == shift10(
                    digits_value(kept),
                    (scale as nat - kept_frac as nat) as nat,
                ));
                assert(scaled_floor(whole, frac, scale as nat) > u64::MAX);
            }
            return None;
        }
        acc = acc * 10;
        places += 1;
    }
    assert(acc == scaled_floor(whole, frac, scale as nat));
    // Rounding from what lies beyond the scale.
    let mut up = false;
    if frac_len > scale as usize {
        if ceil {
            let mut t: usize = scale as usize;
            while t < frac_len && !up
                invariant
                    scale <= t <= frac_len,
                    frac_len == n - frac_start,
                    frac_start <= n,
                    n == cs.len(),
                    n == bytes@.len(),
            n == bytes@.len(),
                    frac == cs.skip(frac_start as int),
                    all_digits(frac),
                    is_ascii_chars(cs),
                    forall|x: int| 0 <= x < n ==> bytes@[x] == #[trigger] cs[x] as u8,
                    up ==> any_beyond(frac, scale as nat),
                    !up ==> forall|x: int| scale <= x < t ==> #[trigger] frac[x] == '0',
                decreases frac_len - t + if up { 0int } else { 1int },
            {
                proof {
                    assert(bytes@[frac_start + t] == cs[frac_start + t] as u8);
                    assert(frac[t as int] == cs[frac_start + t]);
                }
                if bytes[frac_start + t] != 48 {
                    up = true;
                } else {
                    t += 1;
                }
            }
        } else {
            proof {
                assert(bytes@[frac_start + scale] == cs[frac_start + scale] as u8);
                assert(frac[scale as int] == cs[frac_start + scale]);
                assert(is_digit(frac[scale as int]));
            }
            up = bytes[frac_start + scale as usize] >= 53;
        }
    }
    assert(up == (if ceil {
        any_beyond(frac, scale as nat)
    } else {
        half_or_more(frac, scale as nat)
    }));
    if up {
        if acc == u64::MAX {
            return None;
        }
        acc = acc + 1;
    }
    Some(acc)
}

/// Where `s` is a numeral, its whole part is its leading run of digits and
/// its fraction is made of digits.
proof fn lemma_whole_digits(s: Seq<char>)
    requires
        decimal_parts(s) is Some,
    ensures
        is_digit_run(s, digit_run_len(s)),
        digit_run_len(s) < s.len() ==> all_digits(s.skip(digit_run_len(s) + 1)),
{
    lemma_run_exists(s);
}

/// Every string starts with a run of digits, possibly empty.
proof fn lemma_run_exists(s: Seq<char>)
    ensures
        is_digit_run(s, digit_run_len(s)),
{
    lemma_run_from(s, 0);
}

/// The digits from the start up to `k` go on to a run of digits.
proof fn lemma_run_from(s: Seq<char>, k: int)
    requires
        0 <= k <= s.len(),
        forall|j: int| 0 <= j < k ==> is_digit(#[trigger] s[j]),
    ensures
        is_digit_run(s, digit_run_len(s)),
    decreases s.len() - k,
{
    if k < s.len() && is_digit(s[k]) {
        lemma_run_from(s, k + 1);
    } else {
        assert(is_digit_run(s, k));
    }
}

/// Reads a price numeral as a price key. A numeral with a sign or an
/// exponent, or anything else that is not digits around at most one point,
/// is not read: whatever carries it is treated as unreadable.
pub fn parse_price_key(s: &str) -> (r: Option<u32>)
    ensures
        r == price_key_of(s@),
{
    match parse_scaled(s, PRICE_DECIMALS, false) {
        Some(v) => if v <= u32::MAX as u64 {
            Some(v as u32)
        } else {
            None
        },
        None => None,
    }
}

/// Reads a size numeral as a size in millionths. A numeral with a sign or
/// an exponent, or anything else that is not digits around at most one
/// point, is not read: the level that carries it is skipped.
pub fn parse_size(s: &str) -> (r: Option<u64>)
    ensures
        r == size_of(s@),
{
    parse_scaled(s, SIZE_DECIMALS, true)
}

} // verus!
