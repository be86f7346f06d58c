//! Short texts for the status surface.

use vstd::prelude::*;
use vstd::string::*;
use vstd::utf8::{encode_utf8, is_char_boundary};
use crate::decimal::{
    all_digits, decimal_parts, decimal_value, digit_value, digits_value,
    half_or_more, is_digit, is_digit_run, kept_digits, lemma_digit_run_unique, price_key_of,
    scaled_floor, shift10, PRICE_DECIMALS,
};
use crate::text::str_eq;

verus! {

/// The digit that writes `d`.
pub open spec fn digit_char(d: nat) -> char {
    if d == 0 {
        '0'
    } else if d == 1 {
        '1'
    } else if d == 2 {
        '2'
    } else if d == 3 {
        '3'
    } else if d == 4 {
        '4'
    } else if d == 5 {
        '5'
    } else if d == 6 {
        '6'
    } else if d == 7 {
        '7'
    } else if d == 8 {
        '8'
    } else {
        '9'
    }
}

/// The digits that write `n` in base ten, without leading zeros.
pub open spec fn decimal_text(n: nat) -> Seq<char>
    decreases n,
{
    if n < 10 {
        seq![digit_char(n)]
    } else {
        decimal_text(n / 10).push(digit_char(n % 10))
    }
}

/// The text of one digit.
pub fn digit_str(d: u64) -> (r: &'static str)
    requires
        d < 10,
    ensures
        r@ == seq![digit_char(d as nat)],
{
    proof {
        reveal_strlit("0");
        reveal_strlit("1");
        reveal_strlit("2");
        reveal_strlit("3");
        reveal_strlit("4");
        reveal_strlit("5");
        reveal_strlit("6");
        reveal_strlit("7");
        reveal_strlit("8");
        reveal_strlit("9");
    }
    let r = if d == 0 {
        "0"
    } else if d == 1 {
        "1"
    } else if d == 2 {
        "2"
    } else if d == 3 {
        "3"
    } else if d == 4 {
        "4"
    } else if d == 5 {
        "5"
    } else if d == 6 {
        "6"
    } else if d == 7 {
        "7"
    } else if d == 8 {
        "8"
    } else {
        "9"
    };
    assert(r@ =~= seq![digit_char(d as nat)]);
    r
}

/// Writes a number in base ten.
pub fn u64_text(n: u64) -> (r: String)
    ensures
        r@ == decimal_text(n as nat),
{
    // the digits, least significant first
    let mut digits: Vec<u64> = Vec::new();
    let mut rest: u64 = n;
    while rest >= 10
        invariant
            forall|j: int| 0 <= j < digits@.len() ==> #[trigger] digits@[j] < 10,
            decimal_text(n as nat) == decimal_text(rest as nat) + Seq::new(
                digits@.len(),
                |j: int| digit_char(digits@[digits@.len() - 1 - j] as nat),
            ),
        decreases rest,
    {
        let ghost prev = digits@;
        digits.push(rest % 10);
        proof {
            let tail_prev = Seq::new(prev.len(), |j: int| digit_char(prev[prev.len() - 1 - j] as nat));
            let tail = Seq::new(
                digits@.len(),
                |j: int| digit_char(digits@[digits@.len() - 1 - j] as nat),
            );
            assert(tail =~= seq![digit_char((rest % 10) as nat)] + tail_prev);
            assert(decimal_text(rest as nat) == decimal_text((rest / 10) as nat).push(
                digit_char((rest % 10) as nat),
            ));
            assert(decimal_text((rest / 10) as nat).push(digit_char((rest % 10) as nat))
                + tail_prev =~= decimal_text((rest / 10) as nat) + tail);
        }
        rest = rest / 10;
    }
    let mut out = String::from_str(digit_str(rest));
    let ghost tail = Seq::new(
        digits@.len(),
        |j: int| digit_char(digits@[digits@.len() - 1 - j] as nat),
    );
    let mut k: usize = digits.len();
    proof {
        assert(out@ + tail.skip(0) =~= decimal_text(n as nat));
    }
    while k > 0
        invariant
            k <= digits.len(),
            forall|j: int| 0 <= j < digits@.len() ==> #[trigger] digits@[j] < 10,
            tail == Seq::new(
                digits@.len(),
                |j: int| digit_char(digits@[digits@.len() - 1 - j] as nat),
            ),
            out@ + tail.skip(digits@.len() - k) == decimal_text(n as nat),
        decreases k,
    {
        let ghost before = out@;
        let ghost at = digits@.len() - k;
        out.append(digit_str(digits[k - 1]));
        proof {
            assert(tail[at] == digit_char(digits@[k - 1] as nat));
            assert(tail.skip(at) =~= seq![tail[at]] + tail.skip(at + 1));
            assert(out@ + tail.skip(at + 1) =~= before + tail.skip(at));
        }
        k -= 1;
    }
    proof {
        assert(tail.skip(digits@.len() as int) =~= Seq::empty());
        assert(out@ + Seq::<char>::empty() =~= out@);
    }
    out
}

/// The text of a whole number: its digits, behind a `-` where it is
/// negative.
pub open spec fn int_text(v: int) -> Seq<char> {
    if v < 0 {
        seq!['-'] + decimal_text((-v) as nat)
    } else {
        decimal_text(v as nat)
    }
}

/// Writes a whole number in base ten.
pub fn i64_text(v: i64) -> (r: String)
    ensures
        r@ == int_text(v as int),
{
    if v >= 0 {
        u64_text(v as u64)
    } else {
        // -(v + 1) fits, and |v| is one more
        let magnitude: u64 = (-(v + 1)) as u64 + 1;
        let digits = u64_text(magnitude);
        proof {
            reveal_strlit("-");
        }
        let mut out = String::from_str("-");
        out.append(digits.as_str());
        assert(out@ =~= seq!['-'] + decimal_text((-v) as nat));
        out
    }
}

/// The label of a window's class: `noise` for a single-tick window, else
/// `P` and the priority, or a dash where there is none.
pub open spec fn class_text(opportunity_class: Option<i64>, open_duration_class: Option<Seq<char>>) -> Seq<
    char,
> {
    if open_duration_class == Some("single_tick"@) {
        "noise"@
    } else {
        match opportunity_class {
            Some(c) => "P"@ + int_text(c as int),
            None => "—"@,
        }
    }
}

/// Labels a window's class.
pub fn format_class(opportunity_class: Option<i64>, open_duration_class: Option<&str>) -> (r: String)
    ensures
        r@ == class_text(
            opportunity_class,
            match open_duration_class {
                Some(s) => Some(s@),
                None => None,
            },
        ),
{
    let single = match open_duration_class {
        Some(s) => str_eq(s, "single_tick"),
        None => false,
    };
    if single {
        return String::from_str("noise");
    }
    match opportunity_class {
        Some(c) => {
            let mut out = String::from_str("P");
            let digits = i64_text(c);
            out.append(digits.as_str());
            out
        },
        None => String::from_str("—"),
    }
}

/// The seconds that a time in nanoseconds shows: the whole seconds,
/// rounded towards zero, taken modulo 2^64.
pub open spec fn clock_secs(ns: i64) -> u64 {
    if ns >= 0 {
        (ns / 1_000_000_000) as u64
    } else if (-ns) / 1_000_000_000 == 0 {
        0
    } else {
        (0x1_0000_0000_0000_0000 - (-ns) / 1_000_000_000) as u64
    }
}

/// A number below a hundred as two digits.
pub open spec fn two_digits(v: nat) -> Seq<char> {
    seq![digit_char(v / 10), digit_char(v % 10)]
}

/// The time of day of a number of seconds, as `HH:MM:SS`.
pub open spec fn time_text(secs: u64) -> Seq<char> {
    two_digits(((secs / 3600) % 24) as nat) + seq![':'] + two_digits(((secs / 60) % 60) as nat)
        + seq![':'] + two_digits((secs % 60) as nat)
}

fn append_two_digits(out: &mut String, v: u64)
    requires
        v < 100,
    ensures
        final(out)@ == old(out)@ + two_digits(v as nat),
{
    out.append(digit_str(v / 10));
    out.append(digit_str(v % 10));
    assert(out@ =~= old(out)@ + two_digits(v as nat));
}

/// Writes the time of day of a timestamp in nanoseconds as `HH:MM:SS`.
pub fn format_time_ns(ns: i64) -> (r: String)
    ensures
        r@ == time_text(clock_secs(ns)),
{
    let secs: u64 = if ns >= 0 {
        (ns / 1_000_000_000) as u64
    } else {
        let whole: u64 = ((-(ns + 1)) as u64 + 1) / 1_000_000_000;
        if whole == 0 {
            0
        } else {
            u64::MAX - whole + 1
        }
    };
    proof {
        reveal_strlit(":");
    }
    let mut out = String::new();
    append_two_digits(&mut out, (secs / 3600) % 24);
    out.append(":");
    append_two_digits(&mut out, (secs / 60) % 60);
    out.append(":");
    append_two_digits(&mut out, secs % 60);
    assert(out@ =~= time_text(secs));
    out
}

/// The short form of a close reason; a dash for anything else.
pub open spec fn short_reason(r: Seq<char>) -> Seq<char> {
    if r == "volume_spike_gradual"@ {
        "vol-grad"@
    } else if r == "volume_spike_instant"@ {
        "vol-inst"@
    } else if r == "price_drift"@ {
        "drift"@
    } else if r == "order_vanished"@ {
        "vanished"@
    } else {
        "—"@
    }
}

/// Shortens the tag of a close reason.
pub fn shorten_reason(r: &str) -> (out: &'static str)
    ensures
        out@ == short_reason(r@),
{
    if str_eq(r, "volume_spike_gradual") {
        "vol-grad"
    } else if str_eq(r, "volume_spike_instant") {
        "vol-inst"
    } else if str_eq(r, "price_drift") {
        "drift"
    } else if str_eq(r, "order_vanished") {
        "vanished"
    } else {
        "—"
    }
}

/// Where a text longer than `max` bytes is cut: one byte short of `max`,
/// to leave room for the ellipsis.
pub open spec fn cut_at(max: usize) -> int {
    if max == 0 {
        0
    } else {
        max - 1
    }
}

/// Shortens a text to about `max` bytes: a text of at most `max` bytes is
/// returned as it is; a longer one is cut one byte short of `max` and given
/// an ellipsis. The cut must not fall inside a character.
pub fn truncate(s: &str, max: usize) -> (r: String)
    requires
        s.spec_bytes().len() <= max || is_char_boundary(s.spec_bytes(), cut_at(max)),
    ensures
        s.spec_bytes().len() <= max ==> r@ == s@,
        s.spec_bytes().len() > max ==> r@.len() > 0 && r@.last() == '…' && encode_utf8(
            r@.drop_last(),
        ) == s.spec_bytes().subrange(0, cut_at(max)),
{
    if s.as_bytes().len() <= max {
        s.to_owned()
    } else {
        let cut: usize = if max == 0 {
            0
        } else {
            max - 1
        };
        let (head, _) = s.split_at(cut);
        let mut out: String = head.to_owned();
        proof {
            reveal_strlit("…");
        }
        out.append("…");
        proof {
            assert(out@.drop_last() =~= head@);
            assert(head.spec_bytes() == encode_utf8(head@));
            assert(out@.last() == '…');
        }
        out
    }
}

/// The four decimal places of a number below ten thousand.
pub open spec fn four_digits(r: nat) -> Seq<char> {
    seq![
        digit_char((r / 100) / 10),
        digit_char((r / 100) % 10),
        digit_char((r % 100) / 10),
        digit_char((r % 100) % 10),
    ]
}

/// The numeral of a price key: the whole units, a point, and the four
/// decimal places.
pub open spec fn price_text(key: u32) -> Seq<char> {
    decimal_text((key / 10_000) as nat) + seq!['.'] + four_digits((key % 10_000) as nat)
}

/// Writes a price key as a numeral with four decimal places: 5500 is
/// `0.5500`.
pub fn format_price_key(key: u32) -> (r: String)
    ensures
        r@ == price_text(key),
{
    let units: u64 = (key / 10_000) as u64;
    let places: u64 = (key % 10_000) as u64;
    let mut out = u64_text(units);
    proof {
        reveal_strlit(".");
    }
    out.append(".");
    let upper: u64 = places / 100;
    let lower: u64 = places % 100;
    out.append(digit_str(upper / 10));
    out.append(digit_str(upper % 10));
    out.append(digit_str(lower / 10));
    out.append(digit_str(lower % 10));
    assert(out@ =~= price_text(key));
    out
}

/// The digits that write a number are digits, and write that number.
pub proof fn lemma_decimal_text(n: nat)
    ensures
        decimal_text(n).len() >= 1,
        all_digits(decimal_text(n)),
        digits_value(decimal_text(n)) == n,
    decreases n,
{
    if n < 10 {
        let t = decimal_text(n);
        assert(t.drop_last() =~= Seq::<char>::empty());
        assert(digits_value(t.drop_last()) == 0);
        assert(digit_value(digit_char(n)) == n);
    } else {
        lemma_decimal_text(n / 10);
        let t = decimal_text(n);
        assert(t.drop_last() =~= decimal_text(n / 10));
        assert(digit_value(digit_char(n % 10)) == n % 10);
        assert forall|i: int| 0 <= i < t.len() implies is_digit(#[trigger] t[i]) by {
            if i < t.len() - 1 {
                assert(t[i] == decimal_text(n / 10)[i]);
            }
        }
    }
}

/// Appending one digit to a run of digits multiplies by ten and adds.
proof fn lemma_push_digit(s: Seq<char>, d: nat)
    requires
        d < 10,
    ensures
        digits_value(s.push(digit_char(d))) == digits_value(s) * 10 + d,
{
    assert(s.push(digit_char(d)).drop_last() =~= s);
    assert(digit_value(digit_char(d)) == d);
}

/// The numeral of a price key parts into its whole units and its four
/// decimal places.
proof fn lemma_price_text_parts(key: u32)
    ensures
        decimal_parts(price_text(key)) == Some(
            (decimal_text((key / 10_000) as nat), four_digits((key % 10_000) as nat)),
        ),
{
    let whole = decimal_text((key / 10_000) as nat);
    let frac = four_digits((key % 10_000) as nat);
    let text = price_text(key);
    lemma_decimal_text((key / 10_000) as nat);
    let k = whole.len() as int;
    assert(text.len() == k + 5);
    assert forall|j: int| 0 <= j < k implies is_digit(#[trigger] text[j]) by {
        assert(text[j] == whole[j]);
    }
    assert(text[k] == '.');
    assert(is_digit_run(text, k));
    lemma_digit_run_unique(text, k);
    assert(text.skip(k + 1) =~= frac);
    assert(text.take(k) =~= whole);
    assert(all_digits(frac));
}

/// The whole units followed by the four decimal places write the key.
proof fn lemma_price_text_value(key: u32)
    ensures
        digits_value(
            decimal_text((key / 10_000) as nat) + four_digits((key % 10_000) as nat),
        ) == key,
{
    let q = (key / 10_000) as nat;
    let r = (key % 10_000) as nat;
    let whole = decimal_text(q);
    lemma_decimal_text(q);
    let hi = r / 100;
    let lo = r % 100;
    let d1 = hi / 10;
    let d2 = hi % 10;
    let d3 = lo / 10;
    let d4 = lo % 10;
    assert(r == hi * 100 + lo);
    assert(hi == d1 * 10 + d2);
    assert(lo == d3 * 10 + d4);
    assert(hi < 100);
    let s1 = whole.push(digit_char(d1));
    let s2 = s1.push(digit_char(d2));
    let s3 = s2.push(digit_char(d3));
    let s4 = s3.push(digit_char(d4));
    assert(whole + four_digits(r) =~= s4);
    lemma_push_digit(whole, d1);
    lemma_push_digit(s1, d2);
    lemma_push_digit(s2, d3);
    lemma_push_digit(s3, d4);
    let v0 = digits_value(whole);
    let v1 = digits_value(s1);
    let v2 = digits_value(s2);
    let v3 = digits_value(s3);
    let v4 = digits_value(s4);
    assert(v0 == q);
    assert(v1 == q * 10 + d1);
    assert(v2 == q * 100 + d1 * 10 + d2);
    assert(v3 == q * 1000 + d1 * 100 + d2 * 10 + d3);
    assert(v4 == q * 10_000 + d1 * 1000 + d2 * 100 + d3 * 10 + d4);
    assert(q * 10_000 + r == key);
}

/// A price key that is written and read again is the same key: reading
/// the numeral of a key gives that key back.
pub proof fn lemma_price_key_round_trip(key: u32)
    ensures
        price_key_of(price_text(key)) == Some(key),
{
    let whole = decimal_text((key / 10_000) as nat);
    let frac = four_digits((key % 10_000) as nat);
    let text = price_text(key);
    let scale = PRICE_DECIMALS as nat;
    lemma_price_text_parts(key);
    lemma_price_text_value(key);
    assert(frac.take(4) =~= frac);
    assert(kept_digits(whole, frac, scale) == whole + frac);
    assert(shift10(digits_value(whole + frac), 0) == digits_value(whole + frac));
    assert(scaled_floor(whole, frac, scale) == key);
    assert(!half_or_more(frac, scale));
    assert(decimal_value(text, scale, false) == Some(key as nat));
}

} // verus!
