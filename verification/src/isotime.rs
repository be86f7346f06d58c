//! Reading timestamps of the catalog as seconds since the epoch.

use vstd::prelude::*;
use vstd::string::*;
use crate::decimal::{all_digits, digit_value, digits_value, is_digit};
use crate::text::to_chars;

verus! {

/// Whether a character is white space.
pub open spec fn is_white_space(c: char) -> bool {
    let u = c as u32;
    (9 <= u && u <= 13) || u == 32 || u == 0x85 || u == 0xA0 || u == 0x1680 || (0x2000 <= u && u
        <= 0x200A) || u == 0x2028 || u == 0x2029 || u == 0x202F || u == 0x205F || u == 0x3000
}

/// Decides whether a character is white space.
pub fn white_space(c: char) -> (r: bool)
    ensures
        r == is_white_space(c),
{
    let u: u32 = c as u32;
    (9 <= u && u <= 13) || u == 32 || u == 0x85 || u == 0xA0 || u == 0x1680 || (0x2000 <= u && u
        <= 0x200A) || u == 0x2028 || u == 0x2029 || u == 0x202F || u == 0x205F || u == 0x3000
}

/// Whether `s` without its white space at both ends is `s[a..b]`.
pub open spec fn is_trim(s: Seq<char>, a: int, b: int) -> bool {
    &&& 0 <= a <= b <= s.len()
    &&& forall|j: int| 0 <= j < a ==> is_white_space(#[trigger] s[j])
    &&& forall|j: int| b <= j < s.len() ==> is_white_space(#[trigger] s[j])
    &&& a < b ==> !is_white_space(s[a]) && !is_white_space(s[b - 1])
}

/// `s` without its white space at both ends.
pub open spec fn trimmed(s: Seq<char>) -> Seq<char> {
    let p = choose|p: (int, int)| is_trim(s, p.0, p.1);
    s.subrange(p.0, p.1)
}

/// However the ends are found, what is left is the same.
pub proof fn lemma_trim_unique(s: Seq<char>, a: int, b: int)
    requires
        is_trim(s, a, b),
    ensures
        trimmed(s) == s.subrange(a, b),
{
    let p = choose|p: (int, int)| is_trim(s, p.0, p.1);
    assert(is_trim(s, (a, b).0, (a, b).1));
    assert(is_trim(s, p.0, p.1));
    if a < b {
        // s[a] and s[b - 1] are no white space, so they sit inside p
        if p.0 > a {
            assert(is_white_space(s[a]));
        }
        if p.1 < b {
            assert(is_white_space(s[b - 1]));
        }
        assert(p.0 <= a && b <= p.1);
        assert(p.0 < p.1);
        if p.0 < a {
            assert(is_white_space(s[p.0]));
        }
        if p.1 > b {
            assert(is_white_space(s[p.1 - 1]));
        }
    } else {
        if p.0 < p.1 {
            if p.0 < a {
                assert(is_white_space(s[p.0]));
            } else {
                assert(is_white_space(s[p.0]));
            }
        }
        assert(s.subrange(a, b) =~= s.subrange(p.0, p.1));
    }
}

/// Finds the part of `chars[from..to]` that is left without the white
/// space at its ends.
pub fn trim_range(chars: &Vec<char>, from: usize, to: usize) -> (r: (usize, usize))
    requires
        from <= to <= chars.len(),
    ensures
        from <= r.0 <= r.1 <= to,
        chars@.subrange(r.0 as int, r.1 as int) == trimmed(chars@.subrange(from as int, to as int)),
{
    let ghost part = chars@.subrange(from as int, to as int);
    let mut a: usize = from;
    while a < to && white_space(chars[a])
        invariant
            from <= a <= to,
            to <= chars.len(),
            part == chars@.subrange(from as int, to as int),
            forall|j: int| 0 <= j < a - from ==> is_white_space(#[trigger] part[j]),
        decreases to - a,
    {
        proof {
            assert(part[a - from] == chars@[a as int]);
        }
        a += 1;
    }
    let mut b: usize = to;
    while b > a && white_space(chars[b - 1])
        invariant
            from <= a <= b <= to,
            to <= chars.len(),
            part == chars@.subrange(from as int, to as int),
            forall|j: int| b - from <= j < part.len() ==> is_white_space(#[trigger] part[j]),
        decreases b,
    {
        proof {
            assert(part[b - 1 - from] == chars@[b - 1]);
        }
        b -= 1;
    }
    proof {
        if a < b {
            assert(part[a - from] == chars@[a as int]);
            assert(part[b - 1 - from] == chars@[b - 1]);
        }
        assert(is_trim(part, a - from, b - from));
        lemma_trim_unique(part, a - from, b - from);
        assert(part.subrange(a - from, b - from) =~= chars@.subrange(a as int, b as int));
    }
    (a, b)
}

/// `s` without one `Z` at its end.
pub open spec fn without_zulu(s: Seq<char>) -> Seq<char> {
    if s.len() > 0 && s.last() == 'Z' {
        s.drop_last()
    } else {
        s
    }
}

/// Whether `k` is where `s` has its first `.`, or the length of `s` where
/// it has none.
pub open spec fn is_first_point(s: Seq<char>, k: int) -> bool {
    &&& 0 <= k <= s.len()
    &&& forall|j: int| 0 <= j < k ==> #[trigger] s[j] != '.'
    &&& k < s.len() ==> s[k] == '.'
}

/// `s` up to its first `.`.
pub open spec fn before_point(s: Seq<char>) -> Seq<char> {
    s.take(choose|k: int| is_first_point(s, k))
}

pub proof fn lemma_first_point_unique(s: Seq<char>, k: int)
    requires
        is_first_point(s, k),
    ensures
        before_point(s) == s.take(k),
{
    let c = choose|c: int| is_first_point(s, c);
    assert(is_first_point(s, c));
    if c < k {
        assert(s[c] != '.');
    }
    if k < c {
        assert(s[k] != '.');
    }
}

/// The number that a field writes: an optional sign, then digits, at least
/// one.
pub open spec fn field_value(s: Seq<char>) -> Option<int> {
    if s.len() > 0 && s[0] == '-' {
        if s.len() > 1 && all_digits(s.skip(1)) {
            Some(-(digits_value(s.skip(1)) as int))
        } else {
            None
        }
    } else if s.len() > 0 && s[0] == '+' {
        if s.len() > 1 && all_digits(s.skip(1)) {
            Some(digits_value(s.skip(1)) as int)
        } else {
            None
        }
    } else if s.len() > 0 && all_digits(s) {
        Some(digits_value(s) as int)
    } else {
        None
    }
}

/// `a / b` rounded towards zero, for positive `b`.
pub open spec fn div_to_zero(a: int, b: int) -> int {
    if a >= 0 {
        a / b
    } else {
        -((-a) / b)
    }
}

/// Seconds from the epoch to the given civil time, by the day number of
/// its date.
pub open spec fn epoch_secs(year: int, month: int, day: int, hour: int, minute: int, second: int) -> int {
    let a = div_to_zero(14 - month, 12);
    let y = year + 4800 - a;
    let m = month + 12 * a - 3;
    let jdn = day + div_to_zero(153 * m + 2, 5) + 365 * y + div_to_zero(y, 4) - div_to_zero(y, 100)
        + div_to_zero(y, 400) - 32045;
    (jdn - 2_440_588) * 86400 + hour * 3600 + minute * 60 + second
}

/// The seconds since the epoch that a bare timestamp names: a date of ten
/// characters, `YYYY-MM-DD`, or anything that starts with the nineteen of
/// `YYYY-MM-DDThh:mm:ss`. The characters between the fields are not looked
/// at.
pub open spec fn stamp_secs(t: Seq<char>) -> Option<int> {
    if t.len() == 10 {
        match (field_value(t.subrange(0, 4)), field_value(t.subrange(5, 7)), field_value(
            t.subrange(8, 10),
        )) {
            (Some(y), Some(mo), Some(d)) => Some(epoch_secs(y, mo, d, 0, 0, 0)),
            _ => None,
        }
    } else if t.len() >= 19 {
        match (
            field_value(t.subrange(0, 4)),
            field_value(t.subrange(5, 7)),
            field_value(t.subrange(8, 10)),
            field_value(t.subrange(11, 13)),
            field_value(t.subrange(14, 16)),
            field_value(t.subrange(17, 19)),
        ) {
            (Some(y), Some(mo), Some(d), Some(h), Some(mi), Some(sec)) => Some(
                epoch_secs(y, mo, d, h, mi, sec),
            ),
            _ => None,
        }
    } else {
        None
    }
}

/// The part of a timestamp that is read: the timestamp without white space
/// at its ends, without a final `Z`, and up to its first `.`.
pub open spec fn stamp_of(s: Seq<char>) -> Seq<char> {
    before_point(without_zulu(trimmed(s)))
}

/// The seconds since the epoch that a timestamp names.
pub open spec fn iso_secs(s: Seq<char>) -> Option<int> {
    stamp_secs(stamp_of(s))
}

/// A field is short, so what it writes is small.
proof fn lemma_digits_bound_len(s: Seq<char>)
    requires
        s.len() <= 4,
    ensures
        s.len() == 0 ==> digits_value(s) == 0,
        s.len() == 1 ==> digits_value(s) <= 9,
        s.len() == 2 ==> digits_value(s) <= 99,
        s.len() == 3 ==> digits_value(s) <= 999,
        s.len() == 4 ==> digits_value(s) <= 9999,
    decreases s.len(),
{
    if s.len() > 0 {
        lemma_digits_bound_len(s.drop_last());
    }
}

/// Reads the characters `from..to` of a list, at most four, as a field.
fn parse_field(chars: &Vec<char>, from: usize, to: usize) -> (r: Option<i64>)
    requires
        from < to <= chars.len(),
        to - from <= 4,
    ensures
        match r {
            Some(v) => field_value(chars@.subrange(from as int, to as int)) == Some(v as int),
            None => field_value(chars@.subrange(from as int, to as int)) is None,
        },
        r is Some ==> -999 <= r->0 <= 9999,
        r is Some && to - from <= 2 ==> -9 <= r->0 <= 99,
{
    let ghost s = chars@.subrange(from as int, to as int);
    let first = chars[from];
    assert(s[0] == first);
    let negative = first == '-';
    let start: usize = if first == '-' || first == '+' {
        from + 1
    } else {
        from
    };
    let ghost digits = chars@.subrange(start as int, to as int);
    proof {
        if start > from {
            assert(digits =~= s.skip(1));
        } else {
            assert(digits =~= s);
        }
        lemma_digits_bound_len(digits);
    }
    if start == to {
        return None;
    }
    let mut acc: i64 = 0;
    let mut i: usize = start;
    assert(field_value(s) == (if all_digits(digits) {
        Some(
            if negative {
                -(digits_value(digits) as int)
            } else {
                digits_value(digits) as int
            },
        )
    } else {
        None
    }));
    while i < to
        invariant
            from <= start <= i <= to,
            to <= chars.len(),
            to - start <= 4,
            digits == chars@.subrange(start as int, to as int),
            field_value(chars@.subrange(from as int, to as int)) == (if all_digits(digits) {
                Some(
                    if negative {
                        -(digits_value(digits) as int)
                    } else {
                        digits_value(digits) as int
                    },
                )
            } else {
                None
            }),
            all_digits(digits.take(i - start)),
            acc == digits_value(digits.take(i - start)),
        decreases to - i,
    {
        let c = chars[i];
        proof {
            assert(digits[i - start] == c);
            assert(digits.take(i - start + 1).drop_last() =~= digits.take(i - start));
            lemma_digits_bound_len(digits.take(i - start));
        }
        if !('0' <= c && c <= '9') {
            proof {
                assert(!is_digit(digits[i - start]));
            }
            return None;
        }
        let d: i64 = (c as u32 - 48) as i64;
        assert(d == digit_value(c));
        acc = acc * 10 + d;
        proof {
            assert forall|j: int| 0 <= j < i - start + 1 implies is_digit(
                #[trigger] digits.take(i - start + 1)[j],
            ) by {
                if j < i - start {
                    assert(digits.take(i - start)[j] == digits[j]);
                }
            }
        }
        i += 1;
    }
    proof {
        assert(digits.take(to - start) =~= digits);
    }
    if negative {
        Some(-acc)
    } else {
        Some(acc)
    }
}

/// Computes [`epoch_secs`] for fields as short as a timestamp has them.
fn civil_to_epoch(year: i64, month: i64, day: i64, hour: i64, minute: i64, second: i64) -> (r: i64)
    requires
        -999 <= year <= 9999,
        -9 <= month <= 99,
        -9 <= day <= 99,
        -9 <= hour <= 99,
        -9 <= minute <= 99,
        -9 <= second <= 99,
    ensures
        r == epoch_secs(year as int, month as int, day as int, hour as int, minute as int, second as int),
{
    let a: i64 = if month <= 14 {
        (14 - month) / 12
    } else {
        -((month - 14) / 12)
    };
    let y: i64 = year + 4800 - a;
    let m: i64 = month + 12 * a - 3;
    assert(0 <= m <= 24);
    assert(3000 <= y <= 15000);
    let jdn: i64 = day + (153 * m + 2) / 5 + 365 * y + y / 4 - y / 100 + y / 400 - 32045;
    let unix_days: i64 = jdn - 2_440_588;
    unix_days * 86400 + hour * 3600 + minute * 60 + second
}

/// Finds the part of a timestamp that is read.
fn find_stamp(chars: &Vec<char>) -> (r: (usize, usize))
    ensures
        r.0 <= r.1 <= chars.len(),
        chars@.subrange(r.0 as int, r.1 as int) == stamp_of(chars@),
{
    let n = chars.len();
    let mut a: usize = 0;
    while a < n && white_space(chars[a])
        invariant
            a <= n,
            n == chars.len(),
            forall|j: int| 0 <= j < a ==> is_white_space(#[trigger] chars@[j]),
        decreases n - a,
    {
        a += 1;
    }
    let mut b: usize = n;
    while b > a && white_space(chars[b - 1])
        invariant
            a <= b <= n,
            n == chars.len(),
            forall|j: int| b <= j < n ==> is_white_space(#[trigger] chars@[j]),
        decreases b,
    {
        b -= 1;
    }
    proof {
        assert(is_trim(chars@, a as int, b as int));
        lemma_trim_unique(chars@, a as int, b as int);
    }
    let ghost t0 = chars@.subrange(a as int, b as int);
    if b > a && chars[b - 1] == 'Z' {
        proof {
            assert(t0.last() == chars@[b - 1]);
            assert(t0.drop_last() =~= chars@.subrange(a as int, b - 1));
        }
        b -= 1;
    } else {
        proof {
            if b > a {
                assert(t0.last() == chars@[b - 1]);
            }
        }
    }
    let ghost t1 = chars@.subrange(a as int, b as int);
    assert(t1 == without_zulu(trimmed(chars@)));
    let mut e: usize = a;
    while e < b && chars[e] != '.'
        invariant
            a <= e <= b,
            b <= chars.len(),
            t1 == chars@.subrange(a as int, b as int),
            forall|j: int| 0 <= j < e - a ==> #[trigger] t1[j] != '.',
        decreases b - e,
    {
        proof {
            assert(t1[e - a] == chars@[e as int]);
        }
        e += 1;
    }
    proof {
        if e < b {
            assert(t1[e - a] == chars@[e as int]);
        }
        assert(is_first_point(t1, e - a));
        lemma_first_point_unique(t1, e - a);
        assert(chars@.subrange(a as int, e as int) =~= t1.take(e - a));
    }
    (a, e)
}

/// Reads the date of a bare timestamp that starts at `a`.
fn read_date(chars: &Vec<char>, a: usize, e: usize) -> (r: Option<(i64, i64, i64)>)
    requires
        a <= e <= chars.len(),
        e - a >= 10,
    ensures
        ({
            let t = chars@.subrange(a as int, e as int);
            match r {
                Some(d) => field_value(t.subrange(0, 4)) == Some(d.0 as int) && field_value(
                    t.subrange(5, 7),
                ) == Some(d.1 as int) && field_value(t.subrange(8, 10)) == Some(d.2 as int)
                    && -999 <= d.0 <= 9999 && -9 <= d.1 <= 99 && -9 <= d.2 <= 99,
                None => field_value(t.subrange(0, 4)) is None || field_value(t.subrange(5, 7))
                    is None || field_value(t.subrange(8, 10)) is None,
            }
        }),
{
    let ghost t = chars@.subrange(a as int, e as int);
    proof {
        assert(t.subrange(0, 4) =~= chars@.subrange(a as int, a + 4));
        assert(t.subrange(5, 7) =~= chars@.subrange(a + 5, a + 7));
        assert(t.subrange(8, 10) =~= chars@.subrange(a + 8, a + 10));
    }
    let year = parse_field(chars, a, a + 4);
    let month = parse_field(chars, a + 5, a + 7);
    let day = parse_field(chars, a + 8, a + 10);
    match (year, month, day) {
        (Some(y), Some(mo), Some(d)) => Some((y, mo, d)),
        _ => None,
    }
}

/// Reads the time of day of a bare timestamp that starts at `a`.
fn read_time(chars: &Vec<char>, a: usize, e: usize) -> (r: Option<(i64, i64, i64)>)
    requires
        a <= e <= chars.len(),
        e - a >= 19,
    ensures
        ({
            let t = chars@.subrange(a as int, e as int);
            match r {
                Some(d) => field_value(t.subrange(11, 13)) == Some(d.0 as int) && field_value(
                    t.subrange(14, 16),
                ) == Some(d.1 as int) && field_value(t.subrange(17, 19)) == Some(d.2 as int)
                    && -9 <= d.0 <= 99 && -9 <= d.1 <= 99 && -9 <= d.2 <= 99,
                None => field_value(t.subrange(11, 13)) is None || field_value(
                    t.subrange(14, 16),
                ) is None || field_value(t.subrange(17, 19)) is None,
            }
        }),
{
    let ghost t = chars@.subrange(a as int, e as int);
    proof {
        assert(t.subrange(11, 13) =~= chars@.subrange(a + 11, a + 13));
        assert(t.subrange(14, 16) =~= chars@.subrange(a + 14, a + 16));
        assert(t.subrange(17, 19) =~= chars@.subrange(a + 17, a + 19));
    }
    let hour = parse_field(chars, a + 11, a + 13);
    let minute = parse_field(chars, a + 14, a + 16);
    let second = parse_field(chars, a + 17, a + 19);
    match (hour, minute, second) {
        (Some(h), Some(mi), Some(sec)) => Some((h, mi, sec)),
        _ => None,
    }
}

/// Reads a timestamp such as `2026-03-01T12:30:00Z` or `2026-03-01` as
/// seconds since the epoch.
pub fn parse_iso_to_unix_secs(s: &str) -> (r: Option<i64>)
    ensures
        match r {
            Some(v) => iso_secs(s@) == Some(v as int),
            None => iso_secs(s@) is None,
        },
{
    let chars = to_chars(s);
    let (a, e) = find_stamp(&chars);
    let len: usize = e - a;
    if len != 10 && len < 19 {
        return None;
    }
    let date = read_date(&chars, a, e);
    if len == 10 {
        match date {
            Some((y, mo, d)) => Some(civil_to_epoch(y, mo, d, 0, 0, 0)),
            None => None,
        }
    } else {
        let time = read_time(&chars, a, e);
        match (date, time) {
            (Some((y, mo, d)), Some((h, mi, sec))) => Some(civil_to_epoch(y, mo, d, h, mi, sec)),
            _ => None,
        }
    }
}

} // verus!
