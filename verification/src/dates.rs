//! The date normalizer: rewrites the twelve three-letter Cyrillic month
//! abbreviations into two-digit numbers in a single left-to-right scan,
//! parses the result as `D MM YYYY в H:MM:SS` (trailing text ignored), and
//! converts the civil date and time to Unix seconds on the proleptic
//! Gregorian calendar.

use vstd::prelude::*;
use crate::errors::ChatError;
use crate::text::{
    chars_vec, digits_end, digits_to_u32, digits_value, is_digit, lemma_digits_end, scan_digits,
};

verus! {

/// Month number (1 to 12) when the three characters spell one of the twelve
/// fixed Cyrillic month abbreviations; 0 otherwise.
pub open spec fn month_num(a: char, b: char, c: char) -> int {
    if a == 'я' && b == 'н' && c == 'в' {
        1
    } else if a == 'ф' && b == 'е' && c == 'в' {
        2
    } else if a == 'м' && b == 'а' && c == 'р' {
        3
    } else if a == 'а' && b == 'п' && c == 'р' {
        4
    } else if a == 'м' && b == 'а' && c == 'я' {
        5
    } else if a == 'и' && b == 'ю' && c == 'н' {
        6
    } else if a == 'и' && b == 'ю' && c == 'л' {
        7
    } else if a == 'а' && b == 'в' && c == 'г' {
        8
    } else if a == 'с' && b == 'е' && c == 'н' {
        9
    } else if a == 'о' && b == 'к' && c == 'т' {
        10
    } else if a == 'н' && b == 'о' && c == 'я' {
        11
    } else if a == 'д' && b == 'е' && c == 'к' {
        12
    } else {
        0
    }
}

/// The two-digit replacement of month `m`.
pub open spec fn month_rep(m: int) -> Seq<char> {
    if m == 1 {
        seq!['0', '1']
    } else if m == 2 {
        seq!['0', '2']
    } else if m == 3 {
        seq!['0', '3']
    } else if m == 4 {
        seq!['0', '4']
    } else if m == 5 {
        seq!['0', '5']
    } else if m == 6 {
        seq!['0', '6']
    } else if m == 7 {
        seq!['0', '7']
    } else if m == 8 {
        seq!['0', '8']
    } else if m == 9 {
        seq!['0', '9']
    } else if m == 10 {
        seq!['1', '0']
    } else if m == 11 {
        seq!['1', '1']
    } else {
        seq!['1', '2']
    }
}

/// One left-to-right pass over `s`: at each position, if the next three
/// characters spell a month abbreviation, emit its two-digit number and
/// skip the three characters; otherwise copy one character. This is the
/// simultaneous multi-pattern substitution of the date normalizer.
pub open spec fn spec_replace_months(s: Seq<char>) -> Seq<char>
    decreases s.len(),
{
    if s.len() >= 3 && month_num(s[0], s[1], s[2]) != 0 {
        month_rep(month_num(s[0], s[1], s[2])) + spec_replace_months(s.skip(3))
    } else if s.len() > 0 {
        seq![s[0]] + spec_replace_months(s.skip(1))
    } else {
        Seq::<char>::empty()
    }
}

/// Exec mirror of `month_num`.
pub fn month_num_of(a: char, b: char, c: char) -> (r: u32)
    ensures
        r == month_num(a, b, c),
        r <= 12,
{
    if a == 'я' && b == 'н' && c == 'в' {
        1
    } else if a == 'ф' && b == 'е' && c == 'в' {
        2
    } else if a == 'м' && b == 'а' && c == 'р' {
        3
    } else if a == 'а' && b == 'п' && c == 'р' {
        4
    } else if a == 'м' && b == 'а' && c == 'я' {
        5
    } else if a == 'и' && b == 'ю' && c == 'н' {
        6
    } else if a == 'и' && b == 'ю' && c == 'л' {
        7
    } else if a == 'а' && b == 'в' && c == 'г' {
        8
    } else if a == 'с' && b == 'е' && c == 'н' {
        9
    } else if a == 'о' && b == 'к' && c == 'т' {
        10
    } else if a == 'н' && b == 'о' && c == 'я' {
        11
    } else if a == 'д' && b == 'е' && c == 'к' {
        12
    } else {
        0
    }
}

/// The two digit characters that replace month `m`.
fn month_rep_chars(m: u32) -> (r: (char, char))
    requires
        1 <= m <= 12,
    ensures
        month_rep(m as int) == seq![r.0, r.1],
{
    let tens: char = if m < 10 { '0' } else { '1' };
    let ones: char = if m == 1 || m == 11 {
        '1'
    } else if m == 2 || m == 12 {
        '2'
    } else if m == 3 {
        '3'
    } else if m == 4 {
        '4'
    } else if m == 5 {
        '5'
    } else if m == 6 {
        '6'
    } else if m == 7 {
        '7'
    } else if m == 8 {
        '8'
    } else if m == 9 {
        '9'
    } else {
        '0'
    };
    proof {
        assert(month_rep(m as int) =~= seq![tens, ones]);
    }
    (tens, ones)
}

/// Replace every month abbreviation of `v` in one linear scan.
pub fn replace_months(v: &Vec<char>) -> (r: Vec<char>)
    ensures
        r@ == spec_replace_months(v@),
{
    let n = v.len();
    let mut out: Vec<char> = Vec::new();
    let mut i: usize = 0;
    proof {
        assert(v@.skip(0) =~= v@);
    }
    while i < n
        invariant
            n == v@.len(),
            i <= n,
            spec_replace_months(v@) == out@ + spec_replace_months(v@.skip(i as int)),
        decreases n - i,
    {
        let ghost rest = v@.skip(i as int);
        if n - i >= 3 {
            let m = month_num_of(v[i], v[i + 1], v[i + 2]);
            if m != 0 {
                let (tens, ones) = month_rep_chars(m);
                out.push(tens);
                out.push(ones);
                proof {
                    assert(rest.len() >= 3);
                    assert(rest[0] == v@[i as int] && rest[1] == v@[i as int + 1]
                        && rest[2] == v@[i as int + 2]);
                    assert(rest.skip(3) =~= v@.skip(i as int + 3));
                    assert(spec_replace_months(rest) == month_rep(m as int)
                        + spec_replace_months(v@.skip(i as int + 3)));
                    assert(out@ =~= out@.subrange(0, out@.len() - 2) + month_rep(m as int));
                    assert(spec_replace_months(v@) == out@ + spec_replace_months(
                        v@.skip(i as int + 3)));
                }
                i = i + 3;
                continue;
            }
        }
        out.push(v[i]);
        proof {
            assert(rest[0] == v@[i as int]);
            if rest.len() >= 3 {
                assert(rest[1] == v@[i as int + 1] && rest[2] == v@[i as int + 2]);
            }
            assert(rest.skip(1) =~= v@.skip(i as int + 1));
            assert(spec_replace_months(rest) == seq![rest[0]] + spec_replace_months(
                v@.skip(i as int + 1)));
            assert(out@ =~= out@.subrange(0, out@.len() - 1) + seq![rest[0]]);
            assert(spec_replace_months(v@) == out@ + spec_replace_months(v@.skip(i as int + 1)));
        }
        i = i + 1;
    }
    proof {
        assert(v@.skip(n as int) =~= Seq::<char>::empty());
        assert(out@ =~= spec_replace_months(v@));
    }
    out
}

/// The six numeric fields of a date/time text: day, month, year, hour,
/// minute, second — when the text matches
/// `D[D] M[M] YYYY в H[H]:M[M]:S[S]`, with anything after the seconds
/// ignored.
pub open spec fn spec_parse_dt(s: Seq<char>) -> Option<(int, int, int, int, int, int)> {
    let n = s.len() as int;
    let d_end = digits_end(s, 0);
    let m_start = d_end + 1;
    let m_end = digits_end(s, m_start);
    let y_start = m_end + 1;
    let y_end = digits_end(s, y_start);
    let h_start = y_end + 3;
    let h_end = digits_end(s, h_start);
    let mi_start = h_end + 1;
    let mi_end = digits_end(s, mi_start);
    let s_start = mi_end + 1;
    let s_end = digits_end(s, s_start);
    if !(1 <= d_end <= 2 && d_end < n && s[d_end] == ' ') {
        None
    } else if !(1 <= m_end - m_start <= 2 && m_end < n && s[m_end] == ' ') {
        None
    } else if !(y_end - y_start == 4 && y_end + 2 < n && s[y_end] == ' ' && s[y_end + 1] == 'в'
        && s[y_end + 2] == ' ') {
        None
    } else if !(1 <= h_end - h_start <= 2 && h_end < n && s[h_end] == ':') {
        None
    } else if !(1 <= mi_end - mi_start <= 2 && mi_end < n && s[mi_end] == ':') {
        None
    } else if !(1 <= s_end - s_start <= 2) {
        None
    } else {
        Some(
            (
                digits_value(s.subrange(0, d_end)),
                digits_value(s.subrange(m_start, m_end)),
                digits_value(s.subrange(y_start, y_end)),
                digits_value(s.subrange(h_start, h_end)),
                digits_value(s.subrange(mi_start, mi_end)),
                digits_value(s.subrange(s_start, s_end)),
            ),
        )
    }
}

/// Scan the six numeric fields out of a (substituted) date/time text.
pub fn parse_dt_chars(v: &Vec<char>) -> (r: Option<(u32, u32, u32, u32, u32, u32)>)
    ensures
        ({
            match spec_parse_dt(v@) {
                None => r is None,
                Some(p) => r == Some(
                    (p.0 as u32, p.1 as u32, p.2 as u32, p.3 as u32, p.4 as u32, p.5 as u32),
                ) && 0 <= p.0 <= 9999 && 0 <= p.1 <= 9999 && 0 <= p.2 <= 9999 && 0 <= p.3 <= 9999
                    && 0 <= p.4 <= 9999 && 0 <= p.5 <= 9999,
            }
        }),
{
    let n = v.len();
    proof {
        lemma_digits_end(v@, 0);
    }
    let d_end = scan_digits(v, 0);
    if !(1 <= d_end && d_end <= 2 && d_end < n && v[d_end] == ' ') {
        return None;
    }
    let m_start = d_end + 1;
    proof {
        lemma_digits_end(v@, m_start as int);
    }
    let m_end = scan_digits(v, m_start);
    if !(m_start < m_end && m_end - m_start <= 2 && m_end < n && v[m_end] == ' ') {
        return None;
    }
    let y_start = m_end + 1;
    proof {
        lemma_digits_end(v@, y_start as int);
    }
    let y_end = scan_digits(v, y_start);
    if !(y_end - y_start == 4 && y_end + 2 < n && v[y_end] == ' ' && v[y_end + 1] == 'в'
        && v[y_end + 2] == ' ') {
        return None;
    }
    let h_start = y_end + 3;
    proof {
        lemma_digits_end(v@, h_start as int);
    }
    let h_end = scan_digits(v, h_start);
    if !(h_start < h_end && h_end - h_start <= 2 && h_end < n && v[h_end] == ':') {
        return None;
    }
    let mi_start = h_end + 1;
    proof {
        lemma_digits_end(v@, mi_start as int);
    }
    let mi_end = scan_digits(v, mi_start);
    if !(mi_start < mi_end && mi_end - mi_start <= 2 && mi_end < n && v[mi_end] == ':') {
        return None;
    }
    let s_start = mi_end + 1;
    proof {
        lemma_digits_end(v@, s_start as int);
    }
    let s_end = scan_digits(v, s_start);
    if !(s_start < s_end && s_end - s_start <= 2) {
        return None;
    }
    let day = digits_to_u32(v, 0, d_end);
    let month = digits_to_u32(v, m_start, m_end);
    let year = digits_to_u32(v, y_start, y_end);
    let hour = digits_to_u32(v, h_start, h_end);
    let minute = digits_to_u32(v, mi_start, mi_end);
    let second = digits_to_u32(v, s_start, s_end);
    Some((day, month, year, hour, minute, second))
}

/// A leap year of the proleptic Gregorian calendar.
pub open spec fn is_leap_year(y: int) -> bool {
    y % 4 == 0 && (y % 100 != 0 || y % 400 == 0)
}

/// Days of month `m` in year `y`.
pub open spec fn days_in_month(y: int, m: int) -> int {
    if m == 2 {
        if is_leap_year(y) {
            29
        } else {
            28
        }
    } else if m == 4 || m == 6 || m == 9 || m == 11 {
        30
    } else {
        31
    }
}

/// A civil date and time the normalizer accepts: a real calendar day of
/// years 0 to 9999 and a wall-clock time.
pub open spec fn valid_civil(d: int, m: int, y: int, h: int, mi: int, s: int) -> bool {
    &&& 0 <= y <= 9999
    &&& 1 <= m <= 12
    &&& 1 <= d <= days_in_month(y, m)
    &&& 0 <= h <= 23
    &&& 0 <= mi <= 59
    &&& 0 <= s <= 59
}

/// Days between 1970-01-01 and the civil date `y-m-d` on the proleptic
/// Gregorian calendar (negative for earlier days).
pub open spec fn days_from_civil(y: int, m: int, d: int) -> int {
    let yy = if m <= 2 {
        y - 1
    } else {
        y
    };
    let era = yy / 400;
    let yoe = yy - era * 400;
    let mp = if m > 2 {
        m - 3
    } else {
        m + 9
    };
    let doy = (153 * mp + 2) / 5 + d - 1;
    let doe = yoe * 365 + yoe / 4 - yoe / 100 + doy;
    era * 146097 + doe - 719468
}

/// Unix seconds of the civil date and time.
pub open spec fn civil_secs(d: int, m: int, y: int, h: int, mi: int, s: int) -> int {
    days_from_civil(y, m, d) * 86400 + h * 3600 + mi * 60 + s
}

/// What the date normalizer yields for a raw date/time text: substitute
/// the month abbreviations, scan the six fields, and convert to Unix
/// seconds; nothing for text that does not match or does not name a real
/// calendar day.
pub open spec fn spec_normalize_date(s: Seq<char>) -> Option<int> {
    match spec_parse_dt(spec_replace_months(s)) {
        None => None,
        Some(p) => {
            if valid_civil(p.0, p.1, p.2, p.3, p.4, p.5) {
                Some(civil_secs(p.0, p.1, p.2, p.3, p.4, p.5))
            } else {
                None
            }
        },
    }
}

/// Exec mirror of `days_in_month`.
fn days_in_month_of(y: u32, m: u32) -> (r: u32)
    requires
        1 <= m <= 12,
    ensures
        r == days_in_month(y as int, m as int),
{
    if m == 2 {
        if y % 4 == 0 && (y % 100 != 0 || y % 400 == 0) {
            29
        } else {
            28
        }
    } else if m == 4 || m == 6 || m == 9 || m == 11 {
        30
    } else {
        31
    }
}

/// Unix seconds of a valid civil date and time.
fn civil_secs_of(d: u32, m: u32, y: u32, h: u32, mi: u32, s: u32) -> (r: i64)
    requires
        valid_civil(d as int, m as int, y as int, h as int, mi as int, s as int),
    ensures
        r == civil_secs(d as int, m as int, y as int, h as int, mi as int, s as int),
        -75_000_000_000 <= r <= 254_000_000_000,
{
    let yi: i64 = y as i64;
    let yy: i64 = if m <= 2 {
        yi - 1
    } else {
        yi
    };
    let mut era: i64 = -1;
    let mut yoe: u64 = 399;
    if yy >= 0 {
        proof {
            vstd::arithmetic::div_mod::lemma_fundamental_div_mod(yy as int, 400);
        }
        let e: u64 = (yy as u64) / 400;
        era = e as i64;
        yoe = (yy as u64) - e * 400;
    } else {
        proof {
            assert(yy == -1);
            vstd::arithmetic::div_mod::lemma_fundamental_div_mod(-1, 400);
        }
    }
    proof {
        assert(era == (yy as int) / 400);
        assert(yoe == yy - era * 400);
        assert(0 <= yoe < 400);
        assert(-1 <= era <= 24);
    }
    let mp: u64 = if m > 2 {
        (m - 3) as u64
    } else {
        (m + 9) as u64
    };
    proof {
        vstd::arithmetic::div_mod::lemma_fundamental_div_mod(153 * (mp as int) + 2, 5);
    }
    let doy: u64 = (153 * mp + 2) / 5 + (d as u64) - 1;
    proof {
        assert(doy == (153 * (mp as int) + 2) / 5 + d - 1);
        assert(doy <= 367);
        vstd::arithmetic::div_mod::lemma_fundamental_div_mod(yoe as int, 4);
        vstd::arithmetic::div_mod::lemma_fundamental_div_mod(yoe as int, 100);
        assert((yoe as int) / 4 >= (yoe as int) / 100);
        assert((yoe as int) / 4 <= 99);
    }
    let doe: u64 = yoe * 365 + yoe / 4 - yoe / 100 + doy;
    proof {
        assert(doe == (yoe as int) * 365 + (yoe as int) / 4 - (yoe as int) / 100 + doy);
        assert(doe <= 146101);
    }
    let days: i64 = era * 146097 + (doe as i64) - 719468;
    let secs: i64 = days * 86400 + (h as i64) * 3600 + (mi as i64) * 60 + (s as i64);
    proof {
        assert(days == days_from_civil(y as int, m as int, d as int));
        assert(-865565 <= days <= 2932961);
        assert(secs == civil_secs(d as int, m as int, y as int, h as int, mi as int, s as int));
    }
    secs
}

/// No month abbreviation occurs anywhere in `s`.
pub open spec fn no_month(s: Seq<char>) -> bool {
    forall|i: int|
        0 <= i && i + 3 <= s.len() ==> #[trigger] month_num(s[i], s[i + 1], s[i + 2]) == 0
}

/// One instance of `no_month`, in the exact shape its quantifier offers.
proof fn no_month_at(s: Seq<char>, i: int)
    requires
        no_month(s),
        0 <= i,
        i + 3 <= s.len(),
    ensures
        month_num(s[i], s[i + 1], s[i + 2]) == 0,
{
}

/// Month abbreviations consist of Cyrillic letters: no pattern character
/// is an ASCII digit.
proof fn lemma_pattern_chars_not_digits(a: char, b: char, c: char)
    ensures
        month_num(a, b, c) != 0 ==> !is_digit(a) && !is_digit(b) && !is_digit(c),
{
}

/// Every replacement consists of two ASCII digits.
proof fn lemma_rep_digits(m: int)
    requires
        1 <= m <= 12,
    ensures
        month_rep(m).len() == 2,
        is_digit(month_rep(m)[0]),
        is_digit(month_rep(m)[1]),
{
}

/// The substitution's output holds no month abbreviation: copied
/// characters that stand adjacent in the output were adjacent in the
/// input — where the scan found no pattern — and replacement digits can
/// be part of no pattern.
proof fn lemma_replace_no_month(s: Seq<char>)
    ensures
        no_month(spec_replace_months(s)),
    decreases s.len(),
{
    let out = spec_replace_months(s);
    if s.len() >= 3 && month_num(s[0], s[1], s[2]) != 0 {
        let m = month_num(s[0], s[1], s[2]);
        let out3 = spec_replace_months(s.skip(3));
        lemma_replace_no_month(s.skip(3));
        lemma_rep_digits(m);
        assert(out == month_rep(m) + out3);
        assert forall|i: int| 0 <= i && i + 3 <= out.len() implies #[trigger] month_num(
            out[i],
            out[i + 1],
            out[i + 2],
        ) == 0 by {
            if i == 0 {
                lemma_pattern_chars_not_digits(out[0], out[1], out[2]);
            } else if i == 1 {
                lemma_pattern_chars_not_digits(out[1], out[2], out[3]);
            } else {
                let j = i - 2;
                assert(out[i] == out3[j] && out[i + 1] == out3[j + 1] && out[i + 2]
                    == out3[j + 2]);
                no_month_at(out3, j);
            }
        }
    } else if s.len() > 0 {
        let s1 = s.skip(1);
        let out1 = spec_replace_months(s1);
        lemma_replace_no_month(s1);
        assert(out == seq![s[0]] + out1);
        assert forall|i: int| 0 <= i && i + 3 <= out.len() implies #[trigger] month_num(
            out[i],
            out[i + 1],
            out[i + 2],
        ) == 0 by {
            if i >= 1 {
                let j = i - 1;
                assert(out[i] == out1[j] && out[i + 1] == out1[j + 1] && out[i + 2] == out1[j
                    + 2]);
                no_month_at(out1, j);
            } else {
                assert(out[0] == s[0]);
                if s1.len() >= 3 && month_num(s1[0], s1[1], s1[2]) != 0 {
                    let m1 = month_num(s1[0], s1[1], s1[2]);
                    lemma_rep_digits(m1);
                    assert(out[1] == month_rep(m1)[0]);
                    lemma_pattern_chars_not_digits(out[0], out[1], out[2]);
                } else {
                    assert(s1.len() > 0);
                    let s2 = s1.skip(1);
                    let out2 = spec_replace_months(s2);
                    assert(out1 == seq![s1[0]] + out2);
                    assert(out[1] == s1[0] && s1[0] == s[1]);
                    if s2.len() >= 3 && month_num(s2[0], s2[1], s2[2]) != 0 {
                        let m2 = month_num(s2[0], s2[1], s2[2]);
                        lemma_rep_digits(m2);
                        assert(out[2] == month_rep(m2)[0]);
                        lemma_pattern_chars_not_digits(out[0], out[1], out[2]);
                    } else {
                        assert(s2.len() > 0);
                        let s3 = s2.skip(1);
                        assert(out2 == seq![s2[0]] + spec_replace_months(s3));
                        assert(out[2] == s2[0] && s2[0] == s[2]);
                        assert(month_num(s[0], s[1], s[2]) == 0);
                    }
                }
            }
        }
    }
}

/// Text free of month abbreviations passes the substitution unchanged.
proof fn lemma_no_month_fixed(s: Seq<char>)
    requires
        no_month(s),
    ensures
        spec_replace_months(s) == s,
    decreases s.len(),
{
    if s.len() > 0 {
        if s.len() >= 3 {
            no_month_at(s, 0);
        }
        assert forall|i: int| 0 <= i && i + 3 <= s.skip(1).len() implies #[trigger] month_num(
            s.skip(1)[i],
            s.skip(1)[i + 1],
            s.skip(1)[i + 2],
        ) == 0 by {
            let j = i + 1;
            assert(s.skip(1)[i] == s[j] && s.skip(1)[i + 1] == s[j + 1] && s.skip(1)[i + 2]
                == s[j + 2]);
            no_month_at(s, j);
        }
        lemma_no_month_fixed(s.skip(1));
        assert(spec_replace_months(s) =~= s);
    } else {
        assert(spec_replace_months(s) =~= s);
    }
}

/// The substitution pass is idempotent: its output holds no month
/// abbreviation, so running it again changes nothing.
pub proof fn lemma_replace_months_idempotent(s: Seq<char>)
    ensures
        spec_replace_months(spec_replace_months(s)) == spec_replace_months(s),
{
    lemma_replace_no_month(s);
    lemma_no_month_fixed(spec_replace_months(s));
}

/// Normalization is stable under re-parsing its own substituted text: the
/// normalizer is a function of its input alone, and feeding the
/// month-substituted text back through it yields the same timestamp.
pub proof fn lemma_normalize_stable(s: Seq<char>)
    ensures
        spec_normalize_date(spec_replace_months(s)) == spec_normalize_date(s),
{
    lemma_replace_months_idempotent(s);
}

/// Normalize a localized date/time text into Unix seconds (before any
/// timezone correction).
///
/// Succeeds exactly on text whose month-substituted form matches
/// `D[D] M[M] YYYY в H[H]:M[M]:S[S]` and names a real calendar day and
/// wall-clock time; everything after the seconds (such as an "edited"
/// marker) is ignored. Any other text is rejected with
/// [`ChatError::UnparseableDateTime`] carrying the text.
pub fn parse_date_time(date_str: &str) -> (r: Result<i64, ChatError>)
    ensures
        ({
            match spec_normalize_date(date_str@) {
                Some(ts) => r is Ok && r->Ok_0 == ts && -75_000_000_000 <= ts
                    <= 254_000_000_000,
                None => r is Err && r->Err_0 is UnparseableDateTime
                    && r->Err_0->UnparseableDateTime_0@ == date_str@,
            }
        }),
{
    let v = chars_vec(date_str);
    let t = replace_months(&v);
    match parse_dt_chars(&t) {
        None => Err(ChatError::UnparseableDateTime(date_str.to_owned())),
        Some((day, month, year, hour, minute, second)) => {
            if 1 <= month && month <= 12 && 1 <= day && day <= days_in_month_of(year, month)
                && year <= 9999 && hour <= 23 && minute <= 59 && second <= 59 {
                Ok(civil_secs_of(day, month, year, hour, minute, second))
            } else {
                Err(ChatError::UnparseableDateTime(date_str.to_owned()))
            }
        },
    }
}

} // verus!
