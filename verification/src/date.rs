//! Calendar dates written `YYYY-MM-DD`, parsed and converted to a unix
//! timestamp at UTC midnight.
//!
//! Sacrament-attendance records carry such a date where every other
//! record carries unix milliseconds. The conversion here yields
//! milliseconds, not seconds, so that all timeline entries share one
//! unit; dates before 1970 are rejected rather than wrapped.

use vstd::prelude::*;
use vstd::string::StrSliceExecFns;

verus! {

/// Milliseconds in one day.
pub const MILLIS_PER_DAY: u64 = 24 * 60 * 60 * 1000;

/// Gregorian leap-year rule.
pub open spec fn spec_is_leap_year(y: int) -> bool {
    y % 4 == 0 && (y % 100 != 0 || y % 400 == 0)
}

/// Number of leap years in `[1, n]` for `n >= 0`.
pub open spec fn spec_leap_count(n: int) -> int {
    n / 4 - n / 100 + n / 400
}

/// Days of the month `m` (1-based) in year `y`.
pub open spec fn spec_days_in_month(y: int, m: int) -> int {
    if m == 2 {
        if spec_is_leap_year(y) {
            29
        } else {
            28
        }
    } else if m == 4 || m == 6 || m == 9 || m == 11 {
        30
    } else {
        31
    }
}

/// Days of year `y` that precede month `m` (1-based).
pub open spec fn spec_month_offset(y: int, m: int) -> int {
    let base: int = if m == 1 {
        0
    } else if m == 2 {
        31
    } else if m == 3 {
        59
    } else if m == 4 {
        90
    } else if m == 5 {
        120
    } else if m == 6 {
        151
    } else if m == 7 {
        181
    } else if m == 8 {
        212
    } else if m == 9 {
        243
    } else if m == 10 {
        273
    } else if m == 11 {
        304
    } else {
        334
    };
    if m > 2 && spec_is_leap_year(y) {
        base + 1
    } else {
        base
    }
}

/// A calendar date the library accepts: on or after the unix epoch,
/// with a four-digit year.
pub open spec fn spec_valid_date(y: int, m: int, d: int) -> bool {
    1970 <= y <= 9999 && 1 <= m <= 12 && 1 <= d <= spec_days_in_month(y, m)
}

/// Days elapsed from 1970-01-01 to the given date.
pub open spec fn spec_days_from_epoch(y: int, m: int, d: int) -> int {
    365 * (y - 1970) + spec_leap_count(y - 1) - spec_leap_count(1969) + spec_month_offset(y, m) + d
        - 1
}

/// Unix milliseconds at UTC midnight of the given date.
pub open spec fn spec_date_millis(y: int, m: int, d: int) -> int {
    spec_days_from_epoch(y, m, d) * 86_400_000
}

/// An ASCII decimal digit.
pub open spec fn spec_is_digit(c: char) -> bool {
    48 <= c as u32 <= 57
}

/// Value of an ASCII decimal digit.
pub open spec fn spec_digit(c: char) -> int {
    c as u32 - 48
}

/// The ten characters have the shape `YYYY-MM-DD`.
pub open spec fn spec_date_shape(s: Seq<char>) -> bool {
    s.len() == 10 && s[4] == '-' && s[7] == '-' && spec_is_digit(s[0]) && spec_is_digit(s[1])
        && spec_is_digit(s[2]) && spec_is_digit(s[3]) && spec_is_digit(s[5]) && spec_is_digit(s[6])
        && spec_is_digit(s[8]) && spec_is_digit(s[9])
}

pub open spec fn spec_year_of(s: Seq<char>) -> int {
    spec_digit(s[0]) * 1000 + spec_digit(s[1]) * 100 + spec_digit(s[2]) * 10 + spec_digit(s[3])
}

pub open spec fn spec_month_of(s: Seq<char>) -> int {
    spec_digit(s[5]) * 10 + spec_digit(s[6])
}

pub open spec fn spec_day_of(s: Seq<char>) -> int {
    spec_digit(s[8]) * 10 + spec_digit(s[9])
}

/// What parsing a date string yields: the unix milliseconds of the
/// date's UTC midnight, or nothing when the string is not a well-formed
/// acceptable date.
pub open spec fn spec_parse_date_millis(s: Seq<char>) -> Option<u64> {
    if spec_date_shape(s) && spec_valid_date(spec_year_of(s), spec_month_of(s), spec_day_of(s)) {
        Some(spec_date_millis(spec_year_of(s), spec_month_of(s), spec_day_of(s)) as u64)
    } else {
        None
    }
}

/// Reads one ASCII digit; `None` when the character is not a digit.
fn digit_value(c: char) -> (r: Option<u64>)
    ensures
        r is Some <==> spec_is_digit(c),
        r is Some ==> r->0 == spec_digit(c),
{
    let v = c as u32;
    if 48 <= v && v <= 57 {
        Some((v - 48) as u64)
    } else {
        None
    }
}

/// Days of month `m` (1-based) in year `y`.
fn days_in_month(y: u64, m: u64) -> (r: u64)
    requires
        1 <= m <= 12,
    ensures
        r == spec_days_in_month(y as int, m as int),
{
    if m == 2 {
        if y % 4 == 0 && (y % 100 != 0 || y % 400 == 0) {
            29
        } else {
            28
        }
    } else if m == 4 || m == 6 || m == 9 || m == 11 {
        30
    } else {
        31
    }
}

/// Days of year `y` that precede month `m` (1-based).
fn month_offset(y: u64, m: u64) -> (r: u64)
    requires
        1 <= m <= 12,
    ensures
        r == spec_month_offset(y as int, m as int),
        r <= 335,
{
    let base: u64 = if m == 1 {
        0
    } else if m == 2 {
        31
    } else if m == 3 {
        59
    } else if m == 4 {
        90
    } else if m == 5 {
        120
    } else if m == 6 {
        151
    } else if m == 7 {
        181
    } else if m == 8 {
        212
    } else if m == 9 {
        243
    } else if m == 10 {
        273
    } else if m == 11 {
        304
    } else {
        334
    };
    if m > 2 && y % 4 == 0 && (y % 100 != 0 || y % 400 == 0) {
        base + 1
    } else {
        base
    }
}

/// Number of leap years in `[1, n]`.
fn leap_count(n: u64) -> (r: u64)
    requires
        1969 <= n <= 9999,
    ensures
        r == spec_leap_count(n as int),
        477 <= r <= 2600,
{
    proof {
        assert(4 * (n / 4) + n % 4 == n);
        assert(100 * (n / 100) + n % 100 == n);
        assert(400 * (n / 400) + n % 400 == n);
    }
    n / 4 - n / 100 + n / 400
}

/// Unix milliseconds at UTC midnight of a valid date.
fn date_millis(y: u64, m: u64, d: u64) -> (r: u64)
    requires
        spec_valid_date(y as int, m as int, d as int),
    ensures
        r == spec_date_millis(y as int, m as int, d as int),
{
    let years: u64 = y - 1970;
    let leaps: u64 = leap_count(y - 1) - leap_count(1969);
    let days: u64 = 365 * years + leaps + month_offset(y, m) + d - 1;
    assert(days == spec_days_from_epoch(y as int, m as int, d as int));
    assert(days <= 365 * 8029 + 2123 + 335 + 31);
    days * 86_400_000
}

/// Parses a `YYYY-MM-DD` date string to unix milliseconds at its UTC
/// midnight; `None` exactly on strings that are not well-formed
/// acceptable dates.
pub fn parse_date_millis(s: &str) -> (r: Option<u64>)
    ensures
        r == spec_parse_date_millis(s@),
{
    if s.unicode_len() != 10 {
        return None;
    }
    if s.get_char(4) != '-' || s.get_char(7) != '-' {
        return None;
    }
    let d0 = digit_value(s.get_char(0));
    let d1 = digit_value(s.get_char(1));
    let d2 = digit_value(s.get_char(2));
    let d3 = digit_value(s.get_char(3));
    let d5 = digit_value(s.get_char(5));
    let d6 = digit_value(s.get_char(6));
    let d8 = digit_value(s.get_char(8));
    let d9 = digit_value(s.get_char(9));
    match (d0, d1, d2, d3, d5, d6, d8, d9) {
        (Some(d0), Some(d1), Some(d2), Some(d3), Some(d5), Some(d6), Some(d8), Some(d9)) => {
            let y: u64 = d0 * 1000 + d1 * 100 + d2 * 10 + d3;
            let m: u64 = d5 * 10 + d6;
            let d: u64 = d8 * 10 + d9;
            if 1970 <= y && 1 <= m && m <= 12 && 1 <= d && d <= days_in_month(y, m) {
                Some(date_millis(y, m, d))
            } else {
                None
            }
        },
        _ => None,
    }
}

} // verus!
