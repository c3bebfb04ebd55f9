//! The Gregorian calendar rules that decide which dates exist.

use vstd::prelude::*;

verus! {

/// Leap years: every fourth year, except centuries not divisible by 400.
pub open spec fn is_leap_year(year: int) -> bool {
    year % 4 == 0 && (year % 100 != 0 || year % 400 == 0)
}

/// Number of days of `month` (1 to 12) in `year`.
pub open spec fn days_in_month(year: int, month: int) -> int {
    if month == 2 {
        if is_leap_year(year) {
            29
        } else {
            28
        }
    } else if month == 4 || month == 6 || month == 9 || month == 11 {
        30
    } else {
        31
    }
}

/// The dates that exist: years 1 to 9999, months 1 to 12, and a day that the
/// month has in that year.
pub open spec fn is_calendar_date(year: int, month: int, day: int) -> bool {
    &&& 1 <= year <= 9999
    &&& 1 <= month <= 12
    &&& 1 <= day <= days_in_month(year, month)
}

/// Chronological order of two dates given as (year, month, day): by year,
/// then by month, then by day.
pub open spec fn date_before(a: (int, int, int), b: (int, int, int)) -> bool {
    a.0 < b.0 || (a.0 == b.0 && (a.1 < b.1 || (a.1 == b.1 && a.2 < b.2)))
}

/// Decides whether `year` is a leap year.
pub fn leap_year(year: u16) -> (leap: bool)
    ensures
        leap == is_leap_year(year as int),
{
    year % 4 == 0 && (year % 100 != 0 || year % 400 == 0)
}

/// Length of `month` in `year`.
pub fn month_length(year: u16, month: u8) -> (len: u8)
    ensures
        len as int == days_in_month(year as int, month as int),
{
    if month == 2 {
        if leap_year(year) {
            29
        } else {
            28
        }
    } else if month == 4 || month == 6 || month == 9 || month == 11 {
        30
    } else {
        31
    }
}

/// Decides whether the three components name a date that exists.
pub fn valid_date(year: u16, month: u8, day: u8) -> (valid: bool)
    ensures
        valid == is_calendar_date(year as int, month as int, day as int),
{
    1 <= year && year <= 9999 && 1 <= month && month <= 12 && 1 <= day && day <= month_length(
        year,
        month,
    )
}

} // verus!
