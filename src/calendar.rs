//! Gregorian calendar validity, as a pure predicate on (year, month, day).

use vstd::prelude::*;

verus! {

/// Leap years: divisible by 4, except centuries not divisible by 400.
pub open spec fn spec_is_leap_year(year: int) -> bool {
    year % 4 == 0 && (year % 100 != 0 || year % 400 == 0)
}

/// Number of days in `month` (1..=12) of `year`.
pub open spec fn spec_days_in_month(year: int, month: int) -> int {
    if month == 2 {
        if spec_is_leap_year(year) { 29 } else { 28 }
    } else if month == 4 || month == 6 || month == 9 || month == 11 {
        30
    } else {
        31
    }
}

/// Whether (year, month, day) names a real Gregorian calendar date.
pub open spec fn spec_is_valid_date(year: int, month: int, day: int) -> bool {
    1 <= month <= 12 && 1 <= day <= spec_days_in_month(year, month)
}

pub fn is_leap_year(year: i32) -> (r: bool)
    ensures
        r == spec_is_leap_year(year as int),
{
    year % 4 == 0 && (year % 100 != 0 || year % 400 == 0)
}

/// Days in the given month; `month` must be a real month number.
pub fn days_in_month(year: i32, month: i32) -> (r: i32)
    requires
        1 <= month <= 12,
    ensures
        r as int == spec_days_in_month(year as int, month as int),
        28 <= r <= 31,
{
    if month == 2 {
        if is_leap_year(year) { 29 } else { 28 }
    } else if month == 4 || month == 6 || month == 9 || month == 11 {
        30
    } else {
        31
    }
}

/// Total predicate: true iff the triple denotes a real calendar date.
pub fn is_valid_date(year: i32, month: i32, day: i32) -> (r: bool)
    ensures
        r == spec_is_valid_date(year as int, month as int, day as int),
{
    if month < 1 || month > 12 || day < 1 {
        false
    } else {
        day <= days_in_month(year, month)
    }
}

} // verus!
