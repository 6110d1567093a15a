//! Constants of the supported range and the validity predicates on calendar
//! fields.

use vstd::prelude::*;
use crate::calendar::{is_leap, month_len, valid_date, valid_ordinal, year_len, LAST_SECOND};

pub use crate::weekday::Weekday;

verus! {

/// Seconds in one day.
pub const SECONDS_PER_DAY: i64 = 86_400;

/// Julian Day Number of 1970-01-01.
pub const UNIX_EPOCH_JULIAN_DAY_NUMBER: i32 = 2_440_588;

/// Number of days from Monday to each day of the week.
pub const MONDAY: u8 = 0;

pub const TUESDAY: u8 = 1;

pub const WEDNESDAY: u8 = 2;

pub const THURSDAY: u8 = 3;

pub const FRIDAY: u8 = 4;

pub const SATURDAY: u8 = 5;

pub const SUNDAY: u8 = 6;

/// Whether `timestamp` lies between 1970-01-01T00:00:00Z and
/// 10000-01-01T00:00:00Z, both included. One unsigned comparison decides
/// both ends: a negative count reads as a huge unsigned one.
pub fn is_supported_unix_timestamp(timestamp: i64) -> (supported: bool)
    ensures
        supported == (0 <= timestamp <= LAST_SECOND),
{
    let unsigned: u64 = #[verifier::truncate] (timestamp as u64);
    assert((unsigned <= 253_402_300_800u64) == (0 <= timestamp && timestamp <= 253_402_300_800i64))
        by (bit_vector)
        requires unsigned == timestamp as u64;
    unsigned <= 253_402_300_800u64
}

/// Whether the three fields name a day of the calendar.
pub fn is_valid_year_month_day(year: u16, month: u8, day: u8) -> (valid: bool)
    ensures
        valid == valid_date(year as int, month as int, day as int),
{
    1 <= month && month <= 12 && 1 <= day && day <= days_in_year_month(year, month)
}

/// Whether `year` has an `ordinal`-th day.
pub fn is_valid_year_ordinal(year: u16, ordinal: u16) -> (valid: bool)
    ensures
        valid == valid_ordinal(year as int, ordinal as int),
{
    1 <= ordinal && ordinal <= days_in_year(year)
}

/// Whether `year` has a 29th of February.
pub fn is_leap_year(year: u16) -> (leap: bool)
    ensures
        leap == is_leap(year as int),
{
    year % 4 == 0 && (year % 100 != 0 || year % 400 == 0)
}

/// Number of days in `month` of `year`; zero where `month` is no month.
pub fn days_in_year_month(year: u16, month: u8) -> (days: u8)
    ensures
        days == month_len(year as int, month as int),
{
    match month {
        1 | 3 | 5 | 7 | 8 | 10 | 12 => 31,
        4 | 6 | 9 | 11 => 30,
        2 => if is_leap_year(year) { 29 } else { 28 },
        _ => 0,
    }
}

/// Number of days in `year`.
pub fn days_in_year(year: u16) -> (days: u16)
    ensures
        days == year_len(year as int),
{
    if is_leap_year(year) { 366 } else { 365 }
}

} // verus!
