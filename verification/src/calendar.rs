//! The mathematical model of the proleptic Gregorian calendar that every
//! contract of this crate is stated over: a date is counted in days, one
//! year and one month at a time.

use vstd::prelude::*;
use crate::util::{SECONDS_PER_DAY, UNIX_EPOCH_JULIAN_DAY_NUMBER};

verus! {

/// Julian Day Number of 0000-01-01.
pub const YEAR_ZERO_DAY_NUMBER: i32 = 1_721_060;

/// The last supported second: 10000-01-01T00:00:00Z.
pub const LAST_SECOND: i64 = 253_402_300_800;

/// Whether `year` has a 29th of February.
pub open spec fn is_leap(year: int) -> bool {
    year % 4 == 0 && (year % 100 != 0 || year % 400 == 0)
}

/// Number of days in `year`.
pub open spec fn year_len(year: int) -> int {
    if is_leap(year) {
        366
    } else {
        365
    }
}

/// Number of days in `month` of `year`; zero where `month` is no month.
pub open spec fn month_len(year: int, month: int) -> int {
    if month == 4 || month == 6 || month == 9 || month == 11 {
        30
    } else if month == 2 {
        if is_leap(year) {
            29
        } else {
            28
        }
    } else if 1 <= month <= 12 {
        31
    } else {
        0
    }
}

/// Number of days in the years `0 .. year`.
pub open spec fn days_before_year(year: int) -> int
    decreases year,
{
    if year <= 0 {
        0
    } else {
        days_before_year(year - 1) + year_len(year - 1)
    }
}

/// Number of days in the months `1 .. month` of `year`.
pub open spec fn days_before_month(year: int, month: int) -> int
    decreases month,
{
    if month <= 1 {
        0
    } else {
        days_before_month(year, month - 1) + month_len(year, month - 1)
    }
}

/// Whether `(year, month, day)` names a day of the calendar.
pub open spec fn valid_date(year: int, month: int, day: int) -> bool {
    0 <= year && 1 <= month <= 12 && 1 <= day <= month_len(year, month)
}

/// Whether `(year, ordinal)` names a day of the calendar.
pub open spec fn valid_ordinal(year: int, ordinal: int) -> bool {
    0 <= year && 1 <= ordinal <= year_len(year)
}

/// Julian Day Number of the calendar day `(year, month, day)`.
pub open spec fn date_day_number(year: int, month: int, day: int) -> int {
    YEAR_ZERO_DAY_NUMBER + days_before_year(year) + days_before_month(year, month) + day - 1
}

/// Julian Day Number of the `ordinal`-th day of `year`.
pub open spec fn ordinal_day_number(year: int, ordinal: int) -> int {
    YEAR_ZERO_DAY_NUMBER + days_before_year(year) + ordinal - 1
}

/// Whether `seconds` lies in the supported range.
pub open spec fn supported(seconds: int) -> bool {
    0 <= seconds <= LAST_SECOND
}

/// `seconds` brought to the nearest end of the supported range.
pub open spec fn clamped(seconds: int) -> int {
    if seconds < 0 {
        0
    } else if seconds > LAST_SECOND {
        LAST_SECOND as int
    } else {
        seconds
    }
}

/// Seconds from the epoch to the midnight that begins day `day_number`.
pub open spec fn day_seconds(day_number: int) -> int {
    (day_number - UNIX_EPOCH_JULIAN_DAY_NUMBER) * SECONDS_PER_DAY
}

/// Julian Day Number of the day that holds the second `seconds`.
pub open spec fn seconds_day_number(seconds: int) -> int {
    seconds / (SECONDS_PER_DAY as int) + UNIX_EPOCH_JULIAN_DAY_NUMBER
}

/// Number of leap years among the years `0 .. year`.
pub open spec fn leap_years_before(year: int) -> int {
    (year + 3) / 4 - (year + 99) / 100 + (year + 399) / 400
}

/// The days before a year, without counting year by year.
pub proof fn lemma_days_before_year(year: int)
    requires
        0 <= year,
    ensures
        days_before_year(year) == 365 * year + leap_years_before(year),
    decreases year,
{
    if year > 0 {
        lemma_days_before_year(year - 1);
        lemma_leap_years_step(year - 1);
    }
}

/// Each leap year adds one to the count of leap years before the next year.
pub proof fn lemma_leap_years_step(year: int)
    ensures
        leap_years_before(year + 1) == leap_years_before(year) + if is_leap(year) {
            1int
        } else {
            0int
        },
{
    assert((year + 4) / 4 - (year + 3) / 4 == if year % 4 == 0 { 1int } else { 0int });
    assert((year + 100) / 100 - (year + 99) / 100 == if year % 100 == 0 { 1int } else { 0int });
    assert((year + 400) / 400 - (year + 399) / 400 == if year % 400 == 0 { 1int } else { 0int });
    lemma_divisors(year);
}

/// A multiple of 400 is one of 100, and a multiple of 100 is one of 4.
pub proof fn lemma_divisors(year: int)
    ensures
        year % 400 == 0 ==> year % 100 == 0,
        year % 100 == 0 ==> year % 4 == 0,
{
    if year % 400 == 0 {
        assert(year == 100 * (4 * (year / 400)));
    }
    if year % 100 == 0 {
        assert(year == 4 * (25 * (year / 100)));
    }
}

/// The days before each month of a year.
pub proof fn lemma_days_before_month(year: int, month: int)
    requires
        1 <= month <= 13,
    ensures
        days_before_month(year, month) == if month <= 2 {
            31 * (month - 1)
        } else {
            (153 * month - 457) / 5 + 59 + if is_leap(year) { 1int } else { 0int }
        },
        days_before_month(year, 13) == year_len(year),
    decreases month,
{
    reveal_with_fuel(days_before_month, 14);
}

/// Whether the first date comes before the second in the calendar.
pub open spec fn date_before(
    year: int,
    month: int,
    day: int,
    later_year: int,
    later_month: int,
    later_day: int,
) -> bool {
    year < later_year || (year == later_year && (month < later_month || (month == later_month
        && day < later_day)))
}

/// Every year between two years adds at least 365 days.
pub proof fn lemma_years_apart(year: int, later_year: int)
    requires
        0 <= year <= later_year,
    ensures
        days_before_year(later_year) - days_before_year(year) >= 365 * (later_year - year),
    decreases later_year,
{
    if year < later_year {
        lemma_years_apart(year, later_year - 1);
    }
}

/// A day of the calendar lies in its month, and the month in its year.
pub proof fn lemma_day_in_year(year: int, month: int, day: int)
    requires
        valid_date(year, month, day),
    ensures
        days_before_month(year, month) < days_before_month(year, month) + day
            <= days_before_month(year, month + 1) <= year_len(year),
        valid_ordinal(year, days_before_month(year, month) + day),
        ordinal_day_number(year, days_before_month(year, month) + day) == date_day_number(
            year,
            month,
            day,
        ),
{
    lemma_days_before_month(year, month);
    lemma_days_before_month(year, month + 1);
}

/// The calendar and the count of days agree on which of two days comes
/// first.
pub proof fn lemma_date_order(
    year: int,
    month: int,
    day: int,
    later_year: int,
    later_month: int,
    later_day: int,
)
    requires
        valid_date(year, month, day),
        valid_date(later_year, later_month, later_day),
    ensures
        date_before(year, month, day, later_year, later_month, later_day) <==> date_day_number(
            year,
            month,
            day,
        ) < date_day_number(later_year, later_month, later_day),
        (year == later_year && month == later_month && day == later_day) <==> date_day_number(
            year,
            month,
            day,
        ) == date_day_number(later_year, later_month, later_day),
{
    lemma_day_in_year(year, month, day);
    lemma_day_in_year(later_year, later_month, later_day);
    if year < later_year {
        lemma_years_apart(year + 1, later_year);
    } else if later_year < year {
        lemma_years_apart(later_year + 1, year);
    } else {
        lemma_days_before_month(year, month);
        lemma_days_before_month(year, later_month);
    }
}

/// The ordinal dates and the count of days agree on which of two days
/// comes first.
pub proof fn lemma_ordinal_order(year: int, ordinal: int, later_year: int, later_ordinal: int)
    requires
        valid_ordinal(year, ordinal),
        valid_ordinal(later_year, later_ordinal),
    ensures
        (year < later_year || (year == later_year && ordinal < later_ordinal))
            <==> ordinal_day_number(year, ordinal) < ordinal_day_number(
            later_year,
            later_ordinal,
        ),
        (year == later_year && ordinal == later_ordinal) <==> ordinal_day_number(year, ordinal)
            == ordinal_day_number(later_year, later_ordinal),
{
    if year < later_year {
        lemma_years_apart(year + 1, later_year);
    } else if later_year < year {
        lemma_years_apart(later_year + 1, year);
    }
}

/// A later second does not lie on an earlier day.
pub proof fn lemma_day_number_order(seconds: int, later_seconds: int)
    requires
        seconds <= later_seconds,
    ensures
        seconds_day_number(seconds) <= seconds_day_number(later_seconds),
{
}

/// The midnight that begins the day of a supported second is supported, and
/// the day is found again from it.
pub proof fn lemma_midnight(seconds: int)
    requires
        supported(seconds),
    ensures
        day_seconds(seconds_day_number(seconds)) == seconds - seconds % 86_400,
        supported(day_seconds(seconds_day_number(seconds))),
        seconds_day_number(day_seconds(seconds_day_number(seconds))) == seconds_day_number(
            seconds,
        ),
{
}

} // verus!
