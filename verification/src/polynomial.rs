//! The closed forms that the conversions compute, and the proofs that tie
//! them to the calendar model.
//!
//! The forms count in years that begin on the first of March, so that the
//! leap day is the last day of its year: January and February are taken as
//! months 13 and 14 of the year before.

use vstd::prelude::*;
use crate::calendar::{
    date_day_number, days_before_month, days_before_year, is_leap, leap_years_before,
    lemma_days_before_month, lemma_days_before_year, lemma_divisors, lemma_leap_years_step,
    ordinal_day_number, valid_date, valid_ordinal, year_len,
};

verus! {

/// Julian Day Number of the last day of February of year 0.
pub const MARCH_BASE_DAY_NUMBER: i32 = 1_721_119;

/// Days from the first of March of year 0 to the first of March of `year`.
pub open spec fn march_days(year: int) -> int {
    365 * year + year / 4 - year / 100 + year / 400
}

/// Days from the first of March to the first of `month`, for the months
/// `3 ..= 14` of a year that begins in March; this is what the formula
/// gives for any other `month` too.
pub open spec fn month_offset(month: int) -> int {
    (979 * month - 2_918) / 32
}

/// What the date formula gives for three fields, whether or not they name
/// a day of the calendar.
pub open spec fn date_polynomial(year: int, month: int, day: int) -> int {
    if month < 3 {
        day + month_offset(month + 12) + march_days(year - 1) + MARCH_BASE_DAY_NUMBER
    } else {
        day + month_offset(month) + march_days(year) + MARCH_BASE_DAY_NUMBER
    }
}

/// On the months of a March-based year the multiply-and-shift form of the
/// month offset is the division by five that it stands for.
pub proof fn lemma_month_offset(month: int)
    requires
        3 <= month <= 15,
    ensures
        month_offset(month) == (153 * month - 457) / 5,
{
}

/// The days up to a first of March, by the count of leap years.
pub proof fn lemma_march_days(year: int)
    ensures
        march_days(year) == 365 * year + leap_years_before(year + 1) - 1,
        march_days(year + 400) == march_days(year) + 146_097,
{
}

/// For a month of the calendar the date formula counts the days as the
/// calendar does, whatever the day field holds.
pub proof fn lemma_date_polynomial(year: int, month: int, day: int)
    requires
        0 <= year,
        1 <= month <= 12,
    ensures
        date_polynomial(year, month, day) == date_day_number(year, month, day),
{
    lemma_days_before_year(year);
    lemma_days_before_month(year, month);
    if month < 3 {
        lemma_month_offset(month + 12);
        lemma_march_days(year - 1);
    } else {
        lemma_month_offset(month);
        lemma_march_days(year);
        lemma_leap_years_step(year);
    }
}

/// Century, of March-based years, that holds the `days`-th day counted from
/// the first of March of year 0 (that day is day 1).
pub open spec fn century_of(days: int) -> int {
    (100 * days - 25) / 3_652_425
}

/// March-based year that holds the `days`-th day.
pub open spec fn march_year_of(days: int) -> int {
    let century = century_of(days);
    (100 * (century - century / 4) + 100 * days - 25) / 36_525
}

/// Day of its March-based year, from 1, of the `days`-th day.
pub open spec fn march_ordinal_of(days: int) -> int {
    let century = century_of(days);
    let year = march_year_of(days);
    century - century / 4 + days - 365 * year - year / 4
}

/// Month, `3 ..= 14`, of the `ordinal`-th day of a March-based year.
pub open spec fn march_month_of(ordinal: int) -> int {
    (535 * ordinal + 48_950) / 16_384
}

/// Length of a March-based year: its last day is the leap day of the
/// calendar year that follows.
pub open spec fn march_year_len(year: int) -> int {
    year_len(year + 1)
}

/// The scaled division finds the century: no century begins after the day,
/// and the next one does.
pub proof fn lemma_century(days: int)
    requires
        1 <= days,
    ensures
        0 <= century_of(days),
        36_524 * century_of(days) + century_of(days) / 4 < days,
        days <= 36_524 * (century_of(days) + 1) + (century_of(days) + 1) / 4,
{
    let a = century_of(days);
    assert(3_652_425 * a <= 100 * days - 25 < 3_652_425 * a + 3_652_425);
    let q = a / 4;
    let r = a % 4;
    assert(a == 4 * q + r);
}

/// The second scaled division finds the year within the century, and what
/// is left over is a day of that year.
pub proof fn lemma_march_year(days: int)
    requires
        1 <= days,
    ensures
        0 <= march_year_of(days),
        march_year_of(days) / 100 == century_of(days),
        1 <= march_ordinal_of(days) <= march_year_len(march_year_of(days)),
        march_ordinal_of(days) + march_days(march_year_of(days)) == days,
{
    lemma_century(days);
    let a = century_of(days);
    let y = march_year_of(days);
    let c = march_ordinal_of(days);
    // Day within the century, from 1.
    let t = days - 36_524 * a - a / 4;
    assert(1 <= t <= 36_525);
    assert(a % 4 != 3 ==> t <= 36_524) by {
        assert((a + 1) / 4 == a / 4 + if a % 4 == 3 { 1int } else { 0int });
    }
    assert(100 * (a - a / 4) + 100 * days - 25 == 3_652_500 * a + 100 * t - 25);
    let yy = (100 * t - 25) / 36_525;
    assert(0 <= yy <= 99);
    assert(y == 100 * a + yy) by {
        assert(36_525 * (100 * a + yy) <= 3_652_500 * a + 100 * t - 25);
        assert(3_652_500 * a + 100 * t - 25 < 36_525 * (100 * a + yy) + 36_525);
    }
    assert(y / 100 == a);
    assert(y / 400 == a / 4) by {
        assert(y / 400 == (y / 100) / 4);
    }
    assert(c == t + 36_525 * a - 365 * y - y / 4);
    assert(y / 4 == 25 * a + yy / 4);
    assert(c == t - 365 * yy - yy / 4);
    assert(36_525 * yy <= 100 * t - 25 < 36_525 * yy + 36_525);
    assert(1 <= c <= 366);
    assert(c == 366 ==> yy % 4 == 3);
    lemma_divisors(y + 1);
    if c == 366 {
        assert((y + 1) % 4 == 0);
        if yy == 99 {
            assert(a % 4 == 3);
            assert((y + 1) == 400 * (a / 4 + 1));
            assert((y + 1) % 400 == 0);
        } else {
            assert((y + 1) % 100 != 0);
        }
        assert(is_leap(y + 1));
    }
}

/// The multiply-and-shift form finds the month of a day of a March-based
/// year, and the day of the month that is left is one of that month.
pub proof fn lemma_march_month(ordinal: int)
    requires
        1 <= ordinal <= 366,
    ensures
        3 <= march_month_of(ordinal) <= 14,
        1 <= ordinal - month_offset(march_month_of(ordinal)),
        ordinal <= month_offset(march_month_of(ordinal) + 1),
{
}

/// Calendar year of the `days`-th day counted from the first of March of
/// year 0.
pub open spec fn civil_year_of(days: int) -> int {
    if march_month_of(march_ordinal_of(days)) > 12 {
        march_year_of(days) + 1
    } else {
        march_year_of(days)
    }
}

/// Calendar month of the `days`-th day.
pub open spec fn civil_month_of(days: int) -> int {
    if march_month_of(march_ordinal_of(days)) > 12 {
        march_month_of(march_ordinal_of(days)) - 12
    } else {
        march_month_of(march_ordinal_of(days))
    }
}

/// Day of its month of the `days`-th day.
pub open spec fn civil_day_of(days: int) -> int {
    march_ordinal_of(days) - month_offset(march_month_of(march_ordinal_of(days)))
}

/// The inverse formula yields a day of the calendar, and that day is the
/// one that was counted.
pub proof fn lemma_civil_of(days: int)
    requires
        1 <= days,
    ensures
        valid_date(civil_year_of(days), civil_month_of(days), civil_day_of(days)),
        date_day_number(civil_year_of(days), civil_month_of(days), civil_day_of(days)) == days
            + MARCH_BASE_DAY_NUMBER,
{
    lemma_march_year(days);
    let ordinal = march_ordinal_of(days);
    lemma_march_month(ordinal);
    let month = march_month_of(ordinal);
    lemma_month_offset(month);
    lemma_month_offset(month + 1);
    lemma_date_polynomial(civil_year_of(days), civil_month_of(days), civil_day_of(days));
}

/// Leap years repeat after 400 years, of which 97 are leap years.
pub proof fn lemma_leap_period(year: int)
    ensures
        is_leap(year + 400) == is_leap(year),
        leap_years_before(year + 400) == leap_years_before(year) + 97,
{
    assert((year + 400) % 4 == year % 4);
    assert((year + 400) % 100 == year % 100);
    assert((year + 400) % 400 == year % 400);
    assert((year + 403) / 4 == (year + 3) / 4 + 100);
    assert((year + 499) / 100 == (year + 99) / 100 + 4);
    assert((year + 799) / 400 == (year + 399) / 400 + 1);
}

/// The calendar repeats after 400 years, which hold 146 097 days.
pub proof fn lemma_four_centuries(year: int, month: int, day: int)
    requires
        0 <= year,
    ensures
        valid_date(year + 400, month, day) == valid_date(year, month, day),
        valid_ordinal(year + 400, day) == valid_ordinal(year, day),
        1 <= month <= 12 ==> date_day_number(year + 400, month, day) == date_day_number(
            year,
            month,
            day,
        ) + 146_097,
        ordinal_day_number(year + 400, day) == ordinal_day_number(year, day) + 146_097,
{
    lemma_leap_period(year);
    assert(days_before_year(year + 400) == days_before_year(year) + 146_097) by {
        lemma_days_before_year(year);
        lemma_days_before_year(year + 400);
    }
    if 1 <= month <= 12 {
        assert(days_before_month(year + 400, month) == days_before_month(year, month)) by {
            lemma_days_before_month(year, month);
            lemma_days_before_month(year + 400, month);
        }
    }
}

/// Month of the date formula, counted from March as month 0, that the
/// ordinal formula gives for the `ordinal`-th day of a March-based year.
pub open spec fn ordinal_march_month(ordinal: int) -> int {
    (1_071 * ordinal - 535) / 32_768
}

/// Days from the first of March to the first of a month counted from
/// March as month 0, as the ordinal formula gives them.
pub open spec fn ordinal_month_offset(month: int) -> int {
    (979 * month + 16) / 32
}

/// Place in the year that begins on the first of March, here or a year
/// ago, of the `ordinal`-th day of the calendar year `year`.
pub open spec fn ordinal_from_march(year: int, ordinal: int) -> int {
    if ordinal > 59 + if is_leap(year) { 1int } else { 0int } {
        ordinal - 59 - if is_leap(year) { 1int } else { 0int }
    } else {
        ordinal + 306
    }
}

/// Month field that the ordinal formula hands to the date formula, as a
/// byte.
pub open spec fn ordinal_month_field(year: int, ordinal: int) -> int {
    let march_month = ordinal_march_month(ordinal_from_march(year, ordinal));
    if ordinal > 59 + if is_leap(year) { 1int } else { 0int } {
        (march_month + 3) % 256
    } else {
        (march_month - 9) % 256
    }
}

/// Day field that the ordinal formula hands to the date formula, as a
/// byte.
pub open spec fn ordinal_day_field(year: int, ordinal: int) -> int {
    let from_march = ordinal_from_march(year, ordinal);
    (from_march - ordinal_month_offset(ordinal_march_month(from_march))) % 256
}

/// For a day of the year the ordinal formula finds its month and its day
/// of the month.
pub proof fn lemma_ordinal_fields(year: int, ordinal: int)
    requires
        valid_ordinal(year, ordinal),
    ensures
        valid_date(year, ordinal_month_field(year, ordinal), ordinal_day_field(year, ordinal)),
        date_day_number(year, ordinal_month_field(year, ordinal), ordinal_day_field(year, ordinal))
            == ordinal_day_number(year, ordinal),
{
    let month = ordinal_month_field(year, ordinal);
    lemma_days_before_month(year, month);
    lemma_days_before_month(year, month + 1);
}

} // verus!
