//! What holds between the conversions: taking a timestamp apart and
//! building it again, and the order of timestamps against the order of
//! days.
//!
//! Each law is stated over what the conversions promise of their results,
//! so it holds of both timestamp types.

use vstd::prelude::*;
use crate::calendar::{
    date_before, date_day_number, day_seconds, lemma_date_order, lemma_day_number_order,
    lemma_midnight, lemma_ordinal_order, ordinal_day_number, seconds_day_number, supported,
    valid_date, valid_ordinal,
};
use crate::result::TimestampResult;

verus! {

/// Round trip by the Julian Day Number: the day number of a timestamp,
/// built into a timestamp again, gives the midnight of the timestamp's
/// day, which is the timestamp itself where it is a midnight.
pub proof fn lemma_round_trip_day_number<T: View<V = int>>(
    timestamp: T,
    day_number: int,
    rebuilt: TimestampResult<T>,
)
    requires
        supported(timestamp@),
        day_number == seconds_day_number(timestamp@),
        rebuilt.is_outcome_of(day_seconds(day_number)),
    ensures
        rebuilt matches TimestampResult::TimestampOk(t) && t@ == timestamp@ - timestamp@ % 86_400,
        timestamp@ % 86_400 == 0 ==> (rebuilt matches TimestampResult::TimestampOk(t) && t@
            == timestamp@),
{
    lemma_midnight(timestamp@);
}

/// Round trip by the calendar date: the date of a timestamp, built into a
/// timestamp again, gives the midnight of the timestamp's day, which is
/// the timestamp itself where it is a midnight.
pub proof fn lemma_round_trip_date<T: View<V = int>>(
    timestamp: T,
    year: int,
    month: int,
    day: int,
    rebuilt: TimestampResult<T>,
)
    requires
        supported(timestamp@),
        valid_date(year, month, day),
        date_day_number(year, month, day) == seconds_day_number(timestamp@),
        rebuilt.is_outcome_of(day_seconds(date_day_number(year, month, day))),
    ensures
        rebuilt matches TimestampResult::TimestampOk(t) && t@ == timestamp@ - timestamp@ % 86_400,
        timestamp@ % 86_400 == 0 ==> (rebuilt matches TimestampResult::TimestampOk(t) && t@
            == timestamp@),
{
    lemma_midnight(timestamp@);
}

/// Round trip by the ordinal date: the year and the day of the year of a
/// timestamp, built into a timestamp again, give the midnight of the
/// timestamp's day, which is the timestamp itself where it is a midnight.
pub proof fn lemma_round_trip_ordinal<T: View<V = int>>(
    timestamp: T,
    year: int,
    ordinal: int,
    rebuilt: TimestampResult<T>,
)
    requires
        supported(timestamp@),
        valid_ordinal(year, ordinal),
        ordinal_day_number(year, ordinal) == seconds_day_number(timestamp@),
        rebuilt.is_outcome_of(day_seconds(ordinal_day_number(year, ordinal))),
    ensures
        rebuilt matches TimestampResult::TimestampOk(t) && t@ == timestamp@ - timestamp@ % 86_400,
        timestamp@ % 86_400 == 0 ==> (rebuilt matches TimestampResult::TimestampOk(t) && t@
            == timestamp@),
{
    lemma_midnight(timestamp@);
}

/// The date that a timestamp built from a date is taken apart into is the
/// date that it was built from.
pub proof fn lemma_date_found_again<T: View<V = int>>(
    year: int,
    month: int,
    day: int,
    timestamp: T,
    found_year: int,
    found_month: int,
    found_day: int,
)
    requires
        valid_date(year, month, day),
        supported(timestamp@),
        timestamp@ == day_seconds(date_day_number(year, month, day)),
        valid_date(found_year, found_month, found_day),
        date_day_number(found_year, found_month, found_day) == seconds_day_number(timestamp@),
    ensures
        found_year == year,
        found_month == month,
        found_day == day,
{
    lemma_date_order(year, month, day, found_year, found_month, found_day);
}

/// The ordinal date that a timestamp built from an ordinal date is taken
/// apart into is the one that it was built from.
pub proof fn lemma_ordinal_found_again<T: View<V = int>>(
    year: int,
    ordinal: int,
    timestamp: T,
    found_year: int,
    found_ordinal: int,
)
    requires
        valid_ordinal(year, ordinal),
        supported(timestamp@),
        timestamp@ == day_seconds(ordinal_day_number(year, ordinal)),
        valid_ordinal(found_year, found_ordinal),
        ordinal_day_number(found_year, found_ordinal) == seconds_day_number(timestamp@),
    ensures
        found_year == year,
        found_ordinal == ordinal,
{
    lemma_ordinal_order(year, ordinal, found_year, found_ordinal);
}

/// Order: of two timestamps the later one has no smaller Julian Day
/// Number and no earlier date, and a timestamp on a later day has a later
/// date.
pub proof fn lemma_order<T: View<V = int>>(
    timestamp: T,
    year: int,
    month: int,
    day: int,
    later: T,
    later_year: int,
    later_month: int,
    later_day: int,
)
    requires
        timestamp@ <= later@,
        valid_date(year, month, day),
        date_day_number(year, month, day) == seconds_day_number(timestamp@),
        valid_date(later_year, later_month, later_day),
        date_day_number(later_year, later_month, later_day) == seconds_day_number(later@),
    ensures
        seconds_day_number(timestamp@) <= seconds_day_number(later@),
        !date_before(later_year, later_month, later_day, year, month, day),
        seconds_day_number(timestamp@) < seconds_day_number(later@) <==> date_before(
            year,
            month,
            day,
            later_year,
            later_month,
            later_day,
        ),
{
    lemma_day_number_order(timestamp@, later@);
    lemma_date_order(year, month, day, later_year, later_month, later_day);
    lemma_date_order(later_year, later_month, later_day, year, month, day);
}

/// Order by ordinal dates: of two timestamps the later one has no earlier
/// ordinal date, and a timestamp on a later day has a later one.
pub proof fn lemma_ordinal_dates_order<T: View<V = int>>(
    timestamp: T,
    year: int,
    ordinal: int,
    later: T,
    later_year: int,
    later_ordinal: int,
)
    requires
        timestamp@ <= later@,
        valid_ordinal(year, ordinal),
        ordinal_day_number(year, ordinal) == seconds_day_number(timestamp@),
        valid_ordinal(later_year, later_ordinal),
        ordinal_day_number(later_year, later_ordinal) == seconds_day_number(later@),
    ensures
        year < later_year || (year == later_year && ordinal <= later_ordinal),
        seconds_day_number(timestamp@) < seconds_day_number(later@) <==> (year < later_year || (
        year == later_year && ordinal < later_ordinal)),
{
    lemma_day_number_order(timestamp@, later@);
    lemma_ordinal_order(year, ordinal, later_year, later_ordinal);
    lemma_ordinal_order(later_year, later_ordinal, year, ordinal);
}

} // verus!
