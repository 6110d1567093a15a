//! Timestamps whose calendar formulas count in years moved on by 400, so
//! that no year before 0 is ever divided.

use vstd::prelude::*;
use crate::calendar::{
    clamped, date_day_number, day_seconds, lemma_days_before_month, lemma_days_before_year,
    lemma_leap_years_step, ordinal_day_number, seconds_day_number, supported, valid_date,
    valid_ordinal, LAST_SECOND,
};
use crate::polynomial::{
    date_polynomial, lemma_civil_of, lemma_date_polynomial, lemma_four_centuries,
    lemma_march_days, lemma_march_month, lemma_march_year, march_ordinal_of, march_year_of,
};
use crate::result::TimestampResult;
use crate::util;
use crate::weekday::Weekday;

verus! {

/// A second between 1970-01-01T00:00:00Z and 10000-01-01T00:00:00Z, both
/// included, held as the count of seconds since the first.
#[derive(Clone, Copy, Debug, PartialEq, Eq, PartialOrd, Structural)]
pub struct UnixTimestamp(i64);

impl View for UnixTimestamp {
    type V = int;

    /// Seconds since 1970-01-01T00:00:00Z.
    closed spec fn view(&self) -> int {
        self.0 as int
    }
}

impl UnixTimestamp {
    #[verifier::type_invariant]
    spec fn in_range(self) -> bool {
        supported(self.0 as int)
    }

    /// Two timestamps of the same second are the same timestamp.
    pub proof fn lemma_same_second(self, other: UnixTimestamp)
        requires
            self@ == other@,
        ensures
            self == other,
    {
    }

    fn new(value: i64) -> (timestamp: UnixTimestamp)
        requires
            supported(value as int),
        ensures
            timestamp@ == value,
    {
        UnixTimestamp(value)
    }

    /// The first supported second, 1970-01-01T00:00:00Z.
    pub fn min_value() -> (timestamp: UnixTimestamp)
        ensures
            timestamp@ == 0,
    {
        Self::new(0)
    }

    /// The last supported second, 10000-01-01T00:00:00Z.
    pub fn max_value() -> (timestamp: UnixTimestamp)
        ensures
            timestamp@ == LAST_SECOND,
    {
        Self::new(253_402_300_800)
    }

    /// The timestamp of the second `timestamp`, where it is supported.
    pub fn checked_from_unix_timestamp(timestamp: i64) -> (checked: Option<UnixTimestamp>)
        ensures
            match checked {
                Some(t) => supported(timestamp as int) && t@ == timestamp,
                None => !supported(timestamp as int),
            },
    {
        Self::from_unix_timestamp(timestamp).ok()
    }

    /// The timestamp of the second `timestamp`, or the overflow that carries
    /// it where it is not supported.
    pub fn from_unix_timestamp(timestamp: i64) -> (result: TimestampResult<UnixTimestamp>)
        ensures
            result.is_outcome_of(timestamp as int),
    {
        if util::is_supported_unix_timestamp(timestamp) {
            TimestampResult::TimestampOk(Self::new(timestamp))
        } else {
            TimestampResult::OverflowErr(timestamp)
        }
    }

    /// Seconds since 1970-01-01T00:00:00Z.
    pub fn unix_timestamp(self) -> (seconds: i64)
        ensures
            seconds == self@,
            supported(seconds as int),
    {
        proof {
            use_type_invariant(self);
        }
        self.0
    }

    /// The first second of this timestamp's day.
    pub fn midnight(self) -> (timestamp: UnixTimestamp)
        ensures
            timestamp@ == self@ - self@ % 86_400,
    {
        Self::new(self.unix_timestamp() - self.seconds_since_midnight())
    }

    /// Seconds since the first second of this timestamp's day.
    pub fn seconds_since_midnight(self) -> (seconds: i64)
        ensures
            seconds == self@ % 86_400,
    {
        (self.unix_timestamp() as u64 % util::SECONDS_PER_DAY as u64) as i64
    }

    /// This timestamp moved by `seconds`, where that second is supported.
    /// The sum is taken with wraparound and then validated: one that left the
    /// 64-bit range comes back negative, and is refused with the rest.
    pub fn checked_add(self, seconds: i64) -> (checked: Option<UnixTimestamp>)
        ensures
            match checked {
                Some(t) => supported(self@ + seconds) && t@ == self@ + seconds,
                None => !supported(self@ + seconds),
            },
    {
        let timestamp: i64 = self.unix_timestamp().wrapping_add(seconds);
        Self::checked_from_unix_timestamp(timestamp)
    }

    /// This timestamp moved back by `seconds`, where that second is
    /// supported.
    pub fn checked_sub(self, seconds: i64) -> (checked: Option<UnixTimestamp>)
        ensures
            match checked {
                Some(t) => supported(self@ - seconds) && t@ == self@ - seconds,
                None => !supported(self@ - seconds),
            },
    {
        let timestamp: i64 = self.unix_timestamp().wrapping_sub(seconds);
        Self::checked_from_unix_timestamp(timestamp)
    }

    /// This timestamp moved by `seconds`, stopping at the ends of the
    /// supported range.
    pub fn saturating_add(self, seconds: i64) -> (timestamp: UnixTimestamp)
        ensures
            timestamp@ == clamped(self@ + seconds),
            self@ == LAST_SECOND && seconds >= 0 ==> timestamp@ == LAST_SECOND,
    {
        let timestamp: i64 = self.unix_timestamp().saturating_add(seconds);
        Self::from_unix_timestamp(timestamp).unwrap()
    }

    /// This timestamp moved back by `seconds`, stopping at the ends of the
    /// supported range.
    pub fn saturating_sub(self, seconds: i64) -> (timestamp: UnixTimestamp)
        ensures
            timestamp@ == clamped(self@ - seconds),
            self@ == 0 && seconds >= 0 ==> timestamp@ == 0,
    {
        let timestamp: i64 = self.unix_timestamp().saturating_sub(seconds);
        Self::from_unix_timestamp(timestamp).unwrap()
    }
}

impl UnixTimestamp {
    /// The midnight that begins the day `(year, month, day)`, where the
    /// fields name a day of the calendar and that day is supported.
    pub fn checked_from_year_month_day(year: u16, month: u8, day: u8) -> (checked: Option<
        UnixTimestamp,
    >)
        ensures
            match checked {
                Some(t) => valid_date(year as int, month as int, day as int) && t@ == day_seconds(
                    date_day_number(year as int, month as int, day as int),
                ),
                None => !valid_date(year as int, month as int, day as int) || !supported(
                    day_seconds(date_day_number(year as int, month as int, day as int)),
                ),
            },
    {
        if util::is_valid_year_month_day(year, month, day) {
            Self::from_year_month_day(year, month, day).ok()
        } else {
            None
        }
    }

    /// The midnight that the date formula gives for the three fields. The
    /// fields are not validated: with a month of the calendar the day is
    /// counted on from the first of that month, past its end too, and
    /// with any other month the formula is taken as it stands.
    ///
    /// The formula counts in years that begin in March and that are moved
    /// on by 400, so that no year before 0 is divided. Its month offset is
    /// a multiplication and a shift, which stands for
    /// `(153 * month - 457) / 5` on the months `3 ..= 14` only.
    pub fn from_year_month_day(year: u16, month: u8, day: u8) -> (result: TimestampResult<
        UnixTimestamp,
    >)
        ensures
            result.is_outcome_of(
                day_seconds(date_polynomial(year as int, month as int, day as int)),
            ),
            1 <= month <= 12 ==> result.is_outcome_of(
                day_seconds(date_day_number(year as int, month as int, day as int)),
            ),
    {
        let (adj_year, adj_month, day): (i32, i32, i32) = if month < 3 {
            (year as i32 + 399, month as i32 + 12, day as i32)
        } else {
            (year as i32 + 400, month as i32, day as i32)
        };
        // f = (153 * adj_month - 457) / 5
        let scaled: i32 = 979 * adj_month - 2_918;
        let f: i32 = scaled >> 5;
        assert(f == scaled / 32) by (bit_vector)
            requires
                f == scaled >> 5,
                0 <= scaled,
        ;
        proof {
            lemma_march_days(adj_year - 400);
            if 1 <= month <= 12 {
                lemma_date_polynomial(year as int, month as int, day as int);
            }
        }
        let julian_day_number: i32 = day + f + 365 * adj_year + adj_year / 4 - adj_year / 100
            + adj_year / 400 + 1_575_022;
        Self::from_julian_day_number(julian_day_number)
    }

    /// The calendar date of this timestamp's day.
    ///
    /// Two scaled divisions find the century and the year, in the
    /// March-based years of the date formula moved on by 400; the month
    /// comes from a multiplication and a shift that stand for
    /// `(5 * c + 456) / 153` on the days `c` of one year.
    pub fn to_year_month_day(self) -> (date: (u16, u8, u8))
        ensures
            valid_date(date.0 as int, date.1 as int, date.2 as int),
            date_day_number(date.0 as int, date.1 as int, date.2 as int) == seconds_day_number(
                self@,
            ),
    {
        let julian_day_number: u32 = self.julian_day_number() as u32;
        let z: u32 = julian_day_number - 1_575_022;
        proof {
            lemma_civil_of(z as int);
            lemma_march_year(z as int);
            lemma_march_month(march_ordinal_of(z as int));
        }
        let h: u32 = 100 * z - 25;
        let a: u32 = h / 3_652_425;
        let b: u32 = a - a / 4;
        let adj_year: u32 = (100 * b + h) / 36_525;
        assert(adj_year == march_year_of(z as int));
        assert(2_369 <= adj_year <= 10_400);
        let c: u32 = b + z - 365 * adj_year - adj_year / 4;
        assert(c == march_ordinal_of(z as int));
        // adj_month = (5 * c + 456) / 153
        let scaled_ordinal: u32 = 535 * c + 48_950;
        let adj_month: u32 = scaled_ordinal >> 14;
        assert(adj_month == scaled_ordinal / 16_384) by (bit_vector)
            requires
                adj_month == scaled_ordinal >> 14,
        ;
        // f = (153 * adj_month - 457) / 5
        let scaled_month: u32 = 979 * adj_month - 2_918;
        let f: u32 = scaled_month >> 5;
        assert(f == scaled_month / 32) by (bit_vector)
            requires
                f == scaled_month >> 5,
        ;
        let day: u32 = c - f;
        let (year, month): (u32, u32) = if adj_month > 12 {
            (adj_year - 399, adj_month - 12)
        } else {
            (adj_year - 400, adj_month)
        };
        proof {
            lemma_four_centuries(year as int, month as int, day as int);
        }
        (year as u16, month as u8, day as u8)
    }

    /// The midnight that begins the `ordinal`-th day of `year`, where the
    /// year has such a day and that day is supported.
    pub fn checked_from_year_ordinal(year: u16, ordinal: u16) -> (checked: Option<UnixTimestamp>)
        ensures
            match checked {
                Some(t) => valid_ordinal(year as int, ordinal as int) && t@ == day_seconds(
                    ordinal_day_number(year as int, ordinal as int),
                ),
                None => !valid_ordinal(year as int, ordinal as int) || !supported(
                    day_seconds(ordinal_day_number(year as int, ordinal as int)),
                ),
            },
    {
        if util::is_valid_year_ordinal(year, ordinal) {
            Self::from_year_ordinal(year, ordinal).ok()
        } else {
            None
        }
    }

    /// The midnight that lies `ordinal - 1` days after the first of
    /// January of `year`. The ordinal is not validated: one past the end of
    /// the year counts on into the next, and 0 is the last day of the year
    /// before.
    ///
    /// The days are counted from the first of March, of this year for an
    /// ordinal behind the last of February and of the year before for any
    /// other, as the date formula counts them.
    pub fn from_year_ordinal(year: u16, ordinal: u16) -> (result: TimestampResult<UnixTimestamp>)
        ensures
            result.is_outcome_of(day_seconds(ordinal_day_number(year as int, ordinal as int))),
    {
        let ordinal: i32 = ordinal as i32;
        let february_cumulative_days: i32 = if util::is_leap_year(year) {
            60
        } else {
            59
        };
        let (adj_year, adj_ordinal): (i32, i32) = if ordinal > february_cumulative_days {
            (year as i32 + 400, ordinal - february_cumulative_days)
        } else {
            (year as i32 + 399, ordinal + 306)
        };
        proof {
            lemma_march_days(adj_year - 400);
            lemma_days_before_year(year as int);
            lemma_leap_years_step(year as int);
        }
        let julian_day_number: i32 = adj_ordinal + 365 * adj_year + adj_year / 4 - adj_year / 100
            + adj_year / 400 + 1_575_022;
        Self::from_julian_day_number(julian_day_number)
    }

    /// The year of this timestamp's day, and the day's place in that year.
    ///
    /// The days before the month come from the month offset of the date
    /// formula, counted from March: behind February the 59 or 60 days of
    /// January and February are added, and before March the 306 days from
    /// March to December are taken off.
    pub fn to_year_ordinal(self) -> (date: (u16, u16))
        ensures
            valid_ordinal(date.0 as int, date.1 as int),
            ordinal_day_number(date.0 as int, date.1 as int) == seconds_day_number(self@),
    {
        let (year, month, day): (u16, u8, u8) = self.to_year_month_day();
        let (month, day): (u64, u64) = (month as u64, day as u64);
        proof {
            lemma_days_before_month(year as int, month as int);
            lemma_days_before_month(year as int, 13);
            lemma_days_before_month(year as int, month as int + 1);
        }
        // f = (306 * adj_month + 5) / 10
        let ordinal: u64 = if month >= 3 {
            let scaled: u64 = 979 * (month - 3) + 16;
            let f: u64 = scaled >> 5;
            assert(f == scaled / 32) by (bit_vector)
                requires
                    f == scaled >> 5,
            ;
            let leap: u64 = if util::is_leap_year(year) {
                1
            } else {
                0
            };
            f + day + 59 + leap
        } else {
            let scaled: u64 = 979 * (month + 9) + 16;
            let f: u64 = scaled >> 5;
            assert(f == scaled / 32) by (bit_vector)
                requires
                    f == scaled >> 5,
            ;
            f + day - 306
        };
        (year, ordinal as u16)
    }

    /// The midnight that begins the day `julian_day_number`, where that
    /// day is supported.
    pub fn checked_from_julian_day_number(julian_day_number: i32) -> (checked: Option<
        UnixTimestamp,
    >)
        ensures
            match checked {
                Some(t) => supported(day_seconds(julian_day_number as int)) && t@ == day_seconds(
                    julian_day_number as int,
                ),
                None => !supported(day_seconds(julian_day_number as int)),
            },
    {
        Self::from_julian_day_number(julian_day_number).ok()
    }

    /// The midnight that begins the day `julian_day_number`.
    pub fn from_julian_day_number(julian_day_number: i32) -> (result: TimestampResult<
        UnixTimestamp,
    >)
        ensures
            result.is_outcome_of(day_seconds(julian_day_number as int)),
    {
        let timestamp: i64 = (julian_day_number as i64 - util::UNIX_EPOCH_JULIAN_DAY_NUMBER as i64)
            * util::SECONDS_PER_DAY;
        Self::from_unix_timestamp(timestamp)
    }

    /// The Julian Day Number of this timestamp's day.
    pub fn julian_day_number(self) -> (day_number: i32)
        ensures
            day_number == seconds_day_number(self@),
            2_440_588 <= day_number <= 5_373_485,
    {
        (self.unix_timestamp() as u64 / util::SECONDS_PER_DAY as u64) as i32
            + util::UNIX_EPOCH_JULIAN_DAY_NUMBER
    }

    /// The day of the week of this timestamp's day; 1970-01-01 was a
    /// Thursday.
    ///
    /// The remainder by 7 is taken without a division: the product with
    /// 613 566 757, which is `(2^32 + 3) / 7`, shifted right by 32 bits is
    /// the quotient by 7 of any count below `2^32 / 3`, and the counts of
    /// days here stay below 3 000 000.
    pub fn weekday(self) -> (day: Weekday)
        ensures
            day.index() == (self@ / 86_400 + 3) % 7,
    {
        // (days_since_epoch + 3) % 7
        let adj_days: u64 = self.unix_timestamp() as u64 / util::SECONDS_PER_DAY as u64 + 3;
        let product: u64 = adj_days * 613_566_757;
        let quotient: u64 = product >> 32;
        assert(quotient == product / 0x1_0000_0000) by (bit_vector)
            requires
                quotient == product >> 32,
        ;
        assert(quotient == adj_days / 7) by {
            assert(7 * 613_566_757 == 0x1_0000_0000 + 3);
        }
        let wd: u64 = adj_days - quotient * 7;
        Weekday::new(wd)
    }
}

} // verus!
