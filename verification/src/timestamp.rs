//! Timestamps whose calendar formulas count in the years as they are
//! numbered, with no year moved.

use vstd::prelude::*;
use crate::calendar::{
    clamped, date_day_number, day_seconds, lemma_days_before_month, ordinal_day_number,
    seconds_day_number, supported, valid_date, valid_ordinal, LAST_SECOND,
};
use crate::polynomial::{
    date_polynomial, lemma_civil_of, lemma_date_polynomial, lemma_march_month, lemma_march_year,
    lemma_ordinal_fields, march_ordinal_of, march_year_of, ordinal_day_field,
    ordinal_month_field,
};
use crate::result::TimestampResult;
use crate::util;

verus! {

/// A second between 1970-01-01T00:00:00Z and 10000-01-01T00:00:00Z, both
/// included, held as the count of seconds since the first.
#[derive(Clone, Copy, Debug, PartialEq, Eq, PartialOrd, Structural)]
pub struct Timestamp(i64);

impl View for Timestamp {
    type V = int;

    /// Seconds since 1970-01-01T00:00:00Z.
    closed spec fn view(&self) -> int {
        self.0 as int
    }
}

/// The quotient of `n` by `d`, rounded down, for an `n` that is not below
/// `-d`.
fn floor_div(n: i32, d: i32) -> (q: i32)
    requires
        0 < d,
        -d <= n,
    ensures
        q == n as int / d as int,
{
    if n < 0 {
        assert(n as int / d as int == -1) by (nonlinear_arith)
            requires
                0 < d,
                -d <= n < 0,
        ;
        -1
    } else {
        n / d
    }
}

impl Timestamp {
    #[verifier::type_invariant]
    spec fn in_range(self) -> bool {
        supported(self.0 as int)
    }

    /// Two timestamps of the same second are the same timestamp.
    pub proof fn lemma_same_second(self, other: Timestamp)
        requires
            self@ == other@,
        ensures
            self == other,
    {
    }

    fn new(value: i64) -> (timestamp: Timestamp)
        requires
            supported(value as int),
        ensures
            timestamp@ == value,
    {
        Timestamp(value)
    }

    fn value(&self) -> (seconds: i64)
        ensures
            seconds == self@,
            supported(seconds as int),
    {
        proof {
            use_type_invariant(self);
        }
        self.0
    }

    /// The first supported second, 1970-01-01T00:00:00Z.
    pub fn min_value() -> (timestamp: Timestamp)
        ensures
            timestamp@ == 0,
    {
        Self::new(0)
    }

    /// The last supported second, 10000-01-01T00:00:00Z.
    pub fn max_value() -> (timestamp: Timestamp)
        ensures
            timestamp@ == LAST_SECOND,
    {
        Self::new(253_402_300_800)
    }

    /// The timestamp of the second `timestamp`, where it is supported.
    pub fn checked_from_unix_timestamp(timestamp: i64) -> (checked: Option<Timestamp>)
        ensures
            match checked {
                Some(t) => supported(timestamp as int) && t@ == timestamp,
                None => !supported(timestamp as int),
            },
    {
        Self::from_unix_timestamp(timestamp).ok()
    }

    /// The timestamp of the second `timestamp`, or the overflow that carries
    /// it where it is not supported.
    pub fn from_unix_timestamp(timestamp: i64) -> (result: TimestampResult<Timestamp>)
        ensures
            result.is_outcome_of(timestamp as int),
    {
        if util::is_supported_unix_timestamp(timestamp) {
            TimestampResult::TimestampOk(Self::new(timestamp))
        } else {
            TimestampResult::OverflowErr(timestamp)
        }
    }

    /// Seconds since 1970-01-01T00:00:00Z.
    pub fn unix_timestamp(&self) -> (seconds: i64)
        ensures
            seconds == self@,
            supported(seconds as int),
    {
        self.value()
    }

    /// The first second of this timestamp's day.
    pub fn midnight(&self) -> (timestamp: Timestamp)
        ensures
            timestamp@ == self@ - self@ % 86_400,
    {
        Self::new(self.unix_timestamp() - self.seconds_since_midnight())
    }

    /// Seconds since the first second of this timestamp's day.
    pub fn seconds_since_midnight(&self) -> (seconds: i64)
        ensures
            seconds == self@ % 86_400,
    {
        (self.unix_timestamp() as u64 % util::SECONDS_PER_DAY as u64) as i64
    }

    /// This timestamp moved by `seconds`, where that second is supported.
    /// The sum is taken with wraparound and then validated: one that left the
    /// 64-bit range comes back negative, and is refused with the rest.
    pub fn checked_add(&self, seconds: i64) -> (checked: Option<Timestamp>)
        ensures
            match checked {
                Some(t) => supported(self@ + seconds) && t@ == self@ + seconds,
                None => !supported(self@ + seconds),
            },
    {
        let timestamp: i64 = self.unix_timestamp().wrapping_add(seconds);
        Self::checked_from_unix_timestamp(timestamp)
    }

    /// This timestamp moved back by `seconds`, where that second is
    /// supported.
    pub fn checked_sub(&self, seconds: i64) -> (checked: Option<Timestamp>)
        ensures
            match checked {
                Some(t) => supported(self@ - seconds) && t@ == self@ - seconds,
                None => !supported(self@ - seconds),
            },
    {
        let timestamp: i64 = self.unix_timestamp().wrapping_sub(seconds);
        Self::checked_from_unix_timestamp(timestamp)
    }

    /// This timestamp moved by `seconds`, stopping at the ends of the
    /// supported range.
    pub fn saturating_add(&self, seconds: i64) -> (timestamp: Timestamp)
        ensures
            timestamp@ == clamped(self@ + seconds),
            self@ == LAST_SECOND && seconds >= 0 ==> timestamp@ == LAST_SECOND,
    {
        let timestamp: i64 = self.unix_timestamp().saturating_add(seconds);
        Self::from_unix_timestamp(timestamp).unwrap()
    }

    /// This timestamp moved back by `seconds`, stopping at the ends of the
    /// supported range.
    pub fn saturating_sub(&self, seconds: i64) -> (timestamp: Timestamp)
        ensures
            timestamp@ == clamped(self@ - seconds),
            self@ == 0 && seconds >= 0 ==> timestamp@ == 0,
    {
        let timestamp: i64 = self.unix_timestamp().saturating_sub(seconds);
        Self::from_unix_timestamp(timestamp).unwrap()
    }

    /// The midnight that begins the day `(year, month, day)`, where the
    /// fields name a day of the calendar and that day is supported.
    pub fn checked_from_year_month_day(year: u16, month: u8, day: u8) -> (checked: Option<
        Timestamp,
    >)
        ensures
            match checked {
                Some(t) => valid_date(year as int, month as int, day as int) && t@ == day_seconds(
                    date_day_number(year as int, month as int, day as int),
                ),
                None => !valid_date(year as int, month as int, day as int) || !supported(
                    day_seconds(date_day_number(year as int, month as int, day as int)),
                ),
            },
    {
        if util::is_valid_year_month_day(year, month, day) {
            Self::from_year_month_day(year, month, day).ok()
        } else {
            None
        }
    }

    /// The midnight that the date formula gives for the three fields. The
    /// fields are not validated: with a month of the calendar the day is
    /// counted on from the first of that month, past its end too, and
    /// with any other month the formula is taken as it stands.
    ///
    /// January and February count as months 13 and 14 of the year before,
    /// which for year 0 is the year -1: its quotients are rounded down.
    /// The month offset is a multiplication and a shift, which stands for
    /// `(153 * month - 457) / 5` on the months `3 ..= 14` only.
    pub fn from_year_month_day(year: u16, month: u8, day: u8) -> (result: TimestampResult<
        Timestamp,
    >)
        ensures
            result.is_outcome_of(
                day_seconds(date_polynomial(year as int, month as int, day as int)),
            ),
            1 <= month <= 12 ==> result.is_outcome_of(
                day_seconds(date_day_number(year as int, month as int, day as int)),
            ),
    {
        let (adj_year, adj_month, day): (i32, i32, i32) = if month < 3 {
            (year as i32 - 1, month as i32 + 12, day as i32)
        } else {
            (year as i32, month as i32, day as i32)
        };
        // f = (153 * adj_month - 457) / 5
        let scaled: i32 = 979 * adj_month - 2_918;
        let f: i32 = scaled >> 5;
        assert(f == scaled / 32) by (bit_vector)
            requires
                f == scaled >> 5,
                0 <= scaled,
        ;
        proof {
            if 1 <= month <= 12 {
                lemma_date_polynomial(year as int, month as int, day as int);
            }
        }
        let julian_day_number: i32 = day + f + 365 * adj_year + floor_div(adj_year, 4) - floor_div(
            adj_year,
            100,
        ) + floor_div(adj_year, 400) + 1_721_119;
        Self::from_julian_day_number(julian_day_number)
    }

    /// The calendar date of this timestamp's day.
    ///
    /// Two scaled divisions find the century and the year, in the
    /// March-based years of the date formula; the month comes from a
    /// multiplication and a shift that stand for `(5 * c + 456) / 153` on
    /// the days `c` of one year.
    pub fn as_year_month_day(&self) -> (date: (u16, u8, u8))
        ensures
            valid_date(date.0 as int, date.1 as int, date.2 as int),
            date_day_number(date.0 as int, date.1 as int, date.2 as int) == seconds_day_number(
                self@,
            ),
    {
        let julian_day_number: u64 = self.julian_day_number() as u64;
        let z: u64 = julian_day_number - 1_721_119;
        proof {
            lemma_civil_of(z as int);
            lemma_march_year(z as int);
            lemma_march_month(march_ordinal_of(z as int));
        }
        let h: u64 = 100 * z - 25;
        let a: u64 = h / 3_652_425;
        let b: u64 = a - a / 4;
        let year: u64 = (100 * b + h) / 36_525;
        assert(year == march_year_of(z as int));
        assert(1_969 <= year <= 10_000);
        let c: u64 = b + z - 365 * year - year / 4;
        assert(c == march_ordinal_of(z as int));
        // month = (5 * c + 456) / 153
        let scaled_ordinal: u64 = 535 * c + 48_950;
        let month: u64 = scaled_ordinal >> 14;
        assert(month == scaled_ordinal / 16_384) by (bit_vector)
            requires
                month == scaled_ordinal >> 14,
        ;
        // f = (153 * month - 457) / 5
        let scaled_month: u64 = 979 * month - 2_918;
        let f: u64 = scaled_month >> 5;
        assert(f == scaled_month / 32) by (bit_vector)
            requires
                f == scaled_month >> 5,
        ;
        let day: u64 = c - f;
        let (year, month): (u64, u64) = if month > 12 {
            (year + 1, month - 12)
        } else {
            (year, month)
        };
        (year as u16, month as u8, day as u8)
    }

    /// The midnight that begins the `ordinal`-th day of `year`, where the
    /// year has such a day and that day is supported.
    pub fn checked_from_year_ordinal(year: u16, ordinal: u16) -> (checked: Option<Timestamp>)
        ensures
            match checked {
                Some(t) => valid_ordinal(year as int, ordinal as int) && t@ == day_seconds(
                    ordinal_day_number(year as int, ordinal as int),
                ),
                None => !valid_ordinal(year as int, ordinal as int) || !supported(
                    day_seconds(ordinal_day_number(year as int, ordinal as int)),
                ),
            },
    {
        if util::is_valid_year_ordinal(year, ordinal) {
            Self::from_year_ordinal(year, ordinal).ok()
        } else {
            None
        }
    }

    /// The midnight of the `ordinal`-th day of `year`, by way of its month
    /// and its day of the month. The ordinal is not validated: for one that
    /// is no day of the year, the two fields are what the formulas give,
    /// each cut to a byte, and the date formula is applied to them.
    ///
    /// The ordinal is counted from the first of March, of this year where
    /// it lies behind the last of February and of the year before where
    /// it does not. The month is a multiplication and a shift that stand
    /// for `(10 * n - 5) / 306` on the days `n` of one year, and the day
    /// of the month is what the month's offset leaves.
    pub fn from_year_ordinal(year: u16, ordinal: u16) -> (result: TimestampResult<Timestamp>)
        ensures
            result.is_outcome_of(
                day_seconds(
                    date_polynomial(
                        year as int,
                        ordinal_month_field(year as int, ordinal as int),
                        ordinal_day_field(year as int, ordinal as int),
                    ),
                ),
            ),
            valid_ordinal(year as int, ordinal as int) ==> result.is_outcome_of(
                day_seconds(ordinal_day_number(year as int, ordinal as int)),
            ),
    {
        let ordinal: u32 = ordinal as u32;
        let last_day_of_february: u32 = if util::is_leap_year(year) {
            60
        } else {
            59
        };
        let (adj_ordinal, adj_month, month): (u32, u32, u8) = if ordinal > last_day_of_february {
            let adj_ordinal: u32 = ordinal - last_day_of_february;
            // adj_month = (10 * adj_ordinal - 5) / 306
            let scaled: u32 = 1_071 * adj_ordinal - 535;
            let adj_month: u32 = scaled >> 15;
            assert(adj_month == scaled / 32_768) by (bit_vector)
                requires
                    adj_month == scaled >> 15,
            ;
            let wide: u32 = adj_month + 3;
            let month: u8 = #[verifier::truncate] (wide as u8);
            assert(month == wide % 256) by (bit_vector)
                requires
                    month == wide as u8,
            ;
            (adj_ordinal, adj_month, month)
        } else {
            let adj_ordinal: u32 = ordinal + 306;
            // adj_month = (10 * adj_ordinal - 5) / 306
            let scaled: u32 = 1_071 * adj_ordinal - 535;
            let adj_month: u32 = scaled >> 15;
            assert(adj_month == scaled / 32_768) by (bit_vector)
                requires
                    adj_month == scaled >> 15,
            ;
            let wide: u32 = adj_month - 9;
            let month: u8 = #[verifier::truncate] (wide as u8);
            assert(month == wide % 256) by (bit_vector)
                requires
                    month == wide as u8,
            ;
            (adj_ordinal, adj_month, month)
        };
        // f = (306 * adj_month + 5) / 10
        let scaled: u32 = 979 * adj_month + 16;
        let f: u32 = scaled >> 5;
        assert(f == scaled / 32) by (bit_vector)
            requires
                f == scaled >> 5,
        ;
        let wide: u32 = adj_ordinal - f;
        let day: u8 = #[verifier::truncate] (wide as u8);
        assert(day == wide % 256) by (bit_vector)
            requires
                day == wide as u8,
        ;
        proof {
            if valid_ordinal(year as int, ordinal as int) {
                lemma_ordinal_fields(year as int, ordinal as int);
            }
        }
        Self::from_year_month_day(year, month, day)
    }

    /// The year of this timestamp's day, and the day's place in that year.
    ///
    /// The days before the month come from a multiplication and a shift
    /// that stand for `(153 * n + 2) / 5` on the months `n` counted from
    /// March as month 0: behind February the 59 or 60 days of January and
    /// February are added, and before March the 306 days from March to
    /// December are taken off.
    pub fn as_year_ordinal(&self) -> (date: (u16, u16))
        ensures
            valid_ordinal(date.0 as int, date.1 as int),
            ordinal_day_number(date.0 as int, date.1 as int) == seconds_day_number(self@),
    {
        let (year, month, day): (u16, u8, u8) = self.as_year_month_day();
        let (month, day): (u64, u64) = (month as u64, day as u64);
        proof {
            lemma_days_before_month(year as int, month as int);
            lemma_days_before_month(year as int, 13);
            lemma_days_before_month(year as int, month as int + 1);
        }
        // DayOfYear(adjusted_month) = (153 * adjusted_month + 2) / 5
        let ordinal: u64 = if month >= 3 {
            let scaled: u64 = 62_719 * (month - 3) + 769;
            let f: u64 = scaled >> 11;
            assert(f == scaled / 2_048) by (bit_vector)
                requires
                    f == scaled >> 11,
            ;
            let leap: u64 = if util::is_leap_year(year) {
                1
            } else {
                0
            };
            f + day + 59 + leap
        } else {
            let scaled: u64 = 62_719 * (month + 9) + 769;
            let f: u64 = scaled >> 11;
            assert(f == scaled / 2_048) by (bit_vector)
                requires
                    f == scaled >> 11,
            ;
            f + day - 306
        };
        (year, ordinal as u16)
    }

    /// The midnight that begins the day `julian_day_number`, where that
    /// day is supported.
    pub fn checked_from_julian_day_number(julian_day_number: i32) -> (checked: Option<Timestamp>)
        ensures
            match checked {
                Some(t) => supported(day_seconds(julian_day_number as int)) && t@ == day_seconds(
                    julian_day_number as int,
                ),
                None => !supported(day_seconds(julian_day_number as int)),
            },
    {
        Self::from_julian_day_number(julian_day_number).ok()
    }

    /// The midnight that begins the day `julian_day_number`.
    pub fn from_julian_day_number(julian_day_number: i32) -> (result: TimestampResult<Timestamp>)
        ensures
            result.is_outcome_of(day_seconds(julian_day_number as int)),
    {
        let timestamp: i64 = (julian_day_number as i64 - util::UNIX_EPOCH_JULIAN_DAY_NUMBER as i64)
            * util::SECONDS_PER_DAY;
        Self::from_unix_timestamp(timestamp)
    }

    /// The Julian Day Number of this timestamp's day.
    pub fn julian_day_number(&self) -> (day_number: i32)
        ensures
            day_number == seconds_day_number(self@),
            2_440_588 <= day_number <= 5_373_485,
    {
        (self.unix_timestamp() as u64 / util::SECONDS_PER_DAY as u64) as i32
            + util::UNIX_EPOCH_JULIAN_DAY_NUMBER
    }

    /// The number of days from Monday to this timestamp's day of the week:
    /// 0 for a Monday, 6 for a Sunday; 1970-01-01 was a Thursday.
    pub fn number_days_from_monday(&self) -> (days: u8)
        ensures
            days == (self@ / 86_400 + 3) % 7,
    {
        (((self.unix_timestamp() as u64 / util::SECONDS_PER_DAY as u64) as u32 + 3) % 7) as u8
    }
}

} // verus!
