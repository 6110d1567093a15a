//! Days of the week as a cycle of seven, counted from Monday.

use vstd::prelude::*;

verus! {

/// A day of the week.
#[allow(non_camel_case_types)]
#[derive(Clone, Copy, Debug, PartialEq, Eq, Structural)]
pub enum Weekday {
    MONDAY,
    TUESDAY,
    WEDNESDAY,
    THURSDAY,
    FRIDAY,
    SATURDAY,
    SUNDAY,
}

impl Weekday {
    /// Number of days from Monday to this day: 0 for Monday, 6 for Sunday.
    pub open spec fn index(self) -> int {
        match self {
            Weekday::MONDAY => 0,
            Weekday::TUESDAY => 1,
            Weekday::WEDNESDAY => 2,
            Weekday::THURSDAY => 3,
            Weekday::FRIDAY => 4,
            Weekday::SATURDAY => 5,
            Weekday::SUNDAY => 6,
        }
    }

    /// The day that lies `value` days after Monday.
    pub(crate) fn new(value: u64) -> (day: Weekday)
        requires
            value <= 6,
        ensures
            day.index() == value,
    {
        match value {
            0 => Weekday::MONDAY,
            1 => Weekday::TUESDAY,
            2 => Weekday::WEDNESDAY,
            3 => Weekday::THURSDAY,
            4 => Weekday::FRIDAY,
            5 => Weekday::SATURDAY,
            _ => Weekday::SUNDAY,
        }
    }

    fn value(self) -> (value: u64)
        ensures
            value == self.index(),
    {
        match self {
            Weekday::MONDAY => 0,
            Weekday::TUESDAY => 1,
            Weekday::WEDNESDAY => 2,
            Weekday::THURSDAY => 3,
            Weekday::FRIDAY => 4,
            Weekday::SATURDAY => 5,
            Weekday::SUNDAY => 6,
        }
    }

    /// The day before this one; Sunday comes before Monday.
    pub fn previous(self) -> (day: Weekday)
        ensures
            day.index() == (self.index() - 1) % 7,
    {
        let value: u64 = self.value();
        if value > 0 {
            Self::new(value.wrapping_sub(1))
        } else {
            Self::new(6)
        }
    }

    /// The day after this one; Monday comes after Sunday.
    pub fn next(self) -> (day: Weekday)
        ensures
            day.index() == (self.index() + 1) % 7,
    {
        let value: u64 = self.value();
        if value < 6 {
            Self::new(value.wrapping_add(1))
        } else {
            Self::new(0)
        }
    }

    /// Number of days, `0 ..= 6`, from `earlier` forward to this day. The
    /// difference is taken with wraparound: one that fell below zero shows
    /// as a value above 6, and adding 7 wraps it back into the cycle.
    pub fn days_since(self, earlier: Weekday) -> (days: u64)
        ensures
            days == (self.index() - earlier.index()) % 7,
    {
        let difference: u64 = self.value().wrapping_sub(earlier.value());
        if difference > 6 {
            difference.wrapping_add(7)
        } else {
            difference
        }
    }

    /// Number of days, `0 ..= 6`, from this day forward to `later`.
    pub fn days_until(self, later: Weekday) -> (days: u64)
        ensures
            days == (later.index() - self.index()) % 7,
    {
        later.days_since(self)
    }
}

} // verus!
