//! The outcome of building a timestamp.

use vstd::prelude::*;
use crate::calendar::{clamped, supported, LAST_SECOND};
use crate::timestamp::Timestamp;
use crate::unix_timestamp::UnixTimestamp;

verus! {

/// Either the timestamp that was built, or the count of seconds that was
/// asked for and lies outside the supported range.
#[derive(Debug)]
pub enum TimestampResult<T> {
    TimestampOk(T),
    OverflowErr(i64),
}

impl<T> TimestampResult<T> {
    /// The timestamp of a result that is known to hold one. The message
    /// names the caller's reason for knowing so.
    pub fn expect(self, msg: &'static str) -> (timestamp: T)
        requires
            self is TimestampOk,
        ensures
            self == TimestampResult::TimestampOk(timestamp),
    {
        match self {
            Self::TimestampOk(timestamp) => timestamp,
            _ => vstd::pervasive::unreached(),
        }
    }

    /// The timestamp, if there is one.
    pub fn ok(self) -> (timestamp: Option<T>)
        ensures
            timestamp == match self {
                TimestampResult::TimestampOk(t) => Some(t),
                TimestampResult::OverflowErr(_) => None,
            },
    {
        match self {
            Self::TimestampOk(timestamp) => Some(timestamp),
            _ => None,
        }
    }
}

impl<T: View<V = int>> TimestampResult<T> {
    /// Whether this is what a request for the second `seconds` comes to: the
    /// timestamp of that second where it is supported, and else the
    /// overflow that carries `seconds`.
    pub open spec fn is_outcome_of(self, seconds: int) -> bool {
        match self {
            TimestampResult::TimestampOk(t) => supported(seconds) && t@ == seconds,
            TimestampResult::OverflowErr(raw) => !supported(seconds) && raw == seconds,
        }
    }

    /// The second that `unwrap` resolves this result to.
    pub open spec fn saturated(self) -> int {
        match self {
            TimestampResult::TimestampOk(t) => t@,
            TimestampResult::OverflowErr(raw) => if raw < 0 {
                0
            } else {
                LAST_SECOND as int
            },
        }
    }

    /// Resolving the outcome of a request clamps the requested second to the
    /// supported range.
    pub proof fn lemma_saturated(self, seconds: int)
        requires
            self.is_outcome_of(seconds),
        ensures
            self.saturated() == clamped(seconds),
    {
    }
}

impl TimestampResult<UnixTimestamp> {
    /// The timestamp, or for an overflow the end of the supported range
    /// that the request lies beyond. This never fails.
    pub fn unwrap(self) -> (timestamp: UnixTimestamp)
        ensures
            timestamp@ == self.saturated(),
            self matches TimestampResult::TimestampOk(t) ==> timestamp == t,
    {
        match self {
            Self::TimestampOk(timestamp) => timestamp,
            Self::OverflowErr(value) => {
                if value < UnixTimestamp::min_value().unix_timestamp() {
                    UnixTimestamp::min_value()
                } else {
                    UnixTimestamp::max_value()
                }
            },
        }
    }
}

impl TimestampResult<Timestamp> {
    /// The timestamp, or for an overflow the end of the supported range
    /// that the request lies beyond. This never fails.
    pub fn unwrap(self) -> (timestamp: Timestamp)
        ensures
            timestamp@ == self.saturated(),
            self matches TimestampResult::TimestampOk(t) ==> timestamp == t,
    {
        match self {
            Self::TimestampOk(timestamp) => timestamp,
            Self::OverflowErr(value) => {
                if value < Timestamp::min_value().unix_timestamp() {
                    Timestamp::min_value()
                } else {
                    Timestamp::max_value()
                }
            },
        }
    }
}

} // verus!
