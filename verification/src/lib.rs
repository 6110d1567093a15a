//! Exact integer conversions between seconds since the Unix epoch, proleptic
//! Gregorian calendar dates, ordinal dates and Julian Day Numbers, together
//! with cyclic day-of-week arithmetic.
//!
//! The supported range runs from 1970-01-01T00:00:00Z up to and including
//! 10000-01-01T00:00:00Z.

pub mod calendar;
pub mod laws;
pub mod polynomial;
pub mod util;

mod weekday;
mod result;
mod std_support;
mod timestamp;
mod unix_timestamp;

pub use self::result::TimestampResult;
pub use self::timestamp::Timestamp;
pub use self::unix_timestamp::UnixTimestamp;
