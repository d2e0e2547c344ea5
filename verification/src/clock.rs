//! Trusted access to the wall clock, the local calendar clock, and
//! the monotonic clock.  Nothing can be promised of a clock reading,
//! so these items state only the ranges the sources document; callers
//! take the readings as arguments and are verified for every value.

use vstd::prelude::*;

use crate::schedule::WeekdayWrapper;
use chrono::{Datelike, Timelike};

verus! {

/// Relies on `std::time::Instant`: an opaque reading of the monotonic
/// clock.
#[verifier::external_type_specification]
#[verifier::external_body]
pub struct ExInstant(std::time::Instant);

/// Relies on `std::time::Instant::now`: a reading of the monotonic
/// clock; nothing can be promised of its value.
pub assume_specification[ std::time::Instant::now ]() -> std::time::Instant;

/// Relies on `std::time::Instant::elapsed`: the time since the given
/// reading; nothing can be promised of its value.
pub assume_specification[ std::time::Instant::elapsed ](
    start: &std::time::Instant,
) -> core::time::Duration;

/// Relies on `core::time::Duration::as_secs`: the whole seconds of
/// the duration.
pub assume_specification[ core::time::Duration::as_secs ](d: &core::time::Duration) -> u64;

/// Relies on `chrono::Utc::now` for the wall clock, and on
/// `DateTime::timestamp` to convert the reading to Unix seconds.
/// Nothing can be promised of the value.
#[verifier::external_body]
pub fn wall_clock_seconds() -> i64 {
    chrono::Utc::now().timestamp()
}

/// Relies on `chrono::Local::now` for the local calendar clock, and
/// on the `weekday`, `hour` and `minute` accessors of the reading;
/// chrono documents the hour number as 0 to 23 and the minute number
/// as 0 to 59.
#[verifier::external_body]
pub fn local_clock() -> (r: (WeekdayWrapper, u8, u8))
    ensures
        r.1 < 24,
        r.2 < 60,
{
    let now = chrono::Local::now();
    let day = match now.weekday() {
        chrono::Weekday::Mon => WeekdayWrapper::Mon,
        chrono::Weekday::Tue => WeekdayWrapper::Tue,
        chrono::Weekday::Wed => WeekdayWrapper::Wed,
        chrono::Weekday::Thu => WeekdayWrapper::Thu,
        chrono::Weekday::Fri => WeekdayWrapper::Fri,
        chrono::Weekday::Sat => WeekdayWrapper::Sat,
        chrono::Weekday::Sun => WeekdayWrapper::Sun,
    };
    let time = now.time();
    (day, time.hour() as u8, time.minute() as u8)
}

} // verus!
