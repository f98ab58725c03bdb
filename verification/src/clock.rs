//! The clock: the current instant in whole seconds since the Unix epoch.

use vstd::prelude::*;
use std::time::{Duration, SystemTime, SystemTimeError};

verus! {

/// `std::time::SystemTime`, an instant of the system clock; it is carried
/// from one call to the next and never looked into.
#[verifier::external_type_specification]
#[verifier::external_body]
pub struct ExSystemTime(SystemTime);

/// `std::time::SystemTimeError`, the failure of `SystemTime::duration_since`;
/// it is told apart from success and never looked into.
#[verifier::external_type_specification]
#[verifier::external_body]
pub struct ExSystemTimeError(SystemTimeError);

/// `SystemTime::now` reads the system clock; nothing is promised of the
/// instant it hands out.
pub assume_specification[ SystemTime::now ]() -> (now: SystemTime);

/// `SystemTime::duration_since` measures the time from `earlier` to `this`,
/// or fails when `earlier` is the later of the two; which of the two happens
/// is not stated here.
pub assume_specification[ SystemTime::duration_since ](this: &SystemTime, earlier: SystemTime) -> (elapsed: Result<Duration, SystemTimeError>);

/// `Duration::as_secs` gives the whole seconds held by a duration; the
/// duration is opaque here, so nothing is promised of the number.
pub assume_specification[ Duration::as_secs ](this: &Duration) -> (secs: u64);

/// The constant `std::time::UNIX_EPOCH`, the instant from which timestamps
/// are counted.
#[verifier::external_body]
fn unix_epoch() -> (epoch: SystemTime)
{
    std::time::UNIX_EPOCH
}

/// The timestamp that stands for `secs` whole seconds since the epoch, when
/// a timestamp can hold it.
pub open spec fn timestamp_of(secs: u64) -> Option<i64> {
    if secs <= i64::MAX {
        Some(secs as i64)
    } else {
        None
    }
}

/// Turns a count of seconds since the epoch into a timestamp.
pub fn seconds_to_timestamp(secs: u64) -> (t: Option<i64>)
    ensures
        t == timestamp_of(secs),
{
    if secs <= 0x7fff_ffff_ffff_ffff {
        Some(secs as i64)
    } else {
        None
    }
}

/// Reads the clock. The answer is `None` when the clock stands before the
/// epoch or beyond what a timestamp can hold; a timestamp that is handed out
/// is never negative.
pub fn get_timestamp() -> (t: Option<i64>)
    ensures
        t matches Some(s) ==> s >= 0,
{
    let now = SystemTime::now();
    match now.duration_since(unix_epoch()) {
        Ok(elapsed) => seconds_to_timestamp(elapsed.as_secs()),
        Err(_) => None,
    }
}

} // verus!
