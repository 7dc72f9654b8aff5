//! The wall clock, read in Unix seconds.

use crate::constants::Timestamp;
use crate::error::NodeError;
use std::time::{Duration, SystemTime, SystemTimeError};
use vstd::prelude::*;

verus! {

/// `std::time::SystemTime`, a point on the system clock. Nothing is known
/// of what a value holds.
#[verifier::external_type_specification]
#[verifier::external_body]
pub struct ExSystemTime(SystemTime);

/// `std::time::SystemTimeError`, the error of a time difference that would
/// be negative. Nothing is known of what a value holds.
#[verifier::external_type_specification]
#[verifier::external_body]
pub struct ExSystemTimeError(SystemTimeError);

/// `SystemTime::now` reads the system clock. Nothing is claimed of the result.
pub assume_specification[ SystemTime::now ]() -> (now: SystemTime)
;

/// `SystemTime::duration_since` gives the time from `earlier` to `time`, or
/// an error where `earlier` is the later one. Nothing is claimed of the result.
pub assume_specification[ SystemTime::duration_since ](
    time: &SystemTime,
    earlier: SystemTime,
) -> (r: Result<Duration, SystemTimeError>)
;

/// `Duration::as_secs` gives the whole seconds of a duration. Nothing is
/// claimed of the result.
pub assume_specification[ Duration::as_secs ](duration: &Duration) -> (secs: u64)
;

/// The constant `SystemTime::UNIX_EPOCH`, the start of 1970 in UTC.
#[verifier::external_body]
fn unix_epoch() -> (epoch: SystemTime) {
    SystemTime::UNIX_EPOCH
}

/// The present second, counted from the start of 1970. Fails where the
/// system clock stands before that start.
pub fn get_timestamp() -> (r: Result<Timestamp, NodeError>)
    ensures
        r is Err ==> r == Err::<Timestamp, NodeError>(NodeError::ClockBeforeEpoch),
{
    let now = SystemTime::now();
    match now.duration_since(unix_epoch()) {
        Ok(elapsed) => Ok(elapsed.as_secs()),
        Err(_) => Err(NodeError::ClockBeforeEpoch),
    }
}

} // verus!
