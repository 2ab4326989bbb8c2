//! The wall clock, read in whole seconds since the Unix epoch.

use std::time::{Duration, SystemTime, SystemTimeError, UNIX_EPOCH};
use vstd::prelude::*;

verus! {

/// A point in time as the system clock gives it; opaque to the proofs.
#[verifier::external_type_specification]
#[verifier::external_body]
pub struct ExSystemTime(SystemTime);

/// The error of a time difference that would be negative.
#[verifier::external_type_specification]
#[verifier::external_body]
pub struct ExSystemTimeError(SystemTimeError);

/// `SystemTime::now` reads the system clock. Nothing is claimed of the
/// reading.
pub assume_specification[ SystemTime::now ]() -> SystemTime;

/// `SystemTime::duration_since` gives the time elapsed since `earlier`, or
/// an error when `earlier` is the later of the two. Nothing is claimed of
/// the result.
pub assume_specification[ SystemTime::duration_since ](
    time: &SystemTime,
    earlier: SystemTime,
) -> Result<Duration, SystemTimeError>;

/// `Duration::as_secs` gives the whole seconds of a duration. Nothing is
/// claimed of the number.
pub assume_specification[ Duration::as_secs ](duration: &Duration) -> u64;

/// Hands out the constant `std::time::UNIX_EPOCH`, the start of 1970 in
/// UTC. Nothing is claimed of it.
#[verifier::external_body]
fn unix_epoch() -> SystemTime {
    UNIX_EPOCH
}

/// The current time in whole seconds since the Unix epoch; zero when the
/// clock reads a time before the epoch.
pub fn unix_seconds() -> u64 {
    let now = SystemTime::now();
    whole_seconds(now.duration_since(unix_epoch()))
}

/// The whole seconds of an elapsed time, and zero where there is none
/// because the clock stood before the point it was measured from.
fn whole_seconds(elapsed: Result<Duration, SystemTimeError>) -> (seconds: u64)
    ensures
        elapsed is Err ==> seconds == 0,
{
    match elapsed {
        Ok(duration) => duration.as_secs(),
        Err(_) => 0,
    }
}

} // verus!
