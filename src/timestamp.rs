//! The wall-clock time, in whole seconds since the unix epoch.

use std::time::{Duration, SystemTime, SystemTimeError};
use vstd::prelude::*;

verus! {

/// `std::time::SystemTime`, carried opaquely between the clock calls below.
#[verifier::external_type_specification]
#[verifier::external_body]
pub struct ExSystemTime(SystemTime);

/// `std::time::SystemTimeError`, the error of a time before the epoch.
#[verifier::external_type_specification]
#[verifier::external_body]
pub struct ExSystemTimeError(SystemTimeError);

/// The clock reads a time before the unix epoch.
#[derive(Clone, Copy, Debug, PartialEq, Eq, Structural)]
pub struct TimestampError;

/// Relies on `SystemTime::now`: the current wall-clock time, of which
/// nothing is known in advance.
#[verifier::external_body]
fn system_now() -> SystemTime {
    SystemTime::now()
}

/// Relies on `SystemTime::duration_since` with `UNIX_EPOCH`: the time
/// elapsed since the epoch, or an error for an earlier time.
#[verifier::external_body]
fn since_epoch(t: &SystemTime) -> Result<Duration, SystemTimeError> {
    t.duration_since(SystemTime::UNIX_EPOCH)
}

/// Relies on `Duration::as_secs`: the whole seconds of a duration.
#[verifier::external_body]
fn whole_seconds(d: &Duration) -> u64 {
    d.as_secs()
}

/// The current unix time in seconds, or an error where the clock reads a
/// time before the epoch.
pub fn get_unix_timestamp() -> (r: Result<u64, TimestampError>) {
    match since_epoch(&system_now()) {
        Ok(d) => Ok(whole_seconds(&d)),
        Err(_) => Err(TimestampError),
    }
}

} // verus!
