//! Readings of the system clock.  Nothing is promised of the values: they
//! depend on the machine and on the moment of the call.
use std::time::{Instant, SystemTime, SystemTimeError, UNIX_EPOCH};
use vstd::prelude::*;

verus! {

/// The error of `SystemTime::duration_since` when the clock reads earlier than the epoch.
#[verifier::external_type_specification]
#[verifier::external_body]
pub struct ExSystemTimeError(SystemTimeError);

/// Whole seconds since the Unix epoch, read from `SystemTime::now` through
/// `duration_since(UNIX_EPOCH)` and `Duration::as_secs`.  The value is not
/// stated: it is the time of the call.
#[verifier::external_body]
pub(crate) fn unix_time_secs() -> (r: Result<u64, SystemTimeError>) {
    match SystemTime::now().duration_since(UNIX_EPOCH) {
        Ok(d) => Ok(d.as_secs()),
        Err(e) => Err(e),
    }
}

/// Milliseconds since the Unix epoch, read from `SystemTime::now` through
/// `duration_since(UNIX_EPOCH)` and `Duration::as_millis`, cut to 64 bits as
/// `as u64` does.  The value is not stated: it is the time of the call.
#[verifier::external_body]
pub(crate) fn unix_time_millis() -> (r: Result<u64, SystemTimeError>) {
    match SystemTime::now().duration_since(UNIX_EPOCH) {
        Ok(d) => Ok(d.as_millis() as u64),
        Err(e) => Err(e),
    }
}

/// Whole seconds elapsed since an `Instant` taken at the start of the call
/// (`Instant::now().elapsed().as_secs()`).  The value is not stated.
#[verifier::external_body]
pub(crate) fn instant_elapsed_secs() -> (r: u64) {
    Instant::now().elapsed().as_secs()
}

/// Seconds since the epoch, or 0 when the clock reads earlier than the epoch.
pub fn now_secs() -> u64 {
    match unix_time_secs() {
        Ok(s) => s,
        Err(_) => 0,
    }
}

/// Milliseconds since the epoch, or 0 when the clock reads earlier than the epoch.
pub fn now_millis() -> u64 {
    match unix_time_millis() {
        Ok(ms) => ms,
        Err(_) => 0,
    }
}

} // verus!
