//! The wall clock, as whole seconds since the Unix epoch.

use vstd::prelude::*;
use std::time::{Duration, SystemTime, SystemTimeError};

verus! {

#[verifier::external_type_specification]
#[verifier::external_body]
pub struct ExSystemTime(SystemTime);

#[verifier::external_type_specification]
#[verifier::external_body]
pub struct ExSystemTimeError(SystemTimeError);

/// A point in time, in whole seconds since the Unix epoch.
#[derive(Clone, Copy, Debug, PartialEq, Eq)]
pub struct Time {
    pub seconds: u64,
}

/// Why the clock could not be read.
#[derive(Clone, Copy, Debug, PartialEq, Eq)]
pub enum ClockError {
    /// The system clock is set to a time before the Unix epoch.
    BeforeEpoch,
}

/// `SystemTime::now`: the system clock's current reading. Nothing is claimed
/// of the value.
#[verifier::external_body]
fn clock_now() -> SystemTime {
    SystemTime::now()
}

/// `SystemTime::duration_since`, measured from `UNIX_EPOCH`: the span from
/// the epoch to `at`, or an error where `at` lies before the epoch. Nothing
/// is claimed of either.
#[verifier::external_body]
fn since_epoch(at: &SystemTime) -> Result<Duration, SystemTimeError> {
    at.duration_since(std::time::UNIX_EPOCH)
}

/// `Duration::as_secs`: the whole seconds in a span. Nothing is claimed of
/// the number.
#[verifier::external_body]
fn whole_seconds(span: &Duration) -> u64 {
    span.as_secs()
}

/// The time read from a span since the epoch, or the reason there is none.
pub fn time_from(seconds_since_epoch: Option<u64>) -> (now: Result<Time, ClockError>)
    ensures
        now == match seconds_since_epoch {
            Some(seconds) => Ok::<_, ClockError>(Time { seconds }),
            None => Err(ClockError::BeforeEpoch),
        },
{
    match seconds_since_epoch {
        Some(seconds) => Ok(Time { seconds }),
        None => Err(ClockError::BeforeEpoch),
    }
}

/// The current time. It fails only where the system clock stands before the
/// epoch; of the time itself nothing is known in advance.
pub fn time() -> (now: Result<Time, ClockError>) {
    let elapsed = match since_epoch(&clock_now()) {
        Ok(span) => Some(whole_seconds(&span)),
        Err(_) => None,
    };
    time_from(elapsed)
}

} // verus!
