//! Trigger evaluation: whether a step's condition holds of a snapshot of the
//! vehicle's readings.

use vstd::prelude::*;
use crate::flightplan::Trigger;

verus! {

/// Half-width of the tolerance window: ten whole units, in millionths.
pub const WINDOW: i64 = 10_000_000;

/// One sample of the clock and of the vehicle's sensors. Angles are in
/// millionths of a degree, altitude in millionths of a metre, velocity in
/// millionths of a metre per second.
#[derive(Clone, Copy, Debug, PartialEq, Eq)]
pub struct Reading {
    /// Seconds since the epoch at which the sample was taken.
    pub time: u64,
    pub lat: i64,
    pub lon: i64,
    pub alt: i64,
    pub yaw: i64,
    pub pitch: i64,
    pub roll: i64,
    pub velocity: i64,
}

/// `current` lies no further than [`WINDOW`] from `target`.
pub open spec fn within_window(current: i64, target: i64) -> bool {
    -WINDOW <= current - target <= WINDOW
}

/// The trigger's condition holds of the reading. Latitude and longitude are
/// each held to their own window: the tolerance is a rectangle, not a radius.
pub open spec fn trigger_met(trigger: Trigger, reading: Reading) -> bool {
    match trigger {
        Trigger::Time { seconds_since_epoch } => seconds_since_epoch <= reading.time,
        Trigger::Position { lat, lon } => within_window(reading.lat, lat) && within_window(
            reading.lon,
            lon,
        ),
        Trigger::Altitude { value } => within_window(reading.alt, value),
    }
}

/// Whether `current` lies inside the tolerance window around `target`.
pub fn in_window(current: i64, target: i64) -> (inside: bool)
    ensures
        inside == within_window(current, target),
{
    let distance: i128 = current as i128 - target as i128;
    -(WINDOW as i128) <= distance && distance <= WINDOW as i128
}

/// Whether the trigger's condition holds of the reading.
pub fn check(trigger: &Trigger, reading: &Reading) -> (met: bool)
    ensures
        met == trigger_met(*trigger, *reading),
{
    match trigger {
        Trigger::Time { seconds_since_epoch } => *seconds_since_epoch <= reading.time,
        Trigger::Position { lat, lon } => in_window(reading.lat, *lat) && in_window(
            reading.lon,
            *lon,
        ),
        Trigger::Altitude { value } => in_window(reading.alt, *value),
    }
}

} // verus!
