//! Coordination of an uncrewed vehicle's avionics unit with its ground station:
//! the flight-plan model and its validator, trigger evaluation, the avionics
//! lifecycle with its plan executor, and the framed wire envelope.
//!
//! Real-valued quantities (degrees, metres, throttle) are held as signed
//! fixed-point integers in millionths of a unit, see [`flightplan::UNIT`].

pub mod avionics;
pub mod clock;
pub mod envelope;
pub mod flightplan;
pub mod planning;
pub mod trigger;
pub mod wire;
