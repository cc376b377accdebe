//! A fan-speed controller: a piecewise-linear curve from temperature to fan
//! speed, the fallback policy for a failed sensor read, and the mapping of a
//! speed onto the actuator's duty-cycle range.

pub mod control;
pub mod curve;
pub mod sensor;
