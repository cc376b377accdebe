//! One tick of the control loop, without its input and output: the fallback
//! for a failed sensor read, the curve lookup, and the scaling of a speed in
//! percent onto the actuator's duty-cycle steps.

use vstd::prelude::*;
use crate::curve::{speed_at, Curve, Speed};

verus! {

/// The reading that stands for a failed sensor read. The sensor's interface is
/// a plain temperature with this value set aside, rather than a result type:
/// a true reading of -100 degrees, far outside what the sensor meets, is taken
/// for a failure too.
pub const FAIL_TEMP: i32 = -100;

/// The speed in percent that the fan runs at while the sensor cannot be read.
pub const FAIL_SPEED: i32 = 50;

/// The number of duty-cycle steps that stand for a speed of 100 percent.
pub const DUTY_STEPS: i128 = 256;

/// The speed that a tick aims for at reading `temp`.
pub open spec fn target_speed(pts: Seq<(i32, i32)>, temp: int) -> (int, int) {
    if temp == FAIL_TEMP {
        (FAIL_SPEED as int, 1)
    } else {
        speed_at(pts, temp)
    }
}

/// `n / d` rounded to the nearest integer, halves away from zero.
pub open spec fn round_div(n: int, d: int) -> int {
    if n >= 0 {
        (2 * n + d) / (2 * d)
    } else {
        -((2 * -n + d) / (2 * d))
    }
}

/// The duty cycle, in steps of 1/256, that stands for the speed `s.0 / s.1`
/// percent.
pub open spec fn duty_of(s: (int, int)) -> int {
    round_div(s.0 * DUTY_STEPS, s.1 * 100)
}

/// The target speed for the reading `temp`: the fallback speed where the
/// sensor read failed, else the curve's speed at `temp`.
pub fn get_speed(temp: i32, curve: &Curve) -> (r: Speed)
    requires
        curve.wf(),
    ensures
        r@ == target_speed(curve@, temp as int),
        r.wf(),
{
    if temp == FAIL_TEMP {
        Speed::whole(FAIL_SPEED)
    } else {
        curve.get_value_at(temp)
    }
}

/// The duty cycle, in steps of 1/256, for a speed in percent, rounded to the
/// nearest step.
pub fn duty_level(speed: Speed) -> (r: i128)
    requires
        speed.wf(),
    ensures
        r == duty_of(speed@),
{
    let d: i128 = speed.denom * 100;
    if speed.numer >= 0 {
        (2 * (speed.numer * DUTY_STEPS) + d) / (2 * d)
    } else {
        -((2 * -(speed.numer * DUTY_STEPS) + d) / (2 * d))
    }
}

/// The duty cycle, in steps of 1/256, that one tick sets for the reading
/// `temp`.
pub fn target_duty(temp: i32, curve: &Curve) -> (r: i128)
    requires
        curve.wf(),
    ensures
        r == duty_of(target_speed(curve@, temp as int)),
{
    duty_level(get_speed(temp, curve))
}

/// Where the sensor read failed, a tick aims for the fallback speed, whatever
/// the curve.
pub proof fn lemma_fallback_speed(c: Curve)
    requires
        c.wf(),
    ensures
        target_speed(c@, FAIL_TEMP as int) == (FAIL_SPEED as int, 1int),
{
}

} // verus!
