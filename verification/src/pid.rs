//! A proportional-integral-derivative regulator built entirely on the
//! saturating fixed-point arithmetic of [`crate::DyadicFraction`]. The
//! gains are fixed at construction; each `update` step mutates the
//! retained error history and returns the control output exactly as the
//! model below states.

use crate::model::{add_pp, cmp_pp, mul_pp, sub_pp};
use crate::DyadicFraction;
use vstd::prelude::*;

verus! {

/// A PID regulator: three gains, the error retained from the previous
/// step, a clamped running error sum, and the inclusive clamp bounds of
/// that sum.
pub struct Regulator {
    pub kp: DyadicFraction,
    pub ki: DyadicFraction,
    pub kd: DyadicFraction,
    pub last_error: DyadicFraction,
    pub error_sum: DyadicFraction,
    pub min_error_sum: DyadicFraction,
    pub max_error_sum: DyadicFraction,
}

/// The error of an update step: setpoint minus measured value.
pub open spec fn step_error(sp: DyadicFraction, val: DyadicFraction) -> (int, int) {
    sub_pp(sp@, val@)
}

/// The new integral accumulator of an update step: the previous sum plus
/// the error, clamped inclusively between the regulator's bounds
/// (anti-windup: the sum itself is bounded, not the output).
pub open spec fn step_sum(s: Regulator, err: (int, int)) -> (int, int) {
    let cand = add_pp(s.error_sum@, err);
    if cmp_pp(cand, s.min_error_sum@) < 0 {
        s.min_error_sum@
    } else if cmp_pp(cand, s.max_error_sum@) > 0 {
        s.max_error_sum@
    } else {
        cand
    }
}

/// The control output of an update step: `error*kp + sum*ki + delta*kd`,
/// where `delta` is the change of the error since the previous step and
/// `sum` the new clamped accumulator.
pub open spec fn step_output(s: Regulator, sp: DyadicFraction, val: DyadicFraction) -> (int, int) {
    let err = step_error(sp, val);
    let delta = sub_pp(err, s.last_error@);
    let sum = step_sum(s, err);
    add_pp(add_pp(mul_pp(err, s.kp@), mul_pp(sum, s.ki@)), mul_pp(delta, s.kd@))
}

impl Regulator {
    /// Create a regulator with the given gains and inclusive bounds for
    /// the integral accumulator; the error history starts at zero.
    pub fn new(
        kp: DyadicFraction,
        ki: DyadicFraction,
        kd: DyadicFraction,
        min_error_sum: DyadicFraction,
        max_error_sum: DyadicFraction,
    ) -> (r: Self)
        ensures
            r.kp == kp,
            r.ki == ki,
            r.kd == kd,
            r.min_error_sum == min_error_sum,
            r.max_error_sum == max_error_sum,
            r.last_error@ == (0int, 0int),
            r.error_sum@ == (0int, 0int),
    {
        Self {
            kp,
            ki,
            kd,
            min_error_sum,
            max_error_sum,
            last_error: DyadicFraction::zero(),
            error_sum: DyadicFraction::zero(),
        }
    }

    /// One control step for a setpoint and a measured value: updates the
    /// retained error and the clamped error sum, and returns the exact
    /// `p + i + d` output of the model.
    pub fn update(&mut self, sp: DyadicFraction, val: DyadicFraction) -> (out: DyadicFraction)
        ensures
            final(self).last_error@ == step_error(sp, val),
            final(self).error_sum@ == step_sum(*old(self), step_error(sp, val)),
            out@ == step_output(*old(self), sp, val),
            final(self).kp == old(self).kp,
            final(self).ki == old(self).ki,
            final(self).kd == old(self).kd,
            final(self).min_error_sum == old(self).min_error_sum,
            final(self).max_error_sum == old(self).max_error_sum,
    {
        let error = sp - val;
        let error_delta = error - self.last_error;

        self.last_error = error;
        let cand = self.error_sum + error;
        self.error_sum = if cand < self.min_error_sum {
            self.min_error_sum
        } else if cand > self.max_error_sum {
            self.max_error_sum
        } else {
            cand
        };

        let p = error * self.kp;
        let i = self.error_sum * self.ki;
        let d = error_delta * self.kd;

        p + i + d
    }
}

} // verus!
