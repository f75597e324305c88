//! Reference shaping for the steering position input.
//!
//! The plant's boundary is position-in / torque-out, and a real steering column
//! has inertia. Feed it a raw measured wheel angle and the reaction torque
//! picks up a numerically differentiated second derivative of a quantised,
//! noisy encoder signal -- and the wheel chatters.
//!
//! A critically damped second-order filter is used rather than a low-pass on
//! the raw signal because it produces angle, rate and acceleration from one
//! state, so they cannot disagree, and because critical damping means no
//! overshoot: the shaped angle never leads the driver's hands.

use vstd::arithmetic::power2::*;
use vstd::prelude::*;

use crate::arith;
use crate::arith::{minus, over, plus, times, Operation};
use crate::arith::rounding;
use crate::numbers;
use crate::numbers::{nearly, number, size, upto};
use crate::scalar;
use crate::scalar::{is_finite, is_less, Scalar, ZERO};

verus! {

/// One full turn.
pub const TAU: Scalar = 0x4019_21fb_5444_2d18;

pub const TWO: Scalar = 0x4000_0000_0000_0000;

/// Angle, rate and acceleration, consistent with each other.
#[derive(Clone, Copy, PartialEq, Eq, Structural, Debug)]
pub struct ShapedSteer {
    pub angle: Scalar,
    pub rate: Scalar,
    pub acceleration: Scalar,
}

impl Default for ShapedSteer {
    fn default() -> (shaped: Self)
        ensures
            shaped == (ShapedSteer { angle: ZERO, rate: ZERO, acceleration: ZERO }),
    {
        ShapedSteer { angle: ZERO, rate: ZERO, acceleration: ZERO }
    }
}

#[derive(Clone, Copy, PartialEq, Eq, Structural, Debug)]
pub struct ShaperConfig {
    /// Corner frequency [Hz]. High enough that a driver cannot feel the delay
    /// (a human steering input has almost no content above 5 Hz), low enough to
    /// remove encoder quantisation noise.
    pub cutoff_hz: Scalar,
    /// Bypass the shaper. Useful exactly once: to demonstrate the chatter this
    /// exists to prevent, so nobody removes it later thinking it does nothing.
    pub enabled: bool,
}

impl ShaperConfig {
    /// 40 Hz, enabled.
    pub open spec fn standard() -> Self {
        ShaperConfig { cutoff_hz: 0x4044_0000_0000_0000, enabled: true }
    }
}

impl Default for ShaperConfig {
    fn default() -> (config: Self)
        ensures
            config == Self::standard(),
    {
        ShaperConfig { cutoff_hz: 0x4044_0000_0000_0000, enabled: true }
    }
}

#[derive(Clone, Copy, PartialEq, Eq, Structural, Debug)]
pub struct SteerShaper {
    pub config: ShaperConfig,
    pub angle: Scalar,
    pub rate: Scalar,
}

impl SteerShaper {
    /// Corner frequency [rad/s].
    pub open spec fn omega<F: Fn(Operation) -> Scalar>(self, unit: &F) -> Scalar {
        times(unit, TAU, self.config.cutoff_hz)
    }

    /// What one update produces from this state.
    pub open spec fn shaped<F: Fn(Operation) -> Scalar>(
        self,
        unit: &F,
        target: Scalar,
        dt: Scalar,
    ) -> ShapedSteer {
        if self.config.enabled {
            let omega = self.omega(unit);
            let acceleration = minus(
                unit,
                times(unit, times(unit, omega, omega), minus(unit, target, self.angle)),
                times(unit, times(unit, TWO, omega), self.rate),
            );
            let rate = plus(unit, self.rate, times(unit, acceleration, dt));
            let angle = plus(unit, self.angle, times(unit, rate, dt));
            ShapedSteer { angle, rate, acceleration }
        } else {
            ShapedSteer {
                angle: target,
                rate: if is_less(ZERO, dt) {
                    over(unit, minus(unit, target, self.angle), dt)
                } else {
                    ZERO
                },
                acceleration: ZERO,
            }
        }
    }

    pub fn new(config: ShaperConfig) -> (shaper: Self)
        ensures
            shaper == (SteerShaper { config, angle: ZERO, rate: ZERO }),
    {
        SteerShaper { config, angle: ZERO, rate: ZERO }
    }

    /// Jump the filter to an angle without a transient. Used at session start,
    /// so the plant does not see a step from zero to wherever the wheel is
    /// actually sitting.
    pub fn reset(&mut self, angle: Scalar)
        ensures
            *final(self) == (SteerShaper { config: old(self).config, angle, rate: ZERO }),
    {
        self.angle = angle;
        self.rate = ZERO;
    }

    pub fn update<F: Fn(Operation) -> Scalar>(
        &mut self,
        unit: &F,
        target: Scalar,
        dt: Scalar,
    ) -> (shaped: ShapedSteer)
        requires
            arith::functional(*unit),
        ensures
            shaped == old(self).shaped(unit, target, dt),
            *final(self) == (SteerShaper {
                config: old(self).config,
                angle: shaped.angle,
                rate: shaped.rate,
            }),
    {
        if !self.config.enabled {
            let rate: Scalar = if is_less(ZERO, dt) {
                over(unit, minus(unit, target, self.angle), dt)
            } else {
                ZERO
            };
            self.angle = target;
            self.rate = rate;
            return ShapedSteer { angle: target, rate, acceleration: ZERO };
        }
        let omega: Scalar = times(unit, TAU, self.config.cutoff_hz);
        let pull: Scalar = times(unit, times(unit, omega, omega), minus(unit, target, self.angle));
        let drag: Scalar = times(unit, times(unit, TWO, omega), self.rate);
        let acceleration: Scalar = minus(unit, pull, drag);
        // Semi-implicit: the new rate moves the angle, which keeps the filter
        // stable at any step the loop will ever run at.
        self.rate = plus(unit, self.rate, times(unit, acceleration, dt));
        self.angle = plus(unit, self.angle, times(unit, self.rate, dt));
        ShapedSteer { angle: self.angle, rate: self.rate, acceleration }
    }

    pub fn angle(&self) -> (angle: Scalar)
        ensures
            angle == self.angle,
    {
        self.angle
    }
}

// --- laws -----------------------------------------------------------------------

/// The bypass really is a bypass: the angle goes straight through.
pub proof fn law_the_bypass_is_a_bypass<F: Fn(Operation) -> Scalar>(
    shaper: SteerShaper,
    unit: &F,
    target: Scalar,
    dt: Scalar,
)
    requires
        !shaper.config.enabled,
    ensures
        shaper.shaped(unit, target, dt).angle == target,
        shaper.shaped(unit, target, dt).acceleration == ZERO,
{
}

/// A filter sitting still on its target stays there: no rate, no acceleration,
/// no movement.
pub proof fn law_rest_on_target_is_rest<F: Fn(Operation) -> Scalar>(
    shaper: SteerShaper,
    unit: &F,
    dt: Scalar,
)
    requires
        arith::rounding(unit),
        shaper.config.enabled,
        shaper.rate == ZERO,
        is_finite(shaper.angle),
        is_finite(dt),
        is_finite(shaper.omega(unit)),
        is_finite(times(unit, shaper.omega(unit), shaper.omega(unit))),
        is_finite(times(unit, TWO, shaper.omega(unit))),
    ensures
        ({
            let shaped = shaper.shaped(unit, shaper.angle, dt);
            &&& is_finite(shaped.angle) && scalar::exact(shaped.angle) == scalar::exact(
                shaper.angle,
            )
            &&& is_finite(shaped.rate) && scalar::exact(shaped.rate) == 0
            &&& is_finite(shaped.acceleration) && scalar::exact(shaped.acceleration) == 0
        }),
{
    let omega = shaper.omega(unit);
    let gap = minus(unit, shaper.angle, shaper.angle);
    arith::lemma_sums_are_exact(unit, shaper.angle, shaper.angle);
    let square = times(unit, omega, omega);
    let pull = times(unit, square, gap);
    arith::lemma_nothing_times(unit, square, gap);
    let drag = times(unit, times(unit, TWO, omega), shaper.rate);
    scalar::lemma_exact_order(ZERO, ZERO);
    arith::lemma_nothing_times(unit, times(unit, TWO, omega), shaper.rate);
    arith::lemma_sums_are_exact(unit, pull, drag);
    let acceleration = minus(unit, pull, drag);
    arith::lemma_nothing_times(unit, dt, acceleration);
    let push = times(unit, acceleration, dt);
    arith::lemma_sums_are_exact(unit, shaper.rate, push);
    let rate = plus(unit, shaper.rate, push);
    arith::lemma_nothing_times(unit, dt, rate);
    arith::lemma_sums_are_exact(unit, shaper.angle, times(unit, rate, dt));
}


/// A full turn, in radians.
pub open spec fn full_turn() -> real {
    6283185307179586real / 1000000000000000real
}

proof fn lemma_turn()
    ensures
        numbers::within(TAU, full_turn(), 10real),
        number(TWO) == 2real && is_finite(TWO),
{
    lemma2_to64();
    lemma2_to64_rest();
    numbers::lemma_word(TAU, 0x19_21fb_5444_2d18, 1025, 50, 1125899906842624);
    numbers::lemma_word(TWO, 0x10_0000_0000_0000, 1024, 51, 2251799813685248);
}

/// The shaped wheel is pulled to the target by the square of the corner frequency on how
/// far off it is, and held back by twice the corner frequency on how fast it goes:
/// damped critically. The acceleration gives the rate, and the new rate the angle.
pub proof fn law_the_shaper_is_critically_damped<F: Fn(Operation) -> Scalar>(
    shaper: SteerShaper,
    unit: &F,
    target: Scalar,
    dt: Scalar,
)
    requires
        rounding(unit),
        shaper.config.enabled,
        upto(shaper.config.cutoff_hz, 100real),
        upto(target, 10real),
        upto(shaper.angle, 10real),
        upto(shaper.rate, 1000real),
        upto(dt, 1real),
    ensures
        ({
            let shaped = shaper.shaped(unit, target, dt);
            let omega = full_turn() * number(shaper.config.cutoff_hz);
            let (angle, rate, time) = (number(shaper.angle), number(shaper.rate), number(dt));
            let acceleration = omega * omega * (number(target) - angle) - 2real * omega * rate;
            let faster = rate + acceleration * time;
            &&& nearly(shaped.acceleration, acceleration)
            &&& nearly(shaped.rate, faster)
            &&& nearly(shaped.angle, angle + faster * time)
        }),
{
    lemma_turn();
    let turn = full_turn();
    let omega = times(unit, TAU, shaper.config.cutoff_hz);
    let omega_n = turn * number(shaper.config.cutoff_hz);
    numbers::lemma_within_times(unit, TAU, turn, 10real, shaper.config.cutoff_hz, number(shaper.config.cutoff_hz), 0real, 7real, 100real);
    assert(numbers::within(omega, omega_n, 1900real));
    let gap = minus(unit, target, shaper.angle);
    let gap_n = number(target) - number(shaper.angle);
    numbers::lemma_within_minus(unit, target, number(target), 0real, shaper.angle, number(shaper.angle), 0real);
    assert(numbers::within(gap, gap_n, 22real));
    let square = times(unit, omega, omega);
    let square_n = omega_n * omega_n;
    numbers::lemma_within_times(unit, omega, omega_n, 1900real, omega, omega_n, 1900real, 700real, 700real);
    assert(numbers::within(square, square_n, 3200000real));
    let pull = times(unit, square, gap);
    let pull_n = square_n * gap_n;
    numbers::lemma_within_times(unit, square, square_n, 3200000real, gap, gap_n, 22real, 490000real, 20real);
    assert(numbers::within(pull, pull_n, 89000000real));
    let twice = times(unit, TWO, omega);
    let twice_n = 2real * omega_n;
    numbers::lemma_within_times(unit, TWO, 2real, 0real, omega, omega_n, 1900real, 2real, 700real);
    assert(numbers::within(twice, twice_n, 6000real));
    let drag = times(unit, twice, shaper.rate);
    let drag_n = twice_n * number(shaper.rate);
    numbers::lemma_within_times(unit, twice, twice_n, 6000real, shaper.rate, number(shaper.rate), 0real, 1400real, 1000real);
    assert(numbers::within(drag, drag_n, 7500000real));
    let acceleration = minus(unit, pull, drag);
    let acceleration_n = pull_n - drag_n;
    numbers::lemma_within_minus(unit, pull, pull_n, 89000000real, drag, drag_n, 7500000real);
    assert(numbers::within(acceleration, acceleration_n, 110000000real));
    let gained = times(unit, acceleration, dt);
    let gained_n = acceleration_n * number(dt);
    numbers::lemma_within_times(unit, acceleration, acceleration_n, 110000000real, dt, number(dt), 0real, 11200000real, 1real);
    assert(numbers::within(gained, gained_n, 250000000real));
    let rate = plus(unit, shaper.rate, gained);
    let rate_n = number(shaper.rate) + gained_n;
    numbers::lemma_within_plus(unit, shaper.rate, number(shaper.rate), 0real, gained, gained_n, 250000000real);
    assert(numbers::within(rate, rate_n, 270000000real));
    let moved = times(unit, rate, dt);
    let moved_n = rate_n * number(dt);
    numbers::lemma_within_times(unit, rate, rate_n, 270000000real, dt, number(dt), 0real, 11201000real, 1real);
    assert(numbers::within(moved, moved_n, 570000000real));
    let angle = plus(unit, shaper.angle, moved);
    let angle_n = number(shaper.angle) + moved_n;
    numbers::lemma_within_plus(unit, shaper.angle, number(shaper.angle), 0real, moved, moved_n, 570000000real);
    assert(numbers::within(angle, angle_n, 590000000real));
}

/// A shaper that is bypassed passes the angle through, and the rate the angle moved at.
pub proof fn law_the_bypass_reports_how_fast<F: Fn(Operation) -> Scalar>(
    shaper: SteerShaper,
    unit: &F,
    target: Scalar,
    dt: Scalar,
)
    requires
        rounding(unit),
        !shaper.config.enabled,
        upto(target, 10real),
        upto(shaper.angle, 10real),
        upto(dt, 1000real),
        number(dt) >= 1real / 1000000real,
    ensures
        nearly(
            shaper.shaped(unit, target, dt).rate,
            (number(target) - number(shaper.angle)) / number(dt),
        ),
{
    numbers::lemma_unrounded(ZERO);
    numbers::lemma_number_order(ZERO, dt);
    let gap = minus(unit, target, shaper.angle);
    let gap_n = number(target) - number(shaper.angle);
    numbers::lemma_within_minus(unit, target, number(target), 0real, shaper.angle, number(shaper.angle), 0real);
    assert(numbers::within(gap, gap_n, 22real));
    let rate = over(unit, gap, dt);
    let rate_n = gap_n / number(dt);
    numbers::lemma_within_over(unit, gap, gap_n, 22real, dt, 20000000real, 22000000real);
    assert(numbers::within(rate, rate_n, 43000000real));
}

} // verus!
