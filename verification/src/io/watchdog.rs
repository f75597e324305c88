//! SAFETY. Read this before changing anything in it.
//!
//! A direct-drive wheel delivers more than 20 N.m. A torque that is stale,
//! non-finite, or stuck at maximum is a physical hazard. Four rules, none of
//! them optional:
//!
//! 1. Non-finite torque means zero, immediately, and the session is faulted.
//! 2. Torque is clamped below the device's capability.
//! 3. If the step thread misses `miss_limit` consecutive deadlines, torque
//!    ramps to zero within `ramp_ms`. It is never held at its last value.
//! 4. Torque is zeroed on every exit path.
//!
//! Two independent watchdogs use this type. One lives on the step thread and
//! watches deadlines. The other lives on the device thread and watches the age
//! of the last command, so that a step thread which stops publishing entirely
//! still results in the wheel going slack rather than locking solid.

use vstd::arithmetic::power2::*;
use vstd::prelude::*;

use crate::arith;
use crate::arith::{minus, over, plus, times, Operation};
use crate::arith::rounding;
use crate::numbers;
use crate::numbers::{nearly, number, size, upto};
use crate::scalar;
use crate::scalar::{
    is_at_most, is_finite, is_less, is_nan, max_of, min_of, Scalar, ONE, ZERO,
};

verus! {

/// One thousandth.
pub const MILLI: Scalar = 0x3f50_624d_d2f1_a9fc;

/// The shortest ramp, in seconds: one nanosecond.
pub const SHORTEST_RAMP: Scalar = 0x3e11_2e0b_e826_d695;

/// What the watchdog says the torque should be multiplied by, right now.
#[derive(Clone, Copy, PartialEq, Eq, Structural, Debug)]
pub enum Verdict {
    /// Healthy. Pass torque through unchanged.
    Pass,
    /// Failing. Multiply by `scale`, which is on its way to zero.
    RampingDown { scale: Scalar },
    /// Fully tripped. Torque is zero, and stays zero until `recover` is called or,
    /// where it was missed deadlines that tripped it, a healthy streak ends the trip.
    Tripped,
}

impl Verdict {
    pub open spec fn multiplier(self) -> Scalar {
        match self {
            Verdict::Pass => ONE,
            Verdict::RampingDown { scale } => scale,
            Verdict::Tripped => ZERO,
        }
    }

    pub fn scale(&self) -> (scale: Scalar)
        ensures
            scale == self.multiplier(),
    {
        match self {
            Verdict::Pass => ONE,
            Verdict::RampingDown { scale } => *scale,
            Verdict::Tripped => ZERO,
        }
    }

    pub fn is_healthy(&self) -> (answer: bool)
        ensures
            answer == (self is Pass),
    {
        matches!(self, Verdict::Pass)
    }
}

#[derive(Clone, Copy, PartialEq, Eq, Structural, Debug)]
pub struct WatchdogConfig {
    /// Consecutive failures tolerated before the ramp starts.
    pub miss_limit: u32,
    /// Time from trip to zero torque. Short enough that a driver cannot fight
    /// a stuck torque for long; long enough that the wheel does not snap out of
    /// their hands.
    pub ramp_ms: Scalar,
    /// Consecutive healthy observations needed to leave the ramp. Deliberately
    /// larger than one, so a loop that is flapping in and out of its deadline
    /// does not produce a torque that pulses.
    pub recovery_streak: u32,
}

impl WatchdogConfig {
    /// Five misses, 50 ms, fifty healthy observations.
    pub open spec fn standard() -> Self {
        WatchdogConfig { miss_limit: 5, ramp_ms: 0x4049_0000_0000_0000, recovery_streak: 50 }
    }
}

impl Default for WatchdogConfig {
    fn default() -> (config: Self)
        ensures
            config == Self::standard(),
    {
        WatchdogConfig { miss_limit: 5, ramp_ms: 0x4049_0000_0000_0000, recovery_streak: 50 }
    }
}

/// Tracks consecutive failures and produces a torque scale.
#[derive(Clone, Copy, PartialEq, Eq, Structural, Debug)]
pub struct Watchdog {
    pub config: WatchdogConfig,
    pub consecutive_misses: u32,
    pub healthy_streak: u32,
    pub scale: Scalar,
    pub tripped: bool,
    /// The trip was outright, and only `recover` ends it.
    pub latched: bool,
    pub trips: u64,
}

/// One more, stopping at the top of the range.
pub open spec fn bumped(n: u32) -> u32 {
    if n == u32::MAX {
        n
    } else {
        (n + 1) as u32
    }
}

impl Watchdog {
    /// A watchdog that has seen nothing yet.
    pub open spec fn fresh(config: WatchdogConfig) -> Self {
        Watchdog {
            config,
            consecutive_misses: 0,
            healthy_streak: 0,
            scale: ONE,
            tripped: false,
            latched: false,
            trips: 0,
        }
    }

    /// The ramp's length in seconds.
    pub open spec fn ramp<F: Fn(Operation) -> Scalar>(self, unit: &F) -> Scalar {
        times(unit, self.config.ramp_ms, MILLI)
    }

    /// How far the scale moves in `dt` seconds.
    pub open spec fn ramp_step<F: Fn(Operation) -> Scalar>(self, unit: &F, dt: Scalar) -> Scalar {
        over(unit, dt, max_of(self.ramp(unit), SHORTEST_RAMP))
    }

    /// The scale is a multiplier between zero and one.
    pub open spec fn in_range(self) -> bool {
        &&& is_finite(self.scale)
        &&& 0 <= scalar::exact(self.scale) <= scalar::unit()
    }

    /// Consecutive misses once this observation is in.
    pub open spec fn misses_after(self, healthy: bool) -> u32 {
        if healthy {
            0
        } else {
            bumped(self.consecutive_misses)
        }
    }

    /// Healthy streak once this observation is in.
    pub open spec fn streak_after(self, healthy: bool) -> u32 {
        if healthy {
            bumped(self.healthy_streak)
        } else {
            0
        }
    }

    /// This observation is the one that trips the watchdog.
    pub open spec fn trips_on(self, healthy: bool) -> bool {
        !healthy && !self.tripped && self.misses_after(healthy) >= self.config.miss_limit
    }

    /// This observation is the one that ends a trip.
    pub open spec fn recovers_on(self, healthy: bool) -> bool {
        &&& !self.latched
        &&& self.tripped || self.trips_on(healthy)
        &&& self.streak_after(healthy) >= self.config.recovery_streak
    }

    /// Scale once this observation is in: down while tripped, up otherwise,
    /// always at the ramp's rate and never past zero or one. There is nothing left
    /// to ramp once the trip was outright.
    pub open spec fn scale_after<F: Fn(Operation) -> Scalar>(
        self,
        unit: &F,
        healthy: bool,
        dt: Scalar,
    ) -> Scalar {
        if self.latched {
            ZERO
        } else if self.recovers_on(healthy) {
            min_of(plus(unit, self.scale, self.ramp_step(unit, dt)), ONE)
        } else if self.tripped || self.trips_on(healthy) {
            max_of(minus(unit, self.scale, self.ramp_step(unit, dt)), ZERO)
        } else if is_less(self.scale, ONE) {
            min_of(plus(unit, self.scale, self.ramp_step(unit, dt)), ONE)
        } else {
            self.scale
        }
    }

    /// The watchdog after one observation.
    pub open spec fn observed<F: Fn(Operation) -> Scalar>(
        self,
        unit: &F,
        healthy: bool,
        dt: Scalar,
    ) -> Self {
        Watchdog {
            config: self.config,
            consecutive_misses: self.misses_after(healthy),
            healthy_streak: self.streak_after(healthy),
            scale: self.scale_after(unit, healthy, dt),
            tripped: self.latched || (self.tripped || self.trips_on(healthy))
                && !self.recovers_on(healthy),
            latched: self.latched,
            trips: if self.trips_on(healthy) {
                (self.trips + 1) as u64
            } else {
                self.trips
            },
        }
    }

    /// What the watchdog has to say in its present state.
    pub open spec fn verdict(self) -> Verdict {
        if self.tripped && is_at_most(self.scale, ZERO) {
            Verdict::Tripped
        } else if is_less(self.scale, ONE) {
            Verdict::RampingDown { scale: self.scale }
        } else {
            Verdict::Pass
        }
    }

    /// Tripped outright, with no ramp and no way back but `recover`.
    pub open spec fn cut(self) -> Self {
        Watchdog {
            tripped: true,
            latched: true,
            scale: ZERO,
            healthy_streak: 0,
            trips: if self.tripped {
                self.trips
            } else {
                (self.trips + 1) as u64
            },
            ..self
        }
    }

    pub fn new(config: WatchdogConfig) -> (watchdog: Self)
        ensures
            watchdog == Self::fresh(config),
    {
        Watchdog {
            config,
            consecutive_misses: 0,
            healthy_streak: 0,
            scale: ONE,
            tripped: false,
            latched: false,
            trips: 0,
        }
    }

    /// Record one observation and advance the ramp by `dt` seconds.
    ///
    /// `healthy` is "the step met its deadline" on the step thread, and "the
    /// last command is fresh" on the device thread.
    pub fn observe<F: Fn(Operation) -> Scalar>(
        &mut self,
        unit: &F,
        healthy: bool,
        dt: Scalar,
    ) -> (verdict: Verdict)
        requires
            arith::functional(*unit),
            old(self).trips < u64::MAX,
        ensures
            *final(self) == old(self).observed(unit, healthy, dt),
            verdict == final(self).verdict(),
    {
        if healthy {
            self.consecutive_misses = 0;
            self.healthy_streak = self.healthy_streak.saturating_add(1);
        } else {
            self.healthy_streak = 0;
            self.consecutive_misses = self.consecutive_misses.saturating_add(1);
            if self.consecutive_misses >= self.config.miss_limit && !self.tripped {
                self.tripped = true;
                self.trips += 1;
            }
        }
        let ramp: Scalar = times(unit, self.config.ramp_ms, MILLI);
        let ramp_step: Scalar = over(unit, dt, max_of(ramp, SHORTEST_RAMP));
        if self.latched {
            self.tripped = true;
            self.scale = ZERO;
        } else if self.tripped {
            // Ramp down while tripped. Recovery needs a sustained healthy
            // streak, so a loop that is flapping does not produce pulsing torque.
            if self.healthy_streak >= self.config.recovery_streak {
                self.tripped = false;
                self.scale = min_of(plus(unit, self.scale, ramp_step), ONE);
            } else {
                self.scale = max_of(minus(unit, self.scale, ramp_step), ZERO);
            }
        } else if is_less(self.scale, ONE) {
            // Ramp back up at the same rate, never instantly: a torque that
            // jumps from zero to full is exactly the impulse this protects against.
            self.scale = min_of(plus(unit, self.scale, ramp_step), ONE);
        }
        if self.tripped && is_at_most(self.scale, ZERO) {
            Verdict::Tripped
        } else if is_less(self.scale, ONE) {
            Verdict::RampingDown { scale: self.scale }
        } else {
            Verdict::Pass
        }
    }

    /// Force the watchdog fully open with zero torque. Used on a fault that has
    /// no recovery path, such as a non-finite plant output: no observation ends
    /// this trip, only `recover` does.
    pub fn trip_now(&mut self)
        requires
            old(self).trips < u64::MAX,
        ensures
            *final(self) == old(self).cut(),
    {
        if !self.tripped {
            self.trips += 1;
        }
        self.tripped = true;
        self.latched = true;
        self.scale = ZERO;
        self.healthy_streak = 0;
    }

    /// Clear a trip explicitly, after the operator has acknowledged it. The
    /// scale still ramps up from zero; it never snaps back to full torque.
    pub fn recover(&mut self)
        ensures
            *final(self) == (Watchdog {
                tripped: false,
                latched: false,
                consecutive_misses: 0,
                healthy_streak: 0,
                scale: ZERO,
                ..*old(self)
            }),
    {
        self.tripped = false;
        self.latched = false;
        self.consecutive_misses = 0;
        self.healthy_streak = 0;
        self.scale = ZERO;
    }

    pub fn is_tripped(&self) -> (answer: bool)
        ensures
            answer == self.tripped,
    {
        self.tripped
    }

    pub fn trips(&self) -> (trips: u64)
        ensures
            trips == self.trips,
    {
        self.trips
    }

    pub fn scale(&self) -> (scale: Scalar)
        ensures
            scale == self.scale,
    {
        self.scale
    }
}

/// A command exists, and is no older than `max_age_ns`.
pub open spec fn fresh(command_time_ns: u64, now_ns: u64, max_age_ns: u64) -> bool {
    command_time_ns != 0 && now_ns - command_time_ns <= max_age_ns
}

/// Staleness check for the device thread.
///
/// Deliberately a free function on an age rather than a timer the step thread
/// resets, so that a step thread which stops running entirely cannot keep this
/// watchdog satisfied by accident.
pub fn command_is_fresh(command_time_ns: u64, now_ns: u64, max_age_ns: u64) -> (answer: bool)
    ensures
        answer == fresh(command_time_ns, now_ns, max_age_ns),
{
    if command_time_ns == 0 {
        return false;
    }
    now_ns.saturating_sub(command_time_ns) <= max_age_ns
}

// --- laws -----------------------------------------------------------------------

/// Spacing of the values that divide one into `2^53` equal parts.
pub open spec fn grain() -> int {
    pow2(1021) as int
}

/// The ramp moves forward: a ramp of finite length, over a finite time that is
/// not negative, has a step that is not negative.
proof fn lemma_step_is_forward<F: Fn(Operation) -> Scalar>(watchdog: Watchdog, unit: &F, dt: Scalar)
    requires
        arith::rounding(unit),
        is_finite(watchdog.config.ramp_ms),
        !is_nan(dt),
        scalar::exact(dt) >= 0,
    ensures
        ({
            let step = watchdog.ramp_step(unit, dt);
            ||| step == arith::INFINITY
            ||| is_finite(step) && scalar::exact(step) >= 0
        }),
{
    let ramp = watchdog.ramp(unit);
    let length = max_of(ramp, SHORTEST_RAMP);
    let milli = scalar::exact(MILLI);
    scalar::lemma_exact_order(MILLI, ZERO);
    scalar::lemma_exact_order(MILLI, ONE);
    scalar::lemma_exact_order(SHORTEST_RAMP, ZERO);
    scalar::lemma_exact_order(ZERO, ZERO);
    scalar::lemma_one();
    scalar::lemma_largest(watchdog.config.ramp_ms);
    let size = scalar::exact(watchdog.config.ramp_ms);
    let most = scalar::exact(arith::LARGEST);
    let whole = scalar::unit();
    assert(-(most * whole) <= size * milli <= most * whole) by (nonlinear_arith)
        requires
            -most <= size <= most,
            0 <= milli <= whole,
    ;
    assert(arith::delivers(size * milli, whole, ramp));
    assert(is_finite(ramp));
    assert(is_finite(length) && scalar::exact(length) > 0);
    lemma_quotient_is_forward(unit, dt, length);
}

/// A time that is not negative, over a length, is not negative.
proof fn lemma_quotient_is_forward<F: Fn(Operation) -> Scalar>(unit: &F, dt: Scalar, length: Scalar)
    requires
        arith::rounding(unit),
        !is_nan(dt),
        scalar::exact(dt) >= 0,
        is_finite(length),
        scalar::exact(length) > 0,
    ensures
        ({
            let step = over(unit, dt, length);
            ||| step == arith::INFINITY
            ||| is_finite(step) && scalar::exact(step) >= 0
        }),
{
    let step = over(unit, dt, length);
    let whole = scalar::unit();
    let most = scalar::exact(arith::LARGEST);
    let num = scalar::exact(dt) * whole;
    scalar::lemma_one();
    if is_finite(dt) {
        scalar::lemma_largest(dt);
        scalar::lemma_exact_order(ZERO, ZERO);
        assert(num >= 0) by (nonlinear_arith)
            requires
                scalar::exact(dt) >= 0,
                whole >= 0,
                num == scalar::exact(dt) * whole,
        ;
        assert(arith::delivers(num, scalar::exact(length), step));
        assert(most * scalar::exact(length) >= 0) by (nonlinear_arith)
            requires
                most >= 0,
                scalar::exact(length) > 0,
        ;
        if arith::nearest(num, scalar::exact(length), step) {
            arith::lemma_nearest_is_bounded(num, scalar::exact(length), step, ZERO);
        }
    } else {
        scalar::lemma_exact_order(dt, ZERO);
        scalar::lemma_exact_order(ZERO, ZERO);
        assert(dt == arith::INFINITY);
    }
}

/// While tripped, an observation that does not end the trip never raises the
/// scale, and leaves it at exactly zero once less than one step remains.
pub proof fn law_the_ramp_never_rises<F: Fn(Operation) -> Scalar>(
    watchdog: Watchdog,
    unit: &F,
    healthy: bool,
    dt: Scalar,
)
    requires
        arith::rounding(unit),
        is_finite(watchdog.config.ramp_ms),
        !is_nan(dt),
        scalar::exact(dt) >= 0,
        is_finite(watchdog.scale),
        scalar::exact(watchdog.scale) >= 0,
        watchdog.tripped || watchdog.trips_on(healthy),
        !watchdog.recovers_on(healthy),
    ensures
        ({
            let after = watchdog.observed(unit, healthy, dt);
            &&& is_finite(after.scale)
            &&& 0 <= scalar::exact(after.scale) <= scalar::exact(watchdog.scale)
            &&& scalar::exact(watchdog.ramp_step(unit, dt)) >= scalar::exact(watchdog.scale)
                ==> scalar::exact(after.scale) == 0
        }),
{
    lemma_step_is_forward(watchdog, unit, dt);
    let step = watchdog.ramp_step(unit, dt);
    let lower = minus(unit, watchdog.scale, step);
    scalar::lemma_exact_order(ZERO, ZERO);
    scalar::lemma_exact_order(arith::MINUS_INFINITY, ZERO);
    if is_finite(step) {
        let num = scalar::exact(watchdog.scale) - scalar::exact(step);
        assert(arith::delivers(num, 1, lower));
        scalar::lemma_largest(watchdog.scale);
        if arith::nearest(num, 1, lower) {
            arith::lemma_nearest_is_bounded(num, 1, lower, watchdog.scale);
            arith::lemma_nearest_is_bounded(num, 1, lower, ZERO);
        }
    }
}

/// Nothing the watchdog sees takes its scale out of `[0, 1]`.
pub proof fn law_scale_stays_in_range<F: Fn(Operation) -> Scalar>(
    watchdog: Watchdog,
    unit: &F,
    healthy: bool,
    dt: Scalar,
)
    requires
        arith::rounding(unit),
        watchdog.in_range(),
        is_finite(watchdog.config.ramp_ms),
        !is_nan(dt),
        scalar::exact(dt) >= 0,
    ensures
        watchdog.observed(unit, healthy, dt).in_range(),
{
    let whole = scalar::unit();
    scalar::lemma_one();
    scalar::lemma_exact_order(ZERO, ZERO);
    scalar::lemma_exact_order(ONE, ZERO);
    let step = watchdog.ramp_step(unit, dt);
    lemma_step_is_forward(watchdog, unit, dt);
    if (watchdog.tripped || watchdog.trips_on(healthy)) && !watchdog.recovers_on(healthy) {
        law_the_ramp_never_rises(watchdog, unit, healthy, dt);
    } else if is_finite(step) {
        let raised = plus(unit, watchdog.scale, step);
        let num = scalar::exact(watchdog.scale) + scalar::exact(step);
        assert(arith::delivers(num, 1, raised));
        scalar::lemma_largest(watchdog.scale);
        if arith::nearest(num, 1, raised) {
            arith::lemma_nearest_is_bounded(num, 1, raised, ZERO);
        }
        scalar::lemma_exact_order(ONE, arith::INFINITY);
    } else {
        scalar::lemma_exact_order(ONE, arith::INFINITY);
    }
}

/// The watchdog after `n` unhealthy observations in a row.
pub open spec fn stalled<F: Fn(Operation) -> Scalar>(
    watchdog: Watchdog,
    unit: &F,
    dt: Scalar,
    n: nat,
) -> Watchdog
    decreases n,
{
    if n == 0 {
        watchdog
    } else {
        stalled(watchdog, unit, dt, (n - 1) as nat).observed(unit, false, dt)
    }
}

/// One unhealthy observation of a tripped watchdog takes a full step off the
/// scale, give or take one grain of rounding.
proof fn lemma_one_step_down<F: Fn(Operation) -> Scalar>(watchdog: Watchdog, unit: &F, dt: Scalar)
    requires
        arith::rounding(unit),
        is_finite(watchdog.config.ramp_ms),
        is_finite(dt),
        scalar::exact(dt) >= 0,
        is_finite(watchdog.scale),
        0 <= scalar::exact(watchdog.scale) <= scalar::unit(),
        watchdog.tripped || watchdog.trips_on(false),
        watchdog.config.recovery_streak > 0,
    ensures
        ({
            let after = watchdog.observed(unit, false, dt);
            &&& is_finite(after.scale)
            &&& 0 <= scalar::exact(after.scale) <= scalar::exact(watchdog.scale)
            &&& scalar::exact(after.scale) == 0 || scalar::exact(after.scale) <= scalar::exact(
                watchdog.scale,
            ) - scalar::exact(watchdog.ramp_step(unit, dt)) + grain()
        }),
{
    law_the_ramp_never_rises(watchdog, unit, false, dt);
    lemma_step_is_forward(watchdog, unit, dt);
    let step = watchdog.ramp_step(unit, dt);
    let lower = minus(unit, watchdog.scale, step);
    let num = scalar::exact(watchdog.scale) - scalar::exact(step);
    scalar::lemma_exact_order(arith::INFINITY, ZERO);
    if is_finite(step) && num > 0 {
        assert(arith::delivers(num, 1, lower));
        scalar::lemma_largest(watchdog.scale);
        assert(arith::nearest(num, 1, lower));
        arith::lemma_nearest_is_bounded(num, 1, lower, ZERO);
        let below = scalar::lemma_grid(num);
        assert(arith::distance(scalar::exact(lower) * 1, num) <= arith::distance(
            scalar::exact(below) * 1,
            num,
        ));
        scalar::lemma_exact_order(ZERO, ZERO);
    } else if !is_finite(step) {
        scalar::lemma_exact_order(watchdog.scale, arith::INFINITY);
    }
}

/// A tripped watchdog that stays unhealthy reaches exactly zero, and reports
/// it, as soon as the steps taken -- each short of nominal by at most one grain
/// of rounding -- add up to full scale.
pub proof fn law_a_stall_goes_slack<F: Fn(Operation) -> Scalar>(
    watchdog: Watchdog,
    unit: &F,
    dt: Scalar,
    n: nat,
)
    requires
        arith::rounding(unit),
        is_finite(watchdog.config.ramp_ms),
        is_finite(dt),
        scalar::exact(dt) >= 0,
        is_finite(watchdog.scale),
        0 <= scalar::exact(watchdog.scale) <= scalar::unit(),
        watchdog.tripped,
        watchdog.config.recovery_streak > 0,
        n * (scalar::exact(watchdog.ramp_step(unit, dt)) - grain()) >= scalar::unit(),
    ensures
        ({
            let after = stalled(watchdog, unit, dt, n);
            &&& after.tripped
            &&& scalar::exact(after.scale) == 0
            &&& after.verdict() == Verdict::Tripped
        }),
{
    scalar::lemma_one();
    let per = scalar::exact(watchdog.ramp_step(unit, dt)) - grain();
    lemma_stall_progress(watchdog, unit, dt, n);
    let after = stalled(watchdog, unit, dt, n);
    scalar::lemma_exact_order(ZERO, ZERO);
    scalar::lemma_exact_order(after.scale, ZERO);
}

proof fn lemma_stall_progress<F: Fn(Operation) -> Scalar>(
    watchdog: Watchdog,
    unit: &F,
    dt: Scalar,
    n: nat,
)
    requires
        arith::rounding(unit),
        is_finite(watchdog.config.ramp_ms),
        is_finite(dt),
        scalar::exact(dt) >= 0,
        is_finite(watchdog.scale),
        0 <= scalar::exact(watchdog.scale) <= scalar::unit(),
        watchdog.tripped,
        watchdog.config.recovery_streak > 0,
    ensures
        ({
            let after = stalled(watchdog, unit, dt, n);
            let per = scalar::exact(watchdog.ramp_step(unit, dt)) - grain();
            &&& after.tripped
            &&& after.config == watchdog.config
            &&& is_finite(after.scale)
            &&& 0 <= scalar::exact(after.scale) <= scalar::unit()
            &&& scalar::exact(after.scale) == 0 || scalar::exact(after.scale) <= scalar::unit() - n
                * per
        }),
    decreases n,
{
    if n > 0 {
        let m = (n - 1) as nat;
        lemma_stall_progress(watchdog, unit, dt, m);
        let before = stalled(watchdog, unit, dt, m);
        lemma_one_step_down(before, unit, dt);
        let per = scalar::exact(watchdog.ramp_step(unit, dt)) - grain();
        assert(n * per == m * per + per) by (nonlinear_arith)
            requires
                n == m + 1,
        ;
        scalar::lemma_exact_order(before.scale, ZERO);
    }
}

/// `miss_limit` misses in a row trip a watchdog that was not tripped, and no
/// fewer do.
pub proof fn law_a_stall_trips<F: Fn(Operation) -> Scalar>(
    watchdog: Watchdog,
    unit: &F,
    dt: Scalar,
    n: nat,
)
    requires
        !watchdog.tripped,
        !watchdog.latched,
        watchdog.consecutive_misses == 0,
        watchdog.config.recovery_streak > 0,
        watchdog.config.miss_limit > 0,
        n <= watchdog.config.miss_limit,
    ensures
        stalled(watchdog, unit, dt, n).tripped == (n >= watchdog.config.miss_limit),
        stalled(watchdog, unit, dt, n).consecutive_misses == n,
        stalled(watchdog, unit, dt, n).config == watchdog.config,
        !stalled(watchdog, unit, dt, n).latched,
    decreases n,
{
    if n > 0 {
        law_a_stall_trips(watchdog, unit, dt, (n - 1) as nat);
    }
}

/// A trip over missed deadlines ends only on an observation that completes a
/// healthy streak of the configured length.
pub proof fn law_recovery_needs_a_streak<F: Fn(Operation) -> Scalar>(
    watchdog: Watchdog,
    unit: &F,
    healthy: bool,
    dt: Scalar,
)
    requires
        watchdog.tripped,
        !watchdog.latched,
        watchdog.config.recovery_streak > 0,
    ensures
        !watchdog.observed(unit, healthy, dt).tripped <==> healthy && bumped(
            watchdog.healthy_streak,
        ) >= watchdog.config.recovery_streak,
        !healthy ==> watchdog.observed(unit, healthy, dt).healthy_streak == 0,
{
}

/// A fault without a recovery path leaves nothing to ramp: the very next
/// verdict is zero.
pub proof fn law_a_cut_is_immediate(watchdog: Watchdog)
    ensures
        watchdog.cut().verdict() == Verdict::Tripped,
        watchdog.cut().verdict().multiplier() == ZERO,
{
    scalar::lemma_exact_order(ZERO, ZERO);
}

/// The watchdog after a row of observations, each with the time it covers.
pub open spec fn observing<F: Fn(Operation) -> Scalar>(
    watchdog: Watchdog,
    unit: &F,
    seen: Seq<(bool, Scalar)>,
) -> Watchdog
    decreases seen.len(),
{
    if seen.len() == 0 {
        watchdog
    } else {
        observing(watchdog, unit, seen.drop_last()).observed(unit, seen.last().0, seen.last().1)
    }
}

/// A fault without a recovery path stays: whatever is observed afterwards, and
/// however often, the verdict is zero until the trip is acknowledged.
pub proof fn law_a_cut_is_final<F: Fn(Operation) -> Scalar>(
    watchdog: Watchdog,
    unit: &F,
    seen: Seq<(bool, Scalar)>,
)
    ensures
        ({
            let after = observing(watchdog.cut(), unit, seen);
            &&& after.tripped
            &&& after.scale == ZERO
            &&& after.verdict() == Verdict::Tripped
            &&& after.verdict().multiplier() == ZERO
        }),
{
    scalar::lemma_exact_order(ZERO, ZERO);
    lemma_latched_along(watchdog.cut(), unit, seen);
}

proof fn lemma_latched_along<F: Fn(Operation) -> Scalar>(
    watchdog: Watchdog,
    unit: &F,
    seen: Seq<(bool, Scalar)>,
)
    requires
        watchdog.latched,
        watchdog.tripped,
        watchdog.scale == ZERO,
    ensures
        ({
            let after = observing(watchdog, unit, seen);
            &&& after.latched
            &&& after.tripped
            &&& after.scale == ZERO
        }),
    decreases seen.len(),
{
    if seen.len() > 0 {
        lemma_latched_along(watchdog, unit, seen.drop_last());
    }
}

/// A command only ages: once stale, it stays stale.
pub proof fn law_staleness_is_permanent(command_time_ns: u64, now_ns: u64, later_ns: u64, max_age_ns: u64)
    requires
        !fresh(command_time_ns, now_ns, max_age_ns),
        now_ns <= later_ns,
    ensures
        !fresh(command_time_ns, later_ns, max_age_ns),
{
}

/// Healthy operation passes the torque through untouched, and keeps doing so.
pub proof fn law_health_is_untouched<F: Fn(Operation) -> Scalar>(
    watchdog: Watchdog,
    unit: &F,
    dt: Scalar,
)
    requires
        !watchdog.tripped,
        !watchdog.latched,
        watchdog.scale == ONE,
    ensures
        ({
            let after = watchdog.observed(unit, true, dt);
            &&& after.verdict() == Verdict::Pass
            &&& after.verdict().multiplier() == ONE
            &&& !after.tripped
            &&& after.scale == ONE
        }),
{
}

/// The torque comes back by degrees: no observation, the one that ends a trip
/// included, raises the scale by more than one step of the ramp and a grain of rounding.
pub proof fn law_recovery_is_gradual<F: Fn(Operation) -> Scalar>(
    watchdog: Watchdog,
    unit: &F,
    healthy: bool,
    dt: Scalar,
)
    requires
        arith::rounding(unit),
        watchdog.in_range(),
        is_finite(watchdog.config.ramp_ms),
        !is_nan(dt),
        scalar::exact(dt) >= 0,
    ensures
        scalar::exact(watchdog.observed(unit, healthy, dt).scale) <= scalar::exact(watchdog.scale)
            + scalar::exact(watchdog.ramp_step(unit, dt)) + grain(),
{
    lemma_step_is_forward(watchdog, unit, dt);
    lemma_pow2_pos(1021);
    let step = watchdog.ramp_step(unit, dt);
    scalar::lemma_one();
    scalar::lemma_exact_order(step, ONE);
    scalar::lemma_exact_order(ZERO, ZERO);
    assert(scalar::exact(step) >= 0);
    if (watchdog.tripped || watchdog.trips_on(healthy)) && !watchdog.recovers_on(healthy) {
        law_the_ramp_never_rises(watchdog, unit, healthy, dt);
    } else if watchdog.recovers_on(healthy) || is_less(watchdog.scale, ONE) {
        let raised = plus(unit, watchdog.scale, step);
        if is_finite(step) {
            let num = scalar::exact(watchdog.scale) + scalar::exact(step);
            assert(arith::delivers(num, 1, raised));
            assert(!scalar::nan(raised));
            assert(scalar::exact(min_of(raised, ONE)) <= scalar::unit());
            if num <= scalar::unit() {
                scalar::lemma_largest(ONE);
                let below = scalar::lemma_grid(num);
                assert(arith::distance(scalar::exact(raised) * 1, num) <= arith::distance(
                    scalar::exact(below) * 1,
                    num,
                ));
            }
        } else {
            scalar::lemma_exact_order(ONE, arith::INFINITY);
        }
    }
}

// --- ordinary numbers ---------------------------------------------------------------

/// The bounds on a millisecond that ramps and slews turn on: 2^-10 <= 0.001 <= 33 *
/// 2^-15.
pub proof fn lemma_milli()
    ensures
        is_finite(MILLI),
        pow2(1064) <= scalar::exact(MILLI) <= 33 * pow2(1059),
{
    lemma2_to64();
    lemma2_to64_rest();
    let low: Scalar = 0x3f50_0000_0000_0000;
    let high: Scalar = 0x3f50_8000_0000_0000;
    scalar::lemma_power(low, 0x3f5);
    scalar::lemma_scaled(high, 33, 47, 0x3f5);
    scalar::lemma_exact_order(low, MILLI);
    scalar::lemma_exact_order(MILLI, high);
}

/// Fifty milliseconds of ramp: between a thirty-second and a sixteenth of a
/// second, so that a millisecond takes at least a sixty-fourth of the way.
pub proof fn lemma_millisecond_ramp<F: Fn(Operation) -> Scalar>(watchdog: Watchdog, unit: &F)
    requires
        arith::rounding(unit),
        watchdog.config.ramp_ms == WatchdogConfig::standard().ramp_ms,
    ensures
        is_finite(watchdog.config.ramp_ms),
        scalar::exact(watchdog.ramp_step(unit, MILLI)) >= pow2(1068),
{
    lemma_milli();
    lemma2_to64();
    scalar::lemma_one();
    let fifty: Scalar = 0x4049_0000_0000_0000;
    let low: Scalar = 0x3fa0_0000_0000_0000;
    let high: Scalar = 0x3fb0_0000_0000_0000;
    lemma2_to64_rest();
    scalar::lemma_scaled(fifty, 25, 48, 0x404);
    scalar::lemma_power(low, 0x3fa);
    scalar::lemma_power(high, 0x3fb);
    let m = scalar::exact(MILLI);
    let f = scalar::exact(fifty);
    let whole = scalar::unit();
    let ramp = watchdog.ramp(unit);
    lemma_pow2_adds(1075, 1064);
    lemma_pow2_adds(1075, 1059);
    lemma_pow2_adds(1069, 1074);
    lemma_pow2_adds(1070, 1074);
    lemma_pow2_adds(2139, 4);
    lemma_pow2_adds(2134, 10);
    let p = pow2(1075);
    assert(25 * (p * pow2(1064)) <= f * m <= 825 * (p * pow2(1059))) by (nonlinear_arith)
        requires
            f == 25 * p,
            pow2(1064) <= m <= 33 * pow2(1059),
            p >= 0,
    ;
    lemma_pow2_pos(2139);
    lemma_pow2_pos(2134);
    assert(scalar::exact(low) * whole <= f * m <= scalar::exact(high) * whole);
    scalar::lemma_largest(high);
    let most = scalar::exact(arith::LARGEST);
    let top = scalar::exact(high);
    assert(top * whole <= most * whole && 0 <= most * whole) by (nonlinear_arith)
        requires
            0 <= top <= most,
            whole > 0,
    ;
    lemma_pow2_pos(1069);
    lemma_pow2_pos(1070);
    assert(scalar::exact(low) * whole >= 0) by (nonlinear_arith)
        requires
            scalar::exact(low) >= 0,
            whole > 0,
    ;
    assert(arith::delivers(f * m, whole, ramp));
    arith::lemma_nearest_is_bounded(f * m, whole, ramp, low);
    arith::lemma_nearest_is_bounded(f * m, whole, ramp, high);
    scalar::lemma_exact_order(SHORTEST_RAMP, low);
    let length = max_of(ramp, SHORTEST_RAMP);
    assert(pow2(1069) <= scalar::exact(length) <= pow2(1070));
    let step = watchdog.ramp_step(unit, MILLI);
    let sixty_fourth: Scalar = 0x3f90_0000_0000_0000;
    scalar::lemma_power(sixty_fourth, 0x3f9);
    lemma_pow2_adds(1064, 1074);
    lemma_pow2_adds(1068, 1070);
    let den = scalar::exact(length);
    assert(arith::delivers(m * whole, den, step));
    assert(m * whole >= pow2(1068) * den) by (nonlinear_arith)
        requires
            m >= pow2(1064),
            whole == pow2(1074),
            den <= pow2(1070),
            pow2(1064) * pow2(1074) == pow2(1068) * pow2(1070),
            whole >= 0,
    ;
    assert(m * whole >= 0) by (nonlinear_arith)
        requires
            m >= 0,
            whole >= 0,
    ;
    assert(most * den >= 0) by (nonlinear_arith)
        requires
            most >= 0,
            den >= 0,
    ;
    if arith::nearest(m * whole, den, step) {
        arith::lemma_nearest_is_bounded(m * whole, den, step, sixty_fourth);
    } else {
        scalar::lemma_exact_order(sixty_fourth, arith::INFINITY);
    }
}


proof fn lemma_thousandth()
    ensures
        numbers::within(MILLI, 1real / 1000real, 1real),
        is_finite(SHORTEST_RAMP),
        number(SHORTEST_RAMP) <= 1real / 100000000real,
        size(number(MILLI) * 1000real - 1real) * 1000000000000000real <= 1real,
{
    lemma2_to64();
    lemma2_to64_rest();
    lemma_pow2_adds(62, 20);
    numbers::lemma_word(MILLI, 0x10_624d_d2f1_a9fc, 1013, 62, 4611686018427387904);
    numbers::lemma_word(SHORTEST_RAMP, 0x11_2e0b_e826_d695, 993, 82, 4835703278458516698824704);
}

proof fn lemma_seconds_of_a_ramp<F: Fn(Operation) -> Scalar>(unit: &F, ramp_ms: Scalar)
    requires
        rounding(unit),
        upto(ramp_ms, 100000real),
        number(ramp_ms) >= 1real,
    ensures
        ({
            let s = number(ramp_ms) / 1000real;
            size(number(times(unit, ramp_ms, MILLI)) - s) * 1000000000000real <= s
        }),
{
    let m = number(ramp_ms);
    lemma_thousandth();
    let d = number(MILLI);
    let b = d * 1000real - 1real;
    let mb = m * b;
    let md = m * d;
    assert(mb == 1000real * md - m) by (nonlinear_arith)
        requires
            mb == m * b,
            md == m * d,
            b == d * 1000real - 1real,
    ;
    numbers::lemma_size_of_product(m, b);
    numbers::lemma_multiples(size(b) * 1000000000000000real, 1real, m);
    assert(m * (size(b) * 1000000000000000real) == (m * size(b)) * 1000000000000000real)
        by (nonlinear_arith);
    numbers::lemma_in_range(md);
    numbers::lemma_close_times(unit, ramp_ms, MILLI);
    numbers::lemma_off(times(unit, ramp_ms, MILLI), md);
}

/// A ramp takes the milliseconds it is set to: in a step the scale moves by the step's part
/// of them, down to nothing while the watchdog is tripped, and back up to one after.
pub proof fn law_the_ramp_takes_its_time<F: Fn(Operation) -> Scalar>(
    watchdog: Watchdog,
    unit: &F,
    dt: Scalar,
    healthy: bool,
)
    requires
        rounding(unit),
        upto(watchdog.config.ramp_ms, 100000real),
        number(watchdog.config.ramp_ms) >= 1real,
        upto(dt, 1real),
        number(dt) >= 0real,
        is_finite(watchdog.scale),
        0real <= number(watchdog.scale) <= 1real,
    ensures
        ({
            let moved = number(dt) / (number(watchdog.config.ramp_ms) / 1000real);
            let after = watchdog.observed(unit, healthy, dt);
            let scale = number(watchdog.scale);
            &&& nearly(watchdog.ramp_step(unit, dt), moved)
            &&& watchdog.latched ==> number(after.scale) == 0real
            &&& !watchdog.latched && after.tripped ==> nearly(
                after.scale,
                if scale < moved {
                    0real
                } else {
                    scale - moved
                },
            )
            &&& !watchdog.latched && !after.tripped ==> nearly(
                after.scale,
                if scale + moved > 1real {
                    1real
                } else {
                    scale + moved
                },
            )
        }),
{
    let ms = number(watchdog.config.ramp_ms);
    let t = number(dt);
    lemma_thousandth();
    let milli = 1real / 1000real;
    let ramp = times(unit, watchdog.config.ramp_ms, MILLI);
    let ramp_n = number(watchdog.config.ramp_ms) * milli;
    numbers::lemma_within_times(unit, watchdog.config.ramp_ms, number(watchdog.config.ramp_ms), 0real, MILLI, milli, 1real, 100000real, 1real);
    assert(numbers::within(ramp, ramp_n, 310000real));
    let length = max_of(ramp, SHORTEST_RAMP);
    numbers::lemma_number_order(ramp, SHORTEST_RAMP);
    let l = number(length);
    // The ramp in seconds, to a part in a million million of itself.
    lemma_seconds_of_a_ramp(unit, watchdog.config.ramp_ms);
    let s = ms / 1000real;
    assert(length == ramp);
    assert(size(l - s) * 1000000000000real <= s);
    let (q, r) = (t / s, t / l);
    assert(q * s == t && r * l == t) by (nonlinear_arith)
        requires
            q == t / s,
            r == t / l,
            s > 0real,
            l > 0real,
    ;
    let (f, h) = (r - q, s - l);
    assert(f * l == q * h) by (nonlinear_arith)
        requires
            f == r - q,
            h == s - l,
            q * s == t,
            r * l == t,
    ;
    numbers::lemma_cancel(q, 1000real, s);
    numbers::lemma_cancel(0real, q, s);
    numbers::lemma_size_of_product(f, l);
    numbers::lemma_size_of_product(q, h);
    numbers::lemma_multiples(q, 1000real, size(h));
    // size(f) l <= 1000 size(h) <= s / 10^9 <= 2 l / 10^9
    numbers::lemma_cancel(size(f), 2real / 1000000000real, l);
    numbers::lemma_within_over(unit, dt, t, 0real, length, 2000real, 0real);
    let step = watchdog.ramp_step(unit, dt);
    let moved = q;
    assert(size(number(step) - moved) * 400000000real <= 1real);
    numbers::lemma_unrounded(ZERO);
    let scale = watchdog.scale;
    numbers::lemma_within_plus(unit, scale, number(scale), 0real, step, number(step), 0real);
    numbers::lemma_within_minus(unit, scale, number(scale), 0real, step, number(step), 0real);
    let up = plus(unit, scale, step);
    let down = minus(unit, scale, step);
    numbers::lemma_number_order(up, ONE);
    numbers::lemma_number_order(ONE, up);
    numbers::lemma_number_order(down, ZERO);
    numbers::lemma_number_order(scale, ONE);
}

/// A command is fresh for `max_age_ns` from when it was given and not a moment longer,
/// and one that was never given never is.
pub proof fn law_a_command_is_fresh_for_its_age(command_time_ns: u64, now_ns: u64, max_age_ns: u64)
    ensures
        fresh(command_time_ns, now_ns, max_age_ns) <==> command_time_ns > 0 && now_ns
            <= command_time_ns + max_age_ns,
{
}

} // verus!
