//! The force-feedback conditioning chain.
//!
//! The plant reports a reaction torque. Between that number and the driver's
//! hands sit six stages, always in this order:
//!
//! ```text
//!   NaN/inf guard -> gain -> slew limit -> soft end stop -> clamp -> watchdog
//! ```
//!
//! Every stage is parameterised and individually bypassable, because "did the
//! force-feedback tuning or the vehicle change explain what the driver just
//! felt?" is a question this rig exists to answer, and it cannot be answered if
//! the chain is a black box.
//!
//! The chain deliberately does *not* add spring, inertia or canned effects.
//! Anything the driver feels must be derived from the model; the one exception
//! is the end stop, which represents the rack running out of travel and is a
//! real feature of the car.

use vstd::arithmetic::power2::*;
use vstd::prelude::*;

use crate::arith;
use crate::arith::{minus, plus, times, Operation};
use crate::generated::frames::{ffb_flags, FfbCommand, VehicleState};
use crate::io::watchdog;
use crate::io::watchdog::{Verdict, Watchdog, WatchdogConfig, MILLI};
use crate::scalar;
use crate::scalar::{
    abs, clamp, is_at_most, is_finite, is_less, is_nan, negate, signum, Scalar, ONE, ZERO,
};

verus! {

#[derive(Clone, Copy, PartialEq, Eq, Structural, Debug)]
pub struct FfbConfig {
    /// Overall gain. 0 disables feedback without changing anything else, which
    /// is the control condition for "is it the tune or the car?".
    pub gain: Scalar,
    /// Absolute torque limit [N.m]. Set below the device's capability before
    /// anyone drives. This is the last line between a solver divergence and a
    /// driver's wrist.
    pub torque_limit_nm: Scalar,
    /// Maximum rate of change [N.m/s].
    pub slew_limit_nm_per_s: Scalar,
    /// Handwheel angle at which the soft end stop begins [rad].
    pub end_stop_start_rad: Scalar,
    /// Stiffness of the end stop past that point [N.m/rad].
    pub end_stop_rate: Scalar,
    /// Viscous damping against handwheel rate [N.m.s/rad], passed to the device
    /// as a condition effect rather than computed from a differentiated
    /// position, which would chatter.
    pub damper_coeff: Scalar,
    pub enable_slew_limit: bool,
    pub enable_end_stop: bool,
    pub watchdog: WatchdogConfig,
}

impl FfbConfig {
    /// Unit gain, 8 N.m, 600 N.m/s, an end stop of 12 N.m/rad from 2.2 rad.
    pub open spec fn standard() -> Self {
        FfbConfig {
            gain: ONE,
            torque_limit_nm: 0x4020_0000_0000_0000,
            slew_limit_nm_per_s: 0x4082_c000_0000_0000,
            end_stop_start_rad: 0x4001_9999_9999_999a,
            end_stop_rate: 0x4028_0000_0000_0000,
            damper_coeff: 0x3f94_7ae1_47ae_147b,
            enable_slew_limit: true,
            enable_end_stop: true,
            watchdog: WatchdogConfig::standard(),
        }
    }

    /// The furthest the torque may move in `dt` seconds.
    pub open spec fn max_change<F: Fn(Operation) -> Scalar>(self, unit: &F, dt: Scalar) -> Scalar {
        times(unit, self.slew_limit_nm_per_s, dt)
    }

    /// The slew limit over `dt` is an interval around zero.
    pub open spec fn slews<F: Fn(Operation) -> Scalar>(self, unit: &F, dt: Scalar) -> bool {
        self.enable_slew_limit ==> is_at_most(
            negate(self.max_change(unit, dt)),
            self.max_change(unit, dt),
        )
    }
}

impl FfbConfig {
    /// Whether the slew limit over `dt` is an interval around zero.
    pub fn can_slew<F: Fn(Operation) -> Scalar>(&self, unit: &F, dt: Scalar) -> (answer: bool)
        requires
            arith::functional(*unit),
        ensures
            answer == self.slews(unit, dt),
    {
        if self.enable_slew_limit {
            let most: Scalar = times(unit, self.slew_limit_nm_per_s, dt);
            is_at_most(negate(most), most)
        } else {
            true
        }
    }
}

impl Default for FfbConfig {
    fn default() -> (config: Self)
        ensures
            config == Self::standard(),
    {
        FfbConfig {
            gain: ONE,
            torque_limit_nm: 0x4020_0000_0000_0000,
            slew_limit_nm_per_s: 0x4082_c000_0000_0000,
            end_stop_start_rad: 0x4001_9999_9999_999a,
            end_stop_rate: 0x4028_0000_0000_0000,
            damper_coeff: 0x3f94_7ae1_47ae_147b,
            enable_slew_limit: true,
            enable_end_stop: true,
            watchdog: WatchdogConfig::default(),
        }
    }
}

/// What the chain produced, and what it had to do to get there.
#[derive(Clone, Copy, PartialEq, Eq, Structural, Debug)]
pub struct FfbOutcome {
    pub command: FfbCommand,
    /// The clamp was active. Sustained clamping means the limit is set below
    /// what the car actually generates, and the driver is feeling the limiter
    /// rather than the vehicle -- so it is surfaced, not swallowed.
    pub clamped: bool,
    /// The plant produced a non-finite value, or values no torque can be made of.
    /// Always a session fault.
    pub nonfinite: bool,
    pub watchdog: Verdict,
}

#[derive(Clone, Copy, PartialEq, Eq, Structural, Debug)]
pub struct FfbChain {
    pub config: FfbConfig,
    pub watchdog: Watchdog,
    /// Where the slew limit starts from: the torque the last step would have
    /// delivered without the end stop. The push of the stop is a stiffness, a
    /// function of the angle alone, and must not add up from step to step.
    pub last_torque: Scalar,
    pub clamp_events: u64,
    pub nonfinite_events: u64,
}

/// A frame nothing may be derived from.
pub open spec fn poisoned(state: VehicleState) -> bool {
    !is_finite(state.handwheel_torque) || !is_finite(state.handwheel_angle)
}

/// A torque kept between `-limit` and `limit`.
pub open spec fn held_to(torque: Scalar, limit: Scalar) -> Scalar {
    if is_less(limit, abs(torque)) {
        clamp(torque, negate(limit), limit)
    } else {
        torque
    }
}

/// Keep a torque between `-limit` and `limit`.
fn hold_to(torque: Scalar, limit: Scalar) -> (held: Scalar)
    requires
        !is_nan(limit) ==> scalar::exact(limit) >= 0,
    ensures
        held == held_to(torque, limit),
{
    if is_less(limit, abs(torque)) {
        proof {
            scalar::law_negation_flips(limit);
            scalar::lemma_exact_order(limit, limit);
        }
        clamp(torque, negate(limit), limit)
    } else {
        torque
    }
}

/// The command that moves nothing, whatever came before it.
pub open spec fn inert(now_ns: u64, flags: u64) -> FfbCommand {
    FfbCommand {
        host_time_ns: now_ns,
        torque_nm: ZERO,
        spring_coeff: ZERO,
        damper_coeff: ZERO,
        flags,
    }
}

/// The flags of a command issued under `verdict`.
pub open spec fn flags_under(verdict: Verdict) -> u64 {
    match verdict {
        Verdict::Pass => ffb_flags::ACTIVE,
        Verdict::RampingDown { .. } => ffb_flags::ACTIVE | ffb_flags::RAMPING_DOWN,
        Verdict::Tripped => ffb_flags::WATCHDOG_TRIPPED,
    }
}

impl FfbChain {
    /// Gain: the torque *applied* to the driver opposes the reaction.
    pub open spec fn gained<F: Fn(Operation) -> Scalar>(
        self,
        unit: &F,
        state: VehicleState,
    ) -> Scalar {
        times(unit, negate(state.handwheel_torque), self.config.gain)
    }

    /// Slew limit: no further from the last torque than the rate allows.
    pub open spec fn slewed<F: Fn(Operation) -> Scalar>(
        self,
        unit: &F,
        state: VehicleState,
        dt: Scalar,
    ) -> Scalar {
        let target = self.gained(unit, state);
        let most = self.config.max_change(unit, dt);
        if self.config.enable_slew_limit {
            plus(
                unit,
                self.last_torque,
                clamp(minus(unit, target, self.last_torque), negate(most), most),
            )
        } else {
            target
        }
    }

    /// How far the wheel is past the rack's travel.
    pub open spec fn past<F: Fn(Operation) -> Scalar>(
        self,
        unit: &F,
        state: VehicleState,
    ) -> Scalar {
        minus(unit, abs(state.handwheel_angle), self.config.end_stop_start_rad)
    }

    /// The end stop is reached.
    pub open spec fn stops<F: Fn(Operation) -> Scalar>(
        self,
        unit: &F,
        state: VehicleState,
    ) -> bool {
        self.config.enable_end_stop && is_less(ZERO, self.past(unit, state))
    }

    /// What the end stop's stiffness makes of the way past it.
    pub open spec fn push<F: Fn(Operation) -> Scalar>(
        self,
        unit: &F,
        state: VehicleState,
    ) -> Scalar {
        times(
            unit,
            times(unit, signum(state.handwheel_angle), self.past(unit, state)),
            self.config.end_stop_rate,
        )
    }

    /// Soft end stop: past the rack's travel, the driver is pushing the rack.
    pub open spec fn stopped<F: Fn(Operation) -> Scalar>(
        self,
        unit: &F,
        state: VehicleState,
        dt: Scalar,
    ) -> Scalar {
        if self.stops(unit, state) {
            minus(unit, self.slewed(unit, state, dt), self.push(unit, state))
        } else {
            self.slewed(unit, state, dt)
        }
    }

    /// The clamp has something to do.
    pub open spec fn clamps<F: Fn(Operation) -> Scalar>(
        self,
        unit: &F,
        state: VehicleState,
        dt: Scalar,
    ) -> bool {
        is_less(abs(self.config.torque_limit_nm), abs(self.stopped(unit, state, dt)))
    }

    /// Absolute clamp.
    pub open spec fn clamped<F: Fn(Operation) -> Scalar>(
        self,
        unit: &F,
        state: VehicleState,
        dt: Scalar,
    ) -> Scalar {
        held_to(self.stopped(unit, state, dt), abs(self.config.torque_limit_nm))
    }

    /// Nothing may be derived from the frame, or what was derived is no number.
    pub open spec fn unsound<F: Fn(Operation) -> Scalar>(
        self,
        unit: &F,
        state: VehicleState,
        dt: Scalar,
    ) -> bool {
        ||| poisoned(state)
        ||| is_nan(self.slewed(unit, state, dt))
        ||| is_nan(self.stopped(unit, state, dt))
    }

    /// The watchdog once this step's deadline is in.
    pub open spec fn watched<F: Fn(Operation) -> Scalar>(
        self,
        unit: &F,
        dt: Scalar,
        deadline_met: bool,
    ) -> Watchdog {
        self.watchdog.observed(unit, deadline_met, dt)
    }

    /// What the whole chain delivers.
    pub open spec fn delivered<F: Fn(Operation) -> Scalar>(
        self,
        unit: &F,
        state: VehicleState,
        dt: Scalar,
        deadline_met: bool,
    ) -> Scalar {
        times(
            unit,
            self.clamped(unit, state, dt),
            self.watched(unit, dt, deadline_met).verdict().multiplier(),
        )
    }

    /// What the whole chain would deliver without the end stop.
    pub open spec fn unstopped<F: Fn(Operation) -> Scalar>(
        self,
        unit: &F,
        state: VehicleState,
        dt: Scalar,
        deadline_met: bool,
    ) -> Scalar {
        times(
            unit,
            held_to(self.slewed(unit, state, dt), abs(self.config.torque_limit_nm)),
            self.watched(unit, dt, deadline_met).verdict().multiplier(),
        )
    }

    /// The chain after one step.
    pub open spec fn conditioned<F: Fn(Operation) -> Scalar>(
        self,
        unit: &F,
        state: VehicleState,
        dt: Scalar,
        deadline_met: bool,
    ) -> Self {
        if self.unsound(unit, state, dt) {
            FfbChain {
                watchdog: self.watchdog.cut(),
                last_torque: ZERO,
                nonfinite_events: (self.nonfinite_events + 1) as u64,
                ..self
            }
        } else {
            FfbChain {
                watchdog: self.watched(unit, dt, deadline_met),
                last_torque: self.unstopped(unit, state, dt, deadline_met),
                clamp_events: if self.clamps(unit, state, dt) {
                    (self.clamp_events + 1) as u64
                } else {
                    self.clamp_events
                },
                ..self
            }
        }
    }

    /// What one step hands to the device, and says about itself.
    pub open spec fn outcome<F: Fn(Operation) -> Scalar>(
        self,
        unit: &F,
        state: VehicleState,
        dt: Scalar,
        now_ns: u64,
        deadline_met: bool,
    ) -> FfbOutcome {
        if self.unsound(unit, state, dt) {
            FfbOutcome {
                command: inert(now_ns, ffb_flags::WATCHDOG_TRIPPED | ffb_flags::DISABLED),
                clamped: false,
                nonfinite: true,
                watchdog: Verdict::Tripped,
            }
        } else {
            let verdict = self.watched(unit, dt, deadline_met).verdict();
            FfbOutcome {
                command: FfbCommand {
                    host_time_ns: now_ns,
                    torque_nm: self.delivered(unit, state, dt, deadline_met),
                    spring_coeff: ZERO,
                    damper_coeff: times(unit, self.config.damper_coeff, verdict.multiplier()),
                    flags: flags_under(verdict),
                },
                clamped: self.clamps(unit, state, dt),
                nonfinite: false,
                watchdog: verdict,
            }
        }
    }

    /// The event counters can each take one more.
    pub open spec fn countable(self) -> bool {
        &&& self.watchdog.trips < u64::MAX
        &&& self.clamp_events < u64::MAX
        &&& self.nonfinite_events < u64::MAX
    }

    /// A chain that has conditioned nothing yet.
    pub open spec fn fresh(config: FfbConfig) -> Self {
        FfbChain {
            config,
            watchdog: Watchdog::fresh(config.watchdog),
            last_torque: ZERO,
            clamp_events: 0,
            nonfinite_events: 0,
        }
    }

    pub fn new(config: FfbConfig) -> (chain: Self)
        ensures
            chain == Self::fresh(config),
    {
        FfbChain {
            config,
            watchdog: Watchdog::new(config.watchdog),
            last_torque: ZERO,
            clamp_events: 0,
            nonfinite_events: 0,
        }
    }

    pub fn config(&self) -> (config: &FfbConfig)
        ensures
            *config == self.config,
    {
        &self.config
    }

    pub fn clamp_events(&self) -> (events: u64)
        ensures
            events == self.clamp_events,
    {
        self.clamp_events
    }

    pub fn nonfinite_events(&self) -> (events: u64)
        ensures
            events == self.nonfinite_events,
    {
        self.nonfinite_events
    }

    pub fn watchdog(&self) -> (watchdog: &Watchdog)
        ensures
            *watchdog == self.watchdog,
    {
        &self.watchdog
    }

    /// Run one step of the chain.
    ///
    /// `deadline_met` is the step thread's own verdict on the step that
    /// produced this state, and it feeds the watchdog: a loop that is missing
    /// deadlines must not keep pushing torque as though nothing is wrong.
    pub fn condition<F: Fn(Operation) -> Scalar>(
        &mut self,
        unit: &F,
        state: &VehicleState,
        dt: Scalar,
        now_ns: u64,
        deadline_met: bool,
    ) -> (outcome: FfbOutcome)
        requires
            arith::functional(*unit),
            old(self).config.slews(unit, dt),
            old(self).countable(),
        ensures
            *final(self) == old(self).conditioned(unit, *state, dt, deadline_met),
            outcome == old(self).outcome(unit, *state, dt, now_ns, deadline_met),
    {
        // First, unconditionally, and it trips the watchdog outright: there is
        // no recovery from a diverged plant, and no torque value derived from
        // one is meaningful.
        let reaction: Scalar = state.handwheel_torque;
        if !is_finite(reaction) || !is_finite(state.handwheel_angle) {
            return self.cut_off(now_ns);
        }
        let mut slewed: Scalar = times(unit, negate(reaction), self.config.gain);

        if self.config.enable_slew_limit {
            let most: Scalar = times(unit, self.config.slew_limit_nm_per_s, dt);
            let change: Scalar = clamp(minus(unit, slewed, self.last_torque), negate(most), most);
            slewed = plus(unit, self.last_torque, change);
        }
        let mut torque: Scalar = slewed;

        if self.config.enable_end_stop {
            let past: Scalar = minus(
                unit,
                abs(state.handwheel_angle),
                self.config.end_stop_start_rad,
            );
            if is_less(ZERO, past) {
                let push: Scalar = times(unit, signum(state.handwheel_angle), past);
                torque = minus(unit, torque, times(unit, push, self.config.end_stop_rate));
            }
        }

        // Two infinities can cancel. What is left of them passes any clamp.
        if is_nan(slewed) || is_nan(torque) {
            return self.cut_off(now_ns);
        }
        let limit: Scalar = abs(self.config.torque_limit_nm);
        proof {
            scalar::lemma_exact_order(limit, limit);
        }
        let clamped: bool = is_less(limit, abs(torque));
        if clamped {
            self.clamp_events += 1;
        }
        torque = hold_to(torque, limit);

        let verdict: Verdict = self.watchdog.observe(unit, deadline_met, dt);
        torque = times(unit, torque, verdict.scale());
        self.last_torque = times(unit, hold_to(slewed, limit), verdict.scale());
        let mut flags: u64 = ffb_flags::ACTIVE;
        match verdict {
            Verdict::Pass => {},
            Verdict::RampingDown { .. } => {
                flags = flags | ffb_flags::RAMPING_DOWN;
            },
            Verdict::Tripped => {
                flags = ffb_flags::WATCHDOG_TRIPPED;
            },
        }

        FfbOutcome {
            command: FfbCommand {
                host_time_ns: now_ns,
                torque_nm: torque,
                spring_coeff: ZERO,
                damper_coeff: times(unit, self.config.damper_coeff, verdict.scale()),
                flags,
            },
            clamped,
            nonfinite: false,
            watchdog: verdict,
        }
    }

    /// No torque, now and until the trip is acknowledged.
    fn cut_off(&mut self, now_ns: u64) -> (outcome: FfbOutcome)
        requires
            old(self).countable(),
        ensures
            *final(self) == (FfbChain {
                watchdog: old(self).watchdog.cut(),
                last_torque: ZERO,
                nonfinite_events: (old(self).nonfinite_events + 1) as u64,
                ..*old(self)
            }),
            outcome == (FfbOutcome {
                command: inert(now_ns, ffb_flags::WATCHDOG_TRIPPED | ffb_flags::DISABLED),
                clamped: false,
                nonfinite: true,
                watchdog: Verdict::Tripped,
            }),
    {
        self.nonfinite_events += 1;
        self.watchdog.trip_now();
        self.last_torque = ZERO;
        FfbOutcome {
            command: FfbCommand {
                host_time_ns: now_ns,
                torque_nm: ZERO,
                spring_coeff: ZERO,
                damper_coeff: ZERO,
                flags: ffb_flags::WATCHDOG_TRIPPED | ffb_flags::DISABLED,
            },
            clamped: false,
            nonfinite: true,
            watchdog: Verdict::Tripped,
        }
    }

    /// A command that is safe to send when there is nothing to send.
    ///
    /// Used on shutdown, on pause, and by the device thread when the step
    /// thread has gone quiet. Never returns the last value.
    pub fn silent(&self, now_ns: u64) -> (command: FfbCommand)
        ensures
            command == inert(now_ns, ffb_flags::DISABLED),
    {
        FfbCommand {
            host_time_ns: now_ns,
            torque_nm: ZERO,
            spring_coeff: ZERO,
            damper_coeff: ZERO,
            flags: ffb_flags::DISABLED,
        }
    }
}

// --- laws -----------------------------------------------------------------------

/// A diverged plant produces exactly zero torque in that very step, and a
/// watchdog that only an operator can reset, whatever the chain was doing before.
pub proof fn law_divergence_is_silenced_at_once<F: Fn(Operation) -> Scalar>(
    chain: FfbChain,
    unit: &F,
    state: VehicleState,
    dt: Scalar,
    now_ns: u64,
    deadline_met: bool,
)
    requires
        chain.unsound(unit, state, dt),
    ensures
        ({
            let outcome = chain.outcome(unit, state, dt, now_ns, deadline_met);
            let after = chain.conditioned(unit, state, dt, deadline_met);
            &&& outcome.command.torque_nm == ZERO
            &&& outcome.command.damper_coeff == ZERO
            &&& outcome.nonfinite
            &&& after.watchdog.tripped
            &&& after.watchdog.latched
            &&& after.watchdog.verdict() == Verdict::Tripped
            &&& after.last_torque == ZERO
        }),
{
    watchdog::law_a_cut_is_immediate(chain.watchdog);
}

/// What the clamp lets through is a finite number inside the limit.
pub proof fn lemma_held_is_inside(torque: Scalar, limit: Scalar)
    requires
        is_finite(limit),
        scalar::exact(limit) >= 0,
        !is_nan(torque),
    ensures
        is_finite(held_to(torque, limit)),
        -scalar::exact(limit) <= scalar::exact(held_to(torque, limit)) <= scalar::exact(limit),
{
    let held = held_to(torque, limit);
    scalar::lemma_exact_order(limit, limit);
    scalar::law_negation_flips(limit);
    scalar::law_negation_flips(torque);
    scalar::lemma_exact_order(torque, limit);
    assert(-scalar::exact(limit) <= scalar::exact(held) <= scalar::exact(limit));
    scalar::lemma_exact_order(held, limit);
    scalar::lemma_exact_order(abs(held), limit);
    scalar::lemma_exact_order(limit, abs(held));
}

impl FfbChain {
    /// The chain is set up with finite numbers, its watchdog's scale is one, and time
    /// does not run backwards. A step may be of any length, even an infinite one.
    pub open spec fn guarded(self, dt: Scalar) -> bool {
        &&& !is_nan(dt) && scalar::exact(dt) >= 0
        &&& is_finite(self.config.torque_limit_nm)
        &&& is_finite(self.config.watchdog.ramp_ms)
        &&& self.watchdog.config == self.config.watchdog
        &&& self.watchdog.in_range()
    }
}

/// A torque inside the limit is still inside it once the watchdog has scaled it.
proof fn lemma_scaled_is_inside<F: Fn(Operation) -> Scalar>(
    chain: FfbChain,
    unit: &F,
    dt: Scalar,
    deadline_met: bool,
    torque: Scalar,
)
    requires
        arith::rounding(unit),
        chain.guarded(dt),
        !is_nan(torque),
    ensures
        ({
            let limit = abs(chain.config.torque_limit_nm);
            let scaled = times(
                unit,
                held_to(torque, limit),
                chain.watched(unit, dt, deadline_met).verdict().multiplier(),
            );
            &&& is_finite(scaled)
            &&& is_at_most(abs(scaled), limit)
        }),
{
    let limit = abs(chain.config.torque_limit_nm);
    scalar::law_negation_flips(chain.config.torque_limit_nm);
    scalar::lemma_exact_order(limit, limit);
    let held = held_to(torque, limit);
    lemma_held_is_inside(torque, limit);
    watchdog::law_scale_stays_in_range(chain.watchdog, unit, deadline_met, dt);
    let verdict = chain.watched(unit, dt, deadline_met).verdict();
    scalar::lemma_one();
    scalar::lemma_exact_order(ZERO, ZERO);
    let scale = scalar::exact(verdict.multiplier());
    let whole = scalar::unit();
    assert(0 <= scale <= whole);
    let scaled = times(unit, held, verdict.multiplier());
    let num = scalar::exact(held) * scale;
    let bound = scalar::exact(limit);
    let e = scalar::exact(held);
    assert(-bound * whole <= num <= bound * whole) by (nonlinear_arith)
        requires
            -bound <= e <= bound,
            0 <= scale <= whole,
            num == e * scale,
    ;
    scalar::lemma_largest(limit);
    let most = scalar::exact(arith::LARGEST);
    assert(bound * whole <= most * whole && -bound * whole >= -(most * whole)) by (nonlinear_arith)
        requires
            0 <= bound <= most,
            whole > 0,
    ;
    assert(arith::delivers(num, whole, scaled));
    arith::lemma_nearest_is_bounded(num, whole, scaled, limit);
    arith::lemma_nearest_is_bounded(num, whole, scaled, negate(limit));
    scalar::law_negation_flips(limit);
    scalar::law_negation_flips(scaled);
    scalar::lemma_exact_order(scaled, scaled);
}

/// No input, however extreme, takes a torque outside the configured limit: every
/// torque the chain commands is a finite number no larger than the limit, and the
/// chain is as guarded afterwards as it was before.
pub proof fn law_torque_stays_inside_the_limit<F: Fn(Operation) -> Scalar>(
    chain: FfbChain,
    unit: &F,
    state: VehicleState,
    dt: Scalar,
    now_ns: u64,
    deadline_met: bool,
)
    requires
        arith::rounding(unit),
        chain.guarded(dt),
    ensures
        chain.conditioned(unit, state, dt, deadline_met).guarded(dt),
        ({
            let torque = chain.outcome(unit, state, dt, now_ns, deadline_met).command.torque_nm;
            &&& is_finite(torque)
            &&& is_at_most(abs(torque), abs(chain.config.torque_limit_nm))
        }),
        ({
            let last = chain.conditioned(unit, state, dt, deadline_met).last_torque;
            &&& is_finite(last)
            &&& is_at_most(abs(last), abs(chain.config.torque_limit_nm))
        }),
{
    let limit = abs(chain.config.torque_limit_nm);
    scalar::lemma_exact_order(ZERO, ZERO);
    scalar::lemma_one();
    scalar::law_negation_flips(chain.config.torque_limit_nm);
    scalar::lemma_exact_order(limit, limit);
    if chain.unsound(unit, state, dt) {
        law_divergence_is_silenced_at_once(chain, unit, state, dt, now_ns, deadline_met);
    } else {
        lemma_scaled_is_inside(chain, unit, dt, deadline_met, chain.stopped(unit, state, dt));
        lemma_scaled_is_inside(chain, unit, dt, deadline_met, chain.slewed(unit, state, dt));
        watchdog::law_scale_stays_in_range(chain.watchdog, unit, deadline_met, dt);
    }
}

impl FfbChain {
    /// The chain is set up with numbers that add up, and has stayed inside its
    /// limit so far. Without the slew limit there is nothing to keep the end stop
    /// from meeting an infinite torque.
    pub open spec fn ordinary<F: Fn(Operation) -> Scalar>(self, unit: &F, dt: Scalar) -> bool {
        let limit = abs(self.config.torque_limit_nm);
        let most = self.config.max_change(unit, dt);
        &&& self.guarded(dt)
        &&& is_finite(self.config.gain)
        &&& self.config.enable_slew_limit ==> is_finite(most) && scalar::exact(most) >= 0
            && scalar::exact(limit) + scalar::exact(most) <= scalar::exact(arith::LARGEST)
        &&& self.config.enable_end_stop ==> self.config.enable_slew_limit && is_finite(
            self.config.end_stop_start_rad,
        ) && scalar::exact(self.config.end_stop_start_rad) >= 0 && is_finite(
            self.config.end_stop_rate,
        )
        &&& is_finite(self.last_torque)
        &&& is_at_most(abs(self.last_torque), limit)
    }
}

/// What rounding delivers is a number.
proof fn lemma_delivered_is_a_number(num: int, den: int, r: Scalar)
    requires
        arith::delivers(num, den, r),
    ensures
        !is_nan(r),
        is_finite(r) || r == arith::INFINITY || r == arith::MINUS_INFINITY,
{
}

/// Nothing a sound frame asks of a chain set up with ordinary numbers is not a
/// number, even before the clamp.
pub proof fn lemma_ordinary_is_sound<F: Fn(Operation) -> Scalar>(
    chain: FfbChain,
    unit: &F,
    state: VehicleState,
    dt: Scalar,
)
    requires
        arith::rounding(unit),
        chain.ordinary(unit, dt),
        !poisoned(state),
    ensures
        !chain.unsound(unit, state, dt),
{
    let config = chain.config;
    let target = chain.gained(unit, state);
    scalar::law_negation_flips(state.handwheel_torque);
    lemma_delivered_is_a_number(
        scalar::exact(negate(state.handwheel_torque)) * scalar::exact(config.gain),
        scalar::unit(),
        target,
    );
    if config.enable_slew_limit {
        let most = config.max_change(unit, dt);
        let last = chain.last_torque;
        let wanted = minus(unit, target, last);
        if is_finite(target) {
            lemma_delivered_is_a_number(scalar::exact(target) - scalar::exact(last), 1, wanted);
        }
        let change = clamp(wanted, negate(most), most);
        scalar::law_negation_flips(most);
        scalar::law_negation_flips(last);
        scalar::lemma_exact_order(last, last);
        scalar::law_limited_is_inside(wanted, negate(most), most);
        scalar::law_negation_flips(change);
        scalar::lemma_exact_order(change, change);
        scalar::lemma_exact_order(most, most);
        scalar::lemma_exact_order(abs(most), abs(change));
        assert(is_finite(change));
        let slewed = chain.slewed(unit, state, dt);
        let sum = scalar::exact(last) + scalar::exact(change);
        assert(arith::delivers(sum, 1, slewed));
        assert(is_finite(slewed));
        let past = chain.past(unit, state);
        if config.enable_end_stop && is_less(ZERO, past) {
            let angle = state.handwheel_angle;
            let reach = scalar::exact(abs(angle)) - scalar::exact(config.end_stop_start_rad);
            scalar::law_negation_flips(angle);
            scalar::lemma_exact_order(angle, angle);
            assert(is_finite(abs(angle)));
            scalar::lemma_largest(abs(angle));
            assert(arith::delivers(reach, 1, past));
            scalar::lemma_largest(config.end_stop_start_rad);
            assert(is_finite(past));
            let sign = signum(angle);
            scalar::lemma_one();
            scalar::law_negation_flips(ONE);
            assert(is_finite(sign));
            let signed = times(unit, sign, past);
            let product = scalar::exact(sign) * scalar::exact(past);
            assert(arith::delivers(product, scalar::unit(), signed));
            assert(product == scalar::exact(past) * scalar::unit() || product == -scalar::exact(past)
                * scalar::unit()) by (nonlinear_arith)
                requires
                    product == scalar::exact(sign) * scalar::exact(past),
                    scalar::exact(sign) == scalar::unit() || scalar::exact(sign)
                        == -scalar::unit(),
            ;
            scalar::law_negation_flips(past);
            if product == scalar::exact(past) * scalar::unit() {
                arith::lemma_exact_is_kept(product, scalar::unit(), signed, past);
            } else {
                arith::lemma_exact_is_kept(product, scalar::unit(), signed, negate(past));
            }
            let push = times(unit, signed, config.end_stop_rate);
            lemma_delivered_is_a_number(
                scalar::exact(signed) * scalar::exact(config.end_stop_rate),
                scalar::unit(),
                push,
            );
            if is_finite(push) {
                lemma_delivered_is_a_number(
                    scalar::exact(slewed) - scalar::exact(push),
                    1,
                    minus(unit, slewed, push),
                );
            }
        }
    }
}

impl FfbChain {
    /// The slew limit has caught up with the reaction in `state`, and nothing
    /// else is on the move.
    pub open spec fn settled<F: Fn(Operation) -> Scalar>(
        self,
        unit: &F,
        state: VehicleState,
    ) -> bool {
        &&& !poisoned(state)
        &&& is_finite(self.gained(unit, state))
        &&& is_finite(self.last_torque)
        &&& scalar::exact(self.gained(unit, state)) == scalar::exact(self.last_torque)
        &&& is_at_most(abs(self.last_torque), abs(self.config.torque_limit_nm))
        &&& self.stops(unit, state) ==> !is_nan(self.push(unit, state))
        &&& !self.watchdog.tripped
        &&& !self.watchdog.latched
        &&& self.watchdog.scale == ONE
    }
}

/// The chain after `n` steps that see the same frame, in time.
pub open spec fn held_still<F: Fn(Operation) -> Scalar>(
    chain: FfbChain,
    unit: &F,
    state: VehicleState,
    dt: Scalar,
    n: nat,
) -> FfbChain
    decreases n,
{
    if n == 0 {
        chain
    } else {
        held_still(chain, unit, state, dt, (n - 1) as nat).conditioned(unit, state, dt, true)
    }
}

/// Values that agree agree once they are held to a limit.
proof fn lemma_held_agrees(a: Scalar, b: Scalar, limit: Scalar)
    requires
        !is_nan(a),
        !is_nan(b),
        scalar::exact(a) == scalar::exact(b),
    ensures
        scalar::exact(held_to(a, limit)) == scalar::exact(held_to(b, limit)),
{
    scalar::law_negation_flips(a);
    scalar::law_negation_flips(b);
    scalar::lemma_exact_order(a, a);
    scalar::lemma_exact_order(b, b);
}

/// One step of a settled chain leaves it settled, commands the torque that the
/// reaction and the stop's stiffness make, and moves the slew limit nowhere.
proof fn lemma_settled_stays<F: Fn(Operation) -> Scalar>(
    chain: FfbChain,
    unit: &F,
    state: VehicleState,
    dt: Scalar,
)
    requires
        arith::rounding(unit),
        chain.guarded(dt),
        chain.config.slews(unit, dt),
        chain.settled(unit, state),
    ensures
        ({
            let after = chain.conditioned(unit, state, dt, true);
            let stopped = chain.stopped(unit, state, dt);
            &&& !chain.unsound(unit, state, dt)
            &&& after.guarded(dt)
            &&& after.config == chain.config
            &&& after.settled(unit, state)
            &&& scalar::exact(after.last_torque) == scalar::exact(chain.last_torque)
            &&& is_finite(chain.slewed(unit, state, dt))
            &&& scalar::exact(chain.slewed(unit, state, dt)) == scalar::exact(chain.last_torque)
            &&& scalar::exact(chain.outcome(unit, state, dt, 0, true).command.torque_nm)
                == scalar::exact(held_to(stopped, abs(chain.config.torque_limit_nm)))
        }),
{
    let limit = abs(chain.config.torque_limit_nm);
    let target = chain.gained(unit, state);
    let last = chain.last_torque;
    let wanted = minus(unit, target, last);
    let most = chain.config.max_change(unit, dt);
    let slewed = chain.slewed(unit, state, dt);
    scalar::lemma_exact_order(ZERO, ZERO);
    scalar::lemma_one();
    scalar::law_negation_flips(chain.config.torque_limit_nm);
    scalar::lemma_exact_order(limit, limit);
    scalar::law_negation_flips(most);
    assert(arith::delivers(0, 1, wanted));
    arith::lemma_exact_is_kept(0, 1, wanted, ZERO);
    if chain.config.enable_slew_limit {
        scalar::law_limited_is_inside(wanted, negate(most), most);
        arith::lemma_sums_are_exact(unit, last, wanted);
    }
    assert(is_finite(slewed) && scalar::exact(slewed) == scalar::exact(last));
    scalar::law_negation_flips(last);
    scalar::law_negation_flips(slewed);
    scalar::lemma_exact_order(slewed, slewed);
    scalar::lemma_exact_order(last, last);
    assert(held_to(slewed, limit) == slewed);
    let stopped = chain.stopped(unit, state, dt);
    let push = chain.push(unit, state);
    if chain.stops(unit, state) {
        if is_finite(push) {
            lemma_delivered_is_a_number(
                scalar::exact(slewed) - scalar::exact(push),
                1,
                minus(unit, slewed, push),
            );
        }
    }
    assert(!is_nan(stopped));
    law_torque_stays_inside_the_limit(chain, unit, state, dt, 0, true);
    watchdog::law_health_is_untouched(chain.watchdog, unit, dt);
    lemma_held_is_inside(stopped, limit);
    lemma_times_one(unit, held_to(stopped, limit));
    lemma_times_one(unit, slewed);
}

/// One times a value is that value.
proof fn lemma_times_one<F: Fn(Operation) -> Scalar>(unit: &F, a: Scalar)
    requires
        arith::rounding(unit),
        is_finite(a),
    ensures
        is_finite(times(unit, a, ONE)),
        scalar::exact(times(unit, a, ONE)) == scalar::exact(a),
{
    scalar::lemma_one();
    assert(arith::delivers(
        scalar::exact(a) * scalar::exact(ONE),
        scalar::unit(),
        times(unit, a, ONE),
    ));
    arith::lemma_exact_is_kept(
        scalar::exact(a) * scalar::unit(),
        scalar::unit(),
        times(unit, a, ONE),
        a,
    );
}

/// The stop pushes the same off every settled torque of one value.
proof fn lemma_stopped_agrees<F: Fn(Operation) -> Scalar>(
    one: FfbChain,
    other: FfbChain,
    unit: &F,
    state: VehicleState,
    dt: Scalar,
)
    requires
        arith::rounding(unit),
        one.config == other.config,
        is_finite(one.slewed(unit, state, dt)),
        is_finite(other.slewed(unit, state, dt)),
        scalar::exact(one.slewed(unit, state, dt)) == scalar::exact(other.slewed(unit, state, dt)),
        one.stops(unit, state) ==> !is_nan(one.push(unit, state)),
    ensures
        scalar::exact(one.stopped(unit, state, dt)) == scalar::exact(
            other.stopped(unit, state, dt),
        ),
        !is_nan(one.stopped(unit, state, dt)),
        !is_nan(other.stopped(unit, state, dt)),
{
    let a = one.slewed(unit, state, dt);
    let b = other.slewed(unit, state, dt);
    scalar::lemma_exact_order(a, b);
    scalar::lemma_exact_order(b, a);
    let push = one.push(unit, state);
    if one.stops(unit, state) && is_finite(push) {
        lemma_delivered_is_a_number(scalar::exact(a) - scalar::exact(push), 1, minus(unit, a, push));
        if scalar::exact(a) == 0 {
            scalar::law_negation_flips(push);
            arith::lemma_exact_is_kept(-scalar::exact(push), 1, minus(unit, a, push), negate(push));
            assert(arith::delivers(scalar::exact(b) - scalar::exact(push), 1, minus(unit, b, push)));
            arith::lemma_exact_is_kept(-scalar::exact(push), 1, minus(unit, b, push), negate(push));
        } else {
            assert(a == b);
        }
    }
}

/// A wheel that is held still gets the same torque every step, on the end stop as
/// anywhere else: the push of the stop does not add up.
pub proof fn law_a_held_wheel_gets_the_same_torque<F: Fn(Operation) -> Scalar>(
    chain: FfbChain,
    unit: &F,
    state: VehicleState,
    dt: Scalar,
    now_ns: u64,
    n: nat,
)
    requires
        arith::rounding(unit),
        chain.guarded(dt),
        chain.config.slews(unit, dt),
        chain.settled(unit, state),
    ensures
        ({
            let after = held_still(chain, unit, state, dt, n);
            scalar::exact(after.outcome(unit, state, dt, now_ns, true).command.torque_nm)
                == scalar::exact(
                held_to(chain.stopped(unit, state, dt), abs(chain.config.torque_limit_nm)),
            )
        }),
{
    lemma_settled_along(chain, unit, state, dt, n);
    let after = held_still(chain, unit, state, dt, n);
    lemma_settled_stays(chain, unit, state, dt);
    lemma_settled_stays(after, unit, state, dt);
    lemma_stopped_agrees(chain, after, unit, state, dt);
    lemma_held_agrees(
        chain.stopped(unit, state, dt),
        after.stopped(unit, state, dt),
        abs(chain.config.torque_limit_nm),
    );
}

proof fn lemma_settled_along<F: Fn(Operation) -> Scalar>(
    chain: FfbChain,
    unit: &F,
    state: VehicleState,
    dt: Scalar,
    n: nat,
)
    requires
        arith::rounding(unit),
        chain.guarded(dt),
        chain.config.slews(unit, dt),
        chain.settled(unit, state),
    ensures
        ({
            let after = held_still(chain, unit, state, dt, n);
            &&& after.guarded(dt)
            &&& after.config == chain.config
            &&& after.settled(unit, state)
            &&& scalar::exact(after.last_torque) == scalar::exact(chain.last_torque)
        }),
    decreases n,
{
    if n > 0 {
        let m = (n - 1) as nat;
        lemma_settled_along(chain, unit, state, dt, m);
        lemma_settled_stays(held_still(chain, unit, state, dt, m), unit, state, dt);
    }
}

/// A chain whose watchdog has run all the way down is slack: it delivers no
/// torque and no damping, whatever the plant asks for.
pub proof fn law_a_spent_watchdog_is_slack<F: Fn(Operation) -> Scalar>(
    chain: FfbChain,
    unit: &F,
    state: VehicleState,
    dt: Scalar,
    now_ns: u64,
    deadline_met: bool,
)
    requires
        arith::rounding(unit),
        !chain.unsound(unit, state, dt),
        chain.watched(unit, dt, deadline_met).verdict() == Verdict::Tripped,
        is_finite(chain.clamped(unit, state, dt)),
        is_finite(chain.config.damper_coeff),
    ensures
        ({
            let command = chain.outcome(unit, state, dt, now_ns, deadline_met).command;
            &&& is_finite(command.torque_nm) && scalar::exact(command.torque_nm) == 0
            &&& is_finite(command.damper_coeff) && scalar::exact(command.damper_coeff) == 0
        }),
{
    scalar::lemma_exact_order(ZERO, ZERO);
    arith::lemma_nothing_times(unit, chain.clamped(unit, state, dt), ZERO);
    arith::lemma_nothing_times(unit, chain.config.damper_coeff, ZERO);
}

/// With the end stop out of the way and the watchdog content, one step moves
/// the torque no further than the slew limit allows, rounding aside.
pub proof fn law_the_slew_limit_bounds_a_step<F: Fn(Operation) -> Scalar>(
    chain: FfbChain,
    unit: &F,
    state: VehicleState,
    dt: Scalar,
)
    requires
        chain.config.enable_slew_limit,
        chain.config.slews(unit, dt),
        !is_nan(minus(unit, chain.gained(unit, state), chain.last_torque)),
    ensures
        exists|change: Scalar| #[trigger]
            plus(unit, chain.last_torque, change) == chain.slewed(unit, state, dt) && is_at_most(
                abs(change),
                abs(chain.config.max_change(unit, dt)),
            ),
{
    let most = chain.config.max_change(unit, dt);
    let change = clamp(
        minus(unit, chain.gained(unit, state), chain.last_torque),
        negate(most),
        most,
    );
    scalar::law_negation_flips(most);
    scalar::law_negation_flips(change);
    scalar::lemma_exact_order(change, change);
    scalar::lemma_exact_order(most, most);
    assert(plus(unit, chain.last_torque, change) == chain.slewed(unit, state, dt));
}

/// The end stop keeps out of the way until the rack's travel is used up.
pub proof fn law_the_end_stop_waits<F: Fn(Operation) -> Scalar>(
    chain: FfbChain,
    unit: &F,
    state: VehicleState,
    dt: Scalar,
)
    requires
        arith::rounding(unit),
        is_finite(state.handwheel_angle),
        is_finite(chain.config.end_stop_start_rad),
        is_at_most(abs(state.handwheel_angle), chain.config.end_stop_start_rad),
    ensures
        chain.stopped(unit, state, dt) == chain.slewed(unit, state, dt),
{
    let angle = abs(state.handwheel_angle);
    let start = chain.config.end_stop_start_rad;
    let past = minus(unit, angle, start);
    scalar::law_negation_flips(state.handwheel_angle);
    scalar::lemma_exact_order(ZERO, ZERO);
    let reach = scalar::exact(angle) - scalar::exact(start);
    assert(arith::delivers(reach, 1, past));
    scalar::lemma_largest(ZERO);
    if arith::nearest(reach, 1, past) {
        arith::lemma_nearest_is_bounded(reach, 1, past, ZERO);
    } else {
        scalar::lemma_exact_order(arith::MINUS_INFINITY, ZERO);
    }
}

/// A wheel that is silent, on a gain of nothing, stays silent: short of the end
/// stop, nothing the plant does is felt.
pub proof fn law_zero_gain_is_silent<F: Fn(Operation) -> Scalar>(
    chain: FfbChain,
    unit: &F,
    state: VehicleState,
    dt: Scalar,
    deadline_met: bool,
)
    requires
        arith::rounding(unit),
        chain.guarded(dt),
        chain.config.slews(unit, dt),
        !poisoned(state),
        is_finite(chain.config.gain),
        scalar::exact(chain.config.gain) == 0,
        is_finite(chain.last_torque),
        scalar::exact(chain.last_torque) == 0,
        chain.config.enable_end_stop ==> is_finite(chain.config.end_stop_start_rad) && is_at_most(
            abs(state.handwheel_angle),
            chain.config.end_stop_start_rad,
        ),
    ensures
        ({
            let after = chain.conditioned(unit, state, dt, deadline_met);
            &&& is_finite(after.last_torque)
            &&& scalar::exact(after.last_torque) == 0
            &&& after.last_torque == chain.outcome(
                unit,
                state,
                dt,
                0,
                deadline_met,
            ).command.torque_nm
        }),
{
    let target = chain.gained(unit, state);
    let last = chain.last_torque;
    scalar::law_negation_flips(state.handwheel_torque);
    arith::lemma_nothing_times(unit, negate(state.handwheel_torque), chain.config.gain);
    arith::lemma_sums_are_exact(unit, target, last);
    let wanted = minus(unit, target, last);
    let most = chain.config.max_change(unit, dt);
    scalar::law_negation_flips(most);
    if chain.config.enable_slew_limit {
        scalar::law_limited_is_inside(wanted, negate(most), most);
        arith::lemma_sums_are_exact(unit, last, wanted);
    }
    let slewed = chain.slewed(unit, state, dt);
    assert(is_finite(slewed) && scalar::exact(slewed) == 0);
    if chain.config.enable_end_stop {
        law_the_end_stop_waits(chain, unit, state, dt);
    }
    let limit = abs(chain.config.torque_limit_nm);
    scalar::lemma_exact_order(limit, limit);
    scalar::law_negation_flips(slewed);
    watchdog::law_scale_stays_in_range(chain.watchdog, unit, deadline_met, dt);
    let multiplier = chain.watched(unit, dt, deadline_met).verdict().multiplier();
    scalar::lemma_exact_order(ZERO, ZERO);
    scalar::lemma_one();
    arith::lemma_nothing_times(unit, multiplier, slewed);
}

// --- ordinary numbers ---------------------------------------------------------------

/// A rate over a millisecond, kept under a power of two.
pub proof fn lemma_change<F: Fn(Operation) -> Scalar>(
    unit: &F,
    rate: Scalar,
    power: Scalar,
    exponent: nat,
    product: Scalar,
)
    requires
        arith::rounding(unit),
        is_finite(rate),
        0 <= scalar::exact(rate) <= scalar::exact(power),
        1 <= exponent <= 2000,
        power == exponent * scalar::IMPLICIT_BIT,
        9 < exponent,
        product == (exponent - 9) * scalar::IMPLICIT_BIT,
    ensures
        is_finite(times(unit, rate, MILLI)),
        0 <= scalar::exact(times(unit, rate, MILLI)) <= scalar::exact(product),
{
    watchdog::lemma_milli();
    scalar::lemma_power(power, exponent);
    scalar::lemma_power(product, (exponent - 9) as nat);
    scalar::lemma_one();
    let e = (exponent + 51) as nat;
    let m = scalar::exact(MILLI);
    let r = scalar::exact(rate);
    let change = times(unit, rate, MILLI);
    lemma2_to64();
    lemma_pow2_adds(1059, 6);
    lemma_pow2_pos(1059);
    assert(m <= pow2(1065));
    lemma_pow2_adds(e, 1065);
    lemma_pow2_adds((e - 9) as nat, 1074);
    let top = scalar::exact(product);
    assert(0 <= r * m <= pow2(e) * pow2(1065)) by (nonlinear_arith)
        requires
            0 <= r <= pow2(e),
            0 <= m <= pow2(1065),
    ;
    assert(top * scalar::unit() == pow2(e) * pow2(1065));
    scalar::lemma_largest(product);
    scalar::lemma_exact_order(ZERO, ZERO);
    let most = scalar::exact(arith::LARGEST);
    let whole = scalar::unit();
    assert(top * whole <= most * whole && 0 <= most * whole) by (nonlinear_arith)
        requires
            0 <= top <= most,
            whole > 0,
    ;
    assert(arith::delivers(r * m, whole, change));
    assert(scalar::exact(ZERO) * whole == 0) by (nonlinear_arith)
        requires
            scalar::exact(ZERO) == 0,
    ;
    arith::lemma_nearest_is_bounded(r * m, whole, change, product);
    arith::lemma_nearest_is_bounded(r * m, whole, change, ZERO);
}

/// A chain fresh out of its box, stepped by the millisecond, is ordinary and can
/// slew, whatever its gain and its limit, as long as both are finite and the
/// limit leaves room for one step of the slew limit.
pub proof fn lemma_fresh_is_ordinary<F: Fn(Operation) -> Scalar>(unit: &F, config: FfbConfig)
    requires
        arith::rounding(unit),
        config == (FfbConfig {
            gain: config.gain,
            torque_limit_nm: config.torque_limit_nm,
            watchdog: config.watchdog,
            ..FfbConfig::standard()
        }),
        config.watchdog.ramp_ms == WatchdogConfig::standard().ramp_ms,
        is_finite(config.gain),
        is_finite(config.torque_limit_nm),
        scalar::exact(abs(config.torque_limit_nm)) + 2 * scalar::unit() <= scalar::exact(
            arith::LARGEST,
        ),
    ensures
        FfbChain::fresh(config).ordinary(unit, MILLI),
        config.slews(unit, MILLI),
{
    // 600 <= 2^10, so no more than 2 in a millisecond.
    let rate = config.slew_limit_nm_per_s;
    let power: Scalar = 0x4090_0000_0000_0000;
    let two: Scalar = 0x4000_0000_0000_0000;
    scalar::lemma_exact_order(rate, power);
    scalar::lemma_exact_order(power, rate);
    lemma_change(unit, rate, power, 0x409, two);
    scalar::lemma_power(two, 0x400);
    lemma_pow2_adds(1, 1074);
    lemma2_to64();
    watchdog::lemma_milli();
    scalar::lemma_one();
    lemma_pow2_pos(1064);
    scalar::lemma_exact_order(ZERO, ZERO);
    scalar::lemma_exact_order(config.end_stop_start_rad, config.end_stop_start_rad);
    scalar::lemma_exact_order(abs(config.torque_limit_nm), ZERO);
    scalar::law_negation_flips(config.torque_limit_nm);
    watchdog::lemma_millisecond_ramp(Watchdog::fresh(config.watchdog), unit);
    scalar::law_negation_flips(config.max_change(unit, MILLI));
}

/// Eight newton metres leave room for a step of the slew limit.
pub proof fn lemma_the_usual_limit_leaves_room()
    ensures
        scalar::exact(abs(FfbConfig::standard().torque_limit_nm)) + 2 * scalar::unit()
            <= scalar::exact(arith::LARGEST),
{
    let eight: Scalar = 0x4020_0000_0000_0000;
    let sixteen: Scalar = 0x4030_0000_0000_0000;
    scalar::lemma_power(eight, 0x402);
    scalar::lemma_power(sixteen, 0x403);
    lemma_pow2_adds(3, 1074);
    lemma_pow2_adds(4, 1074);
    lemma2_to64();
    scalar::lemma_one();
    scalar::lemma_largest(sixteen);
}

} // verus!
