//! The step loop: the deadline policy, and what one step does.
//!
//! Everything else in the kernel is a component this file arranges. It owns the
//! one thing that cannot be delegated -- when a step happens -- and the policy
//! for what to do when one does not happen on time.
//!
//! ```text
//!   device thread                 step thread (pinned, real-time)
//!   -------------                 --------------------------------
//!   poll device                   1. read the newest driver input
//!     -> input channel            2. shape the steering position
//!                                 3. plant.step(dt)
//!   feedback channel              4. integrate pose from body velocities
//!     -> apply torque             5. condition the feedback torque
//!     + staleness watchdog        6. publish state and torque
//!                                 7. push a telemetry frame
//!                                       |
//!                                 telemetry thread -> disk
//! ```

use vstd::prelude::*;

use crate::arith;
use crate::arith::{from_count, over, plus, times, Operation};
use crate::config::{KernelConfig, OverrunPolicy};
use crate::generated::frames::{fault_flags, ffb_flags, DriverInput, FfbCommand, TraceStep, VehicleState};
use crate::io::device::{DeviceCaps, RawInput};
use crate::io::ffb;
use crate::io::ffb::{FfbChain, FfbConfig, FfbOutcome};
use crate::io::hid::HidConfig;
use crate::io::input_shaper;
use crate::io::input_shaper::{ShapedSteer, ShaperConfig, SteerShaper};
use crate::io::watchdog::{WatchdogConfig, MILLI};
use crate::metrics::{RealtimeFactor, StepTimeHistogram, P99, THOUSAND};
use crate::plant::integrator::Method;
use crate::plant::ladder;
use crate::plant::ladder::maneuver;
use crate::plant::{Fault, InitialConditions, KernelCaps, PlantError, PlantKernel};
use crate::pose::Pose;
use crate::rig;
use crate::rig::{Event, Rig, Timed};
use crate::scalar;
use crate::scalar::{clamp, is_finite, is_less, round_to_count, Scalar, MINUS_ONE, ONE, ZERO};
use crate::sys::sched::RtStatus;
use crate::telemetry::trace::TraceMeta;
use crate::telemetry::SessionMeta;
use crate::text;
use crate::text::{add_line, count_text, join, page_text};

verus! {

/// The largest step time the session's histogram resolves: 20 ms.
pub const HISTOGRAM_RANGE_NS: u64 = 20_000_000;

/// To within a microsecond.
pub const HISTOGRAM_BUCKET_NS: u64 = 1_000;

/// The window of the realtime factor: half a second.
pub const RTF_WINDOW_NS: u64 = 500_000_000;

/// Steps a session spends on measuring a plant before it is driven.
pub const PROBE_STEPS: u64 = 2_000;

/// How long the device thread is given to deliver the last command [ms].
pub const SHUTDOWN_MS: u64 = 20;

/// What a configured step may exceed a plant's limit by: 1e-12 s.
pub const STABILITY_SLACK: Scalar = 0x3d71_9799_812d_ea11;

/// 100.
pub const HUNDRED: Scalar = 0x4059_0000_0000_0000;

/// 2, the handwheel angle at which the scripted driver is at full lock.
pub const SCRIPT_LOCK: Scalar = 0x4000_0000_0000_0000;

/// The default method used when nothing overrides it.
pub const DEFAULT_METHOD: Method = Method::Rk4;

// --- faults -----------------------------------------------------------------------------

/// The flag of each fault, and what it is called.
pub open spec fn fault(index: int) -> (u64, Seq<char>) {
    if index == 0 {
        (fault_flags::PLANT_NONFINITE, "plant produced a non-finite value"@)
    } else if index == 1 {
        (fault_flags::DEADLINE_MISSED, "deadlines missed"@)
    } else if index == 2 {
        (fault_flags::FFB_CLAMPED, "feedback torque clamped"@)
    } else if index == 3 {
        (fault_flags::TELEMETRY_OVERFLOW, "telemetry dropped samples"@)
    } else if index == 4 {
        (fault_flags::DEVICE_LOST, "device lost"@)
    } else if index == 5 {
        (fault_flags::PLANT_STEP_FAILED, "plant step failed"@)
    } else {
        (fault_flags::INPUT_STALE, "driver input went stale"@)
    }
}

/// The names of the faults raised, among the first `n`.
pub open spec fn raised(flags: u64, n: int) -> Seq<Seq<char>>
    decreases n,
{
    if n <= 0 {
        Seq::empty()
    } else if flags & fault(n - 1).0 != 0 {
        raised(flags, n - 1).push(fault(n - 1).1)
    } else {
        raised(flags, n - 1)
    }
}

/// The faults raised, in words.
pub open spec fn faults_described(flags: u64) -> Seq<char> {
    if raised(flags, 7).len() == 0 {
        "none"@
    } else {
        text::joined(raised(flags, 7), "; "@)
    }
}

fn fault_row(index: usize) -> (row: (u64, &'static str))
    requires
        index < 7,
    ensures
        row.0 == fault(index as int).0,
        row.1@ == fault(index as int).1,
{
    match index {
        0 => (fault_flags::PLANT_NONFINITE, "plant produced a non-finite value"),
        1 => (fault_flags::DEADLINE_MISSED, "deadlines missed"),
        2 => (fault_flags::FFB_CLAMPED, "feedback torque clamped"),
        3 => (fault_flags::TELEMETRY_OVERFLOW, "telemetry dropped samples"),
        4 => (fault_flags::DEVICE_LOST, "device lost"),
        5 => (fault_flags::PLANT_STEP_FAILED, "plant step failed"),
        _ => (fault_flags::INPUT_STALE, "driver input went stale"),
    }
}

pub fn describe_faults(flags: u64) -> (line: String)
    ensures
        line@ == faults_described(flags),
{
    let mut names: Vec<String> = Vec::new();
    let mut i: usize = 0;
    while i < 7
        invariant
            i <= 7,
            text::views(names@) =~= raised(flags, i as int),
        decreases 7 - i,
    {
        let row: (u64, &'static str) = fault_row(i);
        if flags & row.0 != 0 {
            add_line(&mut names, row.1.to_owned());
        }
        i += 1;
    }
    assert(text::views(names@).len() == names@.len());
    if names.len() == 0 {
        "none".to_owned()
    } else {
        join(&names, "; ")
    }
}

/// Raising a fault takes none back.
pub proof fn lemma_faults_only_add(before: u64, bit: u64)
    ensures
        (before | bit) & before == before,
{
    assert((before | bit) & before == before) by (bit_vector);
}

/// The faults once a step has been judged.
pub open spec fn flagged(read: u64, deadline_met: bool, outcome: FfbOutcome) -> u64 {
    let timed = if deadline_met {
        read
    } else {
        read | fault_flags::DEADLINE_MISSED
    };
    let held = if outcome.clamped {
        timed | fault_flags::FFB_CLAMPED
    } else {
        timed
    };
    if outcome.nonfinite {
        held | fault_flags::PLANT_NONFINITE
    } else {
        held
    }
}

/// What a plant's failure raises.
pub open spec fn blame(fault: Fault) -> u64 {
    if fault is NonFinite {
        fault_flags::PLANT_STEP_FAILED | fault_flags::PLANT_NONFINITE
    } else {
        fault_flags::PLANT_STEP_FAILED
    }
}

pub fn plant_fault(error: &PlantError) -> (bits: u64)
    ensures
        bits == blame(error@),
{
    match error {
        PlantError::NonFinite { .. } => fault_flags::PLANT_STEP_FAILED
            | fault_flags::PLANT_NONFINITE,
        _ => fault_flags::PLANT_STEP_FAILED,
    }
}

// --- before the first step ----------------------------------------------------------------

/// The segments to remove before a session starts.
///
/// A crashed session leaves its shared memory in place, and attaching to a stale
/// segment would resurrect its contents -- including, in the worst case, a
/// non-zero force-feedback command.
pub fn clear_stale_segments() -> (names: Vec<&'static str>)
    ensures
        names@.len() == 3,
        names@[0]@ == "bobdil_driver_input"@,
        names@[1]@ == "bobdil_vehicle_state"@,
        names@[2]@ == "bobdil_ffb_command"@,
{
    let mut names: Vec<&'static str> = Vec::new();
    names.push(DriverInput::shm_name());
    names.push(VehicleState::shm_name());
    names.push(FfbCommand::shm_name());
    names
}

/// The configured step is more than the plant is stable at.
pub open spec fn too_coarse<F: Fn(Operation) -> Scalar>(
    unit: &F,
    step_dt: Scalar,
    max_stable_dt: Scalar,
) -> bool {
    is_less(plus(unit, max_stable_dt, STABILITY_SLACK), step_dt)
}

/// Refuse a step the plant is not stable at.
pub fn check_step<F: Fn(Operation) -> Scalar, P: Fn(Scalar, usize) -> String>(
    unit: &F,
    print: &P,
    step_dt: Scalar,
    caps: &KernelCaps,
) -> (verdict: Result<(), String>)
    requires
        arith::functional(*unit),
        text::prints(*print),
    ensures
        match verdict {
            Ok(_) => !too_coarse(unit, step_dt, caps.max_stable_dt),
            Err(why) => too_coarse(unit, step_dt, caps.max_stable_dt) && why@
                == "configured step of "@ + text::printed(
                *print,
                times(unit, step_dt, THOUSAND),
                3,
            ) + " ms exceeds what "@ + caps.name@ + " is stable at ("@ + text::printed(
                *print,
                times(unit, caps.max_stable_dt, THOUSAND),
                3,
            )
                + " ms). A plant integrated past its stability limit produces a plausible-looking divergence the driver would feel as vagueness, which is worse than refusing to run."@,
        },
{
    if is_less(plus(unit, caps.max_stable_dt, STABILITY_SLACK), step_dt) {
        let mut why: String = "configured step of ".to_owned();
        why.append(print(times(unit, step_dt, THOUSAND), 3).as_str());
        why.append(" ms exceeds what ");
        why.append(caps.name.as_str());
        why.append(" is stable at (");
        why.append(print(times(unit, caps.max_stable_dt, THOUSAND), 3).as_str());
        why.append(
            " ms). A plant integrated past its stability limit produces a plausible-looking divergence the driver would feel as vagueness, which is worse than refusing to run.",
        );
        Err(why)
    } else {
        Ok(())
    }
}

/// How a session's plant starts.
pub fn initial_conditions(config: &KernelConfig) -> (init: InitialConditions)
    ensures
        init == (InitialConditions { speed: config.initial_speed, steering_angle: ZERO }),
{
    InitialConditions { speed: config.initial_speed, steering_angle: ZERO }
}

/// How many steps a session of this length takes.
pub fn total_steps<F: Fn(Operation) -> Scalar>(
    unit: &F,
    duration_s: &Option<Scalar>,
    dt: Scalar,
) -> (steps: Option<u64>)
    requires
        arith::functional(*unit),
    ensures
        steps == match *duration_s {
            Some(seconds) => Some(round_to_count(over(unit, seconds, dt))),
            None => None,
        },
{
    match duration_s {
        Some(seconds) => Some(round_to_count(over(unit, *seconds, dt))),
        None => None,
    }
}

/// The device thread spins half as long as the step thread.
pub fn hid_config(config: &KernelConfig) -> (hid: HidConfig)
    ensures
        hid == (HidConfig { spin_ns: config.spin_ns / 2, ..HidConfig::standard() }),
{
    let mut hid: HidConfig = HidConfig::default();
    hid.spin_ns = config.spin_ns / 2;
    hid
}

/// How the session's feedback is conditioned.
pub open spec fn feedback(config: KernelConfig) -> FfbConfig {
    FfbConfig {
        gain: config.ffb_gain,
        torque_limit_nm: config.ffb_torque_limit,
        watchdog: WatchdogConfig {
            miss_limit: config.watchdog_miss_limit,
            ..WatchdogConfig::standard()
        },
        ..FfbConfig::standard()
    }
}

pub fn ffb_config(config: &KernelConfig) -> (ffb: FfbConfig)
    ensures
        ffb == feedback(*config),
{
    let mut ffb: FfbConfig = FfbConfig::default();
    ffb.gain = config.ffb_gain;
    ffb.torque_limit_nm = config.ffb_torque_limit;
    ffb.watchdog.miss_limit = config.watchdog_miss_limit;
    ffb
}

/// What the session's recording is of.
pub fn session_meta(config: &KernelConfig, kernel_id: u64, vehicle_hash: u64) -> (meta:
    SessionMeta)
    requires
        config.method.cost() * config.substeps <= u64::MAX,
    ensures
        meta == (SessionMeta {
            step_dt: config.step_dt,
            kernel_id,
            evaluations_per_step: (config.method.cost() * config.substeps) as u64,
            vehicle_hash,
            build_hash: 0,
        }),
{
    let evaluations: u64 = config.method.evaluations() as u64;
    assert(evaluations * config.substeps == config.method.cost() * config.substeps);
    SessionMeta {
        step_dt: config.step_dt,
        kernel_id,
        evaluations_per_step: evaluations * (config.substeps as u64),
        vehicle_hash,
        build_hash: 0,
    }
}

/// What the session's trace is of.
pub fn trace_meta(config: &KernelConfig, kernel_id: u64) -> (meta: TraceMeta)
    ensures
        meta == (TraceMeta { step_dt: config.step_dt, kernel_id, build_hash: 0 }),
{
    TraceMeta { step_dt: config.step_dt, kernel_id, build_hash: 0 }
}

/// The scripted driver: what a session with no hardware is driven by.
pub open spec fn scripted<F: Fn(Operation) -> Scalar>(unit: &F, index: u64, now: u64) -> RawInput {
    let command = ladder::driven(unit, times(unit, from_count(unit, index), MILLI));
    RawInput {
        steer: clamp(
            over(unit, command.steering_angle_command, SCRIPT_LOCK),
            MINUS_ONE,
            ONE,
        ),
        accelerator: command.accelerator_pedal_command,
        brake: command.brake_pedal_command,
        buttons: 0,
        host_time_ns: now,
    }
}

pub fn script<F: Fn(Operation) -> Scalar>(unit: &F, index: u64, now: u64) -> (raw: RawInput)
    requires
        arith::functional(*unit),
    ensures
        raw == scripted(unit, index, now),
{
    proof {
        crate::io::device::lemma_unit_interval();
    }
    let command: DriverInput = maneuver(unit, times(unit, from_count(unit, index), MILLI));
    RawInput {
        steer: clamp(
            over(unit, command.steering_angle_command, SCRIPT_LOCK),
            MINUS_ONE,
            ONE,
        ),
        accelerator: command.accelerator_pedal_command,
        brake: command.brake_pedal_command,
        buttons: 0,
        host_time_ns: now,
    }
}

// --- the loop -------------------------------------------------------------------------------

/// What a stamp adds to the log: a look at the clock when tracing is on, and
/// nothing otherwise.
pub open spec fn mark(enabled: bool, at: u64) -> Seq<Event> {
    if enabled {
        seq![Event::Looked(at)]
    } else {
        seq![]
    }
}

/// One span stamp, taken only when tracing is on.
fn stamp<K: PlantKernel, C: Fn() -> u64>(enabled: bool, core: &mut Timed<K, C>) -> (at: u64)
    requires
        old(core).sound(),
    ensures
        final(core).sound(),
        final(core).machine() == old(core).machine(),
        final(core).time() == old(core).time(),
        final(core).log() == old(core).log() + mark(enabled, at),
        enabled ==> call_ensures(old(core).time(), (), at),
        !enabled ==> at == 0,
{
    if enabled {
        let at: u64 = core.now();
        assert(core.log() =~= old(core).log() + mark(enabled, at));
        at
    } else {
        assert(core.log() =~= old(core).log() + mark(enabled, 0));
        0
    }
}

/// Looks at the clock that the clock gave, around a step of the plant, are vouched
/// for.
proof fn lemma_vouched_after<K: PlantKernel, C: Fn() -> u64>(
    core: Timed<K, C>,
    past: Seq<Event>,
    events: Seq<Event>,
    tracing: bool,
    shaped: u64,
    stepped: u64,
    now: u64,
    settled: u64,
)
    requires
        core.log() == past + events,
        events == mark(tracing, shaped) + seq![Event::Stepped] + mark(tracing, stepped) + seq![
            Event::Looked(now),
        ] + mark(tracing, settled) || events == mark(tracing, shaped) + seq![
            Event::Stepped,
            Event::Looked(now),
        ],
        call_ensures(core.time(), (), now),
        tracing ==> call_ensures(core.time(), (), shaped),
        tracing ==> call_ensures(core.time(), (), stepped),
        tracing ==> call_ensures(core.time(), (), settled),
    ensures
        core.vouches_from(past.len() as int),
{
    assert forall|k: int| past.len() <= k < core.log().len() implies core.vouches(
        #[trigger] core.log()[k],
    ) by {
        assert(core.log()[k] == events[k - past.len()]);
    }
}

/// Everything the step thread carries from one step to the next.
pub struct StepLoop {
    pub shaper: SteerShaper,
    pub chain: FfbChain,
    pub histogram: StepTimeHistogram,
    pub rtf: RealtimeFactor,
    pub pose: Pose,
    pub dt: Scalar,
    pub step_ns: u64,
    pub policy: OverrunPolicy,
    pub kernel_id: u64,
    pub total_steps: Option<u64>,
    pub sim_time: Scalar,
    pub step_index: u64,
    /// The end of the slot the next step has.
    pub deadline: u64,
    pub deadline_misses: u64,
    pub reanchors: u64,
    pub faults: u64,
    pub plant_error: Option<String>,
}

/// What a step gave.
#[derive(Clone, Copy, Debug)]
pub enum Advanced {
    /// A frame and a torque, both to be published, and the spans so far.
    Frame { state: VehicleState, command: FfbCommand, span: TraceStep },
    /// The plant failed. Publish this before leaving, so the wheel is slack the
    /// instant the plant is known to be bad.
    Failed { command: FfbCommand },
}

/// What to do once a step is done.
#[derive(Clone, Copy, PartialEq, Eq, Structural, Debug)]
pub enum Pace {
    /// Wait for this.
    Until { deadline: u64 },
    /// Late: carry on at once.
    Late,
}

impl StepLoop {
    pub fn new<F: Fn(Operation) -> Scalar>(
        unit: &F,
        config: &KernelConfig,
        kernel_id: u64,
        wall_start: u64,
    ) -> (session: Self)
        requires
            arith::functional(*unit),
            wall_start + config.period(unit) <= u64::MAX,
        ensures
            session.shaper == (SteerShaper {
                config: ShaperConfig::standard(),
                angle: ZERO,
                rate: ZERO,
            }),
            session.chain == FfbChain::fresh(feedback(*config)),
            session.histogram.well_formed(),
            session.histogram.samples() == Seq::<u64>::empty(),
            session.histogram.width() == HISTOGRAM_BUCKET_NS,
            session.histogram.depth() == HISTOGRAM_RANGE_NS as int / HISTOGRAM_BUCKET_NS as int,
            session.rtf == (RealtimeFactor {
                window_ns: RTF_WINDOW_NS,
                window_start_ns: wall_start,
                sim_at_window_start: ZERO,
                current: ONE,
            }),
            session.pose == Pose::origin(),
            session.dt == config.step_dt,
            session.step_ns == config.period(unit),
            session.policy == config.overrun_policy,
            session.kernel_id == kernel_id,
            session.total_steps == match config.duration_s {
                Some(seconds) => Some(round_to_count(over(unit, seconds, config.step_dt))),
                None => None,
            },
            session.sim_time == ZERO,
            session.step_index == 0,
            session.deadline == wall_start + config.period(unit),
            session.deadline_misses == 0,
            session.reanchors == 0,
            session.faults == 0,
            session.plant_error is None,
    {
        let step_ns: u64 = config.step_ns(unit);
        let mut rtf: RealtimeFactor = RealtimeFactor::new(RTF_WINDOW_NS);
        rtf.start(wall_start, ZERO);
        StepLoop {
            shaper: SteerShaper::new(ShaperConfig::default()),
            chain: FfbChain::new(ffb_config(config)),
            histogram: StepTimeHistogram::new(HISTOGRAM_RANGE_NS, HISTOGRAM_BUCKET_NS),
            rtf,
            pose: Pose::default(),
            dt: config.step_dt,
            step_ns,
            policy: config.overrun_policy,
            kernel_id,
            total_steps: total_steps(unit, &config.duration_s, config.step_dt),
            sim_time: ZERO,
            step_index: 0,
            deadline: wall_start + step_ns,
            deadline_misses: 0,
            reanchors: 0,
            faults: 0,
            plant_error: None,
        }
    }

    /// The session is over: it was told to stop, or it has taken all its steps.
    pub fn finished(&self, stop: bool) -> (answer: bool)
        ensures
            answer == (stop || (self.total_steps matches Some(limit) && self.step_index >= limit)),
    {
        if stop {
            return true;
        }
        match self.total_steps {
            Some(limit) => self.step_index >= limit,
            None => false,
        }
    }

    /// The shaper as a step finds it. The first step of a session finds it where
    /// the wheel is, so that the plant does not see a step from zero to wherever
    /// the wheel is actually sitting.
    pub open spec fn poised(self, steering: Scalar) -> SteerShaper {
        if self.step_index == 0 {
            SteerShaper { config: self.shaper.config, angle: steering, rate: ZERO }
        } else {
            self.shaper
        }
    }

    /// What the plant is given: the newest input, or none, with the steering
    /// shaped.
    pub open spec fn given<F: Fn(Operation) -> Scalar>(
        self,
        unit: &F,
        input: Option<DriverInput>,
    ) -> DriverInput {
        let newest = match input {
            Some(found) => found,
            None => DriverInput::zero(),
        };
        DriverInput {
            steering_angle_command: self.poised(newest.steering_angle_command).shaped(
                unit,
                newest.steering_angle_command,
                self.dt,
            ).angle,
            ..newest
        }
    }

    /// The shaper after a step.
    pub open spec fn shaper_after<F: Fn(Operation) -> Scalar>(
        self,
        unit: &F,
        input: Option<DriverInput>,
    ) -> SteerShaper {
        let steering = match input {
            Some(found) => found,
            None => DriverInput::zero(),
        }.steering_angle_command;
        let shaped = self.poised(steering).shaped(unit, steering, self.dt);
        SteerShaper { config: self.shaper.config, angle: shaped.angle, rate: shaped.rate }
    }

    /// The faults once it is known whether there was an input.
    pub open spec fn faults_with(self, input: Option<DriverInput>) -> u64 {
        if input is None {
            self.faults | fault_flags::INPUT_STALE
        } else {
            self.faults
        }
    }

    /// The faults once the whole step is in.
    pub open spec fn faults_after(
        self,
        input: Option<DriverInput>,
        deadline_met: bool,
        outcome: FfbOutcome,
    ) -> u64 {
        flagged(self.faults_with(input), deadline_met, outcome)
    }

    /// The frame to publish: the plant's, with the pose and the health fields
    /// filled in.
    pub open spec fn filled<F: Fn(Operation) -> Scalar>(
        self,
        unit: &F,
        state: VehicleState,
        torque: Scalar,
        now: u64,
        started: u64,
        p99_ns: u64,
    ) -> VehicleState {
        VehicleState {
            host_time_ns: now,
            ffb_torque_nm: torque,
            kernel_id: self.kernel_id,
            deadline_misses: self.deadline_misses,
            fault_flags: self.faults,
            rtf: self.rtf.current,
            step_time_us: over(
                unit,
                from_count(
                    unit,
                    if now >= started {
                        (now - started) as u64
                    } else {
                        0
                    },
                ),
                THOUSAND,
            ),
            step_time_p99_us: over(unit, from_count(unit, p99_ns), THOUSAND),
            ..self.pose.placed(state)
        }
    }

    /// The counters have room for one more step.
    pub open spec fn has_room(self) -> bool {
        &&& self.step_index < u64::MAX
        &&& self.deadline_misses < u64::MAX
        &&& self.reanchors < u64::MAX
        &&& self.chain.countable()
        &&& self.histogram.samples().len() < u64::MAX
    }

    /// `after` is this loop with nothing settled that a step leaves alone.
    pub open spec fn same_session(self, after: Self) -> bool {
        &&& after.dt == self.dt
        &&& after.step_ns == self.step_ns
        &&& after.policy == self.policy
        &&& after.kernel_id == self.kernel_id
        &&& after.total_steps == self.total_steps
    }

    /// What one step makes of the loop and of the plant: from `self` and `machine`,
    /// with the input that was read, to `after` and `later`, and what it added to
    /// the log on the way. The deadline is judged by a look at the clock after the
    /// plant has stepped.
    pub open spec fn advances<
        K: PlantKernel,
        F: Fn(Operation) -> Scalar,
        P: Fn(Scalar, usize) -> String,
    >(
        self,
        after: Self,
        machine: K::Machine,
        later: K::Machine,
        unit: &F,
        print: &P,
        input: Option<DriverInput>,
        started: u64,
        read: u64,
        tracing: bool,
        result: Advanced,
        events: Seq<Event>,
    ) -> bool {
        &&& later == K::advanced(
            machine,
            self.given(unit, input),
            self.dt,
        ).0
        &&& self.same_session(after)
        &&& after.shaper == self.shaper_after(unit, input)
        &&& after.histogram == self.histogram
        &&& after.deadline == self.deadline
        &&& after.reanchors == self.reanchors
        // Faults only ever accumulate.
        &&& after.faults & self.faults == self.faults
        &&& match result {
            Advanced::Failed { command } => {
                &&& K::advanced(
                    machine,
                    self.given(unit, input),
                    self.dt,
                ).1 is None
                &&& command == ffb::inert(command.host_time_ns, ffb_flags::DISABLED)
                &&& exists|shaped: u64|
                    #![trigger mark(tracing, shaped)]
                    events == mark(tracing, shaped) + seq![
                        Event::Stepped,
                        Event::Looked(command.host_time_ns),
                    ]
                &&& after.step_index == self.step_index
                &&& after.sim_time == self.sim_time
                &&& after.pose == self.pose
                &&& after.chain == self.chain
                &&& after.rtf == self.rtf
                &&& after.deadline_misses == self.deadline_misses
                &&& ({
                    let fault = K::step_fault(machine, self.given(unit, input), self.dt);
                    &&& after.faults == self.faults_with(input) | blame(fault)
                    &&& after.plant_error matches Some(why) && why@ == fault.explained(*print)
                })
            },
            Advanced::Frame { state, command, span } => {
                let now = state.host_time_ns;
                let dt = self.dt;
                let met = now <= self.deadline;
                let given = K::advanced(
                    machine,
                    self.given(unit, input),
                    dt,
                ).1;
                let outcome = self.chain.outcome(unit, given->0, dt, now, met);
                &&& given is Some
                &&& events == mark(tracing, span.t_after_shape) + seq![Event::Stepped] + mark(
                    tracing,
                    span.t_after_plant,
                ) + seq![Event::Looked(now)] + mark(tracing, span.t_after_ffb)
                &&& after.step_index == self.step_index + 1
                &&& after.sim_time == plus(unit, self.sim_time, dt)
                &&& after.pose == self.pose.advanced(unit, given->0, dt)
                &&& after.chain == self.chain.conditioned(unit, given->0, dt, met)
                &&& after.rtf == self.rtf.updated(unit, now, after.sim_time)
                &&& after.deadline_misses == self.deadline_misses + if met {
                    0int
                } else {
                    1int
                }
                &&& after.faults == self.faults_after(input, met, outcome)
                &&& after.plant_error == self.plant_error
                &&& command == outcome.command
                &&& exists|p99: u64| #[trigger]
                    self.histogram.is_percentile(unit, P99, p99) && state
                        == after.filled(
                        unit,
                        given->0,
                        command.torque_nm,
                        now,
                        started,
                        p99,
                    )
                &&& span.step_index == after.step_index
                &&& span.input_host_time_ns == self.given(unit, input).host_time_ns
                &&& span.input_sample_index == self.given(unit, input).sample_index
                &&& span.t_step_start == started
                &&& span.t_after_read == read
                &&& span.t_command_stamp == now
                &&& !tracing ==> span.t_after_shape == 0 && span.t_after_plant == 0
                    && span.t_after_ffb == 0
                &&& span.t_after_publish == 0
            },
        }
    }

    /// Judge a step against its deadline, and condition its torque. The answer feeds
    /// the feedback watchdog: a loop that is not keeping up must not keep pushing
    /// torque as though nothing is wrong.
    fn judge<F: Fn(Operation) -> Scalar>(
        &mut self,
        unit: &F,
        state: &VehicleState,
        now: u64,
    ) -> (outcome: FfbOutcome)
        requires
            arith::functional(*unit),
            old(self).deadline_misses < u64::MAX,
            old(self).chain.countable(),
            old(self).chain.config.slews(unit, old(self).dt),
        ensures
            ({
                let met = now <= old(self).deadline;
                &&& outcome == old(self).chain.outcome(unit, *state, old(self).dt, now, met)
                &&& *final(self) == (StepLoop {
                    chain: old(self).chain.conditioned(unit, *state, old(self).dt, met),
                    deadline_misses: (old(self).deadline_misses + if met {
                        0int
                    } else {
                        1int
                    }) as u64,
                    faults: flagged(old(self).faults, met, outcome),
                    ..*old(self)
                })
            }),
            final(self).faults & old(self).faults == old(self).faults,
    {
        let ghost before = self.faults;
        assert(before & before == before) by (bit_vector);
        let deadline_met: bool = now <= self.deadline;
        if !deadline_met {
            self.deadline_misses += 1;
            proof {
                lemma_faults_chain(before, self.faults, fault_flags::DEADLINE_MISSED);
            }
            self.faults = self.faults | fault_flags::DEADLINE_MISSED;
        }
        let outcome: FfbOutcome = self.chain.condition(unit, state, self.dt, now, deadline_met);
        if outcome.clamped {
            proof {
                lemma_faults_chain(before, self.faults, fault_flags::FFB_CLAMPED);
            }
            self.faults = self.faults | fault_flags::FFB_CLAMPED;
        }
        if outcome.nonfinite {
            proof {
                lemma_faults_chain(before, self.faults, fault_flags::PLANT_NONFINITE);
            }
            self.faults = self.faults | fault_flags::PLANT_NONFINITE;
        }
        outcome
    }

    /// Fill in the pose and the health fields of the frame to publish.
    fn fill<F: Fn(Operation) -> Scalar>(
        &mut self,
        unit: &F,
        state: &mut VehicleState,
        torque: Scalar,
        now: u64,
        started: u64,
    )
        requires
            arith::functional(*unit),
            old(self).histogram.well_formed(),
        ensures
            *final(self) == (StepLoop {
                rtf: old(self).rtf.updated(unit, now, old(self).sim_time),
                ..*old(self)
            }),
            exists|p99: u64| #[trigger]
                old(self).histogram.is_percentile(unit, P99, p99) && *final(state)
                    == final(self).filled(unit, *old(state), torque, now, started, p99),
    {
        let ghost given = *state;
        let p99: u64 = self.histogram.percentile_ns(unit, P99);
        state.host_time_ns = now;
        self.pose.apply(state);
        state.ffb_torque_nm = torque;
        state.kernel_id = self.kernel_id;
        state.deadline_misses = self.deadline_misses;
        state.fault_flags = self.faults;
        state.rtf = self.rtf.update(unit, now, self.sim_time);
        state.step_time_us = over(unit, from_count(unit, now.saturating_sub(started)), THOUSAND);
        state.step_time_p99_us = over(unit, from_count(unit, p99), THOUSAND);
        assert(old(self).histogram.is_percentile(unit, P99, p99));
        assert(*state == self.filled(unit, given, torque, now, started, p99));
    }

    /// One step, from the input that was read to what is to be published.
    ///
    /// `started` is when the step began and `read` when the input was in hand,
    /// as far as anybody asked.
    #[verifier::rlimit(60)]
    pub fn advance<
        K: PlantKernel,
        F: Fn(Operation) -> Scalar,
        C: Fn() -> u64,
        P: Fn(Scalar, usize) -> String,
    >(
        &mut self,
        core: &mut Timed<K, C>,
        unit: &F,
        print: &P,
        input: &Option<DriverInput>,
        started: u64,
        read: u64,
        tracing: bool,
    ) -> (result: Advanced)
        requires
            arith::functional(*unit),
            text::prints(*print),
            old(core).sound(),
            K::lasts(old(core).machine(), 1),
            old(self).has_room(),
            old(self).histogram.well_formed(),
            old(self).chain.config.slews(unit, old(self).dt),
        ensures
            final(core).sound(),
            final(core).time() == old(core).time(),
            final(core).log().len() >= old(core).log().len(),
            final(core).log().take(old(core).log().len() as int) == old(core).log(),
            final(core).vouches_from(old(core).log().len() as int),
            old(self).advances::<K, F, P>(
                *final(self),
                old(core).machine(),
                final(core).machine(),
                unit,
                print,
                *input,
                started,
                read,
                tracing,
                result,
                final(core).log().skip(old(core).log().len() as int),
            ),
    {
        let ghost before = self.faults;
        let ghost past = core.log();
        let ghost start = past.len() as int;
        // 1. The newest driver input.
        let mut fed: DriverInput = match input {
            Some(found) => *found,
            None => {
                proof {
                    lemma_faults_only_add(before, fault_flags::INPUT_STALE);
                }
                self.faults = self.faults | fault_flags::INPUT_STALE;
                DriverInput::default()
            },
        };
        assert(before & before == before) by (bit_vector);
        let ghost read_faults = self.faults;
        assert(read_faults & before == before);

        // 2. Shape the steering position so the plant sees an angle, a rate and
        //    an acceleration that are actually derivatives of one another. A
        //    session starts where the wheel is.
        if self.step_index == 0 {
            self.shaper.reset(fed.steering_angle_command);
        }
        let shaped: ShapedSteer = self.shaper.update(unit, fed.steering_angle_command, self.dt);
        fed.steering_angle_command = shaped.angle;
        let t_after_shape: u64 = stamp(tracing, core);

        // 3. Advance the plant by exactly dt.
        let mut state: VehicleState = match core.step(&fed, self.dt) {
            Ok(state) => state,
            Err(error) => {
                let bits: u64 = plant_fault(&error);
                proof {
                    lemma_faults_chain(before, read_faults, bits);
                }
                self.faults = self.faults | bits;
                self.plant_error = Some(error.message(print));
                let command: FfbCommand = self.chain.silent(core.now());
                proof {
                    let events = mark(tracing, t_after_shape) + seq![
                        Event::Stepped,
                        Event::Looked(command.host_time_ns),
                    ];
                    assert(core.log() =~= past + events);
                    assert(core.log().skip(start) =~= events);
                    assert(core.log().take(start) =~= past);
                    assert(core.vouches_from(start)) by {
                        let now = command.host_time_ns;
                        let shaped = t_after_shape;
                        lemma_vouched_after(
                            *core,
                            past,
                            events,
                            tracing,
                            shaped,
                            shaped,
                            now,
                            shaped,
                        );
                    }
                }
                return Advanced::Failed { command };
            },
        };
        let ghost given = state;
        let t_after_plant: u64 = stamp(tracing, core);
        self.sim_time = plus(unit, self.sim_time, self.dt);
        self.step_index += 1;

        // 4. Pose. Replay uses the same `Pose`, so a paired A/B can never show a
        //    trajectory difference that came from the integrator.
        self.pose.advance(unit, &state, self.dt);

        // 5. Did this step meet its deadline?
        let now: u64 = core.now();
        let outcome: FfbOutcome = self.judge(unit, &state, now);
        proof {
            lemma_faults_carry(before, read_faults, self.faults);
        }
        let t_after_ffb: u64 = stamp(tracing, core);

        // 6. Fill in the health fields.
        self.fill(unit, &mut state, outcome.command.torque_nm, now, started);
        let span: TraceStep = TraceStep {
            step_index: self.step_index,
            input_host_time_ns: fed.host_time_ns,
            input_sample_index: fed.sample_index,
            t_step_start: started,
            t_after_read: read,
            t_after_shape,
            t_after_plant,
            t_command_stamp: now,
            t_after_ffb,
            t_after_publish: 0,
        };
        proof {
            let events = mark(tracing, t_after_shape) + seq![Event::Stepped] + mark(
                tracing,
                t_after_plant,
            ) + seq![Event::Looked(now)] + mark(tracing, t_after_ffb);
            assert(core.log() =~= past + events);
            assert(core.log().skip(start) =~= events);
            assert(core.log().take(start) =~= past);
            assert(core.vouches_from(start)) by {
                lemma_vouched_after(
                    *core,
                    past,
                    events,
                    tracing,
                    t_after_shape,
                    t_after_plant,
                    now,
                    t_after_ffb,
                );
            }
        }
        Advanced::Frame { state, command: outcome.command, span }
    }

    /// A telemetry push was rejected: a recorded fault, never a silent drop.
    pub fn telemetry_overflowed(&mut self)
        ensures
            final(self).faults == old(self).faults | fault_flags::TELEMETRY_OVERFLOW,
            final(self).faults & old(self).faults == old(self).faults,
            *final(self) == (StepLoop { faults: final(self).faults, ..*old(self) }),
    {
        proof {
            lemma_faults_only_add(self.faults, fault_flags::TELEMETRY_OVERFLOW);
        }
        self.faults = self.faults | fault_flags::TELEMETRY_OVERFLOW;
    }

    /// What closing a step makes of the loop, and what is to be done until the
    /// next one.
    pub open spec fn paces(self, after: Self, started: u64, ended: u64, now: u64, pace: Pace) -> bool {
        &&& after.histogram.width() == self.histogram.width()
        &&& after.histogram.depth() == self.histogram.depth()
        &&& after.histogram.samples() == self.histogram.samples().push(
            if ended >= started {
                (ended - started) as u64
            } else {
                0
            },
        )
        &&& pace == if now > self.deadline {
            Pace::Late
        } else {
            Pace::Until { deadline: self.deadline }
        }
        &&& ({
            let reanchored = now > self.deadline && self.policy
                == OverrunPolicy::DegradeAndReport;
            &&& after.deadline == if reanchored {
                now + self.step_ns
            } else {
                self.deadline + self.step_ns
            }
            &&& after.reanchors == self.reanchors + if reanchored {
                1int
            } else {
                0int
            }
        })
        // No burst: the next slot never ends sooner than a whole step on.
        &&& self.policy == OverrunPolicy::DegradeAndReport ==> after.deadline >= now
            + self.step_ns
        &&& self.same_session(after)
        &&& after.shaper == self.shaper
        &&& after.chain == self.chain
        &&& after.rtf == self.rtf
        &&& after.pose == self.pose
        &&& after.sim_time == self.sim_time
        &&& after.step_index == self.step_index
        &&& after.deadline_misses == self.deadline_misses
        &&& after.faults == self.faults
        &&& after.plant_error == self.plant_error
    }

    /// Close a step that took from `started` to `ended`, and say what to do
    /// until the next one.
    ///
    /// The deadline is the end of *this* step's slot, so the loop waits for it
    /// and only then advances. Advancing first and then sleeping would make every
    /// step be judged against a slot it had already spent, which reads as a 100%
    /// miss rate on a loop that is in fact comfortably on time.
    ///
    /// A late loop does not burst to catch up: running several steps back to back
    /// spikes the feedback and diverges from wall clock. It re-anchors and reports
    /// instead.
    pub fn pace(&mut self, started: u64, ended: u64, now: u64) -> (pace: Pace)
        requires
            old(self).has_room(),
            old(self).histogram.well_formed(),
            old(self).deadline + old(self).step_ns <= u64::MAX,
            now + old(self).step_ns <= u64::MAX,
        ensures
            final(self).histogram.well_formed(),
            old(self).paces(*final(self), started, ended, now, pace),
    {
        let elapsed: u64 = ended.saturating_sub(started);
        self.histogram.record(elapsed);
        let due: u64 = self.deadline;
        if now > due {
            match self.policy {
                OverrunPolicy::DegradeAndReport => {
                    self.reanchors += 1;
                    self.deadline = now;
                },
                OverrunPolicy::Absorb => {},
            }
            self.deadline = self.deadline + self.step_ns;
            Pace::Late
        } else {
            self.deadline = self.deadline + self.step_ns;
            Pace::Until { deadline: due }
        }
    }
}

/// Simulated time `n` steps of `dt` after `start`.
pub open spec fn elapsed<F: Fn(Operation) -> Scalar>(
    unit: &F,
    start: Scalar,
    dt: Scalar,
    n: nat,
) -> Scalar
    decreases n,
{
    if n == 0 {
        start
    } else {
        plus(unit, elapsed(unit, start, dt, (n - 1) as nat), dt)
    }
}

/// What a session is run with.
pub struct Wires<F, P> {
    pub unit: F,
    pub print: P,
    pub tracing: bool,
}

/// Where a session stands between two steps, and what was done up to there.
pub struct Moment<M> {
    pub session: StepLoop,
    pub machine: M,
    pub log: Seq<Event>,
}

/// What came up in one turn of the loop.
pub struct Turn {
    pub started: u64,
    pub input: Option<DriverInput>,
    pub in_hand: u64,
    pub state: VehicleState,
    pub command: FfbCommand,
    pub span: TraceStep,
    /// The loop once the plant has stepped, and what was done in the step.
    pub advanced: StepLoop,
    pub events: Seq<Event>,
    pub published: u64,
    /// There was room for the frame.
    pub kept: bool,
    pub ended: u64,
    pub now: u64,
    pub pace: Pace,
}

impl Turn {
    /// The spans of the step, whole.
    pub open spec fn spans(self) -> TraceStep {
        TraceStep { t_after_publish: self.published, ..self.span }
    }

    /// What is done before the plant is stepped.
    pub open spec fn opening(self, tracing: bool) -> Seq<Event> {
        seq![Event::Asked(false), Event::Looked(self.started), Event::Read(self.input)] + mark(
            tracing,
            self.in_hand,
        )
    }

    /// What is done once the plant has stepped.
    pub open spec fn closing(self, tracing: bool) -> Seq<Event> {
        seq![Event::Published(self.state, self.command)] + mark(tracing, self.published) + (
        if tracing {
            seq![Event::Traced(self.spans())]
        } else {
            seq![]
        }) + seq![
            Event::Recorded(self.state, self.kept),
            Event::Looked(self.ended),
            Event::Looked(self.now),
        ] + match self.pace {
            Pace::Until { deadline } => seq![Event::Waited(deadline)],
            Pace::Late => seq![],
        }
    }

    /// Everything that is done in the turn, in order.
    pub open spec fn doings(self, tracing: bool) -> Seq<Event> {
        self.opening(tracing) + self.events + self.closing(tracing)
    }
}

impl<F: Fn(Operation) -> Scalar, P: Fn(Scalar, usize) -> String> Wires<F, P> {
    /// One turn of the loop: read, step, publish, trace, record, wait, and nothing
    /// else, in this order.
    pub open spec fn turns<K: PlantKernel>(
        self,
        before: Moment<K::Machine>,
        turn: Turn,
        after: Moment<K::Machine>,
    ) -> bool {
        &&& !before.session.complete()
        &&& after.log == before.log + turn.doings(self.tracing)
        &&& !self.tracing ==> turn.in_hand == 0 && turn.published == 0
        &&& before.session.advances::<K, F, P>(
            turn.advanced,
            before.machine,
            after.machine,
            &self.unit,
            &self.print,
            turn.input,
            turn.started,
            turn.in_hand,
            self.tracing,
            Advanced::Frame { state: turn.state, command: turn.command, span: turn.span },
            turn.events,
        )
        &&& turn.advanced.recorded(turn.kept).paces(
            after.session,
            turn.started,
            turn.ended,
            turn.now,
            turn.pace,
        )
    }

    /// `story` and `turns` tell what happened between two moments: each turn leads
    /// from one moment to the next.
    pub open spec fn tells<K: PlantKernel>(
        self,
        story: Seq<Moment<K::Machine>>,
        turns: Seq<Turn>,
    ) -> bool {
        &&& story.len() == turns.len() + 1
        &&& forall|i: int|
            0 <= i < turns.len() ==> #[trigger] self.turns::<K>(story[i], turns[i], story[i + 1])
    }

    /// How a run that had got to `last` comes to its end.
    pub open spec fn ends<K: PlantKernel>(
        self,
        last: Moment<K::Machine>,
        end: Moment<K::Machine>,
        more: bool,
    ) -> bool {
        if more {
            end == last
        } else {
            ||| self.stops::<K>(last, end, true)
            ||| self.stops::<K>(last, end, false)
            ||| self.fails::<K>(last, end)
        }
    }

    /// The session was told to stop, or has taken all its steps.
    pub open spec fn stops<K: PlantKernel>(
        self,
        last: Moment<K::Machine>,
        end: Moment<K::Machine>,
        told: bool,
    ) -> bool {
        &&& end.session == last.session
        &&& end.machine == last.machine
        &&& end.log == last.log.push(Event::Asked(told))
        &&& told || last.session.complete()
    }

    /// A run of at most `limit` turns led from one moment to the other.
    pub open spec fn ran<K: PlantKernel>(
        self,
        begin: Moment<K::Machine>,
        end: Moment<K::Machine>,
        limit: nat,
        more: bool,
    ) -> bool {
        exists|story: Seq<Moment<K::Machine>>, turns: Seq<Turn>|
            {
                &&& #[trigger] self.tells::<K>(story, turns)
                &&& story[0] == begin
                &&& turns.len() <= limit
                &&& more ==> turns.len() == limit
                &&& self.ends::<K>(story.last(), end, more)
            }
    }

    /// The plant fails, and the wheel is silenced.
    pub open spec fn fails<K: PlantKernel>(
        self,
        last: Moment<K::Machine>,
        end: Moment<K::Machine>,
    ) -> bool {
        exists|turn: Turn| #[trigger] self.fails_on::<K>(last, end, turn)
    }

    /// The plant fails on the input of a turn that is not finished, and the wheel
    /// is silenced with its command at once.
    pub open spec fn fails_on<K: PlantKernel>(
        self,
        last: Moment<K::Machine>,
        end: Moment<K::Machine>,
        turn: Turn,
    ) -> bool {
        &&& !last.session.complete()
        &&& end.log == last.log + turn.opening(self.tracing) + turn.events + seq![
            Event::Silenced(turn.command),
        ]
        &&& !self.tracing ==> turn.in_hand == 0
        &&& last.session.advances::<K, F, P>(
            end.session,
            last.machine,
            end.machine,
            &self.unit,
            &self.print,
            turn.input,
            turn.started,
            turn.in_hand,
            self.tracing,
            Advanced::Failed { command: turn.command },
            turn.events,
        )
    }
}

impl StepLoop {
    /// All the steps there were to take have been taken.
    pub open spec fn complete(self) -> bool {
        self.total_steps matches Some(limit) && self.step_index >= limit
    }

    /// The loop once it is known whether there was room for the frame.
    pub open spec fn recorded(self, kept: bool) -> Self {
        if kept {
            self
        } else {
            StepLoop { faults: self.faults | fault_flags::TELEMETRY_OVERFLOW, ..self }
        }
    }
}

impl StepLoop {
    /// The counters, the plant's and the clock's among them, are good for
    /// `steps` more steps.
    pub open spec fn good_for<C: Fn() -> u64>(self, clock: C, steps: int) -> bool {
        &&& self.step_index + steps < u64::MAX
        &&& self.deadline_misses + steps < u64::MAX
        &&& self.reanchors + steps < u64::MAX
        &&& self.chain.watchdog.trips + steps < u64::MAX
        &&& self.chain.clamp_events + steps < u64::MAX
        &&& self.chain.nonfinite_events + steps < u64::MAX
        &&& self.histogram.well_formed()
        &&& self.histogram.samples().len() + steps < u64::MAX
        &&& self.deadline + steps * self.step_ns <= u64::MAX
        &&& forall|now: u64| #[trigger]
            call_ensures(clock, (), now) ==> now + steps * self.step_ns <= u64::MAX
    }

    /// Run until the session is over, the plant fails, or `limit` steps have been
    /// taken, whichever comes first. The answer is whether there may be more to do.
    #[verifier::rlimit(80)]
    pub fn run<
        K: PlantKernel,
        F: Fn(Operation) -> Scalar,
        C: Fn() -> u64,
        P: Fn(Scalar, usize) -> String,
        I: Fn() -> Option<DriverInput>,
        W: Fn(VehicleState, FfbCommand),
        Q: Fn(FfbCommand),
        T: Fn(TraceStep),
        R: Fn(VehicleState) -> bool,
        S: Fn() -> bool,
        Z: Fn(u64),
    >(
        &mut self,
        rig: &mut Rig<K, C, I, W, Q, T, R, S, Z>,
        unit: &F,
        print: &P,
        tracing: bool,
        limit: u32,
    ) -> (more: bool)
        requires
            arith::functional(*unit),
            text::prints(*print),
            old(rig).core.sound(),
            old(rig).lines.open_all(),
            K::lasts(old(rig).core.machine(), limit as nat),
            old(self).good_for(old(rig).core.time(), limit as int),
            old(self).chain.config.slews(unit, old(self).dt),
        ensures
            final(rig).core.sound(),
            final(rig).core.time() == old(rig).core.time(),
            final(rig).lines == old(rig).lines,
            final(self).histogram.well_formed(),
            // Whatever was looked at, read and asked is what the rig gave, and
            // whatever was published, traced, recorded and waited for it took.
            final(rig).log().len() >= old(rig).log().len(),
            final(rig).log().take(old(rig).log().len() as int) == old(rig).log(),
            final(rig).vouches_from(old(rig).log().len() as int),
            // Every step is a whole turn of the loop, and the end is one of three.
            (Wires { unit: *unit, print: *print, tracing }).ran::<K>(
                Moment {
                    session: *old(self),
                    machine: old(rig).core.machine(),
                    log: old(rig).log(),
                },
                Moment {
                    session: *final(self),
                    machine: final(rig).core.machine(),
                    log: final(rig).log(),
                },
                limit as nat,
                more,
            ),
            // Simulated time advances by one step for every step taken, and by
            // nothing else.
            old(self).step_index <= final(self).step_index <= old(self).step_index + limit,
            final(self).sim_time == elapsed(
                unit,
                old(self).sim_time,
                old(self).dt,
                (final(self).step_index - old(self).step_index) as nat,
            ),
            final(self).faults & old(self).faults == old(self).faults,
            // It stops early only for a reason.
            final(self).step_index < old(self).step_index + limit ==> !more,
            !more ==> {
                ||| final(self).plant_error is Some
                ||| final(rig).log().last() == Event::Asked(true)
                ||| final(self).complete()
            },
    {
        let mut taken: u32 = 0;
        let ghost first = *self;
        let ghost begin = Moment {
            session: *self,
            machine: rig.core.machine(),
            log: rig.log(),
        };
        let ghost wires = Wires { unit: *unit, print: *print, tracing };
        let ghost mut story: Seq<Moment<K::Machine>> = seq![begin];
        let ghost mut turns: Seq<Turn> = seq![];
        assert(wires.tells::<K>(story, turns));
        assert(first.faults & first.faults == first.faults) by {
            lemma_faults_only_add(first.faults, 0);
            let faults = first.faults;
            assert(faults | 0 == faults) by (bit_vector);
        }
        while taken < limit
            invariant
                taken <= limit,
                first == *old(self),
                begin == (Moment {
                    session: first,
                    machine: old(rig).core.machine(),
                    log: old(rig).log(),
                }),
                wires == (Wires { unit: *unit, print: *print, tracing }),
                arith::functional(*unit),
                text::prints(*print),
                rig.core.sound(),
                rig.core.time() == old(rig).core.time(),
                rig.lines == old(rig).lines,
                rig.lines.open_all(),
                rig.log().len() >= old(rig).log().len(),
                rig.log().take(old(rig).log().len() as int) == old(rig).log(),
                rig.vouches_from(old(rig).log().len() as int),
                wires.tells::<K>(story, turns),
                turns.len() == taken,
                story[0] == begin,
                story.last() == (Moment {
                    session: *self,
                    machine: rig.core.machine(),
                    log: rig.log(),
                }),
                K::lasts(rig.core.machine(), (limit - taken) as nat),
                self.good_for(rig.core.time(), limit - taken),
                self.chain.config == first.chain.config,
                first.chain.config.slews(unit, first.dt),
                first.same_session(*self),
                self.step_index == first.step_index + taken,
                self.sim_time == elapsed(unit, first.sim_time, first.dt, taken as nat),
                self.faults & first.faults == first.faults,
            decreases limit - taken,
        {
            let ghost here = Moment {
                session: *self,
                machine: rig.core.machine(),
                log: rig.log(),
            };
            let told: bool = rig.asked();
            if self.finished(told) {
                proof {
                    let end = Moment {
                        session: *self,
                        machine: rig.core.machine(),
                        log: rig.log(),
                    };
                    assert(wires.stops::<K>(here, end, told));
                }
                return false;
            }
            let started: u64 = rig.core.now();
            let input: Option<DriverInput> = rig.input();
            let in_hand: u64 = stamp(tracing, &mut rig.core);
            let ghost before = *self;
            let ghost left = (limit - taken) as nat;
            let ghost opened = rig.log();
            let ghost start = old(rig).log().len() as int;
            let ghost ready = *rig;
            let ghost mut turn: Turn = Turn { started, input, in_hand, ..arbitrary() };
            proof {
                assert(opened =~= here.log + turn.opening(tracing));
                let fed = self.given(unit, input);
                K::lasting(
                    rig.core.machine(),
                    fed,
                    self.dt,
                    InitialConditions::rest(),
                    0,
                    ZERO,
                    left,
                );
                K::lasting_less(rig.core.machine(), left, 1);
            }
            match self.advance(&mut rig.core, unit, print, &input, started, in_hand, tracing) {
                Advanced::Failed { command } => {
                    let ghost failed = rig.log();
                    assert(rig.vouches_from(start)) by {
                        lemma_rig_vouches(ready, *rig, start);
                    }
                    rig.silence(command);
                    proof {
                        lemma_faults_carry(first.faults, before.faults, self.faults);
                        let end = Moment {
                            session: *self,
                            machine: rig.core.machine(),
                            log: rig.log(),
                        };
                        let events = failed.skip(opened.len() as int);
                        turn = Turn { command, events, ..turn };
                        assert(failed =~= opened + events);
                        assert(end.log =~= here.log + turn.opening(tracing) + turn.events + seq![
                            Event::Silenced(command),
                        ]);
                        assert(wires.fails_on::<K>(here, end, turn));
                    }
                    return false;
                },
                Advanced::Frame { state, command, span } => {
                    let ghost stepped = *self;
                    let ghost after = rig.log();
                    assert(rig.vouches_from(start)) by {
                        lemma_rig_vouches(ready, *rig, start);
                    }
                    rig.publish(state, command);
                    let mut spans: TraceStep = span;
                    spans.t_after_publish = stamp(tracing, &mut rig.core);
                    if tracing {
                        rig.trace(spans);
                    }
                    let ghost advanced = self.faults;
                    proof {
                        lemma_faults_carry(first.faults, before.faults, self.faults);
                    }
                    let kept: bool = rig.record(state);
                    if !kept {
                        self.telemetry_overflowed();
                        proof {
                            lemma_faults_carry(first.faults, advanced, self.faults);
                        }
                    }
                    proof {
                        let events = after.skip(opened.len() as int);
                        assert(after =~= opened + events);
                        turn = Turn {
                            state,
                            command,
                            span,
                            advanced: stepped,
                            events,
                            published: spans.t_after_publish,
                            kept,
                            ..turn
                        };
                        assert(turn.spans() == spans);
                    }
                },
            }
            let ended: u64 = rig.core.now();
            let now: u64 = rig.core.now();
            proof {
                let step_ns = self.step_ns as int;
                let left = limit - taken;
                assert(left * step_ns == step_ns + (left - 1) * step_ns && (left - 1) * step_ns
                    >= 0) by (nonlinear_arith)
                    requires
                        left >= 1,
                        step_ns >= 0,
                ;
            }
            let pace: Pace = self.pace(started, ended, now);
            match pace {
                Pace::Until { deadline } => rig.wait(deadline),
                Pace::Late => {},
            }
            proof {
                turn = Turn { ended, now, pace, ..turn };
                let next = Moment {
                    session: *self,
                    machine: rig.core.machine(),
                    log: rig.log(),
                };
                assert(turn.opening(tracing) =~= opened.skip(here.log.len() as int));
                assert(next.log =~= here.log + turn.doings(tracing));
                assert(wires.turns::<K>(here, turn, next));
                let longer = story.push(next);
                let told = turns.push(turn);
                assert forall|i: int| 0 <= i < told.len() implies #[trigger] wires.turns::<K>(
                    longer[i],
                    told[i],
                    longer[i + 1],
                ) by {
                    if i < turns.len() {
                        assert(wires.turns::<K>(story[i], turns[i], story[i + 1]));
                    }
                }
                story = longer;
                turns = told;
            }
            taken += 1;
            assert forall|at: u64| #[trigger] call_ensures(rig.core.time(), (), at) implies at
                + (limit - taken) * self.step_ns <= u64::MAX by {
                let step_ns = self.step_ns as int;
                let left = limit - taken;
                assert((left + 1) * step_ns == step_ns + left * step_ns) by (nonlinear_arith);
            }
        }
        true
    }
}

/// What was vouched for stays so when a step adds to the log.
proof fn lemma_rig_vouches<
    K: PlantKernel,
    C: Fn() -> u64,
    I: Fn() -> Option<DriverInput>,
    W: Fn(VehicleState, FfbCommand),
    Q: Fn(FfbCommand),
    T: Fn(TraceStep),
    R: Fn(VehicleState) -> bool,
    S: Fn() -> bool,
    Z: Fn(u64),
>(before: Rig<K, C, I, W, Q, T, R, S, Z>, after: Rig<K, C, I, W, Q, T, R, S, Z>, start: int)
    requires
        0 <= start <= before.log().len(),
        before.vouches_from(start),
        after.lines == before.lines,
        after.core.time() == before.core.time(),
        after.log().len() >= before.log().len(),
        after.log().take(before.log().len() as int) == before.log(),
        after.core.vouches_from(before.log().len() as int),
    ensures
        after.vouches_from(start),
{
    assert forall|k: int| start <= k < after.log().len() implies after.vouches(
        #[trigger] after.log()[k],
    ) by {
        if k < before.log().len() {
            assert(after.log().take(before.log().len() as int)[k] == after.log()[k]);
            assert(before.vouches(before.log()[k]));
        } else {
            assert(after.core.vouches(after.core.log()[k]));
        }
    }
}

proof fn lemma_faults_carry(first: u64, before: u64, after: u64)
    requires
        before & first == first,
        after & before == before,
    ensures
        after & first == first,
{
    assert(after & first == first) by (bit_vector)
        requires
            before & first == first,
            after & before == before,
    ;
}

proof fn lemma_faults_chain(before: u64, now: u64, bit: u64)
    requires
        now & before == before,
    ensures
        (now | bit) & before == before,
{
    assert((now | bit) & before == before) by (bit_vector)
        requires
            now & before == before,
    ;
}

// --- the report -----------------------------------------------------------------------------

/// What a session did, reported honestly whether or not it went well.
pub struct SessionReport {
    pub steps: u64,
    pub sim_time: Scalar,
    pub wall_time_s: Scalar,
    pub rt_status: RtStatus,
    pub device: DeviceCaps,
    pub histogram: StepTimeHistogram,
    pub deadline_misses: u64,
    /// Steps where the loop had fallen so far behind that it re-anchored the
    /// clock rather than bursting to catch up.
    pub reanchors: u64,
    pub fault_flags: u64,
    pub ffb_clamps: u64,
    pub watchdog_trips: u64,
    pub telemetry_frames: u64,
    pub telemetry_dropped: u64,
    /// Spans recorded. Zero unless tracing was on.
    pub trace_steps: u64,
    pub trace_dropped: u64,
    pub stale_commands: u64,
    pub ladder_report: String,
    pub plant_error: Option<String>,
}

/// The faults of a session once its telemetry is closed.
pub fn closing_faults(faults: u64, telemetry_dropped: u64) -> (all: u64)
    ensures
        all == if telemetry_dropped > 0 {
            faults | fault_flags::TELEMETRY_OVERFLOW
        } else {
            faults
        },
{
    if telemetry_dropped > 0 {
        faults | fault_flags::TELEMETRY_OVERFLOW
    } else {
        faults
    }
}

impl SessionReport {
    /// Cues the driver did not get.
    pub open spec fn missing_lines(self) -> Seq<Seq<char>> {
        if self.device.missing().len() > 0 {
            seq![
                "            NOT available: "@ + text::joined(self.device.missing(), ", "@)
                    + ". Do not attribute these to the car."@,
            ]
        } else {
            Seq::empty()
        }
    }

    /// What would harden the thread.
    pub open spec fn advice_lines<F: Fn(Operation) -> Scalar, P: Fn(Scalar, usize) -> String>(
        self,
        unit: &F,
        print: &P,
    ) -> Seq<Seq<char>> {
        Seq::new(
            self.rt_status.advised(unit, print).len(),
            |i: int| "            "@ + self.rt_status.advised(unit, print)[i],
        )
    }

    /// Simulated time over wall time.
    pub open spec fn factor<F: Fn(Operation) -> Scalar>(self, unit: &F) -> Scalar {
        if is_less(ZERO, self.wall_time_s) {
            over(unit, self.sim_time, self.wall_time_s)
        } else {
            ZERO
        }
    }

    pub open spec fn steps_line<F: Fn(Operation) -> Scalar, P: Fn(Scalar, usize) -> String>(
        self,
        unit: &F,
        print: &P,
    ) -> Seq<char> {
        "steps       "@ + text::decimal(self.steps as nat) + " over "@ + text::printed(
            *print,
            self.sim_time,
            2,
        ) + " s sim / "@ + text::printed(*print, self.wall_time_s, 2) + " s wall (rtf "@
            + text::printed(*print, self.factor(unit), 4) + ")"@
    }

    pub open spec fn deadlines_line<F: Fn(Operation) -> Scalar, P: Fn(Scalar, usize) -> String>(
        self,
        unit: &F,
        print: &P,
    ) -> Seq<char> {
        "deadlines   "@ + text::decimal(self.deadline_misses as nat) + " missed ("@ + text::printed(
            *print,
            over(
                unit,
                times(unit, HUNDRED, from_count(unit, self.deadline_misses)),
                from_count(
                    unit,
                    if self.steps > 1 {
                        self.steps
                    } else {
                        1
                    },
                ),
            ),
            4,
        ) + "%), "@ + text::decimal(self.reanchors as nat) + " re-anchors"@
    }

    pub open spec fn feedback_line(self) -> Seq<char> {
        "feedback    "@ + text::decimal(self.ffb_clamps as nat) + " clamped steps, "@
            + text::decimal(self.watchdog_trips as nat) + " watchdog trips, "@ + text::decimal(
            self.stale_commands as nat,
        ) + " stale commands at the device"@
    }

    /// What there is to say only if it happened.
    pub open spec fn trouble_lines(self) -> Seq<Seq<char>> {
        let telemetry = if self.telemetry_frames > 0 || self.telemetry_dropped > 0 {
            seq![
                "telemetry   "@ + text::decimal(self.telemetry_frames as nat)
                    + " frames written, "@ + text::decimal(self.telemetry_dropped as nat)
                    + " dropped"@,
            ]
        } else {
            Seq::empty()
        };
        let faults = if self.fault_flags != 0 {
            seq!["FAULTS      "@ + faults_described(self.fault_flags)]
        } else {
            Seq::empty()
        };
        let plant = match self.plant_error {
            Some(error) => seq!["PLANT ERROR "@ + error@],
            None => Seq::empty(),
        };
        telemetry + faults + plant
    }

    /// What the session ran, and on what.
    pub open spec fn heading_lines<P: Fn(Scalar, usize) -> String>(self, print: &P) -> Seq<
        Seq<char>,
    > {
        seq![
            ""@,
            "--- session report ---------------------------------------------"@,
            self.ladder_report@,
            "device      "@ + self.device.described(*print),
        ]
    }

    /// How it went, given the line on step times.
    pub open spec fn figure_lines<F: Fn(Operation) -> Scalar, P: Fn(Scalar, usize) -> String>(
        self,
        unit: &F,
        print: &P,
        summary: Seq<char>,
    ) -> Seq<Seq<char>> {
        seq![
            self.steps_line(unit, print),
            "step time   "@ + summary,
            self.deadlines_line(unit, print),
            self.feedback_line(),
        ]
    }

    /// Every line of the report, given the line on step times.
    pub open spec fn lines<F: Fn(Operation) -> Scalar, P: Fn(Scalar, usize) -> String>(
        self,
        unit: &F,
        print: &P,
        summary: Seq<char>,
    ) -> Seq<Seq<char>> {
        self.heading_lines(print) + self.missing_lines() + seq![
            "scheduling  "@ + self.rt_status.described(),
        ] + self.advice_lines(unit, print) + self.figure_lines(unit, print, summary)
            + self.trouble_lines() + seq![
            "----------------------------------------------------------------"@,
        ]
    }

    fn add_heading<P: Fn(Scalar, usize) -> String>(&self, print: &P, lines: &mut Vec<String>)
        requires
            text::prints(*print),
        ensures
            text::views(final(lines)@) == text::views(old(lines)@) + self.heading_lines(print),
    {
        add_line(lines, "".to_owned());
        add_line(
            lines,
            "--- session report ---------------------------------------------".to_owned(),
        );
        add_line(lines, self.ladder_report.as_str().to_owned());
        let mut device: String = "device      ".to_owned();
        device.append(self.device.describe(print).as_str());
        add_line(lines, device);
        assert(text::views(lines@) =~= text::views(old(lines)@) + self.heading_lines(print));
    }

    fn steps_text<F: Fn(Operation) -> Scalar, P: Fn(Scalar, usize) -> String>(
        &self,
        unit: &F,
        print: &P,
    ) -> (line: String)
        requires
            arith::functional(*unit),
            text::prints(*print),
        ensures
            line@ == self.steps_line(unit, print),
    {
        let mut line: String = "steps       ".to_owned();
        line.append(count_text(self.steps).as_str());
        line.append(" over ");
        line.append(print(self.sim_time, 2).as_str());
        line.append(" s sim / ");
        line.append(print(self.wall_time_s, 2).as_str());
        line.append(" s wall (rtf ");
        let factor: Scalar = if is_less(ZERO, self.wall_time_s) {
            over(unit, self.sim_time, self.wall_time_s)
        } else {
            ZERO
        };
        line.append(print(factor, 4).as_str());
        line.append(")");
        line
    }

    fn deadlines_text<F: Fn(Operation) -> Scalar, P: Fn(Scalar, usize) -> String>(
        &self,
        unit: &F,
        print: &P,
    ) -> (line: String)
        requires
            arith::functional(*unit),
            text::prints(*print),
        ensures
            line@ == self.deadlines_line(unit, print),
    {
        let mut line: String = "deadlines   ".to_owned();
        line.append(count_text(self.deadline_misses).as_str());
        line.append(" missed (");
        let counted: u64 = if self.steps > 1 {
            self.steps
        } else {
            1
        };
        let share: Scalar = over(
            unit,
            times(unit, HUNDRED, from_count(unit, self.deadline_misses)),
            from_count(unit, counted),
        );
        line.append(print(share, 4).as_str());
        line.append("%), ");
        line.append(count_text(self.reanchors).as_str());
        line.append(" re-anchors");
        line
    }

    fn feedback_text(&self) -> (line: String)
        ensures
            line@ == self.feedback_line(),
    {
        let mut line: String = "feedback    ".to_owned();
        line.append(count_text(self.ffb_clamps).as_str());
        line.append(" clamped steps, ");
        line.append(count_text(self.watchdog_trips).as_str());
        line.append(" watchdog trips, ");
        line.append(count_text(self.stale_commands).as_str());
        line.append(" stale commands at the device");
        line
    }

    fn add_missing(&self, lines: &mut Vec<String>)
        ensures
            text::views(final(lines)@) == text::views(old(lines)@) + self.missing_lines(),
    {
        if self.device.missing_cues().len() > 0 {
            let mut line: String = "            NOT available: ".to_owned();
            line.append(self.device.missing_text().as_str());
            line.append(". Do not attribute these to the car.");
            add_line(lines, line);
        }
        assert(text::views(lines@) =~= text::views(old(lines)@) + self.missing_lines());
    }

    fn add_advice<F: Fn(Operation) -> Scalar, P: Fn(Scalar, usize) -> String>(
        &self,
        unit: &F,
        print: &P,
        lines: &mut Vec<String>,
    )
        requires
            arith::functional(*unit),
            text::prints(*print),
        ensures
            text::views(final(lines)@) == text::views(old(lines)@) + self.advice_lines(
                unit,
                print,
            ),
    {
        let advice: Vec<String> = self.rt_status.advice(unit, print);
        let mut i: usize = 0;
        while i < advice.len()
            invariant
                i <= advice@.len(),
                text::views(advice@) == self.rt_status.advised(unit, print),
                text::views(lines@) =~= text::views(old(lines)@) + self.advice_lines(
                    unit,
                    print,
                ).take(i as int),
            decreases advice@.len() - i,
        {
            let mut line: String = "            ".to_owned();
            line.append(advice[i].as_str());
            assert(line@ == self.advice_lines(unit, print)[i as int]);
            add_line(lines, line);
            i += 1;
        }
        assert(text::views(advice@).len() == advice@.len());
        assert(self.advice_lines(unit, print).take(i as int) =~= self.advice_lines(unit, print));
    }

    fn add_trouble(&self, lines: &mut Vec<String>)
        ensures
            text::views(final(lines)@) == text::views(old(lines)@) + self.trouble_lines(),
    {
        if self.telemetry_frames > 0 || self.telemetry_dropped > 0 {
            let mut line: String = "telemetry   ".to_owned();
            line.append(count_text(self.telemetry_frames).as_str());
            line.append(" frames written, ");
            line.append(count_text(self.telemetry_dropped).as_str());
            line.append(" dropped");
            add_line(lines, line);
        }
        if self.fault_flags != 0 {
            let mut line: String = "FAULTS      ".to_owned();
            line.append(describe_faults(self.fault_flags).as_str());
            add_line(lines, line);
        }
        match &self.plant_error {
            Some(error) => {
                let mut line: String = "PLANT ERROR ".to_owned();
                line.append(error.as_str());
                add_line(lines, line);
            },
            None => {},
        }
        assert(text::views(lines@) =~= text::views(old(lines)@) + self.trouble_lines());
    }

    /// The whole report.
    pub fn print<F: Fn(Operation) -> Scalar, P: Fn(Scalar, usize) -> String>(
        &self,
        unit: &F,
        print: &P,
    ) -> (report: String)
        requires
            self.histogram.well_formed(),
            arith::functional(*unit),
            text::prints(*print),
        ensures
            exists|summary: Seq<char>| #[trigger]
                self.histogram.is_summary(unit, print, summary) && report@ == text::page(
                    self.lines(unit, print, summary),
                ),
    {
        let mut lines: Vec<String> = Vec::new();
        self.add_heading(print, &mut lines);
        self.add_missing(&mut lines);
        let mut scheduling: String = "scheduling  ".to_owned();
        scheduling.append(self.rt_status.describe().as_str());
        add_line(&mut lines, scheduling);
        self.add_advice(unit, print, &mut lines);
        let ghost above = text::views(lines@);
        add_line(&mut lines, self.steps_text(unit, print));
        let summary: String = self.histogram.summary_us(unit, print);
        let mut timing: String = "step time   ".to_owned();
        timing.append(summary.as_str());
        add_line(&mut lines, timing);
        add_line(&mut lines, self.deadlines_text(unit, print));
        add_line(&mut lines, self.feedback_text());
        proof {
            assert(text::views(Seq::<String>::empty()) =~= Seq::empty());
            assert(above =~= self.heading_lines(print) + self.missing_lines() + seq![
                "scheduling  "@ + self.rt_status.described(),
            ] + self.advice_lines(unit, print));
            assert(text::views(lines@) =~= above + self.figure_lines(unit, print, summary@));
        }
        self.add_trouble(&mut lines);
        add_line(
            &mut lines,
            "----------------------------------------------------------------".to_owned(),
        );
        assert(text::views(lines@) =~= self.lines(unit, print, summary@));
        page_text(&lines)
    }
}

// --- laws -----------------------------------------------------------------------------------

/// What a run leaves alone, moment by moment, and how it counts.
pub proof fn lemma_along_a_run<
    K: PlantKernel,
    F: Fn(Operation) -> Scalar,
    P: Fn(Scalar, usize) -> String,
>(
    wires: Wires<F, P>,
    story: Seq<Moment<K::Machine>>,
    turns: Seq<Turn>,
    n: int,
)
    requires
        wires.tells::<K>(story, turns),
        0 <= n <= turns.len(),
    ensures
        story[0].session.same_session(story[n].session),
        story[n].session.step_index == story[0].session.step_index + n,
        story[n].session.chain.config == story[0].session.chain.config,
    decreases n,
{
    if n > 0 {
        lemma_along_a_run::<K, F, P>(wires, story, turns, n - 1);
        assert(wires.turns::<K>(story[n - 1], turns[n - 1], story[n - 1 + 1]));
    }
}

/// A session takes its steps one by one: none is skipped and none is repeated,
/// and the spans say which is which.
pub proof fn law_no_step_is_skipped<
    K: PlantKernel,
    F: Fn(Operation) -> Scalar,
    P: Fn(Scalar, usize) -> String,
>(
    wires: Wires<F, P>,
    story: Seq<Moment<K::Machine>>,
    turns: Seq<Turn>,
    i: int,
)
    requires
        wires.tells::<K>(story, turns),
        0 <= i < turns.len(),
    ensures
        turns[i].span.step_index == story[0].session.step_index + i + 1,
        story[i + 1].session.step_index == story[i].session.step_index + 1,
{
    lemma_along_a_run::<K, F, P>(wires, story, turns, i);
    lemma_along_a_run::<K, F, P>(wires, story, turns, i + 1);
    assert(wires.turns::<K>(story[i], turns[i], story[i + 1]));
}

/// A chain that starts a run guarded is guarded throughout.
proof fn lemma_guarded_along<
    K: PlantKernel,
    F: Fn(Operation) -> Scalar,
    P: Fn(Scalar, usize) -> String,
>(
    wires: Wires<F, P>,
    story: Seq<Moment<K::Machine>>,
    turns: Seq<Turn>,
    n: int,
)
    requires
        wires.tells::<K>(story, turns),
        arith::rounding(&wires.unit),
        story[0].session.chain.guarded(story[0].session.dt),
        0 <= n <= turns.len(),
    ensures
        story[n].session.chain.guarded(story[0].session.dt),
    decreases n,
{
    if n > 0 {
        lemma_guarded_along::<K, F, P>(wires, story, turns, n - 1);
        lemma_along_a_run::<K, F, P>(wires, story, turns, n - 1);
        let before = story[n - 1];
        let turn = turns[n - 1];
        assert(wires.turns::<K>(before, turn, story[n - 1 + 1]));
        let given = K::advanced(
            before.machine,
            before.session.given(&wires.unit, turn.input),
            before.session.dt,
        ).1->0;
        let now = turn.state.host_time_ns;
        ffb::law_torque_stays_inside_the_limit(
            before.session.chain,
            &wires.unit,
            given,
            before.session.dt,
            now,
            now <= before.session.deadline,
        );
    }
}

/// Nothing that happens in a session -- not a frame, not a late step, not a
/// missing input -- puts a torque on the wheel that is not a finite number inside
/// the limit the session was started with.
pub proof fn law_a_session_keeps_its_limit<
    K: PlantKernel,
    F: Fn(Operation) -> Scalar,
    P: Fn(Scalar, usize) -> String,
>(
    wires: Wires<F, P>,
    story: Seq<Moment<K::Machine>>,
    turns: Seq<Turn>,
    i: int,
)
    requires
        wires.tells::<K>(story, turns),
        arith::rounding(&wires.unit),
        story[0].session.chain.guarded(story[0].session.dt),
        0 <= i < turns.len(),
    ensures
        scalar::is_finite(turns[i].command.torque_nm),
        scalar::is_at_most(
            scalar::abs(turns[i].command.torque_nm),
            scalar::abs(story[0].session.chain.config.torque_limit_nm),
        ),
{
    lemma_guarded_along::<K, F, P>(wires, story, turns, i);
    lemma_along_a_run::<K, F, P>(wires, story, turns, i);
    let before = story[i];
    let turn = turns[i];
    assert(wires.turns::<K>(before, turn, story[i + 1]));
    let given = K::advanced(
        before.machine,
        before.session.given(&wires.unit, turn.input),
        before.session.dt,
    ).1->0;
    let now = turn.state.host_time_ns;
    ffb::law_torque_stays_inside_the_limit(
        before.session.chain,
        &wires.unit,
        given,
        before.session.dt,
        now,
        now <= before.session.deadline,
    );
}

/// A session starts guarded, whatever its gain and its torque limit, as long as
/// the limit is finite and the step is a time that passes.
pub proof fn law_a_session_starts_guarded(config: KernelConfig)
    requires
        scalar::is_finite(config.ffb_torque_limit),
        scalar::is_finite(config.step_dt),
        scalar::exact(config.step_dt) >= 0,
    ensures
        FfbChain::fresh(feedback(config)).guarded(config.step_dt),
{
    scalar::lemma_one();
}

/// Faults stay on record for the rest of the session.
pub proof fn law_faults_stay_on_record<
    K: PlantKernel,
    F: Fn(Operation) -> Scalar,
    P: Fn(Scalar, usize) -> String,
>(
    wires: Wires<F, P>,
    story: Seq<Moment<K::Machine>>,
    turns: Seq<Turn>,
    i: int,
    j: int,
)
    requires
        wires.tells::<K>(story, turns),
        0 <= i <= j <= turns.len(),
    ensures
        story[j].session.faults & story[i].session.faults == story[i].session.faults,
    decreases j - i,
{
    let first = story[i].session.faults;
    assert(first & first == first) by (bit_vector);
    if i < j {
        law_faults_stay_on_record::<K, F, P>(wires, story, turns, i, j - 1);
        let turn = turns[j - 1];
        assert(wires.turns::<K>(story[j - 1], turn, story[j - 1 + 1]));
        lemma_faults_carry(first, story[j - 1].session.faults, turn.advanced.faults);
        lemma_faults_chain(first, turn.advanced.faults, fault_flags::TELEMETRY_OVERFLOW);
    }
}

/// A frame there was no room for is a fault that stays on record, and so is a
/// missing input, and a missed deadline: nothing is dropped in silence.
pub proof fn law_nothing_is_dropped_in_silence<
    K: PlantKernel,
    F: Fn(Operation) -> Scalar,
    P: Fn(Scalar, usize) -> String,
>(
    wires: Wires<F, P>,
    story: Seq<Moment<K::Machine>>,
    turns: Seq<Turn>,
    i: int,
    j: int,
)
    requires
        wires.tells::<K>(story, turns),
        0 <= i < j <= turns.len(),
    ensures
        !turns[i].kept ==> story[j].session.faults & fault_flags::TELEMETRY_OVERFLOW
            == fault_flags::TELEMETRY_OVERFLOW,
        turns[i].input is None ==> story[j].session.faults & fault_flags::INPUT_STALE
            == fault_flags::INPUT_STALE,
        turns[i].state.host_time_ns > story[i].session.deadline ==> story[j].session.faults
            & fault_flags::DEADLINE_MISSED == fault_flags::DEADLINE_MISSED,
{
    let turn = turns[i];
    assert(wires.turns::<K>(story[i], turn, story[i + 1]));
    law_faults_stay_on_record::<K, F, P>(wires, story, turns, i + 1, j);
    let soon = story[i + 1].session.faults;
    let late = story[j].session.faults;
    let a = story[i].session.faults;
    let stepped = turn.advanced.faults;
    assert((a | fault_flags::INPUT_STALE) & fault_flags::INPUT_STALE == fault_flags::INPUT_STALE)
        by (bit_vector);
    let read = story[i].session.faults_with(turn.input);
    assert((read | fault_flags::DEADLINE_MISSED) & fault_flags::DEADLINE_MISSED
        == fault_flags::DEADLINE_MISSED) by (bit_vector);
    assert((stepped | fault_flags::TELEMETRY_OVERFLOW) & fault_flags::TELEMETRY_OVERFLOW
        == fault_flags::TELEMETRY_OVERFLOW) by (bit_vector);
    let timed = if turn.state.host_time_ns <= story[i].session.deadline {
        read
    } else {
        read | fault_flags::DEADLINE_MISSED
    };
    if turn.input is None {
        lemma_faults_chain(fault_flags::INPUT_STALE, read, fault_flags::DEADLINE_MISSED);
        lemma_flag_kept(fault_flags::INPUT_STALE, timed, stepped, soon, late);
    }
    if turn.state.host_time_ns > story[i].session.deadline {
        lemma_flag_kept(fault_flags::DEADLINE_MISSED, timed, stepped, soon, late);
    }
    if !turn.kept {
        lemma_faults_carry(fault_flags::TELEMETRY_OVERFLOW, soon, late);
    }
}

/// The spans of a step are in order: with a clock that never runs backwards, each
/// stamp of a traced step is no earlier than the one before it, and the deadline is
/// judged after the plant has stepped and before the feedback is conditioned.
pub proof fn law_spans_are_in_order<
    K: PlantKernel,
    F: Fn(Operation) -> Scalar,
    P: Fn(Scalar, usize) -> String,
>(
    wires: Wires<F, P>,
    story: Seq<Moment<K::Machine>>,
    turns: Seq<Turn>,
    i: int,
)
    requires
        wires.tells::<K>(story, turns),
        wires.tracing,
        0 <= i < turns.len(),
        rig::steady(story[i + 1].log),
    ensures
        ({
            let spans = turns[i].spans();
            &&& spans.t_step_start <= spans.t_after_read <= spans.t_after_shape
                <= spans.t_after_plant <= spans.t_command_stamp <= spans.t_after_ffb
                <= spans.t_after_publish
            &&& spans.t_after_publish <= turns[i].ended <= turns[i].now
        }),
{
    let turn = turns[i];
    assert(wires.turns::<K>(story[i], turn, story[i + 1]));
    let log = story[i + 1].log;
    let n = story[i].log.len() as int;
    let span = turn.span;
    assert(log.len() >= n + 15);
    assert(log[n + 1] == Event::Looked(turn.started));
    assert(log[n + 3] == Event::Looked(turn.in_hand));
    assert(log[n + 4] == Event::Looked(span.t_after_shape));
    assert(log[n + 6] == Event::Looked(span.t_after_plant));
    assert(log[n + 7] == Event::Looked(span.t_command_stamp));
    assert(log[n + 8] == Event::Looked(span.t_after_ffb));
    assert(log[n + 10] == Event::Looked(turn.published));
    assert(log[n + 13] == Event::Looked(turn.ended));
    assert(log[n + 14] == Event::Looked(turn.now));
}

/// A session starts where the wheel is: the plant's first steering angle is the
/// angle the wheel is actually sitting at, and not a step towards it from zero.
pub proof fn law_a_session_starts_where_the_wheel_sits<F: Fn(Operation) -> Scalar>(
    session: StepLoop,
    unit: &F,
    input: DriverInput,
)
    requires
        arith::rounding(unit),
        session.step_index == 0,
        session.shaper.config.enabled,
        is_finite(input.steering_angle_command),
        is_finite(session.dt),
        ({
            let omega = session.shaper.omega(unit);
            &&& is_finite(omega)
            &&& is_finite(times(unit, omega, omega))
            &&& is_finite(times(unit, input_shaper::TWO, omega))
        }),
    ensures
        scalar::exact(session.given(unit, Some(input)).steering_angle_command) == scalar::exact(
            input.steering_angle_command,
        ),
        scalar::exact(session.shaper_after(unit, Some(input)).rate) == 0,
{
    let shaper = session.poised(input.steering_angle_command);
    assert(shaper.omega(unit) == session.shaper.omega(unit));
    input_shaper::law_rest_on_target_is_rest(shaper, unit, session.dt);
}

/// With tracing off, a session hands on no spans and takes no stamps for them.
pub proof fn law_tracing_off_traces_nothing<
    K: PlantKernel,
    F: Fn(Operation) -> Scalar,
    P: Fn(Scalar, usize) -> String,
>(
    wires: Wires<F, P>,
    story: Seq<Moment<K::Machine>>,
    turns: Seq<Turn>,
    i: int,
    at: int,
)
    requires
        wires.tells::<K>(story, turns),
        !wires.tracing,
        0 <= i < turns.len(),
        story[i].log.len() <= at < story[i + 1].log.len(),
    ensures
        story[i + 1].log[at] !is Traced,
{
    let turn = turns[i];
    assert(wires.turns::<K>(story[i], turn, story[i + 1]));
    let doings = turn.doings(false);
    assert(story[i + 1].log[at] == doings[at - story[i].log.len()]);
}

/// A flag raised by the time a step was timed is there at the end.
proof fn lemma_flag_kept(flag: u64, timed: u64, stepped: u64, soon: u64, late: u64)
    requires
        timed & flag == flag,
        stepped == timed || stepped == timed | fault_flags::FFB_CLAMPED || stepped == timed
            | fault_flags::PLANT_NONFINITE || stepped == (timed | fault_flags::FFB_CLAMPED)
            | fault_flags::PLANT_NONFINITE,
        soon == stepped || soon == stepped | fault_flags::TELEMETRY_OVERFLOW,
        late & soon == soon,
    ensures
        late & flag == flag,
{
    lemma_faults_chain(flag, timed, fault_flags::FFB_CLAMPED);
    lemma_faults_chain(flag, timed, fault_flags::PLANT_NONFINITE);
    lemma_faults_chain(flag, timed | fault_flags::FFB_CLAMPED, fault_flags::PLANT_NONFINITE);
    lemma_faults_chain(flag, stepped, fault_flags::TELEMETRY_OVERFLOW);
    lemma_faults_carry(flag, soon, late);
}

} // verus!
