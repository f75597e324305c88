//! Kernel selection.
//!
//! The ladder is `VehicleFMI` -> `VehicleRT` -> `Reduced14Dof`. A rung is chosen
//! once, at session start, from *measured* step times -- never guessed from a
//! machine spec, and never changed mid-drive.
//!
//! Not changing it mid-drive is a deliberate constraint. Swapping the plant
//! under a driver at speed would produce a discontinuity in the force feedback,
//! which is unsafe, and it would mean the lap they just drove was two different
//! cars, which makes the resulting opinion worthless.

use vstd::prelude::*;

use crate::arith;
use crate::arith::{from_count, over, remaining, times, Operation};
use crate::generated::frames::{kernel_id, DriverInput};
use crate::metrics;
use crate::metrics::{StepTimeHistogram, P50, P99, P999, THOUSAND};
use crate::plant::reduced::params::ReducedParams;
use crate::plant::reduced::Reduced14Dof;
use crate::plant::{Fault, InitialConditions, KernelCaps, PlantKernel};
use crate::rig::{Event, Timed};
use crate::scalar::{is_less, Scalar, ONE, ZERO};
use crate::text;
use crate::text::{count_text, join, pad_left, pad_right};

verus! {

/// Half the 1 ms budget, leaving the rest for OS jitter, the device thread, and
/// everything else on the machine.
pub const DEFAULT_GATE_P999_NS: u64 = 500_000;

/// Steps the floor is probed for, at most.
pub const FLOOR_PROBE_STEPS: u64 = 20_000;

// --- the maneuver ---------------------------------------------------------------

/// Length of the maneuver: 8 s.
pub const LAP: Scalar = 0x4020_0000_0000_0000;

/// The three commands at time `t`: standing start, step steer, threshold
/// braking, steady state skidpad, over and over.
pub open spec fn driven<F: Fn(Operation) -> Scalar>(unit: &F, t: Scalar) -> DriverInput {
    let phase = remaining(unit, t, LAP);
    let (steer, accelerator, brake) = if is_less(phase, 0x4000_0000_0000_0000) {
        (ZERO, ONE, ZERO)
    } else if is_less(phase, 0x4008_0000_0000_0000) {
        (0x3fd6_6666_6666_6666, 0x3fd9_9999_9999_999a, ZERO)
    } else if is_less(phase, 0x4012_0000_0000_0000) {
        (ZERO, ZERO, 0x3fec_cccc_cccc_cccd)
    } else {
        (0x3fd0_0000_0000_0000, 0x3fd6_6666_6666_6666, ZERO)
    };
    DriverInput {
        steering_angle_command: steer,
        accelerator_pedal_command: accelerator,
        brake_pedal_command: brake,
        ..DriverInput::zero()
    }
}

/// The probe maneuver: standing start, step steer, threshold braking, skidpad.
///
/// Those are the operating points where a vehicle model is slowest: a standing
/// start divides by a near-zero velocity, and a brake or a differential lock-up
/// fires state events.
pub fn maneuver<F: Fn(Operation) -> Scalar>(unit: &F, t: Scalar) -> (input: DriverInput)
    requires
        arith::functional(*unit),
    ensures
        input == driven(unit, t),
{
    let phase: Scalar = remaining(unit, t, LAP);
    let mut input: DriverInput = DriverInput::default();
    if is_less(phase, 0x4000_0000_0000_0000) {
        // Up to 2 s: full throttle.
        input.accelerator_pedal_command = ONE;
    } else if is_less(phase, 0x4008_0000_0000_0000) {
        // Up to 3 s: 0.35 rad at 0.4 throttle.
        input.steering_angle_command = 0x3fd6_6666_6666_6666;
        input.accelerator_pedal_command = 0x3fd9_9999_9999_999a;
    } else if is_less(phase, 0x4012_0000_0000_0000) {
        // Up to 4.5 s: 0.9 brake.
        input.brake_pedal_command = 0x3fec_cccc_cccc_cccd;
    } else {
        // The rest: 0.25 rad at 0.35 throttle.
        input.steering_angle_command = 0x3fd0_0000_0000_0000;
        input.accelerator_pedal_command = 0x3fd6_6666_6666_6666;
    }
    input
}

// --- probing ------------------------------------------------------------------------

/// What a probe measured for one candidate kernel.
#[derive(Clone, Debug)]
pub struct Probe {
    pub name: String,
    pub kernel_id: u64,
    pub continuous_states: usize,
    pub steps: u64,
    pub mean_ns: Scalar,
    pub p50_ns: u64,
    pub p99_ns: u64,
    pub p999_ns: u64,
    pub max_ns: u64,
    /// Set when the plant failed during the probe, which disqualifies it
    /// regardless of how fast it was.
    pub failure: Option<String>,
}

impl Probe {
    /// It did not fail, and its tail is no longer than was asked.
    pub open spec fn clears(self, gate_p999_ns: u64) -> bool {
        self.failure is None && self.p999_ns <= gate_p999_ns
    }

    pub fn passes(&self, gate_p999_ns: u64) -> (answer: bool)
        ensures
            answer == self.clears(gate_p999_ns),
    {
        self.failure.is_none() && self.p999_ns <= gate_p999_ns
    }

    /// Nanoseconds as microseconds to one decimal, in a column.
    pub open spec fn column<F: Fn(Operation) -> Scalar, P: Fn(Scalar, usize) -> String>(
        unit: &F,
        print: &P,
        ns: Scalar,
        width: int,
    ) -> Seq<char> {
        text::right(text::printed(*print, over(unit, ns, THOUSAND), 1), width)
    }

    fn column_text<F: Fn(Operation) -> Scalar, P: Fn(Scalar, usize) -> String>(
        unit: &F,
        print: &P,
        ns: Scalar,
        width: usize,
    ) -> (s: String)
        requires
            arith::functional(*unit),
            text::prints(*print),
        ensures
            s@ == Self::column(unit, print, ns, width as int),
    {
        pad_left(print(over(unit, ns, THOUSAND), 1).as_str(), width)
    }

    /// One line of the ladder report.
    pub open spec fn described<F: Fn(Operation) -> Scalar, P: Fn(Scalar, usize) -> String>(
        self,
        unit: &F,
        print: &P,
        gate_p999_ns: u64,
    ) -> Seq<char> {
        match self.failure {
            Some(detail) => text::left(self.name@, 24) + " FAILED: "@ + detail@,
            None => text::left(self.name@, 24) + " "@ + text::right(
                text::decimal(self.continuous_states as nat),
                4,
            ) + " states  mean "@ + Self::column(unit, print, self.mean_ns, 6) + "  p50 "@
                + Self::column(unit, print, from_count(unit, self.p50_ns), 6) + "  p99 "@
                + Self::column(unit, print, from_count(unit, self.p99_ns), 6) + "  p99.9 "@
                + Self::column(unit, print, from_count(unit, self.p999_ns), 6) + "  max "@
                + Self::column(unit, print, from_count(unit, self.max_ns), 7) + " us  "@
                + if self.clears(gate_p999_ns) {
                "PASS"@
            } else {
                "over budget"@
            },
        }
    }

    pub fn describe<F: Fn(Operation) -> Scalar, P: Fn(Scalar, usize) -> String>(
        &self,
        unit: &F,
        print: &P,
        gate_p999_ns: u64,
    ) -> (line: String)
        requires
            arith::functional(*unit),
            text::prints(*print),
        ensures
            line@ == self.described(unit, print, gate_p999_ns),
    {
        let mut line: String = pad_right(self.name.as_str(), 24);
        match &self.failure {
            Some(detail) => {
                line.append(" FAILED: ");
                line.append(detail.as_str());
            },
            None => {
                line.append(" ");
                line.append(
                    pad_left(count_text(self.continuous_states as u64).as_str(), 4).as_str(),
                );
                line.append(" states  mean ");
                line.append(Self::column_text(unit, print, self.mean_ns, 6).as_str());
                line.append("  p50 ");
                line.append(
                    Self::column_text(unit, print, from_count(unit, self.p50_ns), 6).as_str(),
                );
                line.append("  p99 ");
                line.append(
                    Self::column_text(unit, print, from_count(unit, self.p99_ns), 6).as_str(),
                );
                line.append("  p99.9 ");
                line.append(
                    Self::column_text(unit, print, from_count(unit, self.p999_ns), 6).as_str(),
                );
                line.append("  max ");
                line.append(
                    Self::column_text(unit, print, from_count(unit, self.max_ns), 7).as_str(),
                );
                line.append(" us  ");
                line.append(
                    if self.passes(gate_p999_ns) {
                        "PASS"
                    } else {
                        "over budget"
                    },
                );
            },
        }
        line
    }
}

/// The machine after `n` steps of the maneuver.
pub open spec fn after_maneuver<K: PlantKernel, F: Fn(Operation) -> Scalar>(
    machine: K::Machine,
    unit: &F,
    dt: Scalar,
    n: nat,
) -> K::Machine
    decreases n,
{
    if n == 0 {
        machine
    } else {
        K::advanced(
            after_maneuver::<K, F>(machine, unit, dt, (n - 1) as nat),
            driven(unit, times(unit, from_count(unit, (n - 1) as u64), dt)),
            dt,
        ).0
    }
}

/// The plant gets through step `n` of the maneuver.
pub open spec fn survives<K: PlantKernel, F: Fn(Operation) -> Scalar>(
    machine: K::Machine,
    unit: &F,
    dt: Scalar,
    n: nat,
) -> bool {
    K::advanced(
        after_maneuver::<K, F>(machine, unit, dt, n),
        driven(unit, times(unit, from_count(unit, n as u64), dt)),
        dt,
    ).1 is Some
}

/// What the plant says of step `n` of the maneuver, if it does not get through it.
pub open spec fn fault_at<K: PlantKernel, F: Fn(Operation) -> Scalar>(
    machine: K::Machine,
    unit: &F,
    dt: Scalar,
    n: nat,
) -> Fault {
    K::step_fault(
        after_maneuver::<K, F>(machine, unit, dt, n),
        driven(unit, times(unit, from_count(unit, n as u64), dt)),
        dt,
    )
}

/// What a probe says that was broken off at step `last`.
pub open spec fn broken_off<F: Fn(Operation) -> Scalar, P: Fn(Scalar, usize) -> String>(
    unit: &F,
    print: P,
    dt: Scalar,
    last: u64,
    fault: Fault,
) -> Seq<char> {
    "step "@ + text::decimal(last as nat) + " at t="@ + text::printed(
        print,
        times(unit, from_count(unit, last), dt),
        3,
    ) + ": "@ + fault.explained(print)
}

/// `probe` describes a run of the maneuver from `machine`, whatever it cost, and
/// `events` is what was done in the course of it.
pub open spec fn measured<
    K: PlantKernel,
    F: Fn(Operation) -> Scalar,
    C: Fn() -> u64,
    P: Fn(Scalar, usize) -> String,
>(
    probe: Probe,
    machine: K::Machine,
    unit: &F,
    clock: C,
    print: P,
    dt: Scalar,
    steps: u64,
    events: Seq<Event>,
) -> bool {
    let rest = InitialConditions::rest();
    let fresh = K::restarted(machine, rest);
    let last = (probe.steps - 1) as u64;
    let broke = probe.steps > 0 && !survives::<K, F>(fresh.0, unit, dt, last as nat);
    &&& probe.name@ == K::description(machine).name
    &&& probe.kernel_id == K::description(machine).id
    &&& probe.continuous_states == K::description(machine).continuous_states
    &&& probe.steps <= steps
    // Every step before the last was got through.
    &&& forall|j: int|
        0 <= j < probe.steps - 1 ==> #[trigger] survives::<K, F>(fresh.0, unit, dt, j as nat)
    // The run stops short only at a step that failed.
    &&& probe.steps < steps ==> broke
    // It failed if the reset did, or the last step did, and says which, and how.
    &&& match probe.failure {
        None => fresh.1 && !broke,
        Some(why) => (!fresh.1 || broke) && why@ == if broke {
            broken_off(unit, print, dt, last, fault_at::<K, F>(fresh.0, unit, dt, last as nat))
        } else {
            "reset: "@ + K::reset_fault(machine, rest).explained(print)
        },
    }
    // The figures are those of one histogram with a sample per step.
    &&& exists|histogram: StepTimeHistogram| #[trigger]
        summarised(probe, histogram, unit, clock, events)
}

/// `probe` describes a run of the maneuver from `machine`.
pub open spec fn probed<
    K: PlantKernel,
    F: Fn(Operation) -> Scalar,
    C: Fn() -> u64,
    P: Fn(Scalar, usize) -> String,
>(
    probe: Probe,
    machine: K::Machine,
    unit: &F,
    clock: C,
    print: P,
    dt: Scalar,
    steps: u64,
) -> bool {
    exists|events: Seq<Event>| #[trigger]
        measured::<K, F, C, P>(probe, machine, unit, clock, print, dt, steps, events)
}

/// Lap `i` of a probe: a look at the clock, a step of the plant, and another look,
/// in this order, and the time between the two looks.
pub open spec fn lap<C: Fn() -> u64>(clock: C, events: Seq<Event>, i: int, sample: u64) -> bool {
    &&& events[3 * i + 2] == Event::Stepped
    &&& match (events[3 * i + 1], events[3 * i + 3]) {
        (Event::Looked(from), Event::Looked(to)) => call_ensures(clock, (), from) && call_ensures(
            clock,
            (),
            to,
        ) && sample == if to >= from {
            to - from
        } else {
            0
        },
        _ => false,
    }
}

/// A reset and a lap for each sample, and nothing else, is what was done.
pub open spec fn lapped<C: Fn() -> u64>(clock: C, events: Seq<Event>, samples: Seq<u64>) -> bool {
    &&& events.len() == 1 + 3 * samples.len()
    &&& events[0] == Event::Reset
    &&& forall|i: int|
        0 <= i < samples.len() ==> lap(clock, events, i, #[trigger] samples[i])
}

/// The figures of `probe` are those of `histogram`, of twenty thousand buckets of a
/// microsecond, and its samples were timed.
pub open spec fn summarised<F: Fn(Operation) -> Scalar, C: Fn() -> u64>(
    probe: Probe,
    histogram: StepTimeHistogram,
    unit: &F,
    clock: C,
    events: Seq<Event>,
) -> bool {
    &&& histogram.samples().len() == probe.steps
    &&& histogram.width() == 1_000
    &&& histogram.depth() == 20_000
    &&& lapped(clock, events, histogram.samples())
    &&& probe.mean_ns == histogram.mean(unit)
    &&& histogram.is_percentile(unit, P50, probe.p50_ns)
    &&& histogram.is_percentile(unit, P99, probe.p99_ns)
    &&& histogram.is_percentile(unit, P999, probe.p999_ns)
    &&& probe.max_ns == metrics::largest(histogram.samples())
}

/// Drive a kernel through a representative maneuver and time every step.
///
/// The clock is read before and after each step.
pub fn probe<
    K: PlantKernel,
    F: Fn(Operation) -> Scalar,
    C: Fn() -> u64,
    P: Fn(Scalar, usize) -> String,
>(plant: &mut Timed<K, C>, unit: &F, dt: Scalar, steps: u64, print: &P) -> (probe: Probe)
    requires
        old(plant).sound(),
        K::lasts(old(plant).machine(), steps as nat),
        arith::functional(*unit),
        text::prints(*print),
    ensures
        final(plant).sound(),
        final(plant).time() == old(plant).time(),
        K::lasts(final(plant).machine(), 0),
        final(plant).log().len() >= old(plant).log().len(),
        final(plant).log().take(old(plant).log().len() as int) == old(plant).log(),
        measured::<K, F, C, P>(
            probe,
            old(plant).machine(),
            unit,
            old(plant).time(),
            *print,
            dt,
            steps,
            final(plant).log().skip(old(plant).log().len() as int),
        ),
        final(plant).machine() == after_maneuver::<K, F>(
            K::restarted(old(plant).machine(), InitialConditions::rest()).0,
            unit,
            dt,
            probe.steps as nat,
        ),
{
    let ghost clock = plant.time();
    let ghost past = plant.log();
    let ghost mut events: Seq<Event> = seq![Event::Reset];
    let caps: KernelCaps = plant.capabilities();
    let ghost start = plant.machine();
    let ghost rest = InitialConditions::rest();
    let ghost fresh = K::restarted(start, rest);
    let mut histogram: StepTimeHistogram = StepTimeHistogram::new(20_000_000, 1_000);
    let mut failure: Option<String> = None;
    proof {
        K::lasting(start, DriverInput::zero(), dt, rest, 0, ZERO, steps as nat);
        K::lasting_less(start, steps as nat, 0);
    }
    match plant.reset(&InitialConditions::default()) {
        Ok(_) => {},
        Err(error) => {
            let mut detail: String = "reset: ".to_owned();
            detail.append(error.message(print).as_str());
            failure = Some(detail);
        },
    }
    assert(plant.log() =~= past + events);
    let mut step: u64 = 0;
    let mut stopped: bool = false;
    while step < steps && !stopped
        invariant
            plant.sound(),
            plant.time() == clock,
            plant.log() == past + events,
            lapped(clock, events, histogram.samples()),
            arith::functional(*unit),
            text::prints(*print),
            step <= steps,
            fresh == K::restarted(start, rest),
            histogram.well_formed(),
            histogram.width() == 1_000,
            histogram.depth() == 20_000,
            histogram.samples().len() == step,
            plant.machine() == after_maneuver::<K, F>(fresh.0, unit, dt, step as nat),
            K::lasts(plant.machine(), (steps - step) as nat),
            forall|j: int|
                0 <= j < step - 1 ==> #[trigger] survives::<K, F>(fresh.0, unit, dt, j as nat),
            stopped ==> step > 0,
            match failure {
                None => !stopped,
                Some(why) => why@ == if stopped {
                    let last = (step - 1) as u64;
                    broken_off(
                        unit,
                        *print,
                        dt,
                        last,
                        fault_at::<K, F>(fresh.0, unit, dt, last as nat),
                    )
                } else {
                    "reset: "@ + K::reset_fault(start, rest).explained(*print)
                },
            },
            step > 0 ==> stopped == !survives::<K, F>(fresh.0, unit, dt, (step - 1) as nat),
            !stopped ==> failure is Some == !fresh.1,
        decreases (steps - step) + if stopped {
            0int
        } else {
            1int
        },
    {
        let t: Scalar = times(unit, from_count(unit, step), dt);
        let input: DriverInput = maneuver(unit, t);
        let started: u64 = plant.now();
        proof {
            K::lasting(plant.machine(), input, dt, rest, 0, ZERO, (steps - step) as nat);
            K::lasting_less(plant.machine(), (steps - step) as nat, 1);
        }
        let result = plant.step(&input, dt);
        let ended: u64 = plant.now();
        let elapsed: u64 = ended.saturating_sub(started);
        let ghost before = histogram.samples();
        histogram.record(elapsed);
        proof {
            let longer = events + seq![
                Event::Looked(started),
                Event::Stepped,
                Event::Looked(ended),
            ];
            assert(plant.log() =~= past + longer);
            assert forall|i: int| 0 <= i < histogram.samples().len() implies lap(
                clock,
                longer,
                i,
                #[trigger] histogram.samples()[i],
            ) by {
                if i < before.len() {
                    assert(histogram.samples()[i] == before[i]);
                    assert(lap(clock, events, i, before[i]));
                }
            }
            events = longer;
        }
        match result {
            Ok(_) => {},
            Err(error) => {
                let mut detail: String = "step ".to_owned();
                detail.append(count_text(step).as_str());
                detail.append(" at t=");
                detail.append(print(t, 3).as_str());
                detail.append(": ");
                detail.append(error.message(print).as_str());
                assert(detail@ =~= broken_off(unit, *print, dt, step, error@));
                failure = Some(detail);
                stopped = true;
            },
        }
        proof {
            assert forall|j: int| 0 <= j < step implies #[trigger] survives::<K, F>(
                fresh.0,
                unit,
                dt,
                j as nat,
            ) by {
                if j == step - 1 {
                    assert(survives::<K, F>(fresh.0, unit, dt, (step - 1) as nat));
                }
            }
        }
        step += 1;
    }
    proof {
        K::lasting_less(plant.machine(), (steps - step) as nat, 0);
    }
    let probe: Probe = Probe {
        name: caps.name,
        kernel_id: caps.id,
        continuous_states: caps.continuous_states,
        steps: histogram.count(),
        mean_ns: histogram.mean_ns(unit),
        p50_ns: histogram.percentile_ns(unit, P50),
        p99_ns: histogram.percentile_ns(unit, P99),
        p999_ns: histogram.percentile_ns(unit, P999),
        max_ns: histogram.max_ns(),
        failure,
    };
    assert(plant.log().skip(past.len() as int) =~= events);
    assert(plant.log().take(past.len() as int) =~= past);
    assert(summarised(probe, histogram, unit, clock, events));
    probe
}

// --- selection --------------------------------------------------------------------------

/// The plant a session ended up with.
pub enum Rung<K: PlantKernel, F: Fn(Operation) -> Scalar> {
    /// The one that was asked for.
    Model(K),
    /// The built-in floor.
    Floor(Reduced14Dof<F>),
}

/// What `select` decided, and why.
pub struct Selection<K: PlantKernel, F: Fn(Operation) -> Scalar> {
    pub plant: Rung<K, F>,
    pub probes: Vec<Probe>,
    pub chosen: String,
    /// True when the requested kernel could not hold the deadline and a lower
    /// rung was taken. Surfaced in the UI: the driver is entitled to know they
    /// are not feeling the model they asked for.
    pub degraded: bool,
}

impl<K: PlantKernel, F: Fn(Operation) -> Scalar> Selection<K, F> {
    /// The ladder's lines, one per probe, between a heading and the verdict.
    pub open spec fn reported<P: Fn(Scalar, usize) -> String>(
        self,
        unit: &F,
        print: &P,
        gate_p999_ns: u64,
    ) -> Seq<Seq<char>> {
        seq![
            "plant ladder (gate: p99.9 <= "@ + text::printed(
                *print,
                over(unit, from_count(unit, gate_p999_ns), THOUSAND),
                0,
            ) + " us)"@,
        ] + Seq::new(
            self.probes@.len(),
            |i: int| "  "@ + self.probes@[i].described(unit, print, gate_p999_ns),
        ) + seq![
            "  -> selected "@ + self.chosen@ + if self.degraded {
                "  (DEGRADED: the requested plant missed the deadline)"@
            } else {
                ""@
            },
        ]
    }

    pub fn report<P: Fn(Scalar, usize) -> String>(
        &self,
        unit: &F,
        print: &P,
        gate_p999_ns: u64,
    ) -> (text: String)
        requires
            arith::functional(*unit),
            text::prints(*print),
        ensures
            text@ == text::joined(self.reported(unit, print, gate_p999_ns), "\n"@),
    {
        let mut lines: Vec<String> = Vec::new();
        let mut heading: String = "plant ladder (gate: p99.9 <= ".to_owned();
        heading.append(print(over(unit, from_count(unit, gate_p999_ns), THOUSAND), 0).as_str());
        heading.append(" us)");
        lines.push(heading);
        let ghost all = self.reported(unit, print, gate_p999_ns);
        assert(text::views(lines@) =~= all.take(1));
        let mut i: usize = 0;
        while i < self.probes.len()
            invariant
                arith::functional(*unit),
                text::prints(*print),
                i <= self.probes@.len(),
                all == self.reported(unit, print, gate_p999_ns),
                text::views(lines@) == all.take(i + 1),
            decreases self.probes@.len() - i,
        {
            let mut line: String = "  ".to_owned();
            line.append(self.probes[i].describe(unit, print, gate_p999_ns).as_str());
            proof {
                text::lemma_views_push(lines@, line);
                assert(line@ =~= all[i + 1]);
                assert(all.take(i + 2) =~= all.take(i + 1).push(all[i + 1]));
            }
            lines.push(line);
            i += 1;
        }
        let mut verdict: String = "  -> selected ".to_owned();
        verdict.append(self.chosen.as_str());
        verdict.append(
            if self.degraded {
                "  (DEGRADED: the requested plant missed the deadline)"
            } else {
                ""
            },
        );
        proof {
            text::lemma_views_push(lines@, verdict);
            assert(verdict@ =~= all.last());
            assert(all =~= all.take(i + 1).push(all.last()));
        }
        lines.push(verdict);
        join(&lines, "\n")
    }
}

/// A probe that could not be taken, because there was nothing to load.
pub open spec fn unloaded(probe: Probe, directory: Seq<char>, problem: Seq<char>) -> bool {
    &&& probe.name@ == "FMU at "@ + directory
    &&& probe.kernel_id == kernel_id::VEHICLE_FMI
    &&& probe.continuous_states == 0 && probe.steps == 0 && probe.mean_ns == ZERO
    &&& probe.p50_ns == 0 && probe.p99_ns == 0 && probe.p999_ns == 0 && probe.max_ns == 0
    &&& probe.failure matches Some(detail) && detail@ == problem
}

/// The floor, freshly reset.
pub open spec fn floored<F: Fn(Operation) -> Scalar>(
    floor: Reduced14Dof<F>,
    unit: F,
    params: ReducedParams,
) -> bool {
    &&& floor.well_formed()
    &&& floor.machine().unit == unit
    &&& floor.machine().car.params == params
    &&& floor.machine().state == crate::plant::reduced::launch_state(
        &unit,
        params,
        InitialConditions::rest(),
    )
    &&& floor.machine().time == ZERO
    &&& floor.machine().step_index == 0
}

/// Try the requested plant, measure it, and fall back down the ladder if it
/// cannot hold the deadline.
///
/// `requested` is the directory that was asked for and what loading it gave.
/// `probe_steps` of 0 skips measurement and takes the requested plant on trust,
/// which is what a benchmark run wants -- it is doing its own timing.
pub fn select<
    K: PlantKernel,
    F: Fn(Operation) -> Scalar + Copy,
    C: Fn() -> u64 + Copy,
    P: Fn(Scalar, usize) -> String,
>(
    requested: Option<(String, Result<K, String>)>,
    unit: F,
    dt: Scalar,
    probe_steps: u64,
    gate_p999_ns: u64,
    clock: C,
    print: &P,
) -> (selection: Selection<K, F>)
    requires
        arith::functional(unit),
        call_requires(clock, ()),
        text::prints(*print),
        requested matches Some((_, Ok(model))) ==> model.well_formed() && K::lasts(
            model.machine(),
            probe_steps as nat,
        ),
    ensures
        // The floor is taken exactly when a model was not asked for, did not
        // load, or did not clear its gate.
        match (requested, selection.plant) {
            (Some((_, Ok(model))), Rung::Model(plant)) => {
                &&& plant.well_formed()
                &&& if probe_steps == 0 {
                    &&& selection.probes@.len() == 0
                    &&& plant == model
                } else {
                    &&& selection.probes@.len() == 1
                    &&& probed::<K, F, C, P>(
                        selection.probes@[0],
                        model.machine(),
                        &unit,
                        clock,
                        *print,
                        dt,
                        probe_steps,
                    )
                    &&& selection.probes@[0].clears(gate_p999_ns)
                    // Left at t=0 for the driver, not wherever the probe ended.
                    &&& plant.machine() == K::restarted(
                        after_maneuver::<K, F>(
                            K::restarted(model.machine(), InitialConditions::rest()).0,
                            &unit,
                            dt,
                            selection.probes@[0].steps as nat,
                        ),
                        InitialConditions::rest(),
                    ).0
                }
                &&& selection.chosen@ == K::description(model.machine()).name
            },
            (Some((_, Ok(model))), Rung::Floor(_)) => {
                &&& probe_steps > 0
                &&& selection.probes@.len() == 2
                &&& probed::<K, F, C, P>(
                    selection.probes@[0],
                    model.machine(),
                    &unit,
                    clock,
                    *print,
                    dt,
                    probe_steps,
                )
                &&& !selection.probes@[0].clears(gate_p999_ns)
            },
            (Some((directory, Err(problem))), Rung::Floor(_)) => {
                &&& selection.probes@.len() == if probe_steps > 0 {
                    2nat
                } else {
                    1nat
                }
                &&& unloaded(selection.probes@[0], directory@, problem@)
            },
            (None, Rung::Floor(_)) => selection.probes@.len() == if probe_steps > 0 {
                1nat
            } else {
                0nat
            },
            _ => false,
        },
        selection.plant matches Rung::Floor(floor) ==> floored(
            floor,
            unit,
            ReducedParams::standard(),
        ) && selection.chosen@ == "Reduced14Dof"@,
        // The floor was measured too, over no more than its own number of steps.
        selection.plant is Floor && probe_steps > 0 ==> probed::<Reduced14Dof<F>, F, C, P>(
            selection.probes@.last(),
            crate::plant::reduced::parked(unit, ReducedParams::standard()),
            &unit,
            clock,
            *print,
            dt,
            if probe_steps < FLOOR_PROBE_STEPS {
                probe_steps
            } else {
                FLOOR_PROBE_STEPS
            },
        ),
        // Falling back is reported, never silent.
        selection.degraded == (requested is Some && selection.plant is Floor),
{
    let mut probes: Vec<Probe> = Vec::new();
    let asked: bool = requested.is_some();
    if let Some((directory, loaded)) = requested {
        match loaded {
            Ok(model) => {
                let mut model: K = model;
                let ghost start = model.machine();
                if probe_steps == 0 {
                    let chosen: String = model.capabilities().name;
                    return Selection { plant: Rung::Model(model), probes, chosen, degraded: false };
                }
                let chosen: String = model.capabilities().name;
                let mut timed: Timed<K, C> = Timed::new(model, clock);
                let measurement: Probe = probe(&mut timed, &unit, dt, probe_steps, print);
                assert(probed::<K, F, C, P>(
                    measurement,
                    start,
                    &unit,
                    clock,
                    *print,
                    dt,
                    probe_steps,
                )) by {
                    assert(measured::<K, F, C, P>(
                        measurement,
                        start,
                        &unit,
                        clock,
                        *print,
                        dt,
                        probe_steps,
                        timed.log().skip(0),
                    ));
                }
                model = timed.into_plant();
                let passed: bool = measurement.passes(gate_p999_ns);
                probes.push(measurement);
                if passed {
                    let _ = model.reset(&InitialConditions::default());
                    return Selection { plant: Rung::Model(model), probes, chosen, degraded: false };
                }
            },
            Err(problem) => {
                let mut name: String = "FMU at ".to_owned();
                name.append(directory.as_str());
                probes.push(
                    Probe {
                        name,
                        kernel_id: kernel_id::VEHICLE_FMI,
                        continuous_states: 0,
                        steps: 0,
                        mean_ns: ZERO,
                        p50_ns: 0,
                        p99_ns: 0,
                        p999_ns: 0,
                        max_ns: 0,
                        failure: Some(problem),
                    },
                );
            },
        }
    }
    let params: ReducedParams = ReducedParams::default();
    let mut floor: Reduced14Dof<F> = Reduced14Dof::new(unit, params);
    proof {
        crate::plant::reduced::lemma_standard_car_steers();
    }
    if probe_steps > 0 {
        let floor_steps: u64 = if probe_steps < FLOOR_PROBE_STEPS {
            probe_steps
        } else {
            FLOOR_PROBE_STEPS
        };
        let ghost before = floor.machine();
        let mut timed: Timed<Reduced14Dof<F>, C> = Timed::new(floor, clock);
        let measurement: Probe = probe(&mut timed, &unit, dt, floor_steps, print);
        assert(probed::<Reduced14Dof<F>, F, C, P>(
            measurement,
            before,
            &unit,
            clock,
            *print,
            dt,
            floor_steps,
        )) by {
            assert(measured::<Reduced14Dof<F>, F, C, P>(
                measurement,
                before,
                &unit,
                clock,
                *print,
                dt,
                floor_steps,
                timed.log().skip(0),
            ));
        }
        floor = timed.into_plant();
        probes.push(measurement);
        proof {
            lemma_parameters_are_kept::<F>(
                Reduced14Dof::<F>::restarted(before, InitialConditions::rest()).0,
                &unit,
                dt,
                probes@.last().steps as nat,
            );
        }
    }
    let _ = floor.reset(&InitialConditions::default());
    let chosen: String = floor.capabilities().name;
    Selection { plant: Rung::Floor(floor), probes, chosen, degraded: asked }
}

/// Driving the floor leaves its parameters and its arithmetic alone.
proof fn lemma_parameters_are_kept<F: Fn(Operation) -> Scalar>(
    machine: crate::plant::reduced::Machine<F>,
    unit: &F,
    dt: Scalar,
    n: nat,
)
    ensures
        after_maneuver::<Reduced14Dof<F>, F>(machine, unit, dt, n).car.params
            == machine.car.params,
        after_maneuver::<Reduced14Dof<F>, F>(machine, unit, dt, n).unit == machine.unit,
    decreases n,
{
    if n > 0 {
        lemma_parameters_are_kept::<F>(machine, unit, dt, (n - 1) as nat);
    }
}

} // verus!
