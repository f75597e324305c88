//! What the verbs have to say.

use vstd::prelude::*;

use crate::arith;
use crate::arith::{from_count, over, times, Operation};
use crate::cli::Args;
use crate::generated::frames::{DriverInput, FfbCommand, Frame, VehicleState, LAYOUT_HASH};
use crate::io::device::DeviceCaps;
use crate::metrics::{StepTimeHistogram, THOUSAND};
use crate::plant::integrator::Method;
use crate::plant::InitialConditions;
use crate::replay::{ReplayConfig, ReplayOutcome, TunableSetting};
use crate::scalar::{Scalar, ZERO};
use crate::sys::sched::{suggested_rt_cpu, RtStatus};
use crate::telemetry::TelemetryReader;
use crate::text;
use crate::text::{add_line, count_text, join, page_text, word_text};
use crate::VERSION;

verus! {

// --- info -------------------------------------------------------------------------------

/// A CPU number that may be missing, the way debug formatting shows it.
pub open spec fn optional(cpu: Option<usize>) -> Seq<char> {
    match cpu {
        Some(n) => "Some("@ + text::decimal(n as nat) + ")"@,
        None => "None"@,
    }
}

/// Schema, build and machine.
pub open spec fn info_lines(cpus: usize, sdl3: bool) -> Seq<Seq<char>> {
    seq![
        "bobdil-kernel "@ + VERSION@,
        "schema layout hash  "@ + text::word(LAYOUT_HASH),
        "frames              driver_input "@ + text::decimal(8 * DriverInput::size())
            + " B, vehicle_state "@ + text::decimal(8 * VehicleState::size())
            + " B, ffb_command "@ + text::decimal(8 * FfbCommand::size()) + " B"@,
        "segments            /dev/shm/"@ + "bobdil_driver_input"@ + ", /dev/shm/"@
            + "bobdil_vehicle_state"@ + ", /dev/shm/"@ + "bobdil_ffb_command"@,
        "cpus online         "@ + text::decimal(cpus as nat),
        "suggested rt cpu    "@ + optional(
            if cpus >= 2 {
                Some((cpus - 1) as usize)
            } else {
                None
            },
        ),
        "sdl3 backend        "@ + if sdl3 {
            "compiled in"@
        } else {
            "not compiled in"@
        },
    ]
}

pub fn info(cpus: usize, sdl3: bool) -> (page: String)
    ensures
        page@ == text::page(info_lines(cpus, sdl3)),
{
    let mut lines: Vec<String> = Vec::new();
    let mut version: String = "bobdil-kernel ".to_owned();
    version.append(VERSION);
    add_line(&mut lines, version);
    let mut layout: String = "schema layout hash  ".to_owned();
    layout.append(word_text(LAYOUT_HASH).as_str());
    add_line(&mut lines, layout);
    let mut sizes: String = "frames              driver_input ".to_owned();
    sizes.append(count_text(8 * (DriverInput::field_count() as u64)).as_str());
    sizes.append(" B, vehicle_state ");
    sizes.append(count_text(8 * (VehicleState::field_count() as u64)).as_str());
    sizes.append(" B, ffb_command ");
    sizes.append(count_text(8 * (FfbCommand::field_count() as u64)).as_str());
    sizes.append(" B");
    add_line(&mut lines, sizes);
    let mut segments: String = "segments            /dev/shm/".to_owned();
    segments.append(DriverInput::shm_name());
    segments.append(", /dev/shm/");
    segments.append(VehicleState::shm_name());
    segments.append(", /dev/shm/");
    segments.append(FfbCommand::shm_name());
    add_line(&mut lines, segments);
    let mut online: String = "cpus online         ".to_owned();
    online.append(count_text(cpus as u64).as_str());
    add_line(&mut lines, online);
    let mut suggested: String = "suggested rt cpu    ".to_owned();
    match suggested_rt_cpu(cpus) {
        Some(n) => {
            let mut cpu: String = "Some(".to_owned();
            cpu.append(count_text(n as u64).as_str());
            cpu.append(")");
            suggested.append(cpu.as_str());
        },
        None => {
            suggested.append("None");
        },
    }
    add_line(&mut lines, suggested);
    let mut backend: String = "sdl3 backend        ".to_owned();
    backend.append(
        if sdl3 {
            "compiled in"
        } else {
            "not compiled in"
        },
    );
    add_line(&mut lines, backend);
    proof {
        assert(text::views(Seq::<String>::empty()) =~= Seq::empty());
        assert(text::views(lines@) =~= info_lines(cpus, sdl3));
    }
    page_text(&lines)
}

// --- devices ----------------------------------------------------------------------------

/// What a device offers, and what it does not.
pub open spec fn device_lines<P: Fn(Scalar, usize) -> String>(
    caps: DeviceCaps,
    print: P,
) -> Seq<Seq<char>> {
    if caps.missing().len() == 0 {
        seq![caps.described(print)]
    } else {
        seq![
            caps.described(print),
            "NOT available: "@ + text::joined(caps.missing(), ", "@) + "."@,
            "BobDil will not claim these cues, and a driver must not attribute their absence to the car."@,
        ]
    }
}

/// What is connected, and what it can actually do.
pub fn devices<P: Fn(Scalar, usize) -> String>(caps: &DeviceCaps, print: &P) -> (page: String)
    requires
        text::prints(*print),
    ensures
        page@ == text::page(device_lines(*caps, *print)),
{
    let mut lines: Vec<String> = Vec::new();
    add_line(&mut lines, caps.describe(print));
    if caps.missing_cues().len() > 0 {
        let mut line: String = "NOT available: ".to_owned();
        line.append(caps.missing_text().as_str());
        line.append(".");
        add_line(&mut lines, line);
        add_line(
            &mut lines,
            "BobDil will not claim these cues, and a driver must not attribute their absence to the car.".to_owned(),
        );
    }
    assert(text::views(lines@) =~= device_lines(*caps, *print));
    page_text(&lines)
}

// --- bench ------------------------------------------------------------------------------

/// What the benchmark runs on.
pub open spec fn bench_lines<F: Fn(Operation) -> Scalar, P: Fn(Scalar, usize) -> String>(
    unit: &F,
    print: &P,
    cpus: usize,
    status: RtStatus,
) -> Seq<Seq<char>> {
    seq![
        "bobdil-kernel "@ + VERSION@ + " -- step time benchmark"@,
        "machine     "@ + text::decimal(cpus as nat) + " cpus online"@,
        "scheduling  "@ + status.described(),
    ] + Seq::new(
        status.advised(unit, print).len(),
        |i: int| "            "@ + status.advised(unit, print)[i],
    ) + if status.hardened() {
        Seq::empty()
    } else {
        seq!["            The tail below is therefore dominated by the OS, not by the plant."@]
    }
}

pub fn bench_heading<F: Fn(Operation) -> Scalar, P: Fn(Scalar, usize) -> String>(
    unit: &F,
    print: &P,
    cpus: usize,
    status: &RtStatus,
) -> (page: String)
    requires
        arith::functional(*unit),
        text::prints(*print),
    ensures
        page@ == text::page(bench_lines(unit, print, cpus, *status)),
{
    let mut lines: Vec<String> = Vec::new();
    let mut title: String = "bobdil-kernel ".to_owned();
    title.append(VERSION);
    title.append(" -- step time benchmark");
    add_line(&mut lines, title);
    let mut machine: String = "machine     ".to_owned();
    machine.append(count_text(cpus as u64).as_str());
    machine.append(" cpus online");
    add_line(&mut lines, machine);
    let mut scheduling: String = "scheduling  ".to_owned();
    scheduling.append(status.describe().as_str());
    add_line(&mut lines, scheduling);
    let ghost top = text::views(lines@);
    assert(text::views(Seq::<String>::empty()) =~= Seq::empty());
    let advice: Vec<String> = status.advice(unit, print);
    let ghost advised = Seq::new(
        status.advised(unit, print).len(),
        |i: int| "            "@ + status.advised(unit, print)[i],
    );
    let mut i: usize = 0;
    while i < advice.len()
        invariant
            i <= advice@.len(),
            text::views(advice@) == status.advised(unit, print),
            advised == Seq::new(
                status.advised(unit, print).len(),
                |i: int| "            "@ + status.advised(unit, print)[i],
            ),
            text::views(lines@) =~= top + advised.take(i as int),
        decreases advice@.len() - i,
    {
        let mut line: String = "            ".to_owned();
        line.append(advice[i].as_str());
        assert(line@ == advised[i as int]);
        add_line(&mut lines, line);
        i += 1;
    }
    assert(text::views(advice@).len() == advice@.len());
    assert(advised.take(i as int) =~= advised);
    if !status.is_hardened() {
        add_line(
            &mut lines,
            "            The tail below is therefore dominated by the OS, not by the plant.".to_owned(),
        );
    }
    assert(text::views(lines@) =~= bench_lines(unit, print, cpus, *status));
    page_text(&lines)
}

/// How late each sleep came back, as far as it was late at all.
pub open spec fn lateness(samples: Seq<i64>) -> Seq<u64> {
    Seq::new(
        samples.len(),
        |i: int|
            if samples[i] > 0 {
                samples[i] as u64
            } else {
                0
            },
    )
}

/// What the sleep path itself costs, so the plant is not blamed for jitter the
/// timer introduced.
pub fn jitter_histogram(samples: &Vec<i64>) -> (histogram: StepTimeHistogram)
    ensures
        histogram.well_formed(),
        histogram.samples() == lateness(samples@),
{
    let mut histogram: StepTimeHistogram = StepTimeHistogram::new(20_000_000, 1_000);
    let mut i: usize = 0;
    while i < samples.len()
        invariant
            i <= samples@.len(),
            histogram.well_formed(),
            histogram.samples() =~= lateness(samples@).take(i as int),
        decreases samples@.len() - i,
    {
        let late: u64 = if samples[i] > 0 {
            samples[i] as u64
        } else {
            0
        };
        histogram.record(late);
        i += 1;
    }
    assert(lateness(samples@).take(i as int) =~= lateness(samples@));
    histogram
}

/// A method's name, the way debug formatting shows it.
pub open spec fn method_name(method: Method) -> Seq<char> {
    match method {
        Method::Euler => "Euler"@,
        Method::Midpoint => "Midpoint"@,
        Method::Rk4 => "Rk4"@,
    }
}

/// What is about to be measured.
pub fn bench_plan<F: Fn(Operation) -> Scalar, P: Fn(Scalar, usize) -> String>(
    unit: &F,
    print: &P,
    step_dt: Scalar,
    method: Method,
    substeps: usize,
    steps: u64,
) -> (line: String)
    requires
        arith::functional(*unit),
        text::prints(*print),
        method.cost() * substeps <= u64::MAX,
    ensures
        line@ == "\nprobing at dt="@ + text::printed(*print, times(unit, step_dt, THOUSAND), 3)
            + " ms, "@ + method_name(method) + " ("@ + text::decimal(
            (method.cost() * substeps) as nat,
        ) + " evaluations/step), "@ + text::decimal(steps as nat) + " steps"@,
{
    let mut line: String = "\nprobing at dt=".to_owned();
    line.append(print(times(unit, step_dt, THOUSAND), 3).as_str());
    line.append(" ms, ");
    line.append(
        match method {
            Method::Euler => "Euler",
            Method::Midpoint => "Midpoint",
            Method::Rk4 => "Rk4",
        },
    );
    line.append(" (");
    let evaluations: u64 = method.evaluations() as u64;
    assert(evaluations * substeps == method.cost() * substeps);
    line.append(count_text(evaluations * (substeps as u64)).as_str());
    line.append(" evaluations/step), ");
    line.append(count_text(steps).as_str());
    line.append(" steps");
    line
}

/// What a plant has to clear.
pub fn bench_gate<F: Fn(Operation) -> Scalar, P: Fn(Scalar, usize) -> String>(
    unit: &F,
    print: &P,
    gate_ns: u64,
    step_dt: Scalar,
) -> (line: String)
    requires
        arith::functional(*unit),
        text::prints(*print),
    ensures
        line@ == "\ngate: p99.9 <= "@ + text::printed(
            *print,
            over(unit, from_count(unit, gate_ns), THOUSAND),
            0,
        ) + " us (half the "@ + text::printed(*print, times(unit, step_dt, THOUSAND), 1)
            + " ms budget, leaving room for OS jitter)"@,
{
    let mut line: String = "\ngate: p99.9 <= ".to_owned();
    line.append(print(over(unit, from_count(unit, gate_ns), THOUSAND), 0).as_str());
    line.append(" us (half the ");
    line.append(print(times(unit, step_dt, THOUSAND), 1).as_str());
    line.append(" ms budget, leaving room for OS jitter)");
    line
}

/// Whether the benchmark went well: the model loaded, if one was asked for, and
/// the floor cleared its gate.
pub fn bench_verdict(load_failed: bool, floor_passed: bool) -> (verdict: Result<(), String>)
    ensures
        match verdict {
            Ok(_) => !load_failed && floor_passed,
            Err(why) => (load_failed || !floor_passed) && why@
                == "a kernel did not clear its gate"@,
        },
{
    if load_failed || !floor_passed {
        Err("a kernel did not clear its gate".to_owned())
    } else {
        Ok(())
    }
}

// --- replay -----------------------------------------------------------------------------

/// The recording to reproduce, which has to be named.
pub fn replay_file(file: &Option<String>) -> (path: Result<String, String>)
    ensures
        match path {
            Ok(found) => file matches Some(name) && found@ == name@,
            Err(why) => *file is None && why@ == "replay needs --file <recording>"@,
        },
{
    match file {
        Some(name) => Ok(name.as_str().to_owned()),
        None => Err("replay needs --file <recording>".to_owned()),
    }
}

/// What is replayed, from what was asked for and the vehicle it is asked of.
pub fn replay_config(args: Args, vehicle_hash: u64) -> (config: ReplayConfig)
    ensures
        config.plant_dir == args.config.plant_dir,
        config.method == args.config.method,
        config.substeps == args.config.substeps,
        config.initial == (InitialConditions {
            speed: args.config.initial_speed,
            steering_angle: ZERO,
        }),
        config.tunables == args.tunables,
        config.vehicle_hash == vehicle_hash,
{
    ReplayConfig {
        plant_dir: args.config.plant_dir,
        method: args.config.method,
        substeps: args.config.substeps,
        initial: InitialConditions {
            speed: args.config.initial_speed,
            steering_angle: ZERO,
        },
        tunables: args.tunables,
        vehicle_hash,
    }
}

pub fn replay_heading<P: Fn(Scalar, usize) -> String>(
    print: &P,
    path: &str,
    recording: &TelemetryReader,
) -> (line: String)
    requires
        text::prints(*print),
    ensures
        line@ == "replaying "@ + path@ + " ("@ + text::decimal(recording.frames@.len())
            + " frames, dt="@ + text::printed(*print, recording.meta.step_dt, 6)
            + " s, kernel id "@ + text::decimal(recording.meta.kernel_id as nat) + ")"@,
{
    let mut line: String = "replaying ".to_owned();
    line.append(path);
    line.append(" (");
    line.append(count_text(recording.frames.len() as u64).as_str());
    line.append(" frames, dt=");
    line.append(print(recording.meta.step_dt, 6).as_str());
    line.append(" s, kernel id ");
    line.append(count_text(recording.meta.kernel_id).as_str());
    line.append(")");
    line
}

/// The setup change, if there is one.
pub fn replay_setup<P: Fn(Scalar, usize) -> String>(
    print: &P,
    tunables: &Vec<TunableSetting>,
) -> (line: Option<String>)
    requires
        text::prints(*print),
    ensures
        match line {
            Some(text) => tunables@.len() > 0 && text@ == "setup      "@ + text::joined(
                Seq::new(tunables@.len(), |i: int| tunables@[i].described(*print)),
                ", "@,
            ),
            None => tunables@.len() == 0,
        },
{
    if tunables.len() == 0 {
        return None;
    }
    let mut parts: Vec<String> = Vec::new();
    let mut i: usize = 0;
    while i < tunables.len()
        invariant
            i <= tunables@.len(),
            text::prints(*print),
            text::views(parts@) =~= Seq::new(
                i as nat,
                |j: int| tunables@[j].described(*print),
            ),
        decreases tunables@.len() - i,
    {
        add_line(&mut parts, tunables[i].describe(print));
        i += 1;
    }
    let mut line: String = "setup      ".to_owned();
    line.append(join(&parts, ", ").as_str());
    Some(line)
}

/// Which plant it was replayed on.
pub fn replay_plant(outcome: &ReplayOutcome) -> (line: String)
    ensures
        line@ == "plant      "@ + outcome.kernel_name@ + " ("@ + text::decimal(
            outcome.frames@.len(),
        ) + " frames)"@,
{
    let mut line: String = "plant      ".to_owned();
    line.append(outcome.kernel_name.as_str());
    line.append(" (");
    line.append(count_text(outcome.frames.len() as u64).as_str());
    line.append(" frames)");
    line
}

/// Whether the two runs agree, in words.
pub fn replay_verdict(deterministic: bool) -> (verdict: Result<String, String>)
    ensures
        match verdict {
            Ok(line) => deterministic && line@
                == "two replays of the same inputs produced bit-identical states."@,
            Err(why) => !deterministic && why@
                == "replay is not deterministic: two identical runs diverged. No comparison built on this plant means anything until that is fixed."@,
        },
{
    if deterministic {
        Ok("two replays of the same inputs produced bit-identical states.".to_owned())
    } else {
        Err(
            "replay is not deterministic: two identical runs diverged. No comparison built on this plant means anything until that is fixed.".to_owned(),
        )
    }
}

/// What was written, and where.
pub fn replay_written(frames: u64, path: &str) -> (line: String)
    ensures
        line@ == "wrote      "@ + text::decimal(frames as nat) + " frames to "@ + path@,
{
    let mut line: String = "wrote      ".to_owned();
    line.append(count_text(frames).as_str());
    line.append(" frames to ");
    line.append(path);
    line
}

} // verus!
