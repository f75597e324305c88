//! The step loop, with clocks and channels of our own.

use bobdil_kernel::arith::{Operation, NAN};
use bobdil_kernel::config::{KernelConfig, OverrunPolicy};
use bobdil_kernel::generated::frames::{
    fault_flags, ffb_flags, DriverInput, FfbCommand, TraceStep, VehicleState,
};
use bobdil_kernel::io::device::DeviceCaps;
use bobdil_kernel::loop_runner::{
    check_step, clear_stale_segments, closing_faults, describe_faults, ffb_config, hid_config,
    initial_conditions, script, session_meta, total_steps, trace_meta, Advanced, Pace,
    SessionReport, StepLoop,
};
use bobdil_kernel::plant::integrator::Method;
use bobdil_kernel::plant::reduced::params::ReducedParams;
use bobdil_kernel::plant::reduced::Reduced14Dof;
use bobdil_kernel::plant::PlantKernel;
use bobdil_kernel::rig::{Lines, Rig, Timed};
use bobdil_kernel::sys::sched::{MemoryLock, RtStatus};
use bobdil_kernel::text::SHORTEST;
use std::cell::{Cell, RefCell};

fn bits(x: f64) -> u64 {
    if x.is_nan() {
        NAN
    } else {
        x.to_bits()
    }
}

fn float(x: u64) -> f64 {
    f64::from_bits(x)
}

/// The platform's own arithmetic, with one word for every NaN.
fn host(operation: Operation) -> u64 {
    bits(match operation {
        Operation::Count(n) => n as f64,
        Operation::WideCount(n) => n as f64,
        Operation::Add(a, b) => float(a) + float(b),
        Operation::Sub(a, b) => float(a) - float(b),
        Operation::Mul(a, b) => float(a) * float(b),
        Operation::Div(a, b) => float(a) / float(b),
        Operation::Rem(a, b) => float(a) % float(b),
        Operation::Power(a, b) => float(a).powf(float(b)),
        Operation::Root(a) => float(a).sqrt(),
        Operation::Sine(a) => float(a).sin(),
        Operation::Cosine(a) => float(a).cos(),
        Operation::Tangent(a) => float(a).tan(),
        Operation::ArcTangent(a) => float(a).atan(),
        Operation::HyperbolicTangent(a) => float(a).tanh(),
    })
}

fn show(x: u64, decimals: usize) -> String {
    if decimals == SHORTEST {
        format!("{}", float(x))
    } else {
        format!("{:.*}", decimals, float(x))
    }
}

type Unit = fn(Operation) -> u64;

fn car() -> Reduced14Dof<Unit> {
    let mut plant = Reduced14Dof::new(host as Unit, ReducedParams::default());
    plant
        .reset(&initial_conditions(&KernelConfig::default()))
        .unwrap();
    plant
}

fn throttle() -> DriverInput {
    DriverInput {
        accelerator_pedal_command: bits(1.0),
        host_time_ns: 11,
        sample_index: 4,
        ..Default::default()
    }
}

#[test]
fn a_session_runs_every_step_and_records_each() {
    let config = KernelConfig {
        duration_s: Some(bits(0.5)),
        ..Default::default()
    };
    let mut session = StepLoop::new(&host, &config, 2, 0);
    let now = Cell::new(0u64);
    let clock = || {
        now.set(now.get() + 1_000);
        now.get()
    };
    let frames = RefCell::new(Vec::new());
    let commands = RefCell::new(Vec::new());
    let spans = RefCell::new(Vec::new());
    let lines = Lines::new(
        || Some(throttle()),
        |_state: VehicleState, command: FfbCommand| commands.borrow_mut().push(command),
        |_command: FfbCommand| {},
        |span: TraceStep| spans.borrow_mut().push(span),
        |state: VehicleState| {
            frames.borrow_mut().push(state);
            true
        },
        || false,
        |deadline: u64| now.set(deadline),
    );
    let mut rig = Rig { core: Timed::new(car(), clock), lines };
    let more = session.run(&mut rig, &host, &show, true, 100_000);
    assert!(!more);
    assert_eq!(session.step_index, 500);
    assert!((float(session.sim_time) - 0.5).abs() < 1e-9);
    assert_eq!(session.deadline_misses, 0);
    assert_eq!(session.reanchors, 0);
    assert_eq!(session.faults, 0);
    let frames = frames.borrow().clone();
    assert_eq!(frames.len(), 500);
    assert_eq!(commands.borrow().len(), 500);
    for pair in frames.windows(2) {
        assert_eq!(pair[1].step_index, pair[0].step_index + 1);
    }
    assert!(float(frames[499].vehicle_speed) > 1.0);
    assert!(float(frames[499].pos_x) > 0.0);
    for span in spans.borrow().iter() {
        let stamps = [
            span.t_step_start,
            span.t_after_read,
            span.t_after_shape,
            span.t_after_plant,
            span.t_command_stamp,
            span.t_after_ffb,
            span.t_after_publish,
        ];
        assert!(stamps.windows(2).all(|pair| pair[1] > pair[0]), "{stamps:?}");
        assert_eq!(span.input_host_time_ns, 11);
        assert_eq!(span.input_sample_index, 4);
    }
}

#[test]
fn a_session_starts_where_the_wheel_sits() {
    let config = KernelConfig {
        duration_s: Some(bits(0.003)),
        ..Default::default()
    };
    let mut session = StepLoop::new(&host, &config, 2, 0);
    let now = Cell::new(0u64);
    let clock = || {
        now.set(now.get() + 1_000);
        now.get()
    };
    let frames = RefCell::new(Vec::new());
    let turns = Cell::new(0u64);
    let lines = Lines::new(
        || {
            // The wheel sits at an angle, and is turned after the first step.
            turns.set(turns.get() + 1);
            Some(DriverInput {
                steering_angle_command: bits(if turns.get() == 1 { 0.75 } else { 1.25 }),
                ..throttle()
            })
        },
        |_state: VehicleState, _command: FfbCommand| {},
        |_command: FfbCommand| {},
        |_span: TraceStep| {},
        |state: VehicleState| {
            frames.borrow_mut().push(state);
            true
        },
        || false,
        |deadline: u64| now.set(deadline),
    );
    let mut rig = Rig { core: Timed::new(car(), clock), lines };
    session.run(&mut rig, &host, &show, false, 10);
    let frames = frames.borrow();
    assert_eq!(float(frames[0].steering_angle_command), 0.75);
    let second = float(frames[1].steering_angle_command);
    assert!(second > 0.75 && second < 1.0, "from there on the angle is shaped: {second}");
}

#[test]
fn tracing_off_takes_no_stamps() {
    let mut session = StepLoop::new(&host, &KernelConfig::default(), 2, 0);
    let mut core = Timed::new(car(), || 500);
    let result = session.advance(
        &mut core,
        &host,
        &show,
        &Some(throttle()),
        400,
        0,
        false,
    );
    match result {
        Advanced::Frame { state, span, .. } => {
            assert_eq!(span.t_after_shape, 0);
            assert_eq!(span.t_after_plant, 0);
            assert_eq!(span.t_after_ffb, 0);
            assert_eq!(state.host_time_ns, 500);
            assert_eq!(state.kernel_id, 2);
            assert_eq!(float(state.step_time_us), 0.1);
        }
        other => panic!("expected a frame, got {other:?}"),
    }
}

#[test]
fn a_missing_input_is_a_fault_and_a_late_step_another() {
    let mut session = StepLoop::new(&host, &KernelConfig::default(), 2, 0);
    let mut core = Timed::new(car(), || 5_000_000);
    let result = session.advance(&mut core, &host, &show, &None, 0, 0, false);
    assert!(matches!(result, Advanced::Frame { .. }));
    assert_eq!(session.deadline_misses, 1);
    assert_eq!(
        session.faults,
        fault_flags::INPUT_STALE | fault_flags::DEADLINE_MISSED
    );
    session.telemetry_overflowed();
    assert_ne!(session.faults & fault_flags::TELEMETRY_OVERFLOW, 0);
    assert_ne!(session.faults & fault_flags::INPUT_STALE, 0);
}

#[test]
fn a_plant_that_fails_silences_the_wheel() {
    let mut session = StepLoop::new(&host, &KernelConfig::default(), 2, 0);
    let mut core = Timed::new(car(), || 77);
    let poisoned = DriverInput {
        accelerator_pedal_command: NAN,
        steering_angle_command: NAN,
        ..Default::default()
    };
    let result = session.advance(&mut core, &host, &show, &Some(poisoned), 0, 0, false);
    match result {
        Advanced::Failed { command } => {
            assert_eq!(float(command.torque_nm), 0.0);
            assert_eq!(command.flags, ffb_flags::DISABLED);
            assert_eq!(command.host_time_ns, 77);
        }
        other => panic!("expected a failure, got {other:?}"),
    }
    assert_eq!(session.step_index, 0);
    assert_ne!(session.faults & fault_flags::PLANT_STEP_FAILED, 0);
    assert_ne!(session.faults & fault_flags::PLANT_NONFINITE, 0);
    assert!(session.plant_error.unwrap().starts_with("plant produced a non-finite "));
}

#[test]
fn a_loop_on_time_waits_for_the_slot_it_is_in() {
    let mut session = StepLoop::new(&host, &KernelConfig::default(), 2, 1_000);
    assert_eq!(session.step_ns, 1_000_000);
    assert_eq!(session.deadline, 1_001_000);
    assert_eq!(
        session.pace(5_000, 205_000, 300_000),
        Pace::Until { deadline: 1_001_000 }
    );
    assert_eq!(session.deadline, 2_001_000);
    assert_eq!(session.histogram.max_ns(), 200_000);
    assert_eq!(session.reanchors, 0);
}

#[test]
fn a_late_loop_re_anchors_rather_than_bursting() {
    let mut session = StepLoop::new(&host, &KernelConfig::default(), 2, 0);
    assert_eq!(session.pace(0, 1, 7_500_000), Pace::Late);
    assert_eq!(session.deadline, 8_500_000);
    assert_eq!(session.reanchors, 1);

    let config = KernelConfig {
        overrun_policy: OverrunPolicy::Absorb,
        ..Default::default()
    };
    let mut absorbing = StepLoop::new(&host, &config, 2, 0);
    assert_eq!(absorbing.pace(0, 1, 7_500_000), Pace::Late);
    assert_eq!(absorbing.deadline, 2_000_000);
    assert_eq!(absorbing.reanchors, 0);
}

#[test]
fn a_session_ends_when_it_is_told_to_or_has_had_its_steps() {
    let config = KernelConfig {
        duration_s: Some(bits(0.002)),
        ..Default::default()
    };
    let mut session = StepLoop::new(&host, &config, 2, 0);
    assert!(!session.finished(false));
    assert!(session.finished(true));
    session.step_index = 2;
    assert!(session.finished(false));
}

#[test]
fn a_configuration_is_spelled_out_for_each_part() {
    let config = KernelConfig {
        ffb_gain: bits(0.5),
        ffb_torque_limit: bits(4.0),
        watchdog_miss_limit: 9,
        spin_ns: 100,
        method: Method::Midpoint,
        substeps: 3,
        ..Default::default()
    };
    let ffb = ffb_config(&config);
    assert_eq!(float(ffb.gain), 0.5);
    assert_eq!(float(ffb.torque_limit_nm), 4.0);
    assert_eq!(ffb.watchdog.miss_limit, 9);
    assert_eq!(hid_config(&config).spin_ns, 50);
    let meta = session_meta(&config, 5, 0xFEED);
    assert_eq!(meta.evaluations_per_step, 6);
    assert_eq!(meta.kernel_id, 5);
    assert_eq!(trace_meta(&config, 5).kernel_id, 5);
    assert_eq!(config.step_ns(&host), 1_000_000);
    assert_eq!(float(config.rate_hz(&host)), 1000.0);
    assert_eq!(total_steps(&host, &Some(bits(2.0)), bits(1e-3)), Some(2000));
    assert_eq!(total_steps(&host, &None, bits(1e-3)), None);
}

#[test]
fn a_step_the_plant_is_not_stable_at_is_refused() {
    let caps = car().capabilities();
    assert!(check_step(&host, &show, bits(1e-3), &caps).is_ok());
    assert!(check_step(&host, &show, caps.max_stable_dt, &caps).is_ok());
    let why = check_step(&host, &show, bits(0.02), &caps).unwrap_err();
    assert!(
        why.starts_with("configured step of 20.000 ms exceeds what Reduced14Dof is stable at ("),
        "{why}"
    );
}

#[test]
fn faults_are_named() {
    assert_eq!(describe_faults(0), "none");
    assert_eq!(
        describe_faults(fault_flags::DEADLINE_MISSED | fault_flags::DEVICE_LOST),
        "deadlines missed; device lost"
    );
    assert_eq!(closing_faults(1, 0), 1);
    assert_eq!(closing_faults(1, 2), 1 | fault_flags::TELEMETRY_OVERFLOW);
}

#[test]
fn stale_segments_are_named() {
    assert_eq!(
        clear_stale_segments(),
        vec![
            "bobdil_driver_input",
            "bobdil_vehicle_state",
            "bobdil_ffb_command"
        ]
    );
}

#[test]
fn the_scripted_driver_drives() {
    let launch = script(&host, 1_000, 9);
    assert_eq!(float(launch.accelerator), 1.0);
    assert_eq!(launch.host_time_ns, 9);
    let corner = script(&host, 2_500, 9);
    assert_eq!(float(corner.steer), 0.35 / 2.0);
}

#[test]
fn a_report_says_everything_there_is_to_say() {
    let session = StepLoop::new(&host, &KernelConfig::default(), 2, 0);
    let report = SessionReport {
        steps: 2000,
        sim_time: bits(2.0),
        wall_time_s: bits(2.5),
        rt_status: RtStatus {
            fifo_priority: Some(89),
            pinned_cpu: Some(7),
            memory_locked: MemoryLock::CurrentAndFuture,
            memlock_limit_bytes: 0,
        },
        device: DeviceCaps {
            name: "wheel".to_string(),
            wheel_torque: true,
            wheel_torque_limit: None,
            wheel_range: None,
            pedal_force: false,
            rumble: false,
            axes: 1,
            buttons: 2,
        },
        histogram: session.histogram,
        deadline_misses: 5,
        reanchors: 1,
        fault_flags: fault_flags::DEADLINE_MISSED,
        ffb_clamps: 3,
        watchdog_trips: 0,
        telemetry_frames: 2000,
        telemetry_dropped: 0,
        trace_steps: 0,
        trace_dropped: 0,
        stale_commands: 2,
        ladder_report: "ladder".to_string(),
        plant_error: Some("broke".to_string()),
    };
    let expected = "\n\
--- session report ---------------------------------------------\n\
ladder\n\
device      wheel [1 axes, 2 buttons]: wheel torque\n\
\x20           NOT available: pedal stiffness. Do not attribute these to the car.\n\
scheduling  SCHED_FIFO(89), pinned to cpu7, mlock(current+future)\n\
steps       2000 over 2.00 s sim / 2.50 s wall (rtf 0.8000)\n\
step time   n=0 mean=0.0 p50=0.0 p99=0.0 p99.9=0.0 max=0.0 us\n\
deadlines   5 missed (0.2500%), 1 re-anchors\n\
feedback    3 clamped steps, 0 watchdog trips, 2 stale commands at the device\n\
telemetry   2000 frames written, 0 dropped\n\
FAULTS      deadlines missed\n\
PLANT ERROR broke\n\
----------------------------------------------------------------\n";
    assert_eq!(report.print(&host, &show), expected);
}
