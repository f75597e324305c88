//! What holds across calls, on concrete values.

use bobdil_kernel::arith::{Operation, NAN};
use bobdil_kernel::cli::report::devices;
use bobdil_kernel::config::KernelConfig;
use bobdil_kernel::generated::frames::{
    fault_flags, kernel_id, DriverInput, FfbCommand, TraceStep, VehicleState,
};
use bobdil_kernel::io::device::DeviceCaps;
use bobdil_kernel::io::{FfbChain, FfbConfig, ShaperConfig, SteerShaper, Verdict, Watchdog, WatchdogConfig};
use bobdil_kernel::loop_runner::{initial_conditions, StepLoop, DEFAULT_METHOD};
use bobdil_kernel::metrics::{StepTimeHistogram, P50, P99, P999};
use bobdil_kernel::plant::fmu_me::{file_uri, resource_uri, PlantManifest};
use bobdil_kernel::plant::reduced::params::ReducedParams;
use bobdil_kernel::plant::reduced::Reduced14Dof;
use bobdil_kernel::plant::{commands, InitialConditions, PlantKernel};
use bobdil_kernel::replay::{run_once, ReplayConfig};
use bobdil_kernel::rig::{Lines, Rig, Timed};
use bobdil_kernel::telemetry::{SessionMeta, TelemetryReader};
use bobdil_kernel::text::SHORTEST;
use bobdil_kernel::transport::spsc_ring::{channel, ring_size};
use std::cell::{Cell, RefCell};

fn bits(x: f64) -> u64 {
    if x.is_nan() {
        NAN
    } else {
        x.to_bits()
    }
}

fn float(x: u64) -> f64 {
    f64::from_bits(x)
}

/// The platform's own arithmetic, with one word for every NaN.
fn host(operation: Operation) -> u64 {
    bits(match operation {
        Operation::Count(n) => n as f64,
        Operation::WideCount(n) => n as f64,
        Operation::Add(a, b) => float(a) + float(b),
        Operation::Sub(a, b) => float(a) - float(b),
        Operation::Mul(a, b) => float(a) * float(b),
        Operation::Div(a, b) => float(a) / float(b),
        Operation::Rem(a, b) => float(a) % float(b),
        Operation::Power(a, b) => float(a).powf(float(b)),
        Operation::Root(a) => float(a).sqrt(),
        Operation::Sine(a) => float(a).sin(),
        Operation::Cosine(a) => float(a).cos(),
        Operation::Tangent(a) => float(a).tan(),
        Operation::ArcTangent(a) => float(a).atan(),
        Operation::HyperbolicTangent(a) => float(a).tanh(),
    })
}

fn show(x: u64, decimals: usize) -> String {
    if decimals == SHORTEST {
        format!("{}", float(x))
    } else {
        format!("{:.*}", decimals, float(x))
    }
}

type Unit = fn(Operation) -> u64;

fn car() -> Reduced14Dof<Unit> {
    Reduced14Dof::new(host as Unit, ReducedParams::default())
}

/// Half a second of a driver who steers, on a clock that never misses.
fn drive(steps: u32, torque_limit: f64, room: usize) -> (Vec<VehicleState>, Vec<FfbCommand>, StepLoop) {
    let config = KernelConfig {
        initial_speed: bits(12.0),
        ffb_torque_limit: bits(torque_limit),
        ..Default::default()
    };
    let mut plant = car();
    plant.reset(&initial_conditions(&config)).unwrap();
    let mut session = StepLoop::new(&host, &config, 2, 0);
    let now = Cell::new(0u64);
    let samples = Cell::new(0u64);
    let frames = RefCell::new(Vec::new());
    let torques = RefCell::new(Vec::new());
    let clock = || {
        now.set(now.get() + 100);
        now.get()
    };
    let lines = Lines::new(
        || {
            samples.set(samples.get() + 1);
            Some(DriverInput {
                steering_angle_command: bits((samples.get() as f64 * 0.02).sin()),
                accelerator_pedal_command: bits(0.7),
                host_time_ns: samples.get(),
                sample_index: samples.get(),
                ..Default::default()
            })
        },
        |_state: VehicleState, command: FfbCommand| torques.borrow_mut().push(command),
        |_command: FfbCommand| panic!("nothing fails here"),
        |_span: TraceStep| panic!("tracing is off"),
        |state: VehicleState| {
            if frames.borrow().len() < room {
                frames.borrow_mut().push(state);
                true
            } else {
                false
            }
        },
        || false,
        |deadline: u64| now.set(deadline),
    );
    let mut rig = Rig { core: Timed::new(plant, clock), lines };
    let more = session.run(&mut rig, &host, &show, false, steps);
    assert!(more, "nothing ended the session before its steps were up");
    let frames = frames.borrow().clone();
    let torques = torques.borrow().clone();
    (frames, torques, session)
}

#[test]
fn a_live_session_replays_to_the_last_bit() {
    let (frames, _, _) = drive(500, 8.0, usize::MAX);
    let recording = TelemetryReader {
        meta: SessionMeta {
            kernel_id: kernel_id::REDUCED14DOF,
            ..Default::default()
        },
        frames,
    };
    let config = ReplayConfig {
        initial: InitialConditions {
            speed: bits(12.0),
            ..Default::default()
        },
        ..Default::default()
    };
    let outcome = run_once(car(), &host, &config, &recording, &show).unwrap();
    for (index, (live, again)) in recording.frames.iter().zip(&outcome.frames).enumerate() {
        let same = VehicleState {
            sim_time: live.sim_time,
            step_index: live.step_index,
            host_time_ns: live.host_time_ns,
            ffb_torque_nm: live.ffb_torque_nm,
            kernel_id: live.kernel_id,
            deadline_misses: live.deadline_misses,
            fault_flags: live.fault_flags,
            rtf: live.rtf,
            step_time_us: live.step_time_us,
            step_time_p99_us: live.step_time_p99_us,
            ..*again
        };
        assert_eq!(*live, same, "frame {index}");
    }
    assert!(float(outcome.frames[499].pos_y) != 0.0, "it did steer");
}

#[test]
fn a_session_keeps_its_torque_limit() {
    let (_, torques, session) = drive(500, 0.5, usize::MAX);
    assert_eq!(torques.len(), 500);
    let worst = torques
        .iter()
        .map(|command| float(command.torque_nm).abs())
        .fold(0.0, f64::max);
    assert_eq!(worst, 0.5, "the clamp was reached, and held");
    assert!(session.chain.clamp_events() > 0);
    assert_ne!(session.faults & fault_flags::FFB_CLAMPED, 0);
}

#[test]
fn a_frame_without_room_stays_on_record() {
    let (frames, _, session) = drive(40, 8.0, 10);
    assert_eq!(frames.len(), 10);
    assert_eq!(session.step_index, 40);
    assert_ne!(session.faults & fault_flags::TELEMETRY_OVERFLOW, 0);
    assert_eq!(session.faults & fault_flags::DEADLINE_MISSED, 0);
}

#[test]
fn a_reset_forgets_the_drive() {
    let init = InitialConditions {
        speed: bits(7.0),
        ..Default::default()
    };
    let mut used = car();
    used.reset(&InitialConditions::default()).unwrap();
    for _ in 0..200 {
        let input = DriverInput {
            accelerator_pedal_command: bits(1.0),
            steering_angle_command: bits(0.3),
            ..Default::default()
        };
        used.step(&input, bits(1e-3)).unwrap();
    }
    used.reset(&init).unwrap();
    let mut fresh = car();
    fresh.reset(&init).unwrap();
    assert_eq!(used.state_vector(), fresh.state_vector());
    let input = DriverInput::default();
    assert_eq!(
        used.step(&input, bits(1e-3)).unwrap(),
        fresh.step(&input, bits(1e-3)).unwrap()
    );
}

#[test]
fn the_physics_sees_the_commands_alone() {
    let full = DriverInput {
        steering_angle_command: bits(0.1),
        accelerator_pedal_command: bits(0.4),
        brake_pedal_command: bits(0.2),
        host_time_ns: 9,
        sample_index: 8,
        buttons: 7,
        ..Default::default()
    };
    let bare = commands(&full);
    assert_eq!(bare.steering_angle_command, full.steering_angle_command);
    assert_eq!(bare.brake_pedal_command, full.brake_pedal_command);
    assert_eq!((bare.host_time_ns, bare.sample_index, bare.buttons), (0, 0, 0));
    let (mut one, mut other) = (car(), car());
    assert_eq!(
        one.step(&full, bits(1e-3)).unwrap(),
        other.step(&bare, bits(1e-3)).unwrap()
    );
}

#[test]
fn a_refused_tunable_changes_nothing() {
    let (mut one, mut other) = (car(), car());
    assert!(one.set_tunable(2, bits(0.95)).is_err());
    assert!(one.set_tunable(77, bits(0.5)).is_err());
    assert_eq!(*one.params(), *other.params());
    assert!(other.set_tunable(2, bits(0.5)).is_ok());
    assert_eq!(other.params().brake_bias, bits(0.5));
    assert_eq!(one.state_vector(), other.state_vector());
}

#[test]
fn percentiles_come_in_order() {
    let mut histogram = StepTimeHistogram::new(1_000_000, 1_000);
    for i in 0..2_000u64 {
        histogram.record(i * i % 3_000_017);
    }
    let p50 = histogram.percentile_ns(&host, P50);
    let p99 = histogram.percentile_ns(&host, P99);
    let p999 = histogram.percentile_ns(&host, P999);
    assert!(p50 <= p99 && p99 <= p999 && p999 <= histogram.max_ns() + 1_000);
}

#[test]
fn a_uri_holds_nothing_an_fmu_could_reject() {
    let uri = resource_uri("re sources/\u{e4}%", "/plants/x", &|path: &str| path.to_string());
    assert_eq!(uri, "file:///plants/x/re%20sources/%C3%A4%25");
}

#[test]
fn the_last_resources_line_counts_whatever_the_disk_says() {
    assert_eq!(file_uri("/a b/c"), "file:///a%20b/c");
    let asked = std::cell::Cell::new(0);
    let moving = |path: &str| {
        asked.set(asked.get() + 1);
        format!("/disk{}{path}", asked.get())
    };
    let text = "model_identifier=Car\nstates=1\nresources=old\nresources=new\n";
    let manifest = PlantManifest::parse(text, "/x", &moving).unwrap();
    assert_eq!(manifest.resource_uri, "file:///disk2/x/new");
}

#[test]
fn a_model_says_what_it_can_do() {
    let text = "model_identifier=Car\nstates=45\ntunable:2=7\n";
    let manifest = PlantManifest::parse(text, "/x", &|path: &str| path.to_string()).unwrap();
    let caps = manifest.capabilities(1);
    assert_eq!(caps.id, 1);
    assert_eq!(caps.name, "Car");
    assert_eq!(caps.max_stable_dt, bits(1e-3));
    assert_eq!(caps.continuous_states, 45);
    assert!(caps.supports_tunables);
}

#[test]
fn devices_are_listed_with_what_they_lack() {
    let mut caps = DeviceCaps {
        name: "pad".to_string(),
        wheel_torque: false,
        wheel_torque_limit: None,
        wheel_range: None,
        pedal_force: false,
        rumble: true,
        axes: 4,
        buttons: 12,
    };
    assert_eq!(caps.missing_text(), "steering torque, pedal stiffness");
    let page = devices(&caps, &show);
    assert!(page.ends_with(
        "NOT available: steering torque, pedal stiffness.\n\
         BobDil will not claim these cues, and a driver must not attribute their absence to the car.\n"
    ));
    caps.wheel_torque = true;
    caps.pedal_force = true;
    assert_eq!(caps.missing_text(), "");
    assert_eq!(devices(&caps, &show).lines().count(), 1);
}

#[test]
fn what_goes_through_a_ring_comes_out_in_order() {
    assert_eq!(ring_size(0), 2);
    assert_eq!(ring_size(5), 8);
    let (producer, consumer, mut ring) = channel::<u64>(4);
    let mut accepted = Vec::new();
    let mut out = Vec::new();
    for i in 0..100u64 {
        if producer.push(&mut ring, i).is_ok() {
            accepted.push(i);
        }
        if i % 3 == 0 {
            if let Some(item) = consumer.pop(&mut ring) {
                out.push(item);
            }
        }
    }
    consumer.drain_into(&mut ring, &mut out, usize::MAX);
    assert_eq!(out, accepted);
    assert_eq!(accepted.len() as u64 + producer.overflows(&ring), 100);
}

#[test]
fn the_end_stop_waits_for_the_end_of_the_rack() {
    let torque = |angle: f64| {
        let mut chain = FfbChain::new(FfbConfig::default());
        let state = VehicleState {
            handwheel_angle: bits(angle),
            ..Default::default()
        };
        float(chain.condition(&host, &state, bits(1e-3), 0, true).command.torque_nm)
    };
    assert_eq!(torque(2.2), 0.0);
    assert!(torque(2.3) < 0.0);
    assert!(torque(-2.3) > 0.0);
}

#[test]
fn a_healthy_watchdog_is_not_felt_and_a_bypass_is_a_bypass() {
    let mut watchdog = Watchdog::new(WatchdogConfig::default());
    for _ in 0..100 {
        assert_eq!(watchdog.observe(&host, true, bits(1e-3)), Verdict::Pass);
    }
    let mut shaper = SteerShaper::new(ShaperConfig {
        enabled: false,
        ..Default::default()
    });
    assert_eq!(shaper.update(&host, bits(0.7), bits(1e-3)).angle, bits(0.7));
}

#[test]
fn torque_comes_back_by_degrees() {
    let mut watchdog = Watchdog::new(WatchdogConfig::default());
    for _ in 0..60 {
        watchdog.observe(&host, false, bits(1e-3));
    }
    let mut last = float(watchdog.scale());
    assert_eq!(last, 0.0);
    for _ in 0..200 {
        watchdog.observe(&host, true, bits(1e-3));
        let scale = float(watchdog.scale());
        assert!(scale >= last && scale <= last + 0.02 + 1e-12);
        last = scale;
    }
    assert_eq!(last, 1.0);
}

#[test]
fn an_acknowledged_trip_still_ramps_up() {
    let mut watchdog = Watchdog::new(WatchdogConfig::default());
    watchdog.trip_now();
    watchdog.recover();
    assert!(!watchdog.is_tripped());
    assert_eq!(float(watchdog.scale()), 0.0);
    watchdog.observe(&host, true, bits(1e-3));
    assert!((float(watchdog.scale()) - 0.02).abs() < 1e-12);
}

#[test]
fn a_car_can_be_set_up_in_place() {
    let mut plant = car();
    plant.params_mut().mass = bits(320.0);
    assert_eq!(plant.params().mass, bits(320.0));
    assert_eq!(DEFAULT_METHOD.evaluations(), 4);
}
