//! Replay, and the changes of setup it is asked to make.

use bobdil_kernel::arith::{Operation, NAN};
use bobdil_kernel::generated::frames::{kernel_id, DriverInput, VehicleState};
use bobdil_kernel::plant::reduced::params::ReducedParams;
use bobdil_kernel::plant::reduced::Reduced14Dof;
use bobdil_kernel::plant::{InitialConditions, PlantKernel};
use bobdil_kernel::replay::{
    frames_identical, replay, run_once, ReplayConfig, ReplayOutcome, TunableSetting,
};
use bobdil_kernel::telemetry::{SessionMeta, TelemetryReader};
use bobdil_kernel::text::SHORTEST;

fn bits(x: f64) -> u64 {
    if x.is_nan() {
        NAN
    } else {
        x.to_bits()
    }
}

fn float(x: u64) -> f64 {
    f64::from_bits(x)
}

/// The platform's own arithmetic, with one word for every NaN.
fn host(operation: Operation) -> u64 {
    bits(match operation {
        Operation::Count(n) => n as f64,
        Operation::WideCount(n) => n as f64,
        Operation::Add(a, b) => float(a) + float(b),
        Operation::Sub(a, b) => float(a) - float(b),
        Operation::Mul(a, b) => float(a) * float(b),
        Operation::Div(a, b) => float(a) / float(b),
        Operation::Rem(a, b) => float(a) % float(b),
        Operation::Power(a, b) => float(a).powf(float(b)),
        Operation::Root(a) => float(a).sqrt(),
        Operation::Sine(a) => float(a).sin(),
        Operation::Cosine(a) => float(a).cos(),
        Operation::Tangent(a) => float(a).tan(),
        Operation::ArcTangent(a) => float(a).atan(),
        Operation::HyperbolicTangent(a) => float(a).tanh(),
    })
}

fn show(x: u64, decimals: usize) -> String {
    if decimals == SHORTEST {
        format!("{}", float(x))
    } else {
        format!("{:.*}", decimals, float(x))
    }
}

fn numeral(text: &str) -> Option<u64> {
    text.parse::<f64>().ok().map(bits)
}

type Unit = fn(Operation) -> u64;

fn parse(text: &str) -> Result<TunableSetting, String> {
    TunableSetting::parse(text, &numeral, &show)
}

#[test]
fn a_tunable_is_resolved_by_name_from_the_schema() {
    let setting = parse("brake_bias=0.6").unwrap();
    assert_eq!(setting.spec_row.name, "brake_bias");
    assert_eq!(float(setting.value), 0.6);
}

#[test]
fn an_out_of_range_tunable_is_refused_before_anything_runs() {
    let error = parse("brake_bias=0.95").unwrap_err();
    assert!(error.contains("outside"), "{error}");
}

#[test]
fn an_unknown_tunable_lists_the_ones_that_exist() {
    let error = parse("front_arb=1000").unwrap_err();
    assert!(error.contains("front_arb_rate"), "{error}");
}

#[test]
fn a_tunable_without_a_value_is_an_error_not_a_default() {
    assert!(parse("brake_bias").is_err());
}

#[test]
fn identical_frames_compare_equal_even_when_both_are_nan() {
    let nan = VehicleState {
        acc_y: bits(f64::NAN),
        ..Default::default()
    };
    assert!(frames_identical(&nan, &nan));
}

#[test]
fn frames_that_differ_in_one_field_are_not_identical() {
    let a = VehicleState::default();
    let b = VehicleState {
        acc_y: bits(1e-300),
        ..Default::default()
    };
    assert!(!frames_identical(&a, &b));
}

#[test]
fn every_refusal_of_a_tunable_is_spelled_out() {
    assert_eq!(
        parse("brake_bias").unwrap_err(),
        "--tunable expects name=value, got \"brake_bias\""
    );
    assert_eq!(
        parse("wing=1").unwrap_err(),
        "no tunable named \"wing\"; the schema defines [\"front_arb_rate\", \
         \"rear_arb_rate\", \"brake_bias\", \"diff_preload\"]"
    );
    assert_eq!(
        parse("brake_bias= x\t").unwrap_err(),
        "brake_bias: \" x\\t\" is not a number"
    );
    assert_eq!(
        parse("brake_bias=0.95").unwrap_err(),
        "brake_bias=0.95 is outside the schema's range [0.4, 0.8]"
    );
    assert!(parse("brake_bias=NaN").unwrap_err().contains("outside"));
    assert_eq!(parse(" brake_bias = 0.5 ").unwrap().describe(&show), "brake_bias=0.5");
}

// --- running it ------------------------------------------------------------------------------

fn car() -> Reduced14Dof<Unit> {
    Reduced14Dof::new(host as Unit, ReducedParams::default())
}

/// A second of driving, as a live session would have recorded it.
fn recording(frames: usize) -> TelemetryReader {
    let mut plant = car();
    plant.reset(&InitialConditions::default()).unwrap();
    let mut log = Vec::new();
    for i in 0..frames {
        let t = i as f64 * 1e-3;
        let command = DriverInput {
            steering_angle_command: bits(0.2 * (3.0 * t).sin()),
            accelerator_pedal_command: bits(0.8),
            ..Default::default()
        };
        let mut state = plant.step(&command, bits(1e-3)).unwrap();
        // What the machine was like is no part of a replay.
        state.host_time_ns = 1_000 + i as u64;
        state.deadline_misses = 3;
        log.push(state);
    }
    TelemetryReader {
        meta: SessionMeta {
            kernel_id: kernel_id::REDUCED14DOF,
            ..Default::default()
        },
        frames: log,
    }
}

fn replayed(config: &ReplayConfig, recording: &TelemetryReader) -> ReplayOutcome {
    replay(car(), car(), &host, config, recording, &show).unwrap()
}

#[test]
fn a_replay_reproduces_itself_and_the_recording() {
    let recording = recording(300);
    let outcome = replayed(&ReplayConfig::default(), &recording);
    assert!(outcome.deterministic);
    assert_eq!(outcome.kernel_name, "Reduced14Dof");
    assert_eq!(outcome.frames.len(), 300);
    for (i, (ours, theirs)) in outcome.frames.iter().zip(&recording.frames).enumerate() {
        assert_eq!(ours.vehicle_speed, theirs.vehicle_speed, "frame {i}");
        assert_eq!(ours.handwheel_torque, theirs.handwheel_torque, "frame {i}");
        assert_eq!(ours.step_index, i as u64 + 1);
        assert_eq!(ours.steering_angle_command, theirs.steering_angle_command);
        assert_eq!(ours.accelerator_pedal_command, theirs.accelerator_pedal_command);
        assert_eq!(ours.brake_pedal_command, theirs.brake_pedal_command);
        assert_eq!(ours.host_time_ns, 0);
        assert_eq!(ours.deadline_misses, 0);
        assert_eq!((ours.rtf, ours.step_time_us, ours.step_time_p99_us), (0, 0, 0));
        assert_eq!(ours.fault_flags, 0);
    }
    assert!(float(outcome.frames[299].pos_x) > 0.0, "the car covered ground");
}

#[test]
fn a_change_of_setup_changes_the_car_and_nothing_else() {
    let recording = recording(300);
    let plain = replayed(&ReplayConfig::default(), &recording);
    let config = ReplayConfig {
        tunables: vec![parse("front_arb_rate=60000").unwrap()],
        ..Default::default()
    };
    let tuned = replayed(&config, &recording);
    assert!(tuned.deterministic);
    assert_ne!(plain.final_state, tuned.final_state);
    assert_eq!(
        plain.frames[299].steering_angle_command,
        tuned.frames[299].steering_angle_command
    );
}

#[test]
fn plants_that_were_not_built_alike_are_told_apart() {
    let recording = recording(100);
    let mut other = ReducedParams::default();
    other.mass = bits(400.0);
    let outcome = replay(
        Reduced14Dof::new(host as Unit, other),
        car(),
        &host,
        &ReplayConfig::default(),
        &recording,
        &show,
    )
    .unwrap();
    assert!(!outcome.deterministic);
}

#[test]
fn a_replay_written_out_replays_into_itself() {
    let recording = recording(120);
    let first = replayed(&ReplayConfig::default(), &recording);
    let (frames, bytes) = bobdil_kernel::replay::write(&first, &recording.meta);
    assert_eq!(frames, 120);
    let again = TelemetryReader::open(&bytes).unwrap();
    let second = run_once(car(), &host, &ReplayConfig::default(), &again, &show).unwrap();
    for (a, b) in first.frames.iter().zip(&second.frames) {
        assert!(frames_identical(a, b));
    }
    assert_eq!(first.final_state, second.final_state);
}

#[test]
fn a_plant_that_diverges_stops_the_replay() {
    let mut recording = recording(10);
    recording.frames[4].steering_angle_command = NAN;
    let error = run_once(car(), &host, &ReplayConfig::default(), &recording, &show).unwrap_err();
    assert!(error.contains("non-finite"), "{error}");
}

#[test]
fn an_unknown_tunable_id_stops_a_replay_before_it_starts() {
    let mut setting = parse("brake_bias=0.5").unwrap();
    setting.spec_row.id = 99;
    let config = ReplayConfig {
        tunables: vec![setting],
        ..Default::default()
    };
    let error = run_once(car(), &host, &config, &recording(2), &show).unwrap_err();
    assert!(error.starts_with("brake_bias=0.5: "), "{error}");
}

/// Everything the header says of how a recording came about is checked before a
/// step is taken.
#[test]
fn a_recording_of_something_else_is_not_replayed() {
    let attempt = |change: fn(&mut SessionMeta)| {
        let mut recording = recording(3);
        change(&mut recording.meta);
        replay(car(), car(), &host, &ReplayConfig::default(), &recording, &show)
    };
    assert!(attempt(|_meta| {}).is_ok());
    assert_eq!(
        attempt(|meta| meta.kernel_id = kernel_id::VEHICLE_FMI).unwrap_err(),
        format!(
            "not comparable: recorded by kernel id {}, this plant is kernel id {}",
            kernel_id::VEHICLE_FMI,
            kernel_id::REDUCED14DOF
        )
    );
    assert_eq!(
        attempt(|meta| meta.evaluations_per_step = 8).unwrap_err(),
        "not comparable: recorded with 8 evaluations per step, this integrator is another"
    );
    let error = attempt(|meta| meta.vehicle_hash = 0xDEAD).unwrap_err();
    assert!(error.starts_with("not comparable: recorded with vehicle "), "{error}");
}

/// A state that is not a number is reproduced like any other.
#[test]
fn two_runs_that_agree_to_the_bit_are_deterministic() {
    let recording = recording(40);
    let outcome = replayed(&ReplayConfig::default(), &recording);
    assert!(outcome.deterministic);
    assert_eq!(outcome.kernel_id, kernel_id::REDUCED14DOF);
}
