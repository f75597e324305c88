//! Devices, calibration, and the device thread.

use bobdil_kernel::arith::{Operation, NAN};
use bobdil_kernel::generated::frames::{
    ffb_flags, trace_flags, DriverInput, FfbCommand, TraceDevice,
};
use bobdil_kernel::io::device::{
    Calibration, DeviceCaps, DeviceError, InputSource, NullDevice, RawInput,
};
use bobdil_kernel::io::handled::Links;
use bobdil_kernel::io::hid::{device_leg, next_deadline, HidConfig, HidLoop};
use bobdil_kernel::io::sdl3::{
    axis, buttons, choose_device, pedal, AxisMap, Haptic, SdlDevice,
};
use bobdil_kernel::io::watchdog::{command_is_fresh, Verdict, Watchdog, WatchdogConfig};
use bobdil_kernel::text::SHORTEST;
use bobdil_kernel::transport::window::Window;
use bobdil_kernel::transport::{SeqlockReader, SeqlockWriter};
use std::cell::{Cell, RefCell};

fn bits(x: f64) -> u64 {
    if x.is_nan() {
        NAN
    } else {
        x.to_bits()
    }
}

fn float(x: u64) -> f64 {
    f64::from_bits(x)
}

/// The platform's own arithmetic, with one word for every NaN.
fn host(operation: Operation) -> u64 {
    bits(match operation {
        Operation::Count(n) => n as f64,
        Operation::WideCount(n) => n as f64,
        Operation::Add(a, b) => float(a) + float(b),
        Operation::Sub(a, b) => float(a) - float(b),
        Operation::Mul(a, b) => float(a) * float(b),
        Operation::Div(a, b) => float(a) / float(b),
        Operation::Rem(a, b) => float(a) % float(b),
        Operation::Power(a, b) => float(a).powf(float(b)),
        Operation::Root(a) => float(a).sqrt(),
        Operation::Sine(a) => float(a).sin(),
        Operation::Cosine(a) => float(a).cos(),
        Operation::Tangent(a) => float(a).tan(),
        Operation::ArcTangent(a) => float(a).atan(),
        Operation::HyperbolicTangent(a) => float(a).tanh(),
    })
}

fn show(x: u64, decimals: usize) -> String {
    if decimals == SHORTEST {
        format!("{}", float(x))
    } else {
        format!("{:.*}", decimals, float(x))
    }
}

#[test]
fn calibration_maps_full_deflection_to_the_configured_range() {
    let calibration = Calibration { wheel_range: bits(4.0), ..Default::default() };
    let raw = RawInput { steer: bits(1.0), ..Default::default() };
    let input = calibration.apply(&host, &raw, 0);
    assert!((float(input.steering_angle_command) - 2.0).abs() < 1e-12);
}

#[test]
fn pedal_travel_is_rescaled_past_its_dead_zones() {
    let calibration = Calibration::default();
    let idle = calibration.apply(&host, &RawInput { brake: bits(0.01), ..Default::default() }, 0);
    assert_eq!(
        float(idle.brake_pedal_command),
        0.0,
        "a resting pedal must read exactly zero"
    );
    let pressed =
        calibration.apply(&host, &RawInput { brake: bits(0.99), ..Default::default() }, 0);
    assert_eq!(
        float(pressed.brake_pedal_command),
        1.0,
        "a fully pressed pedal must reach one"
    );
}

#[test]
fn raw_axes_are_preserved_for_replay_forensics() {
    let calibration = Calibration::default();
    let raw = RawInput {
        steer: bits(0.37),
        accelerator: bits(0.4),
        brake: bits(0.6),
        ..Default::default()
    };
    let input = calibration.apply(&host, &raw, 5);
    assert_eq!(float(input.raw_steer_norm), 0.37);
    assert_eq!(float(input.raw_accel_norm), 0.4);
    assert_eq!(float(input.raw_brake_norm), 0.6);
    assert_eq!(input.sample_index, 5);
}

#[test]
fn a_device_without_force_output_says_so_rather_than_pretending() {
    let device: NullDevice<fn(u64) -> RawInput> = NullDevice::new();
    let missing = InputSource::caps(&device).missing_cues();
    assert!(missing.contains(&"steering torque"));
    assert!(missing.contains(&"pedal stiffness"));
}

#[test]
fn an_inverted_wheel_turns_the_other_way() {
    let calibration = Calibration {
        wheel_range: bits(4.0),
        invert_steer: true,
        ..Default::default()
    };
    let input = calibration.apply(&host, &RawInput { steer: bits(0.5), ..Default::default() }, 0);
    assert_eq!(float(input.steering_angle_command), -1.0);
}

#[test]
fn a_deadband_swallows_small_deflections() {
    let calibration = Calibration { steer_deadband: bits(0.1), ..Default::default() };
    let inside = calibration.apply(&host, &RawInput { steer: bits(0.05), ..Default::default() }, 0);
    assert_eq!(float(inside.steering_angle_command), 0.0);
    let outside = calibration.apply(&host, &RawInput { steer: bits(0.5), ..Default::default() }, 0);
    assert!(float(outside.steering_angle_command) > 0.0);
}

#[test]
fn device_errors_say_what_went_wrong() {
    assert_eq!(DeviceError::NotFound.message(), "no wheel or pedal device found");
    assert_eq!(
        DeviceError::Unsupported { what: "rumble" }.message(),
        "device does not support rumble"
    );
    assert_eq!(
        DeviceError::Backend { detail: "gone".to_string() }.message(),
        "device backend error: gone"
    );
}

#[test]
fn a_device_describes_the_cues_it_can_deliver() {
    let caps = DeviceCaps {
        name: "wheel".to_string(),
        wheel_torque: true,
        wheel_torque_limit: Some(bits(8.0)),
        wheel_range: None,
        pedal_force: false,
        rumble: true,
        axes: 3,
        buttons: 12,
    };
    assert_eq!(
        caps.describe(&show),
        "wheel [3 axes, 12 buttons]: wheel torque (device peak 8.0 N.m), rumble"
    );
}

// --- the device thread ---------------------------------------------------------------

/// A step thread that dies must leave the wheel slack, not locked. This is
/// tested at the device thread specifically, because it is the only component
/// still running when that happens.
#[test]
fn a_dead_step_thread_leaves_the_wheel_slack() {
    let (mut ffb_writer, mut segment) = SeqlockWriter::<FfbCommand>::create("dead_ffb", 42);
    let (_input_writer, _input) = SeqlockWriter::<DriverInput>::create("dead_input", 42);
    let reader = SeqlockReader::<FfbCommand>::attach(&segment.header, 42).unwrap();

    // A healthy command, published once and then never again.
    let published_at = 5_000_000_000u64;
    ffb_writer.publish(
        &mut segment,
        &FfbCommand {
            host_time_ns: published_at,
            torque_nm: bits(6.0),
            flags: ffb_flags::ACTIVE,
            ..Default::default()
        },
    );

    let mut watchdog = Watchdog::new(WatchdogConfig {
        miss_limit: 3,
        ramp_ms: bits(40.0),
        recovery_streak: 30,
    });
    let max_age = 8_000_000u64;
    let dt = bits(1e-3);

    let (command, _) = reader
        .read_latest(&mut Window::new(|| segment.sequence, || segment.load::<FfbCommand>()))
        .unwrap();
    let mut torque = float(command.torque_nm);
    // Simulate 200 ms of wall clock passing with no new command.
    for step in 1..=200u64 {
        let now = published_at + step * 1_000_000;
        let fresh = command_is_fresh(command.host_time_ns, now, max_age);
        let verdict = watchdog.observe(&host, fresh, dt);
        torque = float(command.torque_nm) * float(verdict.scale());
    }
    assert_eq!(
        torque, 0.0,
        "a step thread that stopped publishing must slacken the wheel"
    );
}

#[test]
fn a_null_device_still_exercises_the_whole_loop() {
    let device = NullDevice::scripted(|index: u64| RawInput {
        steer: bits((index as f64 * 0.001).sin()),
        accelerator: bits(0.5),
        brake: 0,
        buttons: 0,
        host_time_ns: 1,
    });
    let mut device = device;
    let raw = InputSource::poll(&mut device).unwrap();
    assert_eq!(float(raw.accelerator), 0.5);
    assert!(
        !InputSource::caps(&device).wheel_torque,
        "the null device must report that it has no torque output"
    );
}

fn idle(_index: u64) -> RawInput {
    RawInput::default()
}

#[test]
fn a_fresh_command_reaches_the_device_untouched() {
    let mut hid = HidLoop::new(NullDevice::scripted(idle), HidConfig::default());
    let command = FfbCommand {
        host_time_ns: 1_000_000,
        torque_nm: bits(3.0),
        ..Default::default()
    };
    let delivery = hid.deliver(&host, &Some(command), 2_000_000);
    assert!(delivery.fresh && delivery.applied);
    assert_eq!(float(hid.device.device().last_command.torque_nm), 3.0);
    assert_eq!(hid.stats.stale_commands, 0);
}

#[test]
fn a_stale_command_is_replaced_by_nothing_at_once() {
    let mut hid = HidLoop::new(NullDevice::scripted(idle), HidConfig::default());
    let command = FfbCommand {
        host_time_ns: 1_000_000,
        torque_nm: bits(3.0),
        damper_coeff: bits(1.0),
        ..Default::default()
    };
    let delivery = hid.deliver(&host, &Some(command), 100_000_000);
    assert!(!delivery.fresh);
    assert_eq!(float(hid.device.device().last_command.torque_nm), 0.0);
    assert_eq!(float(hid.device.device().last_command.damper_coeff), 0.0);
    assert_eq!(hid.device.device().last_command.host_time_ns, 100_000_000);
    assert_eq!(hid.device.device().last_command.flags, ffb_flags::DISABLED);
    assert_eq!(hid.stats.stale_commands, 1);
}

#[test]
fn a_turn_samples_publishes_delivers_and_paces() {
    let published = RefCell::new(Vec::new());
    let waited = Cell::new(0u64);
    let mut hid = HidLoop::new(
        NullDevice::scripted(|_index: u64| RawInput { steer: bits(1.0), ..Default::default() }),
        HidConfig::default(),
    )
    .linked(Links::new(
        || 10_000_000,
        || {
            Some(FfbCommand {
                host_time_ns: 9_000_000,
                torque_nm: bits(2.0),
                ..Default::default()
            })
        },
        |input: DriverInput| published.borrow_mut().push(input),
        |_leg: TraceDevice| panic!("tracing is off"),
        || panic!("a turn does not ask whether to stop"),
        |deadline: u64| waited.set(deadline),
    ));
    let turn = hid.turn(&host, false, 10_000_000);
    assert_eq!(waited.get(), 11_000_000);
    assert_eq!(published.borrow().len(), 1);
    assert_eq!(hid.sample_index, 1);
    assert!(turn.delivery.fresh);
    assert_eq!(float(hid.device.device().last_command.torque_nm), 2.0);
    assert_eq!(turn.deadline, 11_000_000);
    hid.finish();
    assert!(hid.device.device().zeroed);
    assert_eq!(float(hid.device.device().last_command.torque_nm), 0.0);
}

#[test]
fn a_device_thread_that_fell_behind_does_not_chase_its_backlog() {
    assert_eq!(next_deadline(1_000, 100, 1_050), 1_100);
    assert_eq!(next_deadline(1_000, 100, 1_100), 1_100);
    assert_eq!(next_deadline(1_000, 100, 9_000), 9_100);
}

#[test]
fn every_device_leg_says_what_became_of_the_command() {
    let command = Some(FfbCommand { host_time_ns: 7, ..Default::default() });
    let fresh = device_leg(&command, true, true, 1, 2, 3);
    assert_eq!(fresh.flags, trace_flags::COMMAND_FRESH);
    assert_eq!(fresh.command_host_time_ns, 7);
    let stale = device_leg(&command, false, true, 1, 2, 3);
    assert_eq!(stale.flags, trace_flags::COMMAND_STALE);
    let missing = device_leg(&None, false, false, 1, 2, 3);
    assert_eq!(
        missing.flags,
        trace_flags::COMMAND_MISSING | trace_flags::APPLY_FAILED
    );
    assert_eq!(missing.command_host_time_ns, 0);
}

#[test]
fn a_poll_error_is_counted_and_publishes_nothing() {
    let mut hid = HidLoop::new(NullDevice::scripted(idle), HidConfig::default());
    assert!(hid.sampled(&host, &Err(DeviceError::NotFound)).is_none());
    assert_eq!(hid.stats.poll_errors, 1);
    assert_eq!(hid.stats.samples, 0);
    assert_eq!(hid.sample_index, 0);
}

// --- a wheel ---------------------------------------------------------------------------

#[test]
fn a_device_with_torque_is_preferred() {
    assert_eq!(choose_device(&vec![Some(false), None, Some(true)]).unwrap(), 2);
    assert_eq!(choose_device(&vec![None, Some(false), Some(false)]).unwrap(), 1);
    assert!(matches!(choose_device(&vec![None, None]), Err(DeviceError::NotFound)));
    assert!(matches!(choose_device(&vec![]), Err(DeviceError::NotFound)));
}

#[test]
fn axes_and_pedals_are_fractions_of_full_travel() {
    assert_eq!(float(axis(&host, 32767)), 1.0);
    assert_eq!(float(axis(&host, 0)), 0.0);
    assert_eq!(float(axis(&host, -32767)), -1.0);
    assert_eq!(float(pedal(&host, -32768, true, false)), 0.0);
    assert_eq!(float(pedal(&host, 32767, true, false)), 1.0);
    assert_eq!(float(pedal(&host, 32767, true, true)), 0.0);
    assert_eq!(float(pedal(&host, -5, false, false)), 0.0);
}

#[test]
fn the_first_sixty_four_buttons_are_bits() {
    assert_eq!(buttons(&vec![true, false, true]), 5);
    assert_eq!(buttons(&vec![true; 80]), u64::MAX);
    assert_eq!(buttons(&vec![]), 0);
}

fn wheel(full_scale: f64) -> SdlDevice {
    SdlDevice::open(
        "base",
        3,
        16,
        &Some(Haptic {
            name: "motor".to_string(),
            rumble: false,
            constant: true,
            running: true,
            created: true,
        }),
        AxisMap::default(),
        bits(full_scale),
    )
}

#[test]
fn a_torque_becomes_a_level_and_is_sent_once() {
    let mut device = wheel(8.0);
    assert!(device.caps.wheel_torque);
    assert_eq!(device.caps.name, "base / motor");
    let command = FfbCommand { torque_nm: bits(4.0), ..Default::default() };
    assert_eq!(device.apply(&host, &command).unwrap(), Some(16383));
    device.took(16383);
    assert_eq!(device.apply(&host, &command).unwrap(), None);
    let hard = FfbCommand { torque_nm: bits(-99.0), ..Default::default() };
    assert_eq!(device.apply(&host, &hard).unwrap(), Some(-32767));
}

#[test]
fn a_poisoned_torque_is_sent_as_nothing() {
    let mut device = wheel(8.0);
    device.took(100);
    for poison in [f64::NAN, f64::INFINITY, f64::NEG_INFINITY] {
        let command = FfbCommand { torque_nm: bits(poison), ..Default::default() };
        assert_eq!(device.apply(&host, &command).unwrap(), Some(0));
    }
}

#[test]
fn a_wheel_without_an_effect_refuses_torque() {
    let device = SdlDevice::open("base", -1, -1, &None, AxisMap::default(), bits(8.0));
    assert_eq!(device.caps.axes, 0);
    assert!(!device.caps.wheel_torque);
    let error = device.apply(&host, &FfbCommand::default()).unwrap_err();
    assert_eq!(error.message(), "device does not support constant force output");
}

#[test]
fn a_wheel_reads_every_control_at_once() {
    let device = wheel(8.0);
    let raw = device.poll(&host, -32768, 32767, -32768, &vec![false, true], 77);
    assert_eq!(float(raw.steer), -1.0);
    assert_eq!(float(raw.accelerator), 1.0);
    assert_eq!(float(raw.brake), 0.0);
    assert_eq!(raw.buttons, 2);
    assert_eq!(raw.host_time_ns, 77);
    assert_eq!(SdlDevice::with_pedal_device(2, 1).unwrap(), 1);
    assert!(SdlDevice::with_pedal_device(2, 2).is_err());
}

#[test]
fn a_verdict_scales_what_it_says() {
    assert_eq!(float(Verdict::Pass.scale()), 1.0);
    assert_eq!(float(Verdict::Tripped.scale()), 0.0);
    assert_eq!(float(Verdict::RampingDown { scale: bits(0.25) }.scale()), 0.25);
}

/// The loop polls and delivers until it is told to stop, and then leaves the wheel
/// slack.
#[test]
fn the_device_loop_ends_slack() {
    let now = Cell::new(1_000_000u64);
    let turns = Cell::new(0u32);
    let legs = RefCell::new(Vec::new());
    let clock = || {
        now.set(now.get() + 10);
        now.get()
    };
    let latest = || {
        Some(FfbCommand {
            host_time_ns: now.get(),
            torque_nm: bits(2.0),
            ..Default::default()
        })
    };
    let publish = |_input: DriverInput| {};
    let trace = |leg: TraceDevice| legs.borrow_mut().push(leg);
    let stop = || {
        turns.set(turns.get() + 1);
        turns.get() > 7
    };
    let wait = |deadline: u64| now.set(deadline);
    let mut hid = HidLoop::new(NullDevice::scripted(idle), HidConfig::default())
        .linked(Links::new(clock, latest, publish, trace, stop, wait));
    let due = hid.run(&host, true, 2_000_000, 5).expect("nobody told it to stop yet");
    assert_eq!(due, 7_000_000);
    assert_eq!(float(hid.device.device().last_command.torque_nm), 2.0);
    assert!(hid.run(&host, true, due, 5).is_none());
    assert_eq!(hid.stats.samples, 7);
    assert_eq!(legs.borrow().len(), 7);
    assert!(legs.borrow().iter().all(|leg| leg.t_after_apply > leg.t_pickup));
    assert!(hid.device.device().zeroed);
    assert_eq!(float(hid.device.device().last_command.torque_nm), 0.0);
}
