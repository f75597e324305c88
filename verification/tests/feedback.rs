//! The force-feedback chain, the watchdog and the steering shaper.

use bobdil_kernel::arith::{Operation, NAN};
use bobdil_kernel::generated::frames::{ffb_flags, VehicleState};
use bobdil_kernel::io::ffb::{FfbChain, FfbConfig, FfbOutcome};
use bobdil_kernel::io::input_shaper::{ShaperConfig, SteerShaper};
use bobdil_kernel::io::watchdog::{command_is_fresh, Verdict, Watchdog, WatchdogConfig};

fn bits(x: f64) -> u64 {
    if x.is_nan() {
        NAN
    } else {
        x.to_bits()
    }
}

fn float(x: u64) -> f64 {
    f64::from_bits(x)
}

/// The platform's own arithmetic, with one word for every NaN.
fn host(operation: Operation) -> u64 {
    bits(match operation {
        Operation::Count(n) => n as f64,
        Operation::WideCount(n) => n as f64,
        Operation::Add(a, b) => float(a) + float(b),
        Operation::Sub(a, b) => float(a) - float(b),
        Operation::Mul(a, b) => float(a) * float(b),
        Operation::Div(a, b) => float(a) / float(b),
        Operation::Rem(a, b) => float(a) % float(b),
        Operation::Power(a, b) => float(a).powf(float(b)),
        Operation::Root(a) => float(a).sqrt(),
        Operation::Sine(a) => float(a).sin(),
        Operation::Cosine(a) => float(a).cos(),
        Operation::Tangent(a) => float(a).tan(),
        Operation::ArcTangent(a) => float(a).atan(),
        Operation::HyperbolicTangent(a) => float(a).tanh(),
    })
}

const DT: f64 = 1e-3;

fn state(torque: f64, angle: f64) -> VehicleState {
    VehicleState {
        handwheel_torque: bits(torque),
        handwheel_angle: bits(angle),
        ..Default::default()
    }
}

fn condition(chain: &mut FfbChain, torque: f64, angle: f64, now: u64, met: bool) -> FfbOutcome {
    chain.condition(&host, &state(torque, angle), bits(DT), now, met)
}

fn settled(chain: &mut FfbChain, torque: f64, angle: f64, steps: usize) -> FfbOutcome {
    let mut outcome = condition(chain, torque, angle, 0, true);
    for i in 1..steps {
        outcome = condition(chain, torque, angle, i as u64, true);
    }
    outcome
}

#[test]
fn a_reaction_torque_is_negated_into_a_restoring_torque() {
    let mut chain = FfbChain::new(FfbConfig::default());
    // Steering left produces a positive reaction; the driver must feel a
    // torque pushing the wheel back to the right.
    let outcome = settled(&mut chain, 3.0, 0.4, 2000);
    assert!(
        float(outcome.command.torque_nm) < -2.0,
        "expected a restoring torque, got {}",
        float(outcome.command.torque_nm)
    );
}

/// The single most important test in the repository.
#[test]
fn a_non_finite_plant_output_produces_zero_torque_in_one_step() {
    for poison in [f64::NAN, f64::INFINITY, f64::NEG_INFINITY] {
        let mut chain = FfbChain::new(FfbConfig::default());
        settled(&mut chain, 5.0, 0.5, 500);
        let outcome = condition(&mut chain, poison, 0.5, 0, true);
        assert_eq!(
            float(outcome.command.torque_nm),
            0.0,
            "{poison} must produce exactly zero torque"
        );
        assert!(outcome.nonfinite);
        assert!(
            chain.watchdog().is_tripped(),
            "a diverged plant must trip the watchdog"
        );
    }
}

#[test]
fn a_non_finite_handwheel_angle_is_caught_as_well() {
    let mut chain = FfbChain::new(FfbConfig::default());
    let outcome = condition(&mut chain, 2.0, f64::NAN, 0, true);
    assert_eq!(float(outcome.command.torque_nm), 0.0);
    assert!(outcome.nonfinite);
}

/// No input, however extreme, may exceed the configured limit.
#[test]
fn torque_never_exceeds_the_configured_limit() {
    let mut chain = FfbChain::new(FfbConfig {
        torque_limit_nm: bits(6.0),
        slew_limit_nm_per_s: bits(1e9),
        ..Default::default()
    });
    for magnitude in [10.0, 100.0, 1e6, 1e12] {
        for sign in [1.0, -1.0] {
            let outcome = condition(&mut chain, sign * magnitude, 0.0, 0, true);
            assert!(
                float(outcome.command.torque_nm).abs() <= 6.0 + 1e-9,
                "{} N.m of reaction produced {} N.m at the wheel",
                sign * magnitude,
                float(outcome.command.torque_nm)
            );
            assert!(outcome.clamped);
        }
    }
}

#[test]
fn the_slew_limit_bounds_a_single_step_impulse() {
    let mut chain = FfbChain::new(FfbConfig {
        slew_limit_nm_per_s: bits(400.0),
        torque_limit_nm: bits(20.0),
        ..Default::default()
    });
    let outcome = condition(&mut chain, 20.0, 0.0, 0, true);
    assert!(
        float(outcome.command.torque_nm).abs() <= 400.0 * DT + 1e-9,
        "one step jumped to {} N.m",
        float(outcome.command.torque_nm)
    );
}

#[test]
fn the_end_stop_pushes_back_only_past_the_rack_limit() {
    let mut chain = FfbChain::new(FfbConfig {
        end_stop_start_rad: bits(2.0),
        end_stop_rate: bits(10.0),
        slew_limit_nm_per_s: bits(1e9),
        torque_limit_nm: bits(50.0),
        ..Default::default()
    });
    let inside = condition(&mut chain, 0.0, 1.9, 0, true);
    assert!(
        float(inside.command.torque_nm).abs() < 1e-9,
        "no end stop before the rack limit"
    );

    let outside = condition(&mut chain, 0.0, 2.5, 0, true);
    assert!(
        float(outside.command.torque_nm) < -4.0,
        "past the rack limit the wheel must push back, got {}",
        float(outside.command.torque_nm)
    );
}

/// End to end through the chain rather than the watchdog alone.
#[test]
fn a_missed_deadline_streak_ramps_torque_to_zero_and_never_holds_it() {
    let mut chain = FfbChain::new(FfbConfig {
        slew_limit_nm_per_s: bits(1e9),
        watchdog: WatchdogConfig {
            miss_limit: 5,
            ramp_ms: bits(50.0),
            recovery_streak: 50,
        },
        ..Default::default()
    });
    settled(&mut chain, 5.0, 0.5, 100);
    let before = float(condition(&mut chain, 5.0, 0.5, 0, true).command.torque_nm);
    assert!(
        before.abs() > 1.0,
        "precondition: real torque before the stall"
    );

    let mut last = before;
    for step in 0..200 {
        let torque = float(condition(&mut chain, 5.0, 0.5, step, false).command.torque_nm);
        assert!(
            torque.abs() <= last.abs() + 1e-9,
            "torque grew during a stall at step {step}"
        );
        last = torque;
    }
    assert_eq!(
        last, 0.0,
        "a sustained stall must reach exactly zero torque"
    );
}

#[test]
fn zero_gain_silences_the_wheel_without_changing_anything_else() {
    let mut chain = FfbChain::new(FfbConfig { gain: bits(0.0), ..Default::default() });
    let outcome = settled(&mut chain, 9.0, 0.5, 500);
    assert_eq!(float(outcome.command.torque_nm), 0.0);
    assert!(!outcome.nonfinite, "a silenced wheel is not a fault");
}

#[test]
fn the_silent_command_is_zero_on_every_field_that_can_move_the_wheel() {
    let chain = FfbChain::new(FfbConfig::default());
    let command = chain.silent(1234);
    assert_eq!(float(command.torque_nm), 0.0);
    assert_eq!(float(command.spring_coeff), 0.0);
    assert_eq!(float(command.damper_coeff), 0.0);
    assert_eq!(command.flags, ffb_flags::DISABLED);
}

/// Sustained clamping means the driver is feeling the limiter, not the car.
/// It must be countable so the UI can say so.
#[test]
fn clamping_is_counted_so_it_can_be_reported() {
    let mut chain = FfbChain::new(FfbConfig {
        torque_limit_nm: bits(1.0),
        slew_limit_nm_per_s: bits(1e9),
        ..Default::default()
    });
    for _ in 0..100 {
        condition(&mut chain, 50.0, 0.0, 0, true);
    }
    assert_eq!(chain.clamp_events(), 100);
}

/// The stop is stiff on purpose: the slew limit must not soften it.
#[test]
fn the_end_stop_is_not_slewed() {
    let config = FfbConfig {
        end_stop_start_rad: bits(2.0),
        end_stop_rate: bits(10.0),
        slew_limit_nm_per_s: bits(1.0),
        torque_limit_nm: bits(50.0),
        ..Default::default()
    };
    let mut chain = FfbChain::new(config);
    let outcome = condition(&mut chain, 0.0, 3.0, 0, true);
    assert!((float(outcome.command.torque_nm) + 10.0).abs() < 1e-9);
}

#[test]
fn a_spent_watchdog_leaves_the_chain_slack() {
    let mut chain = FfbChain::new(FfbConfig::default());
    settled(&mut chain, 5.0, 0.5, 100);
    for step in 0..100 {
        condition(&mut chain, 5.0, 0.5, step, false);
    }
    let outcome = condition(&mut chain, 5.0, 0.5, 0, false);
    assert_eq!(outcome.watchdog, Verdict::Tripped);
    assert_eq!(float(outcome.command.torque_nm), 0.0);
    assert_eq!(float(outcome.command.damper_coeff), 0.0);
}

#[test]
fn the_slew_limit_has_to_be_an_interval() {
    assert!(FfbConfig::default().can_slew(&host, bits(DT)));
    let backwards = FfbConfig { slew_limit_nm_per_s: bits(-1.0), ..Default::default() };
    assert!(!backwards.can_slew(&host, bits(DT)));
}

// --- the watchdog ------------------------------------------------------------------------

#[test]
fn healthy_operation_passes_torque_through_untouched() {
    let mut watchdog = Watchdog::new(WatchdogConfig::default());
    for _ in 0..10_000 {
        assert_eq!(watchdog.observe(&host, true, bits(DT)), Verdict::Pass);
    }
    assert_eq!(watchdog.trips(), 0);
}

#[test]
fn a_few_misses_do_not_trip_it() {
    let mut watchdog = Watchdog::new(WatchdogConfig { miss_limit: 5, ..Default::default() });
    for _ in 0..4 {
        assert!(watchdog.observe(&host, false, bits(DT)).is_healthy());
    }
    assert!(
        !watchdog.is_tripped(),
        "4 misses under a limit of 5 must not trip"
    );
}

/// A stalled step thread must leave the wheel slack within the ramp time, and
/// must never hold its last torque.
#[test]
fn a_stalled_loop_reaches_zero_torque_within_the_ramp_time() {
    let mut watchdog = Watchdog::new(WatchdogConfig {
        miss_limit: 5,
        ramp_ms: bits(50.0),
        recovery_streak: 50,
    });
    for _ in 0..5 {
        watchdog.observe(&host, false, bits(DT));
    }
    assert!(watchdog.is_tripped());

    // 50 ms of ramp at 1 kHz, plus the step that reaches exactly zero.
    for _ in 0..51 {
        watchdog.observe(&host, false, bits(DT));
    }
    assert_eq!(watchdog.observe(&host, false, bits(DT)), Verdict::Tripped);
    assert_eq!(
        float(watchdog.scale()),
        0.0,
        "torque must reach exactly zero, not merely become small"
    );
}

#[test]
fn the_ramp_is_monotonic_so_the_wheel_never_snaps() {
    let mut watchdog = Watchdog::new(WatchdogConfig::default());
    for _ in 0..5 {
        watchdog.observe(&host, false, bits(DT));
    }
    let mut previous = float(watchdog.scale());
    for _ in 0..100 {
        watchdog.observe(&host, false, bits(DT));
        let current = float(watchdog.scale());
        assert!(
            current <= previous + 1e-12,
            "scale rose during a trip: {previous} -> {current}"
        );
        previous = current;
    }
}

#[test]
fn recovery_is_gradual_and_needs_a_sustained_healthy_streak() {
    let mut watchdog = Watchdog::new(WatchdogConfig {
        miss_limit: 3,
        ramp_ms: bits(50.0),
        recovery_streak: 50,
    });
    for _ in 0..60 {
        watchdog.observe(&host, false, bits(DT));
    }
    assert_eq!(float(watchdog.scale()), 0.0);

    // A short healthy burst must not restore torque.
    for _ in 0..10 {
        watchdog.observe(&host, true, bits(DT));
    }
    assert_eq!(
        float(watchdog.scale()),
        0.0,
        "a brief recovery must not restore torque"
    );

    // A sustained one does, and even then it ramps.
    for _ in 0..60 {
        watchdog.observe(&host, true, bits(DT));
    }
    assert!(
        float(watchdog.scale()) > 0.0 && float(watchdog.scale()) < 1.0,
        "recovery must ramp, not snap"
    );

    for _ in 0..200 {
        watchdog.observe(&host, true, bits(DT));
    }
    assert_eq!(float(watchdog.scale()), 1.0);
}

#[test]
fn an_unrecoverable_fault_trips_instantly() {
    let mut watchdog = Watchdog::new(WatchdogConfig::default());
    watchdog.trip_now();
    assert_eq!(float(watchdog.scale()), 0.0);
    assert!(watchdog.is_tripped());
    assert_eq!(watchdog.trips(), 1);
}

#[test]
fn a_command_that_never_arrived_is_never_fresh() {
    assert!(
        !command_is_fresh(0, 1_000_000, 5_000_000),
        "a zero stamp means no command yet"
    );
}

#[test]
fn staleness_is_measured_against_the_clock_not_a_flag() {
    let max_age = 5_000_000; // 5 ms
    assert!(command_is_fresh(1_000_000, 4_000_000, max_age));
    assert!(!command_is_fresh(1_000_000, 7_000_000, max_age));
}

// --- the shaper --------------------------------------------------------------------------

#[test]
fn a_step_input_is_tracked_without_overshoot() {
    let mut shaper = SteerShaper::new(ShaperConfig::default());
    let mut peak: f64 = 0.0;
    for _ in 0..200 {
        peak = peak.max(float(shaper.update(&host, bits(1.0), bits(DT)).angle));
    }
    assert!(
        peak <= 1.0 + 1e-6,
        "critical damping must not overshoot, peaked at {peak}"
    );
    assert!(
        peak > 0.99,
        "the shaper must actually get there, reached {peak}"
    );
}

#[test]
fn it_settles_within_a_few_tens_of_milliseconds() {
    let mut shaper = SteerShaper::new(ShaperConfig::default());
    let mut settled_at = None;
    for step in 0..500 {
        let shaped = shaper.update(&host, bits(1.0), bits(DT));
        if settled_at.is_none() && (float(shaped.angle) - 1.0).abs() < 0.01 {
            settled_at = Some(step);
        }
    }
    let settled = settled_at.expect("the shaper must converge");
    assert!(
        settled < 40,
        "settling took {settled} ms, which a driver would feel as delay"
    );
}

/// The property the whole module exists for: a quantised, noisy input must
/// not produce a rate that jumps around, because that rate is what ends up
/// in the reaction torque.
#[test]
fn quantisation_noise_does_not_reach_the_rate() {
    let mut shaper = SteerShaper::new(ShaperConfig::default());
    let quantum = 0.001; // ~16-bit encoder over a 2-turn wheel
    let mut worst_rate: f64 = 0.0;
    for step in 0..2000 {
        // A slow sweep, quantised: the pathological case is the input
        // sitting between two counts and dithering.
        let smooth = 0.5 * (step as f64 * DT * 2.0).sin();
        let quantised = (smooth / quantum).round() * quantum;
        let shaped = shaper.update(&host, bits(quantised), bits(DT));
        if step > 200 {
            worst_rate = worst_rate.max(float(shaped.rate).abs());
        }
    }
    // The true peak rate of the sweep is 1.0 rad/s. Raw differencing of the
    // quantised signal would show 0.001/0.001 = 1.0 rad/s of noise on top.
    assert!(
        worst_rate < 1.5,
        "shaped rate reached {worst_rate:.3} rad/s against a true peak of 1.0"
    );
}

#[test]
fn resetting_avoids_a_step_at_session_start() {
    let mut shaper = SteerShaper::new(ShaperConfig::default());
    shaper.reset(bits(0.8));
    let shaped = shaper.update(&host, bits(0.8), bits(DT));
    assert!((float(shaped.angle) - 0.8).abs() < 1e-9);
    assert_eq!(float(shaped.rate), 0.0, "a reset must not produce a rate");
}

#[test]
fn the_bypass_really_is_a_bypass() {
    let mut shaper = SteerShaper::new(ShaperConfig {
        enabled: false,
        cutoff_hz: bits(40.0),
    });
    let shaped = shaper.update(&host, bits(0.7), bits(DT));
    assert_eq!(
        float(shaped.angle),
        0.7,
        "a bypassed shaper must pass the input through unchanged"
    );
}

/// A fault without a recovery path is not healed by good behaviour.
#[test]
fn an_unrecoverable_fault_stays_until_it_is_acknowledged() {
    let mut watchdog = Watchdog::new(WatchdogConfig::default());
    watchdog.trip_now();
    for _ in 0..500 {
        assert_eq!(watchdog.observe(&host, true, bits(1e-3)), Verdict::Tripped);
        assert_eq!(float(watchdog.scale()), 0.0);
        assert!(watchdog.is_tripped());
    }
    watchdog.recover();
    assert!(!watchdog.is_tripped());
    for _ in 0..100 {
        watchdog.observe(&host, true, bits(1e-3));
    }
    assert_eq!(float(watchdog.scale()), 1.0);
}

#[test]
fn a_diverged_plant_keeps_the_wheel_slack() {
    let mut chain = FfbChain::new(FfbConfig::default());
    condition(&mut chain, f64::NAN, 0.0, 1, true);
    for step in 0..200 {
        let outcome = condition(&mut chain, 5.0, 0.0, step, true);
        assert_eq!(float(outcome.command.torque_nm), 0.0);
        assert_eq!(outcome.watchdog, Verdict::Tripped);
    }
}

/// The stop is a stiffness: a wheel that is held gets the same torque every step.
#[test]
fn a_wheel_held_on_the_end_stop_gets_the_same_torque_every_step() {
    let mut chain = FfbChain::new(FfbConfig::default());
    for step in 0..50 {
        let outcome = condition(&mut chain, 0.0, 2.3, step, true);
        assert!((float(outcome.command.torque_nm) + 1.2).abs() < 1e-9, "step {step}");
    }
    let mut exact = FfbChain::new(FfbConfig {
        end_stop_start_rad: bits(2.0),
        end_stop_rate: bits(8.0),
        ..Default::default()
    });
    for step in 0..5 {
        assert_eq!(float(condition(&mut exact, 0.0, 2.5, step, true).command.torque_nm), -4.0);
    }
}

/// Two infinities that cancel are no torque at all.
#[test]
fn a_torque_that_is_no_number_never_leaves_the_chain() {
    let mut chain = FfbChain::new(FfbConfig {
        gain: bits(10.0),
        enable_slew_limit: false,
        ..Default::default()
    });
    let outcome = condition(&mut chain, -1e308, 1e308, 7, true);
    assert_eq!(float(outcome.command.torque_nm), 0.0);
    assert!(outcome.nonfinite);
    assert_eq!(chain.nonfinite_events(), 1);
    assert!(chain.watchdog().is_tripped());
}

#[test]
fn the_limit_holds_over_a_step_of_any_length() {
    for dt in [0.0, 1e-300, 1e300, f64::INFINITY] {
        for met in [true, false] {
            let mut chain = FfbChain::new(FfbConfig {
                torque_limit_nm: bits(-6.0),
                ..Default::default()
            });
            for torque in [1e308, -3.0, 40.0, -1e308] {
                let frame = state(torque, 3.0);
                let outcome = chain.condition(&host, &frame, bits(dt), 0, met);
                let delivered = float(outcome.command.torque_nm);
                assert!(delivered.abs() <= 6.0, "{torque} over {dt} gave {delivered}");
            }
        }
    }
}
