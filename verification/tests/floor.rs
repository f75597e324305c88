//! The built-in car, its tires, the integrator and the plant ladder.

use bobdil_kernel::arith::{Operation, NAN};
use bobdil_kernel::generated::frames::{tunable, DriverInput, VehicleState, TUNABLE_COUNT};
use bobdil_kernel::plant::integrator::{Derivatives, Dimension, FixedStep, Method, StateVector};
use bobdil_kernel::plant::metered::Metered;
use bobdil_kernel::plant::ladder::{maneuver, probe, select, Rung, DEFAULT_GATE_P999_NS};
use bobdil_kernel::plant::reduced::params::{ReducedParams, CORNERS, GRAVITY};
use bobdil_kernel::plant::reduced::tire::TireParams;
use bobdil_kernel::plant::reduced::{
    Car, Dynamics, Reduced14Dof, IDX_HOP, IDX_ROLL, IDX_ROLL_RATE, IDX_SLIP_ANGLE, IDX_SLIP_RATIO,
    IDX_VY, IDX_YAW_RATE, STATE_COUNT,
};
use bobdil_kernel::rig::Timed;
use bobdil_kernel::plant::{guard_finite, InitialConditions, PlantError, PlantKernel};
use bobdil_kernel::text::SHORTEST;
use std::cell::Cell;

fn bits(x: f64) -> u64 {
    if x.is_nan() {
        NAN
    } else {
        x.to_bits()
    }
}

fn float(x: u64) -> f64 {
    f64::from_bits(x)
}

/// The platform's own arithmetic, with one word for every NaN.
fn host(operation: Operation) -> u64 {
    bits(match operation {
        Operation::Count(n) => n as f64,
        Operation::WideCount(n) => n as f64,
        Operation::Add(a, b) => float(a) + float(b),
        Operation::Sub(a, b) => float(a) - float(b),
        Operation::Mul(a, b) => float(a) * float(b),
        Operation::Div(a, b) => float(a) / float(b),
        Operation::Rem(a, b) => float(a) % float(b),
        Operation::Power(a, b) => float(a).powf(float(b)),
        Operation::Root(a) => float(a).sqrt(),
        Operation::Sine(a) => float(a).sin(),
        Operation::Cosine(a) => float(a).cos(),
        Operation::Tangent(a) => float(a).tan(),
        Operation::ArcTangent(a) => float(a).atan(),
        Operation::HyperbolicTangent(a) => float(a).tanh(),
    })
}

fn show(x: u64, decimals: usize) -> String {
    if decimals == SHORTEST {
        format!("{}", float(x))
    } else {
        format!("{:.*}", decimals, float(x))
    }
}

type Unit = fn(Operation) -> u64;
type Floor = Reduced14Dof<Unit>;

fn input(steer: f64, accel: f64, brake: f64) -> DriverInput {
    DriverInput {
        steering_angle_command: bits(steer),
        accelerator_pedal_command: bits(accel),
        brake_pedal_command: bits(brake),
        ..Default::default()
    }
}

fn fresh(params: ReducedParams) -> Floor {
    Reduced14Dof::new(host as Unit, params)
}

/// Run a maneuver at 1 kHz and return the final state.
fn drive(plant: &mut Floor, seconds: f64, command: DriverInput) -> VehicleState {
    let steps = (seconds / 1e-3).round() as usize;
    let mut state = VehicleState::default();
    for _ in 0..steps {
        state = plant
            .step(&command, bits(1e-3))
            .expect("plant must not fail mid-maneuver");
    }
    state
}

fn at_rest() -> Floor {
    let mut plant = fresh(ReducedParams::default());
    plant.reset(&InitialConditions::default()).unwrap();
    plant
}

fn rolling(speed: f64) -> Floor {
    let mut plant = fresh(ReducedParams::default());
    plant
        .reset(&InitialConditions {
            speed: bits(speed),
            steering_angle: 0,
        })
        .unwrap();
    plant
}

#[test]
fn static_loads_carry_the_vehicle_weight() {
    let params = ReducedParams::default();
    let total: f64 = (0..CORNERS).map(|c| float(params.static_load(&host, c))).sum();
    let weight = float(params.mass) * float(GRAVITY);
    assert!(
        (total - weight).abs() < 1e-6,
        "static corner loads sum to {total:.1} N but the car weighs {:.1} N",
        weight
    );
}

#[test]
fn a_parked_car_stays_parked_and_stays_on_its_tires() {
    let mut plant = at_rest();
    let state = drive(&mut plant, 5.0, input(0.0, 0.0, 0.0));
    assert!(
        float(state.vehicle_speed).abs() < 1e-3,
        "parked car drifted to {} m/s",
        float(state.vehicle_speed)
    );

    let carried = float(state.fz_fl) + float(state.fz_fr) + float(state.fz_rl) + float(state.fz_rr);
    let weight = float(plant.params().mass) * float(GRAVITY);
    assert!(
        (carried / weight - 1.0).abs() < 0.02,
        "corner loads settled at {carried:.0} N against a weight of {weight:.0} N"
    );
    assert!(
        float(state.roll).abs() < 1e-4,
        "a parked car should not be rolled over"
    );
}

/// Transient slip divides by velocity, and every session starts at rest.
#[test]
fn a_standing_start_stays_finite() {
    let mut plant = at_rest();
    for step in 0..3_000 {
        let state = plant
            .step(&input(0.0, 1.0, 0.0), bits(1e-3))
            .unwrap_or_else(|e| panic!("standing start failed at step {step}: {e:?}"));
        assert!(state.is_finite(), "non-finite state at step {step}");
    }
    let state = plant.step(&input(0.0, 1.0, 0.0), bits(1e-3)).unwrap();
    assert!(
        float(state.vehicle_speed) > 8.0,
        "3 s of full throttle only reached {:.1} m/s",
        float(state.vehicle_speed)
    );
}

#[test]
fn full_throttle_then_threshold_braking_returns_to_rest() {
    let mut plant = at_rest();
    let launched = drive(&mut plant, 4.0, input(0.0, 1.0, 0.0));
    assert!(
        float(launched.vehicle_speed) > 10.0,
        "launch reached only {:.1} m/s",
        float(launched.vehicle_speed)
    );
    assert!(float(launched.acc_x) > 0.0, "throttle must accelerate the car");

    let stopped = drive(&mut plant, 4.0, input(0.0, 0.0, 1.0));
    assert!(
        float(stopped.vehicle_speed) < 0.5,
        "4 s of full brake left the car at {:.2} m/s",
        float(stopped.vehicle_speed)
    );
}

/// Compared as a *fraction* of total load, not an absolute one: the car sheds
/// most of its downforce as it slows, so absolute front load can fall even
/// while the balance moves decisively forward.
#[test]
fn braking_moves_load_onto_the_front_axle() {
    fn front_share(state: &VehicleState) -> f64 {
        (float(state.fz_fl) + float(state.fz_fr))
            / (float(state.fz_fl) + float(state.fz_fr) + float(state.fz_rl) + float(state.fz_rr))
    }

    let mut plant = rolling(20.0);
    let coasting = drive(&mut plant, 0.5, input(0.0, 0.0, 0.0));
    let coasting_share = front_share(&coasting);

    let braking = drive(&mut plant, 0.6, input(0.0, 0.0, 0.9));
    let braking_share = front_share(&braking);

    assert!(
        float(braking.acc_x) < -8.0,
        "0.9 brake only produced {:.1} m/s2",
        float(braking.acc_x)
    );
    assert!(
        braking_share > coasting_share + 0.08,
        "front load share barely moved under braking: {:.1}% -> {:.1}%",
        coasting_share * 100.0,
        braking_share * 100.0
    );
    assert!(
        float(braking.fz_rl) + float(braking.fz_rr) > 0.0,
        "the rear axle must stay on the ground under braking"
    );
}

#[test]
fn steering_generates_yaw_and_load_transfer_to_the_outside() {
    // A sub-limit input. Steering past the front tires' peak would test how
    // the model behaves while sliding, which is a different question.
    let mut plant = rolling(18.0);
    let state = drive(&mut plant, 1.5, input(0.12, 0.25, 0.0));

    assert!(
        float(state.yaw_vel) > 0.05,
        "a left steer produced only {:.3} rad/s of yaw",
        float(state.yaw_vel)
    );
    assert!(
        float(state.acc_y) > 1.0,
        "a left steer produced only {:.2} m/s2 lateral",
        float(state.acc_y)
    );

    let left = float(state.fz_fl) + float(state.fz_rl);
    let right = float(state.fz_fr) + float(state.fz_rr);
    assert!(
        right > left * 1.05,
        "turning left must load the right-hand side: left {left:.0} N, right {right:.0} N"
    );
    assert!(
        float(state.roll) > 0.0,
        "turning left must roll the car onto its right side"
    );
}

/// The single most important haptic property: the wheel must push back toward
/// centre. If this sign is wrong the rig is unusable and, on a direct-drive
/// wheel, dangerous.
#[test]
fn steering_torque_self_centers() {
    let mut plant = rolling(18.0);
    let left = drive(&mut plant, 1.0, input(0.15, 0.2, 0.0));
    // The chain applies the negation of the reported reaction torque.
    let applied_left = -float(left.handwheel_torque);
    assert!(
        applied_left < -0.5,
        "steering left must push the wheel back right, got {applied_left:.2} N.m"
    );

    let mut plant = rolling(18.0);
    let right = drive(&mut plant, 1.0, input(-0.15, 0.2, 0.0));
    let applied_right = -float(right.handwheel_torque);
    assert!(
        applied_right > 0.5,
        "steering right must push the wheel back left, got {applied_right:.2} N.m"
    );
}

#[test]
fn steering_torque_builds_with_speed() {
    let mut slow = rolling(8.0);
    let slow_state = drive(&mut slow, 1.0, input(0.10, 0.15, 0.0));
    let mut fast = rolling(22.0);
    let fast_state = drive(&mut fast, 1.0, input(0.10, 0.15, 0.0));
    assert!(
        float(fast_state.handwheel_torque).abs() > float(slow_state.handwheel_torque).abs(),
        "torque at 22 m/s ({:.2}) should exceed torque at 8 m/s ({:.2})",
        float(fast_state.handwheel_torque),
        float(slow_state.handwheel_torque)
    );
}

#[test]
fn the_rack_limit_is_reported_rather_than_silently_swallowed() {
    let mut plant = rolling(10.0);
    let limit = float(plant.params().rack_limit);
    let state = drive(&mut plant, 0.2, input(limit + 0.8, 0.0, 0.0));
    assert!(
        (float(state.steer_excess) - 0.8).abs() < 1e-9,
        "steer beyond the rack must appear as excess, got {}",
        float(state.steer_excess)
    );
    assert!((float(state.handwheel_angle) - limit).abs() < 1e-9);
}

/// "More front bar" is the canonical setup change an engineer asks a driver
/// about. Stiffening the front anti-roll bar moves lateral load transfer onto
/// the front axle, which costs the front grip, which is understeer.
#[test]
fn more_front_bar_moves_the_car_toward_understeer() {
    // Held below the front tires' peak, where balance is a real property of
    // the setup. Past the peak both cars are sliding and the comparison says
    // nothing an engineer could act on.
    let command = input(0.12, 0.25, 0.0);

    let mut soft = fresh(ReducedParams {
        arb_front: bits(4_000.0),
        ..Default::default()
    });
    soft.reset(&InitialConditions {
        speed: bits(20.0),
        steering_angle: 0,
    })
    .unwrap();
    let soft_state = drive(&mut soft, 2.0, command);
    assert!(
        float(soft_state.acc_y) < 12.0,
        "the reference lap must stay below the limit"
    );

    let mut stiff = fresh(ReducedParams {
        arb_front: bits(40_000.0),
        ..Default::default()
    });
    stiff
        .reset(&InitialConditions {
            speed: bits(20.0),
            steering_angle: 0,
        })
        .unwrap();
    let stiff_state = drive(&mut stiff, 2.0, command);

    assert!(
        float(stiff_state.yaw_vel) < float(soft_state.yaw_vel) * 0.995,
        "a stiffer front bar must reduce yaw rate for the same steer: \
         soft {:.4} rad/s, stiff {:.4} rad/s",
        float(soft_state.yaw_vel),
        float(stiff_state.yaw_vel)
    );
    // ...and it must do it by moving lateral load transfer onto the front axle,
    // which is the mechanism, not a coincidence of the numbers.
    let soft_front_spread = (float(soft_state.fz_fr) - float(soft_state.fz_fl)).abs();
    let stiff_front_spread = (float(stiff_state.fz_fr) - float(stiff_state.fz_fl)).abs();
    assert!(
        stiff_front_spread > soft_front_spread,
        "a stiffer front bar must take more lateral load transfer: {soft_front_spread:.0} -> {stiff_front_spread:.0} N"
    );
}

#[test]
fn tunables_are_range_checked() {
    let mut plant = at_rest();
    let front_arb = (0..TUNABLE_COUNT)
        .map(tunable)
        .find(|t| t.name == "front_arb_rate")
        .unwrap();
    plant
        .set_tunable(front_arb.id, bits(20_000.0))
        .expect("in-range value must be accepted");
    assert_eq!(float(plant.params().arb_front), 20_000.0);
    assert!(
        plant.set_tunable(front_arb.id, bits(-1.0)).is_err(),
        "a negative bar rate must be rejected"
    );
    assert!(
        plant.set_tunable(999, bits(1.0)).is_err(),
        "an unknown tunable id must be rejected"
    );
}

/// Replay, paired A/B, and every fidelity comparison rest on this: identical
/// inputs must produce bit-identical states.
#[test]
fn identical_inputs_produce_bit_identical_states() {
    let run = || {
        let mut plant = at_rest();
        for step in 0..2_000 {
            let t = step as f64 * 1e-3;
            let command = input(0.6 * (t * 2.0).sin(), 0.7, 0.1 * (t * 3.0).cos().max(0.0));
            plant.step(&command, bits(1e-3)).unwrap();
        }
        plant.state_vector().to_vec()
    };
    let first = run();
    let second = run();
    assert_eq!(
        first, second,
        "the plant must be deterministic or A/B is meaningless"
    );
}

#[test]
fn reports_a_step_size_it_can_actually_hold() {
    let plant = at_rest();
    let caps = plant.capabilities();
    assert_eq!(caps.continuous_states, STATE_COUNT);
    assert!(
        float(caps.max_stable_dt) >= 1e-3,
        "the floor kernel must be stable at the 1 kHz baseline"
    );
    assert!(caps.supports_tunables);
}

#[test]
fn a_frame_echoes_the_commands_it_was_given() {
    let mut plant = rolling(5.0);
    let state = plant.step(&input(0.1, 0.2, 0.3), bits(1e-3)).unwrap();
    assert_eq!(float(state.steering_angle_command), 0.1);
    assert_eq!(float(state.accelerator_pedal_command), 0.2);
    assert_eq!(float(state.brake_pedal_command), 0.3);
    assert_eq!(state.step_index, 1);
}

#[test]
fn a_guard_names_the_first_field_that_is_not_finite() {
    let good = VehicleState::default();
    assert!(guard_finite(&good, 7).is_ok());
    let bad = VehicleState {
        acc_y: bits(f64::INFINITY),
        roll: NAN,
        ..Default::default()
    };
    match guard_finite(&bad, 7) {
        Err(PlantError::NonFinite { field, step }) => {
            assert_eq!(field, "acc_y");
            assert_eq!(step, 7);
        }
        other => panic!("expected a refusal, got {other:?}"),
    }
}

// --- tires ---------------------------------------------------------------------------------

fn lateral(tire: &TireParams, fz: f64, slip: f64) -> f64 {
    float(tire.evaluate(&host, bits(fz), bits(slip), bits(0.0)).fy)
}

/// A tire that saturates and stays saturated gives a driver no limit to
/// find. The curve must peak in the range a slick actually peaks in, and
/// must fall away past it.
#[test]
fn lateral_force_peaks_near_eight_degrees_then_falls_away() {
    let tire = TireParams::default();
    let step = 0.002;
    let sweep: Vec<f64> = (0..=220)
        .map(|i| lateral(&tire, 700.0, i as f64 * step))
        .collect();
    let peak_index = sweep
        .iter()
        .enumerate()
        .max_by(|a, b| a.1.partial_cmp(b.1).unwrap())
        .unwrap()
        .0;
    let peak_degrees = (peak_index as f64 * step).to_degrees();
    assert!(
        (5.0..=12.0).contains(&peak_degrees),
        "peak slip angle {peak_degrees:.1} deg is outside the range a racing slick peaks in"
    );
    assert!(
        sweep[220] < sweep[peak_index] * 0.97,
        "force must fall away past the peak: {:.0} N at 25 deg against a peak of {:.0} N",
        sweep[220],
        sweep[peak_index]
    );
}

#[test]
fn load_transfer_costs_the_axle_grip() {
    let tire = TireParams::default();
    let slip = 0.12;
    let even = 2.0 * lateral(&tire, 700.0, slip);
    let transferred = lateral(&tire, 1100.0, slip) + lateral(&tire, 300.0, slip);
    assert!(
        transferred < even,
        "an axle with load transferred onto it must make less force ({transferred:.0} vs {even:.0} N)"
    );
}

#[test]
fn combined_slip_stays_inside_the_friction_ellipse() {
    let tire = TireParams::default();
    let forces = tire.evaluate(&host, bits(700.0), bits(0.30), bits(0.40));
    let mu = float(tire.mu_at_load(&host, tire.mu_lat, bits(700.0)))
        .max(float(tire.mu_at_load(&host, tire.mu_long, bits(700.0))));
    let (fx, fy) = (float(forces.fx), float(forces.fy));
    let magnitude = (fx * fx + fy * fy).sqrt();
    assert!(
        magnitude <= mu * 700.0 * 1.02,
        "combined force {magnitude:.0} N exceeds the friction circle"
    );
}

#[test]
fn trail_collapses_as_the_tire_saturates() {
    let tire = TireParams::default();
    let gentle = tire.evaluate(&host, bits(700.0), bits(0.03), bits(0.0));
    let saturated = tire.evaluate(&host, bits(700.0), bits(0.35), bits(0.0));
    let gentle_trail = (float(gentle.mz) / float(gentle.fy)).abs();
    let saturated_trail = (float(saturated.mz) / float(saturated.fy)).abs();
    assert!(
        saturated_trail < gentle_trail * 0.5,
        "the wheel must go light at the limit: {saturated_trail:.4} vs {gentle_trail:.4} m"
    );
}

#[test]
fn an_airborne_wheel_makes_no_force() {
    let tire = TireParams::default();
    let forces = tire.evaluate(&host, bits(0.0), bits(0.2), bits(0.1));
    assert_eq!(float(forces.fx), 0.0);
    assert_eq!(float(forces.fy), 0.0);
    assert_eq!(float(forces.mz), 0.0);
}

// --- the integrator --------------------------------------------------------------------------

/// dx/dt = -k x, whose exact solution is known, so integrator error is
/// measurable rather than eyeballed.
struct Decay {
    k: f64,
}

impl Derivatives for Decay {
    fn accepts(&self, _dimension: Dimension) -> bool {
        unreachable!()
    }

    fn rates(&self, _t: u64, _x: StateVector) -> StateVector {
        unreachable!()
    }

    fn derivatives(&mut self, _t: u64, x: &Vec<u64>, dx: &mut Vec<u64>) {
        dx[0] = bits(-self.k * float(x[0]));
    }
}

/// A harmonic oscillator, which is what a suspension mode looks like to the
/// integrator, and where an unstable method shows up as growing amplitude.
struct Oscillator {
    omega: f64,
}

impl Derivatives for Oscillator {
    fn accepts(&self, _dimension: Dimension) -> bool {
        unreachable!()
    }

    fn rates(&self, _t: u64, _x: StateVector) -> StateVector {
        unreachable!()
    }

    fn derivatives(&mut self, _t: u64, x: &Vec<u64>, dx: &mut Vec<u64>) {
        dx[0] = x[1];
        dx[1] = bits(-self.omega * self.omega * float(x[0]));
    }
}

#[test]
fn rk4_is_fourth_order_accurate() {
    let mut system = Metered::new(Decay { k: 3.0 });
    let mut integrator = FixedStep::new(1, Method::Rk4, 1);
    let mut x = vec![bits(1.0)];
    let dt = bits(1e-3);
    let mut t = bits(0.0);
    for _ in 0..1000 {
        t = integrator.advance(&host, &mut system, t, &mut x, dt);
    }
    let exact = (-3.0f64).exp();
    assert!(
        (float(x[0]) - exact).abs() < 1e-10,
        "rk4 error {} too large",
        (float(x[0]) - exact).abs()
    );
}

#[test]
fn rk4_holds_a_suspension_mode_at_one_millisecond() {
    // 4 Hz heave mode, the fastest sprung mode in an FSAE car.
    let omega = 2.0 * std::f64::consts::PI * 4.0;
    let mut system = Metered::new(Oscillator { omega });
    let mut integrator = FixedStep::new(2, Method::Rk4, 1);
    let mut x = vec![bits(0.05), bits(0.0)];
    let mut t = bits(0.0);
    for _ in 0..60_000 {
        t = integrator.advance(&host, &mut system, t, &mut x, bits(1e-3));
    }
    let (p, v) = (float(x[0]), float(x[1]));
    let energy = 0.5 * v * v + 0.5 * omega * omega * p * p;
    let initial = 0.5 * omega * omega * 0.05 * 0.05;
    assert!(
        (energy / initial - 1.0).abs() < 1e-3,
        "energy drifted by {:.3}% over 60 s",
        100.0 * (energy / initial - 1.0)
    );
}

#[test]
fn substeps_cost_exactly_what_they_claim() {
    let integrator = FixedStep::new(4, Method::Rk4, 4);
    assert_eq!(integrator.evaluations_per_step(), 16);
}

/// A system that counts its evaluations, and so changes while it is evaluated.
struct Counting<'a> {
    calls: &'a Cell<usize>,
}

impl Derivatives for Counting<'_> {
    fn accepts(&self, _dimension: Dimension) -> bool {
        unreachable!()
    }

    fn rates(&self, _t: u64, _x: StateVector) -> StateVector {
        unreachable!()
    }

    fn derivatives(&mut self, _t: u64, _x: &Vec<u64>, dx: &mut Vec<u64>) {
        self.calls.set(self.calls.get() + 1);
        dx[0] = bits(1.0);
    }
}

#[test]
fn a_step_costs_exactly_what_it_claims() {
    for (method, substeps) in [(Method::Euler, 1), (Method::Midpoint, 3), (Method::Rk4, 4)] {
        let calls = Cell::new(0);
        let mut integrator = FixedStep::new(1, method, substeps);
        let mut x = vec![bits(0.0)];
        let mut system = Metered::new(Counting { calls: &calls });
        integrator.advance(&host, &mut system, bits(0.0), &mut x, bits(1e-3));
        assert_eq!(calls.get(), integrator.evaluations_per_step());
    }
}

#[test]
fn one_euler_step_is_one_evaluation_ahead() {
    let mut system = Metered::new(Decay { k: 2.0 });
    let mut integrator = FixedStep::new(1, Method::Euler, 1);
    let mut x = vec![bits(1.0)];
    let t = integrator.advance(&host, &mut system, bits(0.0), &mut x, bits(0.25));
    assert_eq!(float(x[0]), 0.5);
    assert_eq!(float(t), 0.25);
    let mut midpoint = FixedStep::new(1, Method::Midpoint, 1);
    let mut y = vec![bits(1.0)];
    midpoint.advance(&host, &mut system, bits(0.0), &mut y, bits(0.25));
    assert_eq!(float(y[0]), 0.625);
}

#[test]
fn methods_are_named_whatever_the_case() {
    assert_eq!(Method::parse("RK4"), Some(Method::Rk4));
    assert_eq!(Method::parse("rk2"), Some(Method::Midpoint));
    assert_eq!(Method::parse("Euler"), Some(Method::Euler));
    assert_eq!(Method::parse("heun"), None);
    assert_eq!(Method::Midpoint.evaluations(), 2);
}

// --- the ladder ------------------------------------------------------------------------------

/// The floor kernel steps 20 000 times without failing, and the probe reports a
/// coherent measurement.
///
/// Deliberately **not** a timing assertion: a wall-clock gate measures the
/// machine, not the code.
#[test]
fn the_floor_kernel_steps_without_failing() {
    let plant = fresh(ReducedParams::default());
    // Every reading 1.5 us after the last, but for one that is late.
    let (readings, now) = (Cell::new(0u64), Cell::new(0u64));
    let clock = || {
        readings.set(readings.get() + 1);
        now.set(now.get() + if readings.get() == 30_000 { 50_000 } else { 1_500 });
        now.get()
    };
    let measurement = probe(&mut Timed::new(plant, clock), &host, bits(1e-3), 20_000, &show);
    assert!(measurement.failure.is_none(), "{:?}", measurement.failure);
    assert_eq!(measurement.steps, 20_000);
    assert!(measurement.p50_ns > 0, "probe recorded no time at all");
    assert!(
        measurement.p50_ns <= measurement.p999_ns && measurement.p999_ns <= measurement.max_ns,
        "percentiles are not ordered: {measurement:?}"
    );
    assert_eq!(measurement.max_ns, 50_000);
}

#[test]
fn a_missing_fmu_falls_back_rather_than_refusing_to_start() {
    let selection = select::<Floor, Unit, _, _>(
        Some((
            "/nonexistent/fmu".to_string(),
            Err("no manifest there".to_string()),
        )),
        host as Unit,
        bits(1e-3),
        2_000,
        DEFAULT_GATE_P999_NS,
        || 0,
        &show,
    );
    assert_eq!(selection.chosen, "Reduced14Dof");
    assert!(
        selection.degraded,
        "falling back must be reported, not silent"
    );
    assert!(selection.probes.iter().any(|p| p.failure.is_some()));
    assert!(matches!(selection.plant, Rung::Floor(_)));
    let report = selection.report(&(host as Unit), &show, DEFAULT_GATE_P999_NS);
    assert!(report.starts_with("plant ladder (gate: p99.9 <= 500 us)"), "{report}");
    assert!(report.contains("DEGRADED"), "{report}");
}

#[test]
fn the_probe_maneuver_visits_every_hard_operating_point() {
    let launch = maneuver(&host, bits(1.0));
    assert_eq!(
        float(launch.accelerator_pedal_command),
        1.0,
        "must include a standing start"
    );
    let steer = maneuver(&host, bits(2.5));
    assert!(
        float(steer.steering_angle_command).abs() > 0.0,
        "must include a step steer"
    );
    let brake = maneuver(&host, bits(4.0));
    assert!(
        float(brake.brake_pedal_command) > 0.5,
        "must include threshold braking"
    );
}

#[test]
fn a_slow_model_is_measured_and_left_behind() {
    let ticks = Cell::new(0u64);
    let clock = || {
        ticks.set(ticks.get() + 900_000);
        ticks.get()
    };
    let selection = select::<Floor, Unit, _, _>(
        Some(("model".to_string(), Ok(fresh(ReducedParams::default())))),
        host as Unit,
        bits(1e-3),
        50,
        DEFAULT_GATE_P999_NS,
        &clock,
        &show,
    );
    assert!(selection.degraded);
    assert_eq!(selection.probes.len(), 2);
    assert!(!selection.probes[0].passes(DEFAULT_GATE_P999_NS));
}

/// The car starts on its static tire deflection and does not drop onto its tires.
#[test]
fn the_car_does_not_drop_onto_its_tires() {
    let params = ReducedParams::default();
    let weight = float(params.mass) * float(GRAVITY);
    let mut plant = fresh(params);
    for step in 0..2_000 {
        let state = plant.step(&DriverInput::default(), bits(1e-3)).unwrap();
        let load = float(state.fz_fl) + float(state.fz_fr) + float(state.fz_rl) + float(state.fz_rr);
        assert!((load / weight - 1.0).abs() < 0.02, "step {step}: {load} of {weight}");
    }
}

fn rates(car: Car, x: &Vec<u64>) -> Vec<f64> {
    let mut dx = vec![0; STATE_COUNT];
    Dynamics { unit: &host, car }.derivatives(0, x, &mut dx);
    dx.into_iter().map(float).collect()
}

/// A state that points to a side turns over in a mirror.
fn sided(i: usize) -> bool {
    [IDX_VY, IDX_YAW_RATE, IDX_ROLL, IDX_ROLL_RATE].contains(&i)
        || (IDX_SLIP_ANGLE..IDX_SLIP_RATIO).contains(&i)
}

/// Corners come in left-right pairs.
fn counterpart(i: usize) -> usize {
    if i < IDX_HOP {
        i
    } else if (i - IDX_HOP) % 2 == 0 {
        i + 1
    } else {
        i - 1
    }
}

#[test]
fn a_car_in_a_mirror_moves_as_its_mirror_image() {
    let car = Car {
        params: ReducedParams::default(),
        input: input(0.4, 0.3, 0.1),
        previous_front_lateral: bits(310.0),
        previous_rear_lateral: bits(-120.0),
        previous_longitudinal: bits(55.0),
    };
    let image = Car {
        input: input(-0.4, 0.3, 0.1),
        previous_front_lateral: bits(-310.0),
        previous_rear_lateral: bits(120.0),
        ..car
    };
    let x: Vec<f64> = (0..STATE_COUNT)
        .map(|i| match i {
            0 => 14.0,
            1..=8 => 0.02 * i as f64 - 0.07,
            9..=16 => 1e-4 * i as f64,
            17..=20 => 60.0 + i as f64,
            _ => 0.01 * i as f64 - 0.2,
        })
        .collect();
    let y: Vec<u64> = (0..STATE_COUNT)
        .map(|i| bits(if sided(i) { -x[counterpart(i)] } else { x[counterpart(i)] }))
        .collect();
    let x: Vec<u64> = x.into_iter().map(bits).collect();
    let dx = rates(car, &x);
    let dy = rates(image, &y);
    for i in 0..STATE_COUNT {
        let expected = if sided(i) { -dx[i] } else { dx[i] };
        let found = dy[counterpart(i)];
        if i >= IDX_HOP {
            // What belongs to one corner mirrors to the bit.
            assert_eq!(found, expected, "state {i}");
        } else {
            // A total may round otherwise when its corners change places.
            assert!((found - expected).abs() <= 1e-9 * (1.0 + expected.abs()), "state {i}");
        }
    }
    assert!(dx[IDX_YAW_RATE].abs() > 1.0, "the state is not a symmetric one");
}

#[test]
fn a_parked_car_carries_its_static_load() {
    let car = Car {
        params: ReducedParams::default(),
        input: input(0.0, 0.0, 0.0),
        previous_front_lateral: 0,
        previous_rear_lateral: 0,
        previous_longitudinal: 0,
    };
    let loads = car.evaluate_loads(&host, &vec![0; STATE_COUNT]);
    for corner in 0..CORNERS {
        assert_eq!(loads.fz.get(corner), car.params.static_load(&host, corner));
    }
}
