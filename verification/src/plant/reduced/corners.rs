//! What a car's corners, its steering and its report come to.
//!
//! As in `physics`, each law says in numbers what the machine's words are held to.

use vstd::arithmetic::power2::*;
use vstd::prelude::*;

use crate::arith::{atan, minus, over, plus, rounding, tan, tanh, times, Operation};
use crate::numbers;
use crate::numbers::{nearly, number, size, upto};
use crate::plant::reduced::params::{ReducedParams, HALF};
use crate::plant::reduced::tire::{TireParams, SHORTEST_LENGTH};
use crate::plant::reduced::{
    launch_state, reported, turned, Car, Loads, ACKERMANN, FOUR, IDX_HOP, IDX_HOP_RATE, IDX_OMEGA,
    IDX_ROLL, IDX_SLIP_ANGLE, IDX_SLIP_RATIO, IDX_VX, IDX_VY, IDX_YAW_RATE, MINUS_FOUR,
    STATE_COUNT, STRAIGHT,
};
use crate::plant::InitialConditions;
use crate::scalar::{
    abs, clamp, is_finite, max_of, negate, signum, Scalar, MINUS_ONE, ONE, ZERO,
};

verus! {

/// A number kept to four either way.
pub open spec fn held(r: real) -> real {
    if r < -4real {
        -4real
    } else if r > 4real {
        4real
    } else {
        r
    }
}

proof fn lemma_four()
    ensures
        number(FOUR) == 4real && is_finite(FOUR),
        number(MINUS_FOUR) == -4real && is_finite(MINUS_FOUR),
{
    lemma_powers();
    numbers::lemma_word(FOUR, 0x10_0000_0000_0000, 1025, 50, 1125899906842624);
    numbers::lemma_unrounded(FOUR);
    assert(negate(FOUR) == MINUS_FOUR);
}

proof fn lemma_powers()
    ensures
        pow2(50) == 1125899906842624,
        pow2(54) == 18014398509481984,
        pow2(62) == 4611686018427387904,
{
    lemma2_to64();
    lemma2_to64_rest();
}

proof fn lemma_shortest()
    ensures
        is_finite(SHORTEST_LENGTH),
        1real / 1001real <= number(SHORTEST_LENGTH) <= 1real / 999real,
{
    lemma_powers();
    numbers::lemma_word(SHORTEST_LENGTH, 0x10_624d_d2f1_a9fc, 1013, 62, 4611686018427387904);
}

proof fn lemma_split()
    ensures
        numbers::within(ACKERMANN, 35real / 100real, 1real),
        upto(ACKERMANN, 1real),
{
    lemma_powers();
    numbers::lemma_word(ACKERMANN, 0x16_6666_6666_6666, 1021, 54, 18014398509481984);
}

proof fn lemma_straight()
    ensures
        is_finite(STRAIGHT),
        number(STRAIGHT) <= 1real / 100000real,
{
    lemma_powers();
    lemma2_to64();
    lemma_pow2_adds(62, 10);
    numbers::lemma_word(STRAIGHT, 0x10_c6f7_a0b5_ed8d, 1003, 72, 4722366482869645213696);
}

/// What the corners give adds up: the forces of all four to the force on the body, less the
/// drag ahead, and over the mass to its accelerations; the lateral forces of each axle
/// to the axle's; and the moments of the two front wheels to the steering's.
#[verifier::rlimit(60)]
pub proof fn law_the_corners_add_up<F: Fn(Operation) -> Scalar>(
    car: Car,
    unit: &F,
    x: Seq<Scalar>,
)
    requires
        rounding(unit),
        upto(car.params.mass, 10000real),
        number(car.params.mass) >= 10real,
        upto(car.drag(unit, x[IDX_VX as int]), 100000real),
        upto(car.loads(unit, x).body.fl.x, 100000real),
        upto(car.loads(unit, x).body.fl.y, 100000real),
        upto(car.loads(unit, x).body.fr.x, 100000real),
        upto(car.loads(unit, x).body.fr.y, 100000real),
        upto(car.loads(unit, x).body.rl.x, 100000real),
        upto(car.loads(unit, x).body.rl.y, 100000real),
        upto(car.loads(unit, x).body.rr.x, 100000real),
        upto(car.loads(unit, x).body.rr.y, 100000real),
        upto(car.kingpin(unit, car.patch(unit, x, 0)), 100000real),
        upto(car.kingpin(unit, car.patch(unit, x, 1)), 100000real),
    ensures
        ({
            let loads = car.loads(unit, x);
            let b = loads.body;
            let m = number(car.params.mass);
            let along = number(b.fl.x) + number(b.fr.x) + number(b.rl.x) + number(b.rr.x);
            let across = number(b.fl.y) + number(b.fr.y) + number(b.rl.y) + number(b.rr.y);
            let drag = number(car.drag(unit, x[IDX_VX as int]));
            &&& nearly(loads.body_fx, along)
            &&& nearly(loads.body_fy, across)
            &&& nearly(loads.total_longitudinal, along - drag)
            &&& nearly(loads.accel_x, (along - drag) / m)
            &&& nearly(loads.accel_y, across / m)
            &&& nearly(loads.front_lateral, number(b.fl.y) + number(b.fr.y))
            &&& nearly(loads.rear_lateral, number(b.rl.y) + number(b.rr.y))
            &&& nearly(
                loads.kingpin_torque,
                number(car.kingpin(unit, car.patch(unit, x, 0))) + number(
                    car.kingpin(unit, car.patch(unit, x, 1)),
                ),
            )
        }),
{
    let p = car.params;
    numbers::lemma_unrounded(ZERO);
    let b = car.loads(unit, x).body;
    let held_back = car.drag(unit, x[IDX_VX as int]);
    let king_left = car.kingpin(unit, car.patch(unit, x, 0));
    let king_right = car.kingpin(unit, car.patch(unit, x, 1));
    let along1 = plus(unit, ZERO, b.fl.x);
    let along1_n = number(ZERO) + number(b.fl.x);
    numbers::lemma_within_plus(unit, ZERO, number(ZERO), 0real, b.fl.x, number(b.fl.x), 0real);
    assert(numbers::within(along1, along1_n, 110000real));
    let along2 = plus(unit, along1, b.fr.x);
    let along2_n = along1_n + number(b.fr.x);
    numbers::lemma_within_plus(unit, along1, along1_n, 110000real, b.fr.x, number(b.fr.x), 0real);
    assert(numbers::within(along2, along2_n, 320000real));
    let along3 = plus(unit, along2, b.rl.x);
    let along3_n = along2_n + number(b.rl.x);
    numbers::lemma_within_plus(unit, along2, along2_n, 320000real, b.rl.x, number(b.rl.x), 0real);
    assert(numbers::within(along3, along3_n, 630000real));
    let along4 = plus(unit, along3, b.rr.x);
    let along4_n = along3_n + number(b.rr.x);
    numbers::lemma_within_plus(unit, along3, along3_n, 630000real, b.rr.x, number(b.rr.x), 0real);
    assert(numbers::within(along4, along4_n, 1100000real));
    let across1 = plus(unit, ZERO, b.fl.y);
    let across1_n = number(ZERO) + number(b.fl.y);
    numbers::lemma_within_plus(unit, ZERO, number(ZERO), 0real, b.fl.y, number(b.fl.y), 0real);
    assert(numbers::within(across1, across1_n, 110000real));
    let across2 = plus(unit, across1, b.fr.y);
    let across2_n = across1_n + number(b.fr.y);
    numbers::lemma_within_plus(unit, across1, across1_n, 110000real, b.fr.y, number(b.fr.y), 0real);
    assert(numbers::within(across2, across2_n, 320000real));
    let across3 = plus(unit, across2, b.rl.y);
    let across3_n = across2_n + number(b.rl.y);
    numbers::lemma_within_plus(unit, across2, across2_n, 320000real, b.rl.y, number(b.rl.y), 0real);
    assert(numbers::within(across3, across3_n, 630000real));
    let across4 = plus(unit, across3, b.rr.y);
    let across4_n = across3_n + number(b.rr.y);
    numbers::lemma_within_plus(unit, across3, across3_n, 630000real, b.rr.y, number(b.rr.y), 0real);
    assert(numbers::within(across4, across4_n, 1100000real));
    let front1 = plus(unit, ZERO, b.fl.y);
    let front1_n = number(ZERO) + number(b.fl.y);
    numbers::lemma_within_plus(unit, ZERO, number(ZERO), 0real, b.fl.y, number(b.fl.y), 0real);
    assert(numbers::within(front1, front1_n, 110000real));
    let front2 = plus(unit, front1, b.fr.y);
    let front2_n = front1_n + number(b.fr.y);
    numbers::lemma_within_plus(unit, front1, front1_n, 110000real, b.fr.y, number(b.fr.y), 0real);
    assert(numbers::within(front2, front2_n, 320000real));
    let rear1 = plus(unit, ZERO, b.rl.y);
    let rear1_n = number(ZERO) + number(b.rl.y);
    numbers::lemma_within_plus(unit, ZERO, number(ZERO), 0real, b.rl.y, number(b.rl.y), 0real);
    assert(numbers::within(rear1, rear1_n, 110000real));
    let rear2 = plus(unit, rear1, b.rr.y);
    let rear2_n = rear1_n + number(b.rr.y);
    numbers::lemma_within_plus(unit, rear1, rear1_n, 110000real, b.rr.y, number(b.rr.y), 0real);
    assert(numbers::within(rear2, rear2_n, 320000real));
    let king1 = plus(unit, ZERO, king_left);
    let king1_n = number(ZERO) + number(king_left);
    numbers::lemma_within_plus(unit, ZERO, number(ZERO), 0real, king_left, number(king_left), 0real);
    assert(numbers::within(king1, king1_n, 110000real));
    let king2 = plus(unit, king1, king_right);
    let king2_n = king1_n + number(king_right);
    numbers::lemma_within_plus(unit, king1, king1_n, 110000real, king_right, number(king_right), 0real);
    assert(numbers::within(king2, king2_n, 320000real));
    let net = minus(unit, along4, held_back);
    let net_n = along4_n - number(held_back);
    numbers::lemma_within_minus(unit, along4, along4_n, 1100000real, held_back, number(held_back), 0real);
    assert(numbers::within(net, net_n, 1700000real));
    let ahead = over(unit, net, p.mass);
    let ahead_n = net_n / number(p.mass);
    numbers::lemma_within_over(unit, net, net_n, 1700000real, p.mass, 50000real, 170000real);
    assert(numbers::within(ahead, ahead_n, 230000real));
    let aside = over(unit, across4, p.mass);
    let aside_n = across4_n / number(p.mass);
    numbers::lemma_within_over(unit, across4, across4_n, 1100000real, p.mass, 40000real, 110000real);
    assert(numbers::within(aside, aside_n, 160000real));
}

/// Each corner's force is its own patch's, on its own load, turned by its own wheel.
pub proof fn law_each_corner_has_its_own_patch<F: Fn(Operation) -> Scalar>(
    car: Car,
    unit: &F,
    x: Seq<Scalar>,
    corner: int,
)
    requires
        rounding(unit),
        0 <= corner < 4,
    ensures
        ({
            let loads = car.loads(unit, x);
            let steer = car.steered(unit, car.input.steering_angle_command);
            let patch = car.patch(unit, x, corner);
            &&& loads.forces.at(corner) == patch
            &&& loads.fz.at(corner) == car.vertical(unit, x, corner)
            &&& loads.steer.at(corner) == steer.at(corner)
            &&& loads.body.at(corner) == turned(unit, patch, steer.at(corner))
        }),
{

}

/// Downforce is carried by the axles as the aerodynamic balance has it, half on each side.
pub proof fn law_downforce_is_shared_by_balance<F: Fn(Operation) -> Scalar>(
    car: Car,
    unit: &F,
    vx: Scalar,
    corner: int,
)
    requires
        rounding(unit),
        upto(car.downforce(unit, vx), 100000real),
        upto(car.params.aero_balance, 1real),
    ensures
        nearly(
            car.aero_share(unit, vx, corner),
            if corner < 2 {
                number(car.downforce(unit, vx)) * number(car.params.aero_balance) * (1real / 2real)
            } else {
                number(car.downforce(unit, vx)) * (1real - number(car.params.aero_balance)) * (1real
                    / 2real)
            },
        ),
{
    let p = car.params;
    numbers::lemma_unrounded(ZERO);
    let down = car.downforce(unit, vx);
    let front_both = times(unit, down, p.aero_balance);
    let front_both_n = number(down) * number(p.aero_balance);
    numbers::lemma_within_times(unit, down, number(down), 0real, p.aero_balance, number(p.aero_balance), 0real, 100000real, 1real);
    assert(numbers::within(front_both, front_both_n, 210000real));
    let front_one = times(unit, front_both, HALF);
    let front_one_n = front_both_n * number(HALF);
    numbers::lemma_within_times(unit, front_both, front_both_n, 210000real, HALF, number(HALF), 0real, 100000real, 1real);
    assert(numbers::within(front_one, front_one_n, 630000real));
    let behind = minus(unit, ONE, p.aero_balance);
    let behind_n = number(ONE) - number(p.aero_balance);
    numbers::lemma_within_minus(unit, ONE, number(ONE), 0real, p.aero_balance, number(p.aero_balance), 0real);
    assert(numbers::within(behind, behind_n, 4real));
    let rear_both = times(unit, down, behind);
    let rear_both_n = number(down) * behind_n;
    numbers::lemma_within_times(unit, down, number(down), 0real, behind, behind_n, 4real, 100000real, 2real);
    assert(numbers::within(rear_both, rear_both_n, 710000real));
    let rear_one = times(unit, rear_both, HALF);
    let rear_one_n = rear_both_n * number(HALF);
    numbers::lemma_within_times(unit, rear_both, rear_both_n, 710000real, HALF, number(HALF), 0real, 200000real, 1real);
    assert(numbers::within(rear_one, rear_one_n, 1900000real));
}

/// The links carry a part of the load across at once: the lateral force of an axle at the
/// height of its roll centre, over its track, and the force ahead at the height of the
/// pitch centre, over the wheelbase.
pub proof fn law_the_links_carry_load_across<F: Fn(Operation) -> Scalar>(
    car: Car,
    unit: &F,
    corner: int,
    base: Scalar,
)
    requires
        rounding(unit),
        base == plus(unit, car.params.a, car.params.b),
        upto(base, 100real),
        number(base) >= 1real / 10real,
        upto(car.params.track_front, 10real),
        number(car.params.track_front) >= 1real / 10real,
        upto(car.params.track_rear, 10real),
        number(car.params.track_rear) >= 1real / 10real,
        upto(car.params.roll_centre_front, 10real),
        upto(car.params.roll_centre_rear, 10real),
        upto(car.params.pitch_centre, 10real),
        upto(car.previous_front_lateral, 100000real),
        upto(car.previous_rear_lateral, 100000real),
        upto(car.previous_longitudinal, 100000real),
    ensures
        ({
            let p = car.params;
            &&& nearly(
                car.geometric_lateral(unit, corner),
                if corner < 2 {
                    number(car.previous_front_lateral) * number(p.roll_centre_front) / number(
                        p.track_front,
                    )
                } else {
                    number(car.previous_rear_lateral) * number(p.roll_centre_rear) / number(
                        p.track_rear,
                    )
                },
            )
            &&& nearly(
                car.geometric_longitudinal(unit),
                number(car.previous_longitudinal) * number(p.pitch_centre) / number(base),
            )
        }),
{
    let p = car.params;
    numbers::lemma_unrounded(ZERO);
    let front_moment = times(unit, car.previous_front_lateral, p.roll_centre_front);
    let front_moment_n = number(car.previous_front_lateral) * number(p.roll_centre_front);
    numbers::lemma_within_times(unit, car.previous_front_lateral, number(car.previous_front_lateral), 0real, p.roll_centre_front, number(p.roll_centre_front), 0real, 100000real, 10real);
    assert(numbers::within(front_moment, front_moment_n, 1200000real));
    let front = over(unit, front_moment, p.track_front);
    let front_n = front_moment_n / number(p.track_front);
    numbers::lemma_within_over(unit, front_moment, front_moment_n, 1200000real, p.track_front, 10000000real, 12000000real);
    assert(numbers::within(front, front_n, 23000000real));
    let rear_moment = times(unit, car.previous_rear_lateral, p.roll_centre_rear);
    let rear_moment_n = number(car.previous_rear_lateral) * number(p.roll_centre_rear);
    numbers::lemma_within_times(unit, car.previous_rear_lateral, number(car.previous_rear_lateral), 0real, p.roll_centre_rear, number(p.roll_centre_rear), 0real, 100000real, 10real);
    assert(numbers::within(rear_moment, rear_moment_n, 1200000real));
    let rear = over(unit, rear_moment, p.track_rear);
    let rear_n = rear_moment_n / number(p.track_rear);
    numbers::lemma_within_over(unit, rear_moment, rear_moment_n, 1200000real, p.track_rear, 10000000real, 12000000real);
    assert(numbers::within(rear, rear_n, 23000000real));
    let pitch_moment = times(unit, car.previous_longitudinal, p.pitch_centre);
    let pitch_moment_n = number(car.previous_longitudinal) * number(p.pitch_centre);
    numbers::lemma_within_times(unit, car.previous_longitudinal, number(car.previous_longitudinal), 0real, p.pitch_centre, number(p.pitch_centre), 0real, 100000real, 10real);
    assert(numbers::within(pitch_moment, pitch_moment_n, 1200000real));
    let along = over(unit, pitch_moment, base);
    let along_n = pitch_moment_n / number(base);
    numbers::lemma_within_over(unit, pitch_moment, pitch_moment_n, 1200000real, base, 10000000real, 12000000real);
    assert(numbers::within(along, along_n, 23000000real));
}

/// A tire carries the corner at rest, more as the wheel is pressed into the road and as it
/// goes down, and the air's share. A lateral force to the left loads the right-hand
/// corners and relieves the left, a force ahead loads the rear and relieves the front.
/// A tire never pulls.
#[verifier::rlimit(60)]
pub proof fn law_loads_move_outward_and_back<F: Fn(Operation) -> Scalar>(
    car: Car,
    unit: &F,
    x: Seq<Scalar>,
    corner: int,
)
    requires
        rounding(unit),
        0 <= corner < 4,
        upto(car.params.resting(unit, corner), 100000real),
        upto(car.params.tire_vertical_rate, 1000000real),
        upto(car.params.tire_vertical_damping, 10000real),
        upto(x[IDX_HOP + corner], 1real),
        upto(x[IDX_HOP_RATE + corner], 100real),
        upto(car.aero_share(unit, x[IDX_VX as int], corner), 100000real),
        upto(car.geometric_lateral(unit, corner), 100000real),
        upto(car.geometric_longitudinal(unit), 100000real),
        is_finite(car.params.aside(unit, corner)),
        corner == 0 || corner == 2 ==> number(car.params.aside(unit, corner)) > 0real,
        corner == 1 || corner == 3 ==> number(car.params.aside(unit, corner)) < 0real,
    ensures
        ({
            let p = car.params;
            let across = number(car.geometric_lateral(unit, corner));
            let along = number(car.geometric_longitudinal(unit));
            let load = number(p.resting(unit, corner)) - number(p.tire_vertical_rate) * number(
                x[IDX_HOP + corner],
            ) - number(p.tire_vertical_damping) * number(x[IDX_HOP_RATE + corner]) + number(
                car.aero_share(unit, x[IDX_VX as int], corner),
            ) + (if corner == 0 || corner == 2 {
                -across
            } else {
                across
            }) + (if corner < 2 {
                -along
            } else {
                along
            });
            nearly(
                car.vertical(unit, x, corner),
                if load < 0real {
                    0real
                } else {
                    load
                },
            )
        }),
{
    let p = car.params;
    numbers::lemma_unrounded(ZERO);
    let hop = x[IDX_HOP + corner];
    let hop_rate = x[IDX_HOP_RATE + corner];
    let resting = p.resting(unit, corner);
    let air = car.aero_share(unit, x[IDX_VX as int], corner);
    let lateral = car.geometric_lateral(unit, corner);
    let longitudinal = car.geometric_longitudinal(unit);
    let out = p.aside(unit, corner);
    numbers::lemma_side(out);
    let side = negate(signum(out));
    numbers::lemma_unrounded(signum(out));
    let end = if corner < 2 {
        MINUS_ONE
    } else {
        ONE
    };
    let spring = times(unit, p.tire_vertical_rate, hop);
    let spring_n = number(p.tire_vertical_rate) * number(hop);
    numbers::lemma_within_times(unit, p.tire_vertical_rate, number(p.tire_vertical_rate), 0real, hop, number(hop), 0real, 1000000real, 1real);
    assert(numbers::within(spring, spring_n, 2100000real));
    let sprung = minus(unit, resting, spring);
    let sprung_n = number(resting) - spring_n;
    numbers::lemma_within_minus(unit, resting, number(resting), 0real, spring, spring_n, 2100000real);
    assert(numbers::within(sprung, sprung_n, 3300000real));
    let damping = times(unit, p.tire_vertical_damping, hop_rate);
    let damping_n = number(p.tire_vertical_damping) * number(hop_rate);
    numbers::lemma_within_times(unit, p.tire_vertical_damping, number(p.tire_vertical_damping), 0real, hop_rate, number(hop_rate), 0real, 10000real, 100real);
    assert(numbers::within(damping, damping_n, 1100000real));
    let damped = minus(unit, sprung, damping);
    let damped_n = sprung_n - damping_n;
    numbers::lemma_within_minus(unit, sprung, sprung_n, 3300000real, damping, damping_n, 1100000real);
    assert(numbers::within(damped, damped_n, 6600000real));
    let loaded = plus(unit, damped, air);
    let loaded_n = damped_n + number(air);
    numbers::lemma_within_plus(unit, damped, damped_n, 6600000real, air, number(air), 0real);
    assert(numbers::within(loaded, loaded_n, 8900000real));
    let leaned = times(unit, side, lateral);
    let leaned_n = number(side) * number(lateral);
    numbers::lemma_within_times(unit, side, number(side), 0real, lateral, number(lateral), 0real, 1real, 100000real);
    assert(numbers::within(leaned, leaned_n, 210000real));
    let sideways = plus(unit, loaded, leaned);
    let sideways_n = loaded_n + leaned_n;
    numbers::lemma_within_plus(unit, loaded, loaded_n, 8900000real, leaned, leaned_n, 210000real);
    assert(numbers::within(sideways, sideways_n, 12000000real));
    let dived = times(unit, end, longitudinal);
    let dived_n = number(end) * number(longitudinal);
    numbers::lemma_within_times(unit, end, number(end), 0real, longitudinal, number(longitudinal), 0real, 1real, 100000real);
    assert(numbers::within(dived, dived_n, 210000real));
    let all = plus(unit, sideways, dived);
    let all_n = sideways_n + dived_n;
    numbers::lemma_within_plus(unit, sideways, sideways_n, 12000000real, dived, dived_n, 210000real);
    assert(numbers::within(all, all_n, 15000000real));
    let (l, m) = (number(lateral), number(longitudinal));
    assert((-1real) * l == -l && 1real * l == l && (-1real) * m == -m && 1real * m == m)
        by (nonlinear_arith);
    numbers::lemma_number_order(all, ZERO);
}

/// Slip closes on what the patch's own motion makes of it, the faster the further the
/// patch rolls: the slip angle on the angle the patch slides to the right by, and never
/// on one made of less than the speed floor. `target` is the unit's arc tangent.
pub proof fn law_slip_angles_relax<F: Fn(Operation) -> Scalar>(
    car: Car,
    unit: &F,
    x: Seq<Scalar>,
    corner: int,
    pace: Scalar,
    target: Scalar,
)
    requires
        rounding(unit),
        pace == TireParams::relaxation(unit, car.patch_velocity(unit, x, corner).x, car.params.tire.relaxation_lateral, car.params.speed_floor),
        target == negate(atan(unit, over(unit, car.patch_velocity(unit, x, corner).y, max_of(abs(car.patch_velocity(unit, x, corner).x), car.params.speed_floor)))),
        upto(pace, 100000real),
        upto(target, 1000real),
        upto(x[IDX_SLIP_ANGLE + corner], 1000real),
    ensures
        nearly(
            car.slip_angle_rate(unit, x, corner),
            number(pace) * (number(target) - number(x[IDX_SLIP_ANGLE + corner])),
        ),
{
    let p = car.params;
    numbers::lemma_unrounded(ZERO);
    let slip = x[IDX_SLIP_ANGLE + corner];
    let behind = minus(unit, target, slip);
    let behind_n = number(target) - number(slip);
    numbers::lemma_within_minus(unit, target, number(target), 0real, slip, number(slip), 0real);
    assert(numbers::within(behind, behind_n, 2100real));
    let closing = times(unit, pace, behind);
    let closing_n = number(pace) * behind_n;
    numbers::lemma_within_times(unit, pace, number(pace), 0real, behind, behind_n, 2100real, 100000real, 2000real);
    assert(numbers::within(closing, closing_n, 420000000real));
}

/// The slip ratio closes on how much faster the rim of the wheel goes than the road under
/// it, as a share of the speed, kept to four either way.
pub proof fn law_slip_ratios_relax<F: Fn(Operation) -> Scalar>(
    car: Car,
    unit: &F,
    x: Seq<Scalar>,
    corner: int,
    pace: Scalar,
    along: Scalar,
)
    requires
        rounding(unit),
        pace == TireParams::relaxation(unit, car.patch_velocity(unit, x, corner).x, car.params.tire.relaxation_longitudinal, car.params.speed_floor),
        along == max_of(abs(car.patch_velocity(unit, x, corner).x), car.params.speed_floor),
        upto(pace, 1000real),
        upto(along, 1000real),
        number(along) >= 1real / 10real,
        upto(x[IDX_SLIP_RATIO + corner], 1000real),
        upto(x[IDX_OMEGA + corner], 1000real),
        upto(car.params.wheel_radius, 10real),
        upto(car.patch_velocity(unit, x, corner).x, 1000real),
    ensures
        ({
            let v = number(car.patch_velocity(unit, x, corner).x);
            let rim = number(x[IDX_OMEGA + corner]) * number(car.params.wheel_radius);
            nearly(
                car.slip_ratio_rate(unit, x, corner),
                number(pace) * (held((rim - v) / number(along)) - number(
                    x[IDX_SLIP_RATIO + corner],
                )),
            )
        }),
{
    let p = car.params;
    numbers::lemma_unrounded(ZERO);
    let slip = x[IDX_SLIP_RATIO + corner];
    let v = car.patch_velocity(unit, x, corner);
    let rim = times(unit, x[IDX_OMEGA + corner], p.wheel_radius);
    let rim_n = number(x[IDX_OMEGA + corner]) * number(p.wheel_radius);
    numbers::lemma_within_times(unit, x[IDX_OMEGA + corner], number(x[IDX_OMEGA + corner]), 0real, p.wheel_radius, number(p.wheel_radius), 0real, 1000real, 10real);
    assert(numbers::within(rim, rim_n, 12000real));
    let slipping = minus(unit, rim, v.x);
    let slipping_n = rim_n - number(v.x);
    numbers::lemma_within_minus(unit, rim, rim_n, 12000real, v.x, number(v.x), 0real);
    assert(numbers::within(slipping, slipping_n, 24000real));
    let target = over(unit, slipping, along);
    let target_n = slipping_n / number(along);
    numbers::lemma_within_over(unit, slipping, slipping_n, 24000real, along, 110000real, 240000real);
    assert(numbers::within(target, target_n, 360000real));
    let kept = clamp(target, MINUS_FOUR, FOUR);
    let kept_n = held(target_n);
    lemma_four();
    numbers::lemma_number_order(target, MINUS_FOUR);
    numbers::lemma_number_order(FOUR, target);
    assert(numbers::within(kept, kept_n, 360000real));
    let behind = minus(unit, kept, slip);
    let behind_n = kept_n - number(slip);
    numbers::lemma_within_minus(unit, kept, kept_n, 360000real, slip, number(slip), 0real);
    assert(numbers::within(behind, behind_n, 370000real));
    let closing = times(unit, pace, behind);
    let closing_n = number(pace) * behind_n;
    numbers::lemma_within_times(unit, pace, number(pace), 0real, behind, behind_n, 370000real, 1000real, 1004real);
    assert(numbers::within(closing, closing_n, 380000000real));
}

/// How fast slip closes: the speed over the relaxation length, neither of them taken as
/// less than its floor.
pub proof fn law_slip_relaxes_over_a_length<F: Fn(Operation) -> Scalar>(
    unit: &F,
    speed: Scalar,
    length: Scalar,
    floor: Scalar,
)
    requires
        rounding(unit),
        upto(speed, 1000real),
        upto(length, 100real),
        upto(floor, 1000real),
    ensures
        ({
            let v = if size(number(speed)) < number(floor) {
                number(floor)
            } else {
                size(number(speed))
            };
            let l = if number(length) < number(SHORTEST_LENGTH) {
                number(SHORTEST_LENGTH)
            } else {
                number(length)
            };
            nearly(TireParams::relaxation(unit, speed, length, floor), v / l)
        }),
        1real / 1001real <= number(SHORTEST_LENGTH) <= 1real / 999real,
{
    let v = max_of(abs(speed), floor);
    let l = max_of(length, SHORTEST_LENGTH);
    numbers::lemma_unrounded(speed);
    lemma_shortest();
    numbers::lemma_number_order(abs(speed), floor);
    numbers::lemma_number_order(length, SHORTEST_LENGTH);
    numbers::lemma_within_over(unit, v, number(v), 0real, l, 1001000real, 0real);
}

/// The differential holds the faster rear wheel back: by its preload, in the direction that
/// `t` has for how far apart the wheels turn, and by its gain on how far. It takes
/// nothing from wheels that turn alike.
pub proof fn law_the_differential_holds_the_faster_wheel<F: Fn(Operation) -> Scalar>(
    car: Car,
    unit: &F,
    x: Seq<Scalar>,
    t: Scalar,
)
    requires
        rounding(unit),
        upto(x[IDX_OMEGA + 2], 1000real),
        upto(x[IDX_OMEGA + 3], 1000real),
        upto(car.params.diff_preload, 1000real),
        upto(car.params.diff_lock_gain, 1000real),
        upto(t, 1real),
        t == tanh(unit, over(unit, minus(unit, x[IDX_OMEGA + 2], x[IDX_OMEGA + 3]), car.params.omega_epsilon)),
    ensures
        nearly(
            car.lock_torque(unit, x),
            number(car.params.diff_preload) * number(t) + number(car.params.diff_lock_gain) * (
            number(x[IDX_OMEGA + 2]) - number(x[IDX_OMEGA + 3])),
        ),
{
    let p = car.params;
    numbers::lemma_unrounded(ZERO);
    let apart = minus(unit, x[IDX_OMEGA + 2], x[IDX_OMEGA + 3]);
    let apart_n = number(x[IDX_OMEGA + 2]) - number(x[IDX_OMEGA + 3]);
    numbers::lemma_within_minus(unit, x[IDX_OMEGA + 2], number(x[IDX_OMEGA + 2]), 0real, x[IDX_OMEGA + 3], number(x[IDX_OMEGA + 3]), 0real);
    assert(numbers::within(apart, apart_n, 2100real));
    let preload = times(unit, p.diff_preload, t);
    let preload_n = number(p.diff_preload) * number(t);
    numbers::lemma_within_times(unit, p.diff_preload, number(p.diff_preload), 0real, t, number(t), 0real, 1000real, 1real);
    assert(numbers::within(preload, preload_n, 2100real));
    let locking = times(unit, p.diff_lock_gain, apart);
    let locking_n = number(p.diff_lock_gain) * apart_n;
    numbers::lemma_within_times(unit, p.diff_lock_gain, number(p.diff_lock_gain), 0real, apart, apart_n, 2100real, 1000real, 2000real);
    assert(numbers::within(locking, locking_n, 4200000real));
    let lock = plus(unit, preload, locking);
    let lock_n = preload_n + locking_n;
    numbers::lemma_within_plus(unit, preload, preload_n, 2100real, locking, locking_n, 4200000real);
    assert(numbers::within(lock, lock_n, 6300000real));
}

/// The frame of a step says what the car does: its speeds, its loads and its angles are the
/// car's own. The handwheel torque is the reaction of the front wheels, through the
/// ratio and the losses of the steering, against the turn; the handwheel stands at the
/// command, as far as the rack goes, and the rest is the excess.
pub proof fn law_the_frame_reports_the_car<F: Fn(Operation) -> Scalar>(
    car: Car,
    unit: &F,
    x: Seq<Scalar>,
    loads: Loads,
    time: Scalar,
    step_index: u64,
)
    requires
        rounding(unit),
        upto(loads.kingpin_torque, 100000real),
        upto(car.params.steer_ratio, 100real),
        number(car.params.steer_ratio) >= 1real / 10real,
        upto(car.params.steer_efficiency, 1real),
        upto(car.input.steering_angle_command, 100real),
        upto(car.params.rack_limit, 100real),
        number(car.params.rack_limit) >= 0real,
    ensures
        ({
            let p = car.params;
            let frame = reported(unit, car, x, loads, time, step_index);
            let command = number(car.input.steering_angle_command);
            let limit = number(p.rack_limit);
            let hands = if command > limit {
                limit
            } else if command < -limit {
                -limit
            } else {
                command
            };
            &&& nearly(
                frame.handwheel_torque,
                -(number(loads.kingpin_torque) / number(p.steer_ratio) * number(p.steer_efficiency)),
            )
            &&& nearly(frame.handwheel_angle, hands)
            &&& nearly(frame.steer_excess, command - hands)
            &&& frame.sim_time == time && frame.step_index == step_index
            &&& frame.vel_x == x[IDX_VX as int] && frame.vel_y == x[IDX_VY as int]
            &&& frame.yaw_vel == x[IDX_YAW_RATE as int] && frame.roll == x[IDX_ROLL as int]
            &&& frame.acc_x == loads.accel_x && frame.acc_y == loads.accel_y
            &&& frame.fz_fl == loads.fz.fl && frame.fz_fr == loads.fz.fr
            &&& frame.fz_rl == loads.fz.rl && frame.fz_rr == loads.fz.rr
            &&& frame.left_steer_angle == loads.steer.fl
            &&& frame.right_steer_angle == loads.steer.fr
        }),
{
    let p = car.params;
    numbers::lemma_unrounded(ZERO);
    let command = car.input.steering_angle_command;
    let limit = p.rack_limit;
    let kept = clamp(command, negate(limit), limit);
    numbers::lemma_unrounded(limit);
    numbers::lemma_number_order(command, negate(limit));
    numbers::lemma_number_order(limit, command);
    let column = over(unit, loads.kingpin_torque, p.steer_ratio);
    let column_n = number(loads.kingpin_torque) / number(p.steer_ratio);
    numbers::lemma_within_over(unit, loads.kingpin_torque, number(loads.kingpin_torque), 0real, p.steer_ratio, 1000000real, 0real);
    assert(numbers::within(column, column_n, 1100000real));
    let felt = times(unit, column, p.steer_efficiency);
    let felt_n = column_n * number(p.steer_efficiency);
    numbers::lemma_within_times(unit, column, column_n, 1100000real, p.steer_efficiency, number(p.steer_efficiency), 0real, 1000000real, 1real);
    assert(numbers::within(felt, felt_n, 4300000real));
    let excess = minus(unit, command, kept);
    let excess_n = number(command) - number(kept);
    numbers::lemma_within_minus(unit, command, number(command), 0real, kept, number(kept), 0real);
    assert(numbers::within(excess, excess_n, 210real));
    let hands = minus(unit, command, excess);
    let hands_n = number(command) - excess_n;
    numbers::lemma_within_minus(unit, command, number(command), 0real, excess, excess_n, 210real);
    assert(numbers::within(hands, hands_n, 520real));
    numbers::lemma_unrounded(felt);
}

/// The road wheels stand at the handwheel's angle over the steering ratio, as far as the
/// rack goes.
pub proof fn law_the_rack_limits_the_wheels<F: Fn(Operation) -> Scalar>(
    car: Car,
    unit: &F,
    handwheel: Scalar,
)
    requires
        rounding(unit),
        upto(handwheel, 100real),
        upto(car.params.rack_limit, 100real),
        number(car.params.rack_limit) >= 0real,
        upto(car.params.steer_ratio, 100real),
        number(car.params.steer_ratio) >= 1real / 10real,
    ensures
        ({
            let (command, limit) = (number(handwheel), number(car.params.rack_limit));
            let hands = if command > limit {
                limit
            } else if command < -limit {
                -limit
            } else {
                command
            };
            nearly(car.base_angle(unit, handwheel), hands / number(car.params.steer_ratio))
        }),
{
    let p = car.params;
    numbers::lemma_unrounded(ZERO);
    let limit = p.rack_limit;
    let kept = clamp(handwheel, negate(limit), limit);
    numbers::lemma_unrounded(limit);
    numbers::lemma_number_order(handwheel, negate(limit));
    numbers::lemma_number_order(limit, handwheel);
    let base = over(unit, kept, p.steer_ratio);
    let base_n = number(kept) / number(p.steer_ratio);
    numbers::lemma_within_over(unit, kept, number(kept), 0real, p.steer_ratio, 1000real, 0real);
    assert(numbers::within(base, base_n, 1100real));
}

/// A front wheel stands thirty-five hundredths of the way from where the rack has it to
/// where it would roll freely. The wheel on the inside of the turn is the left one when
/// the car steers left, and the rear wheels do not steer.
pub proof fn law_the_wheels_split_by_a_part<F: Fn(Operation) -> Scalar>(
    car: Car,
    unit: &F,
    handwheel: Scalar,
    base: Scalar,
    inner: bool,
)
    requires
        rounding(unit),
        upto(base, 10real),
        upto(car.free_angle(unit, base, inner), 10real),
    ensures
        nearly(
            car.split_angle(unit, base, inner),
            number(base) + 35real / 100real * (number(car.free_angle(unit, base, inner)) - number(
                base,
            )),
        ),
        ({
            let straight = car.base_angle(unit, handwheel);
            let wheels = car.steered(unit, handwheel);
            &&& is_finite(straight) && number(straight) >= 0real ==> wheels.fl == car.split_angle(
                unit,
                straight,
                true,
            ) && wheels.fr == car.split_angle(unit, straight, false)
            &&& is_finite(straight) && number(straight) < 0real ==> wheels.fl == car.split_angle(
                unit,
                straight,
                false,
            ) && wheels.fr == car.split_angle(unit, straight, true)
            &&& number(wheels.rl) == 0real && number(wheels.rr) == 0real
        }),
{
    let p = car.params;
    numbers::lemma_unrounded(ZERO);
    let free = car.free_angle(unit, base, inner);
    lemma_split();
    let share = 35real / 100real;
    let more = minus(unit, free, base);
    let more_n = number(free) - number(base);
    numbers::lemma_within_minus(unit, free, number(free), 0real, base, number(base), 0real);
    assert(numbers::within(more, more_n, 22real));
    let split = times(unit, ACKERMANN, more);
    let split_n = share * more_n;
    numbers::lemma_within_times(unit, ACKERMANN, share, 1real, more, more_n, 22real, 1real, 20real);
    assert(numbers::within(split, split_n, 86real));
    let angle = plus(unit, base, split);
    let angle_n = number(base) + split_n;
    numbers::lemma_within_plus(unit, base, number(base), 0real, split, split_n, 86real);
    assert(numbers::within(angle, angle_n, 120real));
    numbers::lemma_number_order(car.base_angle(unit, handwheel), ZERO);
}

/// A front wheel would roll freely square to the line to the turn's centre, which lies at
/// `radius` on the rear axle's line: half a track nearer for the inner wheel, half a
/// track further for the outer.
pub proof fn law_free_wheels_point_round_the_centre<F: Fn(Operation) -> Scalar>(
    car: Car,
    unit: &F,
    base: Scalar,
    radius: Scalar,
    inner: bool,
)
    requires
        rounding(unit),
        upto(base, 10real),
        size(number(base)) > 1real / 100000real,
        radius == over(unit, plus(unit, car.params.a, car.params.b), tan(unit, base)),
        upto(radius, 1000real),
        upto(car.params.track_front, 10real),
    ensures
        exists|reach: Scalar|
            {
                let half = number(car.params.track_front) * (1real / 2real);
                let out = if number(base) > 0real {
                    half
                } else {
                    -half
                };
                &&& car.free_angle(unit, base, inner) == atan(
                    unit,
                    #[trigger] over(unit, plus(unit, car.params.a, car.params.b), reach),
                )
                &&& nearly(
                    reach,
                    if inner {
                        number(radius) - out
                    } else {
                        number(radius) + out
                    },
                )
            },
{
    let p = car.params;
    numbers::lemma_unrounded(ZERO);
    numbers::lemma_side(base);
    lemma_straight();
    numbers::lemma_unrounded(base);
    numbers::lemma_number_order(STRAIGHT, abs(base));
    let half = times(unit, p.track_front, HALF);
    let half_n = number(p.track_front) * number(HALF);
    numbers::lemma_within_times(unit, p.track_front, number(p.track_front), 0real, HALF, number(HALF), 0real, 10real, 1real);
    assert(numbers::within(half, half_n, 23real));
    let offset = times(unit, half, signum(base));
    let offset_n = half_n * number(signum(base));
    numbers::lemma_within_times(unit, half, half_n, 23real, signum(base), number(signum(base)), 0real, 10real, 1real);
    assert(numbers::within(offset, offset_n, 69real));
    let nearer = minus(unit, radius, offset);
    let nearer_n = number(radius) - offset_n;
    numbers::lemma_within_minus(unit, radius, number(radius), 0real, offset, offset_n, 69real);
    assert(numbers::within(nearer, nearer_n, 1100real));
    let further = plus(unit, radius, offset);
    let further_n = number(radius) + offset_n;
    numbers::lemma_within_plus(unit, radius, number(radius), 0real, offset, offset_n, 69real);
    assert(numbers::within(further, further_n, 1100real));
    assert(half_n * 1real == half_n && half_n * (-1real) == -half_n) by (nonlinear_arith);
    let wheelbase = plus(unit, p.a, p.b);
    let reach = if inner {
        nearer
    } else {
        further
    };
    assert(car.free_angle(unit, base, inner) == atan(unit, over(unit, wheelbase, reach)));
}

/// A session starts straight ahead at the speed it was asked for, every wheel rolling at
/// that speed without slip, and nothing else moving.
pub proof fn law_a_session_starts_rolling<F: Fn(Operation) -> Scalar>(
    unit: &F,
    params: ReducedParams,
    init: InitialConditions,
    i: int,
)
    requires
        rounding(unit),
        0 <= i < STATE_COUNT,
        upto(init.speed, 1000real),
        upto(params.wheel_radius, 10real),
        number(params.wheel_radius) >= 1real / 100real,
    ensures
        ({
            let start = launch_state(unit, params, init);
            let speed = number(init.speed);
            &&& start.len() == STATE_COUNT
            &&& i == IDX_VX ==> number(start[i]) == speed
            &&& IDX_OMEGA <= i < IDX_OMEGA + 4 ==> nearly(
                start[i],
                speed / number(params.wheel_radius),
            )
            &&& i != IDX_VX && !(IDX_OMEGA <= i < IDX_OMEGA + 4) ==> number(start[i]) == 0real
        }),
{
    numbers::lemma_unrounded(ZERO);
    numbers::lemma_within_over(
        unit,
        init.speed,
        number(init.speed),
        0real,
        params.wheel_radius,
        100000real,
        0real,
    );
}

} // verus!
