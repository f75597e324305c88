//! What the pieces of the car's dynamics come to.
//!
//! Each law here says what a force, a moment or an acceleration is, in numbers: the
//! formula a textbook has for it, which the machine's words are held to within a
//! millionth over any state a car gets into.

use vstd::arithmetic::power2::*;
use vstd::prelude::*;

use crate::arith::{cos, minus, over, plus, rounding, sin, tanh, times, Operation};
use crate::numbers;
use crate::numbers::{nearly, number, size, upto};
use crate::plant::reduced::params::{GRAVITY, HALF};
use crate::plant::reduced::tire::TireForces;
use crate::plant::reduced::{
    turned, BodyForce, Car, IDX_HEAVE, IDX_HEAVE_RATE, IDX_HOP, IDX_HOP_RATE, IDX_OMEGA,
    IDX_PITCH, IDX_PITCH_RATE, IDX_ROLL, IDX_ROLL_RATE, IDX_SLIP_ANGLE, IDX_SLIP_RATIO, IDX_VX, IDX_VY, IDX_YAW_RATE, STATE_COUNT,
};
use crate::scalar;
use crate::scalar::{clamp, is_finite, negate, signum, Scalar, ONE, ZERO};

verus! {

/// What a kilogram weighs, in newtons.
pub open spec fn standard_gravity() -> real {
    980665real / 100000real
}

proof fn lemma_gravity()
    ensures
        numbers::within(GRAVITY, standard_gravity(), 10real),
        upto(GRAVITY, 10real),
{
    let m: nat = 0x13_9d01_3a92_a305;
    lemma2_to64();
    lemma2_to64_rest();
    scalar::lemma_scaled(GRAVITY, m, 0, 1026);
    lemma_pow2_adds(49, 1025);
    lemma_pow2_pos(1025);
    let g = pow2(1025) as real;
    numbers::lemma_product_of_wholes(m as int, pow2(1025) as int);
    numbers::lemma_product_of_wholes(pow2(49) as int, pow2(1025) as int);
    let n = number(GRAVITY);
    numbers::lemma_number(GRAVITY);
    let big = 562949953421312real;
    assert(pow2(49) == 562949953421312);
    assert(n * big == m as real) by (nonlinear_arith)
        requires
            n * (big * g) == (m as real) * g,
            g > 0real,
    ;
}

/// What a pedal asks for, kept to a fraction.
proof fn lemma_demand(pedal: Scalar)
    requires
        is_finite(pedal),
    ensures
        upto(clamp(pedal, ZERO, ONE), 1real),
        number(pedal) < 0real ==> number(clamp(pedal, ZERO, ONE)) == 0real,
        number(pedal) > 1real ==> number(clamp(pedal, ZERO, ONE)) == 1real,
        0real <= number(pedal) <= 1real ==> number(clamp(pedal, ZERO, ONE)) == number(pedal),
{
    numbers::lemma_unrounded(pedal);
    numbers::lemma_number_order(pedal, ZERO);
    numbers::lemma_number_order(ONE, pedal);
    scalar::lemma_exact_order(ZERO, ZERO);
}

/// The share of a wheelbase that one end of it is.
proof fn lemma_share<F: Fn(Operation) -> Scalar>(unit: &F, a: Scalar, b: Scalar)
    requires
        rounding(unit),
        is_finite(a),
        is_finite(b),
        1real / 10real <= number(a) <= 10real,
        1real / 10real <= number(b) <= 10real,
    ensures
        ({
            let all = number(a) + number(b);
            let (front, rear) = (
                over(unit, b, plus(unit, a, b)),
                over(unit, a, plus(unit, a, b)),
            );
            &&& upto(front, 2real)
            &&& upto(rear, 2real)
            &&& size(number(front) - number(b) / all) * 1000000000000real <= 1real
            &&& size(number(rear) - number(a) / all) * 1000000000000real <= 1real
        }),
{
    let base = plus(unit, a, b);
    let all = number(a) + number(b);
    numbers::lemma_in_range(all);
    numbers::lemma_close_plus(unit, a, b);
    numbers::lemma_off(base, all);
    lemma_part(unit, a, base, all);
    lemma_part(unit, b, base, all);
}

proof fn lemma_part<F: Fn(Operation) -> Scalar>(unit: &F, a: Scalar, base: Scalar, all: real)
    requires
        rounding(unit),
        is_finite(a),
        is_finite(base),
        0real <= number(a) <= all,
        1real / 5real <= all <= 20real,
        9007199254740992real * size(number(base) - all) <= all + 1real,
    ensures
        upto(over(unit, a, base), 2real),
        size(number(over(unit, a, base)) - number(a) / all) * 1000000000000real <= 1real,
{
    let (m, n) = (number(a), number(base));
    let (q, r) = (m / all, m / n);
    assert(q * all == m && r * n == m) by (nonlinear_arith)
        requires
            q == m / all,
            r == m / n,
            all > 0real,
            n > 0real,
    ;
    assert(0real <= q <= 1real && 0real <= r) by (nonlinear_arith)
        requires
            q * all == m,
            r * n == m,
            0real <= m <= all,
            all > 0real,
            n > 0real,
    ;
    let g = all - n;
    // (r - q) n == q g
    let f = r - q;
    assert(f * n == q * g) by (nonlinear_arith)
        requires
            f == r - q,
            g == all - n,
            q * all == m,
            r * n == m,
    ;
    numbers::lemma_size_of_product(f, n);
    numbers::lemma_size_of_product(q, g);
    numbers::lemma_multiples(q, 1real, size(g));
    numbers::lemma_multiples(1real / 10real, n, size(f));
    numbers::lemma_in_range(r);
    numbers::lemma_close_over(unit, a, base);
    numbers::lemma_off(over(unit, a, base), r);
}

proof fn lemma_shared(heavy: real, share: real, exactly: real)
    requires
        size(heavy) <= 100000real,
        size(share - exactly) * 1000000000000real <= 1real,
    ensures
        size(heavy * share - heavy * exactly) * 5000000real <= 1real,
{
    let gap = share - exactly;
    assert(heavy * gap == heavy * share - heavy * exactly) by (nonlinear_arith)
        requires
            gap == share - exactly,
    ;
    numbers::lemma_size_of_product(heavy, gap);
    numbers::lemma_multiples(size(heavy), 100000real, size(gap));
}

/// Air presses the car down and holds it back, both with the square of the speed, and
/// the drag is against the way the car goes.
pub proof fn law_air_presses_down_and_holds_back<F: Fn(Operation) -> Scalar>(
    car: Car,
    unit: &F,
    vx: Scalar,
)
    requires
        rounding(unit),
        upto(car.params.air_density, 10real),
        upto(car.params.lift_area, 10real),
        upto(car.params.drag_area, 10real),
        upto(vx, 200real),
    ensures
        ({
            let p = car.params;
            let v = number(vx);
            let down = 1real / 2real * number(p.air_density) * v * v * number(p.lift_area);
            let back = 1real / 2real * number(p.air_density) * v * v * number(p.drag_area);
            &&& nearly(car.downforce(unit, vx), down)
            &&& v >= 0real ==> nearly(car.drag(unit, vx), back) && nearly(
                car.slowing(unit, vx),
                back,
            )
            &&& v <= 0real ==> nearly(car.drag(unit, vx), -back) && nearly(
                car.slowing(unit, vx),
                -back,
            )
        }),
{
    let p = car.params;
    numbers::lemma_unrounded(ZERO);
    numbers::lemma_side(vx);
    let thin = times(unit, HALF, p.air_density);
    let thin_n = number(HALF) * number(p.air_density);
    numbers::lemma_within_times(unit, HALF, number(HALF), 0real, p.air_density, number(p.air_density), 0real, 1real, 10real);
    assert(numbers::within(thin, thin_n, 23real));
    let rushing = times(unit, thin, vx);
    let rushing_n = thin_n * number(vx);
    numbers::lemma_within_times(unit, thin, thin_n, 23real, vx, number(vx), 0real, 10real, 200real);
    assert(numbers::within(rushing, rushing_n, 6900real));
    let pressure = times(unit, rushing, vx);
    let pressure_n = rushing_n * number(vx);
    numbers::lemma_within_times(unit, rushing, rushing_n, 6900real, vx, number(vx), 0real, 2000real, 200real);
    assert(numbers::within(pressure, pressure_n, 1800000real));
    let held_down = times(unit, pressure, p.lift_area);
    let held_down_n = pressure_n * number(p.lift_area);
    numbers::lemma_within_times(unit, pressure, pressure_n, 1800000real, p.lift_area, number(p.lift_area), 0real, 400000real, 10real);
    assert(numbers::within(held_down, held_down_n, 25000000real));
    let dragged = times(unit, pressure, p.drag_area);
    let dragged_n = pressure_n * number(p.drag_area);
    numbers::lemma_within_times(unit, pressure, pressure_n, 1800000real, p.drag_area, number(p.drag_area), 0real, 400000real, 10real);
    assert(numbers::within(dragged, dragged_n, 25000000real));
    let opposed = times(unit, dragged, signum(vx));
    let opposed_n = dragged_n * number(signum(vx));
    numbers::lemma_within_times(unit, dragged, dragged_n, 25000000real, signum(vx), number(signum(vx)), 0real, 4000000real, 1real);
    assert(numbers::within(opposed, opposed_n, 59000000real));
    let broad = times(unit, thin, p.drag_area);
    let broad_n = thin_n * number(p.drag_area);
    numbers::lemma_within_times(unit, thin, thin_n, 23real, p.drag_area, number(p.drag_area), 0real, 10real, 10real);
    assert(numbers::within(broad, broad_n, 380real));
    let broad_rushing = times(unit, broad, vx);
    let broad_rushing_n = broad_n * number(vx);
    numbers::lemma_within_times(unit, broad, broad_n, 380real, vx, number(vx), 0real, 100real, 200real);
    assert(numbers::within(broad_rushing, broad_rushing_n, 97000real));
    let broad_pressure = times(unit, broad_rushing, vx);
    let broad_pressure_n = broad_rushing_n * number(vx);
    numbers::lemma_within_times(unit, broad_rushing, broad_rushing_n, 97000real, vx, number(vx), 0real, 20000real, 200real);
    assert(numbers::within(broad_pressure, broad_pressure_n, 24000000real));
    let slowed = times(unit, broad_pressure, signum(vx));
    let slowed_n = broad_pressure_n * number(signum(vx));
    numbers::lemma_within_times(unit, broad_pressure, broad_pressure_n, 24000000real, signum(vx), number(signum(vx)), 0real, 4000000real, 1real);
    assert(numbers::within(slowed, slowed_n, 57000000real));
    let v = number(vx);
    let (rho, ad) = (number(p.air_density), number(p.drag_area));
    let back = 1real / 2real * rho * v * v * ad;
    assert(dragged_n == back);
    assert(broad_pressure_n == back) by (nonlinear_arith)
        requires
            back == 1real / 2real * rho * v * v * ad,
            broad_pressure_n == 1real / 2real * rho * ad * v * v,
    ;
    if v == 0real {
        assert(back == 0real) by (nonlinear_arith)
            requires
                back == 1real / 2real * rho * v * v * ad,
                v == 0real,
        ;
    }
    let s = number(signum(vx));
    assert(opposed_n == back * s && slowed_n == back * s);
    assert(back * 1real == back && back * (-1real) == -back) by (nonlinear_arith);
    assert(0real * s == 0real) by (nonlinear_arith);
}

/// The moment about a kingpin is what the patch makes of its own, less the lateral force
/// on the caster trail: a force to the left turns the wheel back to the right.
pub proof fn law_the_kingpin_feels_the_trail<F: Fn(Operation) -> Scalar>(
    car: Car,
    unit: &F,
    patch: TireForces,
)
    requires
        rounding(unit),
        upto(patch.fy, 100000real),
        upto(patch.mz, 100000real),
        upto(car.params.mechanical_trail, 1real),
    ensures
        nearly(
            car.kingpin(unit, patch),
            number(patch.mz) - number(patch.fy) * number(car.params.mechanical_trail),
        ),
{
    let p = car.params;
    numbers::lemma_unrounded(ZERO);
    let caster = times(unit, patch.fy, p.mechanical_trail);
    let caster_n = number(patch.fy) * number(p.mechanical_trail);
    numbers::lemma_within_times(unit, patch.fy, number(patch.fy), 0real, p.mechanical_trail, number(p.mechanical_trail), 0real, 100000real, 1real);
    assert(numbers::within(caster, caster_n, 210000real));
    let moment = minus(unit, patch.mz, caster);
    let moment_n = number(patch.mz) - caster_n;
    numbers::lemma_within_minus(unit, patch.mz, number(patch.mz), 0real, caster, caster_n, 210000real);
    assert(numbers::within(moment, moment_n, 420000real));
}

/// The corners stand where the car has them: the front axle ahead of the centre of
/// gravity and the rear one behind it, the left wheels half a track to the left and
/// the right ones as far to the right.
pub proof fn law_corners_stand_where_they_stand<F: Fn(Operation) -> Scalar>(
    car: Car,
    unit: &F,
)
    requires
        rounding(unit),
        is_finite(car.params.a),
        is_finite(car.params.b),
        upto(car.params.track_front, 10real),
        upto(car.params.track_rear, 10real),
    ensures
        ({
            let p = car.params;
            let (front, rear) = (number(p.track_front), number(p.track_rear));
            &&& number(p.ahead(0)) == number(p.a) && number(p.ahead(1)) == number(p.a)
            &&& number(p.ahead(2)) == -number(p.b) && number(p.ahead(3)) == -number(p.b)
            &&& nearly(p.aside(unit, 0), front * (1real / 2real))
            &&& nearly(p.aside(unit, 1), -(front * (1real / 2real)))
            &&& nearly(p.aside(unit, 2), rear * (1real / 2real))
            &&& nearly(p.aside(unit, 3), -(rear * (1real / 2real)))
        }),
{
    let p = car.params;
    numbers::lemma_unrounded(ZERO);
    let front = times(unit, p.track_front, HALF);
    let front_n = number(p.track_front) * number(HALF);
    numbers::lemma_within_times(unit, p.track_front, number(p.track_front), 0real, HALF, number(HALF), 0real, 10real, 1real);
    assert(numbers::within(front, front_n, 23real));
    let rear = times(unit, p.track_rear, HALF);
    let rear_n = number(p.track_rear) * number(HALF);
    numbers::lemma_within_times(unit, p.track_rear, number(p.track_rear), 0real, HALF, number(HALF), 0real, 10real, 1real);
    assert(numbers::within(rear, rear_n, 23real));
    numbers::lemma_unrounded(p.b);
    numbers::lemma_unrounded(front);
    numbers::lemma_unrounded(rear);
}

/// A force on a corner turns the car by its lever arms: to the left when it pushes left
/// ahead of the centre of gravity, or forward to the right of it.
pub proof fn law_forces_turn_the_car_by_their_arms<F: Fn(Operation) -> Scalar>(
    car: Car,
    unit: &F,
    force: BodyForce,
    corner: int,
)
    requires
        rounding(unit),
        upto(car.params.ahead(corner), 10real),
        upto(car.params.aside(unit, corner), 10real),
        upto(force.x, 100000real),
        upto(force.y, 100000real),
    ensures
        nearly(
            car.yawing(unit, force, corner),
            number(car.params.ahead(corner)) * number(force.y) - number(
                car.params.aside(unit, corner),
            ) * number(force.x),
        ),
{
    let p = car.params;
    numbers::lemma_unrounded(ZERO);
    let ahead = p.ahead(corner);
    let aside = p.aside(unit, corner);
    let across = times(unit, ahead, force.y);
    let across_n = number(ahead) * number(force.y);
    numbers::lemma_within_times(unit, ahead, number(ahead), 0real, force.y, number(force.y), 0real, 10real, 100000real);
    assert(numbers::within(across, across_n, 1200000real));
    let along = times(unit, aside, force.x);
    let along_n = number(aside) * number(force.x);
    numbers::lemma_within_times(unit, aside, number(aside), 0real, force.x, number(force.x), 0real, 10real, 100000real);
    assert(numbers::within(along, along_n, 1200000real));
    let moment = minus(unit, across, along);
    let moment_n = across_n - along_n;
    numbers::lemma_within_minus(unit, across, across_n, 1200000real, along, along_n, 1200000real);
    assert(numbers::within(moment, moment_n, 4500000real));
}

/// A spring is compressed by its wheel rising and by the body coming down on it: by the
/// body as a whole, by its nose or tail, and by its side.
pub proof fn law_springs_are_squeezed_between_wheel_and_body<F: Fn(Operation) -> Scalar>(
    car: Car,
    unit: &F,
    x: Seq<Scalar>,
    corner: int,
)
    requires
        rounding(unit),
        0 <= corner < 4,
        x.len() == STATE_COUNT,
        upto(car.params.ahead(corner), 10real),
        upto(car.params.aside(unit, corner), 10real),
        forall|i: int| 0 <= i < IDX_OMEGA ==> upto(#[trigger] x[i], 100real),
    ensures
        ({
            let (l, w) = (number(car.params.ahead(corner)), number(car.params.aside(unit, corner)));
            let body = number(x[IDX_HEAVE as int]) + l * number(x[IDX_PITCH as int]) + w * number(
                x[IDX_ROLL as int],
            );
            let rate = number(x[IDX_HEAVE_RATE as int]) + l * number(x[IDX_PITCH_RATE as int]) + w
                * number(x[IDX_ROLL_RATE as int]);
            &&& nearly(car.compression(unit, x, corner), number(x[IDX_HOP + corner]) - body)
            &&& nearly(car.compression_rate(unit, x, corner), number(x[IDX_HOP_RATE + corner]) - rate)
        }),
{
    let p = car.params;
    numbers::lemma_unrounded(ZERO);
    let ahead = p.ahead(corner);
    let aside = p.aside(unit, corner);
    let nose = times(unit, ahead, x[IDX_PITCH as int]);
    let nose_n = number(ahead) * number(x[IDX_PITCH as int]);
    numbers::lemma_within_times(unit, ahead, number(ahead), 0real, x[IDX_PITCH as int], number(x[IDX_PITCH as int]), 0real, 10real, 100real);
    assert(numbers::within(nose, nose_n, 1200real));
    let up = plus(unit, x[IDX_HEAVE as int], nose);
    let up_n = number(x[IDX_HEAVE as int]) + nose_n;
    numbers::lemma_within_plus(unit, x[IDX_HEAVE as int], number(x[IDX_HEAVE as int]), 0real, nose, nose_n, 1200real);
    assert(numbers::within(up, up_n, 2400real));
    let lean = times(unit, aside, x[IDX_ROLL as int]);
    let lean_n = number(aside) * number(x[IDX_ROLL as int]);
    numbers::lemma_within_times(unit, aside, number(aside), 0real, x[IDX_ROLL as int], number(x[IDX_ROLL as int]), 0real, 10real, 100real);
    assert(numbers::within(lean, lean_n, 1200real));
    let lifted = plus(unit, up, lean);
    let lifted_n = up_n + lean_n;
    numbers::lemma_within_plus(unit, up, up_n, 2400real, lean, lean_n, 1200real);
    assert(numbers::within(lifted, lifted_n, 5800real));
    let squeezed = minus(unit, x[IDX_HOP + corner], lifted);
    let squeezed_n = number(x[IDX_HOP + corner]) - lifted_n;
    numbers::lemma_within_minus(unit, x[IDX_HOP + corner], number(x[IDX_HOP + corner]), 0real, lifted, lifted_n, 5800real);
    assert(numbers::within(squeezed, squeezed_n, 8100real));
    let fast_nose = times(unit, ahead, x[IDX_PITCH_RATE as int]);
    let fast_nose_n = number(ahead) * number(x[IDX_PITCH_RATE as int]);
    numbers::lemma_within_times(unit, ahead, number(ahead), 0real, x[IDX_PITCH_RATE as int], number(x[IDX_PITCH_RATE as int]), 0real, 10real, 100real);
    assert(numbers::within(fast_nose, fast_nose_n, 1200real));
    let fast_up = plus(unit, x[IDX_HEAVE_RATE as int], fast_nose);
    let fast_up_n = number(x[IDX_HEAVE_RATE as int]) + fast_nose_n;
    numbers::lemma_within_plus(unit, x[IDX_HEAVE_RATE as int], number(x[IDX_HEAVE_RATE as int]), 0real, fast_nose, fast_nose_n, 1200real);
    assert(numbers::within(fast_up, fast_up_n, 2400real));
    let fast_lean = times(unit, aside, x[IDX_ROLL_RATE as int]);
    let fast_lean_n = number(aside) * number(x[IDX_ROLL_RATE as int]);
    numbers::lemma_within_times(unit, aside, number(aside), 0real, x[IDX_ROLL_RATE as int], number(x[IDX_ROLL_RATE as int]), 0real, 10real, 100real);
    assert(numbers::within(fast_lean, fast_lean_n, 1200real));
    let fast_lifted = plus(unit, fast_up, fast_lean);
    let fast_lifted_n = fast_up_n + fast_lean_n;
    numbers::lemma_within_plus(unit, fast_up, fast_up_n, 2400real, fast_lean, fast_lean_n, 1200real);
    assert(numbers::within(fast_lifted, fast_lifted_n, 5800real));
    let squeezing = minus(unit, x[IDX_HOP_RATE + corner], fast_lifted);
    let squeezing_n = number(x[IDX_HOP_RATE + corner]) - fast_lifted_n;
    numbers::lemma_within_minus(unit, x[IDX_HOP_RATE + corner], number(x[IDX_HOP_RATE + corner]), 0real, fast_lifted, fast_lifted_n, 5800real);
    assert(numbers::within(squeezing, squeezing_n, 8100real));
}

/// A strut holds up its share of the body at rest, and pushes back at being squeezed, by
/// the spring rate of its axle, and at being squeezed fast, by the damping of its axle.
pub proof fn law_struts_push_back<F: Fn(Operation) -> Scalar>(
    car: Car,
    unit: &F,
    x: Seq<Scalar>,
    corner: int,
)
    requires
        rounding(unit),
        upto(car.params.resting(unit, corner), 100000real),
        upto(car.params.unsprung_mass, 1000real),
        upto(car.params.spring(corner), 1000000real),
        upto(car.params.damper(corner), 100000real),
        upto(car.compression(unit, x, corner), 10real),
        upto(car.compression_rate(unit, x, corner), 100real),
    ensures
        nearly(
            car.strut(unit, x, corner),
            number(car.params.resting(unit, corner)) - number(car.params.unsprung_mass)
                * standard_gravity() + number(if corner < 2 {
                car.params.wheel_rate_front
            } else {
                car.params.wheel_rate_rear
            }) * number(car.compression(unit, x, corner)) + number(if corner < 2 {
                car.params.damping_front
            } else {
                car.params.damping_rear
            }) * number(car.compression_rate(unit, x, corner)),
        ),
{
    let p = car.params;
    numbers::lemma_unrounded(ZERO);
    lemma_gravity();
    let weight = standard_gravity();
    let resting = p.resting(unit, corner);
    let comp = car.compression(unit, x, corner);
    let comp_rate = car.compression_rate(unit, x, corner);
    let unsprung = times(unit, p.unsprung_mass, GRAVITY);
    let unsprung_n = number(p.unsprung_mass) * weight;
    numbers::lemma_within_times(unit, p.unsprung_mass, number(p.unsprung_mass), 0real, GRAVITY, weight, 10real, 1000real, 10real);
    assert(numbers::within(unsprung, unsprung_n, 22000real));
    let carried = minus(unit, resting, unsprung);
    let carried_n = number(resting) - unsprung_n;
    numbers::lemma_within_minus(unit, resting, number(resting), 0real, unsprung, unsprung_n, 22000real);
    assert(numbers::within(carried, carried_n, 140000real));
    let spring = times(unit, p.spring(corner), comp);
    let spring_n = number(p.spring(corner)) * number(comp);
    numbers::lemma_within_times(unit, p.spring(corner), number(p.spring(corner)), 0real, comp, number(comp), 0real, 1000000real, 10real);
    assert(numbers::within(spring, spring_n, 12000000real));
    let sprung = plus(unit, carried, spring);
    let sprung_n = carried_n + spring_n;
    numbers::lemma_within_plus(unit, carried, carried_n, 140000real, spring, spring_n, 12000000real);
    assert(numbers::within(sprung, sprung_n, 23000000real));
    let damping = times(unit, p.damper(corner), comp_rate);
    let damping_n = number(p.damper(corner)) * number(comp_rate);
    numbers::lemma_within_times(unit, p.damper(corner), number(p.damper(corner)), 0real, comp_rate, number(comp_rate), 0real, 100000real, 100real);
    assert(numbers::within(damping, damping_n, 11000000real));
    let held = plus(unit, sprung, damping);
    let held_n = sprung_n + damping_n;
    numbers::lemma_within_plus(unit, sprung, sprung_n, 23000000real, damping, damping_n, 11000000real);
    assert(numbers::within(held, held_n, 55000000real));
}

/// The front anti-roll bar takes load off the wheel that is less compressed and puts it on
/// the one that is more: by its own rate, over its own track, and as much on the one
/// side as off the other.
pub proof fn law_the_front_bar_resists_roll<F: Fn(Operation) -> Scalar>(
    car: Car,
    unit: &F,
    x: Seq<Scalar>,
)
    requires
        rounding(unit),
        upto(car.compression(unit, x, 0), 10real),
        upto(car.compression(unit, x, 1), 10real),
        upto(car.params.arb_front, 100000real),
        upto(car.params.track_front, 10real),
        number(car.params.track_front) >= 1real / 10real,
        upto(car.strut(unit, x, 0), 1000000real),
        upto(car.strut(unit, x, 1), 1000000real),
    ensures
        ({
            let p = car.params;
            let more = number(car.compression(unit, x, 0)) - number(car.compression(unit, x, 1));
            let couple = number(p.arb_front) * more / number(p.track_front);
            let s = car.suspension(unit, x);
            &&& nearly(s.fl, number(car.strut(unit, x, 0)) + couple)
            &&& nearly(s.fr, number(car.strut(unit, x, 1)) - couple)
        }),
{
    let p = car.params;
    numbers::lemma_unrounded(ZERO);
    let left = car.compression(unit, x, 0);
    let right = car.compression(unit, x, 1);
    let bar = car.bar(unit, x, true);
    let left_strut = car.strut(unit, x, 0);
    let right_strut = car.strut(unit, x, 1);
    let apart = minus(unit, left, right);
    let apart_n = number(left) - number(right);
    numbers::lemma_within_minus(unit, left, number(left), 0real, right, number(right), 0real);
    assert(numbers::within(apart, apart_n, 22real));
    let twist = times(unit, p.arb_front, apart);
    let twist_n = number(p.arb_front) * apart_n;
    numbers::lemma_within_times(unit, p.arb_front, number(p.arb_front), 0real, apart, apart_n, 22real, 100000real, 20real);
    assert(numbers::within(twist, twist_n, 4400000real));
    let couple = over(unit, twist, p.track_front);
    let couple_n = twist_n / number(p.track_front);
    numbers::lemma_within_over(unit, twist, twist_n, 4400000real, p.track_front, 20000000real, 44000000real);
    assert(numbers::within(couple, couple_n, 65000000real));
    assert(bar == couple);
    let left_all = plus(unit, left_strut, bar);
    assert(bar == couple);
    let left_all_n = number(left_strut) + number(bar);
    numbers::lemma_within_plus(unit, left_strut, number(left_strut), 0real, bar, number(bar), 0real);
    assert(numbers::within(left_all, left_all_n, 32000000real));
    let right_all = minus(unit, right_strut, bar);
    let right_all_n = number(right_strut) - number(bar);
    numbers::lemma_within_minus(unit, right_strut, number(right_strut), 0real, bar, number(bar), 0real);
    assert(numbers::within(right_all, right_all_n, 32000000real));
}

/// The rear anti-roll bar takes load off the wheel that is less compressed and puts it on
/// the one that is more: by its own rate, over its own track, and as much on the one
/// side as off the other.
pub proof fn law_the_rear_bar_resists_roll<F: Fn(Operation) -> Scalar>(
    car: Car,
    unit: &F,
    x: Seq<Scalar>,
)
    requires
        rounding(unit),
        upto(car.compression(unit, x, 2), 10real),
        upto(car.compression(unit, x, 3), 10real),
        upto(car.params.arb_rear, 100000real),
        upto(car.params.track_rear, 10real),
        number(car.params.track_rear) >= 1real / 10real,
        upto(car.strut(unit, x, 2), 1000000real),
        upto(car.strut(unit, x, 3), 1000000real),
    ensures
        ({
            let p = car.params;
            let more = number(car.compression(unit, x, 2)) - number(car.compression(unit, x, 3));
            let couple = number(p.arb_rear) * more / number(p.track_rear);
            let s = car.suspension(unit, x);
            &&& nearly(s.rl, number(car.strut(unit, x, 2)) + couple)
            &&& nearly(s.rr, number(car.strut(unit, x, 3)) - couple)
        }),
{
    let p = car.params;
    numbers::lemma_unrounded(ZERO);
    let left = car.compression(unit, x, 2);
    let right = car.compression(unit, x, 3);
    let bar = car.bar(unit, x, false);
    let left_strut = car.strut(unit, x, 2);
    let right_strut = car.strut(unit, x, 3);
    let apart = minus(unit, left, right);
    let apart_n = number(left) - number(right);
    numbers::lemma_within_minus(unit, left, number(left), 0real, right, number(right), 0real);
    assert(numbers::within(apart, apart_n, 22real));
    let twist = times(unit, p.arb_rear, apart);
    let twist_n = number(p.arb_rear) * apart_n;
    numbers::lemma_within_times(unit, p.arb_rear, number(p.arb_rear), 0real, apart, apart_n, 22real, 100000real, 20real);
    assert(numbers::within(twist, twist_n, 4400000real));
    let couple = over(unit, twist, p.track_rear);
    let couple_n = twist_n / number(p.track_rear);
    numbers::lemma_within_over(unit, twist, twist_n, 4400000real, p.track_rear, 20000000real, 44000000real);
    assert(numbers::within(couple, couple_n, 65000000real));
    assert(bar == couple);
    let left_all = plus(unit, left_strut, bar);
    assert(bar == couple);
    let left_all_n = number(left_strut) + number(bar);
    numbers::lemma_within_plus(unit, left_strut, number(left_strut), 0real, bar, number(bar), 0real);
    assert(numbers::within(left_all, left_all_n, 32000000real));
    let right_all = minus(unit, right_strut, bar);
    let right_all_n = number(right_strut) - number(bar);
    numbers::lemma_within_minus(unit, right_strut, number(right_strut), 0real, bar, number(bar), 0real);
    assert(numbers::within(right_all, right_all_n, 32000000real));
}

/// The body rises by what its suspension pushes up with, less its weight and what the air
/// presses down with, over its mass.
pub proof fn law_the_body_rises_by_what_is_left_over<F: Fn(Operation) -> Scalar>(
    car: Car,
    unit: &F,
    x: Seq<Scalar>,
)
    requires
        rounding(unit),
        upto(car.params.sprung_mass, 10000real),
        number(car.params.sprung_mass) >= 1real,
        upto(car.downforce(unit, x[IDX_VX as int]), 1000000real),
        upto(car.suspension(unit, x).fl, 1000000real),
        upto(car.suspension(unit, x).fr, 1000000real),
        upto(car.suspension(unit, x).rl, 1000000real),
        upto(car.suspension(unit, x).rr, 1000000real),
    ensures
        ({
            let s = car.suspension(unit, x);
            let m = number(car.params.sprung_mass);
            let up = number(s.fl) + number(s.fr) + number(s.rl) + number(s.rr);
            nearly(
                car.heave_acceleration(unit, x),
                (up - m * standard_gravity() - number(car.downforce(unit, x[IDX_VX as int]))) / m,
            )
        }),
{
    let p = car.params;
    numbers::lemma_unrounded(ZERO);
    lemma_gravity();
    let weight = standard_gravity();
    let s = car.suspension(unit, x);
    let down = car.downforce(unit, x[IDX_VX as int]);
    let held1 = plus(unit, ZERO, s.fl);
    let held1_n = 0real + number(s.fl);
    numbers::lemma_within_plus(unit, ZERO, 0real, 0real, s.fl, number(s.fl), 0real);
    assert(numbers::within(held1, held1_n, 1100000real));
    let held2 = plus(unit, held1, s.fr);
    let held2_n = held1_n + number(s.fr);
    numbers::lemma_within_plus(unit, held1, held1_n, 1100000real, s.fr, number(s.fr), 0real);
    assert(numbers::within(held2, held2_n, 3200000real));
    let held3 = plus(unit, held2, s.rl);
    let held3_n = held2_n + number(s.rl);
    numbers::lemma_within_plus(unit, held2, held2_n, 3200000real, s.rl, number(s.rl), 0real);
    assert(numbers::within(held3, held3_n, 6300000real));
    let held4 = plus(unit, held3, s.rr);
    let held4_n = held3_n + number(s.rr);
    numbers::lemma_within_plus(unit, held3, held3_n, 6300000real, s.rr, number(s.rr), 0real);
    assert(numbers::within(held4, held4_n, 11000000real));
    let heavy = times(unit, p.sprung_mass, GRAVITY);
    let heavy_n = number(p.sprung_mass) * weight;
    numbers::lemma_within_times(unit, p.sprung_mass, number(p.sprung_mass), 0real, GRAVITY, weight, 10real, 10000real, 10real);
    assert(numbers::within(heavy, heavy_n, 220000real));
    let spare = minus(unit, held4, heavy);
    let spare_n = held4_n - heavy_n;
    numbers::lemma_within_minus(unit, held4, held4_n, 11000000real, heavy, heavy_n, 220000real);
    assert(numbers::within(spare, spare_n, 16000000real));
    let net = minus(unit, spare, down);
    let net_n = spare_n - number(down);
    numbers::lemma_within_minus(unit, spare, spare_n, 16000000real, down, number(down), 0real);
    assert(numbers::within(net, net_n, 22000000real));
    let rising = over(unit, net, p.sprung_mass);
    let rising_n = net_n / number(p.sprung_mass);
    numbers::lemma_within_over(unit, net, net_n, 22000000real, p.sprung_mass, 5100000real, 22000000real);
    assert(numbers::within(rising, rising_n, 28000000real));
}

/// The body rolls by its own lateral acceleration on the height of its centre of gravity
/// over the roll axis, and by the push of each corner on how far that corner is to the side.
pub proof fn law_the_body_rolls_by_its_moments<F: Fn(Operation) -> Scalar>(
    car: Car,
    unit: &F,
    x: Seq<Scalar>,
)
    requires
        rounding(unit),
        upto(car.params.sprung_mass, 1000real),
        upto(car.loads(unit, x).accel_y, 100real),
        upto(car.params.cg_height, 10real),
        upto(car.params.roll_centre_front, 10real),
        upto(car.params.roll_centre_rear, 10real),
        upto(car.params.inertia_roll, 100000real),
        number(car.params.inertia_roll) >= 10real,
        upto(car.suspension(unit, x).fl, 10000real),
        upto(car.suspension(unit, x).fr, 10000real),
        upto(car.suspension(unit, x).rl, 10000real),
        upto(car.suspension(unit, x).rr, 10000real),
        upto(car.params.aside(unit, 0), 10real),
        upto(car.params.aside(unit, 1), 10real),
        upto(car.params.aside(unit, 2), 10real),
        upto(car.params.aside(unit, 3), 10real),
    ensures
        ({
            let p = car.params;
            let s = car.suspension(unit, x);
            let lever = number(p.cg_height) - 1real / 2real * (number(p.roll_centre_front) + number(p.roll_centre_rear));
            let thrown = number(p.sprung_mass) * number(car.loads(unit, x).accel_y) * lever;
            nearly(
                car.roll_acceleration(unit, x),
                (thrown + number(s.fl) * number(p.aside(unit, 0)) + number(s.fr) * number(
                    p.aside(unit, 1),
                ) + number(s.rl) * number(p.aside(unit, 2)) + number(s.rr) * number(
                    p.aside(unit, 3),
                )) / number(p.inertia_roll),
            )
        }),
{
    let p = car.params;
    numbers::lemma_unrounded(ZERO);
    let s = car.suspension(unit, x);
    let acc = car.loads(unit, x).accel_y;
    let arm_fl = p.aside(unit, 0);
    let arm_fr = p.aside(unit, 1);
    let arm_rl = p.aside(unit, 2);
    let arm_rr = p.aside(unit, 3);
    let centres = plus(unit, p.roll_centre_front, p.roll_centre_rear);
    let centres_n = number(p.roll_centre_front) + number(p.roll_centre_rear);
    numbers::lemma_within_plus(unit, p.roll_centre_front, number(p.roll_centre_front), 0real, p.roll_centre_rear, number(p.roll_centre_rear), 0real);
    assert(numbers::within(centres, centres_n, 22real));
    let centre = times(unit, HALF, centres);
    let centre_n = number(HALF) * centres_n;
    numbers::lemma_within_times(unit, HALF, number(HALF), 0real, centres, centres_n, 22real, 1real, 20real);
    assert(numbers::within(centre, centre_n, 65real));
    let lever = minus(unit, p.cg_height, centre);
    let lever_n = number(p.cg_height) - centre_n;
    numbers::lemma_within_minus(unit, p.cg_height, number(p.cg_height), 0real, centre, centre_n, 65real);
    assert(numbers::within(lever, lever_n, 97real));
    let inertial = times(unit, p.sprung_mass, acc);
    let inertial_n = number(p.sprung_mass) * number(acc);
    numbers::lemma_within_times(unit, p.sprung_mass, number(p.sprung_mass), 0real, acc, number(acc), 0real, 1000real, 100real);
    assert(numbers::within(inertial, inertial_n, 110000real));
    let thrown = times(unit, inertial, lever);
    let thrown_n = inertial_n * lever_n;
    numbers::lemma_within_times(unit, inertial, inertial_n, 110000real, lever, lever_n, 97real, 100000real, 30real);
    assert(numbers::within(thrown, thrown_n, 17000000real));
    let moment_fl = times(unit, s.fl, arm_fl);
    let moment_fl_n = number(s.fl) * number(arm_fl);
    numbers::lemma_within_times(unit, s.fl, number(s.fl), 0real, arm_fl, number(arm_fl), 0real, 10000real, 10real);
    assert(numbers::within(moment_fl, moment_fl_n, 120000real));
    let moment_fr = times(unit, s.fr, arm_fr);
    let moment_fr_n = number(s.fr) * number(arm_fr);
    numbers::lemma_within_times(unit, s.fr, number(s.fr), 0real, arm_fr, number(arm_fr), 0real, 10000real, 10real);
    assert(numbers::within(moment_fr, moment_fr_n, 120000real));
    let moment_rl = times(unit, s.rl, arm_rl);
    let moment_rl_n = number(s.rl) * number(arm_rl);
    numbers::lemma_within_times(unit, s.rl, number(s.rl), 0real, arm_rl, number(arm_rl), 0real, 10000real, 10real);
    assert(numbers::within(moment_rl, moment_rl_n, 120000real));
    let moment_rr = times(unit, s.rr, arm_rr);
    let moment_rr_n = number(s.rr) * number(arm_rr);
    numbers::lemma_within_times(unit, s.rr, number(s.rr), 0real, arm_rr, number(arm_rr), 0real, 10000real, 10real);
    assert(numbers::within(moment_rr, moment_rr_n, 120000real));
    let moments1 = plus(unit, thrown, moment_fl);
    let moments1_n = thrown_n + moment_fl_n;
    numbers::lemma_within_plus(unit, thrown, thrown_n, 17000000real, moment_fl, moment_fl_n, 120000real);
    assert(numbers::within(moments1, moments1_n, 21000000real));
    let moments2 = plus(unit, moments1, moment_fr);
    let moments2_n = moments1_n + moment_fr_n;
    numbers::lemma_within_plus(unit, moments1, moments1_n, 21000000real, moment_fr, moment_fr_n, 120000real);
    assert(numbers::within(moments2, moments2_n, 25000000real));
    let moments3 = plus(unit, moments2, moment_rl);
    let moments3_n = moments2_n + moment_rl_n;
    numbers::lemma_within_plus(unit, moments2, moments2_n, 25000000real, moment_rl, moment_rl_n, 120000real);
    assert(numbers::within(moments3, moments3_n, 29000000real));
    let moments4 = plus(unit, moments3, moment_rr);
    let moments4_n = moments3_n + moment_rr_n;
    numbers::lemma_within_plus(unit, moments3, moments3_n, 29000000real, moment_rr, moment_rr_n, 120000real);
    assert(numbers::within(moments4, moments4_n, 33000000real));
    let turning = over(unit, moments4, p.inertia_roll);
    let turning_n = moments4_n / number(p.inertia_roll);
    numbers::lemma_within_over(unit, moments4, moments4_n, 33000000real, p.inertia_roll, 340000real, 3300000real);
    assert(numbers::within(turning, turning_n, 3700000real));
}

/// The body pitches by its own acceleration on the height of its centre of gravity over
/// the pitch centre, and by the push of each corner on how far ahead that corner is.
pub proof fn law_the_body_pitchs_by_its_moments<F: Fn(Operation) -> Scalar>(
    car: Car,
    unit: &F,
    x: Seq<Scalar>,
)
    requires
        rounding(unit),
        upto(car.params.sprung_mass, 1000real),
        upto(car.loads(unit, x).accel_x, 100real),
        upto(car.params.cg_height, 10real),
        upto(car.params.pitch_centre, 10real),
        upto(car.params.inertia_pitch, 100000real),
        number(car.params.inertia_pitch) >= 10real,
        upto(car.suspension(unit, x).fl, 10000real),
        upto(car.suspension(unit, x).fr, 10000real),
        upto(car.suspension(unit, x).rl, 10000real),
        upto(car.suspension(unit, x).rr, 10000real),
        upto(car.params.ahead(0), 10real),
        upto(car.params.ahead(1), 10real),
        upto(car.params.ahead(2), 10real),
        upto(car.params.ahead(3), 10real),
    ensures
        ({
            let p = car.params;
            let s = car.suspension(unit, x);
            let lever = number(p.cg_height) - number(p.pitch_centre);
            let thrown = number(p.sprung_mass) * number(car.loads(unit, x).accel_x) * lever;
            nearly(
                car.pitch_acceleration(unit, x),
                (thrown + number(s.fl) * number(p.ahead(0)) + number(s.fr) * number(
                    p.ahead(1),
                ) + number(s.rl) * number(p.ahead(2)) + number(s.rr) * number(
                    p.ahead(3),
                )) / number(p.inertia_pitch),
            )
        }),
{
    let p = car.params;
    numbers::lemma_unrounded(ZERO);
    let s = car.suspension(unit, x);
    let acc = car.loads(unit, x).accel_x;
    let arm_fl = p.ahead(0);
    let arm_fr = p.ahead(1);
    let arm_rl = p.ahead(2);
    let arm_rr = p.ahead(3);
    let lever = minus(unit, p.cg_height, p.pitch_centre);
    let lever_n = number(p.cg_height) - number(p.pitch_centre);
    numbers::lemma_within_minus(unit, p.cg_height, number(p.cg_height), 0real, p.pitch_centre, number(p.pitch_centre), 0real);
    assert(numbers::within(lever, lever_n, 22real));
    let inertial = times(unit, p.sprung_mass, acc);
    let inertial_n = number(p.sprung_mass) * number(acc);
    numbers::lemma_within_times(unit, p.sprung_mass, number(p.sprung_mass), 0real, acc, number(acc), 0real, 1000real, 100real);
    assert(numbers::within(inertial, inertial_n, 110000real));
    let thrown = times(unit, inertial, lever);
    let thrown_n = inertial_n * lever_n;
    numbers::lemma_within_times(unit, inertial, inertial_n, 110000real, lever, lever_n, 22real, 100000real, 20real);
    assert(numbers::within(thrown, thrown_n, 6700000real));
    let moment_fl = times(unit, s.fl, arm_fl);
    let moment_fl_n = number(s.fl) * number(arm_fl);
    numbers::lemma_within_times(unit, s.fl, number(s.fl), 0real, arm_fl, number(arm_fl), 0real, 10000real, 10real);
    assert(numbers::within(moment_fl, moment_fl_n, 120000real));
    let moment_fr = times(unit, s.fr, arm_fr);
    let moment_fr_n = number(s.fr) * number(arm_fr);
    numbers::lemma_within_times(unit, s.fr, number(s.fr), 0real, arm_fr, number(arm_fr), 0real, 10000real, 10real);
    assert(numbers::within(moment_fr, moment_fr_n, 120000real));
    let moment_rl = times(unit, s.rl, arm_rl);
    let moment_rl_n = number(s.rl) * number(arm_rl);
    numbers::lemma_within_times(unit, s.rl, number(s.rl), 0real, arm_rl, number(arm_rl), 0real, 10000real, 10real);
    assert(numbers::within(moment_rl, moment_rl_n, 120000real));
    let moment_rr = times(unit, s.rr, arm_rr);
    let moment_rr_n = number(s.rr) * number(arm_rr);
    numbers::lemma_within_times(unit, s.rr, number(s.rr), 0real, arm_rr, number(arm_rr), 0real, 10000real, 10real);
    assert(numbers::within(moment_rr, moment_rr_n, 120000real));
    let moments1 = plus(unit, thrown, moment_fl);
    let moments1_n = thrown_n + moment_fl_n;
    numbers::lemma_within_plus(unit, thrown, thrown_n, 6700000real, moment_fl, moment_fl_n, 120000real);
    assert(numbers::within(moments1, moments1_n, 9000000real));
    let moments2 = plus(unit, moments1, moment_fr);
    let moments2_n = moments1_n + moment_fr_n;
    numbers::lemma_within_plus(unit, moments1, moments1_n, 9000000real, moment_fr, moment_fr_n, 120000real);
    assert(numbers::within(moments2, moments2_n, 12000000real));
    let moments3 = plus(unit, moments2, moment_rl);
    let moments3_n = moments2_n + moment_rl_n;
    numbers::lemma_within_plus(unit, moments2, moments2_n, 12000000real, moment_rl, moment_rl_n, 120000real);
    assert(numbers::within(moments3, moments3_n, 15000000real));
    let moments4 = plus(unit, moments3, moment_rr);
    let moments4_n = moments3_n + moment_rr_n;
    numbers::lemma_within_plus(unit, moments3, moments3_n, 15000000real, moment_rr, moment_rr_n, 120000real);
    assert(numbers::within(moments4, moments4_n, 18000000real));
    let turning = over(unit, moments4, p.inertia_pitch);
    let turning_n = moments4_n / number(p.inertia_pitch);
    numbers::lemma_within_over(unit, moments4, moments4_n, 18000000real, p.inertia_pitch, 240000real, 1800000real);
    assert(numbers::within(turning, turning_n, 2100000real));
}

/// A wheel rises by what the road pushes it up with, less what the body pushes it down
/// with and its own weight, over its mass.
pub proof fn law_wheels_hop_between_road_and_body<F: Fn(Operation) -> Scalar>(
    car: Car,
    unit: &F,
    x: Seq<Scalar>,
    corner: int,
)
    requires
        rounding(unit),
        upto(car.params.unsprung_mass, 1000real),
        number(car.params.unsprung_mass) >= 1real,
        upto(car.loads(unit, x).fz.at(corner), 1000000real),
        upto(car.suspension(unit, x).at(corner), 1000000real),
    ensures
        ({
            let m = number(car.params.unsprung_mass);
            let (road, body) = (
                number(car.loads(unit, x).fz.at(corner)),
                number(car.suspension(unit, x).at(corner)),
            );
            nearly(
                car.hop_acceleration(unit, x, corner),
                (road - body - m * standard_gravity()) / m,
            )
        }),
{
    let p = car.params;
    numbers::lemma_unrounded(ZERO);
    lemma_gravity();
    let weight = standard_gravity();
    let load = car.loads(unit, x).fz.at(corner);
    let strut = car.suspension(unit, x).at(corner);
    let heavy = times(unit, p.unsprung_mass, GRAVITY);
    let heavy_n = number(p.unsprung_mass) * weight;
    numbers::lemma_within_times(unit, p.unsprung_mass, number(p.unsprung_mass), 0real, GRAVITY, weight, 10real, 1000real, 10real);
    assert(numbers::within(heavy, heavy_n, 22000real));
    let squeeze = minus(unit, load, strut);
    let squeeze_n = number(load) - number(strut);
    numbers::lemma_within_minus(unit, load, number(load), 0real, strut, number(strut), 0real);
    assert(numbers::within(squeeze, squeeze_n, 2100000real));
    let net = minus(unit, squeeze, heavy);
    let net_n = squeeze_n - heavy_n;
    numbers::lemma_within_minus(unit, squeeze, squeeze_n, 2100000real, heavy, heavy_n, 22000real);
    assert(numbers::within(net, net_n, 4200000real));
    let rising = over(unit, net, p.unsprung_mass);
    let rising_n = net_n / number(p.unsprung_mass);
    numbers::lemma_within_over(unit, net, net_n, 4200000real, p.unsprung_mass, 2010000real, 4200000real);
    assert(numbers::within(rising, rising_n, 6300000real));
}

/// The rear axle is driven by the share of the motor's torque that the pedal asks for,
/// through the final drive, at the speed that the two rear wheels turn the motor.
/// Half goes to each side, less what the differential takes from the one and gives to
/// the other. The front wheels are not driven.
pub proof fn law_the_motor_drives_the_rear_wheels<F: Fn(Operation) -> Scalar>(
    car: Car,
    unit: &F,
    x: Seq<Scalar>,
    spinning: Scalar,
)
    requires
        rounding(unit),
        upto(x[IDX_OMEGA + 2], 1000real),
        upto(x[IDX_OMEGA + 3], 1000real),
        upto(car.params.final_drive, 100real),
        spinning == times(unit, times(unit, HALF, plus(unit, x[IDX_OMEGA + 2], x[IDX_OMEGA + 3])), car.params.final_drive),
        upto(car.input.accelerator_pedal_command, 1000real),
        upto(car.torque_at(unit, spinning), 10000real),
        upto(car.lock_torque(unit, x), 100000real),
        upto(car.axle_torque(unit, x), 1000000real),
    ensures
        ({
            let pedal = number(car.input.accelerator_pedal_command);
            let demand = if pedal < 0real {
                0real
            } else if pedal > 1real {
                1real
            } else {
                pedal
            };
            let ratio = number(car.params.final_drive);
            let half = 1real / 2real * number(car.axle_torque(unit, x));
            let lock = number(car.lock_torque(unit, x));
            &&& nearly(
                spinning,
                1real / 2real * (number(x[IDX_OMEGA + 2]) + number(x[IDX_OMEGA + 3])) * ratio,
            )
            &&& nearly(
                car.axle_torque(unit, x),
                demand * number(car.torque_at(unit, spinning)) * ratio,
            )
            &&& nearly(car.drive_torque(unit, x, 2), half - lock)
            &&& nearly(car.drive_torque(unit, x, 3), half + lock)
            &&& number(car.drive_torque(unit, x, 0)) == 0real
            &&& number(car.drive_torque(unit, x, 1)) == 0real
        }),
{
    let p = car.params;
    numbers::lemma_unrounded(ZERO);
    let left = x[IDX_OMEGA + 2];
    let right = x[IDX_OMEGA + 3];
    let pedal = car.input.accelerator_pedal_command;
    let demand = clamp(pedal, ZERO, ONE);
    lemma_demand(pedal);
    let whole = car.axle_torque(unit, x);
    let lock = car.lock_torque(unit, x);
    let both = plus(unit, left, right);
    let both_n = number(left) + number(right);
    numbers::lemma_within_plus(unit, left, number(left), 0real, right, number(right), 0real);
    assert(numbers::within(both, both_n, 2100real));
    let mean = times(unit, HALF, both);
    let mean_n = number(HALF) * both_n;
    numbers::lemma_within_times(unit, HALF, number(HALF), 0real, both, both_n, 2100real, 1real, 2000real);
    assert(numbers::within(mean, mean_n, 6200real));
    let spinning_n = mean_n * number(p.final_drive);
    numbers::lemma_within_times(unit, mean, mean_n, 6200real, p.final_drive, number(p.final_drive), 0real, 2000real, 100real);
    assert(numbers::within(spinning, spinning_n, 830000real));
    let torque = car.torque_at(unit, spinning);
    let asked = times(unit, demand, torque);
    let asked_n = number(demand) * number(torque);
    numbers::lemma_within_times(unit, demand, number(demand), 0real, torque, number(torque), 0real, 1real, 10000real);
    assert(numbers::within(asked, asked_n, 21000real));
    let axle = times(unit, asked, p.final_drive);
    let axle_n = asked_n * number(p.final_drive);
    numbers::lemma_within_times(unit, asked, asked_n, 21000real, p.final_drive, number(p.final_drive), 0real, 10000real, 100real);
    assert(numbers::within(axle, axle_n, 3200000real));
    let half = times(unit, HALF, whole);
    let half_n = number(HALF) * number(whole);
    numbers::lemma_within_times(unit, HALF, number(HALF), 0real, whole, number(whole), 0real, 1real, 1000000real);
    assert(numbers::within(half, half_n, 2100000real));
    let left_drive = minus(unit, half, lock);
    let left_drive_n = half_n - number(lock);
    numbers::lemma_within_minus(unit, half, half_n, 2100000real, lock, number(lock), 0real);
    assert(numbers::within(left_drive, left_drive_n, 3300000real));
    let right_drive = plus(unit, half, lock);
    let right_drive_n = half_n + number(lock);
    numbers::lemma_within_plus(unit, half, half_n, 2100000real, lock, number(lock), 0real);
    assert(numbers::within(right_drive, right_drive_n, 3300000real));
}

/// A brake holds back the way its wheel turns, with the share of the brake torque that
/// the pedal asks for and the bias gives its axle, half to each side. `turning` is
/// the direction, from one way to the other, as the smooth transition has it.
pub proof fn law_brakes_hold_back<F: Fn(Operation) -> Scalar>(
    car: Car,
    unit: &F,
    x: Seq<Scalar>,
    corner: int,
    turning: Scalar,
)
    requires
        rounding(unit),
        0 <= corner < 4,
        upto(car.input.brake_pedal_command, 1000real),
        upto(car.params.brake_torque_max, 100000real),
        upto(car.params.brake_bias, 1real),
        turning == tanh(unit, over(unit, x[IDX_OMEGA + corner], car.params.omega_epsilon)),
        upto(turning, 1real),
    ensures
        ({
            let pedal = number(car.input.brake_pedal_command);
            let demand = if pedal < 0real {
                0real
            } else if pedal > 1real {
                1real
            } else {
                pedal
            };
            let total = demand * number(car.params.brake_torque_max);
            let bias = number(car.params.brake_bias);
            nearly(
                car.brake_torque(unit, x, corner),
                if corner < 2 {
                    (-(total * bias * (1real / 2real))) * number(turning)
                } else {
                    (-(total * (1real - bias) * (1real / 2real))) * number(turning)
                },
            )
        }),
{
    let p = car.params;
    numbers::lemma_unrounded(ZERO);
    let pedal = car.input.brake_pedal_command;
    let demand = clamp(pedal, ZERO, ONE);
    lemma_demand(pedal);
    let total = times(unit, demand, p.brake_torque_max);
    let total_n = number(demand) * number(p.brake_torque_max);
    numbers::lemma_within_times(unit, demand, number(demand), 0real, p.brake_torque_max, number(p.brake_torque_max), 0real, 1real, 100000real);
    assert(numbers::within(total, total_n, 210000real));
    let behind = minus(unit, ONE, p.brake_bias);
    let behind_n = 1real - number(p.brake_bias);
    numbers::lemma_within_minus(unit, ONE, 1real, 0real, p.brake_bias, number(p.brake_bias), 0real);
    assert(numbers::within(behind, behind_n, 4real));
    let front_both = times(unit, total, p.brake_bias);
    let front_both_n = total_n * number(p.brake_bias);
    numbers::lemma_within_times(unit, total, total_n, 210000real, p.brake_bias, number(p.brake_bias), 0real, 100000real, 1real);
    assert(numbers::within(front_both, front_both_n, 630000real));
    let front_one = times(unit, front_both, HALF);
    let front_one_n = front_both_n * number(HALF);
    numbers::lemma_within_times(unit, front_both, front_both_n, 630000real, HALF, number(HALF), 0real, 100000real, 1real);
    assert(numbers::within(front_one, front_one_n, 1500000real));
    let rear_both = times(unit, total, behind);
    let rear_both_n = total_n * behind_n;
    numbers::lemma_within_times(unit, total, total_n, 210000real, behind, behind_n, 4real, 100000real, 2real);
    assert(numbers::within(rear_both, rear_both_n, 1400000real));
    let rear_one = times(unit, rear_both, HALF);
    let rear_one_n = rear_both_n * number(HALF);
    numbers::lemma_within_times(unit, rear_both, rear_both_n, 1400000real, HALF, number(HALF), 0real, 200000real, 1real);
    assert(numbers::within(rear_one, rear_one_n, 3300000real));
    numbers::lemma_unrounded(front_one);
    numbers::lemma_unrounded(rear_one);
    let front_brake = times(unit, negate(front_one), turning);
    let front_brake_n = (-front_one_n) * number(turning);
    numbers::lemma_within_times(unit, negate(front_one), (-front_one_n), 1500000real, turning, number(turning), 0real, 100000real, 1real);
    assert(numbers::within(front_brake, front_brake_n, 3300000real));
    let rear_brake = times(unit, negate(rear_one), turning);
    let rear_brake_n = (-rear_one_n) * number(turning);
    numbers::lemma_within_times(unit, negate(rear_one), (-rear_one_n), 3300000real, turning, number(turning), 0real, 200000real, 1real);
    assert(numbers::within(rear_brake, rear_brake_n, 7100000real));
}

/// A wheel spins up by what drives it, less what brakes it and what the road holds it
/// back with at its radius, over its inertia.
pub proof fn law_wheels_spin_by_what_turns_them<F: Fn(Operation) -> Scalar>(
    car: Car,
    unit: &F,
    x: Seq<Scalar>,
    corner: int,
)
    requires
        rounding(unit),
        upto(car.drive_torque(unit, x, corner), 1000000real),
        upto(car.brake_torque(unit, x, corner), 1000000real),
        upto(car.loads(unit, x).forces.at(corner).fx, 100000real),
        upto(car.params.wheel_radius, 10real),
        upto(car.params.wheel_inertia, 1000real),
        number(car.params.wheel_inertia) >= 1real / 100real,
    ensures
        nearly(
            car.spin_acceleration(unit, x, corner),
            (number(car.drive_torque(unit, x, corner)) + number(
                car.brake_torque(unit, x, corner),
            ) + (-number(car.loads(unit, x).forces.at(corner).fx)) * number(
                car.params.wheel_radius,
            )) / number(car.params.wheel_inertia),
        ),
{
    let p = car.params;
    numbers::lemma_unrounded(ZERO);
    let drive = car.drive_torque(unit, x, corner);
    let brake = car.brake_torque(unit, x, corner);
    let patch = car.loads(unit, x).forces.at(corner);
    numbers::lemma_unrounded(patch.fx);
    let driven = plus(unit, drive, brake);
    let driven_n = number(drive) + number(brake);
    numbers::lemma_within_plus(unit, drive, number(drive), 0real, brake, number(brake), 0real);
    assert(numbers::within(driven, driven_n, 2100000real));
    let traction = times(unit, negate(patch.fx), p.wheel_radius);
    let traction_n = (-number(patch.fx)) * number(p.wheel_radius);
    numbers::lemma_within_times(unit, negate(patch.fx), (-number(patch.fx)), 0real, p.wheel_radius, number(p.wheel_radius), 0real, 100000real, 10real);
    assert(numbers::within(traction, traction_n, 1200000real));
    let net = plus(unit, driven, traction);
    let net_n = driven_n + traction_n;
    numbers::lemma_within_plus(unit, driven, driven_n, 2100000real, traction, traction_n, 1200000real);
    assert(numbers::within(net, net_n, 6400000real));
    let spun = over(unit, net, p.wheel_inertia);
    let spun_n = net_n / number(p.wheel_inertia);
    numbers::lemma_within_over(unit, net, net_n, 6400000real, p.wheel_inertia, 300000000real, 640000000real);
    assert(numbers::within(spun, spun_n, 950000000real));
}

/// In its own turning frame the car gains speed ahead by its forces less the drag and by
/// the turn of its sideways speed, gains speed to the left by its forces less the turn
/// of its forward speed, and turns by the moments of its four corners.
pub proof fn law_the_car_moves_by_its_forces<F: Fn(Operation) -> Scalar>(
    car: Car,
    unit: &F,
    x: Seq<Scalar>,
)
    requires
        rounding(unit),
        upto(car.loads(unit, x).body_fx, 100000real),
        upto(car.loads(unit, x).body_fy, 100000real),
        upto(car.slowing(unit, x[IDX_VX as int]), 100000real),
        upto(car.params.mass, 10000real),
        number(car.params.mass) >= 10real,
        upto(car.params.inertia_yaw, 100000real),
        number(car.params.inertia_yaw) >= 10real,
        upto(x[IDX_VX as int], 1000real),
        upto(x[IDX_VY as int], 1000real),
        upto(x[IDX_YAW_RATE as int], 100real),
        upto(car.yawing(unit, car.loads(unit, x).body.fl, 0), 1000000real),
        upto(car.yawing(unit, car.loads(unit, x).body.fr, 1), 1000000real),
        upto(car.yawing(unit, car.loads(unit, x).body.rl, 2), 1000000real),
        upto(car.yawing(unit, car.loads(unit, x).body.rr, 3), 1000000real),
    ensures
        ({
            let p = car.params;
            let loads = car.loads(unit, x);
            let (vx, vy, r) = (
                number(x[IDX_VX as int]),
                number(x[IDX_VY as int]),
                number(x[IDX_YAW_RATE as int]),
            );
            let drag = number(car.slowing(unit, x[IDX_VX as int]));
            &&& nearly(
                car.rate(unit, x, IDX_VX as int),
                (number(loads.body_fx) - drag) / number(p.mass) + r * vy,
            )
            &&& nearly(
                car.rate(unit, x, IDX_VY as int),
                number(loads.body_fy) / number(p.mass) - r * vx,
            )
            &&& nearly(
                car.rate(unit, x, IDX_YAW_RATE as int),
                (number(car.yawing(unit, loads.body.fl, 0)) + number(
                    car.yawing(unit, loads.body.fr, 1),
                ) + number(car.yawing(unit, loads.body.rl, 2)) + number(
                    car.yawing(unit, loads.body.rr, 3),
                )) / number(p.inertia_yaw),
            )
        }),
{
    let p = car.params;
    numbers::lemma_unrounded(ZERO);
    let loads = car.loads(unit, x);
    let vx = x[IDX_VX as int];
    let vy = x[IDX_VY as int];
    let yaw_rate = x[IDX_YAW_RATE as int];
    let slow = car.slowing(unit, vx);
    let moment_fl = car.yawing(unit, loads.body.fl, 0);
    let moment_fr = car.yawing(unit, loads.body.fr, 1);
    let moment_rl = car.yawing(unit, loads.body.rl, 2);
    let moment_rr = car.yawing(unit, loads.body.rr, 3);
    let pushed = minus(unit, loads.body_fx, slow);
    let pushed_n = number(loads.body_fx) - number(slow);
    numbers::lemma_within_minus(unit, loads.body_fx, number(loads.body_fx), 0real, slow, number(slow), 0real);
    assert(numbers::within(pushed, pushed_n, 210000real));
    let surge = over(unit, pushed, p.mass);
    let surge_n = pushed_n / number(p.mass);
    numbers::lemma_within_over(unit, pushed, pushed_n, 210000real, p.mass, 20000real, 21000real);
    assert(numbers::within(surge, surge_n, 42000real));
    let carried = times(unit, yaw_rate, vy);
    let carried_n = number(yaw_rate) * number(vy);
    numbers::lemma_within_times(unit, yaw_rate, number(yaw_rate), 0real, vy, number(vy), 0real, 100real, 1000real);
    assert(numbers::within(carried, carried_n, 110000real));
    let ahead = plus(unit, surge, carried);
    let ahead_n = surge_n + carried_n;
    numbers::lemma_within_plus(unit, surge, surge_n, 42000real, carried, carried_n, 110000real);
    assert(numbers::within(ahead, ahead_n, 280000real));
    let sway = over(unit, loads.body_fy, p.mass);
    let sway_n = number(loads.body_fy) / number(p.mass);
    numbers::lemma_within_over(unit, loads.body_fy, number(loads.body_fy), 0real, p.mass, 10000real, 0real);
    assert(numbers::within(sway, sway_n, 11000real));
    let swung = times(unit, yaw_rate, vx);
    let swung_n = number(yaw_rate) * number(vx);
    numbers::lemma_within_times(unit, yaw_rate, number(yaw_rate), 0real, vx, number(vx), 0real, 100real, 1000real);
    assert(numbers::within(swung, swung_n, 110000real));
    let aside = minus(unit, sway, swung);
    let aside_n = sway_n - swung_n;
    numbers::lemma_within_minus(unit, sway, sway_n, 11000real, swung, swung_n, 110000real);
    assert(numbers::within(aside, aside_n, 240000real));
    let moments1 = plus(unit, ZERO, moment_fl);
    let moments1_n = 0real + number(moment_fl);
    numbers::lemma_within_plus(unit, ZERO, 0real, 0real, moment_fl, number(moment_fl), 0real);
    assert(numbers::within(moments1, moments1_n, 1100000real));
    let moments2 = plus(unit, moments1, moment_fr);
    let moments2_n = moments1_n + number(moment_fr);
    numbers::lemma_within_plus(unit, moments1, moments1_n, 1100000real, moment_fr, number(moment_fr), 0real);
    assert(numbers::within(moments2, moments2_n, 3200000real));
    let moments3 = plus(unit, moments2, moment_rl);
    let moments3_n = moments2_n + number(moment_rl);
    numbers::lemma_within_plus(unit, moments2, moments2_n, 3200000real, moment_rl, number(moment_rl), 0real);
    assert(numbers::within(moments3, moments3_n, 6300000real));
    let moments4 = plus(unit, moments3, moment_rr);
    let moments4_n = moments3_n + number(moment_rr);
    numbers::lemma_within_plus(unit, moments3, moments3_n, 6300000real, moment_rr, number(moment_rr), 0real);
    assert(numbers::within(moments4, moments4_n, 11000000real));
    let swing = over(unit, moments4, p.inertia_yaw);
    let swing_n = moments4_n / number(p.inertia_yaw);
    numbers::lemma_within_over(unit, moments4, moments4_n, 11000000real, p.inertia_yaw, 400000real, 1100000real);
    assert(numbers::within(swing, swing_n, 1600000real));
}

/// A contact patch moves as the car does at its corner, seen along its own wheel: the
/// speed of the car and the turn of its corner, turned back by the steer angle.
pub proof fn law_patches_move_with_their_corners<F: Fn(Operation) -> Scalar>(
    car: Car,
    unit: &F,
    x: Seq<Scalar>,
    corner: int,
    c: Scalar,
    s: Scalar,
)
    requires
        rounding(unit),
        c == cos(unit, car.loads(unit, x).steer.at(corner)),
        s == sin(unit, car.loads(unit, x).steer.at(corner)),
        upto(c, 1real),
        upto(s, 1real),
        upto(x[IDX_VX as int], 1000real),
        upto(x[IDX_VY as int], 1000real),
        upto(x[IDX_YAW_RATE as int], 100real),
        upto(car.params.ahead(corner), 10real),
        upto(car.params.aside(unit, corner), 10real),
    ensures
        ({
            let r = number(x[IDX_YAW_RATE as int]);
            let along = number(x[IDX_VX as int]) - r * number(car.params.aside(unit, corner));
            let across = number(x[IDX_VY as int]) + r * number(car.params.ahead(corner));
            let v = car.patch_velocity(unit, x, corner);
            &&& nearly(v.x, along * number(c) + across * number(s))
            &&& nearly(v.y, (-along) * number(s) + across * number(c))
        }),
{
    let p = car.params;
    numbers::lemma_unrounded(ZERO);
    let yaw_rate = x[IDX_YAW_RATE as int];
    let ahead = p.ahead(corner);
    let aside = p.aside(unit, corner);
    let swing_x = times(unit, yaw_rate, aside);
    let swing_x_n = number(yaw_rate) * number(aside);
    numbers::lemma_within_times(unit, yaw_rate, number(yaw_rate), 0real, aside, number(aside), 0real, 100real, 10real);
    assert(numbers::within(swing_x, swing_x_n, 1200real));
    let along = minus(unit, x[IDX_VX as int], swing_x);
    let along_n = number(x[IDX_VX as int]) - swing_x_n;
    numbers::lemma_within_minus(unit, x[IDX_VX as int], number(x[IDX_VX as int]), 0real, swing_x, swing_x_n, 1200real);
    assert(numbers::within(along, along_n, 3300real));
    let swing_y = times(unit, yaw_rate, ahead);
    let swing_y_n = number(yaw_rate) * number(ahead);
    numbers::lemma_within_times(unit, yaw_rate, number(yaw_rate), 0real, ahead, number(ahead), 0real, 100real, 10real);
    assert(numbers::within(swing_y, swing_y_n, 1200real));
    let across = plus(unit, x[IDX_VY as int], swing_y);
    let across_n = number(x[IDX_VY as int]) + swing_y_n;
    numbers::lemma_within_plus(unit, x[IDX_VY as int], number(x[IDX_VY as int]), 0real, swing_y, swing_y_n, 1200real);
    assert(numbers::within(across, across_n, 3300real));
    let ac = times(unit, along, c);
    let ac_n = along_n * number(c);
    numbers::lemma_within_times(unit, along, along_n, 3300real, c, number(c), 0real, 2000real, 1real);
    assert(numbers::within(ac, ac_n, 11000real));
    let bs = times(unit, across, s);
    let bs_n = across_n * number(s);
    numbers::lemma_within_times(unit, across, across_n, 3300real, s, number(s), 0real, 2000real, 1real);
    assert(numbers::within(bs, bs_n, 11000real));
    let rolling = plus(unit, ac, bs);
    let rolling_n = ac_n + bs_n;
    numbers::lemma_within_plus(unit, ac, ac_n, 11000real, bs, bs_n, 11000real);
    assert(numbers::within(rolling, rolling_n, 27000real));
    numbers::lemma_unrounded(along);
    let as_ = times(unit, negate(along), s);
    let as__n = (-along_n) * number(s);
    numbers::lemma_within_times(unit, negate(along), (-along_n), 3300real, s, number(s), 0real, 2000real, 1real);
    assert(numbers::within(as_, as__n, 11000real));
    let bc = times(unit, across, c);
    let bc_n = across_n * number(c);
    numbers::lemma_within_times(unit, across, across_n, 3300real, c, number(c), 0real, 2000real, 1real);
    assert(numbers::within(bc, bc_n, 11000real));
    let sliding = plus(unit, as_, bc);
    let sliding_n = as__n + bc_n;
    numbers::lemma_within_plus(unit, as_, as__n, 11000real, bc, bc_n, 11000real);
    assert(numbers::within(sliding, sliding_n, 27000real));
}

/// A wheel's force is felt by the body turned by its steer angle: a wheel turned to the
/// left that drives forward pushes the body left as well.
pub proof fn law_forces_turn_with_the_wheel<F: Fn(Operation) -> Scalar>(
    unit: &F,
    force: TireForces,
    angle: Scalar,
    c: Scalar,
    s: Scalar,
)
    requires
        rounding(unit),
        c == cos(unit, angle),
        s == sin(unit, angle),
        upto(c, 1real),
        upto(s, 1real),
        upto(force.fx, 100000real),
        upto(force.fy, 100000real),
    ensures
        ({
            let (x, y) = (number(force.fx), number(force.fy));
            &&& nearly(turned(unit, force, angle).x, x * number(c) - y * number(s))
            &&& nearly(turned(unit, force, angle).y, x * number(s) + y * number(c))
        }),
{
    let xc = times(unit, force.fx, c);
    let xc_n = number(force.fx) * number(c);
    numbers::lemma_within_times(unit, force.fx, number(force.fx), 0real, c, number(c), 0real, 100000real, 1real);
    assert(numbers::within(xc, xc_n, 210000real));
    let ys = times(unit, force.fy, s);
    let ys_n = number(force.fy) * number(s);
    numbers::lemma_within_times(unit, force.fy, number(force.fy), 0real, s, number(s), 0real, 100000real, 1real);
    assert(numbers::within(ys, ys_n, 210000real));
    let forward = minus(unit, xc, ys);
    let forward_n = xc_n - ys_n;
    numbers::lemma_within_minus(unit, xc, xc_n, 210000real, ys, ys_n, 210000real);
    assert(numbers::within(forward, forward_n, 630000real));
    let xs = times(unit, force.fx, s);
    let xs_n = number(force.fx) * number(s);
    numbers::lemma_within_times(unit, force.fx, number(force.fx), 0real, s, number(s), 0real, 100000real, 1real);
    assert(numbers::within(xs, xs_n, 210000real));
    let yc = times(unit, force.fy, c);
    let yc_n = number(force.fy) * number(c);
    numbers::lemma_within_times(unit, force.fy, number(force.fy), 0real, c, number(c), 0real, 100000real, 1real);
    assert(numbers::within(yc, yc_n, 210000real));
    let left = plus(unit, xs, yc);
    let left_n = xs_n + yc_n;
    numbers::lemma_within_plus(unit, xs, xs_n, 210000real, yc, yc_n, 210000real);
    assert(numbers::within(left, left_n, 630000real));
}

/// At rest each axle carries the weight that the other axle is far from: each corner half
/// of it, and all four the whole car.
pub proof fn law_the_weight_rests_on_the_nearer_axle<F: Fn(Operation) -> Scalar>(
    car: Car,
    unit: &F,
    corner: int,
)
    requires
        rounding(unit),
        0 <= corner < 4,
        upto(car.params.mass, 10000real),
        1real / 10real <= number(car.params.a) <= 10real,
        1real / 10real <= number(car.params.b) <= 10real,
        is_finite(car.params.a),
        is_finite(car.params.b),
    ensures
        ({
            let p = car.params;
            let far = if corner < 2 {
                number(p.b)
            } else {
                number(p.a)
            };
            let axle = far / (number(p.a) + number(p.b));
            size(
                number(p.resting(unit, corner)) - 1real / 2real * number(p.mass)
                    * standard_gravity() * axle,
            ) * 1000000real <= 1real
        }),
{
    let p = car.params;
    numbers::lemma_unrounded(ZERO);
    lemma_gravity();
    let weight = standard_gravity();
    let share_front = over(unit, p.b, plus(unit, p.a, p.b));
    let share_rear = over(unit, p.a, plus(unit, p.a, p.b));
    let half = times(unit, HALF, p.mass);
    let half_n = number(HALF) * number(p.mass);
    numbers::lemma_within_times(unit, HALF, number(HALF), 0real, p.mass, number(p.mass), 0real, 1real, 10000real);
    assert(numbers::within(half, half_n, 21000real));
    let heavy = times(unit, half, GRAVITY);
    let heavy_n = half_n * weight;
    numbers::lemma_within_times(unit, half, half_n, 21000real, GRAVITY, weight, 10real, 10000real, 10real);
    assert(numbers::within(heavy, heavy_n, 450000real));
    let base = plus(unit, p.a, p.b);
    let base_n = number(p.a) + number(p.b);
    numbers::lemma_within_plus(unit, p.a, number(p.a), 0real, p.b, number(p.b), 0real);
    assert(numbers::within(base, base_n, 22real));
    lemma_share(unit, p.a, p.b);
    let front = times(unit, heavy, share_front);
    let front_n = heavy_n * number(share_front);
    numbers::lemma_within_times(unit, heavy, heavy_n, 450000real, share_front, number(share_front), 0real, 100000real, 2real);
    assert(numbers::within(front, front_n, 1700000real));
    let rear = times(unit, heavy, share_rear);
    let rear_n = heavy_n * number(share_rear);
    numbers::lemma_within_times(unit, heavy, heavy_n, 450000real, share_rear, number(share_rear), 0real, 100000real, 2real);
    assert(numbers::within(rear, rear_n, 1700000real));
    let all = number(p.a) + number(p.b);
    lemma_shared(heavy_n, number(share_front), number(p.b) / all);
    lemma_shared(heavy_n, number(share_rear), number(p.a) / all);
}

/// What a rate is the rate of: each position changes by the speed beside it.
pub proof fn law_speeds_move_positions<F: Fn(Operation) -> Scalar>(
    car: Car,
    unit: &F,
    x: Seq<Scalar>,
    corner: int,
)
    requires
        0 <= corner < 4,
    ensures
        car.rate(unit, x, IDX_HEAVE as int) == x[IDX_HEAVE_RATE as int],
        car.rate(unit, x, IDX_ROLL as int) == x[IDX_ROLL_RATE as int],
        car.rate(unit, x, IDX_PITCH as int) == x[IDX_PITCH_RATE as int],
        car.rate(unit, x, IDX_HOP + corner) == x[IDX_HOP_RATE + corner],
        car.rate(unit, x, IDX_HEAVE_RATE as int) == car.heave_acceleration(unit, x),
        car.rate(unit, x, IDX_ROLL_RATE as int) == car.roll_acceleration(unit, x),
        car.rate(unit, x, IDX_PITCH_RATE as int) == car.pitch_acceleration(unit, x),
        car.rate(unit, x, IDX_HOP_RATE + corner) == car.hop_acceleration(unit, x, corner),
        car.rate(unit, x, IDX_OMEGA + corner) == car.spin_acceleration(unit, x, corner),
        car.rate(unit, x, IDX_SLIP_ANGLE + corner) == car.slip_angle_rate(unit, x, corner),
        car.rate(unit, x, IDX_SLIP_RATIO + corner) == car.slip_ratio_rate(unit, x, corner),
{
}

} // verus!
