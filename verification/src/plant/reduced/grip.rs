//! What a contact patch comes to, in numbers.

use vstd::arithmetic::power2::*;
use vstd::prelude::*;

use crate::arith::{atan, minus, over, plus, rounding, sin, sqrt, times, Operation};
use crate::numbers;
use crate::numbers::{nearly, number, size, upto};
use crate::plant::reduced::tire::{
    magic, TireParams, AIRBORNE, LEAST_GRIP, LIGHTEST, TWO,
};
use crate::scalar::{is_finite, is_less, max_of, min_of, negate, Scalar, ONE, ZERO};

verus! {

/// The larger of two numbers.
pub open spec fn at_least(r: real, floor: real) -> real {
    if r < floor {
        floor
    } else {
        r
    }
}

/// `stiff`, `bent` and `phase` are the steps of the curve at `slip`.
pub open spec fn bends<F: Fn(Operation) -> Scalar>(
    unit: &F,
    slip: Scalar,
    b: Scalar,
    c: Scalar,
    e: Scalar,
    stiff: Scalar,
    bent: Scalar,
    phase: Scalar,
) -> bool {
    let bs = number(b) * number(slip);
    &&& nearly(stiff, bs)
    &&& nearly(bent, bs - number(e) * (bs - number(atan(unit, stiff))))
    &&& nearly(phase, number(c) * number(atan(unit, bent)))
    &&& magic(unit, slip, b, c, e) == sin(unit, phase)
}

proof fn lemma_floors()
    ensures
        numbers::within(LIGHTEST, -9real / 10real, 1real),
        numbers::within(LEAST_GRIP, 15real / 100real, 1real),
        number(TWO) == 2real && is_finite(TWO),
        number(AIRBORNE) == 1real,
{
    lemma2_to64();
    lemma2_to64_rest();
    let light: Scalar = 0x3fec_cccc_cccc_cccd;
    numbers::lemma_word(light, 0x1c_cccc_cccc_cccd, 1022, 53, 9007199254740992);
    numbers::lemma_word(LEAST_GRIP, 0x13_3333_3333_3333, 1020, 55, 36028797018963968);
    numbers::lemma_word(TWO, 0x10_0000_0000_0000, 1024, 51, 2251799813685248);
    numbers::lemma_unrounded(light);
    assert(negate(light) == LIGHTEST);
}

/// A part of something, over that something, is the part.
proof fn lemma_normal<F: Fn(Operation) -> Scalar>(unit: &F, most: Scalar, shape: Scalar)
    requires
        rounding(unit),
        upto(most, 1000000real),
        number(most) >= 1real / 10real,
        upto(shape, 2real),
    ensures
        numbers::within(over(unit, times(unit, most, shape), most), number(shape), 100real),
{
    let (m, s) = (number(most), number(shape));
    let force = times(unit, most, shape);
    let ms = m * s;
    numbers::lemma_size_of_product(m, s);
    numbers::lemma_multiples(m, 1000000real, size(s));
    numbers::lemma_in_range(ms);
    numbers::lemma_close_times(unit, most, shape);
    numbers::lemma_off(force, ms);
    numbers::lemma_multiples(size(s), 2real, m);
    assert(ms / m == s) by (nonlinear_arith)
        requires
            ms == m * s,
            m > 0real,
    ;
    numbers::lemma_within_over(unit, force, ms, size(ms) + 1real, most, 2real, 12real);
}

/// Grip per newton falls as load rises, by the load sensitivity on how far the load is above
/// the reference, and never below what a tire always has.
pub proof fn law_grip_falls_with_load<F: Fn(Operation) -> Scalar>(
    params: TireParams,
    unit: &F,
    base_mu: Scalar,
    fz: Scalar,
)
    requires
        rounding(unit),
        upto(fz, 100000real),
        upto(base_mu, 10real),
        upto(params.load_sensitivity, 10real),
        upto(params.reference_load, 100000real),
        number(params.reference_load) >= 1real,
    ensures
        ({
            let above = at_least(number(fz) / number(params.reference_load) - 1real, -9real / 10real);
            nearly(
                params.grip(unit, base_mu, fz),
                at_least(
                    number(base_mu) * (1real - number(params.load_sensitivity) * above),
                    15real / 100real,
                ),
            )
        }),
{
    numbers::lemma_unrounded(ZERO);
    lemma_floors();
    let relative = over(unit, fz, params.reference_load);
    let relative_n = number(fz) / number(params.reference_load);
    numbers::lemma_within_over(unit, fz, number(fz), 0real, params.reference_load, 100000real, 0real);
    assert(numbers::within(relative, relative_n, 110000real));
    let over_load = minus(unit, relative, ONE);
    let over_load_n = relative_n - number(ONE);
    numbers::lemma_within_minus(unit, relative, relative_n, 110000real, ONE, number(ONE), 0real);
    assert(numbers::within(over_load, over_load_n, 220000real));
    let kept = max_of(over_load, LIGHTEST);
    let kept_n = at_least(over_load_n, -9real / 10real);
    numbers::lemma_number_order(over_load, LIGHTEST);
    assert(numbers::within(kept, kept_n, 220000real));
    let loss = times(unit, params.load_sensitivity, kept);
    let loss_n = number(params.load_sensitivity) * kept_n;
    numbers::lemma_within_times(unit, params.load_sensitivity, number(params.load_sensitivity), 0real, kept, kept_n, 220000real, 10real, 100001real);
    assert(numbers::within(loss, loss_n, 3400000real));
    let left_over = minus(unit, ONE, loss);
    let left_over_n = number(ONE) - loss_n;
    numbers::lemma_within_minus(unit, ONE, number(ONE), 0real, loss, loss_n, 3400000real);
    assert(numbers::within(left_over, left_over_n, 4500000real));
    let mu = times(unit, base_mu, left_over);
    let mu_n = number(base_mu) * left_over_n;
    numbers::lemma_within_times(unit, base_mu, number(base_mu), 0real, left_over, left_over_n, 4500000real, 10real, 1000011real);
    assert(numbers::within(mu, mu_n, 57000000real));
    numbers::lemma_number_order(mu, LEAST_GRIP);
}

/// Alone, a patch makes the part of its lateral grip under its load that the shape of the
/// curve gives at its slip angle.
pub proof fn law_lateral_force_is_grip_on_load<F: Fn(Operation) -> Scalar>(
    params: TireParams,
    unit: &F,
    fz: Scalar,
    slip_angle: Scalar,
)
    requires
        rounding(unit),
        upto(fz, 100000real),
        upto(params.grip(unit, params.mu_lat, fz), 10real),
        upto(magic(unit, slip_angle, params.b_lat, params.c_lat, params.e_lat), 2real),
    ensures
        nearly(
            params.pure_lateral(unit, fz, slip_angle),
            number(params.grip(unit, params.mu_lat, fz)) * number(fz) * number(
                magic(unit, slip_angle, params.b_lat, params.c_lat, params.e_lat),
            ),
        ),
{
    let grip = params.grip(unit, params.mu_lat, fz);
    let shape = magic(unit, slip_angle, params.b_lat, params.c_lat, params.e_lat);
    let most = times(unit, grip, fz);
    let most_n = number(grip) * number(fz);
    numbers::lemma_within_times(unit, grip, number(grip), 0real, fz, number(fz), 0real, 10real, 100000real);
    assert(numbers::within(most, most_n, 1200000real));
    let force = times(unit, most, shape);
    let force_n = most_n * number(shape);
    numbers::lemma_within_times(unit, most, most_n, 1200000real, shape, number(shape), 0real, 1000000real, 2real);
    assert(numbers::within(force, force_n, 6700000real));
}

/// Alone, a patch makes the part of its longitudinal grip under its load that the shape of the
/// curve gives at its slip ratio.
pub proof fn law_longitudinal_force_is_grip_on_load<F: Fn(Operation) -> Scalar>(
    params: TireParams,
    unit: &F,
    fz: Scalar,
    slip_ratio: Scalar,
)
    requires
        rounding(unit),
        upto(fz, 100000real),
        upto(params.grip(unit, params.mu_long, fz), 10real),
        upto(magic(unit, slip_ratio, params.b_long, params.c_long, params.e_long), 2real),
    ensures
        nearly(
            params.pure_longitudinal(unit, fz, slip_ratio),
            number(params.grip(unit, params.mu_long, fz)) * number(fz) * number(
                magic(unit, slip_ratio, params.b_long, params.c_long, params.e_long),
            ),
        ),
{
    let grip = params.grip(unit, params.mu_long, fz);
    let shape = magic(unit, slip_ratio, params.b_long, params.c_long, params.e_long);
    let most = times(unit, grip, fz);
    let most_n = number(grip) * number(fz);
    numbers::lemma_within_times(unit, grip, number(grip), 0real, fz, number(fz), 0real, 10real, 100000real);
    assert(numbers::within(most, most_n, 1200000real));
    let force = times(unit, most, shape);
    let force_n = most_n * number(shape);
    numbers::lemma_within_times(unit, most, most_n, 1200000real, shape, number(shape), 0real, 1000000real, 2real);
    assert(numbers::within(force, force_n, 6700000real));
}

/// The shape of the curve is the sine of `c` times the arc tangent of the stiffened slip,
/// bent by `e` towards its own arc tangent.
pub proof fn law_the_curve_is_a_bent_sine<F: Fn(Operation) -> Scalar>(
    unit: &F,
    slip: Scalar,
    b: Scalar,
    c: Scalar,
    e: Scalar,
)
    requires
        rounding(unit),
        upto(slip, 10real),
        upto(b, 100real),
        upto(c, 10real),
        upto(e, 10real),
        forall|y: Scalar| upto(#[trigger] atan(unit, y), 10real),
    ensures
        exists|stiff: Scalar, bent: Scalar, phase: Scalar| #[trigger]
            bends(unit, slip, b, c, e, stiff, bent, phase),
{
    let stiff = times(unit, b, slip);
    let stiff_n = number(b) * number(slip);
    numbers::lemma_within_times(unit, b, number(b), 0real, slip, number(slip), 0real, 100real, 10real);
    assert(numbers::within(stiff, stiff_n, 1200real));
    let angle = atan(unit, stiff);
    let beyond = minus(unit, stiff, angle);
    let beyond_n = stiff_n - number(angle);
    numbers::lemma_within_minus(unit, stiff, stiff_n, 1200real, angle, number(angle), 0real);
    assert(numbers::within(beyond, beyond_n, 2300real));
    let bending = times(unit, e, beyond);
    let bending_n = number(e) * beyond_n;
    numbers::lemma_within_times(unit, e, number(e), 0real, beyond, beyond_n, 2300real, 10real, 1010real);
    assert(numbers::within(bending, bending_n, 35000real));
    let bent = minus(unit, stiff, bending);
    let bent_n = stiff_n - bending_n;
    numbers::lemma_within_minus(unit, stiff, stiff_n, 1200real, bending, bending_n, 35000real);
    assert(numbers::within(bent, bent_n, 48000real));
    let outer = atan(unit, bent);
    let phase = times(unit, c, outer);
    let phase_n = number(c) * number(outer);
    numbers::lemma_within_times(unit, c, number(c), 0real, outer, number(outer), 0real, 10real, 10real);
    assert(numbers::within(phase, phase_n, 130real));
    assert(bends(unit, slip, b, c, e, stiff, bent, phase));
}

/// The two directions share one friction ellipse: what they ask for together is the root of
/// the squares of what each asks for alone, as parts of its own grip.
pub proof fn law_grip_is_shared_on_an_ellipse<F: Fn(Operation) -> Scalar>(
    params: TireParams,
    unit: &F,
    fz: Scalar,
    slip_angle: Scalar,
    slip_ratio: Scalar,
    most_x: Scalar,
    most_y: Scalar,
)
    requires
        rounding(unit),
        most_x == times(unit, params.grip(unit, params.mu_long, fz), fz),
        most_y == times(unit, params.grip(unit, params.mu_lat, fz), fz),
        upto(most_x, 1000000real),
        upto(most_y, 1000000real),
        number(most_x) >= 1real / 10real,
        number(most_y) >= 1real / 10real,
        upto(magic(unit, slip_ratio, params.b_long, params.c_long, params.e_long), 2real),
        upto(magic(unit, slip_angle, params.b_lat, params.c_lat, params.e_lat), 2real),
    ensures
        ({
            let along = number(magic(unit, slip_ratio, params.b_long, params.c_long, params.e_long));
            let across = number(magic(unit, slip_angle, params.b_lat, params.c_lat, params.e_lat));
            exists|square: Scalar|
                params.demand(unit, fz, slip_angle, slip_ratio) == #[trigger] sqrt(unit, square)
                    && nearly(square, along * along + across * across)
        }),
{
    let shape_x = magic(unit, slip_ratio, params.b_long, params.c_long, params.e_long);
    let shape_y = magic(unit, slip_angle, params.b_lat, params.c_lat, params.e_lat);
    lemma_normal(unit, most_x, shape_x);
    lemma_normal(unit, most_y, shape_y);
    let along = over(unit, times(unit, most_x, shape_x), most_x);
    let across = over(unit, times(unit, most_y, shape_y), most_y);
    let along_square = times(unit, along, along);
    let along_square_n = number(shape_x) * number(shape_x);
    numbers::lemma_within_times(unit, along, number(shape_x), 100real, along, number(shape_x), 100real, 2real, 2real);
    assert(numbers::within(along_square, along_square_n, 510real));
    let across_square = times(unit, across, across);
    let across_square_n = number(shape_y) * number(shape_y);
    numbers::lemma_within_times(unit, across, number(shape_y), 100real, across, number(shape_y), 100real, 2real, 2real);
    assert(numbers::within(across_square, across_square_n, 510real));
    let square = plus(unit, along_square, across_square);
    let square_n = along_square_n + across_square_n;
    numbers::lemma_within_plus(unit, along_square, along_square_n, 510real, across_square, across_square_n, 510real);
    assert(numbers::within(square, square_n, 1100real));
    assert(params.demand(unit, fz, slip_angle, slip_ratio) == sqrt(unit, square));
}

/// What a patch makes: both forces as they are while they fit the ellipse, and both scaled
/// back by the same part when they ask for more. The aligning moment is against the
/// lateral force, on a trail that shrinks to nothing as the tire saturates.
pub proof fn law_a_patch_scales_both_forces_and_lets_go<F: Fn(Operation) -> Scalar>(
    params: TireParams,
    unit: &F,
    fz: Scalar,
    slip_angle: Scalar,
    slip_ratio: Scalar,
    demand: Scalar,
)
    requires
        rounding(unit),
        number(fz) > 1real,
        is_finite(fz),
        demand == params.demand(unit, fz, slip_angle, slip_ratio),
        upto(demand, 100real),
        number(demand) >= 0real,
        upto(params.pure_lateral(unit, fz, slip_angle), 100000real),
        upto(params.pure_longitudinal(unit, fz, slip_ratio), 100000real),
        upto(params.pneumatic_trail, 1real),
    ensures
        ({
            let forces = params.forces(unit, fz, slip_angle, slip_ratio);
            let d = number(demand);
            let (x, y) = (
                number(params.pure_longitudinal(unit, fz, slip_ratio)),
                number(params.pure_lateral(unit, fz, slip_angle)),
            );
            let scale = if d > 1real {
                1real / d
            } else {
                1real
            };
            let used = if d > 1real {
                1real
            } else {
                d
            };
            &&& nearly(forces.fx, x * scale)
            &&& nearly(forces.fy, y * scale)
            &&& nearly(forces.mz, -(y * scale) * (number(params.pneumatic_trail) * (1real - used)))
            &&& d <= 2real ==> number(forces.utilisation) == d
            &&& d > 2real ==> number(forces.utilisation) == 2real
        }),
{
    let d = number(demand);
    numbers::lemma_unrounded(demand);
    lemma_floors();
    numbers::lemma_number_order(fz, AIRBORNE);
    numbers::lemma_number_order(ONE, demand);
    numbers::lemma_number_order(demand, ONE);
    numbers::lemma_number_order(demand, TWO);
    numbers::lemma_number_order(TWO, demand);
    let scale = if is_less(ONE, demand) {
        over(unit, ONE, demand)
    } else {
        ONE
    };
    let scale_n = if d > 1real {
        1real / d
    } else {
        1real
    };
    if d > 1real {
        numbers::lemma_within_over(unit, ONE, 1real, 0real, demand, 1real, 0real);
    }
    assert(numbers::within(scale, scale_n, 10real) && size(scale_n) <= 1real);
    let fx = params.pure_longitudinal(unit, fz, slip_ratio);
    let fy = params.pure_lateral(unit, fz, slip_angle);
    numbers::lemma_within_times(unit, fx, number(fx), 0real, scale, scale_n, 10real, 100000real, 1real);
    numbers::lemma_within_times(unit, fy, number(fy), 0real, scale, scale_n, 10real, 100000real, 1real);
    let used = min_of(demand, ONE);
    let left = minus(unit, ONE, used);
    let left_n = 1real - number(used);
    numbers::lemma_within_minus(unit, ONE, 1real, 0real, used, number(used), 0real);
    numbers::lemma_number_order(used, ONE);
    let kept = max_of(left, ZERO);
    numbers::lemma_number_order(left, ZERO);
    assert(numbers::within(kept, left_n, 10real) && size(left_n) <= 1real);
    let trail = times(unit, params.pneumatic_trail, kept);
    let trail_n = number(params.pneumatic_trail) * left_n;
    numbers::lemma_within_times(
        unit,
        params.pneumatic_trail,
        number(params.pneumatic_trail),
        0real,
        kept,
        left_n,
        10real,
        1real,
        1real,
    );
    let held = times(unit, fy, scale);
    let held_n = number(fy) * scale_n;
    numbers::lemma_unrounded(held);
    numbers::lemma_within_times(
        unit,
        negate(held),
        -held_n,
        1300000real,
        trail,
        trail_n,
        100real,
        100000real,
        1real,
    );
}

} // verus!
