//! Left and right.
//!
//! The car is the same on both sides, so a state seen in a mirror moves as the
//! mirror image of the state. Rounding leaves one exception: a total over four
//! corners is added up in corner order, and the mirror image adds the two
//! corners of each axle the other way round. Everything that belongs to one
//! corner mirrors as it stands; a total mirrors where both orders round alike.

use vstd::prelude::*;

use crate::arith::{atan, cos, minus, over, plus, sin, sqrt, tan, tanh, times, Operation};
use crate::generated::frames::DriverInput;
use crate::plant::reduced;
use crate::plant::reduced::params::{ReducedParams, GRAVITY, HALF};
use crate::plant::reduced::tire::{magic_formula, TireForces, TireParams, AIRBORNE, TWO};
use crate::plant::reduced::{
    BodyForce, Car, Loads, ACKERMANN, FOUR, IDX_HEAVE, IDX_HEAVE_RATE, IDX_HOP, IDX_HOP_RATE,
    IDX_OMEGA, IDX_PITCH, IDX_PITCH_RATE, IDX_ROLL, IDX_ROLL_RATE, IDX_SLIP_ANGLE, IDX_SLIP_RATIO,
    IDX_VX, IDX_VY, IDX_YAW_RATE, MINUS_FOUR, STATE_COUNT, STRAIGHT,
};
use crate::scalar;
use crate::scalar::{
    abs, clamp, is_at_most, is_less, is_nan, max_of, min_of, negate, signum, Scalar, MINUS_ONE,
    ONE, ZERO,
};

verus! {

// --- facing values ------------------------------------------------------------------

pub open spec fn zero(a: Scalar) -> bool {
    scalar::magnitude(a) == 0
}

/// One value: the two zeros agree, and so do any two that are not a number.
pub open spec fn like(a: Scalar, b: Scalar) -> bool {
    a == b || zero(a) && zero(b) || is_nan(a) && is_nan(b)
}

/// `b` is what a mirror makes of `a`: its opposite where `flips`, else itself.
pub open spec fn facing(flips: bool, a: Scalar, b: Scalar) -> bool {
    like(
        if flips {
            negate(a)
        } else {
            a
        },
        b,
    )
}

proof fn facing_chains(s: bool, t: bool, a: Scalar, b: Scalar, c: Scalar)
    requires
        facing(s, a, b),
        facing(t, b, c),
    ensures
        facing(s != t, a, c),
{
}

proof fn facing_turns(s: bool, a: Scalar, b: Scalar)
    requires
        facing(s, a, b),
    ensures
        facing(s, b, a),
        facing(s, negate(a), negate(b)),
        facing(!s, negate(a), b),
        facing(!s, a, negate(b)),
{
}

// --- a unit with no side ------------------------------------------------------------

pub open spec fn adds_evenly<F: Fn(Operation) -> Scalar>(
    unit: &F,
    flips: bool,
    a: Scalar,
    a2: Scalar,
    b: Scalar,
    b2: Scalar,
) -> bool {
    facing(flips, a, a2) && facing(flips, b, b2) ==> facing(
        flips,
        plus(unit, a, b),
        plus(unit, a2, b2),
    )
}

pub open spec fn adds_either_way<F: Fn(Operation) -> Scalar>(unit: &F, a: Scalar, b: Scalar) -> bool {
    &&& like(plus(unit, a, b), plus(unit, b, a))
    &&& like(minus(unit, a, b), plus(unit, a, negate(b)))
    &&& like(plus(unit, ZERO, a), a)
}

pub open spec fn multiplies_evenly<F: Fn(Operation) -> Scalar>(
    unit: &F,
    s: bool,
    t: bool,
    a: Scalar,
    a2: Scalar,
    b: Scalar,
    b2: Scalar,
) -> bool {
    facing(s, a, a2) && facing(t, b, b2) ==> facing(
        s != t,
        times(unit, a, b),
        times(unit, a2, b2),
    )
}

/// A divisor that is zero keeps its sign out of the value, so only one that is
/// not zero may be mirrored.
pub open spec fn divides_evenly<F: Fn(Operation) -> Scalar>(
    unit: &F,
    s: bool,
    t: bool,
    a: Scalar,
    a2: Scalar,
    b: Scalar,
    b2: Scalar,
) -> bool {
    &&& facing(s, a, a2) && facing(t, b, b2) && !zero(b) ==> facing(
        s != t,
        over(unit, a, b),
        over(unit, a2, b2),
    )
    &&& facing(s, a, a2) ==> facing(s, over(unit, a, b), over(unit, a2, b))
}

pub open spec fn bends_evenly<F: Fn(Operation) -> Scalar>(
    unit: &F,
    flips: bool,
    a: Scalar,
    a2: Scalar,
) -> bool {
    facing(flips, a, a2) ==> {
        &&& facing(flips, sin(unit, a), sin(unit, a2))
        &&& facing(flips, tan(unit, a), tan(unit, a2))
        &&& facing(flips, atan(unit, a), atan(unit, a2))
        &&& facing(flips, tanh(unit, a), tanh(unit, a2))
        &&& like(cos(unit, a), cos(unit, a2))
        &&& !flips ==> like(sqrt(unit, a), sqrt(unit, a2))
    }
}

/// `unit` treats the two signs alike, as rounding to nearest does.
pub open spec fn even_handed<F: Fn(Operation) -> Scalar>(unit: &F) -> bool {
    &&& forall|s: bool, a: Scalar, a2: Scalar, b: Scalar, b2: Scalar| #[trigger]
        adds_evenly(unit, s, a, a2, b, b2)
    &&& forall|a: Scalar, b: Scalar| #[trigger] adds_either_way(unit, a, b)
    &&& forall|s: bool, t: bool, a: Scalar, a2: Scalar, b: Scalar, b2: Scalar| #[trigger]
        multiplies_evenly(unit, s, t, a, a2, b, b2)
    &&& forall|s: bool, t: bool, a: Scalar, a2: Scalar, b: Scalar, b2: Scalar| #[trigger]
        divides_evenly(unit, s, t, a, a2, b, b2)
    &&& forall|s: bool, a: Scalar, a2: Scalar| #[trigger] bends_evenly(unit, s, a, a2)
}

proof fn adds<F: Fn(Operation) -> Scalar>(
    unit: &F,
    s: bool,
    a: Scalar,
    a2: Scalar,
    b: Scalar,
    b2: Scalar,
)
    requires
        even_handed(unit),
        facing(s, a, a2),
        facing(s, b, b2),
    ensures
        facing(s, plus(unit, a, b), plus(unit, a2, b2)),
        facing(s, minus(unit, a, b), minus(unit, a2, b2)),
{
    assert(adds_evenly(unit, s, a, a2, b, b2));
    facing_turns(s, b, b2);
    assert(adds_evenly(unit, s, a, a2, negate(b), negate(b2)));
    assert(adds_either_way(unit, a, b));
    assert(adds_either_way(unit, a2, b2));
    facing_chains(false, s, minus(unit, a, b), plus(unit, a, negate(b)), plus(unit, a2, negate(b2)));
    facing_chains(s, false, minus(unit, a, b), plus(unit, a2, negate(b2)), minus(unit, a2, b2));
}

/// A sum against a difference: the second term turns over.
proof fn adds_across<F: Fn(Operation) -> Scalar>(
    unit: &F,
    a: Scalar,
    a2: Scalar,
    b: Scalar,
    b2: Scalar,
)
    requires
        even_handed(unit),
        like(a, a2),
        facing(true, b, b2),
    ensures
        like(plus(unit, a, b), minus(unit, a2, b2)),
        like(minus(unit, a, b), plus(unit, a2, b2)),
{
    facing_turns(true, b, b2);
    assert(adds_evenly(unit, false, a, a2, b, negate(b2)));
    assert(adds_evenly(unit, false, a, a2, negate(b), b2));
    assert(adds_either_way(unit, a, b));
    assert(adds_either_way(unit, a2, b2));
    facing_chains(false, false, plus(unit, a, b), plus(unit, a2, negate(b2)), minus(unit, a2, b2));
    facing_chains(false, false, minus(unit, a, b), plus(unit, a, negate(b)), plus(unit, a2, b2));
}

/// A difference taken the other way round.
proof fn subtracts_across<F: Fn(Operation) -> Scalar>(
    unit: &F,
    a: Scalar,
    a2: Scalar,
    b: Scalar,
    b2: Scalar,
)
    requires
        even_handed(unit),
        like(a, b2),
        like(b, a2),
    ensures
        facing(true, minus(unit, a, b), minus(unit, a2, b2)),
        like(plus(unit, a, b), plus(unit, a2, b2)),
{
    // a - b ~ a + (-b) ~ (-b) + a, and its opposite ~ b + (-a) ~ a2 + (-b2).
    facing_turns(false, b, a2);
    facing_turns(false, a, b2);
    assert(adds_either_way(unit, a, b));
    assert(adds_either_way(unit, a, negate(b)));
    assert(adds_either_way(unit, a2, b2));
    assert(facing(true, negate(b), a2));
    assert(facing(true, a, negate(b2)));
    assert(adds_evenly(unit, true, negate(b), a2, a, negate(b2)));
    facing_chains(
        false,
        false,
        minus(unit, a, b),
        plus(unit, a, negate(b)),
        plus(unit, negate(b), a),
    );
    facing_chains(
        false,
        true,
        minus(unit, a, b),
        plus(unit, negate(b), a),
        plus(unit, a2, negate(b2)),
    );
    facing_chains(true, false, minus(unit, a, b), plus(unit, a2, negate(b2)), minus(unit, a2, b2));
    assert(adds_evenly(unit, false, b, a2, a, b2));
    facing_chains(false, false, plus(unit, a, b), plus(unit, b, a), plus(unit, a2, b2));
}

proof fn multiplies<F: Fn(Operation) -> Scalar>(
    unit: &F,
    s: bool,
    t: bool,
    a: Scalar,
    a2: Scalar,
    b: Scalar,
    b2: Scalar,
)
    requires
        even_handed(unit),
        facing(s, a, a2),
        facing(t, b, b2),
    ensures
        facing(s != t, times(unit, a, b), times(unit, a2, b2)),
{
    assert(multiplies_evenly(unit, s, t, a, a2, b, b2));
}

proof fn divides<F: Fn(Operation) -> Scalar>(unit: &F, s: bool, a: Scalar, a2: Scalar, b: Scalar)
    requires
        even_handed(unit),
        facing(s, a, a2),
    ensures
        facing(s, over(unit, a, b), over(unit, a2, b)),
{
    assert(divides_evenly(unit, s, s, a, a2, b, b));
}

proof fn divides_across<F: Fn(Operation) -> Scalar>(unit: &F, a: Scalar, b: Scalar, b2: Scalar)
    requires
        even_handed(unit),
        facing(true, b, b2),
        !zero(b),
    ensures
        facing(true, over(unit, a, b), over(unit, a, b2)),
{
    assert(divides_evenly(unit, false, true, a, a, b, b2));
}

proof fn bends<F: Fn(Operation) -> Scalar>(unit: &F, s: bool, a: Scalar, a2: Scalar)
    requires
        even_handed(unit),
        facing(s, a, a2),
    ensures
        facing(s, sin(unit, a), sin(unit, a2)),
        facing(s, tan(unit, a), tan(unit, a2)),
        facing(s, atan(unit, a), atan(unit, a2)),
        facing(s, tanh(unit, a), tanh(unit, a2)),
        like(cos(unit, a), cos(unit, a2)),
        !s ==> like(sqrt(unit, a), sqrt(unit, a2)),
{
    assert(bends_evenly(unit, s, a, a2));
}

// --- comparisons --------------------------------------------------------------------

proof fn zero_is_nothing(a: Scalar)
    ensures
        zero(a) <==> scalar::exact(a) == 0,
        !is_nan(a) ==> scalar::exact(negate(a)) == -scalar::exact(a),
        is_nan(negate(a)) == is_nan(a),
        zero(negate(a)) == zero(a),
{
    reveal(scalar::measure);
    if scalar::magnitude(a) > 0 {
        scalar::lemma_measure_increases(0, scalar::magnitude(a));
    }
}

proof fn likes_compare_alike(a: Scalar, a2: Scalar, b: Scalar)
    requires
        like(a, a2),
    ensures
        is_less(a, b) == is_less(a2, b),
        is_less(b, a) == is_less(b, a2),
        is_at_most(a, b) == is_at_most(a2, b),
        is_at_most(b, a) == is_at_most(b, a2),
        like(max_of(a, b), max_of(a2, b)),
        like(min_of(a, b), min_of(a2, b)),
        is_nan(abs(a)) && is_nan(abs(a2)) || abs(a) == abs(a2),
        max_of(abs(a), b) == max_of(abs(a2), b),
{
    zero_is_nothing(a);
    zero_is_nothing(a2);
}

proof fn likes_clamp_alike(a: Scalar, a2: Scalar, low: Scalar, high: Scalar)
    requires
        like(a, a2),
    ensures
        like(clamp(a, low, high), clamp(a2, low, high)),
{
    likes_compare_alike(a, a2, low);
    likes_compare_alike(a, a2, high);
}

proof fn opposites_clamp_opposite(a: Scalar, limit: Scalar)
    requires
        is_at_most(negate(limit), limit),
    ensures
        facing(
            true,
            clamp(a, negate(limit), limit),
            clamp(negate(a), negate(limit), limit),
        ),
{
    zero_is_nothing(a);
    zero_is_nothing(limit);
}

// --- the tire -----------------------------------------------------------------------

proof fn shapes<F: Fn(Operation) -> Scalar>(
    unit: &F,
    slip: Scalar,
    slip2: Scalar,
    b: Scalar,
    c: Scalar,
    e: Scalar,
)
    requires
        even_handed(unit),
        facing(true, slip, slip2),
    ensures
        facing(true, magic_formula(unit, slip, b, c, e), magic_formula(unit, slip2, b, c, e)),
{
    let bs = times(unit, b, slip);
    let bs2 = times(unit, b, slip2);
    multiplies(unit, false, true, b, b, slip, slip2);
    bends(unit, true, bs, bs2);
    adds(unit, true, bs, bs2, atan(unit, bs), atan(unit, bs2));
    let d = minus(unit, bs, atan(unit, bs));
    let d2 = minus(unit, bs2, atan(unit, bs2));
    multiplies(unit, false, true, e, e, d, d2);
    adds(unit, true, bs, bs2, times(unit, e, d), times(unit, e, d2));
    let bent = minus(unit, bs, times(unit, e, d));
    let bent2 = minus(unit, bs2, times(unit, e, d2));
    bends(unit, true, bent, bent2);
    multiplies(unit, false, true, c, c, atan(unit, bent), atan(unit, bent2));
    bends(unit, true, times(unit, c, atan(unit, bent)), times(unit, c, atan(unit, bent2)));
}

/// What one patch produces, against what its mirror image produces.
pub open spec fn opposite_forces(a: TireForces, b: TireForces) -> bool {
    &&& like(a.fx, b.fx)
    &&& facing(true, a.fy, b.fy)
    &&& facing(true, a.mz, b.mz)
    &&& like(a.utilisation, b.utilisation)
}

/// A tire slipping to the other side pulls to the other side, and is as hard
/// at work.
pub proof fn law_a_tire_has_no_side<F: Fn(Operation) -> Scalar>(
    unit: &F,
    tire: TireParams,
    fz: Scalar,
    slip_angle: Scalar,
    slip_ratio: Scalar,
)
    requires
        even_handed(unit),
    ensures
        opposite_forces(
            tire.forces(unit, fz, slip_angle, slip_ratio),
            tire.forces(unit, fz, negate(slip_angle), slip_ratio),
        ),
{
    let turned_over = negate(slip_angle);
    if !is_at_most(fz, AIRBORNE) {
        let most = times(unit, tire.grip(unit, tire.mu_lat, fz), fz);
        shapes(unit, slip_angle, turned_over, tire.b_lat, tire.c_lat, tire.e_lat);
        multiplies(
            unit,
            false,
            true,
            most,
            most,
            magic_formula(unit, slip_angle, tire.b_lat, tire.c_lat, tire.e_lat),
            magic_formula(unit, turned_over, tire.b_lat, tire.c_lat, tire.e_lat),
        );
        let fy0 = tire.pure_lateral(unit, fz, slip_angle);
        let fy02 = tire.pure_lateral(unit, fz, turned_over);
        assert(facing(true, fy0, fy02));
        divides(unit, true, fy0, fy02, most);
        let ny = over(unit, fy0, most);
        let ny2 = over(unit, fy02, most);
        multiplies(unit, true, true, ny, ny2, ny, ny2);
        let nx = over(
            unit,
            tire.pure_longitudinal(unit, fz, slip_ratio),
            times(unit, tire.grip(unit, tire.mu_long, fz), fz),
        );
        let nx_nx = times(unit, nx, nx);
        adds(unit, false, nx_nx, nx_nx, times(unit, ny, ny), times(unit, ny2, ny2));
        bends(
            unit,
            false,
            plus(unit, nx_nx, times(unit, ny, ny)),
            plus(unit, nx_nx, times(unit, ny2, ny2)),
        );
        let demand = tire.demand(unit, fz, slip_angle, slip_ratio);
        let demand2 = tire.demand(unit, fz, turned_over, slip_ratio);
        assert(like(demand, demand2));
        likes_compare_alike(demand, demand2, ONE);
        likes_compare_alike(demand, demand2, TWO);
        zero_is_nothing(demand);
        zero_is_nothing(demand2);
        let scale = if is_less(ONE, demand) {
            over(unit, ONE, demand)
        } else {
            ONE
        };
        let scale2 = if is_less(ONE, demand2) {
            over(unit, ONE, demand2)
        } else {
            ONE
        };
        assert(scale == scale2) by {
            if is_less(ONE, demand) {
                assert(scalar::exact(ONE) > 0) by {
                    scalar::lemma_measure_increases(0, ONE as int);
                    zero_is_nothing(ZERO);
                }
            }
        }
        multiplies(unit, true, false, fy0, fy02, scale, scale);
        let fy = times(unit, fy0, scale);
        let fy2 = times(unit, fy02, scale);
        facing_turns(true, fy, fy2);
        let left = minus(unit, ONE, min_of(demand, ONE));
        let left2 = minus(unit, ONE, min_of(demand2, ONE));
        adds(unit, false, ONE, ONE, min_of(demand, ONE), min_of(demand2, ONE));
        likes_compare_alike(left, left2, ZERO);
        multiplies(
            unit,
            false,
            false,
            tire.pneumatic_trail,
            tire.pneumatic_trail,
            max_of(left, ZERO),
            max_of(left2, ZERO),
        );
        multiplies(
            unit,
            true,
            false,
            negate(fy),
            negate(fy2),
            times(unit, tire.pneumatic_trail, max_of(left, ZERO)),
            times(unit, tire.pneumatic_trail, max_of(left2, ZERO)),
        );
    }
}

// --- the car in the mirror ----------------------------------------------------------

/// The corner on the other side of the same axle.
pub open spec fn across(corner: int) -> int {
    if corner == 0 {
        1
    } else if corner == 1 {
        0
    } else if corner == 2 {
        3
    } else {
        2
    }
}

/// A state that points to a side, and so turns over in the mirror.
pub open spec fn sided(index: int) -> bool {
    ||| index == IDX_VY
    ||| index == IDX_YAW_RATE
    ||| index == IDX_ROLL
    ||| index == IDX_ROLL_RATE
    ||| IDX_SLIP_ANGLE <= index < IDX_SLIP_RATIO
}

/// Where the mirror shows a state.
pub open spec fn counterpart(index: int) -> int {
    if index < IDX_HOP {
        index
    } else if index < IDX_HOP_RATE {
        IDX_HOP + across(index - IDX_HOP)
    } else if index < IDX_OMEGA {
        IDX_HOP_RATE + across(index - IDX_HOP_RATE)
    } else if index < IDX_SLIP_ANGLE {
        IDX_OMEGA + across(index - IDX_OMEGA)
    } else if index < IDX_SLIP_RATIO {
        IDX_SLIP_ANGLE + across(index - IDX_SLIP_ANGLE)
    } else {
        IDX_SLIP_RATIO + across(index - IDX_SLIP_RATIO)
    }
}

/// A state seen in a mirror.
pub open spec fn reflection(x: Seq<Scalar>) -> Seq<Scalar> {
    Seq::new(
        STATE_COUNT as nat,
        |i: int|
            if sided(i) {
                negate(x[counterpart(i)])
            } else {
                x[counterpart(i)]
            },
    )
}

impl Car {
    /// The car seen in a mirror: steered the other way, loaded the other way.
    pub open spec fn reflected(self) -> Car {
        Car {
            params: self.params,
            input: (DriverInput {
                steering_angle_command: negate(self.input.steering_angle_command),
                ..self.input
            }),
            previous_front_lateral: negate(self.previous_front_lateral),
            previous_rear_lateral: negate(self.previous_rear_lateral),
            previous_longitudinal: self.previous_longitudinal,
        }
    }

    /// No front wheel stands on the centre it turns about.
    pub open spec fn turns_clear<F: Fn(Operation) -> Scalar>(self, unit: &F) -> bool {
        let base = self.base_angle(unit, self.input.steering_angle_command);
        is_less(STRAIGHT, abs(base)) ==> {
            let radius = over(unit, self.params.base(unit), tan(unit, base));
            let offset = times(
                unit,
                times(unit, self.params.track_front, HALF),
                signum(base),
            );
            &&& !zero(tan(unit, base))
            &&& !zero(minus(unit, radius, offset))
            &&& !zero(plus(unit, radius, offset))
        }
    }
}

proof fn reflects(x: Seq<Scalar>, corner: int)
    requires
        x.len() == STATE_COUNT,
        0 <= corner < 4,
    ensures
        0 <= across(corner) < 4,
        across(across(corner)) == corner,
        reflection(x).len() == STATE_COUNT,
        reflection(x)[IDX_VX as int] == x[IDX_VX as int],
        reflection(x)[IDX_VY as int] == negate(x[IDX_VY as int]),
        reflection(x)[IDX_YAW_RATE as int] == negate(x[IDX_YAW_RATE as int]),
        reflection(x)[IDX_HEAVE as int] == x[IDX_HEAVE as int],
        reflection(x)[IDX_HEAVE_RATE as int] == x[IDX_HEAVE_RATE as int],
        reflection(x)[IDX_ROLL as int] == negate(x[IDX_ROLL as int]),
        reflection(x)[IDX_ROLL_RATE as int] == negate(x[IDX_ROLL_RATE as int]),
        reflection(x)[IDX_PITCH as int] == x[IDX_PITCH as int],
        reflection(x)[IDX_PITCH_RATE as int] == x[IDX_PITCH_RATE as int],
        reflection(x)[IDX_HOP + across(corner)] == x[IDX_HOP + corner],
        reflection(x)[IDX_HOP_RATE + across(corner)] == x[IDX_HOP_RATE + corner],
        reflection(x)[IDX_OMEGA + across(corner)] == x[IDX_OMEGA + corner],
        reflection(x)[IDX_SLIP_ANGLE + across(corner)] == negate(x[IDX_SLIP_ANGLE + corner]),
        reflection(x)[IDX_SLIP_RATIO + across(corner)] == x[IDX_SLIP_RATIO + corner],
{
}

proof fn stands_across<F: Fn(Operation) -> Scalar>(unit: &F, params: ReducedParams, corner: int)
    requires
        0 <= corner < 4,
    ensures
        params.aside(unit, across(corner)) == negate(params.aside(unit, corner)),
        params.ahead(across(corner)) == params.ahead(corner),
        params.resting(unit, across(corner)) == params.resting(unit, corner),
        params.spring(across(corner)) == params.spring(corner),
        params.damper(across(corner)) == params.damper(corner),
{
}

// --- steering -----------------------------------------------------------------------

proof fn rolls_free<F: Fn(Operation) -> Scalar>(
    unit: &F,
    car: Car,
    base: Scalar,
    base2: Scalar,
    inner: bool,
)
    requires
        even_handed(unit),
        facing(true, base, base2),
        is_less(STRAIGHT, abs(base)) ==> {
            let radius = over(unit, car.params.base(unit), tan(unit, base));
            let offset = times(
                unit,
                times(unit, car.params.track_front, HALF),
                signum(base),
            );
            &&& !zero(tan(unit, base))
            &&& !zero(minus(unit, radius, offset))
            &&& !zero(plus(unit, radius, offset))
        },
    ensures
        facing(true, car.split_angle(unit, base, inner), car.split_angle(unit, base2, inner)),
{
    zero_is_nothing(base);
    likes_compare_alike(negate(base), base2, STRAIGHT);
    assert(is_less(STRAIGHT, abs(base)) == is_less(STRAIGHT, abs(base2))) by {
        assert(abs(negate(base)) == abs(base));
        if is_nan(base) {
        } else {
            zero_is_nothing(base2);
            assert(abs(base2) == abs(base));
        }
    }
    if is_less(STRAIGHT, abs(base)) {
        let wheelbase = car.params.base(unit);
        let half = times(unit, car.params.track_front, HALF);
        assert(!zero(base) && !is_nan(base)) by {
            zero_is_nothing(abs(base));
            scalar::lemma_measure_increases(0, STRAIGHT as int);
            zero_is_nothing(ZERO);
        }
        assert(base2 == negate(base));
        bends(unit, true, base, base2);
        divides_across(unit, wheelbase, tan(unit, base), tan(unit, base2));
        let radius = over(unit, wheelbase, tan(unit, base));
        let radius2 = over(unit, wheelbase, tan(unit, base2));
        assert(facing(true, signum(base), signum(base2)));
        multiplies(unit, false, true, half, half, signum(base), signum(base2));
        let offset = times(unit, half, signum(base));
        let offset2 = times(unit, half, signum(base2));
        adds(unit, true, radius, radius2, offset, offset2);
        let arm = if inner {
            minus(unit, radius, offset)
        } else {
            plus(unit, radius, offset)
        };
        let arm2 = if inner {
            minus(unit, radius2, offset2)
        } else {
            plus(unit, radius2, offset2)
        };
        divides_across(unit, wheelbase, arm, arm2);
        bends(unit, true, over(unit, wheelbase, arm), over(unit, wheelbase, arm2));
    }
    let free = car.free_angle(unit, base, inner);
    let free2 = car.free_angle(unit, base2, inner);
    assert(facing(true, free, free2));
    adds(unit, true, free, free2, base, base2);
    multiplies(
        unit,
        false,
        true,
        ACKERMANN,
        ACKERMANN,
        minus(unit, free, base),
        minus(unit, free2, base2),
    );
    adds(
        unit,
        true,
        base,
        base2,
        times(unit, ACKERMANN, minus(unit, free, base)),
        times(unit, ACKERMANN, minus(unit, free2, base2)),
    );
}

/// Steering the other way turns the other wheel by the opposite angle.
pub proof fn law_steering_has_no_side<F: Fn(Operation) -> Scalar>(unit: &F, car: Car, corner: int)
    requires
        even_handed(unit),
        car.steerable(),
        car.turns_clear(unit),
        0 <= corner < 4,
    ensures
        facing(
            true,
            car.steered(unit, car.input.steering_angle_command).at(corner),
            car.reflected().steered(
                unit,
                car.reflected().input.steering_angle_command,
            ).at(across(corner)),
        ),
{
    let handwheel = car.input.steering_angle_command;
    let base = car.base_angle(unit, handwheel);
    let base2 = car.reflected().base_angle(unit, negate(handwheel));
    opposites_clamp_opposite(handwheel, car.params.rack_limit);
    divides(
        unit,
        true,
        car.racked(handwheel),
        car.racked(negate(handwheel)),
        car.params.steer_ratio,
    );
    assert(facing(true, base, base2));
    rolls_free(unit, car, base, base2, true);
    rolls_free(unit, car, base, base2, false);
    let left = is_at_most(ZERO, base);
    let left2 = is_at_most(ZERO, base2);
    zero_is_nothing(base);
    zero_is_nothing(base2);
    zero_is_nothing(ZERO);
    if is_less(STRAIGHT, abs(base)) {
        zero_is_nothing(abs(base));
        scalar::lemma_measure_increases(0, STRAIGHT as int);
        assert(left2 == !left);
    } else {
        assert(car.split_angle(unit, base, true) == car.split_angle(unit, base, false));
        likes_compare_alike(negate(base), base2, STRAIGHT);
        assert(abs(negate(base)) == abs(base));
        assert(!is_less(STRAIGHT, abs(base2)));
        assert(car.split_angle(unit, base2, true) == car.split_angle(unit, base2, false));
    }
}

// --- forces -------------------------------------------------------------------------

proof fn carries<F: Fn(Operation) -> Scalar>(unit: &F, car: Car, x: Seq<Scalar>, corner: int)
    requires
        even_handed(unit),
        x.len() == STATE_COUNT,
        0 <= corner < 4,
    ensures
        like(
            car.vertical(unit, x, corner),
            car.reflected().vertical(unit, reflection(x), across(corner)),
        ),
        !is_nan(car.vertical(unit, x, corner)),
{
    let car2 = car.reflected();
    let x2 = reflection(x);
    let corner2 = across(corner);
    let p = car.params;
    reflects(x, corner);
    stands_across(unit, p, corner);
    let sprung = minus(
        unit,
        minus(
            unit,
            p.resting(unit, corner),
            times(unit, p.tire_vertical_rate, x[IDX_HOP + corner]),
        ),
        times(unit, p.tire_vertical_damping, x[IDX_HOP_RATE + corner]),
    );
    let loaded = plus(unit, sprung, car.aero_share(unit, x[IDX_VX as int], corner));
    let geo = car.geometric_lateral(unit, corner);
    let geo2 = car2.geometric_lateral(unit, corner2);
    assert(facing(true, geo, geo2)) by {
        if corner < 2 {
            let a = car.previous_front_lateral;
            multiplies(
                unit,
                true,
                false,
                a,
                negate(a),
                p.roll_centre_front,
                p.roll_centre_front,
            );
            divides(
                unit,
                true,
                times(unit, a, p.roll_centre_front),
                times(unit, negate(a), p.roll_centre_front),
                p.track_front,
            );
        } else {
            let a = car.previous_rear_lateral;
            multiplies(
                unit,
                true,
                false,
                a,
                negate(a),
                p.roll_centre_rear,
                p.roll_centre_rear,
            );
            divides(
                unit,
                true,
                times(unit, a, p.roll_centre_rear),
                times(unit, negate(a), p.roll_centre_rear),
                p.track_rear,
            );
        }
    }
    let side = negate(signum(p.aside(unit, corner)));
    let side2 = negate(signum(p.aside(unit, corner2)));
    assert(facing(true, side, side2));
    multiplies(unit, true, true, side, side2, geo, geo2);
    adds(unit, false, loaded, loaded, times(unit, side, geo), times(unit, side2, geo2));
    let sideways = plus(unit, loaded, times(unit, side, geo));
    let sideways2 = plus(unit, loaded, times(unit, side2, geo2));
    let along = times(
        unit,
        if corner < 2 {
            MINUS_ONE
        } else {
            ONE
        },
        car.geometric_longitudinal(unit),
    );
    adds(unit, false, sideways, sideways2, along, along);
    likes_compare_alike(plus(unit, sideways, along), plus(unit, sideways2, along), ZERO);
}

proof fn pulls<F: Fn(Operation) -> Scalar>(unit: &F, car: Car, x: Seq<Scalar>, corner: int)
    requires
        even_handed(unit),
        x.len() == STATE_COUNT,
        0 <= corner < 4,
    ensures
        opposite_forces(
            car.patch(unit, x, corner),
            car.reflected().patch(unit, reflection(x), across(corner)),
        ),
{
    let fz = car.vertical(unit, x, corner);
    let fz2 = car.reflected().vertical(unit, reflection(x), across(corner));
    carries(unit, car, x, corner);
    reflects(x, corner);
    likes_compare_alike(fz, fz2, AIRBORNE);
    if !is_at_most(fz, AIRBORNE) {
        zero_is_nothing(fz);
        zero_is_nothing(fz2);
        scalar::lemma_measure_increases(0, AIRBORNE as int);
        zero_is_nothing(ZERO);
        assert(fz == fz2);
        law_a_tire_has_no_side(
            unit,
            car.params.tire,
            fz,
            x[IDX_SLIP_ANGLE + corner],
            x[IDX_SLIP_RATIO + corner],
        );
    }
}

/// A force in the body frame, against its mirror image.
pub open spec fn opposite_pull(a: BodyForce, b: BodyForce) -> bool {
    like(a.x, b.x) && facing(true, a.y, b.y)
}

proof fn turns<F: Fn(Operation) -> Scalar>(
    unit: &F,
    force: TireForces,
    force2: TireForces,
    angle: Scalar,
    angle2: Scalar,
)
    requires
        even_handed(unit),
        opposite_forces(force, force2),
        facing(true, angle, angle2),
    ensures
        opposite_pull(
            reduced::turned(unit, force, angle),
            reduced::turned(unit, force2, angle2),
        ),
{
    let (c, c2) = (cos(unit, angle), cos(unit, angle2));
    let (s, s2) = (sin(unit, angle), sin(unit, angle2));
    bends(unit, true, angle, angle2);
    multiplies(unit, false, false, force.fx, force2.fx, c, c2);
    multiplies(unit, true, true, force.fy, force2.fy, s, s2);
    multiplies(unit, false, true, force.fx, force2.fx, s, s2);
    multiplies(unit, true, false, force.fy, force2.fy, c, c2);
    adds(
        unit,
        false,
        times(unit, force.fx, c),
        times(unit, force2.fx, c2),
        times(unit, force.fy, s),
        times(unit, force2.fy, s2),
    );
    adds(
        unit,
        true,
        times(unit, force.fx, s),
        times(unit, force2.fx, s2),
        times(unit, force.fy, c),
        times(unit, force2.fy, c2),
    );
}

/// What the mirror makes of the loads that belong to one corner or one axle.
pub open spec fn opposite_loads(a: Loads, b: Loads) -> bool {
    &&& forall|corner: int|
        0 <= corner < 4 ==> {
            &&& like(#[trigger] a.fz.at(corner), b.fz.at(across(corner)))
            &&& opposite_forces(a.forces.at(corner), b.forces.at(across(corner)))
            &&& facing(true, a.steer.at(corner), b.steer.at(across(corner)))
            &&& opposite_pull(a.body.at(corner), b.body.at(across(corner)))
        }
    &&& facing(true, a.front_lateral, b.front_lateral)
    &&& facing(true, a.rear_lateral, b.rear_lateral)
    &&& facing(true, a.kingpin_torque, b.kingpin_torque)
}

/// Two terms added up from nothing, either way round.
proof fn pairs<F: Fn(Operation) -> Scalar>(unit: &F, a: Scalar, a2: Scalar, b: Scalar, b2: Scalar)
    requires
        even_handed(unit),
        facing(true, a, b2),
        facing(true, b, a2),
    ensures
        facing(
            true,
            plus(unit, plus(unit, ZERO, a), b),
            plus(unit, plus(unit, ZERO, a2), b2),
        ),
{
    assert(adds_either_way(unit, a, b));
    assert(adds_either_way(unit, a2, b2));
    assert(adds_evenly(unit, false, plus(unit, ZERO, a), a, b, b));
    assert(adds_evenly(unit, true, b, a2, a, b2));
    facing_turns(false, plus(unit, ZERO, a2), a2);
    assert(adds_evenly(unit, false, a2, plus(unit, ZERO, a2), b2, b2));
    let total = plus(unit, plus(unit, ZERO, a), b);
    facing_chains(false, false, total, plus(unit, a, b), plus(unit, b, a));
    facing_chains(false, true, total, plus(unit, b, a), plus(unit, a2, b2));
    facing_chains(
        true,
        false,
        total,
        plus(unit, a2, b2),
        plus(unit, plus(unit, ZERO, a2), b2),
    );
}

/// Every load on a corner or an axle mirrors.
pub proof fn law_corner_loads_have_no_side<F: Fn(Operation) -> Scalar>(
    unit: &F,
    car: Car,
    x: Seq<Scalar>,
)
    requires
        even_handed(unit),
        car.steerable(),
        car.turns_clear(unit),
        x.len() == STATE_COUNT,
    ensures
        opposite_loads(car.loads(unit, x), car.reflected().loads(unit, reflection(x))),
{
    let a = car.loads(unit, x);
    let b = car.reflected().loads(unit, reflection(x));
    assert forall|corner: int| 0 <= corner < 4 implies {
        &&& like(#[trigger] a.fz.at(corner), b.fz.at(across(corner)))
        &&& opposite_forces(a.forces.at(corner), b.forces.at(across(corner)))
        &&& facing(true, a.steer.at(corner), b.steer.at(across(corner)))
        &&& opposite_pull(a.body.at(corner), b.body.at(across(corner)))
    } by {
        carries(unit, car, x, corner);
        pulls(unit, car, x, corner);
        law_steering_has_no_side(unit, car, corner);
        turns(
            unit,
            a.forces.at(corner),
            b.forces.at(across(corner)),
            a.steer.at(corner),
            b.steer.at(across(corner)),
        );
    }
    assert(like(a.fz.at(0), b.fz.at(1)));
    assert(like(a.fz.at(1), b.fz.at(0)));
    assert(like(a.fz.at(2), b.fz.at(3)));
    assert(like(a.fz.at(3), b.fz.at(2)));
    pairs(unit, a.body.fl.y, b.body.fl.y, a.body.fr.y, b.body.fr.y);
    pairs(unit, a.body.rl.y, b.body.rl.y, a.body.rr.y, b.body.rr.y);
    let trail = car.params.mechanical_trail;
    multiplies(unit, true, false, a.forces.fl.fy, b.forces.fr.fy, trail, trail);
    multiplies(unit, true, false, a.forces.fr.fy, b.forces.fl.fy, trail, trail);
    adds(
        unit,
        true,
        a.forces.fl.mz,
        b.forces.fr.mz,
        times(unit, a.forces.fl.fy, trail),
        times(unit, b.forces.fr.fy, trail),
    );
    adds(
        unit,
        true,
        a.forces.fr.mz,
        b.forces.fl.mz,
        times(unit, a.forces.fr.fy, trail),
        times(unit, b.forces.fl.fy, trail),
    );
    pairs(
        unit,
        car.kingpin(unit, a.forces.fl),
        car.reflected().kingpin(unit, b.forces.fl),
        car.kingpin(unit, a.forces.fr),
        car.reflected().kingpin(unit, b.forces.fr),
    );
}

// --- suspension ---------------------------------------------------------------------

proof fn lifts<F: Fn(Operation) -> Scalar>(
    unit: &F,
    car: Car,
    heave: Scalar,
    pitch: Scalar,
    roll: Scalar,
    corner: int,
)
    requires
        even_handed(unit),
        0 <= corner < 4,
    ensures
        like(
            car.lifted(unit, heave, pitch, roll, corner),
            car.reflected().lifted(unit, heave, pitch, negate(roll), across(corner)),
        ),
{
    let p = car.params;
    stands_across(unit, p, corner);
    let level = plus(unit, heave, times(unit, p.ahead(corner), pitch));
    multiplies(
        unit,
        true,
        true,
        p.aside(unit, corner),
        p.aside(unit, across(corner)),
        roll,
        negate(roll),
    );
    adds(
        unit,
        false,
        level,
        level,
        times(unit, p.aside(unit, corner), roll),
        times(unit, p.aside(unit, across(corner)), negate(roll)),
    );
}

proof fn squeezes<F: Fn(Operation) -> Scalar>(unit: &F, car: Car, x: Seq<Scalar>, corner: int)
    requires
        even_handed(unit),
        x.len() == STATE_COUNT,
        0 <= corner < 4,
    ensures
        like(
            car.compression(unit, x, corner),
            car.reflected().compression(unit, reflection(x), across(corner)),
        ),
        like(
            car.strut(unit, x, corner),
            car.reflected().strut(unit, reflection(x), across(corner)),
        ),
{
    let car2 = car.reflected();
    let x2 = reflection(x);
    let corner2 = across(corner);
    let p = car.params;
    reflects(x, corner);
    stands_across(unit, p, corner);
    let (heave, pitch, roll) = (x[IDX_HEAVE as int], x[IDX_PITCH as int], x[IDX_ROLL as int]);
    lifts(unit, car, heave, pitch, roll, corner);
    let hop = x[IDX_HOP + corner];
    adds(
        unit,
        false,
        hop,
        hop,
        car.lifted(unit, heave, pitch, roll, corner),
        car2.lifted(unit, heave, pitch, negate(roll), corner2),
    );
    let (heave_rate, pitch_rate, roll_rate) = (
        x[IDX_HEAVE_RATE as int],
        x[IDX_PITCH_RATE as int],
        x[IDX_ROLL_RATE as int],
    );
    lifts(unit, car, heave_rate, pitch_rate, roll_rate, corner);
    let hop_rate = x[IDX_HOP_RATE + corner];
    adds(
        unit,
        false,
        hop_rate,
        hop_rate,
        car.lifted(unit, heave_rate, pitch_rate, roll_rate, corner),
        car2.lifted(unit, heave_rate, pitch_rate, negate(roll_rate), corner2),
    );
    let (c, c2) = (car.compression(unit, x, corner), car2.compression(unit, x2, corner2));
    let (r, r2) = (
        car.compression_rate(unit, x, corner),
        car2.compression_rate(unit, x2, corner2),
    );
    let resting = minus(
        unit,
        p.resting(unit, corner),
        times(unit, p.unsprung_mass, GRAVITY),
    );
    let (spring, damper) = (p.spring(corner), p.damper(corner));
    multiplies(unit, false, false, spring, spring, c, c2);
    multiplies(unit, false, false, damper, damper, r, r2);
    adds(unit, false, resting, resting, times(unit, spring, c), times(unit, spring, c2));
    adds(
        unit,
        false,
        plus(unit, resting, times(unit, spring, c)),
        plus(unit, resting, times(unit, spring, c2)),
        times(unit, damper, r),
        times(unit, damper, r2),
    );
}

proof fn resists<F: Fn(Operation) -> Scalar>(unit: &F, car: Car, x: Seq<Scalar>, front: bool)
    requires
        even_handed(unit),
        x.len() == STATE_COUNT,
    ensures
        facing(true, car.bar(unit, x, front), car.reflected().bar(unit, reflection(x), front)),
{
    let car2 = car.reflected();
    let x2 = reflection(x);
    let left: int = if front {
        0
    } else {
        2
    };
    squeezes(unit, car, x, left);
    squeezes(unit, car, x, left + 1);
    let (a, b) = (car.compression(unit, x, left), car.compression(unit, x, left + 1));
    let (a2, b2) = (car2.compression(unit, x2, left), car2.compression(unit, x2, left + 1));
    subtracts_across(unit, a, a2, b, b2);
    let (stiffness, track) = if front {
        (car.params.arb_front, car.params.track_front)
    } else {
        (car.params.arb_rear, car.params.track_rear)
    };
    multiplies(
        unit,
        false,
        true,
        stiffness,
        stiffness,
        minus(unit, a, b),
        minus(unit, a2, b2),
    );
    divides(
        unit,
        true,
        times(unit, stiffness, minus(unit, a, b)),
        times(unit, stiffness, minus(unit, a2, b2)),
        track,
    );
}

/// Spring, damper and anti-roll bar carry on the other corner what they carried
/// on this one.
pub proof fn law_suspension_has_no_side<F: Fn(Operation) -> Scalar>(
    unit: &F,
    car: Car,
    x: Seq<Scalar>,
    corner: int,
)
    requires
        even_handed(unit),
        x.len() == STATE_COUNT,
        0 <= corner < 4,
    ensures
        like(
            car.suspension(unit, x).at(corner),
            car.reflected().suspension(unit, reflection(x)).at(across(corner)),
        ),
{
    let front = corner < 2;
    let car2 = car.reflected();
    let x2 = reflection(x);
    squeezes(unit, car, x, corner);
    resists(unit, car, x, front);
    adds_across(
        unit,
        car.strut(unit, x, corner),
        car2.strut(unit, x2, across(corner)),
        car.bar(unit, x, front),
        car2.bar(unit, x2, front),
    );
}

// --- wheels -------------------------------------------------------------------------

proof fn drives<F: Fn(Operation) -> Scalar>(unit: &F, car: Car, x: Seq<Scalar>, corner: int)
    requires
        even_handed(unit),
        x.len() == STATE_COUNT,
        0 <= corner < 4,
    ensures
        like(
            car.drive_torque(unit, x, corner),
            car.reflected().drive_torque(unit, reflection(x), across(corner)),
        ),
{
    let car2 = car.reflected();
    let x2 = reflection(x);
    let p = car.params;
    reflects(x, 2);
    reflects(x, 3);
    let (l, r) = (x[IDX_OMEGA + 2], x[IDX_OMEGA + 3]);
    let (l2, r2) = (x2[IDX_OMEGA + 2], x2[IDX_OMEGA + 3]);
    subtracts_across(unit, l, l2, r, r2);
    // What the motor gives.
    multiplies(unit, false, false, HALF, HALF, plus(unit, l, r), plus(unit, l2, r2));
    let spin = times(unit, HALF, plus(unit, l, r));
    let spin2 = times(unit, HALF, plus(unit, l2, r2));
    multiplies(unit, false, false, spin, spin2, p.final_drive, p.final_drive);
    let speed = times(unit, spin, p.final_drive);
    let speed2 = times(unit, spin2, p.final_drive);
    let torque = car.torque_at(unit, speed);
    let torque2 = car2.torque_at(unit, speed2);
    assert(like(torque, torque2)) by {
        likes_compare_alike(speed, speed2, ZERO);
        likes_compare_alike(abs(speed), abs(speed2), p.motor_max_speed);
        likes_compare_alike(abs(speed), abs(speed2), p.motor_corner_speed);
        let most = times(unit, p.motor_peak_torque, p.motor_corner_speed);
        if is_nan(abs(speed)) {
            assert(divides_evenly(unit, false, false, most, most, abs(speed), abs(speed2)));
        }
    }
    let demand = clamp(car.input.accelerator_pedal_command, ZERO, ONE);
    multiplies(unit, false, false, demand, demand, torque, torque2);
    multiplies(
        unit,
        false,
        false,
        times(unit, demand, torque),
        times(unit, demand, torque2),
        p.final_drive,
        p.final_drive,
    );
    let axle = car.axle_torque(unit, x);
    let axle2 = car2.axle_torque(unit, x2);
    multiplies(unit, false, false, HALF, HALF, axle, axle2);
    // What the differential moves across.
    let apart = minus(unit, l, r);
    let apart2 = minus(unit, l2, r2);
    divides(unit, true, apart, apart2, p.omega_epsilon);
    let slip = over(unit, apart, p.omega_epsilon);
    let slip2 = over(unit, apart2, p.omega_epsilon);
    bends(unit, true, slip, slip2);
    multiplies(
        unit,
        false,
        true,
        p.diff_preload,
        p.diff_preload,
        tanh(unit, slip),
        tanh(unit, slip2),
    );
    multiplies(unit, false, true, p.diff_lock_gain, p.diff_lock_gain, apart, apart2);
    adds(
        unit,
        true,
        times(unit, p.diff_preload, tanh(unit, slip)),
        times(unit, p.diff_preload, tanh(unit, slip2)),
        times(unit, p.diff_lock_gain, apart),
        times(unit, p.diff_lock_gain, apart2),
    );
    adds_across(
        unit,
        times(unit, HALF, axle),
        times(unit, HALF, axle2),
        car.lock_torque(unit, x),
        car2.lock_torque(unit, x2),
    );
}

proof fn spins<F: Fn(Operation) -> Scalar>(unit: &F, car: Car, x: Seq<Scalar>, corner: int)
    requires
        even_handed(unit),
        car.steerable(),
        car.turns_clear(unit),
        x.len() == STATE_COUNT,
        0 <= corner < 4,
    ensures
        like(
            car.spin_acceleration(unit, x, corner),
            car.reflected().spin_acceleration(unit, reflection(x), across(corner)),
        ),
{
    let car2 = car.reflected();
    let x2 = reflection(x);
    let corner2 = across(corner);
    let p = car.params;
    reflects(x, corner);
    drives(unit, car, x, corner);
    law_corner_loads_have_no_side(unit, car, x);
    assert(like(
        car.loads(unit, x).fz.at(corner),
        car2.loads(unit, x2).fz.at(corner2),
    ));
    let fx = car.loads(unit, x).forces.at(corner).fx;
    let fx2 = car2.loads(unit, x2).forces.at(corner2).fx;
    facing_turns(false, fx, fx2);
    multiplies(unit, false, false, negate(fx), negate(fx2), p.wheel_radius, p.wheel_radius);
    let brake = car.brake_torque(unit, x, corner);
    assert(car2.brake_torque(unit, x2, corner2) == brake);
    let drive = car.drive_torque(unit, x, corner);
    let drive2 = car2.drive_torque(unit, x2, corner2);
    adds(unit, false, drive, drive2, brake, brake);
    adds(
        unit,
        false,
        plus(unit, drive, brake),
        plus(unit, drive2, brake),
        times(unit, negate(fx), p.wheel_radius),
        times(unit, negate(fx2), p.wheel_radius),
    );
    divides(
        unit,
        false,
        plus(unit, plus(unit, drive, brake), times(unit, negate(fx), p.wheel_radius)),
        plus(unit, plus(unit, drive2, brake), times(unit, negate(fx2), p.wheel_radius)),
        p.wheel_inertia,
    );
}

proof fn rolls<F: Fn(Operation) -> Scalar>(unit: &F, car: Car, x: Seq<Scalar>, corner: int)
    requires
        even_handed(unit),
        car.steerable(),
        car.turns_clear(unit),
        x.len() == STATE_COUNT,
        0 <= corner < 4,
    ensures
        opposite_pull(
            car.patch_velocity(unit, x, corner),
            car.reflected().patch_velocity(unit, reflection(x), across(corner)),
        ),
{
    let car2 = car.reflected();
    let x2 = reflection(x);
    let corner2 = across(corner);
    let p = car.params;
    reflects(x, corner);
    stands_across(unit, p, corner);
    let yaw = x[IDX_YAW_RATE as int];
    let (y, y2) = (p.aside(unit, corner), p.aside(unit, corner2));
    multiplies(unit, true, true, yaw, negate(yaw), y, y2);
    let forward = x[IDX_VX as int];
    adds(
        unit,
        false,
        forward,
        forward,
        times(unit, yaw, y),
        times(unit, negate(yaw), y2),
    );
    let vx = minus(unit, forward, times(unit, yaw, y));
    let vx2 = minus(unit, forward, times(unit, negate(yaw), y2));
    let ahead = p.ahead(corner);
    multiplies(unit, true, false, yaw, negate(yaw), ahead, ahead);
    let across_speed = x[IDX_VY as int];
    adds(
        unit,
        true,
        across_speed,
        negate(across_speed),
        times(unit, yaw, ahead),
        times(unit, negate(yaw), ahead),
    );
    let vy = plus(unit, across_speed, times(unit, yaw, ahead));
    let vy2 = plus(unit, negate(across_speed), times(unit, negate(yaw), ahead));
    law_steering_has_no_side(unit, car, corner);
    let delta = car.loads(unit, x).steer.at(corner);
    let delta2 = car2.loads(unit, x2).steer.at(corner2);
    bends(unit, true, delta, delta2);
    let (c, c2) = (cos(unit, delta), cos(unit, delta2));
    let (s, s2) = (sin(unit, delta), sin(unit, delta2));
    facing_turns(false, vx, vx2);
    multiplies(unit, false, false, vx, vx2, c, c2);
    multiplies(unit, true, true, vy, vy2, s, s2);
    adds(
        unit,
        false,
        times(unit, vx, c),
        times(unit, vx2, c2),
        times(unit, vy, s),
        times(unit, vy2, s2),
    );
    multiplies(unit, false, true, negate(vx), negate(vx2), s, s2);
    multiplies(unit, true, false, vy, vy2, c, c2);
    adds(
        unit,
        true,
        times(unit, negate(vx), s),
        times(unit, negate(vx2), s2),
        times(unit, vy, c),
        times(unit, vy2, c2),
    );
}

proof fn slips<F: Fn(Operation) -> Scalar>(unit: &F, car: Car, x: Seq<Scalar>, corner: int)
    requires
        even_handed(unit),
        car.steerable(),
        car.turns_clear(unit),
        x.len() == STATE_COUNT,
        0 <= corner < 4,
    ensures
        facing(
            true,
            car.slip_angle_rate(unit, x, corner),
            car.reflected().slip_angle_rate(unit, reflection(x), across(corner)),
        ),
        like(
            car.slip_ratio_rate(unit, x, corner),
            car.reflected().slip_ratio_rate(unit, reflection(x), across(corner)),
        ),
{
    let car2 = car.reflected();
    let x2 = reflection(x);
    let corner2 = across(corner);
    let p = car.params;
    reflects(x, corner);
    rolls(unit, car, x, corner);
    let v = car.patch_velocity(unit, x, corner);
    let v2 = car2.patch_velocity(unit, x2, corner2);
    likes_compare_alike(v.x, v2.x, p.speed_floor);
    let along = max_of(abs(v.x), p.speed_floor);
    assert(max_of(abs(v2.x), p.speed_floor) == along);
    // Sideways.
    divides(unit, true, v.y, v2.y, along);
    bends(unit, true, over(unit, v.y, along), over(unit, v2.y, along));
    let target = atan(unit, over(unit, v.y, along));
    let target2 = atan(unit, over(unit, v2.y, along));
    facing_turns(true, target, target2);
    let angle = x[IDX_SLIP_ANGLE + corner];
    adds(unit, true, negate(target), negate(target2), angle, negate(angle));
    let relax = TireParams::relaxation(
        unit,
        v.x,
        p.tire.relaxation_lateral,
        p.speed_floor,
    );
    multiplies(
        unit,
        false,
        true,
        relax,
        relax,
        minus(unit, negate(target), angle),
        minus(unit, negate(target2), negate(angle)),
    );
    // Along.
    let rim = times(unit, x[IDX_OMEGA + corner], p.wheel_radius);
    adds(unit, false, rim, rim, v.x, v2.x);
    divides(unit, false, minus(unit, rim, v.x), minus(unit, rim, v2.x), along);
    let ratio = over(unit, minus(unit, rim, v.x), along);
    let ratio2 = over(unit, minus(unit, rim, v2.x), along);
    likes_clamp_alike(ratio, ratio2, MINUS_FOUR, FOUR);
    let held = x[IDX_SLIP_RATIO + corner];
    adds(
        unit,
        false,
        clamp(ratio, MINUS_FOUR, FOUR),
        clamp(ratio2, MINUS_FOUR, FOUR),
        held,
        held,
    );
    let catching_up = TireParams::relaxation(
        unit,
        v.x,
        p.tire.relaxation_longitudinal,
        p.speed_floor,
    );
    multiplies(
        unit,
        false,
        false,
        catching_up,
        catching_up,
        minus(unit, clamp(ratio, MINUS_FOUR, FOUR), held),
        minus(unit, clamp(ratio2, MINUS_FOUR, FOUR), held),
    );
}

proof fn hops<F: Fn(Operation) -> Scalar>(unit: &F, car: Car, x: Seq<Scalar>, corner: int)
    requires
        even_handed(unit),
        x.len() == STATE_COUNT,
        0 <= corner < 4,
    ensures
        like(
            car.hop_acceleration(unit, x, corner),
            car.reflected().hop_acceleration(unit, reflection(x), across(corner)),
        ),
{
    let car2 = car.reflected();
    let x2 = reflection(x);
    let corner2 = across(corner);
    let m = car.params.unsprung_mass;
    let weight = times(unit, m, GRAVITY);
    carries(unit, car, x, corner);
    law_suspension_has_no_side(unit, car, x, corner);
    let (fz, fz2) = (car.vertical(unit, x, corner), car2.vertical(unit, x2, corner2));
    assert(car.loads(unit, x).fz.at(corner) == fz);
    assert(car2.loads(unit, x2).fz.at(corner2) == fz2);
    let (s, s2) = (
        car.suspension(unit, x).at(corner),
        car2.suspension(unit, x2).at(corner2),
    );
    adds(unit, false, fz, fz2, s, s2);
    adds(unit, false, minus(unit, fz, s), minus(unit, fz2, s2), weight, weight);
    divides(
        unit,
        false,
        minus(unit, minus(unit, fz, s), weight),
        minus(unit, minus(unit, fz2, s2), weight),
        m,
    );
}

// --- the whole car ------------------------------------------------------------------

/// Adding the two corners of each axle the other way round rounds alike.
pub open spec fn level<F: Fn(Operation) -> Scalar>(
    unit: &F,
    start: Scalar,
    a: Scalar,
    b: Scalar,
    c: Scalar,
    d: Scalar,
) -> bool {
    like(
        reduced::sum_from(unit, start, a, b, c, d),
        reduced::sum_from(unit, start, b, a, d, c),
    )
}

impl Car {
    /// Lateral throw of the sprung mass about its roll axis.
    pub open spec fn thrown_aside<F: Fn(Operation) -> Scalar>(self, unit: &F, x: Seq<Scalar>) -> Scalar {
        let p = self.params;
        times(
            unit,
            times(unit, p.sprung_mass, self.loads(unit, x).accel_y),
            minus(
                unit,
                p.cg_height,
                times(unit, HALF, plus(unit, p.roll_centre_front, p.roll_centre_rear)),
            ),
        )
    }

    /// Longitudinal throw of the sprung mass about its pitch axis.
    pub open spec fn thrown_ahead<F: Fn(Operation) -> Scalar>(self, unit: &F, x: Seq<Scalar>) -> Scalar {
        let p = self.params;
        times(
            unit,
            times(unit, p.sprung_mass, self.loads(unit, x).accel_x),
            minus(unit, p.cg_height, p.pitch_centre),
        )
    }

    /// Every total over the four corners rounds alike from either side.
    pub open spec fn is_level<F: Fn(Operation) -> Scalar>(self, unit: &F, x: Seq<Scalar>) -> bool {
        let p = self.params;
        let body = self.loads(unit, x).body;
        let s = self.suspension(unit, x);
        &&& level(unit, ZERO, body.fl.x, body.fr.x, body.rl.x, body.rr.x)
        &&& level(unit, ZERO, body.fl.y, body.fr.y, body.rl.y, body.rr.y)
        &&& level(
            unit,
            ZERO,
            self.yawing(unit, body.fl, 0),
            self.yawing(unit, body.fr, 1),
            self.yawing(unit, body.rl, 2),
            self.yawing(unit, body.rr, 3),
        )
        &&& level(unit, ZERO, s.fl, s.fr, s.rl, s.rr)
        &&& level(
            unit,
            self.thrown_aside(unit, x),
            times(unit, s.fl, p.aside(unit, 0)),
            times(unit, s.fr, p.aside(unit, 1)),
            times(unit, s.rl, p.aside(unit, 2)),
            times(unit, s.rr, p.aside(unit, 3)),
        )
        &&& level(
            unit,
            self.thrown_ahead(unit, x),
            times(unit, s.fl, p.ahead(0)),
            times(unit, s.fr, p.ahead(1)),
            times(unit, s.rl, p.ahead(2)),
            times(unit, s.rr, p.ahead(3)),
        )
    }
}

proof fn totals<F: Fn(Operation) -> Scalar>(
    unit: &F,
    flips: bool,
    start: Scalar,
    start2: Scalar,
    t: Seq<Scalar>,
    t2: Seq<Scalar>,
)
    requires
        even_handed(unit),
        t.len() == 4,
        t2.len() == 4,
        facing(flips, start, start2),
        forall|i: int| 0 <= i < 4 ==> facing(flips, #[trigger] t[i], t2[across(i)]),
        level(unit, start, t[0], t[1], t[2], t[3]),
    ensures
        facing(
            flips,
            reduced::sum_from(unit, start, t[0], t[1], t[2], t[3]),
            reduced::sum_from(unit, start2, t2[0], t2[1], t2[2], t2[3]),
        ),
{
    let one = plus(unit, start, t[1]);
    let one2 = plus(unit, start2, t2[0]);
    adds(unit, flips, start, start2, t[1], t2[0]);
    let two = plus(unit, one, t[0]);
    let two2 = plus(unit, one2, t2[1]);
    adds(unit, flips, one, one2, t[0], t2[1]);
    let three = plus(unit, two, t[3]);
    let three2 = plus(unit, two2, t2[2]);
    adds(unit, flips, two, two2, t[3], t2[2]);
    adds(unit, flips, three, three2, t[2], t2[3]);
    facing_chains(
        false,
        flips,
        reduced::sum_from(unit, start, t[0], t[1], t[2], t[3]),
        reduced::sum_from(unit, start, t[1], t[0], t[3], t[2]),
        reduced::sum_from(unit, start2, t2[0], t2[1], t2[2], t2[3]),
    );
}

proof fn sums_up<F: Fn(Operation) -> Scalar>(unit: &F, car: Car, x: Seq<Scalar>)
    requires
        even_handed(unit),
        car.steerable(),
        car.turns_clear(unit),
        car.is_level(unit, x),
        x.len() == STATE_COUNT,
    ensures
        like(
            car.loads(unit, x).body_fx,
            car.reflected().loads(unit, reflection(x)).body_fx,
        ),
        facing(
            true,
            car.loads(unit, x).body_fy,
            car.reflected().loads(unit, reflection(x)).body_fy,
        ),
        like(
            car.loads(unit, x).accel_x,
            car.reflected().loads(unit, reflection(x)).accel_x,
        ),
        facing(
            true,
            car.loads(unit, x).accel_y,
            car.reflected().loads(unit, reflection(x)).accel_y,
        ),
{
    let a = car.loads(unit, x);
    let b = car.reflected().loads(unit, reflection(x));
    law_corner_loads_have_no_side(unit, car, x);
    reflects(x, 0);
    assert forall|i: int| 0 <= i < 4 implies opposite_pull(
        #[trigger] a.body.at(i),
        b.body.at(across(i)),
    ) by {
        assert(like(a.fz.at(i), b.fz.at(across(i))));
    }
    assert(opposite_pull(a.body.at(0), b.body.at(1)));
    assert(opposite_pull(a.body.at(1), b.body.at(0)));
    assert(opposite_pull(a.body.at(2), b.body.at(3)));
    assert(opposite_pull(a.body.at(3), b.body.at(2)));
    totals(
        unit,
        false,
        ZERO,
        ZERO,
        seq![a.body.fl.x, a.body.fr.x, a.body.rl.x, a.body.rr.x],
        seq![b.body.fl.x, b.body.fr.x, b.body.rl.x, b.body.rr.x],
    );
    totals(
        unit,
        true,
        ZERO,
        ZERO,
        seq![a.body.fl.y, a.body.fr.y, a.body.rl.y, a.body.rr.y],
        seq![b.body.fl.y, b.body.fr.y, b.body.rl.y, b.body.rr.y],
    );
    let m = car.params.mass;
    let drag = car.drag(unit, x[IDX_VX as int]);
    assert(car.reflected().drag(unit, reflection(x)[IDX_VX as int]) == drag);
    adds(unit, false, a.body_fx, b.body_fx, drag, drag);
    divides(unit, false, minus(unit, a.body_fx, drag), minus(unit, b.body_fx, drag), m);
    divides(unit, true, a.body_fy, b.body_fy, m);
}

proof fn heads<F: Fn(Operation) -> Scalar>(unit: &F, car: Car, x: Seq<Scalar>)
    requires
        even_handed(unit),
        car.steerable(),
        car.turns_clear(unit),
        car.is_level(unit, x),
        x.len() == STATE_COUNT,
    ensures
        forall|i: int|
            0 <= i < 3 ==> facing(
                sided(i),
                #[trigger] car.planar(unit, x, i),
                car.reflected().planar(unit, reflection(x), i),
            ),
{
    let car2 = car.reflected();
    let x2 = reflection(x);
    let p = car.params;
    let a = car.loads(unit, x);
    let b = car2.loads(unit, x2);
    sums_up(unit, car, x);
    reflects(x, 0);
    let (vx, vy, yaw) = (x[IDX_VX as int], x[IDX_VY as int], x[IDX_YAW_RATE as int]);
    // Along.
    let slowing = car.slowing(unit, vx);
    assert(car2.slowing(unit, vx) == slowing);
    adds(unit, false, a.body_fx, b.body_fx, slowing, slowing);
    let (push, push2) = (minus(unit, a.body_fx, slowing), minus(unit, b.body_fx, slowing));
    divides(unit, false, push, push2, p.mass);
    multiplies(unit, true, true, yaw, negate(yaw), vy, negate(vy));
    adds(
        unit,
        false,
        over(unit, push, p.mass),
        over(unit, push2, p.mass),
        times(unit, yaw, vy),
        times(unit, negate(yaw), negate(vy)),
    );
    // Aside.
    divides(unit, true, a.body_fy, b.body_fy, p.mass);
    multiplies(unit, true, false, yaw, negate(yaw), vx, vx);
    adds(
        unit,
        true,
        over(unit, a.body_fy, p.mass),
        over(unit, b.body_fy, p.mass),
        times(unit, yaw, vx),
        times(unit, negate(yaw), vx),
    );
    // About.
    law_corner_loads_have_no_side(unit, car, x);
    let t = seq![
        car.yawing(unit, a.body.fl, 0),
        car.yawing(unit, a.body.fr, 1),
        car.yawing(unit, a.body.rl, 2),
        car.yawing(unit, a.body.rr, 3),
    ];
    let t2 = seq![
        car2.yawing(unit, b.body.fl, 0),
        car2.yawing(unit, b.body.fr, 1),
        car2.yawing(unit, b.body.rl, 2),
        car2.yawing(unit, b.body.rr, 3),
    ];
    assert forall|i: int| 0 <= i < 4 implies facing(true, #[trigger] t[i], t2[across(i)]) by {
        assert(like(a.fz.at(i), b.fz.at(across(i))));
        stands_across(unit, p, i);
        let (f, f2) = (a.body.at(i), b.body.at(across(i)));
        let (y, y2) = (p.aside(unit, i), p.aside(unit, across(i)));
        multiplies(unit, false, true, p.ahead(i), p.ahead(i), f.y, f2.y);
        multiplies(unit, true, false, y, y2, f.x, f2.x);
        adds(
            unit,
            true,
            times(unit, p.ahead(i), f.y),
            times(unit, p.ahead(i), f2.y),
            times(unit, y, f.x),
            times(unit, y2, f2.x),
        );
        assert(t[i] == car.yawing(unit, f, i));
        assert(t2[across(i)] == car2.yawing(unit, f2, across(i)));
    }
    totals(unit, true, ZERO, ZERO, t, t2);
    divides(
        unit,
        true,
        reduced::sum_from(unit, ZERO, t[0], t[1], t[2], t[3]),
        reduced::sum_from(unit, ZERO, t2[0], t2[1], t2[2], t2[3]),
        p.inertia_yaw,
    );
}

proof fn heaves<F: Fn(Operation) -> Scalar>(unit: &F, car: Car, x: Seq<Scalar>)
    requires
        even_handed(unit),
        car.is_level(unit, x),
        x.len() == STATE_COUNT,
    ensures
        like(
            car.heave_acceleration(unit, x),
            car.reflected().heave_acceleration(unit, reflection(x)),
        ),
{
    let car2 = car.reflected();
    let x2 = reflection(x);
    let p = car.params;
    reflects(x, 0);
    let s = car.suspension(unit, x);
    let s2 = car2.suspension(unit, x2);
    let t = seq![s.fl, s.fr, s.rl, s.rr];
    let t2 = seq![s2.fl, s2.fr, s2.rl, s2.rr];
    assert forall|i: int| 0 <= i < 4 implies facing(false, #[trigger] t[i], t2[across(i)]) by {
        law_suspension_has_no_side(unit, car, x, i);
    }
    totals(unit, false, ZERO, ZERO, t, t2);
    let held = reduced::sum_from(unit, ZERO, t[0], t[1], t[2], t[3]);
    let held2 = reduced::sum_from(unit, ZERO, t2[0], t2[1], t2[2], t2[3]);
    let weight = times(unit, p.sprung_mass, GRAVITY);
    let downforce = car.downforce(unit, x[IDX_VX as int]);
    assert(car2.downforce(unit, x2[IDX_VX as int]) == downforce);
    adds(unit, false, held, held2, weight, weight);
    adds(
        unit,
        false,
        minus(unit, held, weight),
        minus(unit, held2, weight),
        downforce,
        downforce,
    );
    divides(
        unit,
        false,
        minus(unit, minus(unit, held, weight), downforce),
        minus(unit, minus(unit, held2, weight), downforce),
        p.sprung_mass,
    );
}

proof fn leans<F: Fn(Operation) -> Scalar>(unit: &F, car: Car, x: Seq<Scalar>)
    requires
        even_handed(unit),
        car.steerable(),
        car.turns_clear(unit),
        car.is_level(unit, x),
        x.len() == STATE_COUNT,
    ensures
        facing(
            true,
            car.roll_acceleration(unit, x),
            car.reflected().roll_acceleration(unit, reflection(x)),
        ),
        like(
            car.pitch_acceleration(unit, x),
            car.reflected().pitch_acceleration(unit, reflection(x)),
        ),
{
    let car2 = car.reflected();
    let x2 = reflection(x);
    let p = car.params;
    sums_up(unit, car, x);
    let (a, b) = (car.loads(unit, x), car2.loads(unit, x2));
    let m = p.sprung_mass;
    multiplies(unit, false, true, m, m, a.accel_y, b.accel_y);
    let high = minus(
        unit,
        p.cg_height,
        times(unit, HALF, plus(unit, p.roll_centre_front, p.roll_centre_rear)),
    );
    multiplies(
        unit,
        true,
        false,
        times(unit, m, a.accel_y),
        times(unit, m, b.accel_y),
        high,
        high,
    );
    multiplies(unit, false, false, m, m, a.accel_x, b.accel_x);
    let long = minus(unit, p.cg_height, p.pitch_centre);
    multiplies(
        unit,
        false,
        false,
        times(unit, m, a.accel_x),
        times(unit, m, b.accel_x),
        long,
        long,
    );
    let s = car.suspension(unit, x);
    let s2 = car2.suspension(unit, x2);
    let t = seq![
        times(unit, s.fl, p.aside(unit, 0)),
        times(unit, s.fr, p.aside(unit, 1)),
        times(unit, s.rl, p.aside(unit, 2)),
        times(unit, s.rr, p.aside(unit, 3)),
    ];
    let t2 = seq![
        times(unit, s2.fl, p.aside(unit, 0)),
        times(unit, s2.fr, p.aside(unit, 1)),
        times(unit, s2.rl, p.aside(unit, 2)),
        times(unit, s2.rr, p.aside(unit, 3)),
    ];
    let u = seq![
        times(unit, s.fl, p.ahead(0)),
        times(unit, s.fr, p.ahead(1)),
        times(unit, s.rl, p.ahead(2)),
        times(unit, s.rr, p.ahead(3)),
    ];
    let u2 = seq![
        times(unit, s2.fl, p.ahead(0)),
        times(unit, s2.fr, p.ahead(1)),
        times(unit, s2.rl, p.ahead(2)),
        times(unit, s2.rr, p.ahead(3)),
    ];
    assert forall|i: int| 0 <= i < 4 implies facing(true, #[trigger] t[i], t2[across(i)]) by {
        law_suspension_has_no_side(unit, car, x, i);
        stands_across(unit, p, i);
        multiplies(
            unit,
            false,
            true,
            s.at(i),
            s2.at(across(i)),
            p.aside(unit, i),
            p.aside(unit, across(i)),
        );
    }
    assert forall|i: int| 0 <= i < 4 implies facing(false, #[trigger] u[i], u2[across(i)]) by {
        law_suspension_has_no_side(unit, car, x, i);
        stands_across(unit, p, i);
        multiplies(
            unit,
            false,
            false,
            s.at(i),
            s2.at(across(i)),
            p.ahead(i),
            p.ahead(across(i)),
        );
    }
    totals(unit, true, car.thrown_aside(unit, x), car2.thrown_aside(unit, x2), t, t2);
    totals(unit, false, car.thrown_ahead(unit, x), car2.thrown_ahead(unit, x2), u, u2);
    divides(
        unit,
        true,
        reduced::sum_from(unit, car.thrown_aside(unit, x), t[0], t[1], t[2], t[3]),
        reduced::sum_from(unit, car2.thrown_aside(unit, x2), t2[0], t2[1], t2[2], t2[3]),
        p.inertia_roll,
    );
    divides(
        unit,
        false,
        reduced::sum_from(unit, car.thrown_ahead(unit, x), u[0], u[1], u[2], u[3]),
        reduced::sum_from(unit, car2.thrown_ahead(unit, x2), u2[0], u2[1], u2[2], u2[3]),
        p.inertia_pitch,
    );
}

/// A state that belongs to one corner or to the attitude itself, and whose
/// rate of change is no total over the car.
pub open spec fn local(index: int) -> bool {
    ||| index == IDX_HEAVE
    ||| index == IDX_ROLL
    ||| index == IDX_PITCH
    ||| IDX_HOP <= index < STATE_COUNT
}

/// The corners of the mirrored car change as the mirror image of the corners.
pub proof fn law_corners_move_as_their_mirror_image<F: Fn(Operation) -> Scalar>(
    unit: &F,
    car: Car,
    x: Seq<Scalar>,
    index: int,
)
    requires
        even_handed(unit),
        car.steerable(),
        car.turns_clear(unit),
        x.len() == STATE_COUNT,
        0 <= index < STATE_COUNT,
        local(index),
    ensures
        facing(
            sided(index),
            car.rate(unit, x, index),
            car.reflected().rate(unit, reflection(x), counterpart(index)),
        ),
{
    reflects(x, 0);
    if IDX_HOP <= index < IDX_HOP_RATE {
        reflects(x, index - IDX_HOP);
    } else if IDX_HOP_RATE <= index < IDX_OMEGA {
        hops(unit, car, x, index - IDX_HOP_RATE);
    } else if IDX_OMEGA <= index < IDX_SLIP_ANGLE {
        spins(unit, car, x, index - IDX_OMEGA);
    } else if IDX_SLIP_ANGLE <= index < IDX_SLIP_RATIO {
        slips(unit, car, x, index - IDX_SLIP_ANGLE);
    } else if IDX_SLIP_RATIO <= index {
        slips(unit, car, x, index - IDX_SLIP_RATIO);
    }
}

/// The mirrored car changes as the mirror image of the car, wherever its totals
/// over the four corners round alike from either side.
pub proof fn law_the_car_moves_as_its_mirror_image<F: Fn(Operation) -> Scalar>(
    unit: &F,
    car: Car,
    x: Seq<Scalar>,
    index: int,
)
    requires
        even_handed(unit),
        car.steerable(),
        car.turns_clear(unit),
        car.is_level(unit, x),
        x.len() == STATE_COUNT,
        0 <= index < STATE_COUNT,
    ensures
        facing(
            sided(index),
            car.rate(unit, x, index),
            car.reflected().rate(unit, reflection(x), counterpart(index)),
        ),
{
    if local(index) {
        law_corners_move_as_their_mirror_image(unit, car, x, index);
    } else if index < IDX_HEAVE {
        heads(unit, car, x);
        assert(facing(
            sided(index),
            car.planar(unit, x, index),
            car.reflected().planar(unit, reflection(x), index),
        ));
    } else if index == IDX_HEAVE_RATE {
        heaves(unit, car, x);
    } else {
        leans(unit, car, x);
    }
}

// --- without rounding ---------------------------------------------------------------

/// Two terms may be added in either order.
pub open spec fn swaps<F: Fn(Operation) -> Scalar>(unit: &F, sum: Scalar, a: Scalar, b: Scalar) -> bool {
    like(plus(unit, plus(unit, sum, a), b), plus(unit, plus(unit, sum, b), a))
}

/// `unit` adds without rounding, so the order of the terms makes no difference.
pub open spec fn adds_exactly<F: Fn(Operation) -> Scalar>(unit: &F) -> bool {
    forall|sum: Scalar, a: Scalar, b: Scalar| #[trigger] swaps(unit, sum, a, b)
}

proof fn evens_out<F: Fn(Operation) -> Scalar>(
    unit: &F,
    start: Scalar,
    a: Scalar,
    b: Scalar,
    c: Scalar,
    d: Scalar,
)
    requires
        even_handed(unit),
        adds_exactly(unit),
    ensures
        level(unit, start, a, b, c, d),
{
    let front = plus(unit, plus(unit, start, a), b);
    let front2 = plus(unit, plus(unit, start, b), a);
    assert(swaps(unit, start, a, b));
    adds(unit, false, front, front2, c, c);
    adds(unit, false, plus(unit, front, c), plus(unit, front2, c), d, d);
    assert(swaps(unit, front2, c, d));
    facing_chains(
        false,
        false,
        plus(unit, plus(unit, front, c), d),
        plus(unit, plus(unit, front2, c), d),
        plus(unit, plus(unit, front2, d), c),
    );
}

/// But for rounding, the car has no side at all: on a unit that adds without it, the
/// mirrored car changes as the mirror image of the car in every state.
pub proof fn law_but_for_rounding_the_car_has_no_side<F: Fn(Operation) -> Scalar>(
    unit: &F,
    car: Car,
    x: Seq<Scalar>,
    index: int,
)
    requires
        even_handed(unit),
        adds_exactly(unit),
        car.steerable(),
        car.turns_clear(unit),
        x.len() == STATE_COUNT,
        0 <= index < STATE_COUNT,
    ensures
        facing(
            sided(index),
            car.rate(unit, x, index),
            car.reflected().rate(unit, reflection(x), counterpart(index)),
        ),
{
    let p = car.params;
    let body = car.loads(unit, x).body;
    let s = car.suspension(unit, x);
    evens_out(unit, ZERO, body.fl.x, body.fr.x, body.rl.x, body.rr.x);
    evens_out(unit, ZERO, body.fl.y, body.fr.y, body.rl.y, body.rr.y);
    evens_out(
        unit,
        ZERO,
        car.yawing(unit, body.fl, 0),
        car.yawing(unit, body.fr, 1),
        car.yawing(unit, body.rl, 2),
        car.yawing(unit, body.rr, 3),
    );
    evens_out(unit, ZERO, s.fl, s.fr, s.rl, s.rr);
    evens_out(
        unit,
        car.thrown_aside(unit, x),
        times(unit, s.fl, p.aside(unit, 0)),
        times(unit, s.fr, p.aside(unit, 1)),
        times(unit, s.rl, p.aside(unit, 2)),
        times(unit, s.rr, p.aside(unit, 3)),
    );
    evens_out(
        unit,
        car.thrown_ahead(unit, x),
        times(unit, s.fl, p.ahead(0)),
        times(unit, s.fr, p.ahead(1)),
        times(unit, s.rl, p.ahead(2)),
        times(unit, s.rr, p.ahead(3)),
    );
    law_the_car_moves_as_its_mirror_image(unit, car, x, index);
}

} // verus!
