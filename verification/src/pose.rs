//! Global position, dead-reckoned from body-frame velocity.
//!
//! The model reports body-frame velocities and a yaw rate but no global
//! position, so the kernel integrates it, and it is a module rather than five
//! lines inside the loop because two things need the identical arithmetic: the
//! live loop, which feeds the view, and replay, which feeds A/B.
//!
//! It is first-order on purpose. The pose is a *presentation* quantity: nothing
//! in the physics reads it back, so its error cannot accumulate into the plant.

use vstd::prelude::*;

use crate::arith;
use crate::arith::{cos, minus, plus, sin, times, Operation};
use crate::generated::frames::VehicleState;
use crate::numbers;
use crate::numbers::{close, number, size};
use crate::scalar;
use crate::scalar::{is_finite, Scalar, ZERO};

verus! {

/// Where the car is, in the world frame it started in.
#[derive(Clone, Copy, PartialEq, Eq, Structural, Debug)]
pub struct Pose {
    pub x: Scalar,
    pub y: Scalar,
    pub yaw: Scalar,
}

impl Default for Pose {
    fn default() -> (pose: Self)
        ensures
            pose == Self::origin(),
    {
        Pose { x: ZERO, y: ZERO, yaw: ZERO }
    }
}

impl Pose {
    pub open spec fn origin() -> Self {
        Pose { x: ZERO, y: ZERO, yaw: ZERO }
    }

    /// The pose one step on: the heading first, then the body-frame velocity
    /// turned to the new heading.
    pub open spec fn advanced<F: Fn(Operation) -> Scalar>(
        self,
        unit: &F,
        state: VehicleState,
        dt: Scalar,
    ) -> Self {
        let yaw = plus(unit, self.yaw, times(unit, state.yaw_vel, dt));
        let ahead = minus(
            unit,
            times(unit, state.vel_x, cos(unit, yaw)),
            times(unit, state.vel_y, sin(unit, yaw)),
        );
        let aside = plus(
            unit,
            times(unit, state.vel_x, sin(unit, yaw)),
            times(unit, state.vel_y, cos(unit, yaw)),
        );
        Pose {
            x: plus(unit, self.x, times(unit, ahead, dt)),
            y: plus(unit, self.y, times(unit, aside, dt)),
            yaw,
        }
    }

    /// `state` with this pose in it.
    pub open spec fn placed(self, state: VehicleState) -> VehicleState {
        VehicleState { pos_x: self.x, pos_y: self.y, yaw: self.yaw, ..state }
    }

    /// Advance by one step from this frame's body-frame velocities.
    pub fn advance<F: Fn(Operation) -> Scalar>(&mut self, unit: &F, state: &VehicleState, dt: Scalar)
        requires
            arith::functional(*unit),
        ensures
            *final(self) == old(self).advanced(unit, *state, dt),
    {
        self.yaw = plus(unit, self.yaw, times(unit, state.yaw_vel, dt));
        let sin_yaw: Scalar = sin(unit, self.yaw);
        let cos_yaw: Scalar = cos(unit, self.yaw);
        let ahead: Scalar = minus(
            unit,
            times(unit, state.vel_x, cos_yaw),
            times(unit, state.vel_y, sin_yaw),
        );
        let aside: Scalar = plus(
            unit,
            times(unit, state.vel_x, sin_yaw),
            times(unit, state.vel_y, cos_yaw),
        );
        self.x = plus(unit, self.x, times(unit, ahead, dt));
        self.y = plus(unit, self.y, times(unit, aside, dt));
    }

    /// Copy the pose into the frame that will be published or recorded.
    pub fn apply(&self, state: &mut VehicleState)
        ensures
            *final(state) == self.placed(*old(state)),
    {
        state.pos_x = self.x;
        state.pos_y = self.y;
        state.yaw = self.yaw;
    }
}

// --- laws -----------------------------------------------------------------------

/// A length, a speed or a time that a session can have.
pub open spec fn ordinary(x: Scalar) -> bool {
    is_finite(x) && size(number(x)) <= 1000000000real
}

/// A sine or a cosine.
pub open spec fn is_part_of_a_turn(x: Scalar) -> bool {
    is_finite(x) && size(number(x)) <= 1real
}

/// Two speeds turned by a heading and held for a time, but for rounding.
proof fn lemma_travelled<F: Fn(Operation) -> Scalar>(
    unit: &F,
    start: Scalar,
    a: Scalar,
    c: Scalar,
    b: Scalar,
    s: Scalar,
    dt: Scalar,
    less: bool,
)
    requires
        arith::rounding(unit),
        ordinary(start),
        ordinary(a),
        ordinary(b),
        ordinary(dt),
        is_part_of_a_turn(c),
        is_part_of_a_turn(s),
    ensures
        ({
            let (p, q) = (times(unit, a, c), times(unit, b, s));
            let speed = if less {
                minus(unit, p, q)
            } else {
                plus(unit, p, q)
            };
            let end = plus(unit, start, times(unit, speed, dt));
            let asked = if less {
                number(a) * number(c) - number(b) * number(s)
            } else {
                number(a) * number(c) + number(b) * number(s)
            };
            &&& is_finite(end)
            &&& size(number(end) - (number(start) + asked * number(dt))) * 1125899906842624real
                <= size(number(start)) + (size(number(a)) + size(number(b))) * size(number(dt))
                + 1real
        }),
{
    let (p, q) = (times(unit, a, c), times(unit, b, s));
    let speed = if less {
        minus(unit, p, q)
    } else {
        plus(unit, p, q)
    };
    let (na, nb, nc, ns) = (number(a), number(b), number(c), number(s));
    numbers::lemma_size_of_product(na, nc);
    numbers::lemma_size_of_product(nb, ns);
    numbers::lemma_multiples(size(nc), 1real, size(na));
    numbers::lemma_multiples(size(ns), 1real, size(nb));
    numbers::lemma_two_products(unit, a, c, b, s, less);
    let asked = if less {
        na * nc - nb * ns
    } else {
        na * nc + nb * ns
    };
    lemma_held(unit, start, speed, dt, asked, size(na) + size(nb));
}

/// A speed that is close to `asked`, held for a time.
proof fn lemma_held<F: Fn(Operation) -> Scalar>(
    unit: &F,
    start: Scalar,
    speed: Scalar,
    dt: Scalar,
    asked: real,
    most: real,
)
    requires
        arith::rounding(unit),
        ordinary(start),
        ordinary(dt),
        is_finite(speed),
        size(asked) <= most <= 2000000000real,
        size(number(speed) - asked) * 9007199254740992real <= 4real * most + 1real / 1000000000real,
    ensures
        is_finite(times(unit, speed, dt)),
        is_finite(plus(unit, start, times(unit, speed, dt))),
        size(
            number(plus(unit, start, times(unit, speed, dt))) - (number(start) + asked * number(
                dt,
            )),
        ) * 1125899906842624real <= size(number(start)) + most * size(number(dt)) + 1real,
{
    let step = times(unit, speed, dt);
    let (v, t) = (number(speed), number(dt));
    let vt = v * t;
    let at = asked * t;
    let gap = v - asked;
    let gt = gap * t;
    assert(gt == vt - at) by (nonlinear_arith)
        requires
            gt == gap * t,
            gap == v - asked,
            vt == v * t,
            at == asked * t,
    ;
    let far = most * size(t);
    numbers::lemma_size_of_product(gap, t);
    numbers::lemma_size_of_product(asked, t);
    numbers::lemma_multiples(size(asked), most, size(t));
    numbers::lemma_multiples(
        size(gap) * 9007199254740992real,
        4real * most + 1real / 1000000000real,
        size(t),
    );
    assert((size(gap) * 9007199254740992real) * size(t) == (size(gap) * size(t))
        * 9007199254740992real) by (nonlinear_arith);
    assert((4real * most + 1real / 1000000000real) * size(t) == 4real * far + size(t)
        / 1000000000real) by (nonlinear_arith)
        requires
            far == most * size(t),
    ;
    numbers::lemma_multiples(size(t), 1000000000real, most);
    assert(size(gt) * 9007199254740992real <= 4real * far + 1real);
    assert(size(at) <= far);
    assert(far <= 2000000000000000000real);
    numbers::lemma_in_range(vt);
    numbers::lemma_close_times(unit, speed, dt);
    numbers::lemma_off(step, vt);
    lemma_sum_error(unit, start, step, vt, at, far);
}

proof fn lemma_sum_error<F: Fn(Operation) -> Scalar>(
    unit: &F,
    start: Scalar,
    step: Scalar,
    vt: real,
    at: real,
    far: real,
)
    requires
        arith::rounding(unit),
        ordinary(start),
        is_finite(step),
        size(vt - at) * 9007199254740992real <= 4real * far + 1real,
        size(at) <= far <= 2000000000000000000real,
        9007199254740992real * size(number(step) - vt) <= size(vt) + 1real / 10000000000real,
    ensures
        is_finite(plus(unit, start, step)),
        size(number(plus(unit, start, step)) - (number(start) + at)) * 1125899906842624real <= size(
            number(start),
        ) + far + 1real,
{
    let s = number(step);
    numbers::lemma_in_range(number(start) + s);
    numbers::lemma_close_plus(unit, start, step);
    numbers::lemma_off(plus(unit, start, step), number(start) + s);
}

/// In one step the car travels its body-frame velocity, turned to its new heading,
/// for the time of the step: forward along the heading, and left across it. But for
/// rounding, whatever the unit makes of the sine and the cosine of that heading.
pub proof fn law_the_car_goes_where_it_points<F: Fn(Operation) -> Scalar>(
    pose: Pose,
    unit: &F,
    state: VehicleState,
    dt: Scalar,
    heading: Scalar,
)
    requires
        arith::rounding(unit),
        heading == pose.advanced(unit, state, dt).yaw,
        ordinary(pose.x),
        ordinary(pose.y),
        ordinary(state.vel_x),
        ordinary(state.vel_y),
        ordinary(dt),
        is_part_of_a_turn(sin(unit, heading)),
        is_part_of_a_turn(cos(unit, heading)),
    ensures
        ({
            let after = pose.advanced(unit, state, dt);
            let (forward, left, time) = (number(state.vel_x), number(state.vel_y), number(dt));
            let (c, s) = (number(cos(unit, heading)), number(sin(unit, heading)));
            let far = (size(forward) + size(left)) * size(time) + 1real;
            &&& is_finite(after.x)
            &&& is_finite(after.y)
            &&& size(number(after.x) - (number(pose.x) + (forward * c - left * s) * time))
                * 1125899906842624real <= size(number(pose.x)) + far
            &&& size(number(after.y) - (number(pose.y) + (forward * s + left * c) * time))
                * 1125899906842624real <= size(number(pose.y)) + far
        }),
{
    let (c, s) = (cos(unit, heading), sin(unit, heading));
    lemma_travelled(unit, pose.x, state.vel_x, c, state.vel_y, s, dt, true);
    lemma_travelled(unit, pose.y, state.vel_x, s, state.vel_y, c, dt, false);
}

/// The heading grows by the yaw rate held for the step, but for rounding: a positive
/// rate turns the car to the left.
pub proof fn law_the_heading_follows_the_yaw_rate<F: Fn(Operation) -> Scalar>(
    pose: Pose,
    unit: &F,
    state: VehicleState,
    dt: Scalar,
)
    requires
        arith::rounding(unit),
        ordinary(pose.yaw),
        ordinary(state.yaw_vel),
        ordinary(dt),
    ensures
        ({
            let after = pose.advanced(unit, state, dt);
            let turn = number(state.yaw_vel) * number(dt);
            &&& is_finite(after.yaw)
            &&& size(number(after.yaw) - (number(pose.yaw) + turn)) * 2251799813685248real <= size(
                number(pose.yaw),
            ) + size(turn) + 1real
            &&& turn >= 0real ==> number(after.yaw) >= number(pose.yaw)
            &&& turn <= 0real ==> number(after.yaw) <= number(pose.yaw)
        }),
{
    let (w, t) = (number(state.yaw_vel), number(dt));
    let step = times(unit, state.yaw_vel, dt);
    numbers::lemma_size_of_product(w, t);
    numbers::lemma_multiples(size(w), 1000000000real, size(t));
    numbers::lemma_in_range(w * t);
    numbers::lemma_close_times(unit, state.yaw_vel, dt);
    numbers::lemma_off(step, w * t);
    numbers::lemma_in_range(number(pose.yaw) + number(step));
    numbers::lemma_close_plus(unit, pose.yaw, step);
    numbers::lemma_off(plus(unit, pose.yaw, step), number(pose.yaw) + number(step));
    numbers::lemma_close_signs(unit, pose.yaw, state.yaw_vel, dt);
}

/// With only forward speed, the car moves the way it points: up the `x` axis where
/// the cosine of its heading is positive, up the `y` axis where the sine is, and the
/// other way where they are negative. Rounding never turns it round.
pub proof fn law_forward_is_along_the_heading<F: Fn(Operation) -> Scalar>(
    pose: Pose,
    unit: &F,
    state: VehicleState,
    dt: Scalar,
    heading: Scalar,
)
    requires
        arith::rounding(unit),
        heading == pose.advanced(unit, state, dt).yaw,
        ordinary(pose.x),
        ordinary(pose.y),
        ordinary(state.vel_x),
        is_finite(state.vel_y),
        number(state.vel_y) == 0real,
        ordinary(dt),
        number(dt) >= 0real,
        is_part_of_a_turn(sin(unit, heading)),
        is_part_of_a_turn(cos(unit, heading)),
    ensures
        ({
            let after = pose.advanced(unit, state, dt);
            let forward = number(state.vel_x);
            let (c, s) = (number(cos(unit, heading)), number(sin(unit, heading)));
            &&& forward * c >= 0real ==> number(after.x) >= number(pose.x)
            &&& forward * c <= 0real ==> number(after.x) <= number(pose.x)
            &&& forward * s >= 0real ==> number(after.y) >= number(pose.y)
            &&& forward * s <= 0real ==> number(after.y) <= number(pose.y)
        }),
{
    let (c, s) = (cos(unit, heading), sin(unit, heading));
    let after = pose.advanced(unit, state, dt);
    let (vx, vy) = (state.vel_x, state.vel_y);
    numbers::lemma_number(vy);
    lemma_forward(unit, pose.x, vx, c, vy, s, dt, true);
    lemma_forward(unit, pose.y, vx, s, vy, c, dt, false);
}

proof fn lemma_forward<F: Fn(Operation) -> Scalar>(
    unit: &F,
    start: Scalar,
    a: Scalar,
    c: Scalar,
    b: Scalar,
    s: Scalar,
    dt: Scalar,
    less: bool,
)
    requires
        arith::rounding(unit),
        ordinary(start),
        ordinary(a),
        is_finite(b),
        number(b) == 0real,
        ordinary(dt),
        number(dt) >= 0real,
        is_part_of_a_turn(c),
        is_part_of_a_turn(s),
    ensures
        ({
            let (p, q) = (times(unit, a, c), times(unit, b, s));
            let speed = if less {
                minus(unit, p, q)
            } else {
                plus(unit, p, q)
            };
            let end = plus(unit, start, times(unit, speed, dt));
            &&& number(a) * number(c) >= 0real ==> number(end) >= number(start)
            &&& number(a) * number(c) <= 0real ==> number(end) <= number(start)
        }),
{
    let (p, q) = (times(unit, a, c), times(unit, b, s));
    let speed = if less {
        minus(unit, p, q)
    } else {
        plus(unit, p, q)
    };
    numbers::lemma_number(b);
    arith::lemma_nothing_times(unit, s, b);
    numbers::lemma_size_of_product(number(a), number(c));
    numbers::lemma_multiples(size(number(c)), 1real, size(number(a)));
    numbers::lemma_in_range(number(a) * number(c));
    numbers::lemma_close_times(unit, a, c);
    numbers::lemma_off(p, number(a) * number(c));
    arith::lemma_sums_are_exact(unit, p, q);
    numbers::lemma_number_order(speed, p);
    lemma_held(unit, start, speed, dt, number(a) * number(c), size(number(a)));
    numbers::lemma_sign_of_product(unit, a, c);
    numbers::lemma_close_signs(unit, start, speed, dt);
    numbers::lemma_number(speed);
    numbers::lemma_number(p);
    let (v, t) = (number(speed), number(dt));
    assert((v >= 0real ==> v * t >= 0real) && (v <= 0real ==> v * t <= 0real)) by (nonlinear_arith)
        requires
            t >= 0real,
    ;
}

} // verus!
