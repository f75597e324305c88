//! What the motor is held to.

use vstd::prelude::*;

use crate::arith;
use crate::arith::{over, rounding, times, Operation};
use crate::numbers;
use crate::numbers::{close, epsilon, huge, number, size, tiny};
use crate::plant::reduced::params::ReducedParams;
use crate::plant::reduced::Car;
use crate::scalar;
use crate::scalar::{abs, exact, is_finite, negate, Scalar, ZERO};

verus! {

impl ReducedParams {
    /// The motor has a curve: a torque, a corner and a limit that are numbers, and a
    /// power that is in range.
    pub open spec fn has_motor(self) -> bool {
        &&& is_finite(self.motor_peak_torque)
        &&& is_finite(self.motor_corner_speed)
        &&& is_finite(self.motor_max_speed)
        &&& 0real <= number(self.motor_peak_torque) < huge() / 4real
        &&& number(self.motor_corner_speed) > 0real
        &&& self.peak_power() < huge() / 4real
    }

    /// Peak torque at the corner speed.
    pub open spec fn peak_power(self) -> real {
        number(self.motor_peak_torque) * number(self.motor_corner_speed)
    }
}

/// The sign of a word aside, its number is how far it is from nothing.
proof fn lemma_abs(x: Scalar)
    requires
        is_finite(x),
    ensures
        is_finite(abs(x)),
        !scalar::negative(abs(x)),
        number(abs(x)) == size(number(x)),
        exact(abs(x)) >= 0,
{
    scalar::law_negation_flips(x);
    scalar::lemma_exact_order(x, ZERO);
    scalar::lemma_exact_order(abs(x), ZERO);
    numbers::lemma_number(x);
    numbers::lemma_number(abs(x));
    let w = scalar::unit() as real;
    let n = number(x);
    let m = number(abs(x));
    assert(m == n || m == -n) by (nonlinear_arith)
        requires
            m * w == n * w || m * w == -(n * w),
            w > 0real,
    ;
}

/// Below the corner the motor gives all of its torque, above it all of its power and
/// no more, and at the limit nothing. Which way it turns makes no difference.
pub proof fn law_the_motor_holds_its_power<F: Fn(Operation) -> Scalar>(
    car: Car,
    unit: &F,
    speed: Scalar,
)
    requires
        rounding(unit),
        car.params.has_motor(),
        is_finite(speed),
    ensures
        ({
            let p = car.params;
            let torque = car.torque_at(unit, speed);
            let turning = size(number(speed));
            &&& is_finite(torque)
            &&& turning >= number(p.motor_max_speed) ==> number(torque) == 0real
            &&& turning < number(p.motor_max_speed) && turning <= number(p.motor_corner_speed)
                ==> number(torque) == number(p.motor_peak_torque)
            &&& number(p.motor_corner_speed) < turning < number(p.motor_max_speed) ==> size(
                number(torque) * turning - p.peak_power(),
            ) <= 3real * p.peak_power() * epsilon() + (2real + turning) * tiny()
            &&& number(torque) >= 0real
            &&& car.torque_at(unit, negate(speed)) == torque
        }),
{
    let p = car.params;
    let torque = car.torque_at(unit, speed);
    let turning = abs(speed);
    lemma_abs(speed);
    scalar::law_negation_flips(speed);
    numbers::lemma_number(ZERO);
    numbers::lemma_number(p.motor_peak_torque);
    numbers::lemma_number_order(p.motor_max_speed, turning);
    numbers::lemma_number_order(turning, p.motor_corner_speed);
    scalar::lemma_exact_order(ZERO, ZERO);
    if number(p.motor_corner_speed) < number(turning) < number(p.motor_max_speed) {
        let t = number(p.motor_peak_torque);
        let c = number(p.motor_corner_speed);
        let w = number(turning);
        let power = times(unit, p.motor_peak_torque, p.motor_corner_speed);
        assert(t * c >= 0real) by (nonlinear_arith)
            requires
                t >= 0real,
                c > 0real,
        ;
        numbers::lemma_close_times(unit, p.motor_peak_torque, p.motor_corner_speed);
        let m = number(power);
        numbers::lemma_number(turning);
        lemma_smallest(turning);
        lemma_shares(t, c, w, m);
        numbers::lemma_close_over(unit, power, turning);
        assert(torque == over(unit, power, turning));
        lemma_power_error(t * c, m, w, number(torque));
        numbers::lemma_signs(unit, p.motor_peak_torque, p.motor_corner_speed);
        numbers::lemma_number(p.motor_corner_speed);
        let a = exact(p.motor_peak_torque);
        let b = exact(p.motor_corner_speed);
        assert(a * b >= 0) by (nonlinear_arith)
            requires
                a >= 0,
                b > 0,
        ;
        numbers::lemma_signs(unit, power, turning);
        numbers::lemma_number(torque);
    }
}

/// Nothing but nothing is closer to nothing than the smallest number.
proof fn lemma_smallest(x: Scalar)
    requires
        number(x) > 0real,
    ensures
        number(x) >= tiny(),
{
    numbers::lemma_number(x);
    let w = scalar::unit() as real;
    let n = number(x);
    assert(n >= 1real / w) by (nonlinear_arith)
        requires
            n * w >= 1real,
            w > 0real,
    ;
}

proof fn lemma_shares(t: real, c: real, w: real, m: real)
    requires
        0real <= t < huge() / 4real,
        c > 0real,
        w > c,
        w >= tiny(),
        tiny() > 0real,
        0real <= t * c,
        size(m - t * c) <= size(t * c) * epsilon() + tiny(),
    ensures
        size(m / w) < huge(),
{
    let p = t * c;
    let e = epsilon();
    let q = m / w;
    vstd::arithmetic::power2::lemma_pow2_pos(926);
    vstd::arithmetic::power2::lemma_pow2_strictly_increases(4, 926);
    vstd::arithmetic::power2::lemma2_to64();
    assert(p <= t * w) by (nonlinear_arith)
        requires
            p == t * c,
            t >= 0real,
            c < w,
    ;
    assert(p * e <= p) by (nonlinear_arith)
        requires
            p >= 0real,
            e == 1real / 9007199254740992real,
    ;
    let top = 2real * t + 1real;
    assert(top * w == 2real * (t * w) + w) by (nonlinear_arith)
        requires
            top == 2real * t + 1real,
    ;
    assert(-(top * w) <= m <= top * w);
    assert(q * w == m) by (nonlinear_arith)
        requires
            q == m / w,
            w > 0real,
    ;
    assert(-top <= q <= top) by (nonlinear_arith)
        requires
            -(top * w) <= q * w <= top * w,
            w > 0real,
    ;
}

proof fn lemma_power_error(p: real, m: real, w: real, t: real)
    requires
        p >= 0real,
        w > 0real,
        tiny() > 0real,
        size(m - p) <= size(p) * epsilon() + tiny(),
        size(t - m / w) <= size(m / w) * epsilon() + tiny(),
    ensures
        size(t * w - p) <= 3real * p * epsilon() + (2real + w) * tiny(),
{
    let e = epsilon();
    let y = tiny();
    let q = m / w;
    assert(q * w == m) by (nonlinear_arith)
        requires
            q == m / w,
            w > 0real,
    ;
    let off = size(t - q);
    assert(size(t * w - m) <= off * w) by (nonlinear_arith)
        requires
            q * w == m,
            w > 0real,
            off == size(t - q),
    ;
    assert(off * w <= (size(q) * e + y) * w) by (nonlinear_arith)
        requires
            off <= size(q) * e + y,
            w > 0real,
    ;
    assert((size(q) * e + y) * w == size(m) * e + y * w) by (nonlinear_arith)
        requires
            q * w == m,
            w > 0real,
    ;
    let pe = p * e;
    assert(size(m) * e <= (p + pe + y) * e) by (nonlinear_arith)
        requires
            size(m) <= p + pe + y,
            e > 0real,
    ;
    assert((p + pe + y) * e <= 2real * pe + y) by (nonlinear_arith)
        requires
            pe == p * e,
            p >= 0real,
            y > 0real,
            e == 1real / 9007199254740992real,
    ;
    assert(3real * p * e == 3real * pe) by (nonlinear_arith)
        requires
            pe == p * e,
    ;
    assert((2real + w) * y == 2real * y + y * w) by (nonlinear_arith);
}

/// The faster the motor turns the less torque it has: never more than at a lower
/// speed, and less wherever the speed is higher by more than the roundings hide.
pub proof fn law_torque_falls_with_speed<F: Fn(Operation) -> Scalar>(
    car: Car,
    unit: &F,
    slow: Scalar,
    fast: Scalar,
)
    requires
        rounding(unit),
        car.params.has_motor(),
        car.params.peak_power() >= 9007199254740992real * tiny(),
        is_finite(slow),
        is_finite(fast),
        size(number(slow)) <= size(number(fast)),
    ensures
        number(car.torque_at(unit, fast)) <= number(car.torque_at(unit, slow)),
        ({
            let p = car.params;
            let (s, f) = (size(number(slow)), size(number(fast)));
            &&& number(p.motor_corner_speed) < s
            &&& f < number(p.motor_max_speed)
            &&& f * 4503599627370496real >= s * 4503599627370512real
            &&& (2real + f) * tiny() <= p.peak_power() * epsilon()
        }) ==> number(car.torque_at(unit, fast)) < number(car.torque_at(unit, slow)),
{
    let p = car.params;
    law_the_motor_holds_its_power(car, unit, slow);
    law_the_motor_holds_its_power(car, unit, fast);
    let s = abs(slow);
    let f = abs(fast);
    lemma_abs(slow);
    lemma_abs(fast);
    numbers::lemma_number_order(s, f);
    numbers::lemma_number_order(s, p.motor_corner_speed);
    numbers::lemma_number_order(f, p.motor_corner_speed);
    numbers::lemma_number_order(s, p.motor_max_speed);
    numbers::lemma_number_order(f, p.motor_max_speed);
    let high = car.torque_at(unit, slow);
    let low = car.torque_at(unit, fast);
    numbers::lemma_number_order(low, high);
    numbers::lemma_number_order(high, low);
    let power = times(unit, p.motor_peak_torque, p.motor_corner_speed);
    let u = scalar::unit();
    scalar::lemma_one();
    if number(f) < number(p.motor_max_speed) && number(p.motor_corner_speed) < number(f) {
        numbers::lemma_number(p.motor_corner_speed);
        numbers::lemma_number(p.motor_peak_torque);
        lemma_power_is_finite(p, unit);
        let m = exact(power);
        if number(p.motor_corner_speed) < number(s) {
            if exact(s) == exact(f) {
                numbers::lemma_one_word(s, f);
            } else if m > 0 {
                assert((m * u) * exact(s) < (m * u) * exact(f)) by (nonlinear_arith)
                    requires
                        m > 0,
                        u > 0,
                        exact(s) < exact(f),
                ;
                numbers::lemma_rounding_keeps_order(m * u, exact(f), low, m * u, exact(s), high);
            } else {
                numbers::lemma_signs(unit, power, f);
                numbers::lemma_number(low);
            }
            if number(f) * 4503599627370496real >= number(s) * 4503599627370512real && (2real
                + number(f)) * tiny() <= p.peak_power() * epsilon() {
                lemma_strictly(
                    p.peak_power(),
                    number(s),
                    number(f),
                    number(high),
                    number(low),
                );
            }
        } else {
            lemma_past_the_corner(p, unit, f);
            let t = exact(p.motor_peak_torque);
            arith::lemma_nearest_is_bounded(m * u, exact(f), low, p.motor_peak_torque);
        }
    }
}

proof fn lemma_power_is_finite<F: Fn(Operation) -> Scalar>(p: ReducedParams, unit: &F)
    requires
        rounding(unit),
        p.has_motor(),
    ensures
        close(times(unit, p.motor_peak_torque, p.motor_corner_speed), p.peak_power()),
        exact(times(unit, p.motor_peak_torque, p.motor_corner_speed)) >= 0,
        p.peak_power() >= 0real,
{
    let t = number(p.motor_peak_torque);
    let c = number(p.motor_corner_speed);
    assert(t * c >= 0real) by (nonlinear_arith)
        requires
            t >= 0real,
            c > 0real,
    ;
    numbers::lemma_close_times(unit, p.motor_peak_torque, p.motor_corner_speed);
    numbers::lemma_signs(unit, p.motor_peak_torque, p.motor_corner_speed);
    numbers::lemma_number(p.motor_corner_speed);
    numbers::lemma_number(p.motor_peak_torque);
    let a = exact(p.motor_peak_torque);
    let b = exact(p.motor_corner_speed);
    assert(a * b >= 0) by (nonlinear_arith)
        requires
            a >= 0,
            b > 0,
    ;
}

/// At the first speed past the corner the power already asks for no more than the
/// peak torque, however it was rounded.
proof fn lemma_past_the_corner<F: Fn(Operation) -> Scalar>(p: ReducedParams, unit: &F, w: Scalar)
    requires
        rounding(unit),
        p.has_motor(),
        p.peak_power() >= 9007199254740992real * tiny(),
        is_finite(w),
        number(p.motor_corner_speed) < number(w),
    ensures
        exact(times(unit, p.motor_peak_torque, p.motor_corner_speed)) * scalar::unit() <= exact(
            p.motor_peak_torque,
        ) * exact(w),
{
    let u = scalar::unit();
    scalar::lemma_one();
    let t = exact(p.motor_peak_torque);
    let c = exact(p.motor_corner_speed);
    let v = exact(w);
    numbers::lemma_number(p.motor_peak_torque);
    numbers::lemma_number(p.motor_corner_speed);
    numbers::lemma_number_order(p.motor_corner_speed, w);
    numbers::lemma_spacing(p.motor_corner_speed, w);
    lemma_power_is_finite(p, unit);
    let power = times(unit, p.motor_peak_torque, p.motor_corner_speed);
    let size = scalar::IMPLICIT_BIT as int;
    // The product is not next to nothing.
    let uu = u as real;
    let (tr, cr) = (number(p.motor_peak_torque), number(p.motor_corner_speed));
    numbers::lemma_product_of_wholes(t, c);
    numbers::lemma_product_of_wholes(2 * size, u);
    assert((t * c) as real == (tr * cr) * uu * uu) by (nonlinear_arith)
        requires
            (t * c) as real == (tr * uu) * (cr * uu),
    ;
    let y = tiny();
    assert(y * uu == 1real) by (nonlinear_arith)
        requires
            y == 1real / uu,
            uu > 0real,
    ;
    assert((t * c) as real >= 9007199254740992real * uu) by (nonlinear_arith)
        requires
            (t * c) as real == (tr * cr) * uu * uu,
            tr * cr >= 9007199254740992real * y,
            y * uu == 1real,
            uu > 0real,
    ;
    assert(t * c >= 2 * size * u);
    // In range.
    vstd::arithmetic::power2::lemma_pow2_adds(926, 1074);
    let h = huge();
    let top = (vstd::arithmetic::power2::pow2(2000) * u) as real;
    numbers::lemma_product_of_wholes(vstd::arithmetic::power2::pow2(2000) as int, u);
    numbers::lemma_product_of_wholes(vstd::arithmetic::power2::pow2(926) as int, u);
    assert(((t * c) as real) < top) by (nonlinear_arith)
        requires
            (t * c) as real == (tr * cr) * uu * uu,
            tr * cr < h / 4real,
            tr * cr >= 0real,
            h > 0real,
            top == (h * uu) * uu,
            uu > 0real,
    ;
    assert(t * c >= 0);
    numbers::lemma_rounding_error(t * c, u, power);
    let m = exact(power);
    let off = arith::distance(m * u, t * c);
    assert(2 * size * off <= t * c);
    assert(2 * size * (t * v - t * c) >= t * v) by (nonlinear_arith)
        requires
            2 * size * (v - c) >= v,
            t >= 0,
    ;
    assert(t * v >= t * c) by (nonlinear_arith)
        requires
            t >= 0,
            v > c,
    ;
    let gap = t * v - t * c;
    assert(off <= gap) by (nonlinear_arith)
        requires
            2 * size * off <= 2 * size * gap,
            size > 0,
    ;
}

proof fn lemma_strictly(p: real, s: real, f: real, high: real, low: real)
    requires
        p > 0real,
        s > 0real,
        high >= 0real,
        low >= 0real,
        s <= f,
        tiny() > 0real,
        f * 4503599627370496real >= s * 4503599627370512real,
        (2real + f) * tiny() <= p * epsilon(),
        size(high * s - p) <= 3real * p * epsilon() + (2real + s) * tiny(),
        size(low * f - p) <= 3real * p * epsilon() + (2real + f) * tiny(),
    ensures
        low < high,
{
    let e = epsilon();
    let pe = p * e;
    assert(pe * 9007199254740992real == p) by (nonlinear_arith)
        requires
            pe == p * e,
            e == 1real / 9007199254740992real,
    ;
    assert(3real * p * e == 3real * pe) by (nonlinear_arith)
        requires
            pe == p * e,
    ;
    assert((2real + s) * tiny() <= (2real + f) * tiny()) by (nonlinear_arith)
        requires
            s <= f,
            tiny() > 0real,
    ;
    let a = high * s;
    let b = low * f;
    assert(a >= p - 4real * pe);
    assert(b <= p + 4real * pe);
    if low >= high {
        let k = 4503599627370496real;
        let l = 4503599627370512real;
        assert(b * k >= a * l) by (nonlinear_arith)
            requires
                b == low * f,
                a == high * s,
                f * k >= s * l,
                low >= high,
                high >= 0real,
                s > 0real,
                k > 0real,
                l > 0real,
        ;
    }
}

} // verus!
