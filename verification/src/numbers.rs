//! What rounding keeps of a calculation.
//!
//! A word stands for a number, and a unit that rounds to nearest gives the word
//! nearest to what it was asked for. So the order of two results is the order of
//! what was asked, a result that is a value comes out exactly, and any other
//! comes out within half a unit in its last place. Laws that say what a formula
//! comes to, whatever the operations it is made of, rest on these three.

use vstd::arithmetic::div_mod::*;
use vstd::arithmetic::power2::*;
use vstd::prelude::*;

use crate::arith;
use crate::arith::{delivers, distance, nearest, Operation};
use crate::arith::{minus, over, plus, rounding, times};
use crate::scalar;
use crate::scalar::{exact, is_finite, is_nan, Scalar, IMPLICIT_BIT, ONE, ZERO};

verus! {

/// The number a word stands for.
pub open spec fn number(x: Scalar) -> real {
    exact(x) as real / scalar::unit() as real
}

/// How far a number is from nothing.
pub open spec fn size(r: real) -> real {
    if r < 0real {
        -r
    } else {
        r
    }
}

/// Half the distance from one to the next word above it.
pub open spec fn epsilon() -> real {
    1real / 9007199254740992real
}

/// The smallest number a word stands for, but nothing.
pub open spec fn tiny() -> real {
    1real / scalar::unit() as real
}

/// A number so large that nothing this side of it is out of range.
pub open spec fn huge() -> real {
    pow2(926) as real
}

/// `x` is `r`, but for one rounding.
pub open spec fn close(x: Scalar, r: real) -> bool {
    &&& is_finite(x)
    &&& size(number(x) - r) <= size(r) * epsilon() + tiny()
}

/// `x` is the whole number `n`.
pub open spec fn whole(x: Scalar, n: int) -> bool {
    &&& is_finite(x)
    &&& exact(x) == n * scalar::unit()
}

// --- order -------------------------------------------------------------------------

/// Rounding never puts two results the wrong way round.
pub proof fn lemma_rounding_keeps_order(
    num: int,
    den: int,
    r: Scalar,
    other_num: int,
    other_den: int,
    other: Scalar,
)
    requires
        delivers(num, den, r),
        delivers(other_num, other_den, other),
        is_finite(r),
        is_finite(other),
        den > 0,
        other_den > 0,
        num * other_den < other_num * den,
    ensures
        exact(r) <= exact(other),
{
    let e = exact(r);
    let f = exact(other);
    if e > f {
        assert(distance(e * den, num) <= distance(f * den, num));
        assert(distance(f * other_den, other_num) <= distance(e * other_den, other_num));
        assert(f * den < e * den && f * other_den < e * other_den) by (nonlinear_arith)
            requires
                e > f,
                den > 0,
                other_den > 0,
        ;
        assert((e * den + f * den) * other_den <= (2 * num) * other_den) by (nonlinear_arith)
            requires
                e * den + f * den <= 2 * num,
                other_den > 0,
        ;
        assert((e * other_den + f * other_den) * den >= (2 * other_num) * den) by (nonlinear_arith)
            requires
                e * other_den + f * other_den >= 2 * other_num,
                den > 0,
        ;
        assert((e * other_den + f * other_den) * den == (e * den + f * den) * other_den)
            by (nonlinear_arith);
        assert((2 * num) * other_den < (2 * other_num) * den) by (nonlinear_arith)
            requires
                num * other_den < other_num * den,
        ;
    }
}

// --- error -------------------------------------------------------------------------

/// The binade of a whole number of units: its 53 leading bits reach down to `2^k`.
proof fn lemma_binade(q: int, j: nat) -> (k: nat)
    requires
        0 <= q < 2 * IMPLICIT_BIT * pow2(j),
    ensures
        k <= j,
        q < 2 * IMPLICIT_BIT * pow2(k),
        k == 0 || q >= IMPLICIT_BIT * pow2(k),
    decreases j,
{
    if j == 0 || q >= IMPLICIT_BIT * pow2(j) {
        j
    } else {
        lemma_pow2_unfold(j);
        let lower = pow2((j - 1) as nat);
        assert(IMPLICIT_BIT * (2 * lower) == 2 * IMPLICIT_BIT * lower) by (nonlinear_arith);
        lemma_binade(q, (j - 1) as nat)
    }
}

/// Two words lie round any number in range, and no further apart than one in `2^52`
/// of it, or than the smallest number there is.
proof fn lemma_bracket(num: int, den: int) -> (found: (Scalar, Scalar, int))
    requires
        den > 0,
        0 <= num < pow2(2000) * den,
    ensures
        is_finite(found.0),
        is_finite(found.1),
        found.2 > 0,
        exact(found.1) == exact(found.0) + found.2,
        exact(found.0) * den <= num <= exact(found.1) * den,
        found.2 == 1 || IMPLICIT_BIT * (found.2 * den) <= num,
{
    let q = num / den;
    lemma_fundamental_div_mod(num, den);
    lemma_div_pos_is_pos(num, den);
    assert(den * q == q * den) by (nonlinear_arith);
    assert(q < pow2(2000)) by (nonlinear_arith)
        requires
            q * den <= num < pow2(2000) * den,
            den > 0,
    ;
    lemma2_to64();
    lemma2_to64_rest();
    assert(2 * IMPLICIT_BIT == pow2(53)) by {
        lemma_pow2_adds(32, 21);
    }
    lemma_pow2_adds(53, 1947);
    let k = lemma_binade(q, 1947);
    let g = pow2(k) as int;
    lemma_pow2_pos(k);
    let m = q / g;
    lemma_fundamental_div_mod(q, g);
    lemma_div_pos_is_pos(q, g);
    assert(g * m == m * g) by (nonlinear_arith);
    assert(m < 2 * IMPLICIT_BIT) by (nonlinear_arith)
        requires
            m * g <= q < 2 * IMPLICIT_BIT * g,
            g > 0,
    ;
    let low = scalar::lemma_representable(m as nat, k);
    let high = if m + 1 < 2 * IMPLICIT_BIT {
        scalar::lemma_representable((m + 1) as nat, k)
    } else {
        lemma_pow2_unfold(k + 1);
        let s = scalar::lemma_representable(IMPLICIT_BIT as nat, k + 1);
        assert(IMPLICIT_BIT * (2 * g) == (2 * IMPLICIT_BIT) * g) by (nonlinear_arith);
        s
    };
    assert((m + 1) * g == m * g + g) by (nonlinear_arith);
    assert((m * g) * den <= q * den) by (nonlinear_arith)
        requires
            m * g <= q,
            den > 0,
    ;
    assert((q + 1) * den <= (m * g + g) * den) by (nonlinear_arith)
        requires
            q + 1 <= m * g + g,
            den > 0,
    ;
    assert((q + 1) * den == q * den + den) by (nonlinear_arith);
    if k == 0 {
        assert(g == 1);
    } else {
        assert(IMPLICIT_BIT * (g * den) <= q * den) by (nonlinear_arith)
            requires
                IMPLICIT_BIT * g <= q,
                den > 0,
        ;
    }
    (low, high, g)
}

/// A result in range is off by no more than one part in `2^53`, or half the smallest
/// number there is.
pub proof fn lemma_rounding_error(num: int, den: int, r: Scalar)
    requires
        delivers(num, den, r),
        den > 0,
        -(pow2(2000) * den) < num < pow2(2000) * den,
    ensures
        is_finite(r),
        ({
            let off = 2 * IMPLICIT_BIT * distance(exact(r) * den, num);
            off <= IMPLICIT_BIT * den || off <= distance(num, 0)
        }),
{
    let top = scalar::lemma_representable(1, 2000);
    scalar::lemma_largest(top);
    let most = exact(arith::LARGEST);
    assert(pow2(2000) * den <= most * den) by (nonlinear_arith)
        requires
            pow2(2000) <= most,
            den > 0,
    ;
    let (low, high, g) = lemma_bracket(distance(num, 0), den);
    scalar::law_negation_flips(low);
    scalar::law_negation_flips(high);
    let (l, h) = if num >= 0 {
        (low, high)
    } else {
        (scalar::negation(high), scalar::negation(low))
    };
    let e = exact(r);
    assert(distance(e * den, num) <= distance(exact(l) * den, num));
    assert(distance(e * den, num) <= distance(exact(h) * den, num));
    assert(exact(h) * den == exact(l) * den + g * den) by (nonlinear_arith)
        requires
            exact(h) == exact(l) + g,
    ;
    assert(exact(l) * den <= num <= exact(h) * den) by {
        if num < 0 {
            let a = exact(low);
            let b = exact(high);
            assert((-a) * den == -(a * den) && (-b) * den == -(b * den)) by (nonlinear_arith);
        }
    }
    let off = distance(e * den, num);
    let half = IMPLICIT_BIT as int;
    let wide = g * den;
    assert(2 * half * off <= half * wide) by (nonlinear_arith)
        requires
            2 * off <= wide,
            half > 0,
    ;
    if g == 1 {
        assert(wide == den);
    }
}

// --- numbers -----------------------------------------------------------------------

/// A product of whole numbers is the product of the numbers.
pub proof fn lemma_product_of_wholes(a: int, b: int)
    ensures
        (a * b) as real == (a as real) * (b as real),
{
    assert((a * b) as real == (a as real) * (b as real)) by (nonlinear_arith);
}

/// A result in range is what was asked for, but for one rounding.
pub proof fn lemma_delivered_is_close(num: int, den: int, r: Scalar, asked: real)
    requires
        delivers(num, den, r),
        den > 0,
        asked * (den as real * scalar::unit() as real) == num as real,
        size(asked) < huge(),
    ensures
        close(r, asked),
{
    let u = scalar::unit();
    scalar::lemma_one();
    let d = den as real;
    let w = u as real;
    lemma_pow2_adds(926, 1074);
    lemma_product_of_wholes(pow2(926) as int, u);
    lemma_product_of_wholes(pow2(2000) as int, den);
    let dw = d * w;
    assert(dw > 0real) by (nonlinear_arith)
        requires
            d > 0real,
            w > 0real,
            dw == d * w,
    ;
    let top = (pow2(2000) * den) as real;
    assert(top == huge() * dw) by (nonlinear_arith)
        requires
            top == (huge() * w) * d,
            dw == d * w,
    ;
    assert(-top < asked * dw < top) by (nonlinear_arith)
        requires
            -huge() < asked < huge(),
            dw > 0real,
            top == huge() * dw,
    ;
    lemma_rounding_error(num, den, r);
    let e = exact(r) as real;
    lemma_product_of_wholes(exact(r), den);
    let off = distance(exact(r) * den, num) as real;
    let n = number(r);
    assert(n * w == e) by (nonlinear_arith)
        requires
            n == e / w,
            w > 0real,
    ;
    let gap = size(n - asked);
    assert(gap * dw == off) by {
        assert((n - asked) * dw == e * d - asked * dw) by (nonlinear_arith)
            requires
                n * w == e,
                dw == d * w,
        ;
        let over = n - asked;
        assert((-over) * dw == -(over * dw)) by (nonlinear_arith);
        if over >= 0real {
            assert(over * dw >= 0real) by (nonlinear_arith)
                requires
                    over >= 0real,
                    dw > 0real,
            ;
        } else {
            assert(over * dw < 0real) by (nonlinear_arith)
                requires
                    over < 0real,
                    dw > 0real,
            ;
        }
    }
    let far = distance(num, 0) as real;
    assert(size(asked) * dw == far) by {
        assert((-asked) * dw == -(asked * dw)) by (nonlinear_arith);
        if asked >= 0real {
            assert(asked * dw >= 0real) by (nonlinear_arith)
                requires
                    asked >= 0real,
                    dw > 0real,
            ;
        } else {
            assert(asked * dw < 0real) by (nonlinear_arith)
                requires
                    asked < 0real,
                    dw > 0real,
            ;
        }
    }
    let b = 9007199254740992real;
    let t = tiny();
    assert(t * w == 1real) by (nonlinear_arith)
        requires
            t == 1real / w,
            w > 0real,
    ;
    let s = size(asked);
    assert(b * off <= far || 2real * off <= d);
    assert(gap <= s * epsilon() + t) by {
        assert(s >= 0real && t > 0real) by (nonlinear_arith)
            requires
                t * w == 1real,
                w > 0real,
                s == size(asked),
        ;
        if b * off <= far {
            assert(gap * b <= s) by (nonlinear_arith)
                requires
                    b * (gap * dw) <= s * dw,
                    dw > 0real,
            ;
            assert(gap <= s * epsilon()) by (nonlinear_arith)
                requires
                    gap * b <= s,
                    epsilon() == 1real / b,
                    b == 9007199254740992real,
            ;
        } else {
            assert(t * dw == d) by (nonlinear_arith)
                requires
                    t * w == 1real,
                    dw == d * w,
            ;
            assert(gap <= t) by (nonlinear_arith)
                requires
                    2real * (gap * dw) <= t * dw,
                    dw > 0real,
                    t > 0real,
            ;
            assert(s * epsilon() >= 0real) by (nonlinear_arith)
                requires
                    s >= 0real,
                    epsilon() == 1real / 9007199254740992real,
            ;
        }
    }
}

/// The size of a product is the product of the sizes.
pub proof fn lemma_size_of_product(a: real, b: real)
    ensures
        size(a * b) == size(a) * size(b),
{
    let (x, y) = (size(a), size(b));
    assert((-a) * b == -(a * b) && a * (-b) == -(a * b) && (-a) * (-b) == a * b)
        by (nonlinear_arith);
    assert(x * y >= 0real) by (nonlinear_arith)
        requires
            x >= 0real,
            y >= 0real,
    ;
}

/// The larger of two numbers has the larger multiples.
pub proof fn lemma_multiples(a: real, b: real, c: real)
    requires
        a <= b,
        c >= 0real,
    ensures
        a * c <= b * c,
        c * a <= c * b,
{
    assert(a * c <= b * c && c * a <= c * b) by (nonlinear_arith)
        requires
            a <= b,
            c >= 0real,
    ;
}

/// The smallest number is far below any rounding of an ordinary one.
pub proof fn lemma_tiny()
    ensures
        0real < tiny(),
        tiny() * 1000000000000000000000000000000real <= 1real,
        epsilon() * 9007199254740992real == 1real,
{
    scalar::lemma_one();
    lemma2_to64();
    lemma2_to64_rest();
    lemma_pow2_adds(60, 60);
    lemma_pow2_strictly_increases(120, 1074);
    assert(pow2(60) == 1152921504606846976);
    let a: int = 1152921504606846976;
    assert(a * a >= 1000000000000000000000000000000) by (nonlinear_arith)
        requires
            a == 1152921504606846976,
    ;
    let w = scalar::unit() as real;
    let y = tiny();
    assert(y * w == 1real && y > 0real) by (nonlinear_arith)
        requires
            y == 1real / w,
            w > 0real,
    ;
    lemma_multiples(1000000000000000000000000000000real, w, y);
    let e = epsilon();
    assert(e * 9007199254740992real == 1real) by (nonlinear_arith)
        requires
            e == 1real / 9007199254740992real,
    ;
}

/// Ordinary numbers are in range.
pub proof fn lemma_in_range(n: real)
    requires
        size(n) <= 1000000000000000000000000000000real,
    ensures
        size(n) < huge(),
{
    lemma_pow2_strictly_increases(120, 926);
    lemma_pow2_adds(60, 60);
    lemma2_to64_rest();
    let a: int = 1152921504606846976;
    assert(pow2(60) == a);
    assert(a * a >= 1000000000000000000000000000000) by (nonlinear_arith)
        requires
            a == 1152921504606846976,
    ;
}

/// How far off one rounding is, counted in parts of `2^53`.
pub proof fn lemma_off(x: Scalar, r: real)
    requires
        close(x, r),
    ensures
        9007199254740992real * size(number(x) - r) <= size(r) + 9007199254740992real * tiny(),
        0real < 9007199254740992real * tiny() <= 1real / 10000000000real,
        size(number(x)) <= 2real * size(r) + tiny(),
{
    lemma_tiny();
    let e = epsilon();
    let s = size(r);
    assert((s * e) * 9007199254740992real == s) by (nonlinear_arith)
        requires
            e * 9007199254740992real == 1real,
    ;
}

/// A word and its number: what is exact in units is exact in numbers.
pub proof fn lemma_number(x: Scalar)
    ensures
        scalar::unit() as real > 0real,
        number(x) * scalar::unit() as real == exact(x) as real,
        exact(x) > 0 <==> number(x) > 0real,
        exact(x) < 0 <==> number(x) < 0real,
        exact(x) == 0 <==> number(x) == 0real,
        number(ZERO) == 0real,
        number(ONE) == 1real,
        tiny() > 0real,
{
    scalar::lemma_one();
    scalar::lemma_exact_order(ZERO, ZERO);
    let w = scalar::unit() as real;
    let e = exact(x) as real;
    let n = number(x);
    assert(n * w == e) by (nonlinear_arith)
        requires
            n == e / w,
            w > 0real,
    ;
    assert((n > 0real <==> e > 0real) && (n < 0real <==> e < 0real) && (n == 0real <==> e == 0real))
        by (nonlinear_arith)
        requires
            n * w == e,
            w > 0real,
    ;
    assert(w / w == 1real && 0real / w == 0real && 1real / w > 0real) by (nonlinear_arith)
        requires
            w > 0real,
    ;
}

/// The order of words is the order of their numbers.
pub proof fn lemma_number_order(a: Scalar, b: Scalar)
    ensures
        exact(a) < exact(b) <==> number(a) < number(b),
        exact(a) == exact(b) <==> number(a) == number(b),
{
    lemma_number(a);
    lemma_number(b);
    let w = scalar::unit() as real;
    let m = number(a);
    let n = number(b);
    assert((m < n <==> m * w < n * w) && (m == n <==> m * w == n * w)) by (nonlinear_arith)
        requires
            w > 0real,
    ;
}

/// The four operations, each within one rounding of what was asked.
pub proof fn lemma_close_plus<F: Fn(Operation) -> Scalar>(unit: &F, a: Scalar, b: Scalar)
    requires
        rounding(unit),
        is_finite(a),
        is_finite(b),
        size(number(a) + number(b)) < huge(),
    ensures
        close(plus(unit, a, b), number(a) + number(b)),
{
    lemma_number(a);
    lemma_number(b);
    let w = scalar::unit() as real;
    let (m, n) = (number(a), number(b));
    assert((m + n) * (1real * w) == m * w + n * w) by (nonlinear_arith);
    lemma_delivered_is_close(exact(a) + exact(b), 1, plus(unit, a, b), m + n);
}

pub proof fn lemma_close_minus<F: Fn(Operation) -> Scalar>(unit: &F, a: Scalar, b: Scalar)
    requires
        rounding(unit),
        is_finite(a),
        is_finite(b),
        size(number(a) - number(b)) < huge(),
    ensures
        close(minus(unit, a, b), number(a) - number(b)),
{
    lemma_number(a);
    lemma_number(b);
    let w = scalar::unit() as real;
    let (m, n) = (number(a), number(b));
    assert((m - n) * (1real * w) == m * w - n * w) by (nonlinear_arith);
    lemma_delivered_is_close(exact(a) - exact(b), 1, minus(unit, a, b), m - n);
}

pub proof fn lemma_close_times<F: Fn(Operation) -> Scalar>(unit: &F, a: Scalar, b: Scalar)
    requires
        rounding(unit),
        is_finite(a),
        is_finite(b),
        size(number(a) * number(b)) < huge(),
    ensures
        close(times(unit, a, b), number(a) * number(b)),
{
    lemma_number(a);
    lemma_number(b);
    let w = scalar::unit() as real;
    let (m, n) = (number(a), number(b));
    lemma_product_of_wholes(exact(a), exact(b));
    assert((m * n) * (w * w) == (m * w) * (n * w)) by (nonlinear_arith);
    lemma_delivered_is_close(exact(a) * exact(b), scalar::unit(), times(unit, a, b), m * n);
}

pub proof fn lemma_close_over<F: Fn(Operation) -> Scalar>(unit: &F, a: Scalar, b: Scalar)
    requires
        rounding(unit),
        is_finite(a),
        is_finite(b),
        number(b) > 0real,
        size(number(a) / number(b)) < huge(),
    ensures
        close(over(unit, a, b), number(a) / number(b)),
{
    lemma_number(a);
    lemma_number(b);
    let w = scalar::unit() as real;
    let (m, n) = (number(a), number(b));
    lemma_product_of_wholes(exact(a), scalar::unit());
    let q = m / n;
    assert(q * n == m) by (nonlinear_arith)
        requires
            q == m / n,
            n > 0real,
    ;
    assert(q * ((n * w) * w) == (m * w) * w) by (nonlinear_arith)
        requires
            q * n == m,
    ;
    lemma_delivered_is_close(exact(a) * scalar::unit(), exact(b), over(unit, a, b), q);
}

/// What is off in two terms and in their sum is off in the whole.
proof fn lemma_off_in_all(p: real, x: real, q: real, y: real, r: real)
    requires
        9007199254740992real * size(p - x) <= size(x) + 1real / 10000000000real,
        9007199254740992real * size(q - y) <= size(y) + 1real / 10000000000real,
        9007199254740992real * size(r - (p + q)) <= size(p + q) + 1real / 10000000000real,
    ensures
        size(r - (x + y)) * 9007199254740992real <= 4real * (size(x) + size(y)) + 1real
            / 1000000000real,
{
    assert(size(p) <= 2real * size(x) + 1real / 10000000000real);
    assert(size(q) <= 2real * size(y) + 1real / 10000000000real);
}

/// One product, but for its rounding.
proof fn lemma_product_off<F: Fn(Operation) -> Scalar>(unit: &F, a: Scalar, b: Scalar)
    requires
        rounding(unit),
        is_finite(a),
        is_finite(b),
        size(number(a) * number(b)) <= 100000000000000000000real,
    ensures
        ({
            let p = times(unit, a, b);
            let x = number(a) * number(b);
            &&& is_finite(p)
            &&& 9007199254740992real * size(number(p) - x) <= size(x) + 1real / 10000000000real
            &&& size(number(p)) <= 300000000000000000000real
        }),
{
    lemma_in_range(number(a) * number(b));
    lemma_close_times(unit, a, b);
    lemma_off(times(unit, a, b), number(a) * number(b));
}

/// Two products, and their sum or difference, but for three roundings.
pub proof fn lemma_two_products<F: Fn(Operation) -> Scalar>(
    unit: &F,
    a: Scalar,
    c: Scalar,
    b: Scalar,
    d: Scalar,
    less: bool,
)
    requires
        rounding(unit),
        is_finite(a),
        is_finite(b),
        is_finite(c),
        is_finite(d),
        size(number(a) * number(c)) <= 100000000000000000000real,
        size(number(b) * number(d)) <= 100000000000000000000real,
    ensures
        ({
            let (p, q) = (times(unit, a, c), times(unit, b, d));
            let both = if less {
                minus(unit, p, q)
            } else {
                plus(unit, p, q)
            };
            let asked = if less {
                number(a) * number(c) - number(b) * number(d)
            } else {
                number(a) * number(c) + number(b) * number(d)
            };
            &&& is_finite(both)
            &&& size(number(both) - asked) * 9007199254740992real <= 4real * (size(
                number(a) * number(c),
            ) + size(number(b) * number(d))) + 1real / 1000000000real
        }),
{
    let (p, q) = (times(unit, a, c), times(unit, b, d));
    let (x, y) = (number(a) * number(c), number(b) * number(d));
    lemma_product_off(unit, a, c);
    lemma_product_off(unit, b, d);
    let (m, n) = (number(p), number(q));
    if less {
        lemma_in_range(m - n);
        lemma_close_minus(unit, p, q);
        lemma_off(minus(unit, p, q), m - n);
        lemma_off_in_all(m, x, -n, -y, number(minus(unit, p, q)));
    } else {
        lemma_in_range(m + n);
        lemma_close_plus(unit, p, q);
        lemma_off(plus(unit, p, q), m + n);
        lemma_off_in_all(m, x, n, y, number(plus(unit, p, q)));
    }
}

/// A result that is a value comes out exactly.
pub proof fn lemma_exact_results<F: Fn(Operation) -> Scalar>(
    unit: &F,
    a: Scalar,
    b: Scalar,
    value: Scalar,
)
    requires
        rounding(unit),
        is_finite(a),
        is_finite(b),
        is_finite(value),
    ensures
        number(a) + number(b) == number(value) ==> is_finite(plus(unit, a, b)) && exact(
            plus(unit, a, b),
        ) == exact(value),
        number(a) - number(b) == number(value) ==> is_finite(minus(unit, a, b)) && exact(
            minus(unit, a, b),
        ) == exact(value),
        number(a) * number(b) == number(value) ==> is_finite(times(unit, a, b)) && exact(
            times(unit, a, b),
        ) == exact(value),
        number(b) > 0real && number(a) == number(value) * number(b) ==> is_finite(
            over(unit, a, b),
        ) && exact(over(unit, a, b)) == exact(value),
{
    lemma_number(a);
    lemma_number(b);
    lemma_number(value);
    let u = scalar::unit();
    let w = u as real;
    let (m, n, v) = (number(a), number(b), number(value));
    if m + n == v {
        assert((m + n) * w == m * w + n * w) by (nonlinear_arith);
        arith::lemma_exact_is_kept(exact(a) + exact(b), 1, plus(unit, a, b), value);
    }
    if m - n == v {
        assert((m - n) * w == m * w - n * w) by (nonlinear_arith);
        arith::lemma_exact_is_kept(exact(a) - exact(b), 1, minus(unit, a, b), value);
    }
    if m * n == v {
        lemma_product_of_wholes(exact(a), exact(b));
        lemma_product_of_wholes(exact(value), u);
        assert((m * w) * (n * w) == (v * w) * w) by (nonlinear_arith)
            requires
                m * n == v,
        ;
        arith::lemma_exact_is_kept(exact(a) * exact(b), u, times(unit, a, b), value);
    }
    if n > 0real && m == v * n {
        lemma_product_of_wholes(exact(a), u);
        lemma_product_of_wholes(exact(value), exact(b));
        assert((m * w) * w == (v * w) * (n * w)) by (nonlinear_arith)
            requires
                m == v * n,
        ;
        arith::lemma_exact_is_kept(exact(a) * u, exact(b), over(unit, a, b), value);
    }
}

/// Signs multiply and divide as the signs of numbers do, and a sum of two numbers
/// of one sign has that sign.
pub proof fn lemma_signs<F: Fn(Operation) -> Scalar>(unit: &F, a: Scalar, b: Scalar)
    requires
        rounding(unit),
        is_finite(a),
        is_finite(b),
    ensures
        !is_nan(times(unit, a, b)) && !is_nan(plus(unit, a, b)) && !is_nan(minus(unit, a, b)),
        exact(a) * exact(b) >= 0 ==> exact(times(unit, a, b)) >= 0,
        exact(a) * exact(b) <= 0 ==> exact(times(unit, a, b)) <= 0,
        exact(a) + exact(b) >= 0 ==> exact(plus(unit, a, b)) >= 0,
        exact(a) + exact(b) <= 0 ==> exact(plus(unit, a, b)) <= 0,
        exact(a) - exact(b) >= 0 ==> exact(minus(unit, a, b)) >= 0,
        exact(a) - exact(b) <= 0 ==> exact(minus(unit, a, b)) <= 0,
        exact(b) > 0 ==> !is_nan(over(unit, a, b)),
        exact(b) > 0 && exact(a) >= 0 ==> exact(over(unit, a, b)) >= 0,
        exact(b) > 0 && exact(a) <= 0 ==> exact(over(unit, a, b)) <= 0,
{
    scalar::lemma_one();
    lemma_sign_of(exact(a) * exact(b), scalar::unit(), times(unit, a, b));
    lemma_sign_of(exact(a) + exact(b), 1, plus(unit, a, b));
    lemma_sign_of(exact(a) - exact(b), 1, minus(unit, a, b));
    if exact(b) > 0 {
        let e = exact(a);
        let u = scalar::unit();
        lemma_sign_of(e * u, exact(b), over(unit, a, b));
        assert((e >= 0 ==> e * u >= 0) && (e <= 0 ==> e * u <= 0)) by (nonlinear_arith)
            requires
                u > 0,
        ;
    }
}

proof fn lemma_sign_of(num: int, den: int, r: Scalar)
    requires
        delivers(num, den, r),
        den > 0,
    ensures
        !is_nan(r),
        num >= 0 ==> exact(r) >= 0,
        num <= 0 ==> exact(r) <= 0,
{
    scalar::lemma_exact_order(ZERO, ZERO);
    scalar::lemma_largest(ZERO);
    scalar::lemma_exact_order(arith::INFINITY, ZERO);
    scalar::lemma_exact_order(arith::MINUS_INFINITY, ZERO);
    let most = exact(arith::LARGEST);
    assert(most * den > 0) by (nonlinear_arith)
        requires
            most > 0,
            den > 0,
    ;
    if nearest(num, den, r) {
        arith::lemma_nearest_is_bounded(num, den, r, ZERO);
    }
}

/// Two words are at least one part in `2^53` apart.
pub proof fn lemma_spacing(a: Scalar, b: Scalar)
    requires
        is_finite(a),
        is_finite(b),
        0 <= exact(a) < exact(b),
    ensures
        2 * IMPLICIT_BIT * (exact(b) - exact(a)) >= exact(b),
{
    scalar::lemma_exact_order(a, b);
    scalar::lemma_exact_order(b, a);
    scalar::lemma_exact_order(b, ZERO);
    let size = IMPLICIT_BIT as int;
    let m = scalar::magnitude(b);
    let before = m - 1;
    if scalar::negative(a) {
        assert(exact(a) == 0);
    } else if scalar::magnitude(a) < before {
        scalar::lemma_measure_increases(scalar::magnitude(a), before);
    }
    assert(exact(a) <= scalar::measure(before)) by {
        if scalar::negative(a) && before > 0 {
            scalar::lemma_measure_increases(0, before);
            scalar::lemma_exact_order(ZERO, ZERO);
        } else if scalar::negative(a) {
            scalar::lemma_exact_order(ZERO, ZERO);
        }
    }
    let e = m / size;
    let f = m % size;
    lemma_fundamental_div_mod(m, size);
    let gap = scalar::measure(m) - scalar::measure(before);
    assert(2 * size * gap >= scalar::measure(m)) by {
        reveal(scalar::measure);
        if e == 0 {
            lemma_fundamental_div_mod_converse(before, size, 0, f - 1);
        } else if f > 0 {
            lemma_fundamental_div_mod_converse(before, size, e, f - 1);
            let g = pow2((e - 1) as nat) as int;
            assert((size + f) * g - (size + (f - 1)) * g == g) by (nonlinear_arith);
            lemma_pow2_pos((e - 1) as nat);
            assert((size + f) * g <= 2 * size * g) by (nonlinear_arith)
                requires
                    f <= size,
                    g > 0,
            ;
        } else if e == 1 {
            lemma_fundamental_div_mod_converse(before, size, 0, size - 1);
            lemma2_to64();
            assert(pow2(0) == 1);
        } else {
            lemma_fundamental_div_mod_converse(before, size, e - 1, size - 1);
            let g = pow2((e - 2) as nat) as int;
            lemma_pow2_unfold((e - 1) as nat);
            assert(size * (2 * g) - (size + (size - 1)) * g == g) by (nonlinear_arith);
            assert(2 * size * g == size * (2 * g)) by (nonlinear_arith);
        }
    }
    let apart = exact(b) - exact(a);
    assert(2 * size * apart >= 2 * size * gap) by (nonlinear_arith)
        requires
            apart >= gap,
            size > 0,
    ;
}

/// Words with no sign bit that stand for one number are one word.
pub proof fn lemma_one_word(a: Scalar, b: Scalar)
    requires
        !scalar::negative(a),
        !scalar::negative(b),
        exact(a) == exact(b),
    ensures
        a == b,
{
    scalar::lemma_exact_order(a, b);
    scalar::lemma_exact_order(b, a);
}

/// Words that stand for one number, and not for nothing, are one word.
pub proof fn lemma_same_word(a: Scalar, b: Scalar)
    requires
        exact(a) == exact(b),
        exact(a) != 0,
    ensures
        a == b,
{
    scalar::lemma_exact_order(a, b);
    scalar::lemma_exact_order(b, a);
}

/// Each operation keeps the order of what it is given first, what it is given second
/// being the same.
pub proof fn lemma_operations_keep_order<F: Fn(Operation) -> Scalar>(
    unit: &F,
    a: Scalar,
    b: Scalar,
    c: Scalar,
)
    requires
        rounding(unit),
        is_finite(a),
        is_finite(b),
        is_finite(c),
        exact(a) <= exact(b),
    ensures
        is_finite(plus(unit, a, c)) && is_finite(plus(unit, b, c)) ==> exact(plus(unit, a, c))
            <= exact(plus(unit, b, c)),
        is_finite(minus(unit, a, c)) && is_finite(minus(unit, b, c)) ==> exact(minus(unit, a, c))
            <= exact(minus(unit, b, c)),
        is_finite(minus(unit, c, a)) && is_finite(minus(unit, c, b)) ==> exact(minus(unit, c, b))
            <= exact(minus(unit, c, a)),
        exact(c) >= 0 && is_finite(times(unit, a, c)) && is_finite(times(unit, b, c)) ==> exact(
            times(unit, a, c),
        ) <= exact(times(unit, b, c)),
        exact(c) >= 0 && is_finite(times(unit, c, a)) && is_finite(times(unit, c, b)) ==> exact(
            times(unit, c, a),
        ) <= exact(times(unit, c, b)),
        exact(c) > 0 && is_finite(over(unit, a, c)) && is_finite(over(unit, b, c)) ==> exact(
            over(unit, a, c),
        ) <= exact(over(unit, b, c)),
{
    let (x, y, z) = (exact(a), exact(b), exact(c));
    let u = scalar::unit();
    scalar::lemma_one();
    scalar::lemma_exact_order(ZERO, ZERO);
    if x == y && x != 0 {
        lemma_same_word(a, b);
    } else if x == y {
        scalar::law_negation_flips(c);
        assert(z * 1 == z && (-z) * 1 == -z);
        arith::lemma_exact_is_kept(x + z, 1, plus(unit, a, c), c);
        arith::lemma_exact_is_kept(y + z, 1, plus(unit, b, c), c);
        arith::lemma_exact_is_kept(x - z, 1, minus(unit, a, c), scalar::negation(c));
        arith::lemma_exact_is_kept(y - z, 1, minus(unit, b, c), scalar::negation(c));
        arith::lemma_exact_is_kept(z - x, 1, minus(unit, c, a), c);
        arith::lemma_exact_is_kept(z - y, 1, minus(unit, c, b), c);
        arith::lemma_nothing_times(unit, c, a);
        arith::lemma_nothing_times(unit, c, b);
        if z > 0 {
            lemma_signs(unit, a, c);
            lemma_signs(unit, b, c);
        }
    } else {
        if is_finite(plus(unit, a, c)) && is_finite(plus(unit, b, c)) {
            lemma_rounding_keeps_order(x + z, 1, plus(unit, a, c), y + z, 1, plus(unit, b, c));
        }
        if is_finite(minus(unit, a, c)) && is_finite(minus(unit, b, c)) {
            lemma_rounding_keeps_order(x - z, 1, minus(unit, a, c), y - z, 1, minus(unit, b, c));
        }
        if is_finite(minus(unit, c, a)) && is_finite(minus(unit, c, b)) {
            lemma_rounding_keeps_order(z - y, 1, minus(unit, c, b), z - x, 1, minus(unit, c, a));
        }
        if z == 0 {
            arith::lemma_nothing_times(unit, a, c);
            arith::lemma_nothing_times(unit, b, c);
        } else if z > 0 {
            assert((x * z) * u < (y * z) * u && x * z == z * x && y * z == z * y)
                by (nonlinear_arith)
                requires
                    x < y,
                    z > 0,
                    u > 0,
            ;
            if is_finite(times(unit, a, c)) && is_finite(times(unit, b, c)) {
                lemma_rounding_keeps_order(
                    x * z,
                    u,
                    times(unit, a, c),
                    y * z,
                    u,
                    times(unit, b, c),
                );
            }
            if is_finite(times(unit, c, a)) && is_finite(times(unit, c, b)) {
                lemma_rounding_keeps_order(
                    z * x,
                    u,
                    times(unit, c, a),
                    z * y,
                    u,
                    times(unit, c, b),
                );
            }
            if is_finite(over(unit, a, c)) && is_finite(over(unit, b, c)) {
                assert((x * u) * z < (y * u) * z) by (nonlinear_arith)
                    requires
                        x < y,
                        z > 0,
                        u > 0,
                ;
                lemma_rounding_keeps_order(x * u, z, over(unit, a, c), y * u, z, over(unit, b, c));
            }
        }
    }
}

/// A difference of two different numbers is not nothing.
pub proof fn lemma_differences_show<F: Fn(Operation) -> Scalar>(unit: &F, a: Scalar, b: Scalar)
    requires
        rounding(unit),
        is_finite(a),
        is_finite(b),
        exact(a) < exact(b),
    ensures
        exact(minus(unit, b, a)) > 0,
        exact(minus(unit, a, b)) < 0,
{
    let one: Scalar = 1;
    let less: Scalar = scalar::negation(one);
    scalar::law_negation_flips(one);
    lemma2_to64();
    assert(exact(one) == 1) by {
        reveal(scalar::measure);
    }
    scalar::lemma_largest(ZERO);
    scalar::lemma_exact_order(arith::INFINITY, ZERO);
    scalar::lemma_exact_order(arith::MINUS_INFINITY, ZERO);
    let up = minus(unit, b, a);
    let down = minus(unit, a, b);
    if is_finite(up) {
        arith::lemma_nearest_is_bounded(exact(b) - exact(a), 1, up, one);
    }
    if is_finite(down) {
        arith::lemma_nearest_is_bounded(exact(a) - exact(b), 1, down, less);
    }
}

/// Anything divided by itself, or by less, is at least one; by itself or more, at
/// most one.
pub proof fn lemma_over_one<F: Fn(Operation) -> Scalar>(unit: &F, a: Scalar, b: Scalar)
    requires
        rounding(unit),
        is_finite(a),
        is_finite(b),
        exact(b) > 0,
    ensures
        exact(a) >= exact(b) ==> exact(over(unit, a, b)) >= exact(ONE),
        exact(a) <= exact(b) ==> exact(over(unit, a, b)) <= exact(ONE),
        !is_nan(over(unit, a, b)),
{
    let u = scalar::unit();
    scalar::lemma_one();
    let (x, y) = (exact(a), exact(b));
    let r = over(unit, a, b);
    lemma_signs(unit, a, b);
    assert((x >= y ==> x * u >= u * y) && (x <= y ==> x * u <= u * y)) by (nonlinear_arith)
        requires
            u > 0,
    ;
    scalar::lemma_largest(ONE);
    scalar::lemma_exact_order(arith::INFINITY, ONE);
    scalar::lemma_exact_order(ONE, arith::INFINITY);
    scalar::lemma_exact_order(arith::MINUS_INFINITY, ONE);
    let most = exact(arith::LARGEST);
    assert(most * y >= u * y) by (nonlinear_arith)
        requires
            most >= u,
            y > 0,
    ;
    if nearest(x * u, y, r) {
        arith::lemma_nearest_is_bounded(x * u, y, r, ONE);
    }
}

/// A product of words has the sign of the product of their numbers.
pub proof fn lemma_sign_of_product<F: Fn(Operation) -> Scalar>(unit: &F, a: Scalar, b: Scalar)
    requires
        rounding(unit),
        is_finite(a),
        is_finite(b),
    ensures
        number(a) * number(b) >= 0real ==> number(times(unit, a, b)) >= 0real,
        number(a) * number(b) <= 0real ==> number(times(unit, a, b)) <= 0real,
{
    lemma_number(a);
    lemma_number(b);
    lemma_number(times(unit, a, b));
    lemma_signs(unit, a, b);
    let (x, y) = (exact(a), exact(b));
    let (m, n) = (number(a), number(b));
    assert((m > 0real && n > 0real ==> m * n > 0real) && (m < 0real && n < 0real ==> m * n > 0real)
        && (m > 0real && n < 0real ==> m * n < 0real) && (m < 0real && n > 0real ==> m * n < 0real))
        by (nonlinear_arith);
    assert((x > 0 && y > 0 ==> x * y > 0) && (x < 0 && y < 0 ==> x * y > 0) && (x > 0 && y < 0
        ==> x * y < 0) && (x < 0 && y > 0 ==> x * y < 0) && (x == 0 || y == 0 ==> x * y == 0))
        by (nonlinear_arith);
}

/// Something added moves a sum the way it points.
pub proof fn lemma_close_signs<F: Fn(Operation) -> Scalar>(
    unit: &F,
    start: Scalar,
    a: Scalar,
    b: Scalar,
)
    requires
        rounding(unit),
        is_finite(start),
        is_finite(a),
        is_finite(b),
        is_finite(times(unit, a, b)),
        is_finite(plus(unit, start, times(unit, a, b))),
    ensures
        number(a) * number(b) >= 0real ==> number(plus(unit, start, times(unit, a, b))) >= number(
            start,
        ),
        number(a) * number(b) <= 0real ==> number(plus(unit, start, times(unit, a, b))) <= number(
            start,
        ),
{
    let step = times(unit, a, b);
    let end = plus(unit, start, step);
    lemma_sign_of_product(unit, a, b);
    lemma_number(step);
    assert(exact(start) * 1 == exact(start));
    arith::lemma_nearest_is_bounded(exact(start) + exact(step), 1, end, start);
    lemma_number_order(start, end);
    lemma_number_order(end, start);
}

// --- formulas ----------------------------------------------------------------------

/// `x` is `r`, give or take so many parts in `2^53`.
pub open spec fn within(x: Scalar, r: real, parts: real) -> bool {
    &&& is_finite(x)
    &&& size(number(x) - r) * 9007199254740992real <= parts
}

/// `x` is `r`, to a millionth.
pub open spec fn nearly(x: Scalar, r: real) -> bool {
    is_finite(x) && size(number(x) - r) * 1000000real <= 1real
}

/// A word whose number is no larger than `most`, either way.
pub open spec fn upto(x: Scalar, most: real) -> bool {
    is_finite(x) && size(number(x)) <= most
}

pub proof fn lemma_within_plus<F: Fn(Operation) -> Scalar>(
    unit: &F,
    a: Scalar,
    x: real,
    p: real,
    b: Scalar,
    y: real,
    q: real,
)
    requires
        rounding(unit),
        within(a, x, p),
        within(b, y, q),
        p + q <= 9007199254740992real,
        size(x) + size(y) <= 100000000000000000000000000000real,
    ensures
        within(plus(unit, a, b), x + y, p + q + size(x) + size(y) + 2real),
{
    let (m, n) = (number(a), number(b));
    lemma_in_range(m + n);
    lemma_close_plus(unit, a, b);
    lemma_off(plus(unit, a, b), m + n);
    lemma_off_in_sum(m, x, p, n, y, q, number(plus(unit, a, b)));
}

pub proof fn lemma_within_minus<F: Fn(Operation) -> Scalar>(
    unit: &F,
    a: Scalar,
    x: real,
    p: real,
    b: Scalar,
    y: real,
    q: real,
)
    requires
        rounding(unit),
        within(a, x, p),
        within(b, y, q),
        p + q <= 9007199254740992real,
        size(x) + size(y) <= 100000000000000000000000000000real,
    ensures
        within(minus(unit, a, b), x - y, p + q + size(x) + size(y) + 2real),
{
    let (m, n) = (number(a), number(b));
    lemma_in_range(m - n);
    lemma_close_minus(unit, a, b);
    lemma_off(minus(unit, a, b), m - n);
    lemma_off_in_sum(m, x, p, -n, -y, q, number(minus(unit, a, b)));
}

proof fn lemma_off_in_sum(m: real, x: real, p: real, n: real, y: real, q: real, r: real)
    requires
        size(m - x) * 9007199254740992real <= p,
        size(n - y) * 9007199254740992real <= q,
        p + q <= 9007199254740992real,
        9007199254740992real * size(r - (m + n)) <= size(m + n) + 1real / 10000000000real,
    ensures
        size(r - (x + y)) * 9007199254740992real <= p + q + size(x) + size(y) + 2real,
{
    assert(size(m + n) <= size(x) + size(y) + 1real);
}

pub proof fn lemma_within_times<F: Fn(Operation) -> Scalar>(
    unit: &F,
    a: Scalar,
    x: real,
    p: real,
    b: Scalar,
    y: real,
    q: real,
    most_x: real,
    most_y: real,
)
    requires
        rounding(unit),
        within(a, x, p),
        within(b, y, q),
        p <= 9007199254740992real,
        q <= 9007199254740992real,
        size(x) <= most_x,
        size(y) <= most_y,
        (most_x + 1real) * (most_y + 1real) <= 100000000000000000000000000000real,
    ensures
        within(
            times(unit, a, b),
            x * y,
            most_x * q + (most_y + 1real) * p + (most_x + 1real) * (most_y + 1real) + 1real,
        ),
        size(x * y) <= most_x * most_y,
{
    let (m, n) = (number(a), number(b));
    let k = 9007199254740992real;
    assert(size(m) <= most_x + 1real && size(n) <= most_y + 1real);
    lemma_size_of_product(m, n);
    lemma_multiples(size(m), most_x + 1real, size(n));
    lemma_multiples(size(n), most_y + 1real, most_x + 1real);
    let all = (most_x + 1real) * (most_y + 1real);
    assert(size(m * n) <= all);
    lemma_in_range(m * n);
    lemma_close_times(unit, a, b);
    lemma_off(times(unit, a, b), m * n);
    // m n - x y == (m - x) n + x (n - y)
    let f = m - x;
    let g = n - y;
    assert(m * n - x * y == f * n + x * g) by (nonlinear_arith)
        requires
            f == m - x,
            g == n - y,
    ;
    lemma_size_of_product(f, n);
    lemma_size_of_product(x, g);
    lemma_multiples(size(f) * k, p, size(n));
    assert((size(f) * k) * size(n) == (size(f) * size(n)) * k) by (nonlinear_arith);
    lemma_multiples(size(n), most_y + 1real, p);
    assert(p * (most_y + 1real) == (most_y + 1real) * p) by (nonlinear_arith);
    lemma_multiples(size(g) * k, q, size(x));
    assert(size(x) * (size(g) * k) == (size(x) * size(g)) * k) by (nonlinear_arith);
    lemma_multiples(size(x), most_x, q);
    lemma_size_of_product(x, y);
    lemma_multiples(size(x), most_x, size(y));
    lemma_multiples(size(y), most_y, most_x);
}

/// A quotient by a word, which is what it is.
pub proof fn lemma_within_over<F: Fn(Operation) -> Scalar>(
    unit: &F,
    a: Scalar,
    x: real,
    p: real,
    b: Scalar,
    share: real,
    q: real,
)
    requires
        rounding(unit),
        within(a, x, p),
        is_finite(b),
        number(b) > 0real,
        size(x) <= share * number(b),
        p <= q * number(b),
        q <= 9007199254740992real,
        share <= 100000000000000000000000000000real,
    ensures
        within(over(unit, a, b), x / number(b), q + share + 2real),
        size(x / number(b)) <= share,
{
    let (m, n) = (number(a), number(b));
    let k = 9007199254740992real;
    let (r, s) = (m / n, x / n);
    assert(r * n == m && s * n == x) by (nonlinear_arith)
        requires
            r == m / n,
            s == x / n,
            n > 0real,
    ;
    lemma_size_of_product(s, n);
    lemma_cancel(size(s), share, n);
    let gap = r - s;
    assert(gap * n == m - x) by (nonlinear_arith)
        requires
            gap == r - s,
            r * n == m,
            s * n == x,
    ;
    lemma_size_of_product(gap, n);
    assert((size(gap) * k) * n == (size(gap) * n) * k) by (nonlinear_arith);
    lemma_cancel(size(gap) * k, q, n);
    lemma_in_range(r);
    lemma_close_over(unit, a, b);
    lemma_off(over(unit, a, b), r);
}

pub proof fn lemma_cancel(a: real, b: real, c: real)
    requires
        a * c <= b * c,
        c > 0real,
    ensures
        a <= b,
{
    assert(a <= b) by (nonlinear_arith)
        requires
            a * c <= b * c,
            c > 0real,
    ;
}

/// Half, and the words made of others without rounding.
pub proof fn lemma_unrounded(x: Scalar)
    ensures
        number(0x3fe0_0000_0000_0000) == 1real / 2real,
        is_finite(0x3fe0_0000_0000_0000),
        number(scalar::negation(x)) == -number(x),
        is_finite(scalar::negation(x)) == is_finite(x),
        number(ONE) == 1real && is_finite(ONE),
        number(scalar::MINUS_ONE) == -1real && is_finite(scalar::MINUS_ONE),
        number(ZERO) == 0real && is_finite(ZERO),
        is_finite(x) ==> number(scalar::absolute(x)) == size(number(x)) && is_finite(
            scalar::absolute(x),
        ),
{
    let half: Scalar = 0x3fe0_0000_0000_0000;
    lemma_number(x);
    lemma_number(half);
    lemma_number(scalar::negation(x));
    lemma_number(scalar::MINUS_ONE);
    lemma_number(scalar::absolute(x));
    scalar::law_negation_flips(x);
    scalar::law_negation_flips(ONE);
    scalar::lemma_exact_order(x, ZERO);
    scalar::lemma_one();
    assert(scalar::negation(ONE) == scalar::MINUS_ONE);
    scalar::lemma_power(half, 1022);
    lemma_pow2_unfold(1074);
    let w = scalar::unit() as real;
    let (h, m, n) = (number(half), number(x), number(scalar::negation(x)));
    let o = number(scalar::MINUS_ONE);
    let a = number(scalar::absolute(x));
    assert(2real * (h * w) == w);
    assert(h == 1real / 2real && n == -m && o == -1real && (a == m || a == -m))
        by (nonlinear_arith)
        requires
            2real * (h * w) == w,
            n * w == -(m * w),
            o * w == -w,
            a * w == m * w || a * w == -(m * w),
            w > 0real,
    ;
}

/// The number of a word whose 53-bit integer is `m`, over `2^k`.
pub proof fn lemma_word(x: Scalar, m: nat, exponent: nat, k: nat, whole: int)
    requires
        1 <= exponent <= 1075,
        k == 1075 - exponent,
        whole == pow2(k),
        IMPLICIT_BIT <= m < 2 * IMPLICIT_BIT,
        x == (exponent - 1) * IMPLICIT_BIT + m,
    ensures
        is_finite(x),
        number(x) * (whole as real) == m as real,
{
    lemma2_to64();
    scalar::lemma_scaled(x, m, 0, exponent);
    let low = (exponent - 1) as nat;
    lemma_pow2_adds(k, low);
    lemma_pow2_pos(low);
    let g = pow2(low) as real;
    let big = pow2(k) as real;
    lemma_product_of_wholes(m as int, pow2(low) as int);
    lemma_product_of_wholes(pow2(k) as int, pow2(low) as int);
    let n = number(x);
    lemma_number(x);
    assert(n * big == m as real) by (nonlinear_arith)
        requires
            n * (big * g) == (m as real) * g,
            g > 0real,
    ;
}

/// The side of nothing that a word is on.
pub proof fn lemma_side(x: Scalar)
    requires
        is_finite(x),
    ensures
        is_finite(scalar::sign_of(x)),
        number(x) > 0real ==> number(scalar::sign_of(x)) == 1real,
        number(x) < 0real ==> number(scalar::sign_of(x)) == -1real,
        size(number(scalar::sign_of(x))) == 1real,
{
    lemma_unrounded(x);
    lemma_number(x);
    scalar::lemma_exact_order(x, ZERO);
}

// --- whole numbers -----------------------------------------------------------------

/// A whole number of up to 53 bits is a value.
pub proof fn lemma_whole_value(n: int) -> (s: Scalar)
    requires
        -(2 * IMPLICIT_BIT) < n < 2 * IMPLICIT_BIT,
    ensures
        whole(s, n),
{
    let s = scalar::lemma_representable(distance(n, 0) as nat, 1074);
    scalar::law_negation_flips(s);
    if n >= 0 {
        s
    } else {
        assert((-n) * scalar::unit() == -(n * scalar::unit())) by (nonlinear_arith);
        scalar::negation(s)
    }
}

} // verus!
