//! Real-valued signals as the 64-bit words that carry them.
//!
//! Every real signal in the rig is an IEEE 754 double, and every place that
//! *decides* something about one -- is it finite, is it past a limit, which of
//! two is larger -- can read the answer off its bit pattern. This module is
//! that reading. Arithmetic on the values lives in `arith`.
//!
//! A finite double is an integer multiple of `2^-1074`, so its exact value is
//! the integer `exact(x)` counted in that unit. Contracts throughout the kernel
//! speak of `exact`.

use vstd::arithmetic::div_mod::*;
use vstd::arithmetic::mul::*;
use vstd::arithmetic::power2::*;
use vstd::bits::*;
use vstd::prelude::*;

verus! {

/// The bit that carries the sign.
pub const SIGN_BIT: u64 = 0x8000_0000_0000_0000;

/// Magnitude bits of infinity; anything above it is not a number.
pub const INFINITY_BITS: u64 = 0x7ff0_0000_0000_0000;

/// Weight of the exponent field, and the implicit leading bit of a normal number.
pub const IMPLICIT_BIT: u64 = 0x0010_0000_0000_0000;

/// One IEEE 754 double, held as its bit pattern.
pub type Scalar = u64;

pub const ZERO: Scalar = 0;

pub const ONE: Scalar = 0x3ff0_0000_0000_0000;

pub const MINUS_ONE: Scalar = 0xbff0_0000_0000_0000;

/// The sign bit is set.
pub open spec fn negative(x: Scalar) -> bool {
    x >= SIGN_BIT
}

/// The bits below the sign.
pub open spec fn magnitude(x: Scalar) -> int {
    if negative(x) {
        x - SIGN_BIT
    } else {
        x as int
    }
}

pub open spec fn nan(x: Scalar) -> bool {
    magnitude(x) > INFINITY_BITS
}

pub open spec fn finite(x: Scalar) -> bool {
    magnitude(x) < INFINITY_BITS
}

/// The exact value of magnitude bits `m`, in units of `2^-1074`.
///
/// Infinity continues the same progression, which places it above every finite
/// magnitude and is all that is ever asked of it.
#[verifier::opaque]
pub open spec fn measure(m: int) -> int {
    let exponent = m / (IMPLICIT_BIT as int);
    let fraction = m % (IMPLICIT_BIT as int);
    if exponent == 0 {
        fraction
    } else {
        (IMPLICIT_BIT + fraction) * pow2((exponent - 1) as nat)
    }
}

/// The exact value of `x`, in units of `2^-1074`.
pub open spec fn exact(x: Scalar) -> int {
    if negative(x) {
        -measure(magnitude(x))
    } else {
        measure(magnitude(x))
    }
}

/// The number of units in one.
pub open spec fn unit() -> int {
    pow2(1074) as int
}

pub open spec fn lt(a: Scalar, b: Scalar) -> bool {
    !nan(a) && !nan(b) && exact(a) < exact(b)
}

pub open spec fn le(a: Scalar, b: Scalar) -> bool {
    !nan(a) && !nan(b) && exact(a) <= exact(b)
}

/// Numeric equality: the two zeros agree, and not-a-number agrees with nothing.
pub open spec fn same(a: Scalar, b: Scalar) -> bool {
    !nan(a) && !nan(b) && exact(a) == exact(b)
}

pub open spec fn negation(x: Scalar) -> Scalar {
    if negative(x) {
        (x - SIGN_BIT) as u64
    } else {
        (x + SIGN_BIT) as u64
    }
}

pub open spec fn absolute(x: Scalar) -> Scalar {
    if negative(x) {
        negation(x)
    } else {
        x
    }
}

/// One with the sign of `x`, or `x` itself when it is not a number.
pub open spec fn sign_of(x: Scalar) -> Scalar {
    if nan(x) {
        x
    } else if negative(x) {
        MINUS_ONE
    } else {
        ONE
    }
}

/// The larger of two values. Not-a-number loses to anything.
pub open spec fn larger(a: Scalar, b: Scalar) -> Scalar {
    if nan(a) || lt(a, b) {
        b
    } else {
        a
    }
}

/// The smaller of two values. Not-a-number loses to anything.
pub open spec fn smaller(a: Scalar, b: Scalar) -> Scalar {
    if nan(a) || lt(b, a) {
        b
    } else {
        a
    }
}

/// `x` limited to `[low, high]`. Not-a-number passes through.
pub open spec fn limited(x: Scalar, low: Scalar, high: Scalar) -> Scalar {
    if lt(x, low) {
        low
    } else if lt(high, x) {
        high
    } else {
        x
    }
}

/// `value`, kept inside what a `u64` holds.
pub open spec fn fit_u64(value: int) -> u64 {
    if value < 0 {
        0
    } else if value > u64::MAX {
        u64::MAX
    } else {
        value as u64
    }
}

/// The whole part of `x`, as a saturating cast takes it.
pub open spec fn truncated(x: Scalar) -> u64 {
    if nan(x) || negative(x) {
        0
    } else {
        fit_u64(exact(x) / unit())
    }
}

/// `x` rounded half away from zero, then cast.
pub open spec fn rounded(x: Scalar) -> u64 {
    if nan(x) || negative(x) {
        0
    } else {
        fit_u64((2 * exact(x) + unit()) / (2 * unit()))
    }
}

/// `x` rounded up, then cast.
pub open spec fn rounded_up(x: Scalar) -> u64 {
    if nan(x) || negative(x) {
        0
    } else {
        fit_u64(exact(x) / unit() + if exact(x) % unit() == 0 {
            0int
        } else {
            1int
        })
    }
}

/// `x` cut to a whole number and kept inside what an `i16` holds.
pub open spec fn truncated_i16(x: Scalar) -> i16 {
    if nan(x) {
        0
    } else {
        let whole = measure(magnitude(x)) / unit();
        if negative(x) {
            if whole > 0x8000 {
                i16::MIN
            } else {
                (-whole) as i16
            }
        } else {
            if whole > 0x7fff {
                i16::MAX
            } else {
                whole as i16
            }
        }
    }
}

// --- the order of magnitudes ----------------------------------------------

/// A magnitude lies inside the binade its exponent names.
proof fn lemma_measure_bounds(m: int)
    requires
        0 <= m,
    ensures
        0 <= measure(m),
        m / (IMPLICIT_BIT as int) == 0 ==> measure(m) < IMPLICIT_BIT,
        m / (IMPLICIT_BIT as int) >= 1 ==> {
            let scale = pow2((m / (IMPLICIT_BIT as int) - 1) as nat) as int;
            &&& scale >= 1
            &&& IMPLICIT_BIT * scale <= measure(m) < 2 * IMPLICIT_BIT * scale
        },
{
    reveal(measure);
    let exponent = m / (IMPLICIT_BIT as int);
    let fraction = m % (IMPLICIT_BIT as int);
    assert(0 <= fraction < IMPLICIT_BIT && exponent >= 0);
    if exponent >= 1 {
        let scale = pow2((exponent - 1) as nat) as int;
        lemma_pow2_pos((exponent - 1) as nat);
        assert(IMPLICIT_BIT * scale <= (IMPLICIT_BIT + fraction) * scale < (2 * IMPLICIT_BIT)
            * scale) by (nonlinear_arith)
            requires
                scale >= 1,
                0 <= fraction < IMPLICIT_BIT,
        ;
    }
}

/// Larger magnitude bits mean a larger magnitude.
pub proof fn lemma_measure_increases(a: int, b: int)
    requires
        0 <= a < b,
    ensures
        measure(a) < measure(b),
{
    let size = IMPLICIT_BIT as int;
    let ea = a / size;
    let eb = b / size;
    lemma_measure_bounds(a);
    lemma_measure_bounds(b);
    assert(ea <= eb);
    if ea == eb {
        reveal(measure);
        if ea >= 1 {
            let scale = pow2((ea - 1) as nat) as int;
            let fa = a % size;
            let fb = b % size;
            assert(fa < fb);
            assert((size + fa) * scale < (size + fb) * scale) by (nonlinear_arith)
                requires
                    scale >= 1,
                    fa < fb,
            ;
        }
    } else if ea == 0 {
        let scale = pow2((eb - 1) as nat) as int;
        assert(size <= size * scale) by (nonlinear_arith)
            requires
                scale >= 1,
                size >= 0,
        ;
    } else {
        let low = pow2((ea - 1) as nat) as int;
        let high = pow2((eb - 1) as nat) as int;
        lemma_pow2_unfold(ea as nat);
        if ea < eb - 1 {
            lemma_pow2_strictly_increases(ea as nat, (eb - 1) as nat);
        }
        assert(2 * low <= high);
        assert(2 * size * low <= size * high) by (nonlinear_arith)
            requires
                2 * low <= high,
                size >= 0,
        ;
    }
}

/// Comparing exact values is comparing magnitude bits, signs considered.
pub proof fn lemma_exact_order(a: Scalar, b: Scalar)
    ensures
        magnitude(a) == 0 <==> exact(a) == 0,
        negative(a) ==> exact(a) <= 0,
        !negative(a) ==> exact(a) >= 0,
        !negative(a) && !negative(b) ==> (exact(a) < exact(b) <==> magnitude(a) < magnitude(b)),
        negative(a) && negative(b) ==> (exact(a) < exact(b) <==> magnitude(b) < magnitude(a)),
        magnitude(a) == magnitude(b) ==> measure(magnitude(a)) == measure(magnitude(b)),
{
    lemma_measure_bounds(magnitude(a));
    lemma_measure_bounds(magnitude(b));
    assert(measure(0) == 0) by {
        reveal(measure);
    }
    if magnitude(a) != 0 {
        lemma_measure_increases(0, magnitude(a));
    }
    if magnitude(a) < magnitude(b) {
        lemma_measure_increases(magnitude(a), magnitude(b));
    }
    if magnitude(b) < magnitude(a) {
        lemma_measure_increases(magnitude(b), magnitude(a));
    }
}

// --- reading a bit pattern --------------------------------------------------

#[verifier::when_used_as_spec(negative)]
pub fn is_negative(x: Scalar) -> (answer: bool)
    ensures
        answer == negative(x),
{
    x >= SIGN_BIT
}

fn magnitude_bits(x: Scalar) -> (m: u64)
    ensures
        m == magnitude(x),
        m < SIGN_BIT,
{
    if x >= SIGN_BIT {
        x - SIGN_BIT
    } else {
        x
    }
}

#[verifier::when_used_as_spec(nan)]
pub fn is_nan(x: Scalar) -> (answer: bool)
    ensures
        answer == nan(x),
{
    magnitude_bits(x) > INFINITY_BITS
}

#[verifier::when_used_as_spec(finite)]
pub fn is_finite(x: Scalar) -> (answer: bool)
    ensures
        answer == finite(x),
{
    magnitude_bits(x) < INFINITY_BITS
}

#[verifier::when_used_as_spec(lt)]
pub fn is_less(a: Scalar, b: Scalar) -> (answer: bool)
    ensures
        answer == lt(a, b),
{
    let ma: u64 = magnitude_bits(a);
    let mb: u64 = magnitude_bits(b);
    proof {
        lemma_exact_order(a, b);
        lemma_exact_order(b, a);
    }
    if ma > INFINITY_BITS || mb > INFINITY_BITS {
        false
    } else if is_negative(a) {
        if is_negative(b) {
            mb < ma
        } else {
            ma != 0 || mb != 0
        }
    } else {
        if is_negative(b) {
            false
        } else {
            ma < mb
        }
    }
}

#[verifier::when_used_as_spec(le)]
pub fn is_at_most(a: Scalar, b: Scalar) -> (answer: bool)
    ensures
        answer == le(a, b),
{
    !is_nan(a) && !is_nan(b) && !is_less(b, a)
}

#[verifier::when_used_as_spec(same)]
pub fn is_same(a: Scalar, b: Scalar) -> (answer: bool)
    ensures
        answer == same(a, b),
{
    is_at_most(a, b) && is_at_most(b, a)
}

#[verifier::when_used_as_spec(negation)]
pub fn negate(x: Scalar) -> (y: Scalar)
    ensures
        y == negation(x),
{
    if x >= SIGN_BIT {
        x - SIGN_BIT
    } else {
        x + SIGN_BIT
    }
}

#[verifier::when_used_as_spec(absolute)]
pub fn abs(x: Scalar) -> (y: Scalar)
    ensures
        y == absolute(x),
{
    if x >= SIGN_BIT {
        x - SIGN_BIT
    } else {
        x
    }
}

#[verifier::when_used_as_spec(sign_of)]
pub fn signum(x: Scalar) -> (y: Scalar)
    ensures
        y == sign_of(x),
{
    if is_nan(x) {
        x
    } else if is_negative(x) {
        MINUS_ONE
    } else {
        ONE
    }
}

#[verifier::when_used_as_spec(larger)]
pub fn max_of(a: Scalar, b: Scalar) -> (y: Scalar)
    ensures
        y == larger(a, b),
{
    if is_nan(a) || is_less(a, b) {
        b
    } else {
        a
    }
}

#[verifier::when_used_as_spec(smaller)]
pub fn min_of(a: Scalar, b: Scalar) -> (y: Scalar)
    ensures
        y == smaller(a, b),
{
    if is_nan(a) || is_less(b, a) {
        b
    } else {
        a
    }
}

#[verifier::when_used_as_spec(limited)]
pub fn clamp(x: Scalar, low: Scalar, high: Scalar) -> (y: Scalar)
    requires
        le(low, high),
    ensures
        y == limited(x, low, high),
{
    if is_less(x, low) {
        low
    } else if is_less(high, x) {
        high
    } else {
        x
    }
}

// --- whole numbers -------------------------------------------------------------

/// Below one binade of the units place, whole and fractional parts come from
/// the significand alone.
proof fn lemma_split(m: int)
    requires
        IMPLICIT_BIT <= m < 1075 * IMPLICIT_BIT,
    ensures
        ({
            let e = m / (IMPLICIT_BIT as int);
            let significand = IMPLICIT_BIT + m % (IMPLICIT_BIT as int);
            let k = (1075 - e) as nat;
            &&& 1 <= e <= 1074
            &&& measure(m) / unit() == significand / (pow2(k) as int)
            &&& (measure(m) % unit() == 0) == (significand % (pow2(k) as int) == 0)
            &&& (2 * measure(m) + unit()) / (2 * unit()) == (2 * significand + pow2(k)) / (2
                * pow2(k) as int)
        }),
{
    reveal(measure);
    let e = m / (IMPLICIT_BIT as int);
    let significand = IMPLICIT_BIT + m % (IMPLICIT_BIT as int);
    let k = (1075 - e) as nat;
    let low = pow2((e - 1) as nat) as int;
    let high = pow2(k) as int;
    lemma_pow2_pos((e - 1) as nat);
    lemma_pow2_pos(k);
    lemma_pow2_adds((e - 1) as nat, k);
    assert(unit() == low * high);
    assert(measure(m) == low * significand) by (nonlinear_arith)
        requires
            measure(m) == significand * low,
    ;
    lemma_div_multiples_vanish_quotient(low, significand, high);
    let q = significand / high;
    let r = significand % high;
    lemma_fundamental_div_mod(significand, high);
    lemma_fundamental_div_mod(measure(m), unit());
    assert(measure(m) % unit() == low * r) by (nonlinear_arith)
        requires
            measure(m) == low * significand,
            significand == high * q + r,
            measure(m) == (low * high) * q + measure(m) % unit(),
    ;
    assert((low * r == 0) == (r == 0)) by (nonlinear_arith)
        requires
            low >= 1,
    ;
    assert(2 * measure(m) + unit() == low * (2 * significand + high)) by (nonlinear_arith)
        requires
            measure(m) == low * significand,
            unit() == low * high,
    ;
    assert(2 * unit() == low * (2 * high)) by (nonlinear_arith)
        requires
            unit() == low * high,
    ;
    lemma_div_multiples_vanish_quotient(low, 2 * significand + high, 2 * high);
}

/// From the units place up, every value is whole.
proof fn lemma_whole(m: int)
    requires
        1075 * IMPLICIT_BIT <= m,
    ensures
        ({
            let e = m / (IMPLICIT_BIT as int);
            let significand = IMPLICIT_BIT + m % (IMPLICIT_BIT as int);
            let whole = significand * pow2((e - 1075) as nat);
            &&& e >= 1075
            &&& measure(m) / unit() == whole
            &&& measure(m) % unit() == 0
            &&& (2 * measure(m) + unit()) / (2 * unit()) == whole
        }),
{
    reveal(measure);
    let e = m / (IMPLICIT_BIT as int);
    let significand = IMPLICIT_BIT + m % (IMPLICIT_BIT as int);
    let up = pow2((e - 1075) as nat) as int;
    lemma_pow2_adds((e - 1075) as nat, 1074);
    lemma_pow2_pos(1074);
    let whole = significand * up;
    assert(measure(m) == whole * unit()) by (nonlinear_arith)
        requires
            measure(m) == significand * (up * unit()),
            whole == significand * up,
    ;
    lemma_div_by_multiple(whole, unit());
    lemma_mod_multiples_basic(whole, unit());
    assert(2 * measure(m) + unit() == whole * (2 * unit()) + unit()) by (nonlinear_arith)
        requires
            measure(m) == whole * unit(),
    ;
    lemma_fundamental_div_mod_converse(2 * measure(m) + unit(), 2 * unit(), whole, unit());
}

/// A magnitude below one.
proof fn lemma_below_one(m: int)
    requires
        0 <= m < 1023 * IMPLICIT_BIT,
    ensures
        0 <= measure(m) < unit(),
        m < 1022 * IMPLICIT_BIT ==> 2 * measure(m) < unit(),
        m >= 1022 * IMPLICIT_BIT ==> 2 * measure(m) >= unit(),
        measure(m) == 0 <==> m == 0,
{
    lemma_measure_bounds(m);
    assert(measure(0) == 0) by {
        reveal(measure);
    }
    if m > 0 {
        lemma_measure_increases(0, m);
    }
    assert(measure(1023 * IMPLICIT_BIT) == unit() && 2 * measure(1022 * IMPLICIT_BIT) == unit()) by {
        reveal(measure);
        lemma_pow2_adds(52, 1022);
        lemma_pow2_adds(52, 1021);
        lemma_pow2_unfold(1074);
        lemma2_to64();
        lemma2_to64_rest();
        assert(IMPLICIT_BIT == pow2(52)) by {
            lemma_pow2_adds(32, 20);
        }
    }
    lemma_measure_increases(m, 1023 * IMPLICIT_BIT);
    if m < 1022 * IMPLICIT_BIT {
        lemma_measure_increases(m, 1022 * IMPLICIT_BIT);
    }
    if m > 1022 * IMPLICIT_BIT {
        lemma_measure_increases(1022 * IMPLICIT_BIT, m);
    }
}

/// One, exactly.
pub proof fn lemma_one()
    ensures
        exact(ONE) == unit(),
        unit() > 0,
{
    lemma_pow2_pos(1074);
    assert(ONE == 1023 * IMPLICIT_BIT);
    assert(measure(1023 * IMPLICIT_BIT) == unit()) by {
        reveal(measure);
        lemma_pow2_adds(52, 1022);
        lemma2_to64();
        lemma2_to64_rest();
        assert(IMPLICIT_BIT == pow2(52)) by {
            lemma_pow2_adds(32, 20);
        }
    }
}

/// The value of a pattern whose 53-bit integer ends in zeros.
pub proof fn lemma_scaled(x: Scalar, m: nat, zeros: nat, exponent: nat)
    requires
        1 <= exponent <= 2046,
        IMPLICIT_BIT <= m * pow2(zeros) < 2 * IMPLICIT_BIT,
        x == (exponent - 1) * IMPLICIT_BIT + m * pow2(zeros),
    ensures
        finite(x),
        exact(x) == m * pow2((zeros + exponent - 1) as nat),
{
    let fraction = m * pow2(zeros) - IMPLICIT_BIT;
    assert(x == exponent * IMPLICIT_BIT + fraction);
    lemma_fundamental_div_mod_converse(
        x as int,
        IMPLICIT_BIT as int,
        exponent as int,
        fraction as int,
    );
    let shift = (exponent - 1) as nat;
    lemma_pow2_adds(zeros, shift);
    assert((m * pow2(zeros)) * pow2(shift) == m * (pow2(zeros) * pow2(shift))) by (nonlinear_arith);
    assert(measure(x as int) == m * pow2((zeros + exponent - 1) as nat)) by {
        reveal(measure);
    }
}

/// The value of a power of two.
pub proof fn lemma_power(x: Scalar, exponent: nat)
    requires
        1 <= exponent <= 2046,
        x == exponent * IMPLICIT_BIT,
    ensures
        finite(x),
        exact(x) == pow2((exponent + 51) as nat),
{
    lemma2_to64();
    lemma2_to64_rest();
    assert(IMPLICIT_BIT == pow2(52)) by {
        lemma_pow2_adds(32, 20);
    }
    lemma_scaled(x, 1, 52, exponent);
}

/// No finite value lies outside the largest one.
pub proof fn lemma_largest(x: Scalar)
    requires
        finite(x),
    ensures
        -exact(0x7fef_ffff_ffff_ffff) <= exact(x) <= exact(0x7fef_ffff_ffff_ffff),
        exact(0x7fef_ffff_ffff_ffff) > 0,
{
    let top: int = 0x7fef_ffff_ffff_ffff;
    lemma_measure_bounds(magnitude(x));
    if magnitude(x) < top {
        lemma_measure_increases(magnitude(x), top);
    }
    assert(measure(0) == 0) by {
        reveal(measure);
    }
    lemma_measure_increases(0, top);
}

/// Every 53-bit integer, scaled by a power of two in range, is a value.
pub proof fn lemma_representable(m: nat, j: nat) -> (s: Scalar)
    requires
        m < 2 * IMPLICIT_BIT,
        j <= 2000,
    ensures
        finite(s),
        exact(s) == m * pow2(j),
    decreases j,
{
    lemma2_to64();
    if j == 0 {
        reveal(measure);
        let s = m as u64;
        assert(exact(s) == m) by {
            if m >= IMPLICIT_BIT {
                assert(m as int / (IMPLICIT_BIT as int) == 1);
                assert(m as int % (IMPLICIT_BIT as int) == m - IMPLICIT_BIT);
            } else {
                assert(m as int / (IMPLICIT_BIT as int) == 0);
                assert(m as int % (IMPLICIT_BIT as int) == m);
            }
        }
        s
    } else if m >= IMPLICIT_BIT {
        reveal(measure);
        let bits = (j + 1) * IMPLICIT_BIT + (m - IMPLICIT_BIT);
        let s = bits as u64;
        assert(bits / (IMPLICIT_BIT as int) == j + 1 && bits % (IMPLICIT_BIT as int) == m
            - IMPLICIT_BIT) by {
            lemma_fundamental_div_mod_converse(
                bits,
                IMPLICIT_BIT as int,
                j as int + 1,
                m - IMPLICIT_BIT,
            );
        }
        s
    } else {
        let s = lemma_representable(2 * m, (j - 1) as nat);
        lemma_pow2_unfold(j);
        assert((2 * m) * pow2((j - 1) as nat) == m * pow2(j)) by (nonlinear_arith)
            requires
                pow2(j) == 2 * pow2((j - 1) as nat),
        ;
        s
    }
}

/// Between zero and one, some value lies less than `2^-53` below any point.
pub proof fn lemma_grid(v: int) -> (s: Scalar)
    requires
        0 <= v <= unit(),
    ensures
        finite(s),
        exact(s) <= v < exact(s) + pow2(1021),
{
    let g = pow2(1021) as int;
    lemma_pow2_pos(1021);
    lemma_pow2_adds(1021, 53);
    lemma2_to64();
    lemma2_to64_rest();
    assert(pow2(53) == 2 * IMPLICIT_BIT) by {
        lemma_pow2_adds(32, 21);
    }
    if v == unit() {
        lemma_one();
        ONE
    } else {
        let k = v / g;
        lemma_fundamental_div_mod(v, g);
        assert(0 <= k) by {
            lemma_div_pos_is_pos(v, g);
        }
        assert(k < 2 * IMPLICIT_BIT) by (nonlinear_arith)
            requires
                v < g * (2 * IMPLICIT_BIT),
                v == g * k + v % g,
                v % g >= 0,
                g > 0,
        ;
        let s = lemma_representable(k as nat, 1021);
        assert(exact(s) == k * g);
        assert(k * g == g * k) by (nonlinear_arith);
        s
    }
}

/// How a value that is not whole becomes one.
#[derive(Clone, Copy)]
enum Rounding {
    Down,
    Half,
    Up,
}

spec fn whole_of(m: int, rounding: Rounding) -> int {
    match rounding {
        Rounding::Down => measure(m) / unit(),
        Rounding::Half => (2 * measure(m) + unit()) / (2 * unit()),
        Rounding::Up => measure(m) / unit() + if measure(m) % unit() == 0 {
            0int
        } else {
            1int
        },
    }
}

fn whole_bits(m: u64, rounding: Rounding) -> (whole: u64)
    requires
        m <= INFINITY_BITS,
    ensures
        whole == fit_u64(whole_of(m as int, rounding)),
{
    let e: u64 = m / IMPLICIT_BIT;
    if e < 1023 {
        proof {
            lemma_below_one(m as int);
            lemma_pow2_pos(1074);
            let v = measure(m as int);
            lemma_basic_div(v, unit());
            lemma_small_mod(v as nat, unit() as nat);
            if e < 1022 {
                lemma_basic_div(2 * v + unit(), 2 * unit());
            } else {
                lemma_fundamental_div_mod_converse(2 * v + unit(), 2 * unit(), 1, 2 * v - unit());
            }
        }
        match rounding {
            Rounding::Down => 0,
            Rounding::Half => if e < 1022 {
                0
            } else {
                1
            },
            Rounding::Up => if m == 0 {
                0
            } else {
                1
            },
        }
    } else if e < 1075 {
        let k: u64 = 1075 - e;
        let significand: u64 = IMPLICIT_BIT + m % IMPLICIT_BIT;
        proof {
            lemma_split(m as int);
            lemma_pow2_pos(k as nat);
            lemma2_to64();
            lemma2_to64_rest();
            assert(pow2(52) == IMPLICIT_BIT) by {
                lemma_pow2_adds(32, 20);
            }
            if k < 52 {
                lemma_pow2_strictly_increases(k as nat, 52);
            }
            lemma_u64_shl_is_mul(1, k);
        }
        let weight: u64 = 1u64 << k;
        match rounding {
            Rounding::Down => significand / weight,
            Rounding::Half => (2 * significand + weight) / (2 * weight),
            Rounding::Up => if significand % weight == 0 {
                significand / weight
            } else {
                significand / weight + 1
            },
        }
    } else {
        let up: u64 = e - 1075;
        let significand: u64 = IMPLICIT_BIT + m % IMPLICIT_BIT;
        proof {
            lemma_whole(m as int);
            lemma2_to64();
            lemma2_to64_rest();
            assert(pow2(52) == IMPLICIT_BIT) by {
                lemma_pow2_adds(32, 20);
            }
            lemma_pow2_pos(up as nat);
        }
        if up < 12 {
            proof {
                if up < 11 {
                    lemma_pow2_strictly_increases(up as nat, 11);
                }
                lemma_u64_shl_is_mul(1, up);
                assert(significand * pow2(up as nat) <= u64::MAX) by (nonlinear_arith)
                    requires
                        significand < 0x20_0000_0000_0000,
                        1 <= pow2(up as nat) <= 0x800,
                ;
            }
            significand * (1u64 << up)
        } else {
            proof {
                if up > 12 {
                    lemma_pow2_strictly_increases(12, up as nat);
                }
                assert(significand * pow2(up as nat) > u64::MAX) by (nonlinear_arith)
                    requires
                        significand >= 0x10_0000_0000_0000,
                        pow2(up as nat) >= 0x1000,
                ;
            }
            u64::MAX
        }
    }
}

/// Cast to a count, cutting the fraction.
#[verifier::when_used_as_spec(truncated)]
pub fn to_count(x: Scalar) -> (n: u64)
    ensures
        n == truncated(x),
{
    if is_nan(x) || is_negative(x) {
        0
    } else {
        whole_bits(x, Rounding::Down)
    }
}

/// Round half away from zero, then cast to a count.
#[verifier::when_used_as_spec(rounded)]
pub fn round_to_count(x: Scalar) -> (n: u64)
    ensures
        n == rounded(x),
{
    if is_nan(x) || is_negative(x) {
        0
    } else {
        whole_bits(x, Rounding::Half)
    }
}

/// Round up, then cast to a count.
#[verifier::when_used_as_spec(rounded_up)]
pub fn ceil_to_count(x: Scalar) -> (n: u64)
    ensures
        n == rounded_up(x),
{
    if is_nan(x) || is_negative(x) {
        0
    } else {
        whole_bits(x, Rounding::Up)
    }
}

/// Cast to a signed 16-bit level, cutting the fraction.
#[verifier::when_used_as_spec(truncated_i16)]
pub fn to_level(x: Scalar) -> (n: i16)
    ensures
        n == truncated_i16(x),
{
    if is_nan(x) {
        return 0;
    }
    let whole: u64 = whole_bits(magnitude_bits(x), Rounding::Down);
    proof {
        lemma_measure_bounds(magnitude(x));
        lemma_pow2_pos(1074);
        lemma_div_pos_is_pos(measure(magnitude(x)), unit());
    }
    if is_negative(x) {
        if whole >= 0x8000 {
            i16::MIN
        } else {
            -(whole as i16)
        }
    } else {
        if whole > 0x7fff {
            i16::MAX
        } else {
            whole as i16
        }
    }
}

// --- laws ---------------------------------------------------------------------

/// A limited value lies inside its limits.
pub proof fn law_limited_is_inside(x: Scalar, low: Scalar, high: Scalar)
    requires
        le(low, high),
        !nan(x),
    ensures
        le(low, limited(x, low, high)),
        le(limited(x, low, high), high),
        le(low, x) && le(x, high) ==> limited(x, low, high) == x,
{
}

/// Flipping the sign flips the value and nothing else.
pub proof fn law_negation_flips(x: Scalar)
    ensures
        exact(negation(x)) == -exact(x),
        nan(negation(x)) == nan(x),
        finite(negation(x)) == finite(x),
        negation(negation(x)) == x,
        absolute(negation(x)) == absolute(x),
{
}

} // verus!
