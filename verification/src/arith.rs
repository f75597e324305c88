//! Arithmetic on real signals.
//!
//! The rig computes with whatever floating-point unit it runs on. The kernel
//! takes that unit as a value, `unit: &F`: a function from an [`Operation`] to
//! the word holding its result. Everything the kernel decides -- which
//! operations are performed, on what, in which order, and what is done with
//! each result -- is then independent of the unit, and stated exactly.
//!
//! A unit must be a function: the same operation gives the same word every
//! time. That is also what makes two runs of one input bit-identical. A unit
//! over IEEE 754 hardware meets it by delivering every not-a-number as the one
//! word `NAN`.

use vstd::prelude::*;

use crate::scalar;
use crate::scalar::{is_finite, Scalar, ZERO};

verus! {

/// The word a unit delivers for every result that is not a number.
pub const NAN: Scalar = 0x7ff8_0000_0000_0000;

/// The largest finite value.
pub const LARGEST: Scalar = 0x7fef_ffff_ffff_ffff;

pub const INFINITY: Scalar = 0x7ff0_0000_0000_0000;

pub const MINUS_INFINITY: Scalar = 0xfff0_0000_0000_0000;

/// One operation of a floating-point unit.
#[derive(Clone, Copy, PartialEq, Eq, Structural, Debug)]
pub enum Operation {
    /// The value of an integer.
    Count(u64),
    /// The value of a wide integer.
    WideCount(u128),
    Add(Scalar, Scalar),
    Sub(Scalar, Scalar),
    Mul(Scalar, Scalar),
    Div(Scalar, Scalar),
    /// The remainder of a truncated division.
    Rem(Scalar, Scalar),
    /// The first value raised to the second.
    Power(Scalar, Scalar),
    Root(Scalar),
    Sine(Scalar),
    Cosine(Scalar),
    Tangent(Scalar),
    ArcTangent(Scalar),
    HyperbolicTangent(Scalar),
}

/// What `unit` computes for `operation`.
pub open spec fn value<F: Fn(Operation) -> Scalar>(unit: F, operation: Operation) -> Scalar {
    choose|r: Scalar| call_ensures(unit, (operation,), r)
}

/// `unit` accepts every operation, and gives each one result.
pub open spec fn functional<F: Fn(Operation) -> Scalar>(unit: F) -> bool {
    &&& forall|operation: Operation| #[trigger] call_requires(unit, (operation,))
    &&& forall|operation: Operation, r: Scalar| #[trigger]
        call_ensures(unit, (operation,), r) ==> r == value(unit, operation)
}

pub open spec fn counted<F: Fn(Operation) -> Scalar>(unit: &F, n: u64) -> Scalar {
    value(*unit, Operation::Count(n))
}

pub open spec fn widely_counted<F: Fn(Operation) -> Scalar>(unit: &F, n: u128) -> Scalar {
    value(*unit, Operation::WideCount(n))
}

pub open spec fn sum<F: Fn(Operation) -> Scalar>(unit: &F, a: Scalar, b: Scalar) -> Scalar {
    value(*unit, Operation::Add(a, b))
}

pub open spec fn difference<F: Fn(Operation) -> Scalar>(unit: &F, a: Scalar, b: Scalar) -> Scalar {
    value(*unit, Operation::Sub(a, b))
}

pub open spec fn product<F: Fn(Operation) -> Scalar>(unit: &F, a: Scalar, b: Scalar) -> Scalar {
    value(*unit, Operation::Mul(a, b))
}

pub open spec fn quotient<F: Fn(Operation) -> Scalar>(unit: &F, a: Scalar, b: Scalar) -> Scalar {
    value(*unit, Operation::Div(a, b))
}

pub open spec fn remainder<F: Fn(Operation) -> Scalar>(unit: &F, a: Scalar, b: Scalar) -> Scalar {
    value(*unit, Operation::Rem(a, b))
}

pub open spec fn power<F: Fn(Operation) -> Scalar>(unit: &F, a: Scalar, b: Scalar) -> Scalar {
    value(*unit, Operation::Power(a, b))
}

pub open spec fn square_root<F: Fn(Operation) -> Scalar>(unit: &F, a: Scalar) -> Scalar {
    value(*unit, Operation::Root(a))
}

pub open spec fn sine<F: Fn(Operation) -> Scalar>(unit: &F, a: Scalar) -> Scalar {
    value(*unit, Operation::Sine(a))
}

pub open spec fn cosine<F: Fn(Operation) -> Scalar>(unit: &F, a: Scalar) -> Scalar {
    value(*unit, Operation::Cosine(a))
}

pub open spec fn tangent<F: Fn(Operation) -> Scalar>(unit: &F, a: Scalar) -> Scalar {
    value(*unit, Operation::Tangent(a))
}

pub open spec fn arc_tangent<F: Fn(Operation) -> Scalar>(unit: &F, a: Scalar) -> Scalar {
    value(*unit, Operation::ArcTangent(a))
}

pub open spec fn hyperbolic_tangent<F: Fn(Operation) -> Scalar>(unit: &F, a: Scalar) -> Scalar {
    value(*unit, Operation::HyperbolicTangent(a))
}

#[verifier::when_used_as_spec(counted)]
pub fn from_count<F: Fn(Operation) -> Scalar>(unit: &F, n: u64) -> (r: Scalar)
    requires
        functional(*unit),
    ensures
        r == counted(unit, n),
{
    unit(Operation::Count(n))
}

#[verifier::when_used_as_spec(widely_counted)]
pub fn from_wide_count<F: Fn(Operation) -> Scalar>(unit: &F, n: u128) -> (r: Scalar)
    requires
        functional(*unit),
    ensures
        r == widely_counted(unit, n),
{
    unit(Operation::WideCount(n))
}

#[verifier::when_used_as_spec(sum)]
pub fn plus<F: Fn(Operation) -> Scalar>(unit: &F, a: Scalar, b: Scalar) -> (r: Scalar)
    requires
        functional(*unit),
    ensures
        r == sum(unit, a, b),
{
    unit(Operation::Add(a, b))
}

#[verifier::when_used_as_spec(difference)]
pub fn minus<F: Fn(Operation) -> Scalar>(unit: &F, a: Scalar, b: Scalar) -> (r: Scalar)
    requires
        functional(*unit),
    ensures
        r == difference(unit, a, b),
{
    unit(Operation::Sub(a, b))
}

#[verifier::when_used_as_spec(product)]
pub fn times<F: Fn(Operation) -> Scalar>(unit: &F, a: Scalar, b: Scalar) -> (r: Scalar)
    requires
        functional(*unit),
    ensures
        r == product(unit, a, b),
{
    unit(Operation::Mul(a, b))
}

#[verifier::when_used_as_spec(quotient)]
pub fn over<F: Fn(Operation) -> Scalar>(unit: &F, a: Scalar, b: Scalar) -> (r: Scalar)
    requires
        functional(*unit),
    ensures
        r == quotient(unit, a, b),
{
    unit(Operation::Div(a, b))
}

#[verifier::when_used_as_spec(remainder)]
pub fn remaining<F: Fn(Operation) -> Scalar>(unit: &F, a: Scalar, b: Scalar) -> (r: Scalar)
    requires
        functional(*unit),
    ensures
        r == remainder(unit, a, b),
{
    unit(Operation::Rem(a, b))
}

#[verifier::when_used_as_spec(power)]
pub fn raised<F: Fn(Operation) -> Scalar>(unit: &F, a: Scalar, b: Scalar) -> (r: Scalar)
    requires
        functional(*unit),
    ensures
        r == power(unit, a, b),
{
    unit(Operation::Power(a, b))
}

#[verifier::when_used_as_spec(square_root)]
pub fn sqrt<F: Fn(Operation) -> Scalar>(unit: &F, a: Scalar) -> (r: Scalar)
    requires
        functional(*unit),
    ensures
        r == square_root(unit, a),
{
    unit(Operation::Root(a))
}

#[verifier::when_used_as_spec(sine)]
pub fn sin<F: Fn(Operation) -> Scalar>(unit: &F, a: Scalar) -> (r: Scalar)
    requires
        functional(*unit),
    ensures
        r == sine(unit, a),
{
    unit(Operation::Sine(a))
}

#[verifier::when_used_as_spec(cosine)]
pub fn cos<F: Fn(Operation) -> Scalar>(unit: &F, a: Scalar) -> (r: Scalar)
    requires
        functional(*unit),
    ensures
        r == cosine(unit, a),
{
    unit(Operation::Cosine(a))
}

#[verifier::when_used_as_spec(tangent)]
pub fn tan<F: Fn(Operation) -> Scalar>(unit: &F, a: Scalar) -> (r: Scalar)
    requires
        functional(*unit),
    ensures
        r == tangent(unit, a),
{
    unit(Operation::Tangent(a))
}

#[verifier::when_used_as_spec(arc_tangent)]
pub fn atan<F: Fn(Operation) -> Scalar>(unit: &F, a: Scalar) -> (r: Scalar)
    requires
        functional(*unit),
    ensures
        r == arc_tangent(unit, a),
{
    unit(Operation::ArcTangent(a))
}

#[verifier::when_used_as_spec(hyperbolic_tangent)]
pub fn tanh<F: Fn(Operation) -> Scalar>(unit: &F, a: Scalar) -> (r: Scalar)
    requires
        functional(*unit),
    ensures
        r == hyperbolic_tangent(unit, a),
{
    unit(Operation::HyperbolicTangent(a))
}

// --- rounding ---------------------------------------------------------------------

/// `r` is a finite value as close as any to `num / den`, both counted in units.
pub open spec fn nearest(num: int, den: int, r: Scalar) -> bool {
    &&& is_finite(r)
    &&& forall|s: Scalar| #[trigger]
        is_finite(s) ==> distance(scalar::exact(r) * den, num) <= distance(scalar::exact(s) * den, num)
}

pub open spec fn distance(a: int, b: int) -> int {
    if a <= b {
        b - a
    } else {
        a - b
    }
}

/// `r` is what rounding to nearest makes of `num / den`: the nearest finite
/// value, or infinity when the quotient is out of range.
pub open spec fn delivers(num: int, den: int, r: Scalar) -> bool {
    ||| nearest(num, den, r)
    ||| num > scalar::exact(LARGEST) * den && r == INFINITY
    ||| num < -(scalar::exact(LARGEST) * den) && r == MINUS_INFINITY
}

/// `unit` rounds the four basic operations, and the values of counts, to nearest.
pub open spec fn rounding<F: Fn(Operation) -> Scalar>(unit: &F) -> bool {
    &&& forall|n: u64| delivers(n * scalar::unit(), 1, #[trigger] from_count(unit, n))
    &&& forall|a: Scalar, b: Scalar|
        is_finite(a) && is_finite(b) ==> delivers(
            scalar::exact(a) + scalar::exact(b),
            1,
            #[trigger] plus(unit, a, b),
        )
    &&& forall|a: Scalar, b: Scalar|
        is_finite(a) && is_finite(b) ==> delivers(
            scalar::exact(a) - scalar::exact(b),
            1,
            #[trigger] minus(unit, a, b),
        )
    &&& forall|a: Scalar| is_finite(a) ==> #[trigger] plus(unit, a, INFINITY) == INFINITY
    &&& forall|a: Scalar|
        is_finite(a) ==> #[trigger] minus(unit, a, INFINITY) == MINUS_INFINITY
    &&& forall|a: Scalar|
        is_finite(a) ==> #[trigger] minus(unit, a, MINUS_INFINITY) == INFINITY
    &&& forall|a: Scalar| is_finite(a) ==> #[trigger] minus(unit, INFINITY, a) == INFINITY
    &&& forall|a: Scalar|
        is_finite(a) ==> #[trigger] minus(unit, MINUS_INFINITY, a) == MINUS_INFINITY
    &&& forall|a: Scalar, b: Scalar|
        is_finite(a) && is_finite(b) ==> delivers(
            scalar::exact(a) * scalar::exact(b),
            scalar::unit(),
            #[trigger] times(unit, a, b),
        )
    &&& forall|a: Scalar, b: Scalar|
        is_finite(a) && is_finite(b) && scalar::exact(b) > 0 ==> delivers(
            scalar::exact(a) * scalar::unit(),
            scalar::exact(b),
            #[trigger] over(unit, a, b),
        )
    &&& forall|b: Scalar|
        is_finite(b) && scalar::exact(b) > 0 ==> #[trigger] over(unit, INFINITY, b) == INFINITY
}

/// Rounding never steps over a finite value.
pub proof fn lemma_nearest_is_bounded(num: int, den: int, r: Scalar, bound: Scalar)
    requires
        nearest(num, den, r),
        den > 0,
        is_finite(bound),
    ensures
        num <= scalar::exact(bound) * den ==> scalar::exact(r) <= scalar::exact(bound),
        num >= scalar::exact(bound) * den ==> scalar::exact(r) >= scalar::exact(bound),
{
    let e = scalar::exact(r);
    let b = scalar::exact(bound);
    assert(distance(e * den, num) <= distance(b * den, num));
    if num <= b * den && e > b {
        assert(e * den > b * den) by (nonlinear_arith)
            requires
                e > b,
                den > 0,
        ;
    }
    if num >= b * den && e < b {
        assert(e * den < b * den) by (nonlinear_arith)
            requires
                e < b,
                den > 0,
        ;
    }
}

/// Rounding leaves a quotient alone that is already a value.
pub proof fn lemma_exact_is_kept(num: int, den: int, r: Scalar, value: Scalar)
    requires
        delivers(num, den, r),
        den > 0,
        is_finite(value),
        num == scalar::exact(value) * den,
    ensures
        is_finite(r),
        scalar::exact(r) == scalar::exact(value),
{
    scalar::lemma_largest(value);
    let most = scalar::exact(LARGEST);
    let e = scalar::exact(value);
    assert(-(most * den) <= e * den <= most * den) by (nonlinear_arith)
        requires
            -most <= e <= most,
            den > 0,
    ;
    lemma_nearest_is_bounded(num, den, r, value);
}

/// Adding or taking away nothing changes nothing, and a value less itself is
/// nothing.
pub proof fn lemma_sums_are_exact<F: Fn(Operation) -> Scalar>(unit: &F, a: Scalar, b: Scalar)
    requires
        rounding(unit),
        is_finite(a),
        is_finite(b),
    ensures
        scalar::exact(b) == 0 ==> is_finite(plus(unit, a, b)) && scalar::exact(plus(unit, a, b))
            == scalar::exact(a),
        scalar::exact(b) == 0 ==> is_finite(minus(unit, a, b)) && scalar::exact(minus(unit, a, b))
            == scalar::exact(a),
        a == b ==> is_finite(minus(unit, a, b)) && scalar::exact(minus(unit, a, b)) == 0,
{
    scalar::lemma_exact_order(ZERO, ZERO);
    assert(delivers(scalar::exact(a) + scalar::exact(b), 1, plus(unit, a, b)));
    assert(delivers(scalar::exact(a) - scalar::exact(b), 1, minus(unit, a, b)));
    if scalar::exact(b) == 0 {
        lemma_exact_is_kept(scalar::exact(a) + scalar::exact(b), 1, plus(unit, a, b), a);
        lemma_exact_is_kept(scalar::exact(a) - scalar::exact(b), 1, minus(unit, a, b), a);
    }
    if a == b {
        lemma_exact_is_kept(scalar::exact(a) - scalar::exact(b), 1, minus(unit, a, b), ZERO);
    }
}

/// Nothing, times anything finite, is nothing.
pub proof fn lemma_nothing_times<F: Fn(Operation) -> Scalar>(unit: &F, a: Scalar, zero: Scalar)
    requires
        rounding(unit),
        is_finite(a),
        is_finite(zero),
        scalar::exact(zero) == 0,
    ensures
        is_finite(times(unit, a, zero)),
        scalar::exact(times(unit, a, zero)) == 0,
        is_finite(times(unit, zero, a)),
        scalar::exact(times(unit, zero, a)) == 0,
{
    scalar::lemma_exact_order(ZERO, ZERO);
    scalar::lemma_one();
    let whole = scalar::unit();
    assert(scalar::exact(a) * 0 == 0 && 0 * scalar::exact(a) == 0 && scalar::exact(ZERO) * whole
        == 0) by (nonlinear_arith)
        requires
            scalar::exact(ZERO) == 0,
    ;
    assert(delivers(scalar::exact(a) * scalar::exact(zero), whole, times(unit, a, zero)));
    assert(delivers(scalar::exact(zero) * scalar::exact(a), whole, times(unit, zero, a)));
    lemma_exact_is_kept(0, whole, times(unit, a, zero), ZERO);
    lemma_exact_is_kept(0, whole, times(unit, zero, a), ZERO);
}

} // verus!
