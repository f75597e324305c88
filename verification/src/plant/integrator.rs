//! Fixed-step explicit integrators.
//!
//! The host owns the integrator, so a step costs a fixed, known number of
//! derivative evaluations, every time, and they are counted. Everything is preallocated at
//! construction. There is no allocation, and no branch on problem size, inside
//! `advance`.

use vstd::arithmetic::power2::*;
use vstd::prelude::*;

use crate::arith;
use crate::arith::{from_count, over, plus, times, Operation};
use crate::plant::metered::Metered;
use crate::arith::rounding;
use crate::numbers;
use crate::numbers::{nearly, number, size, upto};
use crate::scalar::{Scalar, ZERO};
use crate::text;
use crate::text::{letters, spells};

verus! {

pub const HALF: Scalar = 0x3fe0_0000_0000_0000;

pub const TWO: Scalar = 0x4000_0000_0000_0000;

pub const SIX: Scalar = 0x4018_0000_0000_0000;

/// How many states a system has, in statements about it.
pub type Dimension = nat;

/// The states of a system, or their rates, in statements about it.
pub type StateVector = Seq<Scalar>;

/// A first-order ODE system the integrator can advance.
pub trait Derivatives {
    /// The system can be evaluated at a state of this dimension.
    spec fn accepts(&self, dimension: Dimension) -> bool;

    /// dx/dt at (`t`, `x`).
    spec fn rates(&self, t: Scalar, x: StateVector) -> StateVector;

    /// Write dx/dt at (`t`, `x`) into `dx`. Whatever else that changes, it is the
    /// same system afterwards.
    fn derivatives(&mut self, t: Scalar, x: &Vec<Scalar>, dx: &mut Vec<Scalar>)
        requires
            old(self).accepts(x@.len()),
            old(dx)@.len() == x@.len(),
        ensures
            forall|dimension: Dimension| #[trigger]
                final(self).accepts(dimension) == old(self).accepts(dimension),
            forall|at: Scalar, state: StateVector| #[trigger]
                final(self).rates(at, state) == old(self).rates(at, state),
            final(dx)@ == old(self).rates(t, x@),
            final(dx)@.len() == x@.len(),
    ;
}

/// Two systems with the same rates everywhere.
pub open spec fn agree<S: Derivatives>(one: &S, other: &S) -> bool {
    &&& forall|dimension: Dimension| #[trigger] other.accepts(dimension) == one.accepts(dimension)
    &&& forall|t: Scalar, x: StateVector| #[trigger] other.rates(t, x) == one.rates(t, x)
}

#[derive(Clone, Copy, PartialEq, Eq, Structural, Debug)]
pub enum Method {
    /// One evaluation per step. Cheapest, and the fallback when a step must be
    /// made to fit a shrinking budget.
    Euler,
    /// Two evaluations. Often the right trade for a 1 kHz vehicle model.
    Midpoint,
    /// Four evaluations. The baseline: at 1 ms it carries a comfortable margin
    /// on every eigenvalue in this class of model.
    Rk4,
}

/// An ASCII capital as its small letter, anything else as it is.
pub open spec fn lowered(c: char) -> char {
    if 'A' <= c <= 'Z' {
        (c as int + 32) as char
    } else {
        c
    }
}

impl Method {
    pub open spec fn cost(self) -> nat {
        match self {
            Method::Euler => 1,
            Method::Midpoint => 2,
            Method::Rk4 => 4,
        }
    }

    /// The method a name stands for, whatever its case.
    pub open spec fn named(text: Seq<char>) -> Option<Method> {
        let small = text.map_values(|c: char| lowered(c));
        if small == "euler"@ {
            Some(Method::Euler)
        } else if small == "midpoint"@ || small == "rk2"@ {
            Some(Method::Midpoint)
        } else if small == "rk4"@ {
            Some(Method::Rk4)
        } else {
            None
        }
    }

    pub fn evaluations(&self) -> (count: usize)
        ensures
            count == self.cost(),
    {
        match self {
            Method::Euler => 1,
            Method::Midpoint => 2,
            Method::Rk4 => 4,
        }
    }

    pub fn parse(text: &str) -> (method: Option<Self>)
        ensures
            method == Self::named(text@),
    {
        let mut chars: Vec<char> = letters(text);
        let len: usize = chars.len();
        let mut i: usize = 0;
        while i < len
            invariant
                i <= len == chars@.len(),
                text@.len() == len,
                forall|j: int| 0 <= j < i ==> #[trigger] chars@[j] == lowered(text@[j]),
                forall|j: int| i <= j < len ==> #[trigger] chars@[j] == text@[j],
            decreases len - i,
        {
            let c: char = chars[i];
            if 'A' <= c && c <= 'Z' {
                chars.set(i, ((c as u8) + 32) as char);
            }
            i += 1;
        }
        assert(chars@ =~= text@.map_values(|c: char| lowered(c)));
        assert(chars@.subrange(0, len as int) =~= chars@);
        if spells(&chars, 0, len, "euler") {
            Some(Method::Euler)
        } else if spells(&chars, 0, len, "midpoint") || spells(&chars, 0, len, "rk2") {
            Some(Method::Midpoint)
        } else if spells(&chars, 0, len, "rk4") {
            Some(Method::Rk4)
        } else {
            None
        }
    }
}

// --- the schemes ------------------------------------------------------------------

/// `x + weight * k`, component by component.
pub open spec fn moved<F: Fn(Operation) -> Scalar>(
    unit: &F,
    x: Seq<Scalar>,
    k: Seq<Scalar>,
    weight: Scalar,
) -> Seq<Scalar> {
    Seq::new(x.len(), |i: int| plus(unit, x[i], times(unit, weight, k[i])))
}

/// The weighted mean slope of the four Runge-Kutta stages, applied.
pub open spec fn combined<F: Fn(Operation) -> Scalar>(
    unit: &F,
    x: Seq<Scalar>,
    k1: Seq<Scalar>,
    k2: Seq<Scalar>,
    k3: Seq<Scalar>,
    k4: Seq<Scalar>,
    sixth: Scalar,
) -> Seq<Scalar> {
    Seq::new(
        x.len(),
        |i: int|
            plus(
                unit,
                x[i],
                times(
                    unit,
                    sixth,
                    plus(
                        unit,
                        plus(
                            unit,
                            plus(unit, k1[i], times(unit, TWO, k2[i])),
                            times(unit, TWO, k3[i]),
                        ),
                        k4[i],
                    ),
                ),
            ),
    )
}

/// One step of length `h` from (`t`, `x`).
pub open spec fn one_step<S: Derivatives, F: Fn(Operation) -> Scalar>(
    method: Method,
    unit: &F,
    system: &S,
    t: Scalar,
    x: Seq<Scalar>,
    h: Scalar,
) -> Seq<Scalar> {
    let half = times(unit, HALF, h);
    let mid = plus(unit, t, half);
    let k1 = system.rates(t, x);
    let k2 = system.rates(mid, moved(unit, x, k1, half));
    match method {
        Method::Euler => moved(unit, x, k1, h),
        Method::Midpoint => moved(unit, x, k2, h),
        Method::Rk4 => {
            let k3 = system.rates(mid, moved(unit, x, k2, half));
            let k4 = system.rates(plus(unit, t, h), moved(unit, x, k3, h));
            combined(unit, x, k1, k2, k3, k4, over(unit, h, SIX))
        },
    }
}

/// State and time after `n` steps of length `h`.
pub open spec fn after_steps<S: Derivatives, F: Fn(Operation) -> Scalar>(
    method: Method,
    unit: &F,
    system: &S,
    t: Scalar,
    x: Seq<Scalar>,
    h: Scalar,
    n: nat,
) -> (Seq<Scalar>, Scalar)
    decreases n,
{
    if n == 0 {
        (x, t)
    } else {
        let before = after_steps(method, unit, system, t, x, h, (n - 1) as nat);
        (one_step(method, unit, system, before.1, before.0, h), plus(unit, before.1, h))
    }
}

/// A fixed-step integrator with all working storage preallocated.
pub struct FixedStep {
    method: Method,
    substeps: usize,
    k1: Vec<Scalar>,
    k2: Vec<Scalar>,
    k3: Vec<Scalar>,
    k4: Vec<Scalar>,
    scratch: Vec<Scalar>,
}

fn zeros(n: usize) -> (v: Vec<Scalar>)
    ensures
        v@.len() == n,
        forall|i: int| 0 <= i < n ==> v@[i] == ZERO,
{
    let mut v: Vec<Scalar> = Vec::new();
    let mut i: usize = 0;
    while i < n
        invariant
            i <= n,
            v@.len() == i,
            forall|j: int| 0 <= j < i ==> v@[j] == ZERO,
        decreases n - i,
    {
        v.push(ZERO);
        i += 1;
    }
    v
}

/// `out = x + weight * k`, the trial state every explicit stage needs.
fn stage<F: Fn(Operation) -> Scalar>(
    unit: &F,
    out: &mut Vec<Scalar>,
    x: &Vec<Scalar>,
    k: &Vec<Scalar>,
    weight: Scalar,
)
    requires
        arith::functional(*unit),
        old(out)@.len() == x@.len(),
        k@.len() == x@.len(),
    ensures
        final(out)@ == moved(unit, x@, k@, weight),
{
    let mut i: usize = 0;
    while i < x.len()
        invariant
            arith::functional(*unit),
            i <= x@.len(),
            out@.len() == x@.len(),
            k@.len() == x@.len(),
            forall|j: int| 0 <= j < i ==> out@[j] == moved(unit, x@, k@, weight)[j],
        decreases x@.len() - i,
    {
        out.set(i, plus(unit, x[i], times(unit, weight, k[i])));
        i += 1;
    }
    assert(out@ =~= moved(unit, x@, k@, weight));
}

/// `x = x + weight * k`, in place.
fn shift<F: Fn(Operation) -> Scalar>(unit: &F, x: &mut Vec<Scalar>, k: &Vec<Scalar>, weight: Scalar)
    requires
        arith::functional(*unit),
        k@.len() == old(x)@.len(),
    ensures
        final(x)@ == moved(unit, old(x)@, k@, weight),
{
    let n: usize = x.len();
    let mut i: usize = 0;
    while i < n
        invariant
            arith::functional(*unit),
            i <= n == x@.len(),
            k@.len() == n,
            n == old(x)@.len(),
            forall|j: int| 0 <= j < i ==> x@[j] == moved(unit, old(x)@, k@, weight)[j],
            forall|j: int| i <= j < n ==> x@[j] == old(x)@[j],
        decreases n - i,
    {
        let value: Scalar = plus(unit, x[i], times(unit, weight, k[i]));
        x.set(i, value);
        i += 1;
    }
    assert(x@ =~= moved(unit, old(x)@, k@, weight));
}

impl FixedStep {
    pub closed spec fn dimension(&self) -> nat {
        self.scratch@.len()
    }

    pub closed spec fn scheme(&self) -> Method {
        self.method
    }

    pub closed spec fn pieces(&self) -> usize {
        self.substeps
    }

    /// Every stage has storage, and a step is cut into at least one piece.
    pub closed spec fn well_formed(&self) -> bool {
        &&& self.substeps >= 1
        &&& self.k1@.len() == self.scratch@.len()
        &&& self.k2@.len() == self.scratch@.len()
        &&& self.k3@.len() == self.scratch@.len()
        &&& self.k4@.len() == self.scratch@.len()
    }

    pub fn new(dimension: usize, method: Method, substeps: usize) -> (integrator: Self)
        ensures
            integrator.well_formed(),
            integrator.dimension() == dimension,
            integrator.scheme() == method,
            integrator.pieces() == if substeps == 0 {
                1
            } else {
                substeps
            },
    {
        FixedStep {
            method,
            substeps: if substeps == 0 {
                1
            } else {
                substeps
            },
            k1: zeros(dimension),
            k2: zeros(dimension),
            k3: zeros(dimension),
            k4: zeros(dimension),
            scratch: zeros(dimension),
        }
    }

    /// An empty integrator.
    pub fn placeholder() -> (integrator: Self)
        ensures
            integrator.well_formed(),
            integrator.dimension() == 0,
            integrator.scheme() == Method::Euler,
            integrator.pieces() == 1,
    {
        Self::new(0, Method::Euler, 1)
    }

    pub fn method(&self) -> (method: Method)
        ensures
            method == self.scheme(),
    {
        self.method
    }

    pub fn substeps(&self) -> (substeps: usize)
        ensures
            substeps == self.pieces(),
    {
        self.substeps
    }

    /// Derivative evaluations one `advance` call will cost. Constant, which is
    /// what makes the step budget predictable.
    pub fn evaluations_per_step(&self) -> (count: usize)
        requires
            self.scheme().cost() * self.pieces() <= usize::MAX,
        ensures
            count == self.scheme().cost() * self.pieces(),
    {
        self.method.evaluations() * self.substeps
    }

    /// Advance `x` from `t` by `dt`. Returns the new time.
    pub fn advance<S: Derivatives, F: Fn(Operation) -> Scalar>(
        &mut self,
        unit: &F,
        system: &mut Metered<S>,
        t: Scalar,
        x: &mut Vec<Scalar>,
        dt: Scalar,
    ) -> (time: Scalar)
        requires
            arith::functional(*unit),
            old(self).well_formed(),
            old(x)@.len() == old(self).dimension(),
            old(system).system().accepts(old(x)@.len()),
        ensures
            final(self).well_formed(),
            final(self).dimension() == old(self).dimension(),
            final(self).scheme() == old(self).scheme(),
            final(self).pieces() == old(self).pieces(),
            // A step costs what it says it does, every time.
            agree(&old(system).system(), &final(system).system()),
            final(system).calls() == old(system).calls() + old(self).scheme().cost() * old(
                self,
            ).pieces(),
            ({
                let h = over(unit, dt, from_count(unit, old(self).pieces() as u64));
                let end = after_steps(
                    old(self).scheme(),
                    unit,
                    &old(system).system(),
                    t,
                    old(x)@,
                    h,
                    old(self).pieces() as nat,
                );
                &&& final(x)@ == end.0
                &&& time == end.1
            }),
            final(x)@.len() == old(x)@.len(),
    {
        let h: Scalar = over(unit, dt, from_count(unit, self.substeps as u64));
        let mut time: Scalar = t;
        let mut done: usize = 0;
        while done < self.substeps
            invariant
                arith::functional(*unit),
                self.well_formed(),
                self.dimension() == old(self).dimension(),
                self.scheme() == old(self).scheme(),
                self.pieces() == old(self).pieces(),
                x@.len() == self.dimension(),
                x@.len() == old(x)@.len(),
                agree(&old(system).system(), &system.system()),
                system.calls() == old(system).calls() + self.scheme().cost() * done,
                old(system).system().accepts(x@.len()),
                done <= self.pieces(),
                (x@, time) == after_steps(
                    self.scheme(),
                    unit,
                    &old(system).system(),
                    t,
                    old(x)@,
                    h,
                    done as nat,
                ),
            decreases self.pieces() - done,
        {
            match self.method {
                Method::Euler => self.euler(unit, system, time, x, h),
                Method::Midpoint => self.midpoint(unit, system, time, x, h),
                Method::Rk4 => self.rk4(unit, system, time, x, h),
            }
            time = plus(unit, time, h);
            assert(self.scheme().cost() * (done + 1) == self.scheme().cost() * done
                + self.scheme().cost()) by (nonlinear_arith);
            done += 1;
        }
        time
    }

    fn euler<S: Derivatives, F: Fn(Operation) -> Scalar>(
        &mut self,
        unit: &F,
        system: &mut Metered<S>,
        t: Scalar,
        x: &mut Vec<Scalar>,
        h: Scalar,
    )
        requires
            arith::functional(*unit),
            old(self).well_formed(),
            old(x)@.len() == old(self).dimension(),
            old(system).system().accepts(old(x)@.len()),
        ensures
            final(self).well_formed(),
            final(self).dimension() == old(self).dimension(),
            final(self).method == old(self).method,
            final(self).substeps == old(self).substeps,
            agree(&old(system).system(), &final(system).system()),
            final(system).calls() == old(system).calls() + Method::Euler.cost(),
            final(x)@ == one_step(Method::Euler, unit, &old(system).system(), t, old(x)@, h),
    {
        system.derivatives(t, x, &mut self.k1);
        shift(unit, x, &self.k1, h);
    }

    fn midpoint<S: Derivatives, F: Fn(Operation) -> Scalar>(
        &mut self,
        unit: &F,
        system: &mut Metered<S>,
        t: Scalar,
        x: &mut Vec<Scalar>,
        h: Scalar,
    )
        requires
            arith::functional(*unit),
            old(self).well_formed(),
            old(x)@.len() == old(self).dimension(),
            old(system).system().accepts(old(x)@.len()),
        ensures
            final(self).well_formed(),
            final(self).dimension() == old(self).dimension(),
            final(self).method == old(self).method,
            final(self).substeps == old(self).substeps,
            agree(&old(system).system(), &final(system).system()),
            final(system).calls() == old(system).calls() + Method::Midpoint.cost(),
            final(x)@ == one_step(Method::Midpoint, unit, &old(system).system(), t, old(x)@, h),
    {
        let half: Scalar = times(unit, HALF, h);
        system.derivatives(t, x, &mut self.k1);
        stage(unit, &mut self.scratch, x, &self.k1, half);
        system.derivatives(plus(unit, t, half), &self.scratch, &mut self.k2);
        shift(unit, x, &self.k2, h);
    }

    fn rk4<S: Derivatives, F: Fn(Operation) -> Scalar>(
        &mut self,
        unit: &F,
        system: &mut Metered<S>,
        t: Scalar,
        x: &mut Vec<Scalar>,
        h: Scalar,
    )
        requires
            arith::functional(*unit),
            old(self).well_formed(),
            old(x)@.len() == old(self).dimension(),
            old(system).system().accepts(old(x)@.len()),
        ensures
            final(self).well_formed(),
            final(self).dimension() == old(self).dimension(),
            final(self).method == old(self).method,
            final(self).substeps == old(self).substeps,
            agree(&old(system).system(), &final(system).system()),
            final(system).calls() == old(system).calls() + Method::Rk4.cost(),
            final(x)@ == one_step(Method::Rk4, unit, &old(system).system(), t, old(x)@, h),
    {
        let half: Scalar = times(unit, HALF, h);
        system.derivatives(t, x, &mut self.k1);
        stage(unit, &mut self.scratch, x, &self.k1, half);
        system.derivatives(plus(unit, t, half), &self.scratch, &mut self.k2);
        stage(unit, &mut self.scratch, x, &self.k2, half);
        system.derivatives(plus(unit, t, half), &self.scratch, &mut self.k3);
        stage(unit, &mut self.scratch, x, &self.k3, h);
        system.derivatives(plus(unit, t, h), &self.scratch, &mut self.k4);

        let sixth: Scalar = over(unit, h, SIX);
        let n: usize = x.len();
        let mut i: usize = 0;
        let ghost target = combined(
            unit,
            old(x)@,
            self.k1@,
            self.k2@,
            self.k3@,
            self.k4@,
            sixth,
        );
        while i < n
            invariant
                arith::functional(*unit),
                i <= n == x@.len(),
                n == old(x)@.len(),
                self.k1@.len() == n,
                self.k2@.len() == n,
                self.k3@.len() == n,
                self.k4@.len() == n,
                target == combined(
                    unit,
                    old(x)@,
                    self.k1@,
                    self.k2@,
                    self.k3@,
                    self.k4@,
                    sixth,
                ),
                forall|j: int| 0 <= j < i ==> x@[j] == target[j],
                forall|j: int| i <= j < n ==> x@[j] == old(x)@[j],
            decreases n - i,
        {
            let first: Scalar = plus(unit, self.k1[i], times(unit, TWO, self.k2[i]));
            let slope: Scalar = plus(
                unit,
                plus(unit, first, times(unit, TWO, self.k3[i])),
                self.k4[i],
            );
            let value: Scalar = plus(unit, x[i], times(unit, sixth, slope));
            x.set(i, value);
            i += 1;
        }
        assert(x@ =~= target);
    }
}

// --- laws -----------------------------------------------------------------------

/// `k` is the slope of the system `ahead` of (`t`, `x`) in time, with every state
/// moved along `slope` for as long, but for rounding.
pub open spec fn sampled<S: Derivatives>(
    system: &S,
    t: Scalar,
    x: StateVector,
    slope: StateVector,
    ahead: real,
    k: StateVector,
) -> bool {
    exists|at: Scalar, y: StateVector| #[trigger]
        system.rates(at, y) == k && nearly(at, number(t) + ahead) && follows(x, slope, ahead, y)
}

/// `y` is `x` moved along `slope` for `ahead`, but for rounding.
pub open spec fn follows(x: StateVector, slope: StateVector, ahead: real, y: StateVector) -> bool {
    &&& y.len() == x.len()
    &&& forall|i: int|
        0 <= i < x.len() ==> nearly(#[trigger] y[i], number(x[i]) + ahead * number(slope[i]))
}

/// A system whose rates are in bounds.
pub open spec fn tame<S: Derivatives>(system: &S) -> bool {
    forall|t: Scalar, y: StateVector, i: int|
        0 <= i < y.len() ==> (#[trigger] system.rates(t, y)).len() == y.len() && upto(
            #[trigger] system.rates(t, y)[i],
            10000real,
        )
}

proof fn lemma_moved<F: Fn(Operation) -> Scalar>(
    unit: &F,
    x: StateVector,
    k: StateVector,
    weight: Scalar,
    w: real,
)
    requires
        rounding(unit),
        k.len() == x.len(),
        forall|i: int| 0 <= i < x.len() ==> upto(#[trigger] x[i], 10000real),
        forall|i: int| 0 <= i < x.len() ==> upto(#[trigger] k[i], 10000real),
        numbers::within(weight, w, 10real),
        size(w) <= 1real,
    ensures
        follows(x, k, w, moved(unit, x, k, weight)),
{
    let y = moved(unit, x, k, weight);
    assert forall|i: int| 0 <= i < x.len() implies nearly(
        #[trigger] y[i],
        number(x[i]) + w * number(k[i]),
    ) by {
        let step = times(unit, weight, k[i]);
        numbers::lemma_within_times(
            unit,
            weight,
            w,
            10real,
            k[i],
            number(k[i]),
            0real,
            1real,
            10000real,
        );
        numbers::lemma_within_plus(
            unit,
            x[i],
            number(x[i]),
            0real,
            step,
            w * number(k[i]),
            200000real,
        );
    }
}

/// Each method is the scheme it is named for: Euler's takes the slope where the step
/// begins, the midpoint's the slope half way along it, and the classical Runge-Kutta
/// scheme a sixth of the slopes at the two ends and a third of the two in the middle,
/// each taken along the one before.
pub proof fn law_each_method_is_its_scheme<S: Derivatives, F: Fn(Operation) -> Scalar>(
    method: Method,
    unit: &F,
    system: &S,
    t: Scalar,
    x: StateVector,
    h: Scalar,
)
    requires
        rounding(unit),
        tame(system),
        upto(h, 1real),
        upto(t, 1000000real),
        x.len() > 0,
        forall|i: int| 0 <= i < x.len() ==> upto(#[trigger] x[i], 10000real),
    ensures
        ({
            let after = one_step(method, unit, system, t, x, h);
            let first = system.rates(t, x);
            let time = number(h);
            match method {
                Method::Euler => follows(x, first, time, after),
                Method::Midpoint => exists|middle: StateVector|
                    {
                        &&& #[trigger] sampled(system, t, x, first, 1real / 2real * time, middle)
                        &&& follows(x, middle, time, after)
                    },
                Method::Rk4 => exists|second: StateVector, third: StateVector, last: StateVector|
                    {
                        &&& #[trigger] sampled(system, t, x, first, 1real / 2real * time, second)
                        &&& #[trigger] sampled(system, t, x, second, 1real / 2real * time, third)
                        &&& #[trigger] sampled(system, t, x, third, time, last)
                        &&& averages(x, first, second, third, last, time, after)
                    },
            }
        }),
{
    let time = number(h);
    numbers::lemma_unrounded(ZERO);
    let half = times(unit, HALF, h);
    let half_n = 1real / 2real * time;
    numbers::lemma_within_times(unit, HALF, 1real / 2real, 0real, h, time, 0real, 1real, 1real);
    let mid = plus(unit, t, half);
    numbers::lemma_within_plus(unit, t, number(t), 0real, half, half_n, 10real);
    let end = plus(unit, t, h);
    numbers::lemma_within_plus(unit, t, number(t), 0real, h, time, 0real);
    let k1 = system.rates(t, x);
    lemma_tame(system, t, x);
    let y2 = moved(unit, x, k1, half);
    lemma_moved(unit, x, k1, half, half_n);
    let k2 = system.rates(mid, y2);
    lemma_tame(system, mid, y2);
    assert(sampled(system, t, x, k1, half_n, k2));
    match method {
        Method::Euler => {
            lemma_moved(unit, x, k1, h, time);
        },
        Method::Midpoint => {
            lemma_moved(unit, x, k2, h, time);
        },
        Method::Rk4 => {
            let y3 = moved(unit, x, k2, half);
            lemma_moved(unit, x, k2, half, half_n);
            let k3 = system.rates(mid, y3);
            lemma_tame(system, mid, y3);
            assert(sampled(system, t, x, k2, half_n, k3));
            let y4 = moved(unit, x, k3, h);
            lemma_moved(unit, x, k3, h, time);
            let k4 = system.rates(end, y4);
            lemma_tame(system, end, y4);
            assert(sampled(system, t, x, k3, time, k4));
            lemma_averages(unit, x, k1, k2, k3, k4, h);
        },
    }
}

proof fn lemma_tame<S: Derivatives>(system: &S, t: Scalar, y: StateVector)
    requires
        tame(system),
        y.len() > 0,
    ensures
        system.rates(t, y).len() == y.len(),
        forall|i: int| 0 <= i < y.len() ==> upto(#[trigger] system.rates(t, y)[i], 10000real),
{
    assert(upto(system.rates(t, y)[0], 10000real));
}

/// `y` is `x` moved for `time` along a sixth of the first and last slopes and a third
/// of the two between, but for rounding.
pub open spec fn averages(
    x: StateVector,
    first: StateVector,
    second: StateVector,
    third: StateVector,
    last: StateVector,
    time: real,
    y: StateVector,
) -> bool {
    &&& y.len() == x.len()
    &&& forall|i: int|
        0 <= i < x.len() ==> nearly(
            #[trigger] y[i],
            number(x[i]) + time / 6real * (number(first[i]) + 2real * number(second[i]) + 2real
                * number(third[i]) + number(last[i])),
        )
}

proof fn lemma_averages<F: Fn(Operation) -> Scalar>(
    unit: &F,
    x: StateVector,
    k1: StateVector,
    k2: StateVector,
    k3: StateVector,
    k4: StateVector,
    h: Scalar,
)
    requires
        rounding(unit),
        upto(h, 1real),
        forall|i: int| 0 <= i < x.len() ==> upto(#[trigger] x[i], 10000real),
        forall|i: int| 0 <= i < x.len() ==> upto(#[trigger] k1[i], 10000real),
        forall|i: int| 0 <= i < x.len() ==> upto(#[trigger] k2[i], 10000real),
        forall|i: int| 0 <= i < x.len() ==> upto(#[trigger] k3[i], 10000real),
        forall|i: int| 0 <= i < x.len() ==> upto(#[trigger] k4[i], 10000real),
    ensures
        averages(
            x,
            k1,
            k2,
            k3,
            k4,
            number(h),
            combined(unit, x, k1, k2, k3, k4, over(unit, h, SIX)),
        ),
{
    let y = combined(unit, x, k1, k2, k3, k4, over(unit, h, SIX));
    let sixth = over(unit, h, SIX);
    lemma2_to64();
    lemma2_to64_rest();
    numbers::lemma_word(TWO, 0x10_0000_0000_0000, 1024, 51, 2251799813685248);
    numbers::lemma_word(SIX, 0x18_0000_0000_0000, 1025, 50, 1125899906842624);
    numbers::lemma_within_over(unit, h, number(h), 0real, SIX, 1real, 0real);
    assert forall|i: int| 0 <= i < x.len() implies nearly(
        #[trigger] y[i],
        number(x[i]) + number(h) / 6real * (number(k1[i]) + 2real * number(k2[i]) + 2real * number(
            k3[i],
        ) + number(k4[i])),
    ) by {
        let twice_two = times(unit, TWO, k2[i]);
        let twice_two_n = 2real * number(k2[i]);
        numbers::lemma_within_times(unit, TWO, 2real, 0real, k2[i], number(k2[i]), 0real, 2real, 10000real);
        assert(numbers::within(twice_two, twice_two_n, 31000real));
        let up_to_two = plus(unit, k1[i], twice_two);
        let up_to_two_n = number(k1[i]) + twice_two_n;
        numbers::lemma_within_plus(unit, k1[i], number(k1[i]), 0real, twice_two, twice_two_n, 31000real);
        assert(numbers::within(up_to_two, up_to_two_n, 62000real));
        let twice_three = times(unit, TWO, k3[i]);
        let twice_three_n = 2real * number(k3[i]);
        numbers::lemma_within_times(unit, TWO, 2real, 0real, k3[i], number(k3[i]), 0real, 2real, 10000real);
        assert(numbers::within(twice_three, twice_three_n, 31000real));
        let up_to_three = plus(unit, up_to_two, twice_three);
        let up_to_three_n = up_to_two_n + twice_three_n;
        numbers::lemma_within_plus(unit, up_to_two, up_to_two_n, 62000real, twice_three, twice_three_n, 31000real);
        assert(numbers::within(up_to_three, up_to_three_n, 150000real));
        let all = plus(unit, up_to_three, k4[i]);
        let all_n = up_to_three_n + number(k4[i]);
        numbers::lemma_within_plus(unit, up_to_three, up_to_three_n, 150000real, k4[i], number(k4[i]), 0real);
        assert(numbers::within(all, all_n, 220000real));
        let move_by = times(unit, sixth, all);
        let move_by_n = number(h) / 6real * all_n;
        numbers::lemma_within_times(unit, sixth, number(h) / 6real, 10real, all, all_n, 220000real, 1real, 60000real);
        assert(numbers::within(move_by, move_by_n, 950000real));
        let end = plus(unit, x[i], move_by);
        let end_n = number(x[i]) + move_by_n;
        numbers::lemma_within_plus(unit, x[i], number(x[i]), 0real, move_by, move_by_n, 950000real);
        assert(numbers::within(end, end_n, 1100000real));
    }
}

} // verus!
