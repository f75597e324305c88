//! A system whose evaluations are counted.
//!
//! What a step of a fixed-step integrator costs is how often it asks for the
//! derivatives. So it asks through a [`Metered`], which counts.

use vstd::prelude::*;

use crate::plant::integrator;
use crate::plant::integrator::Derivatives;
use crate::scalar::Scalar;

verus! {

/// A system, and how often it was evaluated.
pub struct Metered<S> {
    system: S,
    calls: Ghost<nat>,
}

impl<S: Derivatives> Metered<S> {
    pub closed spec fn system(self) -> S {
        self.system
    }

    /// How often the derivatives were asked for.
    pub closed spec fn calls(self) -> nat {
        self.calls@
    }

    pub fn new(system: S) -> (metered: Self)
        ensures
            metered.system() == system,
            metered.calls() == 0,
    {
        Metered { system, calls: Ghost(0) }
    }

    /// Write dx/dt at (`t`, `x`) into `dx`.
    pub fn derivatives(&mut self, t: Scalar, x: &Vec<Scalar>, dx: &mut Vec<Scalar>)
        requires
            old(self).system().accepts(x@.len()),
            old(dx)@.len() == x@.len(),
        ensures
            integrator::agree(&old(self).system(), &final(self).system()),
            final(self).calls() == old(self).calls() + 1,
            final(dx)@ == old(self).system().rates(t, x@),
            final(dx)@.len() == x@.len(),
    {
        self.calls = Ghost(self.calls@ + 1);
        self.system.derivatives(t, x, dx);
    }
}

} // verus!
