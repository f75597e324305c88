//! A Magic-Formula-shaped tire with transient slip.
//!
//! Two things here matter more than the curve fit.
//!
//! First, **transient slip**. Steady-state slip divides by forward velocity, so
//! at a standing start it is a division by something near zero. Carrying slip
//! as a relaxation-length state removes that singularity and is also the
//! physically right answer.
//!
//! Second: **this is a shape, not the team's tire.** It compares setups against
//! each other; it does not predict absolute grip.

use vstd::prelude::*;

use crate::arith;
use crate::arith::{atan, minus, over, plus, sin, sqrt, times, Operation};
use crate::scalar::{abs, is_at_most, is_less, max_of, min_of, negate, Scalar, ONE, ZERO};

verus! {

pub const TWO: Scalar = 0x4000_0000_0000_0000;

/// Load below which a wheel counts as airborne [N].
pub const AIRBORNE: Scalar = ONE;

/// Lightest load the sensitivity term follows, as a fraction of reference: -0.9.
pub const LIGHTEST: Scalar = 0xbfec_cccc_cccc_cccd;

/// Friction the tire never falls below: 0.15.
pub const LEAST_GRIP: Scalar = 0x3fc3_3333_3333_3333;

/// Shortest relaxation length [m]: one millimetre.
pub const SHORTEST_LENGTH: Scalar = 0x3f50_624d_d2f1_a9fc;

/// Magic-Formula coefficients for one axis, plus the load sensitivity that
/// makes lateral load transfer actually cost grip.
#[derive(Clone, Copy, PartialEq, Eq, Structural, Debug)]
pub struct TireParams {
    /// Lateral stiffness factor.
    pub b_lat: Scalar,
    pub c_lat: Scalar,
    pub e_lat: Scalar,
    /// Longitudinal stiffness factor.
    pub b_long: Scalar,
    pub c_long: Scalar,
    pub e_long: Scalar,
    /// Peak friction coefficient at the reference load.
    pub mu_lat: Scalar,
    pub mu_long: Scalar,
    /// Reference vertical load for the load-sensitivity term [N].
    pub reference_load: Scalar,
    /// Fractional loss of mu per unit of normalised load above reference.
    /// This is what makes load transfer reduce total axle grip.
    pub load_sensitivity: Scalar,
    /// Relaxation length for slip angle [m].
    pub relaxation_lateral: Scalar,
    /// Relaxation length for slip ratio [m].
    pub relaxation_longitudinal: Scalar,
    /// Pneumatic trail at zero slip [m]; falls off as the tire saturates,
    /// which is the cue a driver reads as "the front is letting go".
    pub pneumatic_trail: Scalar,
}

impl TireParams {
    /// A lateral peak near 8 degrees of slip and a longitudinal one near 12 %,
    /// each with a real fall-off past it: a driver needs the car to let go, or
    /// there is no limit to find.
    pub open spec fn standard() -> Self {
        TireParams {
            b_lat: 0x4026_0000_0000_0000,
            c_lat: 0x3ff7_3333_3333_3333,
            e_lat: 0xbfe0_0000_0000_0000,
            b_long: 0x4027_9999_9999_999a,
            c_long: 0x3ff8_cccc_cccc_cccd,
            e_long: 0xbfd9_9999_9999_999a,
            mu_lat: 0x3ff8_cccc_cccc_cccd,
            mu_long: 0x3ff9_9999_9999_999a,
            reference_load: 0x4085_e000_0000_0000,
            load_sensitivity: 0x3fcc_28f5_c28f_5c29,
            relaxation_lateral: 0x3fd1_eb85_1eb8_51ec,
            relaxation_longitudinal: 0x3fc7_0a3d_70a3_d70a,
            pneumatic_trail: 0x3f9c_ac08_3126_e979,
        }
    }
}

impl Default for TireParams {
    fn default() -> (params: Self)
        ensures
            params == Self::standard(),
    {
        TireParams {
            b_lat: 0x4026_0000_0000_0000, // 11.0
            c_lat: 0x3ff7_3333_3333_3333, // 1.45
            e_lat: 0xbfe0_0000_0000_0000, // -0.5
            b_long: 0x4027_9999_9999_999a, // 11.8
            c_long: 0x3ff8_cccc_cccc_cccd, // 1.55
            e_long: 0xbfd9_9999_9999_999a, // -0.4
            mu_lat: 0x3ff8_cccc_cccc_cccd, // 1.55
            mu_long: 0x3ff9_9999_9999_999a, // 1.6
            reference_load: 0x4085_e000_0000_0000, // 700.0
            load_sensitivity: 0x3fcc_28f5_c28f_5c29, // 0.22
            relaxation_lateral: 0x3fd1_eb85_1eb8_51ec, // 0.28
            relaxation_longitudinal: 0x3fc7_0a3d_70a3_d70a, // 0.18
            pneumatic_trail: 0x3f9c_ac08_3126_e979, // 0.028
        }
    }
}

/// Force and moment produced by one contact patch.
#[derive(Clone, Copy, PartialEq, Eq, Structural, Debug)]
pub struct TireForces {
    /// Longitudinal force in the wheel frame [N].
    pub fx: Scalar,
    /// Lateral force in the wheel frame [N].
    pub fy: Scalar,
    /// Self-aligning moment about the kingpin [N.m], including caster.
    pub mz: Scalar,
    /// Fraction of available friction in use. 1.0 means the tire is saturated;
    /// the view surfaces this so a driver can see where the grip went.
    pub utilisation: Scalar,
}

impl TireForces {
    pub open spec fn none() -> Self {
        TireForces { fx: ZERO, fy: ZERO, mz: ZERO, utilisation: ZERO }
    }
}

impl Default for TireForces {
    fn default() -> (forces: Self)
        ensures
            forces == Self::none(),
    {
        TireForces { fx: ZERO, fy: ZERO, mz: ZERO, utilisation: ZERO }
    }
}

/// `sin(c atan(b s - e (b s - atan(b s))))`
pub open spec fn magic<F: Fn(Operation) -> Scalar>(
    unit: &F,
    slip: Scalar,
    b: Scalar,
    c: Scalar,
    e: Scalar,
) -> Scalar {
    let bs = times(unit, b, slip);
    let bent = minus(unit, bs, times(unit, e, minus(unit, bs, atan(unit, bs))));
    sin(unit, times(unit, c, atan(unit, bent)))
}

#[verifier::when_used_as_spec(magic)]
pub fn magic_formula<F: Fn(Operation) -> Scalar>(
    unit: &F,
    slip: Scalar,
    b: Scalar,
    c: Scalar,
    e: Scalar,
) -> (shape: Scalar)
    requires
        arith::functional(*unit),
    ensures
        shape == magic(unit, slip, b, c, e),
{
    let bs: Scalar = times(unit, b, slip);
    let bent: Scalar = minus(unit, bs, times(unit, e, minus(unit, bs, atan(unit, bs))));
    sin(unit, times(unit, c, atan(unit, bent)))
}

impl TireParams {
    /// Peak friction at a load.
    pub open spec fn grip<F: Fn(Operation) -> Scalar>(
        self,
        unit: &F,
        base_mu: Scalar,
        fz: Scalar,
    ) -> Scalar {
        let normalised = max_of(
            minus(unit, over(unit, fz, self.reference_load), ONE),
            LIGHTEST,
        );
        max_of(
            times(
                unit,
                base_mu,
                minus(unit, ONE, times(unit, self.load_sensitivity, normalised)),
            ),
            LEAST_GRIP,
        )
    }

    /// Lateral force before the two directions compete.
    pub open spec fn pure_lateral<F: Fn(Operation) -> Scalar>(
        self,
        unit: &F,
        fz: Scalar,
        slip_angle: Scalar,
    ) -> Scalar {
        times(
            unit,
            times(unit, self.grip(unit, self.mu_lat, fz), fz),
            magic(unit, slip_angle, self.b_lat, self.c_lat, self.e_lat),
        )
    }

    /// Longitudinal force before the two directions compete.
    pub open spec fn pure_longitudinal<F: Fn(Operation) -> Scalar>(
        self,
        unit: &F,
        fz: Scalar,
        slip_ratio: Scalar,
    ) -> Scalar {
        times(
            unit,
            times(unit, self.grip(unit, self.mu_long, fz), fz),
            magic(unit, slip_ratio, self.b_long, self.c_long, self.e_long),
        )
    }

    /// How much of the friction ellipse the two pure forces ask for together.
    pub open spec fn demand<F: Fn(Operation) -> Scalar>(
        self,
        unit: &F,
        fz: Scalar,
        slip_angle: Scalar,
        slip_ratio: Scalar,
    ) -> Scalar {
        let nx = over(
            unit,
            self.pure_longitudinal(unit, fz, slip_ratio),
            times(unit, self.grip(unit, self.mu_long, fz), fz),
        );
        let ny = over(
            unit,
            self.pure_lateral(unit, fz, slip_angle),
            times(unit, self.grip(unit, self.mu_lat, fz), fz),
        );
        sqrt(unit, plus(unit, times(unit, nx, nx), times(unit, ny, ny)))
    }

    /// What the patch produces.
    pub open spec fn forces<F: Fn(Operation) -> Scalar>(
        self,
        unit: &F,
        fz: Scalar,
        slip_angle: Scalar,
        slip_ratio: Scalar,
    ) -> TireForces {
        if is_at_most(fz, AIRBORNE) {
            TireForces::none()
        } else {
            let demand = self.demand(unit, fz, slip_angle, slip_ratio);
            let scale = if is_less(ONE, demand) {
                over(unit, ONE, demand)
            } else {
                ONE
            };
            let fx = times(unit, self.pure_longitudinal(unit, fz, slip_ratio), scale);
            let fy = times(unit, self.pure_lateral(unit, fz, slip_angle), scale);
            let trail = times(
                unit,
                self.pneumatic_trail,
                max_of(minus(unit, ONE, min_of(demand, ONE)), ZERO),
            );
            TireForces {
                fx,
                fy,
                mz: times(unit, negate(fy), trail),
                utilisation: min_of(demand, TWO),
            }
        }
    }

    /// Peak friction at a given load. Grip per newton falls as load rises,
    /// which is why lateral load transfer costs an axle grip and why anti-roll
    /// distribution changes balance at all.
    pub fn mu_at_load<F: Fn(Operation) -> Scalar>(
        &self,
        unit: &F,
        base_mu: Scalar,
        fz: Scalar,
    ) -> (mu: Scalar)
        requires
            arith::functional(*unit),
        ensures
            mu == self.grip(unit, base_mu, fz),
    {
        let normalised: Scalar = max_of(
            minus(unit, over(unit, fz, self.reference_load), ONE),
            LIGHTEST,
        );
        let loss: Scalar = times(unit, self.load_sensitivity, normalised);
        max_of(times(unit, base_mu, minus(unit, ONE, loss)), LEAST_GRIP)
    }

    /// Evaluate the patch at a given transient slip state and vertical load.
    ///
    /// `slip_angle` and `slip_ratio` are the *relaxed* states, not the
    /// instantaneous kinematic values, which is what keeps this well behaved at
    /// zero speed.
    pub fn evaluate<F: Fn(Operation) -> Scalar>(
        &self,
        unit: &F,
        fz: Scalar,
        slip_angle: Scalar,
        slip_ratio: Scalar,
    ) -> (forces: TireForces)
        requires
            arith::functional(*unit),
        ensures
            forces == self.forces(unit, fz, slip_angle, slip_ratio),
    {
        if is_at_most(fz, AIRBORNE) {
            // The wheel is airborne. No force, and no aligning moment for the
            // driver to feel -- which is itself information.
            return TireForces::default();
        }
        let mu_y: Scalar = self.mu_at_load(unit, self.mu_lat, fz);
        let mu_x: Scalar = self.mu_at_load(unit, self.mu_long, fz);
        let most_y: Scalar = times(unit, mu_y, fz);
        let most_x: Scalar = times(unit, mu_x, fz);

        let fy0: Scalar = times(
            unit,
            most_y,
            magic_formula(unit, slip_angle, self.b_lat, self.c_lat, self.e_lat),
        );
        let fx0: Scalar = times(
            unit,
            most_x,
            magic_formula(unit, slip_ratio, self.b_long, self.c_long, self.e_long),
        );

        // Combined slip by friction ellipse. Scaling both components by the
        // same factor keeps the force direction and only limits its magnitude,
        // which is the behaviour that makes trail braking feel right.
        let nx: Scalar = over(unit, fx0, most_x);
        let ny: Scalar = over(unit, fy0, most_y);
        let demand: Scalar = sqrt(unit, plus(unit, times(unit, nx, nx), times(unit, ny, ny)));
        let scale: Scalar = if is_less(ONE, demand) {
            over(unit, ONE, demand)
        } else {
            ONE
        };
        let fx: Scalar = times(unit, fx0, scale);
        let fy: Scalar = times(unit, fy0, scale);

        // Pneumatic trail collapses as the tire saturates. This is the single
        // most important haptic cue in the whole rig: the wheel goes light
        // before the front washes out, and that is what a driver steers by.
        let saturation: Scalar = min_of(demand, ONE);
        let trail: Scalar = times(
            unit,
            self.pneumatic_trail,
            max_of(minus(unit, ONE, saturation), ZERO),
        );
        TireForces {
            fx,
            fy,
            mz: times(unit, negate(fy), trail),
            utilisation: min_of(demand, TWO),
        }
    }

    /// Speed over relaxation length, with a floor under each.
    pub open spec fn relaxation<F: Fn(Operation) -> Scalar>(
        unit: &F,
        speed: Scalar,
        length: Scalar,
        speed_floor: Scalar,
    ) -> Scalar {
        over(unit, max_of(abs(speed), speed_floor), max_of(length, SHORTEST_LENGTH))
    }

    /// Rate of change of a relaxed slip state toward its kinematic target.
    ///
    /// `speed_floor` regularises it near standstill: without a floor the rate
    /// goes to zero and slip freezes; with one that is too large the tire
    /// responds instantly at parking speeds.
    pub fn relax_rate<F: Fn(Operation) -> Scalar>(
        &self,
        unit: &F,
        speed: Scalar,
        length: Scalar,
        speed_floor: Scalar,
    ) -> (rate: Scalar)
        requires
            arith::functional(*unit),
        ensures
            rate == Self::relaxation(unit, speed, length, speed_floor),
    {
        over(unit, max_of(abs(speed), speed_floor), max_of(length, SHORTEST_LENGTH))
    }
}

/// An airborne wheel makes no force and no moment, whatever its slip.
pub proof fn law_an_airborne_wheel_is_silent<F: Fn(Operation) -> Scalar>(
    params: TireParams,
    unit: &F,
    fz: Scalar,
    slip_angle: Scalar,
    slip_ratio: Scalar,
)
    requires
        is_at_most(fz, AIRBORNE),
    ensures
        params.forces(unit, fz, slip_angle, slip_ratio) == TireForces::none(),
{
}

} // verus!
