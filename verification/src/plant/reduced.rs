//! The floor of the plant ladder: a 14-degree-of-freedom vehicle.
//!
//! The ladder is `VehicleFMI` -> `VehicleRT` -> `Reduced14Dof`. The top two
//! rungs are Modelica and may or may not hold a 1 ms deadline on a given
//! machine; this one always will, so a session is always drivable.
//!
//! Fourteen degrees of freedom:
//!   * 3 planar body (longitudinal, lateral, yaw)
//!   * 3 sprung mass (heave, roll, pitch)
//!   * 4 unsprung vertical (one per corner)
//!   * 4 wheel spin
//!
//! plus 8 tire relaxation states, for 29 first-order states in total.

use vstd::prelude::*;

use crate::arith;
use crate::arith::{atan, cos, minus, over, plus, sin, sqrt, tan, tanh, times, Operation};
use crate::generated::frames;
use crate::generated::frames::{kernel_id, DriverInput, VehicleState};
use crate::io::device;
use crate::plant;
use crate::plant::integrator;
use crate::plant::integrator::{Derivatives, FixedStep, Method};
use crate::plant::metered::Metered;
use crate::plant::{
    commands, guard_finite, Description, Fault, InitialConditions, KernelCaps, PlantError,
    PlantKernel,
};
use crate::scalar;
use crate::scalar::{
    abs, clamp, is_at_most, is_finite, is_less, is_nan, max_of, negate, signum, Scalar, MINUS_ONE,
    ONE, ZERO,
};

pub mod corners;
pub mod grip;
pub mod mirror;
pub mod params;
pub mod physics;
pub mod powertrain;
pub mod tire;

use params::{ReducedParams, GRAVITY, HALF};
use tire::{TireForces, TireParams};

verus! {

// --- state vector layout -------------------------------------------------
pub const IDX_VX: usize = 0;

pub const IDX_VY: usize = 1;

pub const IDX_YAW_RATE: usize = 2;

pub const IDX_HEAVE: usize = 3;

pub const IDX_HEAVE_RATE: usize = 4;

pub const IDX_ROLL: usize = 5;

pub const IDX_ROLL_RATE: usize = 6;

pub const IDX_PITCH: usize = 7;

pub const IDX_PITCH_RATE: usize = 8;

pub const IDX_HOP: usize = 9;

pub const IDX_HOP_RATE: usize = 13;

pub const IDX_OMEGA: usize = 17;

pub const IDX_SLIP_ANGLE: usize = 21;

pub const IDX_SLIP_RATIO: usize = 25;

pub const STATE_COUNT: usize = 29;

/// Handwheel angle below which the steering is treated as straight: 1e-6.
pub const STRAIGHT: Scalar = 0x3eb0_c6f7_a0b5_ed8d;

/// How much of the full geometric Ackermann split the linkage has: 0.35. The
/// full value is rarely run on an FSAE car.
pub const ACKERMANN: Scalar = 0x3fd6_6666_6666_6666;

/// Speed below which sideslip is reported as zero: 0.1 m/s.
pub const CREEP: Scalar = 0x3fb9_9999_9999_999a;

pub const FOUR: Scalar = 0x4010_0000_0000_0000;

pub const MINUS_FOUR: Scalar = 0xc010_0000_0000_0000;

/// Largest stable step: 4 ms, set by the wheel-hop mode, the fastest thing in
/// the model.
pub const MAX_STABLE_DT: Scalar = 0x3f70_624d_d2f1_a9fc;

/// One value per corner.
#[derive(Clone, Copy, PartialEq, Eq, Structural, Debug)]
pub struct Wheels<T> {
    pub fl: T,
    pub fr: T,
    pub rl: T,
    pub rr: T,
}

impl<T: Copy> Wheels<T> {
    pub open spec fn at(self, corner: int) -> T {
        if corner == 0 {
            self.fl
        } else if corner == 1 {
            self.fr
        } else if corner == 2 {
            self.rl
        } else {
            self.rr
        }
    }

    pub fn get(&self, corner: usize) -> (value: T)
        ensures
            value == self.at(corner as int),
    {
        match corner {
            0 => self.fl,
            1 => self.fr,
            2 => self.rl,
            _ => self.rr,
        }
    }
}

/// A force in the body frame.
#[derive(Clone, Copy, PartialEq, Eq, Structural, Debug)]
pub struct BodyForce {
    pub x: Scalar,
    pub y: Scalar,
}

/// Everything the derivative function computes that the output stage also
/// wants, so the outputs never need a second, subtly different evaluation.
#[derive(Clone, Copy, PartialEq, Eq, Structural, Debug)]
pub struct Loads {
    pub fz: Wheels<Scalar>,
    pub forces: Wheels<TireForces>,
    pub steer: Wheels<Scalar>,
    pub body: Wheels<BodyForce>,
    pub body_fx: Scalar,
    pub body_fy: Scalar,
    pub accel_x: Scalar,
    pub accel_y: Scalar,
    pub front_lateral: Scalar,
    pub rear_lateral: Scalar,
    pub total_longitudinal: Scalar,
    pub kingpin_torque: Scalar,
}

/// Four terms added to a start, in corner order.
pub open spec fn sum_from<F: Fn(Operation) -> Scalar>(
    unit: &F,
    start: Scalar,
    a: Scalar,
    b: Scalar,
    c: Scalar,
    d: Scalar,
) -> Scalar {
    plus(unit, plus(unit, plus(unit, plus(unit, start, a), b), c), d)
}

#[verifier::when_used_as_spec(sum_from)]
fn add_four<F: Fn(Operation) -> Scalar>(
    unit: &F,
    start: Scalar,
    a: Scalar,
    b: Scalar,
    c: Scalar,
    d: Scalar,
) -> (total: Scalar)
    requires
        arith::functional(*unit),
    ensures
        total == sum_from(unit, start, a, b, c, d),
{
    plus(unit, plus(unit, plus(unit, plus(unit, start, a), b), c), d)
}

/// A wheel-frame force turned into the body frame by the road-wheel angle.
pub open spec fn turned<F: Fn(Operation) -> Scalar>(
    unit: &F,
    force: TireForces,
    angle: Scalar,
) -> BodyForce {
    BodyForce {
        x: minus(
            unit,
            times(unit, force.fx, cos(unit, angle)),
            times(unit, force.fy, sin(unit, angle)),
        ),
        y: plus(
            unit,
            times(unit, force.fx, sin(unit, angle)),
            times(unit, force.fy, cos(unit, angle)),
        ),
    }
}

fn turn<F: Fn(Operation) -> Scalar>(unit: &F, force: TireForces, angle: Scalar) -> (body: BodyForce)
    requires
        arith::functional(*unit),
    ensures
        body == turned(unit, force, angle),
{
    let sin_d: Scalar = sin(unit, angle);
    let cos_d: Scalar = cos(unit, angle);
    BodyForce {
        x: minus(unit, times(unit, force.fx, cos_d), times(unit, force.fy, sin_d)),
        y: plus(unit, times(unit, force.fx, sin_d), times(unit, force.fy, cos_d)),
    }
}

/// What the derivative function depends on besides the state: the car, the
/// input held over the step, and the axle forces of the step before.
///
/// The axle forces feed the geometric (roll-centre and pitch-centre) share of
/// load transfer. That term is algebraically circular -- load transfer depends
/// on lateral force which depends on load -- so it is taken one step late, which
/// keeps the derivative a pure function of state.
#[derive(Clone, Copy, PartialEq, Eq, Structural, Debug)]
pub struct Car {
    pub params: ReducedParams,
    pub input: DriverInput,
    pub previous_front_lateral: Scalar,
    pub previous_rear_lateral: Scalar,
    pub previous_longitudinal: Scalar,
}

impl Car {
    /// The rack has travel.
    pub open spec fn steerable(self) -> bool {
        is_at_most(negate(self.params.rack_limit), self.params.rack_limit)
    }

    // --- steering ------------------------------------------------------------

    /// The handwheel angle the rack allows.
    pub open spec fn racked(self, handwheel: Scalar) -> Scalar {
        clamp(handwheel, negate(self.params.rack_limit), self.params.rack_limit)
    }

    /// Road-wheel angle with no split.
    pub open spec fn base_angle<F: Fn(Operation) -> Scalar>(
        self,
        unit: &F,
        handwheel: Scalar,
    ) -> Scalar {
        over(unit, self.racked(handwheel), self.params.steer_ratio)
    }

    /// The angle at which one front wheel would roll freely: `inner` picks the
    /// one nearer the turn centre.
    pub open spec fn free_angle<F: Fn(Operation) -> Scalar>(
        self,
        unit: &F,
        base: Scalar,
        inner: bool,
    ) -> Scalar {
        if is_less(STRAIGHT, abs(base)) {
            let wheelbase = self.params.base(unit);
            let radius = over(unit, wheelbase, tan(unit, base));
            let offset = times(
                unit,
                times(unit, self.params.track_front, HALF),
                signum(base),
            );
            atan(
                unit,
                over(
                    unit,
                    wheelbase,
                    if inner {
                        minus(unit, radius, offset)
                    } else {
                        plus(unit, radius, offset)
                    },
                ),
            )
        } else {
            base
        }
    }

    /// Road-wheel angle with the partial Ackermann split.
    pub open spec fn split_angle<F: Fn(Operation) -> Scalar>(
        self,
        unit: &F,
        base: Scalar,
        inner: bool,
    ) -> Scalar {
        plus(
            unit,
            base,
            times(unit, ACKERMANN, minus(unit, self.free_angle(unit, base, inner), base)),
        )
    }

    /// Road-wheel angles from the handwheel command. Turning left makes the
    /// left wheel the inner one.
    pub open spec fn steered<F: Fn(Operation) -> Scalar>(
        self,
        unit: &F,
        handwheel: Scalar,
    ) -> Wheels<Scalar> {
        let base = self.base_angle(unit, handwheel);
        let left = is_at_most(ZERO, base);
        Wheels {
            fl: self.split_angle(unit, base, left),
            fr: self.split_angle(unit, base, !left),
            rl: ZERO,
            rr: ZERO,
        }
    }

    /// Handwheel angle past the rack limit.
    pub open spec fn excess<F: Fn(Operation) -> Scalar>(self, unit: &F, handwheel: Scalar) -> Scalar {
        minus(unit, handwheel, self.racked(handwheel))
    }

    fn split<F: Fn(Operation) -> Scalar>(&self, unit: &F, base: Scalar, inner: bool) -> (angle: Scalar)
        requires
            arith::functional(*unit),
        ensures
            angle == self.split_angle(unit, base, inner),
    {
        let free: Scalar = if is_less(STRAIGHT, abs(base)) {
            let wheelbase: Scalar = self.params.wheelbase(unit);
            let radius: Scalar = over(unit, wheelbase, tan(unit, base));
            let offset: Scalar = times(
                unit,
                times(unit, self.params.track_front, HALF),
                signum(base),
            );
            let from_centre: Scalar = if inner {
                minus(unit, radius, offset)
            } else {
                plus(unit, radius, offset)
            };
            atan(unit, over(unit, wheelbase, from_centre))
        } else {
            base
        };
        plus(unit, base, times(unit, ACKERMANN, minus(unit, free, base)))
    }

    /// Road-wheel angles from the handwheel command, with the rack limit and a
    /// partial-Ackermann split, and the angle past the limit.
    pub fn steer_angles<F: Fn(Operation) -> Scalar>(
        &self,
        unit: &F,
        handwheel: Scalar,
    ) -> (steer: (Wheels<Scalar>, Scalar))
        requires
            arith::functional(*unit),
            self.steerable(),
        ensures
            steer.0 == self.steered(unit, handwheel),
            steer.1 == self.excess(unit, handwheel),
    {
        let limit: Scalar = self.params.rack_limit;
        let clamped: Scalar = clamp(handwheel, negate(limit), limit);
        let excess: Scalar = minus(unit, handwheel, clamped);
        let base: Scalar = over(unit, clamped, self.params.steer_ratio);
        let left: bool = is_at_most(ZERO, base);
        (
            Wheels {
                fl: self.split(unit, base, left),
                fr: self.split(unit, base, !left),
                rl: ZERO,
                rr: ZERO,
            },
            excess,
        )
    }

    // --- powertrain ------------------------------------------------------------

    /// Motor torque available at a speed: constant torque to the corner speed,
    /// constant power above it, nothing past the limit.
    pub open spec fn torque_at<F: Fn(Operation) -> Scalar>(self, unit: &F, motor_speed: Scalar) -> Scalar {
        let speed = abs(motor_speed);
        if is_at_most(self.params.motor_max_speed, speed) {
            ZERO
        } else if is_at_most(speed, self.params.motor_corner_speed) {
            self.params.motor_peak_torque
        } else {
            over(
                unit,
                times(unit, self.params.motor_peak_torque, self.params.motor_corner_speed),
                speed,
            )
        }
    }

    pub fn motor_torque<F: Fn(Operation) -> Scalar>(
        &self,
        unit: &F,
        motor_speed: Scalar,
    ) -> (torque: Scalar)
        requires
            arith::functional(*unit),
        ensures
            torque == self.torque_at(unit, motor_speed),
    {
        let speed: Scalar = abs(motor_speed);
        if is_at_most(self.params.motor_max_speed, speed) {
            return ZERO;
        }
        if is_at_most(speed, self.params.motor_corner_speed) {
            self.params.motor_peak_torque
        } else {
            over(
                unit,
                times(unit, self.params.motor_peak_torque, self.params.motor_corner_speed),
                speed,
            )
        }
    }

    // --- forces ------------------------------------------------------------------

    pub open spec fn pressure<F: Fn(Operation) -> Scalar>(self, unit: &F, vx: Scalar) -> Scalar {
        times(unit, times(unit, times(unit, HALF, self.params.air_density), vx), vx)
    }

    pub open spec fn downforce<F: Fn(Operation) -> Scalar>(self, unit: &F, vx: Scalar) -> Scalar {
        times(unit, self.pressure(unit, vx), self.params.lift_area)
    }

    pub open spec fn drag<F: Fn(Operation) -> Scalar>(self, unit: &F, vx: Scalar) -> Scalar {
        times(
            unit,
            times(unit, self.pressure(unit, vx), self.params.drag_area),
            signum(vx),
        )
    }

    /// Downforce carried by one corner.
    pub open spec fn aero_share<F: Fn(Operation) -> Scalar>(
        self,
        unit: &F,
        vx: Scalar,
        corner: int,
    ) -> Scalar {
        let share = if corner < 2 {
            self.params.aero_balance
        } else {
            minus(unit, ONE, self.params.aero_balance)
        };
        times(unit, times(unit, self.downforce(unit, vx), share), HALF)
    }

    /// Lateral load transfer through the links of a corner's axle.
    pub open spec fn geometric_lateral<F: Fn(Operation) -> Scalar>(self, unit: &F, corner: int) -> Scalar {
        if corner < 2 {
            over(
                unit,
                times(unit, self.previous_front_lateral, self.params.roll_centre_front),
                self.params.track_front,
            )
        } else {
            over(
                unit,
                times(unit, self.previous_rear_lateral, self.params.roll_centre_rear),
                self.params.track_rear,
            )
        }
    }

    /// Longitudinal load transfer through the links.
    pub open spec fn geometric_longitudinal<F: Fn(Operation) -> Scalar>(self, unit: &F) -> Scalar {
        over(
            unit,
            times(unit, self.previous_longitudinal, self.params.pitch_centre),
            self.params.base(unit),
        )
    }

    /// Vertical load on one corner, never negative. +y is left, so a positive
    /// lateral force loads the right-hand corners.
    pub open spec fn vertical<F: Fn(Operation) -> Scalar>(
        self,
        unit: &F,
        x: Seq<Scalar>,
        corner: int,
    ) -> Scalar {
        let sprung = minus(
            unit,
            minus(
                unit,
                self.params.resting(unit, corner),
                times(unit, self.params.tire_vertical_rate, x[IDX_HOP + corner]),
            ),
            times(unit, self.params.tire_vertical_damping, x[IDX_HOP_RATE + corner]),
        );
        let loaded = plus(unit, sprung, self.aero_share(unit, x[IDX_VX as int], corner));
        let sideways = plus(
            unit,
            loaded,
            times(
                unit,
                negate(signum(self.params.aside(unit, corner))),
                self.geometric_lateral(unit, corner),
            ),
        );
        let all = plus(
            unit,
            sideways,
            times(
                unit,
                if corner < 2 {
                    MINUS_ONE
                } else {
                    ONE
                },
                self.geometric_longitudinal(unit),
            ),
        );
        max_of(all, ZERO)
    }

    /// What one contact patch produces.
    pub open spec fn patch<F: Fn(Operation) -> Scalar>(
        self,
        unit: &F,
        x: Seq<Scalar>,
        corner: int,
    ) -> TireForces {
        self.params.tire.forces(
            unit,
            self.vertical(unit, x, corner),
            x[IDX_SLIP_ANGLE + corner],
            x[IDX_SLIP_RATIO + corner],
        )
    }

    /// One front patch's moment about the kingpin. The pneumatic trail inside
    /// `mz` collapses as the tire saturates, so the wheel goes light before the
    /// front washes out.
    pub open spec fn kingpin<F: Fn(Operation) -> Scalar>(self, unit: &F, patch: TireForces) -> Scalar {
        minus(unit, patch.mz, times(unit, patch.fy, self.params.mechanical_trail))
    }

    /// The full force calculation.
    pub open spec fn loads<F: Fn(Operation) -> Scalar>(self, unit: &F, x: Seq<Scalar>) -> Loads {
        let steer = self.steered(unit, self.input.steering_angle_command);
        let forces = Wheels {
            fl: self.patch(unit, x, 0),
            fr: self.patch(unit, x, 1),
            rl: self.patch(unit, x, 2),
            rr: self.patch(unit, x, 3),
        };
        let body = Wheels {
            fl: turned(unit, forces.fl, steer.fl),
            fr: turned(unit, forces.fr, steer.fr),
            rl: turned(unit, forces.rl, steer.rl),
            rr: turned(unit, forces.rr, steer.rr),
        };
        let body_fx = sum_from(unit, ZERO, body.fl.x, body.fr.x, body.rl.x, body.rr.x);
        let body_fy = sum_from(unit, ZERO, body.fl.y, body.fr.y, body.rl.y, body.rr.y);
        let total = minus(unit, body_fx, self.drag(unit, x[IDX_VX as int]));
        Loads {
            fz: Wheels {
                fl: self.vertical(unit, x, 0),
                fr: self.vertical(unit, x, 1),
                rl: self.vertical(unit, x, 2),
                rr: self.vertical(unit, x, 3),
            },
            forces,
            steer,
            body,
            body_fx,
            body_fy,
            accel_x: over(unit, total, self.params.mass),
            accel_y: over(unit, body_fy, self.params.mass),
            front_lateral: plus(unit, plus(unit, ZERO, body.fl.y), body.fr.y),
            rear_lateral: plus(unit, plus(unit, ZERO, body.rl.y), body.rr.y),
            total_longitudinal: total,
            kingpin_torque: plus(
                unit,
                plus(unit, ZERO, self.kingpin(unit, forces.fl)),
                self.kingpin(unit, forces.fr),
            ),
        }
    }

    fn vertical_load<F: Fn(Operation) -> Scalar>(
        &self,
        unit: &F,
        x: &Vec<Scalar>,
        downforce: Scalar,
        corner: usize,
    ) -> (load: Scalar)
        requires
            arith::functional(*unit),
            x@.len() == STATE_COUNT,
            corner < 4,
            downforce == self.downforce(unit, x@[IDX_VX as int]),
        ensures
            load == self.vertical(unit, x@, corner as int),
    {
        let p: &ReducedParams = &self.params;
        let hop: Scalar = x[IDX_HOP + corner];
        let hop_rate: Scalar = x[IDX_HOP_RATE + corner];
        let front: bool = p.is_front(corner);
        let share: Scalar = if front {
            p.aero_balance
        } else {
            minus(unit, ONE, p.aero_balance)
        };
        let aero: Scalar = times(unit, times(unit, downforce, share), HALF);
        let geo_lateral: Scalar = if front {
            over(
                unit,
                times(unit, self.previous_front_lateral, p.roll_centre_front),
                p.track_front,
            )
        } else {
            over(
                unit,
                times(unit, self.previous_rear_lateral, p.roll_centre_rear),
                p.track_rear,
            )
        };
        let geo_longitudinal: Scalar = over(
            unit,
            times(unit, self.previous_longitudinal, p.pitch_centre),
            p.wheelbase(unit),
        );
        let lateral_sign: Scalar = negate(signum(p.corner_y(unit, corner)));
        let longitudinal_sign: Scalar = if front {
            MINUS_ONE
        } else {
            ONE
        };
        let bounce: Scalar = minus(
            unit,
            p.static_load(unit, corner),
            times(unit, p.tire_vertical_rate, hop),
        );
        let sprung: Scalar = minus(unit, bounce, times(unit, p.tire_vertical_damping, hop_rate));
        let loaded: Scalar = plus(unit, sprung, aero);
        let sideways: Scalar = plus(unit, loaded, times(unit, lateral_sign, geo_lateral));
        max_of(plus(unit, sideways, times(unit, longitudinal_sign, geo_longitudinal)), ZERO)
    }

    fn patch_forces<F: Fn(Operation) -> Scalar>(
        &self,
        unit: &F,
        x: &Vec<Scalar>,
        load: Scalar,
        corner: usize,
    ) -> (forces: TireForces)
        requires
            arith::functional(*unit),
            x@.len() == STATE_COUNT,
            corner < 4,
            load == self.vertical(unit, x@, corner as int),
        ensures
            forces == self.patch(unit, x@, corner as int),
    {
        self.params.tire.evaluate(
            unit,
            load,
            x[IDX_SLIP_ANGLE + corner],
            x[IDX_SLIP_RATIO + corner],
        )
    }

    fn kingpin_moment<F: Fn(Operation) -> Scalar>(&self, unit: &F, patch: TireForces) -> (moment: Scalar)
        requires
            arith::functional(*unit),
        ensures
            moment == self.kingpin(unit, patch),
    {
        minus(unit, patch.mz, times(unit, patch.fy, self.params.mechanical_trail))
    }

    /// The full force calculation. Called by `derivatives` and again by the
    /// output stage, so the two can never disagree.
    pub fn evaluate_loads<F: Fn(Operation) -> Scalar>(&self, unit: &F, x: &Vec<Scalar>) -> (loads: Loads)
        requires
            arith::functional(*unit),
            x@.len() == STATE_COUNT,
            self.steerable(),
        ensures
            loads == self.loads(unit, x@),
    {
        let p: &ReducedParams = &self.params;
        let steering: (Wheels<Scalar>, Scalar) = self.steer_angles(
            unit,
            self.input.steering_angle_command,
        );
        let steer: Wheels<Scalar> = steering.0;
        let vx: Scalar = x[IDX_VX];
        let pressure: Scalar = times(
            unit,
            times(unit, times(unit, HALF, p.air_density), vx),
            vx,
        );
        let downforce: Scalar = times(unit, pressure, p.lift_area);
        let drag: Scalar = times(unit, times(unit, pressure, p.drag_area), signum(vx));
        let fz: Wheels<Scalar> = Wheels {
            fl: self.vertical_load(unit, x, downforce, 0),
            fr: self.vertical_load(unit, x, downforce, 1),
            rl: self.vertical_load(unit, x, downforce, 2),
            rr: self.vertical_load(unit, x, downforce, 3),
        };
        let forces: Wheels<TireForces> = Wheels {
            fl: self.patch_forces(unit, x, fz.fl, 0),
            fr: self.patch_forces(unit, x, fz.fr, 1),
            rl: self.patch_forces(unit, x, fz.rl, 2),
            rr: self.patch_forces(unit, x, fz.rr, 3),
        };
        let body: Wheels<BodyForce> = Wheels {
            fl: turn(unit, forces.fl, steer.fl),
            fr: turn(unit, forces.fr, steer.fr),
            rl: turn(unit, forces.rl, steer.rl),
            rr: turn(unit, forces.rr, steer.rr),
        };
        let body_fx: Scalar = add_four(unit, ZERO, body.fl.x, body.fr.x, body.rl.x, body.rr.x);
        let body_fy: Scalar = add_four(unit, ZERO, body.fl.y, body.fr.y, body.rl.y, body.rr.y);
        let total: Scalar = minus(unit, body_fx, drag);
        let kingpin: Scalar = plus(
            unit,
            plus(unit, ZERO, self.kingpin_moment(unit, forces.fl)),
            self.kingpin_moment(unit, forces.fr),
        );
        Loads {
            fz,
            forces,
            steer,
            body,
            body_fx,
            body_fy,
            accel_x: over(unit, total, p.mass),
            accel_y: over(unit, body_fy, p.mass),
            front_lateral: plus(unit, plus(unit, ZERO, body.fl.y), body.fr.y),
            rear_lateral: plus(unit, plus(unit, ZERO, body.rl.y), body.rr.y),
            total_longitudinal: total,
            kingpin_torque: kingpin,
        }
    }
}

// --- derivatives ------------------------------------------------------------------

impl Car {
    /// Drag as the longitudinal equation sees it.
    pub open spec fn slowing<F: Fn(Operation) -> Scalar>(self, unit: &F, vx: Scalar) -> Scalar {
        let area = times(
            unit,
            times(unit, HALF, self.params.air_density),
            self.params.drag_area,
        );
        times(unit, times(unit, times(unit, area, vx), vx), signum(vx))
    }

    /// One corner's moment about the vertical axis.
    pub open spec fn yawing<F: Fn(Operation) -> Scalar>(
        self,
        unit: &F,
        force: BodyForce,
        corner: int,
    ) -> Scalar {
        minus(
            unit,
            times(unit, self.params.ahead(corner), force.y),
            times(unit, self.params.aside(unit, corner), force.x),
        )
    }

    /// Vertical position (or rate) of the sprung mass at a corner, +up.
    pub open spec fn lifted<F: Fn(Operation) -> Scalar>(
        self,
        unit: &F,
        heave: Scalar,
        pitch: Scalar,
        roll: Scalar,
        corner: int,
    ) -> Scalar {
        plus(
            unit,
            plus(unit, heave, times(unit, self.params.ahead(corner), pitch)),
            times(unit, self.params.aside(unit, corner), roll),
        )
    }

    pub open spec fn compression<F: Fn(Operation) -> Scalar>(
        self,
        unit: &F,
        x: Seq<Scalar>,
        corner: int,
    ) -> Scalar {
        minus(
            unit,
            x[IDX_HOP + corner],
            self.lifted(
                unit,
                x[IDX_HEAVE as int],
                x[IDX_PITCH as int],
                x[IDX_ROLL as int],
                corner,
            ),
        )
    }

    pub open spec fn compression_rate<F: Fn(Operation) -> Scalar>(
        self,
        unit: &F,
        x: Seq<Scalar>,
        corner: int,
    ) -> Scalar {
        minus(
            unit,
            x[IDX_HOP_RATE + corner],
            self.lifted(
                unit,
                x[IDX_HEAVE_RATE as int],
                x[IDX_PITCH_RATE as int],
                x[IDX_ROLL_RATE as int],
                corner,
            ),
        )
    }

    /// Spring and damper at a corner.
    pub open spec fn strut<F: Fn(Operation) -> Scalar>(
        self,
        unit: &F,
        x: Seq<Scalar>,
        corner: int,
    ) -> Scalar {
        let resting = minus(
            unit,
            self.params.resting(unit, corner),
            times(unit, self.params.unsprung_mass, GRAVITY),
        );
        plus(
            unit,
            plus(
                unit,
                resting,
                times(unit, self.params.spring(corner), self.compression(unit, x, corner)),
            ),
            times(unit, self.params.damper(corner), self.compression_rate(unit, x, corner)),
        )
    }

    /// An anti-roll bar is a force couple across an axle: it resists the
    /// difference in compression between the two sides and puts the load it
    /// takes onto the compressed (outside) wheel.
    pub open spec fn bar<F: Fn(Operation) -> Scalar>(self, unit: &F, x: Seq<Scalar>, front: bool) -> Scalar {
        if front {
            over(
                unit,
                times(
                    unit,
                    self.params.arb_front,
                    minus(unit, self.compression(unit, x, 0), self.compression(unit, x, 1)),
                ),
                self.params.track_front,
            )
        } else {
            over(
                unit,
                times(
                    unit,
                    self.params.arb_rear,
                    minus(unit, self.compression(unit, x, 2), self.compression(unit, x, 3)),
                ),
                self.params.track_rear,
            )
        }
    }

    /// Spring, damper and anti-roll bar at every corner.
    pub open spec fn suspension<F: Fn(Operation) -> Scalar>(
        self,
        unit: &F,
        x: Seq<Scalar>,
    ) -> Wheels<Scalar> {
        Wheels {
            fl: plus(unit, self.strut(unit, x, 0), self.bar(unit, x, true)),
            fr: minus(unit, self.strut(unit, x, 1), self.bar(unit, x, true)),
            rl: plus(unit, self.strut(unit, x, 2), self.bar(unit, x, false)),
            rr: minus(unit, self.strut(unit, x, 3), self.bar(unit, x, false)),
        }
    }

    pub open spec fn heave_acceleration<F: Fn(Operation) -> Scalar>(
        self,
        unit: &F,
        x: Seq<Scalar>,
    ) -> Scalar {
        let s = self.suspension(unit, x);
        let held = sum_from(unit, ZERO, s.fl, s.fr, s.rl, s.rr);
        over(
            unit,
            minus(
                unit,
                minus(unit, held, times(unit, self.params.sprung_mass, GRAVITY)),
                self.downforce(unit, x[IDX_VX as int]),
            ),
            self.params.sprung_mass,
        )
    }

    /// Elastic share of load transfer: the sprung mass rolls about the roll
    /// centres under its own lateral acceleration.
    pub open spec fn roll_acceleration<F: Fn(Operation) -> Scalar>(
        self,
        unit: &F,
        x: Seq<Scalar>,
    ) -> Scalar {
        let s = self.suspension(unit, x);
        let lever = minus(
            unit,
            self.params.cg_height,
            times(
                unit,
                HALF,
                plus(unit, self.params.roll_centre_front, self.params.roll_centre_rear),
            ),
        );
        let thrown = times(
            unit,
            times(unit, self.params.sprung_mass, self.loads(unit, x).accel_y),
            lever,
        );
        over(
            unit,
            sum_from(
                unit,
                thrown,
                times(unit, s.fl, self.params.aside(unit, 0)),
                times(unit, s.fr, self.params.aside(unit, 1)),
                times(unit, s.rl, self.params.aside(unit, 2)),
                times(unit, s.rr, self.params.aside(unit, 3)),
            ),
            self.params.inertia_roll,
        )
    }

    pub open spec fn pitch_acceleration<F: Fn(Operation) -> Scalar>(
        self,
        unit: &F,
        x: Seq<Scalar>,
    ) -> Scalar {
        let s = self.suspension(unit, x);
        let lever = minus(unit, self.params.cg_height, self.params.pitch_centre);
        let thrown = times(
            unit,
            times(unit, self.params.sprung_mass, self.loads(unit, x).accel_x),
            lever,
        );
        over(
            unit,
            sum_from(
                unit,
                thrown,
                times(unit, s.fl, self.params.ahead(0)),
                times(unit, s.fr, self.params.ahead(1)),
                times(unit, s.rl, self.params.ahead(2)),
                times(unit, s.rr, self.params.ahead(3)),
            ),
            self.params.inertia_pitch,
        )
    }

    pub open spec fn hop_acceleration<F: Fn(Operation) -> Scalar>(
        self,
        unit: &F,
        x: Seq<Scalar>,
        corner: int,
    ) -> Scalar {
        over(
            unit,
            minus(
                unit,
                minus(
                    unit,
                    self.loads(unit, x).fz.at(corner),
                    self.suspension(unit, x).at(corner),
                ),
                times(unit, self.params.unsprung_mass, GRAVITY),
            ),
            self.params.unsprung_mass,
        )
    }

    /// Torque the powertrain puts on the rear axle.
    pub open spec fn axle_torque<F: Fn(Operation) -> Scalar>(self, unit: &F, x: Seq<Scalar>) -> Scalar {
        let rear_speed = times(unit, HALF, plus(unit, x[IDX_OMEGA + 2], x[IDX_OMEGA + 3]));
        let motor_speed = times(unit, rear_speed, self.params.final_drive);
        let demand = clamp(self.input.accelerator_pedal_command, ZERO, ONE);
        times(
            unit,
            times(unit, demand, self.torque_at(unit, motor_speed)),
            self.params.final_drive,
        )
    }

    /// Limited-slip differential, regularised rather than switched.
    pub open spec fn lock_torque<F: Fn(Operation) -> Scalar>(self, unit: &F, x: Seq<Scalar>) -> Scalar {
        let apart = minus(unit, x[IDX_OMEGA + 2], x[IDX_OMEGA + 3]);
        plus(
            unit,
            times(
                unit,
                self.params.diff_preload,
                tanh(unit, over(unit, apart, self.params.omega_epsilon)),
            ),
            times(unit, self.params.diff_lock_gain, apart),
        )
    }

    pub open spec fn drive_torque<F: Fn(Operation) -> Scalar>(
        self,
        unit: &F,
        x: Seq<Scalar>,
        corner: int,
    ) -> Scalar {
        let half = times(unit, HALF, self.axle_torque(unit, x));
        if corner == 2 {
            minus(unit, half, self.lock_torque(unit, x))
        } else if corner == 3 {
            plus(unit, half, self.lock_torque(unit, x))
        } else {
            ZERO
        }
    }

    pub open spec fn brake_torque<F: Fn(Operation) -> Scalar>(
        self,
        unit: &F,
        x: Seq<Scalar>,
        corner: int,
    ) -> Scalar {
        let demand = clamp(self.input.brake_pedal_command, ZERO, ONE);
        let total = times(unit, demand, self.params.brake_torque_max);
        let bias = if corner < 2 {
            self.params.brake_bias
        } else {
            minus(unit, ONE, self.params.brake_bias)
        };
        let share = times(unit, times(unit, total, bias), HALF);
        times(
            unit,
            negate(share),
            tanh(unit, over(unit, x[IDX_OMEGA + corner], self.params.omega_epsilon)),
        )
    }

    pub open spec fn spin_acceleration<F: Fn(Operation) -> Scalar>(
        self,
        unit: &F,
        x: Seq<Scalar>,
        corner: int,
    ) -> Scalar {
        let traction = times(
            unit,
            negate(self.loads(unit, x).forces.at(corner).fx),
            self.params.wheel_radius,
        );
        over(
            unit,
            plus(
                unit,
                plus(
                    unit,
                    self.drive_torque(unit, x, corner),
                    self.brake_torque(unit, x, corner),
                ),
                traction,
            ),
            self.params.wheel_inertia,
        )
    }

    /// Velocity of a contact patch in its wheel's own frame.
    pub open spec fn patch_velocity<F: Fn(Operation) -> Scalar>(
        self,
        unit: &F,
        x: Seq<Scalar>,
        corner: int,
    ) -> BodyForce {
        let vx = minus(
            unit,
            x[IDX_VX as int],
            times(unit, x[IDX_YAW_RATE as int], self.params.aside(unit, corner)),
        );
        let vy = plus(
            unit,
            x[IDX_VY as int],
            times(unit, x[IDX_YAW_RATE as int], self.params.ahead(corner)),
        );
        let delta = self.loads(unit, x).steer.at(corner);
        BodyForce {
            x: plus(
                unit,
                times(unit, vx, cos(unit, delta)),
                times(unit, vy, sin(unit, delta)),
            ),
            y: plus(
                unit,
                times(unit, negate(vx), sin(unit, delta)),
                times(unit, vy, cos(unit, delta)),
            ),
        }
    }

    pub open spec fn slip_angle_rate<F: Fn(Operation) -> Scalar>(
        self,
        unit: &F,
        x: Seq<Scalar>,
        corner: int,
    ) -> Scalar {
        let v = self.patch_velocity(unit, x, corner);
        let along = max_of(abs(v.x), self.params.speed_floor);
        let target = negate(atan(unit, over(unit, v.y, along)));
        times(
            unit,
            TireParams::relaxation(
                unit,
                v.x,
                self.params.tire.relaxation_lateral,
                self.params.speed_floor,
            ),
            minus(unit, target, x[IDX_SLIP_ANGLE + corner]),
        )
    }

    pub open spec fn slip_ratio_rate<F: Fn(Operation) -> Scalar>(
        self,
        unit: &F,
        x: Seq<Scalar>,
        corner: int,
    ) -> Scalar {
        let v = self.patch_velocity(unit, x, corner);
        let along = max_of(abs(v.x), self.params.speed_floor);
        let target = over(
            unit,
            minus(unit, times(unit, x[IDX_OMEGA + corner], self.params.wheel_radius), v.x),
            along,
        );
        times(
            unit,
            TireParams::relaxation(
                unit,
                v.x,
                self.params.tire.relaxation_longitudinal,
                self.params.speed_floor,
            ),
            minus(unit, clamp(target, MINUS_FOUR, FOUR), x[IDX_SLIP_RATIO + corner]),
        )
    }

    /// Rate of change of the three planar states.
    pub open spec fn planar<F: Fn(Operation) -> Scalar>(
        self,
        unit: &F,
        x: Seq<Scalar>,
        index: int,
    ) -> Scalar {
        let loads = self.loads(unit, x);
        let vx = x[IDX_VX as int];
        let yaw_rate = x[IDX_YAW_RATE as int];
        if index == IDX_VX {
            plus(
                unit,
                over(
                    unit,
                    minus(unit, loads.body_fx, self.slowing(unit, vx)),
                    self.params.mass,
                ),
                times(unit, yaw_rate, x[IDX_VY as int]),
            )
        } else if index == IDX_VY {
            minus(
                unit,
                over(unit, loads.body_fy, self.params.mass),
                times(unit, yaw_rate, vx),
            )
        } else {
            over(
                unit,
                sum_from(
                    unit,
                    ZERO,
                    self.yawing(unit, loads.body.fl, 0),
                    self.yawing(unit, loads.body.fr, 1),
                    self.yawing(unit, loads.body.rl, 2),
                    self.yawing(unit, loads.body.rr, 3),
                ),
                self.params.inertia_yaw,
            )
        }
    }

    /// Rate of change of one state.
    pub open spec fn rate<F: Fn(Operation) -> Scalar>(
        self,
        unit: &F,
        x: Seq<Scalar>,
        index: int,
    ) -> Scalar {
        if index < IDX_HEAVE {
            self.planar(unit, x, index)
        } else if index == IDX_HEAVE {
            x[IDX_HEAVE_RATE as int]
        } else if index == IDX_HEAVE_RATE {
            self.heave_acceleration(unit, x)
        } else if index == IDX_ROLL {
            x[IDX_ROLL_RATE as int]
        } else if index == IDX_ROLL_RATE {
            self.roll_acceleration(unit, x)
        } else if index == IDX_PITCH {
            x[IDX_PITCH_RATE as int]
        } else if index == IDX_PITCH_RATE {
            self.pitch_acceleration(unit, x)
        } else if index < IDX_HOP_RATE {
            x[IDX_HOP_RATE + (index - IDX_HOP)]
        } else if index < IDX_OMEGA {
            self.hop_acceleration(unit, x, index - IDX_HOP_RATE)
        } else if index < IDX_SLIP_ANGLE {
            self.spin_acceleration(unit, x, index - IDX_OMEGA)
        } else if index < IDX_SLIP_RATIO {
            self.slip_angle_rate(unit, x, index - IDX_SLIP_ANGLE)
        } else {
            self.slip_ratio_rate(unit, x, index - IDX_SLIP_RATIO)
        }
    }

    fn yaw_moment<F: Fn(Operation) -> Scalar>(
        &self,
        unit: &F,
        force: BodyForce,
        corner: usize,
    ) -> (moment: Scalar)
        requires
            arith::functional(*unit),
        ensures
            moment == self.yawing(unit, force, corner as int),
    {
        minus(
            unit,
            times(unit, self.params.corner_x(corner), force.y),
            times(unit, self.params.corner_y(unit, corner), force.x),
        )
    }

    fn lift<F: Fn(Operation) -> Scalar>(
        &self,
        unit: &F,
        heave: Scalar,
        pitch: Scalar,
        roll: Scalar,
        corner: usize,
    ) -> (z: Scalar)
        requires
            arith::functional(*unit),
        ensures
            z == self.lifted(unit, heave, pitch, roll, corner as int),
    {
        plus(
            unit,
            plus(unit, heave, times(unit, self.params.corner_x(corner), pitch)),
            times(unit, self.params.corner_y(unit, corner), roll),
        )
    }

    fn squeeze<F: Fn(Operation) -> Scalar>(&self, unit: &F, x: &Vec<Scalar>, corner: usize) -> (c: Scalar)
        requires
            arith::functional(*unit),
            x@.len() == STATE_COUNT,
            corner < 4,
        ensures
            c == self.compression(unit, x@, corner as int),
    {
        minus(
            unit,
            x[IDX_HOP + corner],
            self.lift(unit, x[IDX_HEAVE], x[IDX_PITCH], x[IDX_ROLL], corner),
        )
    }

    fn strut_force<F: Fn(Operation) -> Scalar>(
        &self,
        unit: &F,
        x: &Vec<Scalar>,
        compression: Scalar,
        corner: usize,
    ) -> (force: Scalar)
        requires
            arith::functional(*unit),
            x@.len() == STATE_COUNT,
            corner < 4,
            compression == self.compression(unit, x@, corner as int),
        ensures
            force == self.strut(unit, x@, corner as int),
    {
        let compression_rate: Scalar = minus(
            unit,
            x[IDX_HOP_RATE + corner],
            self.lift(unit, x[IDX_HEAVE_RATE], x[IDX_PITCH_RATE], x[IDX_ROLL_RATE], corner),
        );
        let resting: Scalar = minus(
            unit,
            self.params.static_load(unit, corner),
            times(unit, self.params.unsprung_mass, GRAVITY),
        );
        plus(
            unit,
            plus(unit, resting, times(unit, self.params.wheel_rate(corner), compression)),
            times(unit, self.params.damping(corner), compression_rate),
        )
    }

    fn suspension_forces<F: Fn(Operation) -> Scalar>(&self, unit: &F, x: &Vec<Scalar>) -> (forces: Wheels<
        Scalar,
    >)
        requires
            arith::functional(*unit),
            x@.len() == STATE_COUNT,
        ensures
            forces == self.suspension(unit, x@),
    {
        let c0: Scalar = self.squeeze(unit, x, 0);
        let c1: Scalar = self.squeeze(unit, x, 1);
        let c2: Scalar = self.squeeze(unit, x, 2);
        let c3: Scalar = self.squeeze(unit, x, 3);
        let front: Scalar = over(
            unit,
            times(unit, self.params.arb_front, minus(unit, c0, c1)),
            self.params.track_front,
        );
        let rear: Scalar = over(
            unit,
            times(unit, self.params.arb_rear, minus(unit, c2, c3)),
            self.params.track_rear,
        );
        Wheels {
            fl: plus(unit, self.strut_force(unit, x, c0, 0), front),
            fr: minus(unit, self.strut_force(unit, x, c1, 1), front),
            rl: plus(unit, self.strut_force(unit, x, c2, 2), rear),
            rr: minus(unit, self.strut_force(unit, x, c3, 3), rear),
        }
    }

    /// Heave, roll and pitch accelerations of the sprung mass.
    fn sprung_rates<F: Fn(Operation) -> Scalar>(
        &self,
        unit: &F,
        x: &Vec<Scalar>,
        loads: &Loads,
        s: &Wheels<Scalar>,
    ) -> (rates: (Scalar, Scalar, Scalar))
        requires
            arith::functional(*unit),
            x@.len() == STATE_COUNT,
            *loads == self.loads(unit, x@),
            *s == self.suspension(unit, x@),
        ensures
            rates.0 == self.heave_acceleration(unit, x@),
            rates.1 == self.roll_acceleration(unit, x@),
            rates.2 == self.pitch_acceleration(unit, x@),
    {
        let p: &ReducedParams = &self.params;
        let vx: Scalar = x[IDX_VX];
        let pressure: Scalar = times(unit, times(unit, times(unit, HALF, p.air_density), vx), vx);
        let downforce: Scalar = times(unit, pressure, p.lift_area);
        let held: Scalar = add_four(unit, ZERO, s.fl, s.fr, s.rl, s.rr);
        let weight: Scalar = times(unit, p.sprung_mass, GRAVITY);
        let heave: Scalar = over(
            unit,
            minus(unit, minus(unit, held, weight), downforce),
            p.sprung_mass,
        );
        let roll_lever: Scalar = minus(
            unit,
            p.cg_height,
            times(unit, HALF, plus(unit, p.roll_centre_front, p.roll_centre_rear)),
        );
        let pitch_lever: Scalar = minus(unit, p.cg_height, p.pitch_centre);
        let rolled: Scalar = times(unit, times(unit, p.sprung_mass, loads.accel_y), roll_lever);
        let pitched: Scalar = times(unit, times(unit, p.sprung_mass, loads.accel_x), pitch_lever);
        let roll_moment: Scalar = add_four(
            unit,
            rolled,
            times(unit, s.fl, p.corner_y(unit, 0)),
            times(unit, s.fr, p.corner_y(unit, 1)),
            times(unit, s.rl, p.corner_y(unit, 2)),
            times(unit, s.rr, p.corner_y(unit, 3)),
        );
        let pitch_moment: Scalar = add_four(
            unit,
            pitched,
            times(unit, s.fl, p.corner_x(0)),
            times(unit, s.fr, p.corner_x(1)),
            times(unit, s.rl, p.corner_x(2)),
            times(unit, s.rr, p.corner_x(3)),
        );
        (heave, over(unit, roll_moment, p.inertia_roll), over(unit, pitch_moment, p.inertia_pitch))
    }

    fn axle<F: Fn(Operation) -> Scalar>(&self, unit: &F, x: &Vec<Scalar>) -> (torque: Scalar)
        requires
            arith::functional(*unit),
            x@.len() == STATE_COUNT,
        ensures
            torque == self.axle_torque(unit, x@),
    {
        let rear_speed: Scalar = times(unit, HALF, plus(unit, x[IDX_OMEGA + 2], x[IDX_OMEGA + 3]));
        let motor_speed: Scalar = times(unit, rear_speed, self.params.final_drive);
        proof {
            device::lemma_unit_interval();
        }
        let demand: Scalar = clamp(self.input.accelerator_pedal_command, ZERO, ONE);
        times(
            unit,
            times(unit, demand, self.motor_torque(unit, motor_speed)),
            self.params.final_drive,
        )
    }

    fn lock<F: Fn(Operation) -> Scalar>(&self, unit: &F, x: &Vec<Scalar>) -> (torque: Scalar)
        requires
            arith::functional(*unit),
            x@.len() == STATE_COUNT,
        ensures
            torque == self.lock_torque(unit, x@),
    {
        let apart: Scalar = minus(unit, x[IDX_OMEGA + 2], x[IDX_OMEGA + 3]);
        plus(
            unit,
            times(
                unit,
                self.params.diff_preload,
                tanh(unit, over(unit, apart, self.params.omega_epsilon)),
            ),
            times(unit, self.params.diff_lock_gain, apart),
        )
    }

    fn spin_rate<F: Fn(Operation) -> Scalar>(
        &self,
        unit: &F,
        x: &Vec<Scalar>,
        loads: &Loads,
        axle: Scalar,
        lock: Scalar,
        corner: usize,
    ) -> (rate: Scalar)
        requires
            arith::functional(*unit),
            x@.len() == STATE_COUNT,
            corner < 4,
            *loads == self.loads(unit, x@),
            axle == self.axle_torque(unit, x@),
            lock == self.lock_torque(unit, x@),
        ensures
            rate == self.spin_acceleration(unit, x@, corner as int),
    {
        proof {
            device::lemma_unit_interval();
        }
        let p: &ReducedParams = &self.params;
        let omega: Scalar = x[IDX_OMEGA + corner];
        let demand: Scalar = clamp(self.input.brake_pedal_command, ZERO, ONE);
        let total: Scalar = times(unit, demand, p.brake_torque_max);
        let bias: Scalar = if p.is_front(corner) {
            p.brake_bias
        } else {
            minus(unit, ONE, p.brake_bias)
        };
        let share: Scalar = times(unit, times(unit, total, bias), HALF);
        let brake: Scalar = times(
            unit,
            negate(share),
            tanh(unit, over(unit, omega, p.omega_epsilon)),
        );
        let drive: Scalar = if corner == 2 {
            minus(unit, times(unit, HALF, axle), lock)
        } else if corner == 3 {
            plus(unit, times(unit, HALF, axle), lock)
        } else {
            ZERO
        };
        let traction: Scalar = times(unit, negate(loads.forces.get(corner).fx), p.wheel_radius);
        over(unit, plus(unit, plus(unit, drive, brake), traction), p.wheel_inertia)
    }

    /// Rates of the two relaxed slip states of a corner.
    fn slip_rates<F: Fn(Operation) -> Scalar>(
        &self,
        unit: &F,
        x: &Vec<Scalar>,
        loads: &Loads,
        corner: usize,
    ) -> (rates: (Scalar, Scalar))
        requires
            arith::functional(*unit),
            x@.len() == STATE_COUNT,
            corner < 4,
            *loads == self.loads(unit, x@),
        ensures
            rates.0 == self.slip_angle_rate(unit, x@, corner as int),
            rates.1 == self.slip_ratio_rate(unit, x@, corner as int),
    {
        let p: &ReducedParams = &self.params;
        let yaw_rate: Scalar = x[IDX_YAW_RATE];
        let vx: Scalar = minus(unit, x[IDX_VX], times(unit, yaw_rate, p.corner_y(unit, corner)));
        let vy: Scalar = plus(unit, x[IDX_VY], times(unit, yaw_rate, p.corner_x(corner)));
        let delta: Scalar = loads.steer.get(corner);
        let sin_d: Scalar = sin(unit, delta);
        let cos_d: Scalar = cos(unit, delta);
        let wheel_vx: Scalar = plus(unit, times(unit, vx, cos_d), times(unit, vy, sin_d));
        let wheel_vy: Scalar = plus(unit, times(unit, negate(vx), sin_d), times(unit, vy, cos_d));
        let along: Scalar = max_of(abs(wheel_vx), p.speed_floor);
        let target_angle: Scalar = negate(atan(unit, over(unit, wheel_vy, along)));
        let target_ratio: Scalar = over(
            unit,
            minus(unit, times(unit, x[IDX_OMEGA + corner], p.wheel_radius), wheel_vx),
            along,
        );
        let lateral: Scalar = p.tire.relax_rate(
            unit,
            wheel_vx,
            p.tire.relaxation_lateral,
            p.speed_floor,
        );
        let longitudinal: Scalar = p.tire.relax_rate(
            unit,
            wheel_vx,
            p.tire.relaxation_longitudinal,
            p.speed_floor,
        );
        proof {
            scalar::lemma_exact_order(MINUS_FOUR, FOUR);
            scalar::lemma_exact_order(FOUR, FOUR);
        }
        (
            times(unit, lateral, minus(unit, target_angle, x[IDX_SLIP_ANGLE + corner])),
            times(
                unit,
                longitudinal,
                minus(
                    unit,
                    clamp(target_ratio, MINUS_FOUR, FOUR),
                    x[IDX_SLIP_RATIO + corner],
                ),
            ),
        )
    }

    fn hop_rate<F: Fn(Operation) -> Scalar>(
        &self,
        unit: &F,
        x: &Vec<Scalar>,
        loads: &Loads,
        s: &Wheels<Scalar>,
        corner: usize,
    ) -> (rate: Scalar)
        requires
            arith::functional(*unit),
            x@.len() == STATE_COUNT,
            corner < 4,
            *loads == self.loads(unit, x@),
            *s == self.suspension(unit, x@),
        ensures
            rate == self.hop_acceleration(unit, x@, corner as int),
    {
        let weight: Scalar = times(unit, self.params.unsprung_mass, GRAVITY);
        over(
            unit,
            minus(unit, minus(unit, loads.fz.get(corner), s.get(corner)), weight),
            self.params.unsprung_mass,
        )
    }

    /// Rates of the three planar states.
    fn planar_rates<F: Fn(Operation) -> Scalar>(
        &self,
        unit: &F,
        x: &Vec<Scalar>,
        loads: &Loads,
    ) -> (rates: (Scalar, Scalar, Scalar))
        requires
            arith::functional(*unit),
            x@.len() == STATE_COUNT,
            *loads == self.loads(unit, x@),
        ensures
            rates.0 == self.planar(unit, x@, IDX_VX as int),
            rates.1 == self.planar(unit, x@, IDX_VY as int),
            rates.2 == self.planar(unit, x@, IDX_YAW_RATE as int),
    {
        let p: &ReducedParams = &self.params;
        let vx: Scalar = x[IDX_VX];
        let yaw_rate: Scalar = x[IDX_YAW_RATE];
        let area: Scalar = times(unit, times(unit, HALF, p.air_density), p.drag_area);
        let drag: Scalar = times(unit, times(unit, times(unit, area, vx), vx), signum(vx));
        let moment: Scalar = add_four(
            unit,
            ZERO,
            self.yaw_moment(unit, loads.body.fl, 0),
            self.yaw_moment(unit, loads.body.fr, 1),
            self.yaw_moment(unit, loads.body.rl, 2),
            self.yaw_moment(unit, loads.body.rr, 3),
        );
        (
            plus(
                unit,
                over(unit, minus(unit, loads.body_fx, drag), p.mass),
                times(unit, yaw_rate, x[IDX_VY]),
            ),
            minus(unit, over(unit, loads.body_fy, p.mass), times(unit, yaw_rate, vx)),
            over(unit, moment, p.inertia_yaw),
        )
    }
}

/// A car on a floating-point unit: the system the integrator advances.
pub struct Dynamics<'a, F: Fn(Operation) -> Scalar> {
    pub unit: &'a F,
    pub car: Car,
}

impl<'a, F: Fn(Operation) -> Scalar> Derivatives for Dynamics<'a, F> {
    open spec fn accepts(&self, dimension: nat) -> bool {
        &&& dimension == STATE_COUNT
        &&& arith::functional(*self.unit)
        &&& self.car.steerable()
    }

    open spec fn rates(&self, t: Scalar, x: Seq<Scalar>) -> Seq<Scalar> {
        Seq::new(STATE_COUNT as nat, |i: int| self.car.rate(self.unit, x, i))
    }

    fn derivatives(&mut self, t: Scalar, x: &Vec<Scalar>, dx: &mut Vec<Scalar>) {
        let unit: &F = self.unit;
        let loads: Loads = self.car.evaluate_loads(unit, x);
        let s: Wheels<Scalar> = self.car.suspension_forces(unit, x);
        let planar: (Scalar, Scalar, Scalar) = self.car.planar_rates(unit, x, &loads);
        let sprung: (Scalar, Scalar, Scalar) = self.car.sprung_rates(unit, x, &loads, &s);
        let axle: Scalar = self.car.axle(unit, x);
        let lock: Scalar = self.car.lock(unit, x);
        dx.set(IDX_VX, planar.0);
        dx.set(IDX_VY, planar.1);
        dx.set(IDX_YAW_RATE, planar.2);
        dx.set(IDX_HEAVE, x[IDX_HEAVE_RATE]);
        dx.set(IDX_HEAVE_RATE, sprung.0);
        dx.set(IDX_ROLL, x[IDX_ROLL_RATE]);
        dx.set(IDX_ROLL_RATE, sprung.1);
        dx.set(IDX_PITCH, x[IDX_PITCH_RATE]);
        dx.set(IDX_PITCH_RATE, sprung.2);
        let mut corner: usize = 0;
        let ghost rates = self.rates(t, x@);
        while corner < 4
            invariant
                corner <= 4,
                arith::functional(*unit),
                unit == self.unit,
                x@.len() == STATE_COUNT,
                dx@.len() == STATE_COUNT,
                loads == self.car.loads(unit, x@),
                s == self.car.suspension(unit, x@),
                axle == self.car.axle_torque(unit, x@),
                lock == self.car.lock_torque(unit, x@),
                rates == self.rates(t, x@),
                forall|i: int| 0 <= i < IDX_HOP ==> dx@[i] == rates[i],
                forall|i: int| IDX_HOP <= i < IDX_HOP + corner ==> dx@[i] == rates[i],
                forall|i: int| IDX_HOP_RATE <= i < IDX_HOP_RATE + corner ==> dx@[i] == rates[i],
                forall|i: int| IDX_OMEGA <= i < IDX_OMEGA + corner ==> dx@[i] == rates[i],
                forall|i: int|
                    IDX_SLIP_ANGLE <= i < IDX_SLIP_ANGLE + corner ==> dx@[i] == rates[i],
                forall|i: int|
                    IDX_SLIP_RATIO <= i < IDX_SLIP_RATIO + corner ==> dx@[i] == rates[i],
            decreases 4 - corner,
        {
            let slip: (Scalar, Scalar) = self.car.slip_rates(unit, x, &loads, corner);
            dx.set(IDX_HOP + corner, x[IDX_HOP_RATE + corner]);
            dx.set(IDX_HOP_RATE + corner, self.car.hop_rate(unit, x, &loads, &s, corner));
            dx.set(
                IDX_OMEGA + corner,
                self.car.spin_rate(unit, x, &loads, axle, lock, corner),
            );
            dx.set(IDX_SLIP_ANGLE + corner, slip.0);
            dx.set(IDX_SLIP_RATIO + corner, slip.1);
            corner += 1;
        }
        assert(dx@ =~= rates);
    }
}

// --- the plant --------------------------------------------------------------------

/// Everything that decides what the reduced plant does next.
pub struct Machine<F: Fn(Operation) -> Scalar> {
    pub unit: F,
    pub car: Car,
    pub state: Seq<Scalar>,
    pub time: Scalar,
    pub step_index: u64,
}

/// What the car reports once a step has landed on `x`.
///
/// The handwheel torque is a reaction torque: positive when the car resists a
/// turn to the left.
pub open spec fn reported<F: Fn(Operation) -> Scalar>(
    unit: &F,
    car: Car,
    x: Seq<Scalar>,
    loads: Loads,
    time: Scalar,
    step_index: u64,
) -> VehicleState {
    let vx = x[IDX_VX as int];
    let vy = x[IDX_VY as int];
    let excess = car.excess(unit, car.input.steering_angle_command);
    let column = times(
        unit,
        over(unit, loads.kingpin_torque, car.params.steer_ratio),
        car.params.steer_efficiency,
    );
    VehicleState {
        sim_time: time,
        step_index,
        steering_angle_command: car.input.steering_angle_command,
        accelerator_pedal_command: car.input.accelerator_pedal_command,
        brake_pedal_command: car.input.brake_pedal_command,
        vehicle_speed: sqrt(unit, plus(unit, times(unit, vx, vx), times(unit, vy, vy))),
        acc_x: loads.accel_x,
        acc_y: loads.accel_y,
        handwheel_angle: minus(unit, car.input.steering_angle_command, excess),
        steer_excess: excess,
        handwheel_torque: negate(column),
        fz_fl: loads.fz.fl,
        fz_fr: loads.fz.fr,
        fz_rl: loads.fz.rl,
        fz_rr: loads.fz.rr,
        left_steer_angle: loads.steer.fl,
        right_steer_angle: loads.steer.fr,
        roll: x[IDX_ROLL as int],
        sideslip: if is_less(CREEP, abs(vx)) {
            atan(unit, over(unit, vy, vx))
        } else {
            ZERO
        },
        vel_x: vx,
        vel_y: vy,
        yaw_vel: x[IDX_YAW_RATE as int],
        ..VehicleState::zero()
    }
}

impl Car {
    /// The car with this step's axle forces remembered for the next.
    pub open spec fn remembering(self, loads: Loads) -> Self {
        Car {
            previous_front_lateral: loads.front_lateral,
            previous_rear_lateral: loads.rear_lateral,
            previous_longitudinal: loads.total_longitudinal,
            ..self
        }
    }

    pub fn write_outputs<F: Fn(Operation) -> Scalar>(
        &self,
        unit: &F,
        x: &Vec<Scalar>,
        loads: &Loads,
        excess: Scalar,
        time: Scalar,
        step_index: u64,
    ) -> (output: VehicleState)
        requires
            arith::functional(*unit),
            x@.len() == STATE_COUNT,
            excess == self.excess(unit, self.input.steering_angle_command),
        ensures
            output == reported(unit, *self, x@, *loads, time, step_index),
    {
        let p: &ReducedParams = &self.params;
        let vx: Scalar = x[IDX_VX];
        let vy: Scalar = x[IDX_VY];
        let column: Scalar = times(
            unit,
            over(unit, loads.kingpin_torque, p.steer_ratio),
            p.steer_efficiency,
        );
        let mut output: VehicleState = VehicleState::default();
        output.sim_time = time;
        output.step_index = step_index;
        output.steering_angle_command = self.input.steering_angle_command;
        output.accelerator_pedal_command = self.input.accelerator_pedal_command;
        output.brake_pedal_command = self.input.brake_pedal_command;
        output.vehicle_speed = sqrt(unit, plus(unit, times(unit, vx, vx), times(unit, vy, vy)));
        output.acc_x = loads.accel_x;
        output.acc_y = loads.accel_y;
        output.handwheel_angle = minus(unit, self.input.steering_angle_command, excess);
        output.steer_excess = excess;
        output.handwheel_torque = negate(column);
        output.fz_fl = loads.fz.fl;
        output.fz_fr = loads.fz.fr;
        output.fz_rl = loads.fz.rl;
        output.fz_rr = loads.fz.rr;
        output.left_steer_angle = loads.steer.fl;
        output.right_steer_angle = loads.steer.fr;
        output.roll = x[IDX_ROLL];
        output.sideslip = if is_less(CREEP, abs(vx)) {
            atan(unit, over(unit, vy, vx))
        } else {
            ZERO
        };
        output.vel_x = vx;
        output.vel_y = vy;
        output.yaw_vel = x[IDX_YAW_RATE];
        output
    }
}

/// The state a session starts from: moving straight ahead, wheels rolling, each
/// tire on its static deflection so the car does not drop onto its tires and
/// ring for the first second of every session. Hop is counted from that
/// deflection, so it starts at zero.
pub open spec fn launch_state<F: Fn(Operation) -> Scalar>(
    unit: &F,
    params: ReducedParams,
    init: InitialConditions,
) -> Seq<Scalar> {
    Seq::new(
        STATE_COUNT as nat,
        |i: int|
            if i == IDX_VX {
                init.speed
            } else if IDX_OMEGA <= i < IDX_SLIP_ANGLE {
                over(unit, init.speed, params.wheel_radius)
            } else {
                ZERO
            },
    )
}

/// `value` may be given to the tunable `id`.
pub open spec fn acceptable(id: u32, value: Scalar) -> bool {
    &&& id < frames::TUNABLE_COUNT
    &&& is_at_most(frames::tunable_min(id as int), value)
    &&& is_at_most(value, frames::tunable_max(id as int))
}

/// The parameters with one tunable set.
pub open spec fn tuned(params: ReducedParams, id: u32, value: Scalar) -> ReducedParams {
    if id == frames::FRONT_ARB_RATE {
        ReducedParams { arb_front: value, ..params }
    } else if id == frames::REAR_ARB_RATE {
        ReducedParams { arb_rear: value, ..params }
    } else if id == frames::BRAKE_BIAS {
        ReducedParams { brake_bias: value, ..params }
    } else {
        ReducedParams { diff_preload: value, ..params }
    }
}

/// The reduced plant. Owns its state, its integrator, and its parameters.
pub struct Reduced14Dof<F: Fn(Operation) -> Scalar> {
    unit: F,
    car: Car,
    state: Vec<Scalar>,
    integrator: FixedStep,
    time: Scalar,
    step_index: u64,
}

/// A car that has not moved yet.
pub open spec fn parked<F: Fn(Operation) -> Scalar>(unit: F, params: ReducedParams) -> Machine<F> {
    Machine {
        unit,
        car: Car {
            params,
            input: DriverInput::zero(),
            previous_front_lateral: ZERO,
            previous_rear_lateral: ZERO,
            previous_longitudinal: ZERO,
        },
        state: Seq::new(STATE_COUNT as nat, |i: int| ZERO),
        time: ZERO,
        step_index: 0,
    }
}

impl<F: Fn(Operation) -> Scalar> Reduced14Dof<F> {
    pub fn new(unit: F, params: ReducedParams) -> (plant: Self)
        ensures
            plant.well_formed(),
            plant.machine() == parked(unit, params),
    {
        let mut state: Vec<Scalar> = Vec::new();
        let mut i: usize = 0;
        while i < STATE_COUNT
            invariant
                i <= STATE_COUNT,
                state@.len() == i,
                forall|j: int| 0 <= j < i ==> state@[j] == ZERO,
            decreases STATE_COUNT - i,
        {
            state.push(ZERO);
            i += 1;
        }
        assert(state@ =~= Seq::new(STATE_COUNT as nat, |i: int| ZERO));
        Reduced14Dof {
            unit,
            car: Car {
                params,
                input: DriverInput::default(),
                previous_front_lateral: ZERO,
                previous_rear_lateral: ZERO,
                previous_longitudinal: ZERO,
            },
            state,
            integrator: FixedStep::new(STATE_COUNT, Method::Rk4, 1),
            time: ZERO,
            step_index: 0,
        }
    }

    pub fn params(&self) -> (params: &ReducedParams)
        ensures
            *params == self.machine().car.params,
    {
        &self.car.params
    }

    pub fn params_mut(&mut self) -> (params: &mut ReducedParams)
        requires
            old(self).well_formed(),
        ensures
            *params == old(self).machine().car.params,
            final(self).well_formed(),
            final(self).machine() == (Machine {
                car: Car { params: *final(params), ..old(self).machine().car },
                ..old(self).machine()
            }),
    {
        &mut self.car.params
    }
}

impl<F: Fn(Operation) -> Scalar> PlantKernel for Reduced14Dof<F> {
    type Machine = Machine<F>;

    closed spec fn machine(&self) -> Machine<F> {
        Machine {
            unit: self.unit,
            car: self.car,
            state: self.state@,
            time: self.time,
            step_index: self.step_index,
        }
    }

    closed spec fn well_formed(&self) -> bool {
        &&& self.state@.len() == STATE_COUNT
        &&& self.integrator.well_formed()
        &&& self.integrator.dimension() == STATE_COUNT
        &&& self.integrator.scheme() == Method::Rk4
        &&& self.integrator.pieces() == 1
    }

    open spec fn lasts(machine: Machine<F>, steps: nat) -> bool {
        &&& arith::functional(machine.unit)
        &&& machine.car.steerable()
        &&& machine.step_index + steps <= u64::MAX
    }

    open spec fn restarted(machine: Machine<F>, init: InitialConditions) -> (Machine<F>, bool) {
        (
            Machine {
                unit: machine.unit,
                car: Car {
                    params: machine.car.params,
                    input: DriverInput {
                        steering_angle_command: init.steering_angle,
                        ..DriverInput::zero()
                    },
                    previous_front_lateral: ZERO,
                    previous_rear_lateral: ZERO,
                    previous_longitudinal: ZERO,
                },
                state: launch_state(&machine.unit, machine.car.params, init),
                time: ZERO,
                step_index: 0,
            },
            true,
        )
    }

    open spec fn advanced(
        machine: Machine<F>,
        input: DriverInput,
        dt: Scalar,
    ) -> (Machine<F>, Option<VehicleState>) {
        let unit = &machine.unit;
        let car = Car { input: plant::asked(input), ..machine.car };
        let end = integrator::after_steps(
            Method::Rk4,
            unit,
            &Dynamics { unit, car },
            machine.time,
            machine.state,
            over(unit, dt, arith::counted(unit, 1)),
            1,
        );
        let loads = car.loads(unit, end.0);
        let step_index = (machine.step_index + 1) as u64;
        let output = reported(unit, car, end.0, loads, end.1, step_index);
        (
            Machine {
                unit: machine.unit,
                car: car.remembering(loads),
                state: end.0,
                time: end.1,
                step_index,
            },
            if output.all_sound() {
                Some(output)
            } else {
                None
            },
        )
    }

    open spec fn retuned(machine: Machine<F>, id: u32, value: Scalar) -> (Machine<F>, bool) {
        if acceptable(id, value) {
            (
                Machine {
                    car: Car { params: tuned(machine.car.params, id, value), ..machine.car },
                    ..machine
                },
                true,
            )
        } else {
            (machine, false)
        }
    }

    open spec fn reset_fault(machine: Machine<F>, init: InitialConditions) -> Fault {
        Fault::Unsupported { what: "a reset"@ }
    }

    /// The frame of the step holds a value that is not finite, and this is the
    /// first.
    open spec fn step_fault(machine: Machine<F>, input: DriverInput, dt: Scalar) -> Fault {
        let later = Self::advanced(machine, input, dt).0;
        let car = Car { input: plant::asked(input), ..machine.car };
        plant::nonfinite(
            reported(
                &machine.unit,
                car,
                later.state,
                car.loads(&machine.unit, later.state),
                later.time,
                later.step_index,
            ),
            later.step_index,
        )
    }

    open spec fn tuning_fault(machine: Machine<F>, id: u32, value: Scalar) -> Fault {
        if id >= frames::TUNABLE_COUNT {
            Fault::UnknownTunable { id }
        } else {
            Fault::OutOfRange {
                id,
                value,
                min: frames::tunable_min(id as int),
                max: frames::tunable_max(id as int),
            }
        }
    }

    open spec fn description(machine: Machine<F>) -> Description {
        Description {
            id: kernel_id::REDUCED14DOF,
            name: "Reduced14Dof"@,
            max_stable_dt: MAX_STABLE_DT,
            continuous_states: STATE_COUNT,
            supports_tunables: true,
        }
    }

    open spec fn states(machine: Machine<F>) -> Seq<Scalar> {
        machine.state
    }

    proof fn lasting(
        machine: Machine<F>,
        input: DriverInput,
        dt: Scalar,
        init: InitialConditions,
        id: u32,
        value: Scalar,
        steps: nat,
    ) {
    }

    proof fn lasting_less(machine: Machine<F>, steps: nat, fewer: nat) {
    }

    proof fn repeating(machine: Machine<F>, input: DriverInput, dt: Scalar) {
    }

    fn reset(&mut self, init: &InitialConditions) -> (done: Result<(), PlantError>) {
        let mut i: usize = 0;
        let rolling: Scalar = over(&self.unit, init.speed, self.car.params.wheel_radius);
        let ghost target = launch_state(&self.unit, self.car.params, *init);
        while i < STATE_COUNT
            invariant
                i <= STATE_COUNT,
                self.state@.len() == STATE_COUNT,
                self.unit == old(self).unit,
                self.car == old(self).car,
                self.integrator == old(self).integrator,
                arith::functional(self.unit),
                rolling == over(&self.unit, init.speed, self.car.params.wheel_radius),
                target == launch_state(&self.unit, self.car.params, *init),
                forall|j: int| 0 <= j < i ==> self.state@[j] == target[j],
            decreases STATE_COUNT - i,
        {
            let value: Scalar = if i == IDX_VX {
                init.speed
            } else if IDX_OMEGA <= i && i < IDX_SLIP_ANGLE {
                rolling
            } else {
                ZERO
            };
            self.state.set(i, value);
            i += 1;
        }
        assert(self.state@ =~= target);
        self.time = ZERO;
        self.step_index = 0;
        let mut input: DriverInput = DriverInput::default();
        input.steering_angle_command = init.steering_angle;
        self.car.input = input;
        self.car.previous_front_lateral = ZERO;
        self.car.previous_rear_lateral = ZERO;
        self.car.previous_longitudinal = ZERO;
        Ok(())
    }

    fn step(
        &mut self,
        input: &DriverInput,
        dt: Scalar,
    ) -> (state: Result<VehicleState, PlantError>) {
        self.car.input = commands(input);
        let start_time: Scalar = self.time;
        let mut system: Metered<Dynamics<'_, F>> = Metered::new(
            Dynamics { unit: &self.unit, car: self.car },
        );
        self.time = self.integrator.advance(
            &self.unit,
            &mut system,
            start_time,
            &mut self.state,
            dt,
        );
        self.step_index += 1;

        let loads: Loads = self.car.evaluate_loads(&self.unit, &self.state);
        let steering: (Wheels<Scalar>, Scalar) = self.car.steer_angles(
            &self.unit,
            input.steering_angle_command,
        );
        let output: VehicleState = self.car.write_outputs(
            &self.unit,
            &self.state,
            &loads,
            steering.1,
            self.time,
            self.step_index,
        );
        self.car.previous_front_lateral = loads.front_lateral;
        self.car.previous_rear_lateral = loads.rear_lateral;
        self.car.previous_longitudinal = loads.total_longitudinal;
        match guard_finite(&output, self.step_index) {
            Ok(_) => Ok(output),
            Err(error) => Err(error),
        }
    }

    fn set_tunable(&mut self, id: u32, value: Scalar) -> (done: Result<(), PlantError>)
        ensures
            done is Ok && id == frames::FRONT_ARB_RATE ==> final(self).machine().car.params == (
            ReducedParams { arb_front: value, ..old(self).machine().car.params }),
            done is Ok && id == frames::REAR_ARB_RATE ==> final(self).machine().car.params == (
            ReducedParams { arb_rear: value, ..old(self).machine().car.params }),
            done is Ok && id == frames::BRAKE_BIAS ==> final(self).machine().car.params == (
            ReducedParams { brake_bias: value, ..old(self).machine().car.params }),
            done is Ok && id == frames::DIFF_PRELOAD ==> final(self).machine().car.params == (
            ReducedParams { diff_preload: value, ..old(self).machine().car.params }),
            done is Err ==> final(self).machine() == old(self).machine(),
    {
        if id >= frames::TUNABLE_COUNT {
            return Err(PlantError::UnknownTunable { id });
        }
        let row: frames::TunableSpec = frames::tunable(id);
        if !(is_at_most(row.min, value) && is_at_most(value, row.max)) {
            return Err(PlantError::OutOfRange { id, value, min: row.min, max: row.max });
        }
        match id {
            frames::FRONT_ARB_RATE => {
                self.car.params.arb_front = value;
            },
            frames::REAR_ARB_RATE => {
                self.car.params.arb_rear = value;
            },
            frames::BRAKE_BIAS => {
                self.car.params.brake_bias = value;
            },
            _ => {
                self.car.params.diff_preload = value;
            },
        }
        Ok(())
    }

    fn capabilities(&self) -> (caps: KernelCaps) {
        KernelCaps {
            id: kernel_id::REDUCED14DOF,
            name: "Reduced14Dof".to_owned(),
            max_stable_dt: MAX_STABLE_DT,
            continuous_states: STATE_COUNT,
            supports_tunables: true,
        }
    }

    fn state_vector(&self) -> (state: &Vec<Scalar>) {
        &self.state
    }
}

/// The physics sees the three commands of an input and nothing else of it: not
/// when it was sampled, and not where the axes stood.
pub proof fn law_only_the_commands_drive<F: Fn(Operation) -> Scalar>(
    machine: Machine<F>,
    input: DriverInput,
    dt: Scalar,
)
    ensures
        Reduced14Dof::<F>::advanced(machine, input, dt) == Reduced14Dof::<F>::advanced(
            machine,
            plant::asked(input),
            dt,
        ),
{
}

/// How the car changes is a function of its state: what time it is makes no
/// difference.
pub proof fn law_derivatives_do_not_look_at_the_clock<F: Fn(Operation) -> Scalar>(
    system: Dynamics<'_, F>,
    sooner: Scalar,
    later: Scalar,
    x: Seq<Scalar>,
)
    ensures
        system.rates(sooner, x) == system.rates(later, x),
{
}

/// A reset forgets everything but the setup of the car: where it had been, how
/// fast, and for how long, makes no difference to what comes after.
pub proof fn law_a_reset_forgets<F: Fn(Operation) -> Scalar>(
    one: Machine<F>,
    other: Machine<F>,
    init: InitialConditions,
)
    requires
        one.unit == other.unit,
        one.car.params == other.car.params,
    ensures
        Reduced14Dof::<F>::restarted(one, init) == Reduced14Dof::<F>::restarted(other, init),
{
}

/// A tunable that is refused changes nothing, and one that is taken changes
/// nothing but the setup.
pub proof fn law_tuning_touches_the_setup_alone<F: Fn(Operation) -> Scalar>(
    machine: Machine<F>,
    id: u32,
    value: Scalar,
)
    ensures
        ({
            let after = Reduced14Dof::<F>::retuned(machine, id, value);
            &&& !after.1 ==> after.0 == machine
            &&& after.0 == (Machine {
                car: Car { params: after.0.car.params, ..machine.car },
                ..machine
            })
        }),
{
}

/// A tunable that is taken gives its value to the parameter it is named for, and to
/// no other.
pub proof fn law_a_tunable_sets_its_namesake<F: Fn(Operation) -> Scalar>(
    machine: Machine<F>,
    id: u32,
    value: Scalar,
    name: Seq<char>,
)
    requires
        name == frames::tunable_name(id as int),
        Reduced14Dof::<F>::retuned(machine, id, value).1,
    ensures
        ({
            let before = machine.car.params;
            let after = Reduced14Dof::<F>::retuned(machine, id, value).0.car.params;
            &&& name == "front_arb_rate"@ ==> after == (ReducedParams {
                arb_front: value,
                ..before
            })
            &&& name == "rear_arb_rate"@ ==> after == (ReducedParams { arb_rear: value, ..before })
            &&& name == "brake_bias"@ ==> after == (ReducedParams { brake_bias: value, ..before })
            &&& name == "diff_preload"@ ==> after == (ReducedParams {
                diff_preload: value,
                ..before
            })
            &&& name == "front_arb_rate"@ || name == "rear_arb_rate"@ || name == "brake_bias"@
                || name == "diff_preload"@
        }),
{
    reveal_strlit("front_arb_rate");
    reveal_strlit("rear_arb_rate");
    reveal_strlit("brake_bias");
    reveal_strlit("diff_preload");
    assert("front_arb_rate"@.len() == 14 && "rear_arb_rate"@.len() == 13);
    assert("brake_bias"@.len() == 10 && "diff_preload"@.len() == 12);
}

/// A frame echoes the commands it was given, so that a recording of the car is
/// also the script that reproduces it.
pub proof fn law_commands_are_echoed<F: Fn(Operation) -> Scalar>(
    machine: Machine<F>,
    input: DriverInput,
    dt: Scalar,
)
    ensures
        Reduced14Dof::<F>::advanced(machine, input, dt).1 matches Some(state) ==> {
            &&& state.steering_angle_command == input.steering_angle_command
            &&& state.accelerator_pedal_command == input.accelerator_pedal_command
            &&& state.brake_pedal_command == input.brake_pedal_command
        },
{
}

/// Every step is counted, whether or not what it gave was sound.
pub proof fn law_steps_are_counted<F: Fn(Operation) -> Scalar>(
    machine: Machine<F>,
    input: DriverInput,
    dt: Scalar,
)
    requires
        machine.step_index < u64::MAX,
    ensures
        Reduced14Dof::<F>::advanced(machine, input, dt).0.step_index == machine.step_index + 1,
        Reduced14Dof::<F>::advanced(machine, input, dt).1 matches Some(state) ==> state.step_index
            == machine.step_index + 1 && state.all_sound(),
{
}

impl Car {
    /// Every number the load on a corner at rest is made of is finite, and the
    /// lengths it is divided by are lengths.
    pub open spec fn weighable<F: Fn(Operation) -> Scalar>(self, unit: &F, corner: int) -> bool {
        let p = self.params;
        &&& is_finite(p.resting(unit, corner))
        &&& is_at_most(ZERO, p.resting(unit, corner))
        &&& is_finite(p.tire_vertical_rate)
        &&& is_finite(p.tire_vertical_damping)
        &&& is_finite(times(unit, HALF, p.air_density))
        &&& is_finite(p.lift_area)
        &&& is_finite(p.aero_balance)
        &&& is_finite(minus(unit, ONE, p.aero_balance))
        &&& is_finite(p.roll_centre_front)
        &&& is_finite(p.roll_centre_rear)
        &&& is_finite(p.pitch_centre)
        &&& is_finite(p.track_front) && is_less(ZERO, p.track_front)
        &&& is_finite(p.track_rear) && is_less(ZERO, p.track_rear)
        &&& is_finite(p.base(unit)) && is_less(ZERO, p.base(unit))
        &&& !is_nan(p.aside(unit, corner))
    }
}

/// A length divides nothing into nothing.
proof fn lemma_nothing_over<F: Fn(Operation) -> Scalar>(unit: &F, zero: Scalar, length: Scalar)
    requires
        arith::rounding(unit),
        is_finite(zero),
        scalar::exact(zero) == 0,
        is_finite(length),
        is_less(ZERO, length),
    ensures
        is_finite(over(unit, zero, length)),
        scalar::exact(over(unit, zero, length)) == 0,
{
    scalar::lemma_exact_order(ZERO, ZERO);
    assert(arith::delivers(
        scalar::exact(zero) * scalar::unit(),
        scalar::exact(length),
        over(unit, zero, length),
    ));
    arith::lemma_exact_is_kept(
        scalar::exact(zero) * scalar::unit(),
        scalar::exact(length),
        over(unit, zero, length),
        ZERO,
    );
}

/// A car that starts from rest already stands on its tires: every corner carries
/// its static load, so nothing drops and nothing rings.
pub proof fn law_a_parked_car_stands_on_its_tires<F: Fn(Operation) -> Scalar>(
    machine: Machine<F>,
    init: InitialConditions,
    corner: int,
)
    requires
        arith::rounding(&machine.unit),
        is_finite(init.speed),
        scalar::exact(init.speed) == 0,
        0 <= corner < 4,
        machine.car.weighable(&machine.unit, corner),
    ensures
        ({
            let parked = Reduced14Dof::<F>::restarted(machine, init).0;
            scalar::exact(parked.car.vertical(&machine.unit, parked.state, corner))
                == scalar::exact(machine.car.params.resting(&machine.unit, corner))
        }),
{
    let unit = &machine.unit;
    let parked = Reduced14Dof::<F>::restarted(machine, init).0;
    let car = parked.car;
    let p = car.params;
    let vx = parked.state[IDX_VX as int];
    scalar::lemma_exact_order(ZERO, ZERO);
    scalar::lemma_one();
    // Nothing on the tire spring or its damper.
    arith::lemma_nothing_times(unit, p.tire_vertical_rate, ZERO);
    arith::lemma_nothing_times(unit, p.tire_vertical_damping, ZERO);
    let resting = p.resting(unit, corner);
    let bounce = minus(unit, resting, times(unit, p.tire_vertical_rate, ZERO));
    arith::lemma_sums_are_exact(unit, resting, times(unit, p.tire_vertical_rate, ZERO));
    let sprung = minus(unit, bounce, times(unit, p.tire_vertical_damping, ZERO));
    arith::lemma_sums_are_exact(unit, bounce, times(unit, p.tire_vertical_damping, ZERO));
    // No air.
    let density = times(unit, HALF, p.air_density);
    arith::lemma_nothing_times(unit, density, vx);
    arith::lemma_nothing_times(unit, vx, times(unit, density, vx));
    arith::lemma_nothing_times(unit, p.lift_area, car.pressure(unit, vx));
    let share = if corner < 2 {
        p.aero_balance
    } else {
        minus(unit, ONE, p.aero_balance)
    };
    arith::lemma_nothing_times(unit, share, car.downforce(unit, vx));
    arith::lemma_nothing_times(unit, HALF, times(unit, car.downforce(unit, vx), share));
    let loaded = plus(unit, sprung, car.aero_share(unit, vx, corner));
    arith::lemma_sums_are_exact(unit, sprung, car.aero_share(unit, vx, corner));
    // Nothing through the links.
    let geo = car.geometric_lateral(unit, corner);
    if corner < 2 {
        arith::lemma_nothing_times(unit, p.roll_centre_front, ZERO);
        lemma_nothing_over(unit, times(unit, ZERO, p.roll_centre_front), p.track_front);
    } else {
        arith::lemma_nothing_times(unit, p.roll_centre_rear, ZERO);
        lemma_nothing_over(unit, times(unit, ZERO, p.roll_centre_rear), p.track_rear);
    }
    let side = negate(signum(p.aside(unit, corner)));
    arith::lemma_nothing_times(unit, side, geo);
    let sideways = plus(unit, loaded, times(unit, side, geo));
    arith::lemma_sums_are_exact(unit, loaded, times(unit, side, geo));
    arith::lemma_nothing_times(unit, p.pitch_centre, ZERO);
    lemma_nothing_over(unit, times(unit, ZERO, p.pitch_centre), p.base(unit));
    let along = if corner < 2 {
        MINUS_ONE
    } else {
        ONE
    };
    arith::lemma_nothing_times(unit, along, car.geometric_longitudinal(unit));
    arith::lemma_sums_are_exact(
        unit,
        sideways,
        times(unit, along, car.geometric_longitudinal(unit)),
    );
}

/// The standard car has a rack with travel.
pub proof fn lemma_standard_car_steers()
    ensures
        is_at_most(
            negate(ReducedParams::standard().rack_limit),
            ReducedParams::standard().rack_limit,
        ),
{
    let limit = ReducedParams::standard().rack_limit;
    scalar::lemma_exact_order(limit, limit);
    scalar::law_negation_flips(limit);
}

} // verus!
