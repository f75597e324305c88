//! Parameters for the reduced-order floor kernel.
//!
//! These are ordinary FSAE numbers, and they exist so the loop is drivable on
//! any hardware. They are *not* a validated vehicle.

use vstd::prelude::*;

use crate::arith;
use crate::arith::{over, plus, times, Operation};
use crate::plant::reduced::tire::TireParams;
use crate::scalar::{negate, Scalar};

verus! {

/// Corner order used throughout: front-left, front-right, rear-left, rear-right.
pub const FL: usize = 0;

pub const FR: usize = 1;

pub const RL: usize = 2;

pub const RR: usize = 3;

pub const CORNERS: usize = 4;

/// Standard gravity: 9.80665 m/s^2.
pub const GRAVITY: Scalar = 0x4023_9d01_3a92_a305;

pub const HALF: Scalar = 0x3fe0_0000_0000_0000;

#[derive(Clone, Copy, PartialEq, Eq, Structural, Debug)]
pub struct ReducedParams {
    // --- masses and inertias ------------------------------------------------
    /// Total mass including driver [kg].
    pub mass: Scalar,
    /// Sprung mass [kg].
    pub sprung_mass: Scalar,
    /// Unsprung mass per corner [kg].
    pub unsprung_mass: Scalar,
    pub inertia_roll: Scalar,
    pub inertia_pitch: Scalar,
    pub inertia_yaw: Scalar,

    // --- geometry -----------------------------------------------------------
    /// CG to front axle [m].
    pub a: Scalar,
    /// CG to rear axle [m].
    pub b: Scalar,
    pub track_front: Scalar,
    pub track_rear: Scalar,
    pub cg_height: Scalar,
    pub roll_centre_front: Scalar,
    pub roll_centre_rear: Scalar,
    /// Height of the pitch centre, which sets how much longitudinal transfer
    /// goes through the links rather than the springs.
    pub pitch_centre: Scalar,

    // --- suspension ---------------------------------------------------------
    /// Wheel-rate per corner [N/m], i.e. spring rate already through the motion ratio.
    pub wheel_rate_front: Scalar,
    pub wheel_rate_rear: Scalar,
    pub damping_front: Scalar,
    pub damping_rear: Scalar,
    /// Anti-roll bar rate referred to the wheel [N.m/rad]. Exposed as a tunable.
    pub arb_front: Scalar,
    pub arb_rear: Scalar,

    // --- tires and wheels ---------------------------------------------------
    pub tire: TireParams,
    pub wheel_radius: Scalar,
    pub wheel_inertia: Scalar,
    /// Vertical tire rate [N/m]. With an unsprung degree of freedom per corner
    /// this is what actually generates Fz, rather than Fz being assumed.
    pub tire_vertical_rate: Scalar,
    pub tire_vertical_damping: Scalar,

    // --- steering -----------------------------------------------------------
    /// Handwheel angle per road-wheel angle.
    pub steer_ratio: Scalar,
    /// Mechanical (caster) trail [m].
    pub mechanical_trail: Scalar,
    /// Steering-system efficiency from rack to column.
    pub steer_efficiency: Scalar,
    /// Peak handwheel angle the rack allows [rad].
    pub rack_limit: Scalar,

    // --- powertrain ---------------------------------------------------------
    /// Peak motor torque [N.m].
    pub motor_peak_torque: Scalar,
    /// Motor speed at which constant-torque ends [rad/s].
    pub motor_corner_speed: Scalar,
    pub motor_max_speed: Scalar,
    pub final_drive: Scalar,
    /// Locking torque per unit of rear-wheel speed difference [N.m.s/rad].
    pub diff_lock_gain: Scalar,
    /// Torque-biasing preload [N.m]. Exposed as a tunable.
    pub diff_preload: Scalar,

    // --- brakes -------------------------------------------------------------
    /// Total brake torque at full pedal [N.m].
    pub brake_torque_max: Scalar,
    /// Fraction of brake torque at the front axle. Exposed as a tunable.
    pub brake_bias: Scalar,

    // --- aerodynamics -------------------------------------------------------
    pub air_density: Scalar,
    pub drag_area: Scalar,
    pub lift_area: Scalar,
    /// Fraction of downforce carried by the front axle.
    pub aero_balance: Scalar,

    // --- regularisation -----------------------------------------------------
    /// Speed floor used wherever a slip quantity divides by velocity [m/s].
    /// Every DIL session starts at rest, so this is load-bearing, not a detail.
    pub speed_floor: Scalar,
    /// Width of the smooth transition that replaces sign() on brake and
    /// differential friction. State events are what make a Modelica model miss
    /// deadlines; the floor kernel avoids them by
    /// construction.
    pub omega_epsilon: Scalar,
}

impl ReducedParams {
    /// A 280 kg car on a 1.55 m wheelbase.
    pub open spec fn standard() -> Self {
        ReducedParams {
            mass: 0x4071_8000_0000_0000,
            sprung_mass: 0x406c_4ccc_cccc_cccd,
            unsprung_mass: 0x402a_cccc_cccc_cccd,
            inertia_roll: 0x4041_8000_0000_0000,
            inertia_pitch: 0x4056_8000_0000_0000,
            inertia_yaw: 0x405a_4000_0000_0000,
            a: 0x3fe8_f5c2_8f5c_28f6,
            b: 0x3fe8_a3d7_0a3d_70a4,
            track_front: 0x3ff3_851e_b851_eb85,
            track_rear: 0x3ff2_e147_ae14_7ae1,
            cg_height: 0x3fd3_3333_3333_3333,
            roll_centre_front: 0x3fa7_0a3d_70a3_d70a,
            roll_centre_rear: 0x3fb3_3333_3333_3333,
            pitch_centre: 0x3fb9_9999_9999_999a,
            wheel_rate_front: 0x40df_4000_0000_0000,
            wheel_rate_rear: 0x40e1_9400_0000_0000,
            damping_front: 0x40a4_5000_0000_0000,
            damping_rear: 0x40a6_a800_0000_0000,
            arb_front: 0x40cb_5800_0000_0000,
            arb_rear: 0x40c1_9400_0000_0000,
            tire: TireParams::standard(),
            wheel_radius: 0x3fcd_42c3_c9ee_cbfb,
            wheel_inertia: 0x3fd1_eb85_1eb8_51ec,
            tire_vertical_rate: 0x40fc_cf00_0000_0000,
            tire_vertical_damping: 0x4081_3000_0000_0000,
            steer_ratio: 0x4010_0000_0000_0000,
            mechanical_trail: 0x3f95_8106_24dd_2f1b,
            steer_efficiency: 0x3fed_70a3_d70a_3d71,
            rack_limit: 0x4001_9999_9999_999a,
            motor_peak_torque: 0x406c_c000_0000_0000,
            motor_corner_speed: 0x4077_c000_0000_0000,
            motor_max_speed: 0x4091_f800_0000_0000,
            final_drive: 0x400b_3333_3333_3333,
            diff_lock_gain: 0x4018_0000_0000_0000,
            diff_preload: 0x4039_0000_0000_0000,
            brake_torque_max: 0x40a2_c000_0000_0000,
            brake_bias: 0x3fe3_d70a_3d70_a3d7,
            air_density: 0x3ff3_0a3d_70a3_d70a,
            drag_area: 0x3ff2_6666_6666_6666,
            lift_area: 0x4006_cccc_cccc_cccd,
            aero_balance: 0x3fdd_70a3_d70a_3d71,
            speed_floor: 0x3fe0_0000_0000_0000,
            omega_epsilon: 0x3ff8_0000_0000_0000,
        }
    }
}

impl Default for ReducedParams {
    fn default() -> (params: Self)
        ensures
            params == Self::standard(),
    {
        ReducedParams {
            mass: 0x4071_8000_0000_0000, // 280.0
            sprung_mass: 0x406c_4ccc_cccc_cccd, // 226.4
            unsprung_mass: 0x402a_cccc_cccc_cccd, // 13.4
            inertia_roll: 0x4041_8000_0000_0000, // 35.0
            inertia_pitch: 0x4056_8000_0000_0000, // 90.0
            inertia_yaw: 0x405a_4000_0000_0000, // 105.0
            a: 0x3fe8_f5c2_8f5c_28f6, // 0.78
            b: 0x3fe8_a3d7_0a3d_70a4, // 0.77
            track_front: 0x3ff3_851e_b851_eb85, // 1.22
            track_rear: 0x3ff2_e147_ae14_7ae1, // 1.18
            cg_height: 0x3fd3_3333_3333_3333, // 0.3
            roll_centre_front: 0x3fa7_0a3d_70a3_d70a, // 0.045
            roll_centre_rear: 0x3fb3_3333_3333_3333, // 0.075
            pitch_centre: 0x3fb9_9999_9999_999a, // 0.1
            wheel_rate_front: 0x40df_4000_0000_0000, // 32000.0
            wheel_rate_rear: 0x40e1_9400_0000_0000, // 36000.0
            damping_front: 0x40a4_5000_0000_0000, // 2600.0
            damping_rear: 0x40a6_a800_0000_0000, // 2900.0
            arb_front: 0x40cb_5800_0000_0000, // 14000.0
            arb_rear: 0x40c1_9400_0000_0000, // 9000.0
            tire: TireParams::default(),
            wheel_radius: 0x3fcd_42c3_c9ee_cbfb, // 0.2286
            wheel_inertia: 0x3fd1_eb85_1eb8_51ec, // 0.28
            tire_vertical_rate: 0x40fc_cf00_0000_0000, // 118000.0
            tire_vertical_damping: 0x4081_3000_0000_0000, // 550.0
            steer_ratio: 0x4010_0000_0000_0000, // 4.0
            mechanical_trail: 0x3f95_8106_24dd_2f1b, // 0.021
            steer_efficiency: 0x3fed_70a3_d70a_3d71, // 0.92
            rack_limit: 0x4001_9999_9999_999a, // 2.2
            motor_peak_torque: 0x406c_c000_0000_0000, // 230.0
            motor_corner_speed: 0x4077_c000_0000_0000, // 380.0
            motor_max_speed: 0x4091_f800_0000_0000, // 1150.0
            final_drive: 0x400b_3333_3333_3333, // 3.4
            diff_lock_gain: 0x4018_0000_0000_0000, // 6.0
            diff_preload: 0x4039_0000_0000_0000, // 25.0
            brake_torque_max: 0x40a2_c000_0000_0000, // 2400.0
            brake_bias: 0x3fe3_d70a_3d70_a3d7, // 0.62
            air_density: 0x3ff3_0a3d_70a3_d70a, // 1.19
            drag_area: 0x3ff2_6666_6666_6666, // 1.15
            lift_area: 0x4006_cccc_cccc_cccd, // 2.85
            aero_balance: 0x3fdd_70a3_d70a_3d71, // 0.46
            speed_floor: 0x3fe0_0000_0000_0000, // 0.5
            omega_epsilon: 0x3ff8_0000_0000_0000, // 1.5
        }
    }
}

impl ReducedParams {
    pub open spec fn base<F: Fn(Operation) -> Scalar>(self, unit: &F) -> Scalar {
        plus(unit, self.a, self.b)
    }

    /// Longitudinal position of a corner relative to the CG, +x forward.
    pub open spec fn ahead(self, corner: int) -> Scalar {
        if corner < 2 {
            self.a
        } else {
            negate(self.b)
        }
    }

    /// Lateral position of a corner relative to the CG, +y to the left.
    pub open spec fn aside<F: Fn(Operation) -> Scalar>(self, unit: &F, corner: int) -> Scalar {
        let half = times(
            unit,
            if corner < 2 {
                self.track_front
            } else {
                self.track_rear
            },
            HALF,
        );
        if corner == 0 || corner == 2 {
            half
        } else {
            negate(half)
        }
    }

    /// Share of the weight on a corner's axle.
    pub open spec fn axle_share<F: Fn(Operation) -> Scalar>(self, unit: &F, corner: int) -> Scalar {
        if corner < 2 {
            over(unit, self.b, self.base(unit))
        } else {
            over(unit, self.a, self.base(unit))
        }
    }

    /// Vertical load on a corner at rest.
    pub open spec fn resting<F: Fn(Operation) -> Scalar>(self, unit: &F, corner: int) -> Scalar {
        times(
            unit,
            times(unit, times(unit, HALF, self.mass), GRAVITY),
            self.axle_share(unit, corner),
        )
    }

    pub open spec fn spring(self, corner: int) -> Scalar {
        if corner < 2 {
            self.wheel_rate_front
        } else {
            self.wheel_rate_rear
        }
    }

    pub open spec fn damper(self, corner: int) -> Scalar {
        if corner < 2 {
            self.damping_front
        } else {
            self.damping_rear
        }
    }

    pub fn wheelbase<F: Fn(Operation) -> Scalar>(&self, unit: &F) -> (base: Scalar)
        requires
            arith::functional(*unit),
        ensures
            base == self.base(unit),
    {
        plus(unit, self.a, self.b)
    }

    /// Longitudinal position of each corner relative to the CG, +x forward.
    pub fn corner_x(&self, corner: usize) -> (x: Scalar)
        ensures
            x == self.ahead(corner as int),
    {
        if corner < RL {
            self.a
        } else {
            negate(self.b)
        }
    }

    /// Lateral position of each corner relative to the CG, +y to the left.
    pub fn corner_y<F: Fn(Operation) -> Scalar>(&self, unit: &F, corner: usize) -> (y: Scalar)
        requires
            arith::functional(*unit),
        ensures
            y == self.aside(unit, corner as int),
    {
        let track: Scalar = if corner < RL {
            self.track_front
        } else {
            self.track_rear
        };
        let half: Scalar = times(unit, track, HALF);
        if corner == FL || corner == RL {
            half
        } else {
            negate(half)
        }
    }

    pub fn is_front(&self, corner: usize) -> (answer: bool)
        ensures
            answer == (corner < 2),
    {
        corner < RL
    }

    pub fn wheel_rate(&self, corner: usize) -> (rate: Scalar)
        ensures
            rate == self.spring(corner as int),
    {
        if self.is_front(corner) {
            self.wheel_rate_front
        } else {
            self.wheel_rate_rear
        }
    }

    pub fn damping(&self, corner: usize) -> (rate: Scalar)
        ensures
            rate == self.damper(corner as int),
    {
        if self.is_front(corner) {
            self.damping_front
        } else {
            self.damping_rear
        }
    }

    /// Static vertical load per corner, before any transfer or downforce.
    pub fn static_load<F: Fn(Operation) -> Scalar>(&self, unit: &F, corner: usize) -> (load: Scalar)
        requires
            arith::functional(*unit),
        ensures
            load == self.resting(unit, corner as int),
    {
        let axle_share: Scalar = if self.is_front(corner) {
            over(unit, self.b, self.wheelbase(unit))
        } else {
            over(unit, self.a, self.wheelbase(unit))
        };
        times(unit, times(unit, times(unit, HALF, self.mass), GRAVITY), axle_share)
    }
}

} // verus!
