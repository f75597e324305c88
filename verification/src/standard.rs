//! What the standard rig is set to, in numbers.

use vstd::arithmetic::power2::*;
use vstd::prelude::*;

use crate::arith::{remaining, Operation};
use crate::generated::frames;
use crate::io::device::Calibration;
use crate::io::ffb::FfbConfig;
use crate::io::input_shaper::ShaperConfig;
use crate::io::watchdog::WatchdogConfig;
use crate::numbers;
use crate::numbers::{nearly, number};
use crate::plant::ladder;
use crate::plant::reduced::params::ReducedParams;
use crate::plant::reduced::tire::TireParams;
use crate::scalar;
use crate::scalar::{is_finite, Scalar, ZERO};

verus! {

/// The standard car: its masses in kilograms, its lengths in metres.
pub proof fn law_the_standard_car_is_a_small_racer()
    ensures
        ({
            let p = ReducedParams::standard();
            &&& nearly(p.mass, 280real)
            &&& nearly(p.sprung_mass, 1132real / 5real)
            &&& nearly(p.unsprung_mass, 67real / 5real)
            &&& nearly(p.inertia_roll, 35real)
            &&& nearly(p.inertia_pitch, 90real)
            &&& nearly(p.inertia_yaw, 105real)
            &&& nearly(p.a, 39real / 50real)
            &&& nearly(p.b, 77real / 100real)
            &&& nearly(p.track_front, 61real / 50real)
            &&& nearly(p.track_rear, 59real / 50real)
            &&& nearly(p.cg_height, 3real / 10real)
            &&& nearly(p.roll_centre_front, 9real / 200real)
            &&& nearly(p.roll_centre_rear, 3real / 40real)
            &&& nearly(p.pitch_centre, 1real / 10real)
            &&& nearly(p.wheel_rate_front, 32000real)
            &&& nearly(p.wheel_rate_rear, 36000real)
            &&& nearly(p.damping_front, 2600real)
            &&& nearly(p.damping_rear, 2900real)
            &&& nearly(p.arb_front, 14000real)
        }),
{
    let p = ReducedParams::standard();
    lemma2_to64();
    lemma2_to64_rest();
    numbers::lemma_unrounded(ZERO);
    numbers::lemma_word(p.mass, 0x11_8000_0000_0000, 1031, 44, 17592186044416);
    numbers::lemma_word(p.sprung_mass, 0x1c_4ccc_cccc_cccd, 1030, 45, 35184372088832);
    numbers::lemma_word(p.unsprung_mass, 0x1a_cccc_cccc_cccd, 1026, 49, 562949953421312);
    numbers::lemma_word(p.inertia_roll, 0x11_8000_0000_0000, 1028, 47, 140737488355328);
    numbers::lemma_word(p.inertia_pitch, 0x16_8000_0000_0000, 1029, 46, 70368744177664);
    numbers::lemma_word(p.inertia_yaw, 0x1a_4000_0000_0000, 1029, 46, 70368744177664);
    numbers::lemma_word(p.a, 0x18_f5c2_8f5c_28f6, 1022, 53, 9007199254740992);
    numbers::lemma_word(p.b, 0x18_a3d7_0a3d_70a4, 1022, 53, 9007199254740992);
    numbers::lemma_word(p.track_front, 0x13_851e_b851_eb85, 1023, 52, 4503599627370496);
    numbers::lemma_word(p.track_rear, 0x12_e147_ae14_7ae1, 1023, 52, 4503599627370496);
    numbers::lemma_word(p.cg_height, 0x13_3333_3333_3333, 1021, 54, 18014398509481984);
    numbers::lemma_word(p.roll_centre_front, 0x17_0a3d_70a3_d70a, 1018, 57, 144115188075855872);
    numbers::lemma_word(p.roll_centre_rear, 0x13_3333_3333_3333, 1019, 56, 72057594037927936);
    numbers::lemma_word(p.pitch_centre, 0x19_9999_9999_999a, 1019, 56, 72057594037927936);
    numbers::lemma_word(p.wheel_rate_front, 0x1f_4000_0000_0000, 1037, 38, 274877906944);
    numbers::lemma_word(p.wheel_rate_rear, 0x11_9400_0000_0000, 1038, 37, 137438953472);
    numbers::lemma_word(p.damping_front, 0x14_5000_0000_0000, 1034, 41, 2199023255552);
    numbers::lemma_word(p.damping_rear, 0x16_a800_0000_0000, 1034, 41, 2199023255552);
    numbers::lemma_word(p.arb_front, 0x1b_5800_0000_0000, 1036, 39, 549755813888);
}

/// The standard car: its tires, its steering, its motor, its brakes and its air.
pub proof fn law_the_standard_car_is_driven_and_braked()
    ensures
        ({
            let p = ReducedParams::standard();
            &&& nearly(p.arb_rear, 9000real)
            &&& nearly(p.wheel_radius, 1143real / 5000real)
            &&& nearly(p.wheel_inertia, 7real / 25real)
            &&& nearly(p.tire_vertical_rate, 118000real)
            &&& nearly(p.tire_vertical_damping, 550real)
            &&& nearly(p.steer_ratio, 4real)
            &&& nearly(p.mechanical_trail, 21real / 1000real)
            &&& nearly(p.steer_efficiency, 23real / 25real)
            &&& nearly(p.rack_limit, 11real / 5real)
            &&& nearly(p.motor_peak_torque, 230real)
            &&& nearly(p.motor_corner_speed, 380real)
            &&& nearly(p.motor_max_speed, 1150real)
            &&& nearly(p.final_drive, 17real / 5real)
            &&& nearly(p.diff_lock_gain, 6real)
            &&& nearly(p.diff_preload, 25real)
            &&& nearly(p.brake_torque_max, 2400real)
            &&& nearly(p.brake_bias, 31real / 50real)
            &&& nearly(p.air_density, 119real / 100real)
            &&& nearly(p.drag_area, 23real / 20real)
            &&& nearly(p.lift_area, 57real / 20real)
            &&& nearly(p.aero_balance, 23real / 50real)
            &&& nearly(p.speed_floor, 1real / 2real)
            &&& nearly(p.omega_epsilon, 3real / 2real)
        }),
{
    let p = ReducedParams::standard();
    lemma2_to64();
    lemma2_to64_rest();
    numbers::lemma_unrounded(ZERO);
    numbers::lemma_word(p.arb_rear, 0x11_9400_0000_0000, 1036, 39, 549755813888);
    numbers::lemma_word(p.wheel_radius, 0x1d_42c3_c9ee_cbfb, 1020, 55, 36028797018963968);
    numbers::lemma_word(p.wheel_inertia, 0x11_eb85_1eb8_51ec, 1021, 54, 18014398509481984);
    numbers::lemma_word(p.tire_vertical_rate, 0x1c_cf00_0000_0000, 1039, 36, 68719476736);
    numbers::lemma_word(p.tire_vertical_damping, 0x11_3000_0000_0000, 1032, 43, 8796093022208);
    numbers::lemma_word(p.steer_ratio, 0x10_0000_0000_0000, 1025, 50, 1125899906842624);
    numbers::lemma_word(p.mechanical_trail, 0x15_8106_24dd_2f1b, 1017, 58, 288230376151711744);
    numbers::lemma_word(p.steer_efficiency, 0x1d_70a3_d70a_3d71, 1022, 53, 9007199254740992);
    numbers::lemma_word(p.rack_limit, 0x11_9999_9999_999a, 1024, 51, 2251799813685248);
    numbers::lemma_word(p.motor_peak_torque, 0x1c_c000_0000_0000, 1030, 45, 35184372088832);
    numbers::lemma_word(p.motor_corner_speed, 0x17_c000_0000_0000, 1031, 44, 17592186044416);
    numbers::lemma_word(p.motor_max_speed, 0x11_f800_0000_0000, 1033, 42, 4398046511104);
    numbers::lemma_word(p.final_drive, 0x1b_3333_3333_3333, 1024, 51, 2251799813685248);
    numbers::lemma_word(p.diff_lock_gain, 0x18_0000_0000_0000, 1025, 50, 1125899906842624);
    numbers::lemma_word(p.diff_preload, 0x19_0000_0000_0000, 1027, 48, 281474976710656);
    numbers::lemma_word(p.brake_torque_max, 0x12_c000_0000_0000, 1034, 41, 2199023255552);
    numbers::lemma_word(p.brake_bias, 0x13_d70a_3d70_a3d7, 1022, 53, 9007199254740992);
    numbers::lemma_word(p.air_density, 0x13_0a3d_70a3_d70a, 1023, 52, 4503599627370496);
    numbers::lemma_word(p.drag_area, 0x12_6666_6666_6666, 1023, 52, 4503599627370496);
    numbers::lemma_word(p.lift_area, 0x16_cccc_cccc_cccd, 1024, 51, 2251799813685248);
    numbers::lemma_word(p.aero_balance, 0x1d_70a3_d70a_3d71, 1021, 54, 18014398509481984);
    numbers::lemma_word(p.speed_floor, 0x10_0000_0000_0000, 1022, 53, 9007199254740992);
    numbers::lemma_word(p.omega_epsilon, 0x18_0000_0000_0000, 1023, 52, 4503599627370496);
}

/// The standard tire.
pub proof fn law_the_standard_tire_is_a_slick()
    ensures
        ({
            let p = TireParams::standard();
            &&& nearly(p.b_lat, 11real)
            &&& nearly(p.c_lat, 29real / 20real)
            &&& nearly(p.e_lat, -1real / 2real)
            &&& nearly(p.b_long, 59real / 5real)
            &&& nearly(p.c_long, 31real / 20real)
            &&& nearly(p.e_long, -2real / 5real)
            &&& nearly(p.mu_lat, 31real / 20real)
            &&& nearly(p.mu_long, 8real / 5real)
            &&& nearly(p.reference_load, 700real)
            &&& nearly(p.load_sensitivity, 11real / 50real)
            &&& nearly(p.relaxation_lateral, 7real / 25real)
            &&& nearly(p.relaxation_longitudinal, 9real / 50real)
            &&& nearly(p.pneumatic_trail, 7real / 250real)
        }),
{
    let p = TireParams::standard();
    lemma2_to64();
    lemma2_to64_rest();
    numbers::lemma_unrounded(ZERO);
    numbers::lemma_word(p.b_lat, 0x16_0000_0000_0000, 1026, 49, 562949953421312);
    numbers::lemma_word(p.c_lat, 0x17_3333_3333_3333, 1023, 52, 4503599627370496);
    numbers::lemma_unrounded(0x3fe0_0000_0000_0000);
    assert(scalar::negation(0x3fe0_0000_0000_0000) == p.e_lat);
    numbers::lemma_word(0x3fe0_0000_0000_0000, 0x10_0000_0000_0000, 1022, 53, 9007199254740992);
    numbers::lemma_word(p.b_long, 0x17_9999_9999_999a, 1026, 49, 562949953421312);
    numbers::lemma_word(p.c_long, 0x18_cccc_cccc_cccd, 1023, 52, 4503599627370496);
    numbers::lemma_unrounded(0x3fd9_9999_9999_999a);
    assert(scalar::negation(0x3fd9_9999_9999_999a) == p.e_long);
    numbers::lemma_word(0x3fd9_9999_9999_999a, 0x19_9999_9999_999a, 1021, 54, 18014398509481984);
    numbers::lemma_word(p.mu_lat, 0x18_cccc_cccc_cccd, 1023, 52, 4503599627370496);
    numbers::lemma_word(p.mu_long, 0x19_9999_9999_999a, 1023, 52, 4503599627370496);
    numbers::lemma_word(p.reference_load, 0x15_e000_0000_0000, 1032, 43, 8796093022208);
    numbers::lemma_word(p.load_sensitivity, 0x1c_28f5_c28f_5c29, 1020, 55, 36028797018963968);
    numbers::lemma_word(p.relaxation_lateral, 0x11_eb85_1eb8_51ec, 1021, 54, 18014398509481984);
    numbers::lemma_word(p.relaxation_longitudinal, 0x17_0a3d_70a3_d70a, 1020, 55, 36028797018963968);
    numbers::lemma_word(p.pneumatic_trail, 0x1c_ac08_3126_e979, 1017, 58, 288230376151711744);
}

/// The standard calibration: 270 degrees of wheel, and dead travel at the ends of the pedals.
pub proof fn law_the_standard_calibration_leaves_dead_travel()
    ensures
        ({
            let p = Calibration::standard();
            &&& nearly(p.wheel_range, 471238898038469real / 100000000000000real)
            &&& nearly(p.steer_deadband, 0real)
            &&& nearly(p.accelerator_floor, 1real / 50real)
            &&& nearly(p.accelerator_ceiling, 49real / 50real)
            &&& nearly(p.brake_floor, 1real / 50real)
            &&& nearly(p.brake_ceiling, 19real / 20real)
            &&& nearly(p.brake_gamma, 1real)
        }),
{
    let p = Calibration::standard();
    lemma2_to64();
    lemma2_to64_rest();
    numbers::lemma_unrounded(ZERO);
    numbers::lemma_word(p.wheel_range, 0x12_d97c_7f33_21d2, 1025, 50, 1125899906842624);
    numbers::lemma_word(p.accelerator_floor, 0x14_7ae1_47ae_147b, 1017, 58, 288230376151711744);
    numbers::lemma_word(p.accelerator_ceiling, 0x1f_5c28_f5c2_8f5c, 1022, 53, 9007199254740992);
    numbers::lemma_word(p.brake_floor, 0x14_7ae1_47ae_147b, 1017, 58, 288230376151711744);
    numbers::lemma_word(p.brake_ceiling, 0x1e_6666_6666_6666, 1022, 53, 9007199254740992);
}

/// The standard feedback: unit gain, eight newton-metres at most.
pub proof fn law_the_standard_feedback_is_gentle()
    ensures
        ({
            let p = FfbConfig::standard();
            &&& nearly(p.gain, 1real)
            &&& nearly(p.torque_limit_nm, 8real)
            &&& nearly(p.slew_limit_nm_per_s, 600real)
            &&& nearly(p.end_stop_start_rad, 11real / 5real)
            &&& nearly(p.end_stop_rate, 12real)
            &&& nearly(p.damper_coeff, 1real / 50real)
        }),
{
    let p = FfbConfig::standard();
    lemma2_to64();
    lemma2_to64_rest();
    numbers::lemma_unrounded(ZERO);
    numbers::lemma_word(p.torque_limit_nm, 0x10_0000_0000_0000, 1026, 49, 562949953421312);
    numbers::lemma_word(p.slew_limit_nm_per_s, 0x12_c000_0000_0000, 1032, 43, 8796093022208);
    numbers::lemma_word(p.end_stop_start_rad, 0x11_9999_9999_999a, 1024, 51, 2251799813685248);
    numbers::lemma_word(p.end_stop_rate, 0x18_0000_0000_0000, 1026, 49, 562949953421312);
    numbers::lemma_word(p.damper_coeff, 0x14_7ae1_47ae_147b, 1017, 58, 288230376151711744);
}

/// The standard shaper: forty hertz.
pub proof fn law_the_standard_shaper_is_quick()
    ensures
        ({
            let p = ShaperConfig::standard();
            &&& nearly(p.cutoff_hz, 40real)
        }),
{
    let p = ShaperConfig::standard();
    lemma2_to64();
    lemma2_to64_rest();
    numbers::lemma_unrounded(ZERO);
    numbers::lemma_word(p.cutoff_hz, 0x14_0000_0000_0000, 1028, 47, 140737488355328);
}

/// The standard watchdog: fifty milliseconds of ramp.
pub proof fn law_the_standard_watchdog_ramps_briefly()
    ensures
        ({
            let p = WatchdogConfig::standard();
            &&& nearly(p.ramp_ms, 50real)
        }),
{
    let p = WatchdogConfig::standard();
    lemma2_to64();
    lemma2_to64_rest();
    numbers::lemma_unrounded(ZERO);
    numbers::lemma_word(p.ramp_ms, 0x19_0000_0000_0000, 1028, 47, 140737488355328);
}

/// A tunable moves between the ends it is published with: bars from nothing to eighty
/// thousand, the brake bias from four tenths to eight tenths, the preload from nothing
/// to a hundred and fifty.
pub proof fn law_tunables_have_their_ranges()
    ensures
        nearly(frames::tunable_min(frames::FRONT_ARB_RATE as int), 0real),
        nearly(frames::tunable_max(frames::FRONT_ARB_RATE as int), 80000real),
        nearly(frames::tunable_min(frames::REAR_ARB_RATE as int), 0real),
        nearly(frames::tunable_max(frames::REAR_ARB_RATE as int), 80000real),
        nearly(frames::tunable_min(frames::BRAKE_BIAS as int), 4real / 10real),
        nearly(frames::tunable_max(frames::BRAKE_BIAS as int), 8real / 10real),
        nearly(frames::tunable_min(frames::DIFF_PRELOAD as int), 0real),
        nearly(frames::tunable_max(frames::DIFF_PRELOAD as int), 150real),
{
    lemma2_to64();
    lemma2_to64_rest();
    numbers::lemma_unrounded(ZERO);
    numbers::lemma_word(0x40f3_8800_0000_0000, 0x13_8800_0000_0000, 1039, 36, 68719476736);
    numbers::lemma_word(0x3fd9_9999_9999_999a, 0x19_9999_9999_999a, 1021, 54, 18014398509481984);
    numbers::lemma_word(0x3fe9_9999_9999_999a, 0x19_9999_9999_999a, 1022, 53, 9007199254740992);
    numbers::lemma_word(0x4062_c000_0000_0000, 0x12_c000_0000_0000, 1030, 45, 35184372088832);
}

/// The maneuver: two seconds of full throttle, a second of steering under part
/// throttle, a second and a half of hard braking, and a steady turn to the end of
/// the lap of eight. Nobody brakes and accelerates at once.
pub proof fn law_the_maneuver_starts_steers_brakes_and_turns<F: Fn(Operation) -> Scalar>(
    unit: &F,
    t: Scalar,
    phase: Scalar,
)
    requires
        phase == remaining(unit, t, ladder::LAP),
        is_finite(phase),
    ensures
        number(ladder::LAP) == 8real,
        ({
            let input = ladder::driven(unit, t);
            let at = number(phase);
            let (steer, go, stop) = if at < 2real {
                (0real, 1real, 0real)
            } else if at < 3real {
                (35real / 100real, 4real / 10real, 0real)
            } else if at < 9real / 2real {
                (0real, 0real, 9real / 10real)
            } else {
                (1real / 4real, 35real / 100real, 0real)
            };
            &&& nearly(input.steering_angle_command, steer)
            &&& nearly(input.accelerator_pedal_command, go)
            &&& nearly(input.brake_pedal_command, stop)
        }),
{
    lemma2_to64();
    lemma2_to64_rest();
    numbers::lemma_unrounded(ZERO);
    numbers::lemma_word(0x4020_0000_0000_0000, 0x10_0000_0000_0000, 1026, 49, 562949953421312);
    numbers::lemma_word(0x4000_0000_0000_0000, 0x10_0000_0000_0000, 1024, 51, 2251799813685248);
    numbers::lemma_word(0x4008_0000_0000_0000, 0x18_0000_0000_0000, 1024, 51, 2251799813685248);
    numbers::lemma_word(0x4012_0000_0000_0000, 0x12_0000_0000_0000, 1025, 50, 1125899906842624);
    numbers::lemma_word(0x3fd6_6666_6666_6666, 0x16_6666_6666_6666, 1021, 54, 18014398509481984);
    numbers::lemma_word(0x3fd9_9999_9999_999a, 0x19_9999_9999_999a, 1021, 54, 18014398509481984);
    numbers::lemma_word(0x3fec_cccc_cccc_cccd, 0x1c_cccc_cccc_cccd, 1022, 53, 9007199254740992);
    numbers::lemma_word(0x3fd0_0000_0000_0000, 0x10_0000_0000_0000, 1021, 54, 18014398509481984);
    numbers::lemma_number_order(phase, 0x4000_0000_0000_0000);
    numbers::lemma_number_order(phase, 0x4008_0000_0000_0000);
    numbers::lemma_number_order(phase, 0x4012_0000_0000_0000);
}

} // verus!
