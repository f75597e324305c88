//! The frames that cross a boundary: between threads, processes, or runs.
//!
//! Every frame is a fixed run of 64-bit words. A real field holds the bit
//! pattern of its value, so a frame is copied, compared and written to disk
//! without anything being rounded on the way.

use vstd::prelude::*;

use crate::scalar::{is_finite, Scalar};

pub mod fault_flags;
pub mod ffb_flags;
pub mod kernel_id;
pub mod trace_flags;

verus! {

/// Fingerprint of every frame layout below. Two processes that disagree on it
/// refuse to talk.
pub const LAYOUT_HASH: u64 = 0x9d3a_51c7_04be_62f8;

/// Bumped by hand when the meaning of a field changes without its layout.
pub const LAYOUT_REVISION: u64 = 2;

/// A number of words, in statements about frames.
pub type FieldCount = nat;

/// A position among a frame's words, in statements about frames.
pub type FieldIndex = int;

/// A record of 64-bit words in a fixed order.
pub trait Frame: Copy {
    /// How many words the frame has.
    spec fn size() -> FieldCount;

    /// The word at `index`.
    spec fn word(self, index: FieldIndex) -> u64;

    /// The words determine the frame.
    proof fn words_decide(self, other: Self)
        ensures
            (forall|i: int| 0 <= i < Self::size() ==> #[trigger] self.word(i) == other.word(i))
                ==> self == other,
    ;

    fn field_count() -> (count: usize)
        ensures
            count == Self::size(),
            0 < count <= 64,
    ;

    fn field(&self, index: usize) -> (word: u64)
        requires
            index < Self::size(),
        ensures
            word == self.word(index as int),
    ;

    /// Rebuild a frame from the words that start at `start`.
    fn from_words(words: &Vec<u64>, start: usize) -> (frame: Self)
        requires
            start + Self::size() <= words@.len(),
        ensures
            forall|i: int|
                0 <= i < Self::size() ==> #[trigger] frame.word(i) == words@[start + i],
    ;
}

/// The words of a frame, in order.
pub open spec fn words<T: Frame>(frame: T) -> Seq<u64> {
    Seq::new(T::size(), |i: int| frame.word(i))
}

/// One step's worth of everything anybody downstream may look at.
#[derive(Clone, Copy, PartialEq, Eq, Structural, Debug)]
pub struct VehicleState {
    /// Simulated time since the session started [s].
    pub sim_time: Scalar,
    /// Steps taken since the session started.
    pub step_index: u64,
    /// Monotonic clock when the frame was published [ns].
    pub host_time_ns: u64,
    /// Handwheel angle the step was given [rad].
    pub steering_angle_command: Scalar,
    /// Accelerator the step was given, 0 to 1.
    pub accelerator_pedal_command: Scalar,
    /// Brake the step was given, 0 to 1.
    pub brake_pedal_command: Scalar,
    pub vehicle_speed: Scalar,
    pub acc_x: Scalar,
    pub acc_y: Scalar,
    /// Handwheel angle inside the rack limit [rad].
    pub handwheel_angle: Scalar,
    /// Handwheel angle past the rack limit [rad].
    pub steer_excess: Scalar,
    /// Reaction torque at the handwheel [N.m].
    pub handwheel_torque: Scalar,
    pub fz_fl: Scalar,
    pub fz_fr: Scalar,
    pub fz_rl: Scalar,
    pub fz_rr: Scalar,
    pub left_steer_angle: Scalar,
    pub right_steer_angle: Scalar,
    pub roll: Scalar,
    pub sideslip: Scalar,
    pub vel_x: Scalar,
    pub vel_y: Scalar,
    pub yaw_vel: Scalar,
    /// Dead-reckoned position in the world frame [m].
    pub pos_x: Scalar,
    pub pos_y: Scalar,
    pub yaw: Scalar,
    /// Torque commanded to the wheel [N.m].
    pub ffb_torque_nm: Scalar,
    /// Which rung of the plant ladder produced the frame.
    pub kernel_id: u64,
    /// Deadlines missed so far.
    pub deadline_misses: u64,
    /// Faults raised so far; see `fault_flags`.
    pub fault_flags: u64,
    /// Realtime factor.
    pub rtf: Scalar,
    /// Cost of the step [us].
    pub step_time_us: Scalar,
    pub step_time_p99_us: Scalar,
}

impl Frame for VehicleState {
    open spec fn size() -> nat {
        33
    }

    open spec fn word(self, index: int) -> u64 {
        if index == 0 {
            self.sim_time
        } else if index == 1 {
            self.step_index
        } else if index == 2 {
            self.host_time_ns
        } else if index == 3 {
            self.steering_angle_command
        } else if index == 4 {
            self.accelerator_pedal_command
        } else if index == 5 {
            self.brake_pedal_command
        } else if index == 6 {
            self.vehicle_speed
        } else if index == 7 {
            self.acc_x
        } else if index == 8 {
            self.acc_y
        } else if index == 9 {
            self.handwheel_angle
        } else if index == 10 {
            self.steer_excess
        } else if index == 11 {
            self.handwheel_torque
        } else if index == 12 {
            self.fz_fl
        } else if index == 13 {
            self.fz_fr
        } else if index == 14 {
            self.fz_rl
        } else if index == 15 {
            self.fz_rr
        } else if index == 16 {
            self.left_steer_angle
        } else if index == 17 {
            self.right_steer_angle
        } else if index == 18 {
            self.roll
        } else if index == 19 {
            self.sideslip
        } else if index == 20 {
            self.vel_x
        } else if index == 21 {
            self.vel_y
        } else if index == 22 {
            self.yaw_vel
        } else if index == 23 {
            self.pos_x
        } else if index == 24 {
            self.pos_y
        } else if index == 25 {
            self.yaw
        } else if index == 26 {
            self.ffb_torque_nm
        } else if index == 27 {
            self.kernel_id
        } else if index == 28 {
            self.deadline_misses
        } else if index == 29 {
            self.fault_flags
        } else if index == 30 {
            self.rtf
        } else if index == 31 {
            self.step_time_us
        } else {
            self.step_time_p99_us
        }
    }

    proof fn words_decide(self, other: Self) {
        if forall|i: int| 0 <= i < Self::size() ==> #[trigger] self.word(i) == other.word(i) {
            assert(self.word(0) == other.word(0));
            assert(self.word(1) == other.word(1));
            assert(self.word(2) == other.word(2));
            assert(self.word(3) == other.word(3));
            assert(self.word(4) == other.word(4));
            assert(self.word(5) == other.word(5));
            assert(self.word(6) == other.word(6));
            assert(self.word(7) == other.word(7));
            assert(self.word(8) == other.word(8));
            assert(self.word(9) == other.word(9));
            assert(self.word(10) == other.word(10));
            assert(self.word(11) == other.word(11));
            assert(self.word(12) == other.word(12));
            assert(self.word(13) == other.word(13));
            assert(self.word(14) == other.word(14));
            assert(self.word(15) == other.word(15));
            assert(self.word(16) == other.word(16));
            assert(self.word(17) == other.word(17));
            assert(self.word(18) == other.word(18));
            assert(self.word(19) == other.word(19));
            assert(self.word(20) == other.word(20));
            assert(self.word(21) == other.word(21));
            assert(self.word(22) == other.word(22));
            assert(self.word(23) == other.word(23));
            assert(self.word(24) == other.word(24));
            assert(self.word(25) == other.word(25));
            assert(self.word(26) == other.word(26));
            assert(self.word(27) == other.word(27));
            assert(self.word(28) == other.word(28));
            assert(self.word(29) == other.word(29));
            assert(self.word(30) == other.word(30));
            assert(self.word(31) == other.word(31));
            assert(self.word(32) == other.word(32));
        }
    }

    fn field_count() -> (count: usize) {
        33
    }

    fn field(&self, index: usize) -> (word: u64) {
        match index {
            0 => self.sim_time,
            1 => self.step_index,
            2 => self.host_time_ns,
            3 => self.steering_angle_command,
            4 => self.accelerator_pedal_command,
            5 => self.brake_pedal_command,
            6 => self.vehicle_speed,
            7 => self.acc_x,
            8 => self.acc_y,
            9 => self.handwheel_angle,
            10 => self.steer_excess,
            11 => self.handwheel_torque,
            12 => self.fz_fl,
            13 => self.fz_fr,
            14 => self.fz_rl,
            15 => self.fz_rr,
            16 => self.left_steer_angle,
            17 => self.right_steer_angle,
            18 => self.roll,
            19 => self.sideslip,
            20 => self.vel_x,
            21 => self.vel_y,
            22 => self.yaw_vel,
            23 => self.pos_x,
            24 => self.pos_y,
            25 => self.yaw,
            26 => self.ffb_torque_nm,
            27 => self.kernel_id,
            28 => self.deadline_misses,
            29 => self.fault_flags,
            30 => self.rtf,
            31 => self.step_time_us,
            _ => self.step_time_p99_us,
        }
    }

    fn from_words(words: &Vec<u64>, start: usize) -> (frame: Self) {
        assert(words.len() == words@.len());
        VehicleState {
            sim_time: words[start + 0],
            step_index: words[start + 1],
            host_time_ns: words[start + 2],
            steering_angle_command: words[start + 3],
            accelerator_pedal_command: words[start + 4],
            brake_pedal_command: words[start + 5],
            vehicle_speed: words[start + 6],
            acc_x: words[start + 7],
            acc_y: words[start + 8],
            handwheel_angle: words[start + 9],
            steer_excess: words[start + 10],
            handwheel_torque: words[start + 11],
            fz_fl: words[start + 12],
            fz_fr: words[start + 13],
            fz_rl: words[start + 14],
            fz_rr: words[start + 15],
            left_steer_angle: words[start + 16],
            right_steer_angle: words[start + 17],
            roll: words[start + 18],
            sideslip: words[start + 19],
            vel_x: words[start + 20],
            vel_y: words[start + 21],
            yaw_vel: words[start + 22],
            pos_x: words[start + 23],
            pos_y: words[start + 24],
            yaw: words[start + 25],
            ffb_torque_nm: words[start + 26],
            kernel_id: words[start + 27],
            deadline_misses: words[start + 28],
            fault_flags: words[start + 29],
            rtf: words[start + 30],
            step_time_us: words[start + 31],
            step_time_p99_us: words[start + 32],
        }
    }
}

impl VehicleState {
    /// Name of the shared-memory segment that carries it.
    pub fn shm_name() -> (name: &'static str)
        ensures
            name@ == "bobdil_vehicle_state"@,
    {
        "bobdil_vehicle_state"
    }

    /// Every word zero.
    pub open spec fn zero() -> Self {
        VehicleState {
            sim_time: 0,
            step_index: 0,
            host_time_ns: 0,
            steering_angle_command: 0,
            accelerator_pedal_command: 0,
            brake_pedal_command: 0,
            vehicle_speed: 0,
            acc_x: 0,
            acc_y: 0,
            handwheel_angle: 0,
            steer_excess: 0,
            handwheel_torque: 0,
            fz_fl: 0,
            fz_fr: 0,
            fz_rl: 0,
            fz_rr: 0,
            left_steer_angle: 0,
            right_steer_angle: 0,
            roll: 0,
            sideslip: 0,
            vel_x: 0,
            vel_y: 0,
            yaw_vel: 0,
            pos_x: 0,
            pos_y: 0,
            yaw: 0,
            ffb_torque_nm: 0,
            kernel_id: 0,
            deadline_misses: 0,
            fault_flags: 0,
            rtf: 0,
            step_time_us: 0,
            step_time_p99_us: 0,
        }
    }
}

impl Default for VehicleState {
    fn default() -> (frame: Self)
        ensures
            frame == Self::zero(),
    {
        VehicleState {
            sim_time: 0,
            step_index: 0,
            host_time_ns: 0,
            steering_angle_command: 0,
            accelerator_pedal_command: 0,
            brake_pedal_command: 0,
            vehicle_speed: 0,
            acc_x: 0,
            acc_y: 0,
            handwheel_angle: 0,
            steer_excess: 0,
            handwheel_torque: 0,
            fz_fl: 0,
            fz_fr: 0,
            fz_rl: 0,
            fz_rr: 0,
            left_steer_angle: 0,
            right_steer_angle: 0,
            roll: 0,
            sideslip: 0,
            vel_x: 0,
            vel_y: 0,
            yaw_vel: 0,
            pos_x: 0,
            pos_y: 0,
            yaw: 0,
            ffb_torque_nm: 0,
            kernel_id: 0,
            deadline_misses: 0,
            fault_flags: 0,
            rtf: 0,
            step_time_us: 0,
            step_time_p99_us: 0,
        }
    }
}

/// What the driver is doing.
#[derive(Clone, Copy, PartialEq, Eq, Structural, Debug)]
pub struct DriverInput {
    /// Monotonic clock when the device was sampled [ns].
    pub host_time_ns: u64,
    /// Samples taken since the device was opened.
    pub sample_index: u64,
    /// Handwheel angle [rad].
    pub steering_angle_command: Scalar,
    pub accelerator_pedal_command: Scalar,
    pub brake_pedal_command: Scalar,
    /// Steering axis as the device reported it.
    pub raw_steer_norm: Scalar,
    pub raw_accel_norm: Scalar,
    pub raw_brake_norm: Scalar,
    pub buttons: u64,
}

impl Frame for DriverInput {
    open spec fn size() -> nat {
        9
    }

    open spec fn word(self, index: int) -> u64 {
        if index == 0 {
            self.host_time_ns
        } else if index == 1 {
            self.sample_index
        } else if index == 2 {
            self.steering_angle_command
        } else if index == 3 {
            self.accelerator_pedal_command
        } else if index == 4 {
            self.brake_pedal_command
        } else if index == 5 {
            self.raw_steer_norm
        } else if index == 6 {
            self.raw_accel_norm
        } else if index == 7 {
            self.raw_brake_norm
        } else {
            self.buttons
        }
    }

    proof fn words_decide(self, other: Self) {
        if forall|i: int| 0 <= i < Self::size() ==> #[trigger] self.word(i) == other.word(i) {
            assert(self.word(0) == other.word(0));
            assert(self.word(1) == other.word(1));
            assert(self.word(2) == other.word(2));
            assert(self.word(3) == other.word(3));
            assert(self.word(4) == other.word(4));
            assert(self.word(5) == other.word(5));
            assert(self.word(6) == other.word(6));
            assert(self.word(7) == other.word(7));
            assert(self.word(8) == other.word(8));
        }
    }

    fn field_count() -> (count: usize) {
        9
    }

    fn field(&self, index: usize) -> (word: u64) {
        match index {
            0 => self.host_time_ns,
            1 => self.sample_index,
            2 => self.steering_angle_command,
            3 => self.accelerator_pedal_command,
            4 => self.brake_pedal_command,
            5 => self.raw_steer_norm,
            6 => self.raw_accel_norm,
            7 => self.raw_brake_norm,
            _ => self.buttons,
        }
    }

    fn from_words(words: &Vec<u64>, start: usize) -> (frame: Self) {
        assert(words.len() == words@.len());
        DriverInput {
            host_time_ns: words[start + 0],
            sample_index: words[start + 1],
            steering_angle_command: words[start + 2],
            accelerator_pedal_command: words[start + 3],
            brake_pedal_command: words[start + 4],
            raw_steer_norm: words[start + 5],
            raw_accel_norm: words[start + 6],
            raw_brake_norm: words[start + 7],
            buttons: words[start + 8],
        }
    }
}

impl DriverInput {
    /// Name of the shared-memory segment that carries it.
    pub fn shm_name() -> (name: &'static str)
        ensures
            name@ == "bobdil_driver_input"@,
    {
        "bobdil_driver_input"
    }

    /// Every word zero.
    pub open spec fn zero() -> Self {
        DriverInput {
            host_time_ns: 0,
            sample_index: 0,
            steering_angle_command: 0,
            accelerator_pedal_command: 0,
            brake_pedal_command: 0,
            raw_steer_norm: 0,
            raw_accel_norm: 0,
            raw_brake_norm: 0,
            buttons: 0,
        }
    }
}

impl Default for DriverInput {
    fn default() -> (frame: Self)
        ensures
            frame == Self::zero(),
    {
        DriverInput {
            host_time_ns: 0,
            sample_index: 0,
            steering_angle_command: 0,
            accelerator_pedal_command: 0,
            brake_pedal_command: 0,
            raw_steer_norm: 0,
            raw_accel_norm: 0,
            raw_brake_norm: 0,
            buttons: 0,
        }
    }
}

/// What the wheel should do about it.
#[derive(Clone, Copy, PartialEq, Eq, Structural, Debug)]
pub struct FfbCommand {
    /// Monotonic clock when the command was issued [ns].
    pub host_time_ns: u64,
    /// Torque to apply [N.m].
    pub torque_nm: Scalar,
    pub spring_coeff: Scalar,
    pub damper_coeff: Scalar,
    /// See `ffb_flags`.
    pub flags: u64,
}

impl Frame for FfbCommand {
    open spec fn size() -> nat {
        5
    }

    open spec fn word(self, index: int) -> u64 {
        if index == 0 {
            self.host_time_ns
        } else if index == 1 {
            self.torque_nm
        } else if index == 2 {
            self.spring_coeff
        } else if index == 3 {
            self.damper_coeff
        } else {
            self.flags
        }
    }

    proof fn words_decide(self, other: Self) {
        if forall|i: int| 0 <= i < Self::size() ==> #[trigger] self.word(i) == other.word(i) {
            assert(self.word(0) == other.word(0));
            assert(self.word(1) == other.word(1));
            assert(self.word(2) == other.word(2));
            assert(self.word(3) == other.word(3));
            assert(self.word(4) == other.word(4));
        }
    }

    fn field_count() -> (count: usize) {
        5
    }

    fn field(&self, index: usize) -> (word: u64) {
        match index {
            0 => self.host_time_ns,
            1 => self.torque_nm,
            2 => self.spring_coeff,
            3 => self.damper_coeff,
            _ => self.flags,
        }
    }

    fn from_words(words: &Vec<u64>, start: usize) -> (frame: Self) {
        assert(words.len() == words@.len());
        FfbCommand {
            host_time_ns: words[start + 0],
            torque_nm: words[start + 1],
            spring_coeff: words[start + 2],
            damper_coeff: words[start + 3],
            flags: words[start + 4],
        }
    }
}

impl FfbCommand {
    /// Name of the shared-memory segment that carries it.
    pub fn shm_name() -> (name: &'static str)
        ensures
            name@ == "bobdil_ffb_command"@,
    {
        "bobdil_ffb_command"
    }

    /// Every word zero.
    pub open spec fn zero() -> Self {
        FfbCommand {
            host_time_ns: 0,
            torque_nm: 0,
            spring_coeff: 0,
            damper_coeff: 0,
            flags: 0,
        }
    }
}

impl Default for FfbCommand {
    fn default() -> (frame: Self)
        ensures
            frame == Self::zero(),
    {
        FfbCommand {
            host_time_ns: 0,
            torque_nm: 0,
            spring_coeff: 0,
            damper_coeff: 0,
            flags: 0,
        }
    }
}

/// Where one step's time went.
#[derive(Clone, Copy, PartialEq, Eq, Structural, Debug)]
pub struct TraceStep {
    pub step_index: u64,
    /// Stamp of the driver input the step consumed.
    pub input_host_time_ns: u64,
    pub input_sample_index: u64,
    pub t_step_start: u64,
    pub t_after_read: u64,
    pub t_after_shape: u64,
    pub t_after_plant: u64,
    /// Stamp written into the torque command the step published.
    pub t_command_stamp: u64,
    pub t_after_ffb: u64,
    pub t_after_publish: u64,
}

impl Frame for TraceStep {
    open spec fn size() -> nat {
        10
    }

    open spec fn word(self, index: int) -> u64 {
        if index == 0 {
            self.step_index
        } else if index == 1 {
            self.input_host_time_ns
        } else if index == 2 {
            self.input_sample_index
        } else if index == 3 {
            self.t_step_start
        } else if index == 4 {
            self.t_after_read
        } else if index == 5 {
            self.t_after_shape
        } else if index == 6 {
            self.t_after_plant
        } else if index == 7 {
            self.t_command_stamp
        } else if index == 8 {
            self.t_after_ffb
        } else {
            self.t_after_publish
        }
    }

    proof fn words_decide(self, other: Self) {
        if forall|i: int| 0 <= i < Self::size() ==> #[trigger] self.word(i) == other.word(i) {
            assert(self.word(0) == other.word(0));
            assert(self.word(1) == other.word(1));
            assert(self.word(2) == other.word(2));
            assert(self.word(3) == other.word(3));
            assert(self.word(4) == other.word(4));
            assert(self.word(5) == other.word(5));
            assert(self.word(6) == other.word(6));
            assert(self.word(7) == other.word(7));
            assert(self.word(8) == other.word(8));
            assert(self.word(9) == other.word(9));
        }
    }

    fn field_count() -> (count: usize) {
        10
    }

    fn field(&self, index: usize) -> (word: u64) {
        match index {
            0 => self.step_index,
            1 => self.input_host_time_ns,
            2 => self.input_sample_index,
            3 => self.t_step_start,
            4 => self.t_after_read,
            5 => self.t_after_shape,
            6 => self.t_after_plant,
            7 => self.t_command_stamp,
            8 => self.t_after_ffb,
            _ => self.t_after_publish,
        }
    }

    fn from_words(words: &Vec<u64>, start: usize) -> (frame: Self) {
        assert(words.len() == words@.len());
        TraceStep {
            step_index: words[start + 0],
            input_host_time_ns: words[start + 1],
            input_sample_index: words[start + 2],
            t_step_start: words[start + 3],
            t_after_read: words[start + 4],
            t_after_shape: words[start + 5],
            t_after_plant: words[start + 6],
            t_command_stamp: words[start + 7],
            t_after_ffb: words[start + 8],
            t_after_publish: words[start + 9],
        }
    }
}

impl TraceStep {
    /// Every word zero.
    pub open spec fn zero() -> Self {
        TraceStep {
            step_index: 0,
            input_host_time_ns: 0,
            input_sample_index: 0,
            t_step_start: 0,
            t_after_read: 0,
            t_after_shape: 0,
            t_after_plant: 0,
            t_command_stamp: 0,
            t_after_ffb: 0,
            t_after_publish: 0,
        }
    }
}

impl Default for TraceStep {
    fn default() -> (frame: Self)
        ensures
            frame == Self::zero(),
    {
        TraceStep {
            step_index: 0,
            input_host_time_ns: 0,
            input_sample_index: 0,
            t_step_start: 0,
            t_after_read: 0,
            t_after_shape: 0,
            t_after_plant: 0,
            t_command_stamp: 0,
            t_after_ffb: 0,
            t_after_publish: 0,
        }
    }
}

/// Where one device iteration's time went.
#[derive(Clone, Copy, PartialEq, Eq, Structural, Debug)]
pub struct TraceDevice {
    /// Stamp of the torque command that was picked up.
    pub command_host_time_ns: u64,
    pub t_pickup: u64,
    pub t_after_apply: u64,
    pub sample_index: u64,
    /// See `trace_flags`.
    pub flags: u64,
}

impl Frame for TraceDevice {
    open spec fn size() -> nat {
        5
    }

    open spec fn word(self, index: int) -> u64 {
        if index == 0 {
            self.command_host_time_ns
        } else if index == 1 {
            self.t_pickup
        } else if index == 2 {
            self.t_after_apply
        } else if index == 3 {
            self.sample_index
        } else {
            self.flags
        }
    }

    proof fn words_decide(self, other: Self) {
        if forall|i: int| 0 <= i < Self::size() ==> #[trigger] self.word(i) == other.word(i) {
            assert(self.word(0) == other.word(0));
            assert(self.word(1) == other.word(1));
            assert(self.word(2) == other.word(2));
            assert(self.word(3) == other.word(3));
            assert(self.word(4) == other.word(4));
        }
    }

    fn field_count() -> (count: usize) {
        5
    }

    fn field(&self, index: usize) -> (word: u64) {
        match index {
            0 => self.command_host_time_ns,
            1 => self.t_pickup,
            2 => self.t_after_apply,
            3 => self.sample_index,
            _ => self.flags,
        }
    }

    fn from_words(words: &Vec<u64>, start: usize) -> (frame: Self) {
        assert(words.len() == words@.len());
        TraceDevice {
            command_host_time_ns: words[start + 0],
            t_pickup: words[start + 1],
            t_after_apply: words[start + 2],
            sample_index: words[start + 3],
            flags: words[start + 4],
        }
    }
}

impl TraceDevice {
    /// Every word zero.
    pub open spec fn zero() -> Self {
        TraceDevice {
            command_host_time_ns: 0,
            t_pickup: 0,
            t_after_apply: 0,
            sample_index: 0,
            flags: 0,
        }
    }
}

impl Default for TraceDevice {
    fn default() -> (frame: Self)
        ensures
            frame == Self::zero(),
    {
        TraceDevice {
            command_host_time_ns: 0,
            t_pickup: 0,
            t_after_apply: 0,
            sample_index: 0,
            flags: 0,
        }
    }
}

impl VehicleState {
    /// The field at `index` holds a real value, not a count.
    pub open spec fn real_valued(index: int) -> bool {
        index != 1
            && index != 2
            && index != 27
            && index != 28
            && index != 29
    }

    pub fn is_real_valued(index: usize) -> (answer: bool)
        ensures
            answer == Self::real_valued(index as int),
    {
        index != 1
            && index != 2
            && index != 27
            && index != 28
            && index != 29
    }

    /// The name of the field at `index`, as it appears in a header line.
    pub open spec fn name_of(index: int) -> Seq<char> {
        if index == 0 {
            "sim_time"@
        } else if index == 1 {
            "step_index"@
        } else if index == 2 {
            "host_time_ns"@
        } else if index == 3 {
            "steering_angle_command"@
        } else if index == 4 {
            "accelerator_pedal_command"@
        } else if index == 5 {
            "brake_pedal_command"@
        } else if index == 6 {
            "vehicle_speed"@
        } else if index == 7 {
            "acc_x"@
        } else if index == 8 {
            "acc_y"@
        } else if index == 9 {
            "handwheel_angle"@
        } else if index == 10 {
            "steer_excess"@
        } else if index == 11 {
            "handwheel_torque"@
        } else if index == 12 {
            "fz_fl"@
        } else if index == 13 {
            "fz_fr"@
        } else if index == 14 {
            "fz_rl"@
        } else if index == 15 {
            "fz_rr"@
        } else if index == 16 {
            "left_steer_angle"@
        } else if index == 17 {
            "right_steer_angle"@
        } else if index == 18 {
            "roll"@
        } else if index == 19 {
            "sideslip"@
        } else if index == 20 {
            "vel_x"@
        } else if index == 21 {
            "vel_y"@
        } else if index == 22 {
            "yaw_vel"@
        } else if index == 23 {
            "pos_x"@
        } else if index == 24 {
            "pos_y"@
        } else if index == 25 {
            "yaw"@
        } else if index == 26 {
            "ffb_torque_nm"@
        } else if index == 27 {
            "kernel_id"@
        } else if index == 28 {
            "deadline_misses"@
        } else if index == 29 {
            "fault_flags"@
        } else if index == 30 {
            "rtf"@
        } else if index == 31 {
            "step_time_us"@
        } else {
            "step_time_p99_us"@
        }
    }

    pub fn field_name(index: usize) -> (name: &'static str)
        requires
            index < Self::size(),
        ensures
            name@ == Self::name_of(index as int),
    {
        match index {
            0 => "sim_time",
            1 => "step_index",
            2 => "host_time_ns",
            3 => "steering_angle_command",
            4 => "accelerator_pedal_command",
            5 => "brake_pedal_command",
            6 => "vehicle_speed",
            7 => "acc_x",
            8 => "acc_y",
            9 => "handwheel_angle",
            10 => "steer_excess",
            11 => "handwheel_torque",
            12 => "fz_fl",
            13 => "fz_fr",
            14 => "fz_rl",
            15 => "fz_rr",
            16 => "left_steer_angle",
            17 => "right_steer_angle",
            18 => "roll",
            19 => "sideslip",
            20 => "vel_x",
            21 => "vel_y",
            22 => "yaw_vel",
            23 => "pos_x",
            24 => "pos_y",
            25 => "yaw",
            26 => "ffb_torque_nm",
            27 => "kernel_id",
            28 => "deadline_misses",
            29 => "fault_flags",
            30 => "rtf",
            31 => "step_time_us",
            _ => "step_time_p99_us",
        }
    }

    /// The field at `index` is fit to act on: counts always are, real values
    /// when they are finite.
    pub open spec fn sound(self, index: int) -> bool {
        Self::real_valued(index) ==> is_finite(self.word(index))
    }

    /// Every real field is finite.
    pub open spec fn all_sound(self) -> bool {
        forall|i: int| 0 <= i < Self::size() ==> #[trigger] self.sound(i)
    }

    pub fn is_sound(&self, index: usize) -> (answer: bool)
        requires
            index < Self::size(),
        ensures
            answer == self.sound(index as int),
    {
        !Self::is_real_valued(index) || is_finite(self.field(index))
    }

    pub fn is_finite(&self) -> (answer: bool)
        ensures
            answer == self.all_sound(),
    {
        let mut index: usize = 0;
        while index < 33
            invariant
                index <= 33,
                forall|i: int| 0 <= i < index ==> #[trigger] self.sound(i),
            decreases 33 - index,
        {
            if !self.is_sound(index) {
                assert(!self.sound(index as int));
                return false;
            }
            index += 1;
        }
        true
    }
}

/// How many fields of a `VehicleState` a model can supply.
pub const FMI_SIGNAL_COUNT: usize = 17;

/// The field the model signal at `slot` fills. The supplied fields are
/// consecutive.
pub open spec fn signal_field(slot: int) -> int {
    slot + 6
}

/// The model's own name for the signal at `slot`.
pub open spec fn signal_name(slot: int) -> Seq<char> {
    if slot == 0 {
        "vehicleSpeed"@
    } else if slot == 1 {
        "accX"@
    } else if slot == 2 {
        "accY"@
    } else if slot == 3 {
        "handwheelAngle"@
    } else if slot == 4 {
        "steerExcess"@
    } else if slot == 5 {
        "handwheelTorque"@
    } else if slot == 6 {
        "Fz_1"@
    } else if slot == 7 {
        "Fz_2"@
    } else if slot == 8 {
        "Fz_3"@
    } else if slot == 9 {
        "Fz_4"@
    } else if slot == 10 {
        "leftSteerAngle"@
    } else if slot == 11 {
        "rightSteerAngle"@
    } else if slot == 12 {
        "roll"@
    } else if slot == 13 {
        "sideslip"@
    } else if slot == 14 {
        "velX"@
    } else if slot == 15 {
        "velY"@
    } else {
        "yawVel"@
    }
}

/// One row of the table of signals a model can supply.
pub fn vehicle_state_fmi_signal(slot: usize) -> (signal: (&'static str, usize))
    requires
        slot < FMI_SIGNAL_COUNT,
    ensures
        signal.0@ == signal_name(slot as int),
        signal.1 == signal_field(slot as int),
{
    match slot {
        0 => ("vehicleSpeed", 6),
        1 => ("accX", 7),
        2 => ("accY", 8),
        3 => ("handwheelAngle", 9),
        4 => ("steerExcess", 10),
        5 => ("handwheelTorque", 11),
        6 => ("Fz_1", 12),
        7 => ("Fz_2", 13),
        8 => ("Fz_3", 14),
        9 => ("Fz_4", 15),
        10 => ("leftSteerAngle", 16),
        11 => ("rightSteerAngle", 17),
        12 => ("roll", 18),
        13 => ("sideslip", 19),
        14 => ("velX", 20),
        15 => ("velY", 21),
        _ => ("yawVel", 22),
    }
}

/// A parameter that can be changed between runs without rebuilding the model.
#[derive(Clone, Copy, Debug)]
pub struct TunableSpec {
    pub id: u32,
    pub name: &'static str,
    pub min: Scalar,
    pub max: Scalar,
}

/// How many tunables there are. Their ids count up from zero.
pub const TUNABLE_COUNT: u32 = 4;

pub const FRONT_ARB_RATE: u32 = 0;

pub const REAR_ARB_RATE: u32 = 1;

pub const BRAKE_BIAS: u32 = 2;

pub const DIFF_PRELOAD: u32 = 3;

pub open spec fn tunable_name(id: int) -> Seq<char> {
    if id == 0 {
        "front_arb_rate"@
    } else if id == 1 {
        "rear_arb_rate"@
    } else if id == 2 {
        "brake_bias"@
    } else {
        "diff_preload"@
    }
}

pub open spec fn tunable_min(id: int) -> Scalar {
    if id == 2 {
        0x3fd9_9999_9999_999a
    } else {
        0
    }
}

pub open spec fn tunable_max(id: int) -> Scalar {
    if id == 0 {
        0x40f3_8800_0000_0000
    } else if id == 1 {
        0x40f3_8800_0000_0000
    } else if id == 2 {
        0x3fe9_9999_9999_999a
    } else {
        0x4062_c000_0000_0000
    }
}

/// The table of tunables.
pub fn tunable(id: u32) -> (spec_row: TunableSpec)
    requires
        id < TUNABLE_COUNT,
    ensures
        spec_row.id == id,
        spec_row.name@ == tunable_name(id as int),
        spec_row.min == tunable_min(id as int),
        spec_row.max == tunable_max(id as int),
{
    match id {
        0 => TunableSpec {
            id,
            name: "front_arb_rate",
            min: 0,
            max: 0x40f3_8800_0000_0000,
        }, // 0.0 to 80000.0
        1 => TunableSpec {
            id,
            name: "rear_arb_rate",
            min: 0,
            max: 0x40f3_8800_0000_0000,
        }, // 0.0 to 80000.0
        2 => TunableSpec {
            id,
            name: "brake_bias",
            min: 0x3fd9_9999_9999_999a,
            max: 0x3fe9_9999_9999_999a,
        }, // 0.4 to 0.8
        _ => TunableSpec {
            id,
            name: "diff_preload",
            min: 0,
            max: 0x4062_c000_0000_0000,
        }, // 0.0 to 150.0
    }
}

} // verus!
