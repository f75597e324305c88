//! Device abstraction, and capability negotiation.
//!
//! Almost no off-the-shelf pedal set can render variable stiffness, so
//! capability is negotiated and reported, never assumed. Wheel torque is the
//! one mandatory output. Pedal force is optional, and when it is absent the
//! session degrades honestly: the UI does not claim stiffness feedback. Silently
//! pretending would be the worst option, because a driver would attribute the
//! missing cue to the vehicle.

use vstd::prelude::*;

use crate::arith;
use crate::arith::{minus, over, raised, times, Operation};
use crate::arith::rounding;
use crate::generated::frames::{DriverInput, FfbCommand};
use crate::numbers;
use crate::numbers::{close, nearly, number, size, upto};
use crate::scalar;
use crate::scalar::{
    abs, clamp, exact, is_at_most, is_finite, is_less, negate, signum, Scalar, MINUS_ONE, ONE, ZERO,
};
use crate::text;
use crate::text::{add_line, count_text, join};

verus! {

pub const HALF: Scalar = 0x3fe0_0000_0000_0000;

/// What a connected device can actually do.
#[derive(Clone, PartialEq, Debug)]
pub struct DeviceCaps {
    pub name: String,
    /// Constant-force output on the steering axis. Mandatory for a usable rig.
    pub wheel_torque: bool,
    /// Peak torque the device claims, if it reports one [N.m].
    pub wheel_torque_limit: Option<Scalar>,
    /// Full range of the wheel [rad].
    pub wheel_range: Option<Scalar>,
    /// Programmable pedal stiffness. Almost always false.
    pub pedal_force: bool,
    /// A rumble motor, used as the degraded lock-up cue when `pedal_force` is false.
    pub rumble: bool,
    pub axes: usize,
    pub buttons: usize,
}

impl DeviceCaps {
    /// The wheel-torque cue, with the device's peak when it reports one.
    pub open spec fn torque_cue<P: Fn(Scalar, usize) -> String>(self, print: P) -> Seq<char> {
        match self.wheel_torque_limit {
            Some(limit) => "wheel torque (device peak "@ + text::printed(print, limit, 1)
                + " N.m)"@,
            None => "wheel torque"@,
        }
    }

    /// The cues the driver does get, in a fixed order.
    pub open spec fn cues<P: Fn(Scalar, usize) -> String>(self, print: P) -> Seq<Seq<char>> {
        let torque = if self.wheel_torque {
            seq![self.torque_cue(print)]
        } else {
            Seq::<Seq<char>>::empty()
        };
        let pedal = if self.pedal_force {
            torque.push("pedal force"@)
        } else {
            torque
        };
        let rumble = if self.rumble {
            pedal.push("rumble"@)
        } else {
            pedal
        };
        if rumble.len() == 0 {
            seq!["no haptic output"@]
        } else {
            rumble
        }
    }

    /// The device's name, what it has, and the cues it can deliver.
    pub open spec fn described<P: Fn(Scalar, usize) -> String>(self, print: P) -> Seq<char> {
        self.name@ + " ["@ + text::decimal(self.axes as nat) + " axes, "@ + text::decimal(
            self.buttons as nat,
        ) + " buttons]: "@ + text::joined(self.cues(print), ", "@)
    }

    /// One line, shown in the UI at session start. A driver must be able to see
    /// which cues they are and are not getting before they form an opinion
    /// about the car.
    pub fn describe<P: Fn(Scalar, usize) -> String>(&self, print: &P) -> (line: String)
        requires
            text::prints(*print),
        ensures
            line@ == self.described(*print),
    {
        let mut cues: Vec<String> = Vec::new();
        if self.wheel_torque {
            cues.push(
                match self.wheel_torque_limit {
                    Some(limit) => {
                        let mut cue: String = "wheel torque (device peak ".to_owned();
                        cue.append(print(limit, 1).as_str());
                        cue.append(" N.m)");
                        cue
                    },
                    None => "wheel torque".to_owned(),
                },
            );
        }
        if self.pedal_force {
            cues.push("pedal force".to_owned());
        }
        if self.rumble {
            cues.push("rumble".to_owned());
        }
        if cues.len() == 0 {
            cues.push("no haptic output".to_owned());
        }
        assert(text::views(cues@) =~= self.cues(*print));
        let list: String = join(&cues, ", ");
        let mut line: String = self.name.clone();
        line.append(" [");
        line.append(count_text(self.axes as u64).as_str());
        line.append(" axes, ");
        line.append(count_text(self.buttons as u64).as_str());
        line.append(" buttons]: ");
        line.append(list.as_str());
        line
    }

    /// What the UI must *not* claim.
    pub open spec fn missing(self) -> Seq<Seq<char>> {
        let torque = if self.wheel_torque {
            Seq::<Seq<char>>::empty()
        } else {
            seq!["steering torque"@]
        };
        if self.pedal_force {
            torque
        } else {
            torque.push("pedal stiffness"@)
        }
    }

    /// What the UI must *not* claim. Returned so the message is written once.
    pub fn missing_cues(&self) -> (missing: Vec<&'static str>)
        ensures
            missing@.len() == self.missing().len(),
            forall|i: int| 0 <= i < missing@.len() ==> #[trigger] missing@[i]@ == self.missing()[i],
    {
        let mut missing: Vec<&'static str> = Vec::new();
        if !self.wheel_torque {
            missing.push("steering torque");
        }
        if !self.pedal_force {
            missing.push("pedal stiffness");
        }
        missing
    }

    /// The missing cues, in one breath.
    pub fn missing_text(&self) -> (line: String)
        ensures
            line@ == text::joined(self.missing(), ", "@),
    {
        let missing: Vec<&'static str> = self.missing_cues();
        let mut cues: Vec<String> = Vec::new();
        let mut i: usize = 0;
        while i < missing.len()
            invariant
                i <= missing@.len(),
                missing@.len() == self.missing().len(),
                forall|j: int|
                    0 <= j < missing@.len() ==> #[trigger] missing@[j]@ == self.missing()[j],
                text::views(cues@) =~= self.missing().take(i as int),
            decreases missing@.len() - i,
        {
            add_line(&mut cues, missing[i].to_owned());
            i += 1;
        }
        assert(text::views(cues@) =~= self.missing());
        join(&cues, ", ")
    }
}

#[derive(Debug)]
pub enum DeviceError {
    NotFound,
    Unsupported { what: &'static str },
    Backend { detail: String },
}

impl DeviceError {
    pub open spec fn explained(self) -> Seq<char> {
        match self {
            DeviceError::NotFound => "no wheel or pedal device found"@,
            DeviceError::Unsupported { what } => "device does not support "@ + what@,
            DeviceError::Backend { detail } => "device backend error: "@ + detail@,
        }
    }

    pub fn message(&self) -> (text: String)
        ensures
            text@ == self.explained(),
    {
        match self {
            DeviceError::NotFound => "no wheel or pedal device found".to_owned(),
            DeviceError::Unsupported { what } => {
                let mut text: String = "device does not support ".to_owned();
                text.append(*what);
                text
            },
            DeviceError::Backend { detail } => {
                let mut text: String = "device backend error: ".to_owned();
                text.append(detail.as_str());
                text
            },
        }
    }
}

/// Something that can be plugged in.
pub trait Peripheral {
    /// The device is in working order. Nothing that is done to it changes that.
    spec fn ready(&self) -> bool;
}

/// Raw axis and button state, before calibration.
pub trait InputSource: Peripheral {
    /// What the device gave when it was last polled, if it gave anything.
    spec fn seen(&self) -> Option<RawInput>;

    /// Poll the device. Returns the raw normalised axes; calibration into
    /// vehicle units happens in `Calibration`, not here.
    fn poll(&mut self) -> (raw: Result<RawInput, DeviceError>)
        requires
            old(self).ready(),
        ensures
            final(self).ready(),
            final(self).seen() == match raw {
                Ok(found) => Some(found),
                Err(_) => None,
            },
    ;

    /// What the device has to offer as an input.
    spec fn input_caps(&self) -> DeviceCaps;

    fn caps(&self) -> (caps: &DeviceCaps)
        ensures
            *caps == self.input_caps(),
    ;
}

/// Where conditioned force goes.
///
/// Implementations must treat `zero()` as infallible-in-spirit: it is called on
/// every shutdown path including panics, and leaving a device holding torque is
/// the failure this whole layer exists to prevent.
pub trait HapticSink: Peripheral {
    /// What the device was last told to do.
    spec fn told(&self) -> FfbCommand;

    fn apply(&mut self, command: &FfbCommand) -> (done: Result<(), DeviceError>)
        ensures
            final(self).told() == *command,
            old(self).ready() ==> final(self).ready(),
    ;

    fn zero(&mut self)
        ensures
            final(self).told() == FfbCommand::zero(),
            old(self).ready() ==> final(self).ready(),
    ;

    /// What the device has to offer as an output.
    spec fn output_caps(&self) -> DeviceCaps;

    fn caps(&self) -> (caps: &DeviceCaps)
        ensures
            *caps == self.output_caps(),
    ;
}

/// Device axes as reported, normalised but uncalibrated.
#[derive(Clone, Copy, PartialEq, Eq, Structural, Debug)]
pub struct RawInput {
    /// Steering axis, -1 (full right) to +1 (full left).
    pub steer: Scalar,
    /// Accelerator, 0 to 1.
    pub accelerator: Scalar,
    /// Brake, 0 to 1.
    pub brake: Scalar,
    pub buttons: u64,
    pub host_time_ns: u64,
}

impl RawInput {
    pub open spec fn zero() -> Self {
        RawInput { steer: ZERO, accelerator: ZERO, brake: ZERO, buttons: 0, host_time_ns: 0 }
    }
}

impl Default for RawInput {
    fn default() -> (raw: Self)
        ensures
            raw == Self::zero(),
    {
        RawInput { steer: ZERO, accelerator: ZERO, brake: ZERO, buttons: 0, host_time_ns: 0 }
    }
}

/// Maps raw device axes onto the units the plant expects.
#[derive(Clone, Copy, PartialEq, Eq, Structural, Debug)]
pub struct Calibration {
    /// Handwheel angle from one end of the axis to the other [rad], so full
    /// deflection is half of it either way. Must match what the device is
    /// actually configured to, or the whole rig lies about steering ratio.
    pub wheel_range: Scalar,
    /// Deadband around centre, as a fraction of full travel.
    pub steer_deadband: Scalar,
    pub accelerator_floor: Scalar,
    pub accelerator_ceiling: Scalar,
    pub brake_floor: Scalar,
    pub brake_ceiling: Scalar,
    /// Exponent applied to the brake axis. A load-cell pedal is roughly linear
    /// in force; a potentiometer pedal is linear in travel, which feels wrong,
    /// and this is the honest place to correct for it.
    pub brake_gamma: Scalar,
    pub invert_steer: bool,
}

/// `value` as a fraction of the way from `floor` to `ceiling`, inside `[0, 1]`;
/// zero when there is no way.
pub open spec fn rescaled<F: Fn(Operation) -> Scalar>(
    unit: &F,
    value: Scalar,
    floor: Scalar,
    ceiling: Scalar,
) -> Scalar {
    if is_at_most(ceiling, floor) {
        ZERO
    } else {
        clamp(over(unit, minus(unit, value, floor), minus(unit, ceiling, floor)), ZERO, ONE)
    }
}

#[verifier::when_used_as_spec(rescaled)]
pub fn rescale<F: Fn(Operation) -> Scalar>(
    unit: &F,
    value: Scalar,
    floor: Scalar,
    ceiling: Scalar,
) -> (fraction: Scalar)
    requires
        arith::functional(*unit),
    ensures
        fraction == rescaled(unit, value, floor, ceiling),
{
    if is_at_most(ceiling, floor) {
        return ZERO;
    }
    proof {
        lemma_unit_interval();
    }
    clamp(over(unit, minus(unit, value, floor), minus(unit, ceiling, floor)), ZERO, ONE)
}

/// The intervals the axes are clamped to are intervals.
pub proof fn lemma_unit_interval()
    ensures
        is_at_most(ZERO, ONE),
        is_at_most(MINUS_ONE, ONE),
{
    scalar::lemma_exact_order(ZERO, ONE);
    scalar::lemma_exact_order(ONE, ZERO);
    scalar::lemma_exact_order(MINUS_ONE, ONE);
}

impl Calibration {
    /// 270 degrees from end to end, two percent of dead travel at each end of a pedal
    /// but five at the brake's far end, no deadband, a linear brake.
    pub open spec fn standard() -> Self {
        Calibration {
            wheel_range: 0x4012_d97c_7f33_21d2,
            steer_deadband: ZERO,
            accelerator_floor: 0x3f94_7ae1_47ae_147b,
            accelerator_ceiling: 0x3fef_5c28_f5c2_8f5c,
            brake_floor: 0x3f94_7ae1_47ae_147b,
            brake_ceiling: 0x3fee_6666_6666_6666,
            brake_gamma: ONE,
            invert_steer: false,
        }
    }

    /// The steering axis, inside its travel and the right way round.
    pub open spec fn oriented(self, steer: Scalar) -> Scalar {
        let inside = clamp(steer, MINUS_ONE, ONE);
        if self.invert_steer {
            negate(inside)
        } else {
            inside
        }
    }

    /// The steering axis with the deadband taken out and the rest stretched to
    /// full travel.
    pub open spec fn centred<F: Fn(Operation) -> Scalar>(self, unit: &F, steer: Scalar) -> Scalar {
        let turned = self.oriented(steer);
        if is_less(abs(turned), self.steer_deadband) {
            ZERO
        } else if is_less(ZERO, self.steer_deadband) {
            over(
                unit,
                times(unit, signum(turned), minus(unit, abs(turned), self.steer_deadband)),
                minus(unit, ONE, self.steer_deadband),
            )
        } else {
            turned
        }
    }

    /// The calibrated sample.
    pub open spec fn calibrated<F: Fn(Operation) -> Scalar>(
        self,
        unit: &F,
        raw: RawInput,
        sample_index: u64,
    ) -> DriverInput {
        DriverInput {
            host_time_ns: raw.host_time_ns,
            sample_index,
            steering_angle_command: times(
                unit,
                times(unit, self.centred(unit, raw.steer), self.wheel_range),
                HALF,
            ),
            accelerator_pedal_command: rescale(
                unit,
                raw.accelerator,
                self.accelerator_floor,
                self.accelerator_ceiling,
            ),
            brake_pedal_command: raised(
                unit,
                rescale(unit, raw.brake, self.brake_floor, self.brake_ceiling),
                self.brake_gamma,
            ),
            raw_steer_norm: raw.steer,
            raw_accel_norm: raw.accelerator,
            raw_brake_norm: raw.brake,
            buttons: raw.buttons,
        }
    }

    pub fn apply<F: Fn(Operation) -> Scalar>(
        &self,
        unit: &F,
        raw: &RawInput,
        sample_index: u64,
    ) -> (input: DriverInput)
        requires
            arith::functional(*unit),
        ensures
            input == self.calibrated(unit, *raw, sample_index),
    {
        proof {
            lemma_unit_interval();
        }
        let mut steer: Scalar = clamp(raw.steer, MINUS_ONE, ONE);
        if self.invert_steer {
            steer = negate(steer);
        }
        if is_less(abs(steer), self.steer_deadband) {
            steer = ZERO;
        } else if is_less(ZERO, self.steer_deadband) {
            let sign: Scalar = signum(steer);
            steer = over(
                unit,
                times(unit, sign, minus(unit, abs(steer), self.steer_deadband)),
                minus(unit, ONE, self.steer_deadband),
            );
        }
        let accelerator: Scalar = rescale(
            unit,
            raw.accelerator,
            self.accelerator_floor,
            self.accelerator_ceiling,
        );
        let brake: Scalar = raised(
            unit,
            rescale(unit, raw.brake, self.brake_floor, self.brake_ceiling),
            self.brake_gamma,
        );
        DriverInput {
            host_time_ns: raw.host_time_ns,
            sample_index,
            steering_angle_command: times(unit, times(unit, steer, self.wheel_range), HALF),
            accelerator_pedal_command: accelerator,
            brake_pedal_command: brake,
            raw_steer_norm: raw.steer,
            raw_accel_norm: raw.accelerator,
            raw_brake_norm: raw.brake,
            buttons: raw.buttons,
        }
    }
}

impl Default for Calibration {
    fn default() -> (calibration: Self)
        ensures
            calibration == Self::standard(),
    {
        Calibration {
            wheel_range: 0x4012_d97c_7f33_21d2,
            steer_deadband: ZERO,
            accelerator_floor: 0x3f94_7ae1_47ae_147b,
            accelerator_ceiling: 0x3fef_5c28_f5c2_8f5c,
            brake_floor: 0x3f94_7ae1_47ae_147b,
            brake_ceiling: 0x3fee_6666_6666_6666,
            brake_gamma: ONE,
            invert_steer: false,
        }
    }
}

/// A device that is not there.
///
/// Used for headless CI, for the timing benchmark, and whenever no wheel is
/// connected. Everything above it -- the loop, the buffers, the watchdog, the
/// telemetry -- runs identically, which is what makes those layers testable
/// without hardware plugged in.
pub struct NullDevice<S: Fn(u64) -> RawInput> {
    pub caps: DeviceCaps,
    /// Scripted input, so a benchmark or a regression test can drive.
    pub script: Option<S>,
    pub samples: u64,
    pub last_command: FfbCommand,
    pub zeroed: bool,
    /// What was last read off it.
    pub last_sample: Option<RawInput>,
}

/// The capabilities of a device that is not there.
pub open spec fn incapable(caps: DeviceCaps) -> bool {
    &&& !caps.wheel_torque && !caps.pedal_force && !caps.rumble
    &&& caps.wheel_torque_limit is None && caps.wheel_range is None
    &&& caps.axes == 0 && caps.buttons == 0
}

impl<S: Fn(u64) -> RawInput> NullDevice<S> {
    pub fn new() -> (device: Self)
        ensures
            device.caps.name@ == "null device (no hardware)"@,
            incapable(device.caps),
            device.script is None,
            device.samples == 0,
            device.last_command == FfbCommand::zero(),
            !device.zeroed,
            device.last_sample is None,
    {
        NullDevice {
            caps: DeviceCaps {
                name: "null device (no hardware)".to_owned(),
                wheel_torque: false,
                wheel_torque_limit: None,
                wheel_range: None,
                pedal_force: false,
                rumble: false,
                axes: 0,
                buttons: 0,
            },
            script: None,
            samples: 0,
            last_command: FfbCommand::default(),
            zeroed: false,
            last_sample: None,
        }
    }

    /// Drive the loop from a function of sample index instead of hardware.
    pub fn scripted(script: S) -> (device: Self)
        ensures
            device.caps.name@ == "scripted input"@,
            incapable(device.caps),
            device.script == Some(script),
            device.samples == 0,
            device.last_command == FfbCommand::zero(),
            !device.zeroed,
            device.last_sample is None,
    {
        let mut device: Self = Self::new();
        device.caps.name = "scripted input".to_owned();
        device.script = Some(script);
        device
    }
}

impl<S: Fn(u64) -> RawInput> Peripheral for NullDevice<S> {
    /// There is no script, or the script has an answer for every sample.
    open spec fn ready(&self) -> bool {
        self.script matches Some(script) ==> forall|index: u64| #[trigger]
            call_requires(script, (index,))
    }
}

impl<S: Fn(u64) -> RawInput> InputSource for NullDevice<S> {
    open spec fn seen(&self) -> Option<RawInput> {
        self.last_sample
    }

    fn poll(&mut self) -> (raw: Result<RawInput, DeviceError>)
        ensures
            final(self).samples == old(self).samples.wrapping_add(1),
            final(self).script == old(self).script,
            final(self).caps == old(self).caps,
            final(self).last_command == old(self).last_command,
            final(self).zeroed == old(self).zeroed,
            raw is Ok,
            match old(self).script {
                Some(script) => call_ensures(script, (old(self).samples,), raw->Ok_0),
                None => raw->Ok_0 == RawInput::zero(),
            },
    {
        let index: u64 = self.samples;
        self.samples = self.samples.wrapping_add(1);
        let raw: RawInput = match &self.script {
            Some(script) => script(index),
            None => RawInput::default(),
        };
        self.last_sample = Some(raw);
        Ok(raw)
    }

    open spec fn input_caps(&self) -> DeviceCaps {
        self.caps
    }

    fn caps(&self) -> (caps: &DeviceCaps) {
        &self.caps
    }
}

impl<S: Fn(u64) -> RawInput> HapticSink for NullDevice<S> {
    open spec fn told(&self) -> FfbCommand {
        self.last_command
    }

    fn apply(&mut self, command: &FfbCommand) -> (done: Result<(), DeviceError>)
        ensures
            done is Ok,
            final(self).last_command == *command,
            !final(self).zeroed,
            final(self).samples == old(self).samples,
            final(self).script == old(self).script,
            final(self).caps == old(self).caps,
    {
        self.last_command = *command;
        self.zeroed = false;
        Ok(())
    }

    fn zero(&mut self)
        ensures
            final(self).last_command == FfbCommand::zero(),
            final(self).zeroed,
            final(self).samples == old(self).samples,
            final(self).script == old(self).script,
            final(self).caps == old(self).caps,
    {
        self.last_command = FfbCommand::default();
        self.zeroed = true;
    }

    open spec fn output_caps(&self) -> DeviceCaps {
        self.caps
    }

    fn caps(&self) -> (caps: &DeviceCaps) {
        &self.caps
    }
}

// --- laws -----------------------------------------------------------------------

/// Pedals come out between zero and one whatever the axis reads, and the raw
/// axes come through untouched.
pub proof fn law_pedals_are_fractions<F: Fn(Operation) -> Scalar>(
    unit: &F,
    value: Scalar,
    floor: Scalar,
    ceiling: Scalar,
)
    requires
        !scalar::nan(over(unit, minus(unit, value, floor), minus(unit, ceiling, floor))),
    ensures
        is_at_most(ZERO, rescale(unit, value, floor, ceiling)),
        is_at_most(rescale(unit, value, floor, ceiling), ONE),
{
    lemma_unit_interval();
    scalar::lemma_exact_order(ZERO, ZERO);
}

/// A pedal's axis, and the two ends of the travel it is calibrated to.
pub open spec fn is_travel(value: Scalar, floor: Scalar, ceiling: Scalar) -> bool {
    &&& is_finite(value) && size(number(value)) <= 1000000000real
    &&& is_finite(floor) && size(number(floor)) <= 1000000000real
    &&& is_finite(ceiling) && size(number(ceiling)) <= 1000000000real
    &&& number(floor) < number(ceiling)
}

proof fn lemma_apart<F: Fn(Operation) -> Scalar>(unit: &F, a: Scalar, b: Scalar)
    requires
        arith::rounding(unit),
        is_finite(a),
        size(number(a)) <= 1000000000real,
        is_finite(b),
        size(number(b)) <= 1000000000real,
    ensures
        close(minus(unit, a, b), number(a) - number(b)),
{
    numbers::lemma_in_range(number(a) - number(b));
    numbers::lemma_close_minus(unit, a, b);
}

/// The ends of a pedal's travel come out as nothing and as everything.
proof fn lemma_ends<F: Fn(Operation) -> Scalar>(
    unit: &F,
    value: Scalar,
    floor: Scalar,
    ceiling: Scalar,
)
    requires
        arith::rounding(unit),
        is_travel(value, floor, ceiling),
    ensures
        ({
            let fraction = rescaled(unit, value, floor, ceiling);
            &&& is_finite(fraction)
            &&& 0 <= exact(fraction) <= exact(ONE)
            &&& exact(value) <= exact(floor) ==> exact(fraction) == 0
            &&& exact(value) >= exact(ceiling) ==> exact(fraction) == exact(ONE)
        }),
{
    numbers::lemma_number_order(floor, ceiling);
    lemma_unit_interval();
    scalar::lemma_exact_order(ZERO, ZERO);
    scalar::lemma_one();
    lemma_apart(unit, value, floor);
    lemma_apart(unit, ceiling, floor);
    let n = minus(unit, value, floor);
    let d = minus(unit, ceiling, floor);
    numbers::lemma_differences_show(unit, floor, ceiling);
    numbers::lemma_signs(unit, value, floor);
    numbers::lemma_signs(unit, n, d);
    numbers::lemma_over_one(unit, n, d);
    if exact(value) >= exact(ceiling) {
        numbers::lemma_operations_keep_order(unit, ceiling, value, floor);
    }
    let x = over(unit, n, d);
    scalar::lemma_exact_order(x, ONE);
    scalar::lemma_exact_order(ONE, x);
    scalar::lemma_exact_order(x, ZERO);
    assert(is_finite(x) || exact(x) > exact(ONE) || exact(x) < 0);
}

/// Pressing further never asks for less.
proof fn lemma_travel_keeps_order<F: Fn(Operation) -> Scalar>(
    unit: &F,
    less: Scalar,
    more: Scalar,
    floor: Scalar,
    ceiling: Scalar,
)
    requires
        arith::rounding(unit),
        is_travel(less, floor, ceiling),
        is_travel(more, floor, ceiling),
        exact(less) <= exact(more),
    ensures
        exact(rescaled(unit, less, floor, ceiling)) <= exact(rescaled(unit, more, floor, ceiling)),
{
    lemma_ends(unit, less, floor, ceiling);
    lemma_ends(unit, more, floor, ceiling);
    if exact(floor) < exact(less) && exact(more) < exact(ceiling) {
        lemma_apart(unit, less, floor);
        lemma_apart(unit, more, floor);
        lemma_apart(unit, ceiling, floor);
        numbers::lemma_operations_keep_order(unit, less, more, floor);
        numbers::lemma_operations_keep_order(unit, less, ceiling, floor);
        numbers::lemma_operations_keep_order(unit, more, ceiling, floor);
        numbers::lemma_differences_show(unit, floor, ceiling);
        numbers::lemma_signs(unit, less, floor);
        let d = minus(unit, ceiling, floor);
        let m = minus(unit, less, floor);
        let n = minus(unit, more, floor);
        numbers::lemma_over_one(unit, m, d);
        numbers::lemma_over_one(unit, n, d);
        numbers::lemma_signs(unit, m, d);
        numbers::lemma_signs(unit, n, d);
        lemma_finite_fraction(over(unit, m, d));
        lemma_finite_fraction(over(unit, n, d));
        numbers::lemma_operations_keep_order(unit, m, n, d);
    }
}

proof fn lemma_finite_fraction(x: Scalar)
    requires
        !scalar::nan(x),
        0 <= exact(x) <= exact(ONE),
    ensures
        is_finite(x),
{
    scalar::lemma_exact_order(x, ONE);
    scalar::lemma_exact_order(ONE, x);
    scalar::lemma_exact_order(x, ZERO);
}

/// The accelerator: nothing with the pedal released, everything with it pressed to
/// the end of its travel, and never less for pressing it further.
pub proof fn law_the_accelerator_follows_the_foot<F: Fn(Operation) -> Scalar>(
    calibration: Calibration,
    unit: &F,
    less: RawInput,
    more: RawInput,
    sample_index: u64,
    other_index: u64,
)
    requires
        arith::rounding(unit),
        is_travel(
            less.accelerator,
            calibration.accelerator_floor,
            calibration.accelerator_ceiling,
        ),
        is_travel(
            more.accelerator,
            calibration.accelerator_floor,
            calibration.accelerator_ceiling,
        ),
        number(less.accelerator) <= number(more.accelerator),
    ensures
        ({
            let a = number(calibration.calibrated(unit, less, sample_index).accelerator_pedal_command);
            let b = number(calibration.calibrated(unit, more, other_index).accelerator_pedal_command);
            &&& 0real <= a <= b <= 1real
            &&& number(less.accelerator) <= number(calibration.accelerator_floor) ==> a == 0real
            &&& number(more.accelerator) >= number(calibration.accelerator_ceiling) ==> b == 1real
        }),
{
    lemma_pedal(
        unit,
        less.accelerator,
        more.accelerator,
        calibration.accelerator_floor,
        calibration.accelerator_ceiling,
    );
}

proof fn lemma_pedal<F: Fn(Operation) -> Scalar>(
    unit: &F,
    less: Scalar,
    more: Scalar,
    floor: Scalar,
    ceiling: Scalar,
)
    requires
        arith::rounding(unit),
        is_travel(less, floor, ceiling),
        is_travel(more, floor, ceiling),
        number(less) <= number(more),
    ensures
        ({
            let a = number(rescaled(unit, less, floor, ceiling));
            let b = number(rescaled(unit, more, floor, ceiling));
            &&& 0real <= a <= b <= 1real
            &&& number(less) <= number(floor) ==> a == 0real
            &&& number(more) >= number(ceiling) ==> b == 1real
        }),
{
    let x = rescaled(unit, less, floor, ceiling);
    let y = rescaled(unit, more, floor, ceiling);
    numbers::lemma_number_order(more, less);
    numbers::lemma_number_order(floor, less);
    numbers::lemma_number_order(more, ceiling);
    lemma_ends(unit, less, floor, ceiling);
    lemma_ends(unit, more, floor, ceiling);
    lemma_travel_keeps_order(unit, less, more, floor, ceiling);
    numbers::lemma_number(x);
    numbers::lemma_number(y);
    numbers::lemma_number_order(y, x);
    numbers::lemma_number_order(ONE, y);
}

/// A unit raises fractions to a power as powers go: nothing to nothing, one to one,
/// and never less for a larger fraction.
pub open spec fn powers_rise<F: Fn(Operation) -> Scalar>(unit: &F, exponent: Scalar) -> bool {
    &&& forall|a: Scalar|
        number(a) == 0real && is_finite(a) ==> number(#[trigger] raised(unit, a, exponent))
            == 0real
    &&& number(raised(unit, ONE, exponent)) == 1real
    &&& forall|a: Scalar, b: Scalar|
        is_finite(a) && is_finite(b) && 0real <= number(a) <= number(b) <= 1real ==> number(
            #[trigger] raised(unit, a, exponent),
        ) <= number(#[trigger] raised(unit, b, exponent))
}

/// The brake: nothing with the pedal released, everything with it pressed to the end
/// of its travel, and never less for pressing it further, whatever the exponent its
/// feel is corrected by.
pub proof fn law_the_brake_follows_the_foot<F: Fn(Operation) -> Scalar>(
    calibration: Calibration,
    unit: &F,
    less: RawInput,
    more: RawInput,
    sample_index: u64,
    other_index: u64,
)
    requires
        arith::rounding(unit),
        powers_rise(unit, calibration.brake_gamma),
        is_travel(less.brake, calibration.brake_floor, calibration.brake_ceiling),
        is_travel(more.brake, calibration.brake_floor, calibration.brake_ceiling),
        number(less.brake) <= number(more.brake),
    ensures
        ({
            let a = number(calibration.calibrated(unit, less, sample_index).brake_pedal_command);
            let b = number(calibration.calibrated(unit, more, other_index).brake_pedal_command);
            &&& 0real <= a <= b <= 1real
            &&& number(less.brake) <= number(calibration.brake_floor) ==> a == 0real
            &&& number(more.brake) >= number(calibration.brake_ceiling) ==> b == 1real
        }),
{
    let (floor, ceiling) = (calibration.brake_floor, calibration.brake_ceiling);
    let exponent = calibration.brake_gamma;
    let x = rescaled(unit, less.brake, floor, ceiling);
    let y = rescaled(unit, more.brake, floor, ceiling);
    lemma_pedal(unit, less.brake, more.brake, floor, ceiling);
    lemma_ends(unit, less.brake, floor, ceiling);
    lemma_ends(unit, more.brake, floor, ceiling);
    numbers::lemma_number(ZERO);
    assert(is_finite(ZERO) && is_finite(ONE));
    assert(number(raised(unit, ZERO, exponent)) == 0real);
    assert(number(raised(unit, ZERO, exponent)) <= number(raised(unit, x, exponent)));
    assert(number(raised(unit, y, exponent)) <= number(raised(unit, ONE, exponent)));
    if number(y) == 1real {
        numbers::lemma_number_order(y, ONE);
        scalar::lemma_one();
        numbers::lemma_same_word(y, ONE);
    }
}

/// Between the ends of its travel the accelerator is the fraction of the travel that
/// is pressed, but for rounding.
pub proof fn law_half_a_pedal_is_half_the_command<F: Fn(Operation) -> Scalar>(
    calibration: Calibration,
    unit: &F,
    raw: RawInput,
    sample_index: u64,
)
    requires
        arith::rounding(unit),
        is_travel(
            raw.accelerator,
            calibration.accelerator_floor,
            calibration.accelerator_ceiling,
        ),
        number(calibration.accelerator_floor) <= number(raw.accelerator) <= number(
            calibration.accelerator_ceiling,
        ),
        number(calibration.accelerator_ceiling) - number(calibration.accelerator_floor) >= 1real
            / 1000000000real,
    ensures
        ({
            let command = number(
                calibration.calibrated(unit, raw, sample_index).accelerator_pedal_command,
            );
            let (floor, ceiling) = (
                number(calibration.accelerator_floor),
                number(calibration.accelerator_ceiling),
            );
            size(command * (ceiling - floor) - (number(raw.accelerator) - floor))
                * 1125899906842624real <= ceiling - floor
        }),
{
    let (value, floor, ceiling) = (
        raw.accelerator,
        calibration.accelerator_floor,
        calibration.accelerator_ceiling,
    );
    numbers::lemma_number_order(floor, ceiling);
    numbers::lemma_number_order(value, floor);
    numbers::lemma_number_order(ceiling, value);
    lemma_apart(unit, value, floor);
    lemma_apart(unit, ceiling, floor);
    let n = minus(unit, value, floor);
    let d = minus(unit, ceiling, floor);
    numbers::lemma_differences_show(unit, floor, ceiling);
    numbers::lemma_number(d);
    numbers::lemma_operations_keep_order(unit, value, ceiling, floor);
    numbers::lemma_signs(unit, value, floor);
    numbers::lemma_signs(unit, n, d);
    numbers::lemma_over_one(unit, n, d);
    let x = over(unit, n, d);
    lemma_finite_fraction(x);
    lemma_unit_interval();
    scalar::lemma_exact_order(ZERO, ZERO);
    let command = rescaled(unit, value, floor, ceiling);
    assert(exact(command) == exact(x));
    numbers::lemma_number_order(command, x);
    numbers::lemma_number_order(x, ONE);
    numbers::lemma_number(x);
    numbers::lemma_off(n, number(value) - number(floor));
    numbers::lemma_off(d, number(ceiling) - number(floor));
    let (a, b) = (number(n), number(d));
    let q = a / b;
    assert(q * b == a) by (nonlinear_arith)
        requires
            q == a / b,
            b > 0real,
    ;
    numbers::lemma_number(n);
    numbers::lemma_number_order(n, d);
    numbers::lemma_number_order(d, n);
    assert(0real <= q <= 1real) by (nonlinear_arith)
        requires
            q * b == a,
            0real <= a <= b,
            b > 0real,
    ;
    numbers::lemma_in_range(q);
    numbers::lemma_close_over(unit, n, d);
    numbers::lemma_off(x, q);
    let c = number(x);
    let width = number(ceiling) - number(floor);
    // command times width, piece by piece
    let f = c - q;
    assert(f * b == c * b - a) by (nonlinear_arith)
        requires
            f == c - q,
            q * b == a,
    ;
    numbers::lemma_size_of_product(f, b);
    numbers::lemma_multiples(size(f) * 9007199254740992real, 2real, b);
    assert((size(f) * 9007199254740992real) * b == (size(f) * b) * 9007199254740992real)
        by (nonlinear_arith);
    let g = width - b;
    assert(c * g == c * width - c * b) by (nonlinear_arith)
        requires
            g == width - b,
    ;
    numbers::lemma_size_of_product(c, g);
    numbers::lemma_multiples(c, 1real, size(g));
}

/// Steering: the axis, kept to its travel and the right way round, less the deadband at the
/// centre and stretched to fill the rest, turns the wheel by half of its range at
/// either end. Left is positive, and stays so unless the axis is inverted.
pub proof fn law_steering_follows_the_hands<F: Fn(Operation) -> Scalar>(
    calibration: Calibration,
    unit: &F,
    raw: RawInput,
    sample_index: u64,
)
    requires
        rounding(unit),
        upto(raw.steer, 1000real),
        upto(calibration.wheel_range, 1000real),
        is_finite(calibration.steer_deadband),
        0real <= number(calibration.steer_deadband) <= 1real / 2real,
    ensures
        ({
            let axis = number(raw.steer);
            let inside = if axis < -1real {
                -1real
            } else if axis > 1real {
                1real
            } else {
                axis
            };
            let turned = if calibration.invert_steer {
                -inside
            } else {
                inside
            };
            let band = number(calibration.steer_deadband);
            let part = if size(turned) < band {
                0real
            } else if turned < 0real {
                -((-turned - band) / (1real - band))
            } else {
                (turned - band) / (1real - band)
            };
            nearly(
                calibration.calibrated(unit, raw, sample_index).steering_angle_command,
                part * number(calibration.wheel_range) * (1real / 2real),
            )
        }),
{
    let band = calibration.steer_deadband;
    let inside = clamp(raw.steer, MINUS_ONE, ONE);
    numbers::lemma_unrounded(inside);
    numbers::lemma_number_order(raw.steer, MINUS_ONE);
    numbers::lemma_number_order(ONE, raw.steer);
    let turned = calibration.oriented(raw.steer);
    numbers::lemma_unrounded(turned);
    numbers::lemma_side(turned);
    let out = abs(turned);
    numbers::lemma_number_order(out, band);
    numbers::lemma_number_order(ZERO, band);
    let t = number(turned);
    let b = number(band);
    let part = calibration.centred(unit, raw.steer);
    let part_n = if size(t) < b {
        0real
    } else if t < 0real {
        -((-t - b) / (1real - b))
    } else {
        (t - b) / (1real - b)
    };
    if size(t) >= b && b > 0real {
        let beyond = minus(unit, out, band);
        numbers::lemma_within_minus(unit, out, number(out), 0real, band, b, 0real);
        let side = signum(turned);
        numbers::lemma_within_times(
            unit,
            side,
            number(side),
            0real,
            beyond,
            size(t) - b,
            10real,
            1real,
            1real,
        );
        let signed = times(unit, side, beyond);
        let signed_n = number(side) * (size(t) - b);
        let span = minus(unit, ONE, band);
        numbers::lemma_within_minus(unit, ONE, 1real, 0real, band, b, 0real);
        assert(1real * (size(t) - b) == size(t) - b && (-1real) * (size(t) - b) == -(size(t) - b))
            by (nonlinear_arith);
        lemma_stretched(unit, signed, signed_n, span, 1real - b);
        assert(part == over(unit, signed, span));
        let (x, y) = (size(t) - b, 1real - b);
        assert((-x) / y == -(x / y)) by (nonlinear_arith)
            requires
                y > 0real,
        ;
    } else if size(t) >= b {
        assert(t / 1real == t && (-t) / 1real == -t) by (nonlinear_arith);
    }
    assert(numbers::within(part, part_n, 100real) && size(part_n) <= 1real) by {
        let (x, y) = (size(t) - b, 1real - b);
        if size(t) >= b {
            let q = x / y;
            assert(q * y == x) by (nonlinear_arith)
                requires
                    q == x / y,
                    y > 0real,
            ;
            numbers::lemma_cancel(q, 1real, y);
            numbers::lemma_cancel(0real, q, y);
        }
    }
    let range = calibration.wheel_range;
    numbers::lemma_within_times(
        unit,
        part,
        part_n,
        100real,
        range,
        number(range),
        0real,
        1real,
        1000real,
    );
    numbers::lemma_within_times(
        unit,
        times(unit, part, range),
        part_n * number(range),
        200000real,
        HALF,
        1real / 2real,
        0real,
        1000real,
        1real,
    );
}

/// A part of a span, where the span is itself rounded.
proof fn lemma_stretched<F: Fn(Operation) -> Scalar>(
    unit: &F,
    a: Scalar,
    x: real,
    span: Scalar,
    y: real,
)
    requires
        rounding(unit),
        numbers::within(a, x, 30real),
        numbers::within(span, y, 10real),
        1real / 2real <= y <= 1real,
        size(x) <= y,
    ensures
        numbers::within(over(unit, a, span), x / y, 100real),
{
    let n = number(span);
    let (q, r) = (x / y, x / n);
    assert(q * y == x && r * n == x) by (nonlinear_arith)
        requires
            q == x / y,
            r == x / n,
            y > 0real,
            n > 0real,
    ;
    numbers::lemma_size_of_product(q, y);
    numbers::lemma_cancel(size(q), 1real, y);
    let (f, g) = (r - q, y - n);
    assert(f * n == q * g) by (nonlinear_arith)
        requires
            f == r - q,
            g == y - n,
            q * y == x,
            r * n == x,
    ;
    numbers::lemma_size_of_product(f, n);
    numbers::lemma_size_of_product(q, g);
    numbers::lemma_multiples(size(q), 1real, size(g));
    numbers::lemma_multiples(1real / 3real, n, size(f));
    numbers::lemma_within_over(unit, a, x, 30real, span, 2real, 62real);
}

} // verus!
