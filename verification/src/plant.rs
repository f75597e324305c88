//! The plant boundary.
//!
//! One trait, one integration path, three implementations. Nothing in this
//! module knows that a steering wheel, a screen, or a driver exists -- it
//! consumes a `DriverInput` and produces a `VehicleState`, and that is the
//! entire contract.

use vstd::prelude::*;

use crate::generated::frames::{DriverInput, Frame, VehicleState};
use crate::plant::integrator::StateVector;
use crate::scalar::{Scalar, ZERO};
use crate::text;
use crate::text::{count_text, signed_text};

pub mod fmi2;
pub mod fmu_me;
pub mod integrator;
pub mod ladder;
pub mod metered;
pub mod reduced;

verus! {

/// Why a plant could not do what was asked.
#[derive(Debug)]
pub enum PlantError {
    /// The model produced NaN or infinity. Always fatal for the session: a
    /// non-finite state cannot be recovered from and must never reach the wheel.
    NonFinite { field: &'static str, step: u64 },
    /// The solver could not complete a step within its iteration budget.
    StepFailed { detail: String },
    /// The FMU rejected a call, or could not be loaded.
    Fmi { call: &'static str, status: i32 },
    Load { detail: String },
    /// A tunable id that this kernel does not expose.
    UnknownTunable { id: u32 },
    OutOfRange { id: u32, value: Scalar, min: Scalar, max: Scalar },
    Unsupported { what: &'static str },
}

/// What a `PlantError` says.
pub enum Fault {
    NonFinite { field: Seq<char>, step: u64 },
    StepFailed { detail: Seq<char> },
    Fmi { call: Seq<char>, status: i32 },
    Load { detail: Seq<char> },
    UnknownTunable { id: u32 },
    OutOfRange { id: u32, value: Scalar, min: Scalar, max: Scalar },
    Unsupported { what: Seq<char> },
}

impl Fault {
    pub open spec fn explained<P: Fn(Scalar, usize) -> String>(self, print: P) -> Seq<char> {
        match self {
            Fault::NonFinite { field, step } => "plant produced a non-finite "@ + field
                + " at step "@ + text::decimal(step as nat),
            Fault::StepFailed { detail } => "step failed: "@ + detail,
            Fault::Fmi { call, status } => "FMI call "@ + call + " returned status "@
                + text::signed(status as int),
            Fault::Load { detail } => "could not load plant: "@ + detail,
            Fault::UnknownTunable { id } => "no tunable with id "@ + text::decimal(id as nat),
            Fault::OutOfRange { id, value, min, max } => "tunable "@ + text::decimal(id as nat)
                + " value "@ + text::printed(print, value, text::SHORTEST) + " is outside ["@
                + text::printed(print, min, text::SHORTEST) + ", "@ + text::printed(
                print,
                max,
                text::SHORTEST,
            ) + "]"@,
            Fault::Unsupported { what } => "this kernel does not support "@ + what,
        }
    }
}

impl View for PlantError {
    type V = Fault;

    open spec fn view(&self) -> Fault {
        match *self {
            PlantError::NonFinite { field, step } => Fault::NonFinite { field: field@, step },
            PlantError::StepFailed { detail } => Fault::StepFailed { detail: detail@ },
            PlantError::Fmi { call, status } => Fault::Fmi { call: call@, status },
            PlantError::Load { detail } => Fault::Load { detail: detail@ },
            PlantError::UnknownTunable { id } => Fault::UnknownTunable { id },
            PlantError::OutOfRange { id, value, min, max } => Fault::OutOfRange {
                id,
                value,
                min,
                max,
            },
            PlantError::Unsupported { what } => Fault::Unsupported { what: what@ },
        }
    }
}

impl PlantError {
    pub open spec fn explained<P: Fn(Scalar, usize) -> String>(self, print: P) -> Seq<char> {
        self@.explained(print)
    }

    pub fn message<P: Fn(Scalar, usize) -> String>(&self, print: &P) -> (message: String)
        requires
            text::prints(*print),
        ensures
            message@ == self.explained(*print),
    {
        match self {
            PlantError::NonFinite { field, step } => {
                let mut m: String = "plant produced a non-finite ".to_owned();
                m.append(*field);
                m.append(" at step ");
                m.append(count_text(*step).as_str());
                m
            },
            PlantError::StepFailed { detail } => {
                let mut m: String = "step failed: ".to_owned();
                m.append(detail.as_str());
                m
            },
            PlantError::Fmi { call, status } => {
                let mut m: String = "FMI call ".to_owned();
                m.append(*call);
                m.append(" returned status ");
                m.append(signed_text(*status).as_str());
                m
            },
            PlantError::Load { detail } => {
                let mut m: String = "could not load plant: ".to_owned();
                m.append(detail.as_str());
                m
            },
            PlantError::UnknownTunable { id } => {
                let mut m: String = "no tunable with id ".to_owned();
                m.append(count_text(*id as u64).as_str());
                m
            },
            PlantError::OutOfRange { id, value, min, max } => {
                let mut m: String = "tunable ".to_owned();
                m.append(count_text(*id as u64).as_str());
                m.append(" value ");
                m.append(print(*value, text::SHORTEST).as_str());
                m.append(" is outside [");
                m.append(print(*min, text::SHORTEST).as_str());
                m.append(", ");
                m.append(print(*max, text::SHORTEST).as_str());
                m.append("]");
                m
            },
            PlantError::Unsupported { what } => {
                let mut m: String = "this kernel does not support ".to_owned();
                m.append(*what);
                m
            },
        }
    }
}

/// How a session starts. A session always begins at rest unless the engineer
/// asks otherwise, which is exactly the operating point where
/// velocity-normalised tire models are most fragile.
#[derive(Clone, Copy, PartialEq, Eq, Structural, Debug)]
pub struct InitialConditions {
    pub speed: Scalar,
    pub steering_angle: Scalar,
}

impl InitialConditions {
    pub open spec fn rest() -> Self {
        InitialConditions { speed: ZERO, steering_angle: ZERO }
    }
}

impl Default for InitialConditions {
    fn default() -> (init: Self)
        ensures
            init == Self::rest(),
    {
        InitialConditions { speed: ZERO, steering_angle: ZERO }
    }
}

/// What a kernel can do, so the runner never has to special-case an implementation.
#[derive(Clone, Debug)]
pub struct KernelCaps {
    /// Which rung of the ladder this is (`generated::frames::kernel_id`).
    pub id: u64,
    pub name: String,
    /// Largest fixed step at which this kernel is numerically stable. The
    /// runner refuses a configured dt above this rather than producing a
    /// plausible-looking divergence a driver would feel as "vague".
    pub max_stable_dt: Scalar,
    pub continuous_states: usize,
    /// Whether parameters can be changed without a recompile.
    pub supports_tunables: bool,
}

/// What `KernelCaps` says.
pub struct Description {
    pub id: u64,
    pub name: Seq<char>,
    pub max_stable_dt: Scalar,
    pub continuous_states: usize,
    pub supports_tunables: bool,
}

impl KernelCaps {
    pub open spec fn described(self) -> Description {
        Description {
            id: self.id,
            name: self.name@,
            max_stable_dt: self.max_stable_dt,
            continuous_states: self.continuous_states,
            supports_tunables: self.supports_tunables,
        }
    }
}

/// What the driver asks of the plant, and nothing else of an input.
pub open spec fn asked(input: DriverInput) -> DriverInput {
    DriverInput {
        steering_angle_command: input.steering_angle_command,
        accelerator_pedal_command: input.accelerator_pedal_command,
        brake_pedal_command: input.brake_pedal_command,
        ..DriverInput::zero()
    }
}

/// The three commands of an input. When it was sampled, and where the axes stood,
/// is for the record and not for the physics.
pub fn commands(input: &DriverInput) -> (bare: DriverInput)
    ensures
        bare == asked(*input),
{
    let mut bare: DriverInput = DriverInput::default();
    bare.steering_angle_command = input.steering_angle_command;
    bare.accelerator_pedal_command = input.accelerator_pedal_command;
    bare.brake_pedal_command = input.brake_pedal_command;
    bare
}

/// A plant's frame: it repeats the commands it was given, so that a recording is
/// also the script that reproduces it, and says nothing of the machine it was
/// computed on.
pub open spec fn repeats(state: VehicleState, input: DriverInput) -> bool {
    &&& state.steering_angle_command == input.steering_angle_command
    &&& state.accelerator_pedal_command == input.accelerator_pedal_command
    &&& state.brake_pedal_command == input.brake_pedal_command
    &&& state.host_time_ns == 0
    &&& state.rtf == ZERO
    &&& state.step_time_us == ZERO
    &&& state.step_time_p99_us == ZERO
    &&& state.deadline_misses == 0
    &&& state.fault_flags == 0
}

/// How many steps a plant is good for, in statements about it.
pub type Steps = nat;

/// The physics contract.
///
/// A plant is a deterministic machine: what it does next depends on its state
/// and on what it is given, and on nothing else. That is what replay and every
/// comparison of two setups rest on.
pub trait PlantKernel: Sized {
    /// Everything that decides what the plant does next.
    type Machine;

    spec fn machine(&self) -> Self::Machine;

    spec fn well_formed(&self) -> bool;

    /// The machine has at least `steps` more steps in it.
    spec fn lasts(machine: Self::Machine, steps: Steps) -> bool;

    /// The machine after a reset, and whether the reset was carried out.
    spec fn restarted(machine: Self::Machine, init: InitialConditions) -> (Self::Machine, bool);

    /// The machine after a step, and what the step gave.
    spec fn advanced(
        machine: Self::Machine,
        input: DriverInput,
        dt: Scalar,
    ) -> (Self::Machine, Option<VehicleState>);

    /// The machine after a change to one of its parameters, and whether it was
    /// accepted.
    spec fn retuned(machine: Self::Machine, id: u32, value: Scalar) -> (Self::Machine, bool);

    /// What the plant says where a reset is not carried out.
    spec fn reset_fault(machine: Self::Machine, init: InitialConditions) -> Fault;

    /// What the plant says where a step gives nothing.
    spec fn step_fault(machine: Self::Machine, input: DriverInput, dt: Scalar) -> Fault;

    /// What the plant says where a change is not accepted.
    spec fn tuning_fault(machine: Self::Machine, id: u32, value: Scalar) -> Fault;

    spec fn description(machine: Self::Machine) -> Description;

    /// The continuous state vector.
    spec fn states(machine: Self::Machine) -> StateVector;

    /// Every step uses up at most one of the steps left; nothing else does.
    proof fn lasting(
        machine: Self::Machine,
        input: DriverInput,
        dt: Scalar,
        init: InitialConditions,
        id: u32,
        value: Scalar,
        steps: Steps,
    )
        requires
            Self::lasts(machine, steps),
        ensures
            steps > 0 ==> Self::lasts(Self::advanced(machine, input, dt).0, (steps - 1) as nat),
            Self::lasts(Self::restarted(machine, init).0, steps),
            Self::lasts(Self::retuned(machine, id, value).0, steps),
    ;

    /// A machine good for some number of steps is good for fewer.
    proof fn lasting_less(machine: Self::Machine, steps: Steps, fewer: Steps)
        requires
            Self::lasts(machine, steps),
            fewer <= steps,
        ensures
            Self::lasts(machine, fewer),
    ;

    /// A plant is driven by the commands of an input and by nothing else of it, its
    /// frames repeat them, and it leaves alone what only the loop knows.
    proof fn repeating(machine: Self::Machine, input: DriverInput, dt: Scalar)
        ensures
            Self::advanced(machine, input, dt) == Self::advanced(machine, asked(input), dt),
            Self::advanced(machine, input, dt).1 matches Some(state) ==> repeats(state, input),
    ;

    fn reset(&mut self, init: &InitialConditions) -> (done: Result<(), PlantError>)
        requires
            old(self).well_formed(),
            Self::lasts(old(self).machine(), 0),
        ensures
            final(self).well_formed(),
            final(self).machine() == Self::restarted(old(self).machine(), *init).0,
            done is Ok == Self::restarted(old(self).machine(), *init).1,
            done matches Err(error) ==> error@ == Self::reset_fault(old(self).machine(), *init),
    ;

    /// Advance the plant by exactly `dt` and return the resulting state.
    ///
    /// Implementations fill the physics and pose fields. The loop fills the
    /// health fields (`rtf`, `step_time_us`, `fault_flags`, ...) afterwards,
    /// because only it knows what the step cost in wall-clock terms.
    fn step(&mut self, input: &DriverInput, dt: Scalar) -> (state: Result<VehicleState, PlantError>)
        requires
            old(self).well_formed(),
            Self::lasts(old(self).machine(), 1),
        ensures
            final(self).well_formed(),
            final(self).machine() == Self::advanced(old(self).machine(), *input, dt).0,
            match Self::advanced(old(self).machine(), *input, dt).1 {
                Some(given) => state == Ok::<VehicleState, PlantError>(given),
                None => state matches Err(error) && error@ == Self::step_fault(
                    old(self).machine(),
                    *input,
                    dt,
                ),
            },
    ;

    fn set_tunable(&mut self, id: u32, value: Scalar) -> (done: Result<(), PlantError>)
        requires
            old(self).well_formed(),
            Self::lasts(old(self).machine(), 0),
        ensures
            final(self).well_formed(),
            final(self).machine() == Self::retuned(old(self).machine(), id, value).0,
            done is Ok == Self::retuned(old(self).machine(), id, value).1,
            done matches Err(error) ==> error@ == Self::tuning_fault(
                old(self).machine(),
                id,
                value,
            ),
    ;

    fn capabilities(&self) -> (caps: KernelCaps)
        requires
            self.well_formed(),
        ensures
            caps.described() == Self::description(self.machine()),
    ;

    /// Continuous state vector, for determinism checks and for the harness that
    /// compares one kernel against another.
    fn state_vector(&self) -> (state: &Vec<Scalar>)
        requires
            self.well_formed(),
        ensures
            state@ == Self::states(self.machine()),
    ;
}

/// The field at `index` is the first that is not finite.
pub open spec fn first_unsound(state: VehicleState, index: int) -> bool {
    &&& 0 <= index < VehicleState::size()
    &&& !state.sound(index)
    &&& forall|j: int| 0 <= j < index ==> #[trigger] state.sound(j)
}

/// The complaint about the first field of `state` that is not finite.
pub open spec fn nonfinite(state: VehicleState, step: u64) -> Fault {
    Fault::NonFinite {
        field: VehicleState::name_of(choose|index: int| first_unsound(state, index)),
        step,
    }
}

/// Shared guard: reject a non-finite plant output at the source.
///
/// Called by every implementation before returning. This is the first of the
/// two independent NaN barriers -- the second is in the force-feedback chain --
/// because a NaN torque reaching a direct-drive wheel is a physical hazard, not
/// a rendering artifact.
pub fn guard_finite(state: &VehicleState, step: u64) -> (verdict: Result<(), PlantError>)
    ensures
        verdict is Ok == state.all_sound(),
        verdict matches Err(error) ==> error@ == nonfinite(*state, step),
{
    let mut index: usize = 0;
    while index < 33
        invariant
            index <= 33,
            forall|j: int| 0 <= j < index ==> #[trigger] state.sound(j),
        decreases 33 - index,
    {
        if !state.is_sound(index) {
            proof {
                assert(first_unsound(*state, index as int));
                let first = choose|i: int| first_unsound(*state, i);
                assert(first_unsound(*state, first));
                assert(first == index) by {
                    if first < index {
                        assert(state.sound(first));
                    } else if index < first {
                        assert(state.sound(index as int));
                    }
                }
            }
            return Err(PlantError::NonFinite { field: VehicleState::field_name(index), step });
        }
        index += 1;
    }
    Ok(())
}

} // verus!
