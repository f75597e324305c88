//! FMI 2.0 Model Exchange: the statuses an FMU answers with, and the order in
//! which it is asked.
//!
//! A Model Exchange FMU is a conversation. Each answer decides the next
//! question, and two of the exchanges -- initialisation and a step -- contain a
//! loop whose length is up to the model. That loop is bounded here: an FMU that
//! cannot settle its discrete states in `MAX_EVENT_ITERATIONS` is chattering,
//! and the step is failed rather than allowed to run long.

use vstd::prelude::*;

use crate::plant::PlantError;
use crate::scalar::Scalar;
use crate::text;
use crate::text::count_text;

verus! {

pub type ValueReference = u32;

pub type Status = i32;

pub const STATUS_OK: Status = 0;

pub const STATUS_WARNING: Status = 1;

pub const STATUS_DISCARD: Status = 2;

pub const STATUS_ERROR: Status = 3;

pub const STATUS_FATAL: Status = 4;

/// Iterations allowed for the FMU to settle its discrete states after an event.
/// Chosen to be generous for a well-posed model and still bounded.
pub const MAX_EVENT_ITERATIONS: u32 = 16;

pub open spec fn accepted(status: Status) -> bool {
    status == 0 || status == 1
}

#[verifier::when_used_as_spec(accepted)]
pub fn status_ok(status: Status) -> (ok: bool)
    ensures
        ok == accepted(status),
{
    status == STATUS_OK || status == STATUS_WARNING
}

pub open spec fn name_of_status(status: Status) -> Seq<char> {
    if status == STATUS_OK {
        "ok"@
    } else if status == STATUS_WARNING {
        "warning"@
    } else if status == STATUS_DISCARD {
        "discard"@
    } else if status == STATUS_ERROR {
        "error"@
    } else if status == STATUS_FATAL {
        "fatal"@
    } else {
        "unknown"@
    }
}

pub fn status_name(status: Status) -> (name: &'static str)
    ensures
        name@ == name_of_status(status),
{
    match status {
        STATUS_OK => "ok",
        STATUS_WARNING => "warning",
        STATUS_DISCARD => "discard",
        STATUS_ERROR => "error",
        STATUS_FATAL => "fatal",
        _ => "unknown",
    }
}

/// One question to the FMU.
#[derive(Clone, Copy, PartialEq, Eq, Structural, Debug)]
pub enum Call {
    Reset,
    SetupExperiment,
    EnterInitializationMode,
    SetInitialInputs,
    ExitInitializationMode,
    /// Ask for another round of discrete updates.
    NewDiscreteStates,
    EnterContinuousTimeMode,
    GetContinuousStates,
    SetInputs,
    /// Run the integrator over the step; the FMU answers through its
    /// derivatives.
    Integrate,
    SetTime,
    SetContinuousStates,
    CompletedIntegratorStep,
    /// Sample the event indicators and look for a change of sign.
    GetEventIndicators,
    EnterEventMode,
    GetOutputs,
    /// Nothing more to ask.
    Finished,
}

/// What the FMU said.
#[derive(Clone, Copy, PartialEq, Eq, Structural, Debug)]
pub struct Answer {
    pub status: Status,
    /// The FMU asks for the simulation to end.
    pub terminate: bool,
    /// The FMU asks for event mode, or for another round of discrete updates.
    pub again: bool,
    /// An event indicator changed sign.
    pub crossed: bool,
}

/// Where a conversation has got to.
#[derive(Clone, Copy, PartialEq, Eq, Structural, Debug)]
pub struct Exchange {
    /// The question being asked.
    pub call: Call,
    /// This is a step, not an initialisation.
    pub stepping: bool,
    /// Rounds of discrete updates asked for so far.
    pub rounds: u32,
    /// The FMU has event indicators.
    pub has_indicators: bool,
    /// The FMU publishes outputs.
    pub has_outputs: bool,
}

impl Exchange {
    pub open spec fn asking(self, call: Call) -> Self {
        Exchange { call, ..self }
    }

    /// The FMU's own name for the question, as errors quote it.
    pub open spec fn quoted(self) -> Seq<char> {
        match self.call {
            Call::Reset => "fmi2Reset"@,
            Call::SetupExperiment => "fmi2SetupExperiment"@,
            Call::EnterInitializationMode => "fmi2EnterInitializationMode"@,
            Call::SetInitialInputs => "fmi2SetReal"@,
            Call::ExitInitializationMode => "fmi2ExitInitializationMode"@,
            Call::NewDiscreteStates => "fmi2NewDiscreteStates"@,
            Call::EnterContinuousTimeMode => "fmi2EnterContinuousTimeMode"@,
            Call::GetContinuousStates => "fmi2GetContinuousStates"@,
            Call::SetInputs => "fmi2SetReal(inputs)"@,
            Call::Integrate => "fmi2GetDerivatives"@,
            Call::SetTime => "fmi2SetTime"@,
            Call::SetContinuousStates => "fmi2SetContinuousStates"@,
            Call::CompletedIntegratorStep => "fmi2CompletedIntegratorStep"@,
            Call::GetEventIndicators => "fmi2GetEventIndicators"@,
            Call::EnterEventMode => "fmi2EnterEventMode"@,
            Call::GetOutputs => "fmi2GetReal(outputs)"@,
            Call::Finished => ""@,
        }
    }

    /// The answer ends the conversation badly because of its status. A reset is
    /// attempted but not insisted on, and a failed derivative evaluation shows
    /// up as a non-finite state instead.
    pub open spec fn rejected(self, answer: Answer) -> bool {
        self.call != Call::Reset && self.call != Call::Integrate && !accepted(answer.status)
    }

    /// The answer asks for the simulation to end.
    pub open spec fn terminated(self, answer: Answer) -> bool {
        (self.call == Call::NewDiscreteStates || self.call == Call::CompletedIntegratorStep)
            && answer.terminate
    }

    /// The answer asks for one round of discrete updates too many.
    pub open spec fn chattering(self, answer: Answer) -> bool {
        self.call == Call::NewDiscreteStates && answer.again && self.rounds >= MAX_EVENT_ITERATIONS
    }

    /// The first question of reading the outputs, or the end without any.
    pub open spec fn wrapping_up(self) -> Self {
        self.asking(
            if self.has_outputs {
                Call::GetOutputs
            } else {
                Call::Finished
            },
        )
    }

    /// The next question after an acceptable answer.
    pub open spec fn following(self, answer: Answer) -> Self {
        match self.call {
            Call::Reset => self.asking(Call::SetupExperiment),
            Call::SetupExperiment => self.asking(Call::EnterInitializationMode),
            Call::EnterInitializationMode => self.asking(Call::SetInitialInputs),
            Call::SetInitialInputs => self.asking(Call::ExitInitializationMode),
            // An FMU always begins in event mode. Settle the discrete states
            // before entering continuous time, or the first derivative
            // evaluation is taken at an inconsistent operating point.
            Call::ExitInitializationMode => Exchange {
                call: Call::NewDiscreteStates,
                rounds: 1,
                ..self
            },
            Call::NewDiscreteStates => if answer.again {
                Exchange { rounds: (self.rounds + 1) as u32, ..self }
            } else {
                self.asking(Call::EnterContinuousTimeMode)
            },
            Call::EnterContinuousTimeMode => self.asking(Call::GetContinuousStates),
            Call::GetContinuousStates => if self.stepping {
                self.wrapping_up()
            } else {
                self.asking(Call::Finished)
            },
            Call::SetInputs => self.asking(Call::Integrate),
            Call::Integrate => self.asking(Call::SetTime),
            Call::SetTime => self.asking(Call::SetContinuousStates),
            Call::SetContinuousStates => self.asking(Call::CompletedIntegratorStep),
            // A fixed-step integrator cannot locate an event in time, so an
            // event is handled at the step boundary. The completed-step call
            // does not reliably report state events on its own, so the
            // indicators are sampled as well.
            Call::CompletedIntegratorStep => if answer.again {
                self.asking(Call::EnterEventMode)
            } else if self.has_indicators {
                self.asking(Call::GetEventIndicators)
            } else {
                self.wrapping_up()
            },
            Call::GetEventIndicators => if answer.crossed {
                self.asking(Call::EnterEventMode)
            } else {
                self.wrapping_up()
            },
            Call::EnterEventMode => Exchange { call: Call::NewDiscreteStates, rounds: 1, ..self },
            Call::GetOutputs => self.asking(Call::Finished),
            Call::Finished => self,
        }
    }

    /// How far the conversation is from its end, at most.
    pub open spec fn distance(self) -> int {
        match self.call {
            Call::Reset => 40,
            Call::SetupExperiment => 39,
            Call::EnterInitializationMode => 38,
            Call::SetInitialInputs => 37,
            Call::ExitInitializationMode => 36,
            Call::SetInputs => 35,
            Call::Integrate => 34,
            Call::SetTime => 33,
            Call::SetContinuousStates => 32,
            Call::CompletedIntegratorStep => 31,
            Call::GetEventIndicators => 30,
            Call::EnterEventMode => 29,
            Call::NewDiscreteStates => 4 + MAX_EVENT_ITERATIONS - self.rounds,
            Call::EnterContinuousTimeMode => 3,
            Call::GetContinuousStates => 2,
            Call::GetOutputs => 1,
            Call::Finished => 0,
        }
    }

    /// The rounds asked for are within the budget.
    pub open spec fn well_formed(self) -> bool {
        self.rounds <= MAX_EVENT_ITERATIONS
    }

    /// A conversation that initialises the FMU.
    pub fn initialise(has_indicators: bool, has_outputs: bool) -> (exchange: Self)
        ensures
            exchange == (Exchange {
                call: Call::Reset,
                stepping: false,
                rounds: 0,
                has_indicators,
                has_outputs,
            }),
            exchange.well_formed(),
    {
        Exchange {
            call: Call::Reset,
            stepping: false,
            rounds: 0,
            has_indicators,
            has_outputs,
        }
    }

    /// A conversation that takes one step.
    pub fn step(has_indicators: bool, has_outputs: bool) -> (exchange: Self)
        ensures
            exchange == (Exchange {
                call: Call::SetInputs,
                stepping: true,
                rounds: 0,
                has_indicators,
                has_outputs,
            }),
            exchange.well_formed(),
    {
        Exchange {
            call: Call::SetInputs,
            stepping: true,
            rounds: 0,
            has_indicators,
            has_outputs,
        }
    }

    pub fn call_name(&self) -> (name: &'static str)
        ensures
            name@ == self.quoted(),
    {
        match self.call {
            Call::Reset => "fmi2Reset",
            Call::SetupExperiment => "fmi2SetupExperiment",
            Call::EnterInitializationMode => "fmi2EnterInitializationMode",
            Call::SetInitialInputs => "fmi2SetReal",
            Call::ExitInitializationMode => "fmi2ExitInitializationMode",
            Call::NewDiscreteStates => "fmi2NewDiscreteStates",
            Call::EnterContinuousTimeMode => "fmi2EnterContinuousTimeMode",
            Call::GetContinuousStates => "fmi2GetContinuousStates",
            Call::SetInputs => "fmi2SetReal(inputs)",
            Call::Integrate => "fmi2GetDerivatives",
            Call::SetTime => "fmi2SetTime",
            Call::SetContinuousStates => "fmi2SetContinuousStates",
            Call::CompletedIntegratorStep => "fmi2CompletedIntegratorStep",
            Call::GetEventIndicators => "fmi2GetEventIndicators",
            Call::EnterEventMode => "fmi2EnterEventMode",
            Call::GetOutputs => "fmi2GetReal(outputs)",
            Call::Finished => "",
        }
    }

    fn wrap_up(&self) -> (next: Self)
        ensures
            next == self.wrapping_up(),
    {
        let mut next: Exchange = *self;
        next.call = if self.has_outputs {
            Call::GetOutputs
        } else {
            Call::Finished
        };
        next
    }

    fn ask(&self, call: Call) -> (next: Self)
        ensures
            next == self.asking(call),
    {
        let mut next: Exchange = *self;
        next.call = call;
        next
    }

    /// Take the FMU's answer and say what to ask next.
    ///
    /// `time` is the simulated time an error is reported at.
    pub fn advance<P: Fn(Scalar, usize) -> String>(
        &self,
        answer: &Answer,
        time: Scalar,
        print: &P,
    ) -> (next: Result<Self, PlantError>)
        requires
            self.well_formed(),
            text::prints(*print),
        ensures
            match next {
                Ok(exchange) => !self.rejected(*answer) && !self.terminated(*answer)
                    && !self.chattering(*answer) && exchange == self.following(*answer)
                    && exchange.well_formed(),
                Err(PlantError::Fmi { call, status }) => self.rejected(*answer) && call@
                    == self.quoted() && status == answer.status,
                Err(PlantError::StepFailed { detail }) => {
                    &&& !self.rejected(*answer)
                    &&& if self.terminated(*answer) {
                        detail@ == if self.call == Call::NewDiscreteStates {
                            "FMU requested termination"@
                        } else {
                            "FMU requested termination after a step"@
                        }
                    } else {
                        &&& self.chattering(*answer)
                        &&& detail@ == "FMU did not settle its discrete states in "@
                            + text::decimal(MAX_EVENT_ITERATIONS as nat) + " iterations at t="@
                            + text::printed(*print, time, 6) + "; the model is chattering"@
                    }
                },
                _ => false,
            },
    {
        let lenient: bool = matches!(self.call, Call::Reset | Call::Integrate);
        if !lenient && !status_ok(answer.status) {
            return Err(PlantError::Fmi { call: self.call_name(), status: answer.status });
        }
        let next: Exchange = match self.call {
            Call::Reset => self.ask(Call::SetupExperiment),
            Call::SetupExperiment => self.ask(Call::EnterInitializationMode),
            Call::EnterInitializationMode => self.ask(Call::SetInitialInputs),
            Call::SetInitialInputs => self.ask(Call::ExitInitializationMode),
            Call::ExitInitializationMode | Call::EnterEventMode => {
                let mut next: Exchange = self.ask(Call::NewDiscreteStates);
                next.rounds = 1;
                next
            },
            Call::NewDiscreteStates => {
                if answer.terminate {
                    return Err(
                        PlantError::StepFailed { detail: "FMU requested termination".to_owned() },
                    );
                }
                if answer.again {
                    if self.rounds >= MAX_EVENT_ITERATIONS {
                        let mut detail: String = "FMU did not settle its discrete states in "
                            .to_owned();
                        detail.append(count_text(MAX_EVENT_ITERATIONS as u64).as_str());
                        detail.append(" iterations at t=");
                        detail.append(print(time, 6).as_str());
                        detail.append("; the model is chattering");
                        return Err(PlantError::StepFailed { detail });
                    }
                    let mut next: Exchange = *self;
                    next.rounds = self.rounds + 1;
                    next
                } else {
                    self.ask(Call::EnterContinuousTimeMode)
                }
            },
            Call::EnterContinuousTimeMode => self.ask(Call::GetContinuousStates),
            Call::GetContinuousStates => if self.stepping {
                self.wrap_up()
            } else {
                self.ask(Call::Finished)
            },
            Call::SetInputs => self.ask(Call::Integrate),
            Call::Integrate => self.ask(Call::SetTime),
            Call::SetTime => self.ask(Call::SetContinuousStates),
            Call::SetContinuousStates => self.ask(Call::CompletedIntegratorStep),
            Call::CompletedIntegratorStep => {
                if answer.terminate {
                    return Err(
                        PlantError::StepFailed {
                            detail: "FMU requested termination after a step".to_owned(),
                        },
                    );
                }
                if answer.again {
                    self.ask(Call::EnterEventMode)
                } else if self.has_indicators {
                    self.ask(Call::GetEventIndicators)
                } else {
                    self.wrap_up()
                }
            },
            Call::GetEventIndicators => if answer.crossed {
                self.ask(Call::EnterEventMode)
            } else {
                self.wrap_up()
            },
            Call::GetOutputs => self.ask(Call::Finished),
            Call::Finished => *self,
        };
        Ok(next)
    }
}

/// Every conversation is bounded: each acceptable answer brings it strictly
/// nearer its end, whatever the FMU says, so a step costs at most a fixed
/// number of calls.
pub proof fn law_every_exchange_ends(exchange: Exchange, answer: Answer)
    requires
        exchange.well_formed(),
        exchange.call != Call::Finished,
        !exchange.chattering(answer),
    ensures
        0 <= exchange.following(answer).distance() < exchange.distance() <= 40,
        exchange.following(answer).well_formed(),
{
}

/// A change of sign in any event indicator. The sign of a zero counts.
pub open spec fn signs_differ(before: Seq<Scalar>, after: Seq<Scalar>) -> bool {
    exists|i: int|
        0 <= i < before.len() && i < after.len() && crate::scalar::negative(#[trigger] before[i])
            != crate::scalar::negative(after[i])
}

/// Look for a change of sign in any event indicator.
pub fn crossed_event_indicator(before: &Vec<Scalar>, after: &Vec<Scalar>) -> (crossed: bool)
    ensures
        crossed == signs_differ(before@, after@),
{
    let mut i: usize = 0;
    while i < before.len() && i < after.len()
        invariant
            i <= before@.len(),
            i <= after@.len(),
            forall|j: int|
                0 <= j < i ==> crate::scalar::negative(#[trigger] before@[j])
                    == crate::scalar::negative(after@[j]),
        decreases before@.len() - i,
    {
        if crate::scalar::is_negative(before[i]) != crate::scalar::is_negative(after[i]) {
            assert(crate::scalar::negative(before@[i as int]) != crate::scalar::negative(
                after@[i as int],
            ));
            return true;
        }
        i += 1;
    }
    false
}

} // verus!
