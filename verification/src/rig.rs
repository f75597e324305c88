//! What the step thread is connected to, and what it does with it, in order.
//!
//! When a clock is read matters as much as what it says: a deadline judged by a
//! reading from before the plant's step is no judgement of that step. So
//! everything outside the kernel is reached through the types here, which keep a
//! ghost log of what was done, and every function that is about time says what it
//! added to the log.

use vstd::prelude::*;

use crate::generated::frames::{DriverInput, FfbCommand, TraceStep, VehicleState};
use crate::plant::{InitialConditions, KernelCaps, PlantError, PlantKernel};
use crate::scalar::Scalar;
use crate::sys::SysError;

verus! {

/// Something that was done.
pub enum Event {
    /// The clock was read, and said this.
    Looked(u64),
    /// The plant was reset.
    Reset,
    /// The plant was stepped.
    Stepped,
    /// It was asked whether to stop, and this was the answer.
    Asked(bool),
    /// The newest input was read.
    Read(Option<DriverInput>),
    /// A frame and a torque were published.
    Published(VehicleState, FfbCommand),
    /// A torque was published alone.
    Silenced(FfbCommand),
    /// The spans of a step were handed on.
    Traced(TraceStep),
    /// A frame was handed on to be kept, and there was room for it, or not.
    Recorded(VehicleState, bool),
    /// A deadline was waited for.
    Waited(u64),
}

/// The clock never runs backwards in `log`.
pub open spec fn steady(log: Seq<Event>) -> bool {
    forall|i: int, j: int|
        0 <= i < j < log.len() ==> match (#[trigger] log[i], #[trigger] log[j]) {
            (Event::Looked(sooner), Event::Looked(later)) => sooner <= later,
            _ => true,
        }
}

/// A plant and a clock.
pub struct Timed<K, C> {
    plant: K,
    clock: C,
    log: Ghost<Seq<Event>>,
}

impl<K: PlantKernel, C: Fn() -> u64> Timed<K, C> {
    /// What was done, in order.
    pub closed spec fn log(self) -> Seq<Event> {
        self.log@
    }

    pub closed spec fn machine(self) -> K::Machine {
        self.plant.machine()
    }

    pub closed spec fn time(self) -> C {
        self.clock
    }

    /// `event` is what becomes of a plant and a clock: the plant was used, or the
    /// clock was looked at, and gave what it says.
    pub open spec fn vouches(self, event: Event) -> bool {
        match event {
            Event::Looked(at) => call_ensures(self.time(), (), at),
            Event::Reset | Event::Stepped => true,
            _ => false,
        }
    }

    /// Everything in the log from `start` on is vouched for.
    pub open spec fn vouches_from(self, start: int) -> bool {
        forall|k: int|
            start <= k < self.log().len() ==> self.vouches(#[trigger] self.log()[k])
    }

    /// The plant is in order, and the clock can be read.
    pub closed spec fn sound(self) -> bool {
        &&& self.plant.well_formed()
        &&& call_requires(self.clock, ())
    }

    pub fn new(plant: K, clock: C) -> (timed: Self)
        requires
            plant.well_formed(),
            call_requires(clock, ()),
        ensures
            timed.sound(),
            timed.machine() == plant.machine(),
            timed.time() == clock,
            timed.log() == Seq::<Event>::empty(),
    {
        Timed { plant, clock, log: Ghost(Seq::empty()) }
    }

    /// Read the clock.
    pub fn now(&mut self) -> (at: u64)
        requires
            old(self).sound(),
        ensures
            final(self).sound(),
            final(self).machine() == old(self).machine(),
            final(self).time() == old(self).time(),
            call_ensures(old(self).time(), (), at),
            final(self).log() == old(self).log().push(Event::Looked(at)),
    {
        let at: u64 = (self.clock)();
        self.log = Ghost(self.log@.push(Event::Looked(at)));
        at
    }

    /// Reset the plant.
    pub fn reset(&mut self, init: &InitialConditions) -> (done: Result<(), PlantError>)
        requires
            old(self).sound(),
            K::lasts(old(self).machine(), 0),
        ensures
            final(self).sound(),
            final(self).time() == old(self).time(),
            final(self).machine() == K::restarted(old(self).machine(), *init).0,
            done is Ok == K::restarted(old(self).machine(), *init).1,
            done matches Err(error) ==> error@ == K::reset_fault(old(self).machine(), *init),
            final(self).log() == old(self).log().push(Event::Reset),
    {
        self.log = Ghost(self.log@.push(Event::Reset));
        self.plant.reset(init)
    }

    /// Step the plant.
    pub fn step(&mut self, input: &DriverInput, dt: Scalar) -> (state: Result<
        VehicleState,
        PlantError,
    >)
        requires
            old(self).sound(),
            K::lasts(old(self).machine(), 1),
        ensures
            final(self).sound(),
            final(self).time() == old(self).time(),
            final(self).machine() == K::advanced(old(self).machine(), *input, dt).0,
            match K::advanced(old(self).machine(), *input, dt).1 {
                Some(given) => state == Ok::<VehicleState, PlantError>(given),
                None => state matches Err(error) && error@ == K::step_fault(
                    old(self).machine(),
                    *input,
                    dt,
                ),
            },
            final(self).log() == old(self).log().push(Event::Stepped),
    {
        self.log = Ghost(self.log@.push(Event::Stepped));
        self.plant.step(input, dt)
    }

    pub fn capabilities(&self) -> (caps: KernelCaps)
        requires
            self.sound(),
        ensures
            caps.described() == K::description(self.machine()),
    {
        self.plant.capabilities()
    }

    /// The plant back, as it now stands.
    pub fn into_plant(self) -> (plant: K)
        requires
            self.sound(),
        ensures
            plant.well_formed(),
            plant.machine() == self.machine(),
    {
        self.plant
    }
}

/// Everybody who is to hear of a step.
pub struct Lines<I, W, Q, T, R, S, Z> {
    read: I,
    publish: W,
    silence: Q,
    trace: T,
    record: R,
    stop: S,
    wait: Z,
}

impl<
    I: Fn() -> Option<DriverInput>,
    W: Fn(VehicleState, FfbCommand),
    Q: Fn(FfbCommand),
    T: Fn(TraceStep),
    R: Fn(VehicleState) -> bool,
    S: Fn() -> bool,
    Z: Fn(u64),
> Lines<I, W, Q, T, R, S, Z> {
    pub closed spec fn reader(self) -> I {
        self.read
    }

    pub closed spec fn publisher(self) -> W {
        self.publish
    }

    pub closed spec fn silencer(self) -> Q {
        self.silence
    }

    pub closed spec fn tracer(self) -> T {
        self.trace
    }

    pub closed spec fn recorder(self) -> R {
        self.record
    }

    pub closed spec fn stopper(self) -> S {
        self.stop
    }

    pub closed spec fn waiter(self) -> Z {
        self.wait
    }

    /// Everybody can be reached.
    pub open spec fn open_all(self) -> bool {
        &&& call_requires(self.reader(), ())
        &&& forall|state: VehicleState, command: FfbCommand| #[trigger]
            call_requires(self.publisher(), (state, command))
        &&& forall|command: FfbCommand| #[trigger] call_requires(self.silencer(), (command,))
        &&& forall|span: TraceStep| #[trigger] call_requires(self.tracer(), (span,))
        &&& forall|state: VehicleState| #[trigger] call_requires(self.recorder(), (state,))
        &&& call_requires(self.stopper(), ())
        &&& forall|deadline: u64| #[trigger] call_requires(self.waiter(), (deadline,))
    }

    /// `read` gives the newest input, `publish` takes a frame and a torque,
    /// `silence` a torque alone, `trace` the spans of a step, `record` a frame to
    /// be kept, saying whether there was room for it, `stop` says whether it is
    /// time to, and `wait` waits for a deadline.
    pub fn new(
        read: I,
        publish: W,
        silence: Q,
        trace: T,
        record: R,
        stop: S,
        wait: Z,
    ) -> (lines: Self)
        ensures
            lines.reader() == read,
            lines.publisher() == publish,
            lines.silencer() == silence,
            lines.tracer() == trace,
            lines.recorder() == record,
            lines.stopper() == stop,
            lines.waiter() == wait,
    {
        Lines { read, publish, silence, trace, record, stop, wait }
    }
}

/// A plant and a clock, and everybody who is to hear of it.
pub struct Rig<K, C, I, W, Q, T, R, S, Z> {
    pub core: Timed<K, C>,
    pub lines: Lines<I, W, Q, T, R, S, Z>,
}

impl<
    K: PlantKernel,
    C: Fn() -> u64,
    I: Fn() -> Option<DriverInput>,
    W: Fn(VehicleState, FfbCommand),
    Q: Fn(FfbCommand),
    T: Fn(TraceStep),
    R: Fn(VehicleState) -> bool,
    S: Fn() -> bool,
    Z: Fn(u64),
> Rig<K, C, I, W, Q, T, R, S, Z> {
    pub open spec fn log(self) -> Seq<Event> {
        self.core.log()
    }

    /// `event` is what became of using the clock or one of the lines: an answer that
    /// was given, or something that was taken.
    pub open spec fn vouches(self, event: Event) -> bool {
        match event {
            Event::Looked(at) => call_ensures(self.core.time(), (), at),
            Event::Asked(answer) => call_ensures(self.lines.stopper(), (), answer),
            Event::Read(input) => call_ensures(self.lines.reader(), (), input),
            Event::Published(state, command) => call_ensures(
                self.lines.publisher(),
                (state, command),
                (),
            ),
            Event::Silenced(command) => call_ensures(self.lines.silencer(), (command,), ()),
            Event::Traced(span) => call_ensures(self.lines.tracer(), (span,), ()),
            Event::Recorded(state, kept) => call_ensures(self.lines.recorder(), (state,), kept),
            Event::Waited(deadline) => call_ensures(self.lines.waiter(), (deadline,), ()),
            Event::Reset | Event::Stepped => true,
        }
    }

    /// Everything in the log from `start` on is vouched for.
    pub open spec fn vouches_from(self, start: int) -> bool {
        forall|k: int|
            start <= k < self.log().len() ==> self.vouches(#[trigger] self.log()[k])
    }

    /// Nothing but the log has changed, and that by one event.
    pub open spec fn did(self, event: Event, after: Self) -> bool {
        &&& after.lines == self.lines
        &&& after.core.machine() == self.core.machine()
        &&& after.core.time() == self.core.time()
        &&& after.core.sound() == self.core.sound()
        &&& after.log() == self.log().push(event)
    }

    fn note(&mut self, event: Ghost<Event>)
        ensures
            old(self).did(event@, *final(self)),
    {
        self.core.log = Ghost(self.core.log@.push(event@));
    }

    /// Is it time to stop?
    pub fn asked(&mut self) -> (answer: bool)
        requires
            old(self).lines.open_all(),
        ensures
            old(self).did(Event::Asked(answer), *final(self)),
            call_ensures(old(self).lines.stopper(), (), answer),
    {
        let answer: bool = (self.lines.stop)();
        self.note(Ghost(Event::Asked(answer)));
        answer
    }

    /// The newest input.
    pub fn input(&mut self) -> (input: Option<DriverInput>)
        requires
            old(self).lines.open_all(),
        ensures
            old(self).did(Event::Read(input), *final(self)),
            call_ensures(old(self).lines.reader(), (), input),
    {
        let input: Option<DriverInput> = (self.lines.read)();
        self.note(Ghost(Event::Read(input)));
        input
    }

    /// Publish a frame and a torque.
    pub fn publish(&mut self, state: VehicleState, command: FfbCommand)
        requires
            old(self).lines.open_all(),
        ensures
            old(self).did(Event::Published(state, command), *final(self)),
            call_ensures(old(self).lines.publisher(), (state, command), ()),
    {
        (self.lines.publish)(state, command);
        self.note(Ghost(Event::Published(state, command)));
    }

    /// Publish a torque alone.
    pub fn silence(&mut self, command: FfbCommand)
        requires
            old(self).lines.open_all(),
        ensures
            old(self).did(Event::Silenced(command), *final(self)),
            call_ensures(old(self).lines.silencer(), (command,), ()),
    {
        (self.lines.silence)(command);
        self.note(Ghost(Event::Silenced(command)));
    }

    /// Hand on the spans of a step.
    pub fn trace(&mut self, span: TraceStep)
        requires
            old(self).lines.open_all(),
        ensures
            old(self).did(Event::Traced(span), *final(self)),
            call_ensures(old(self).lines.tracer(), (span,), ()),
    {
        (self.lines.trace)(span);
        self.note(Ghost(Event::Traced(span)));
    }

    /// Hand on a frame to be kept. Was there room for it?
    pub fn record(&mut self, state: VehicleState) -> (kept: bool)
        requires
            old(self).lines.open_all(),
        ensures
            old(self).did(Event::Recorded(state, kept), *final(self)),
            call_ensures(old(self).lines.recorder(), (state,), kept),
    {
        assert(call_requires(self.lines.recorder(), (state,)));
        let kept: bool = (self.lines.record)(state);
        self.note(Ghost(Event::Recorded(state, kept)));
        kept
    }

    /// Wait for a deadline.
    pub fn wait(&mut self, deadline: u64)
        requires
            old(self).lines.open_all(),
        ensures
            old(self).did(Event::Waited(deadline), *final(self)),
            call_ensures(old(self).lines.waiter(), (deadline,), ()),
    {
        (self.lines.wait)(deadline);
        self.note(Ghost(Event::Waited(deadline)));
    }
}

/// Something that was done with a clock and a bed.
pub enum Tick {
    /// The clock was read, and said this.
    Looked(u64),
    /// There was a sleep to this point, and it went like this.
    Slept(u64, Result<(), SysError>),
}

/// A clock, and something to sleep by it.
pub struct Timer<C, S> {
    clock: C,
    sleep: S,
    log: Ghost<Seq<Tick>>,
}

impl<C: Fn() -> u64, S: Fn(u64) -> Result<(), SysError>> Timer<C, S> {
    /// What was done, in order.
    pub closed spec fn log(self) -> Seq<Tick> {
        self.log@
    }

    pub closed spec fn time(self) -> C {
        self.clock
    }

    pub closed spec fn bed(self) -> S {
        self.sleep
    }

    /// `tick` is what the clock gave, or what the sleep did.
    pub open spec fn vouches(self, tick: Tick) -> bool {
        match tick {
            Tick::Looked(at) => call_ensures(self.time(), (), at),
            Tick::Slept(until, outcome) => call_ensures(self.bed(), (until,), outcome),
        }
    }

    /// Everything in the log from `start` on is vouched for.
    pub open spec fn vouches_from(self, start: int) -> bool {
        forall|k: int|
            start <= k < self.log().len() ==> self.vouches(#[trigger] self.log()[k])
    }

    /// The clock can be read, and any point be slept to.
    pub open spec fn wound(self) -> bool {
        &&& call_requires(self.time(), ())
        &&& forall|until: u64| #[trigger] call_requires(self.bed(), (until,))
    }

    /// `clock` reads the monotonic clock, and `sleep` sleeps to an absolute point
    /// on it.
    pub fn new(clock: C, sleep: S) -> (timer: Self)
        ensures
            timer.time() == clock,
            timer.bed() == sleep,
            timer.log() == Seq::<Tick>::empty(),
    {
        Timer { clock, sleep, log: Ghost(Seq::empty()) }
    }

    /// Read the clock.
    pub fn now(&mut self) -> (at: u64)
        requires
            old(self).wound(),
        ensures
            final(self).time() == old(self).time(),
            final(self).bed() == old(self).bed(),
            call_ensures(old(self).time(), (), at),
            final(self).log() == old(self).log().push(Tick::Looked(at)),
    {
        let at: u64 = (self.clock)();
        self.log = Ghost(self.log@.push(Tick::Looked(at)));
        at
    }

    /// Sleep to a point.
    pub fn sleep(&mut self, until: u64) -> (outcome: Result<(), SysError>)
        requires
            old(self).wound(),
        ensures
            final(self).time() == old(self).time(),
            final(self).bed() == old(self).bed(),
            call_ensures(old(self).bed(), (until,), outcome),
            final(self).log() == old(self).log().push(Tick::Slept(until, outcome)),
    {
        assert(call_requires(self.bed(), (until,)));
        let outcome: Result<(), SysError> = (self.sleep)(until);
        self.log = Ghost(self.log@.push(Tick::Slept(until, outcome)));
        outcome
    }
}

} // verus!
