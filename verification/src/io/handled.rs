//! A device in use, and what is done with it, in order.
//!
//! The device thread's promises are about order: a torque is put on the wheel
//! after the command behind it was judged, and the last thing ever done to a
//! device is to leave it slack. So the device, and everything else the thread
//! reaches, is reached through a [`Handled`] alone, which keeps a ghost log.

use vstd::prelude::*;

use crate::generated::frames::{DriverInput, FfbCommand, TraceDevice};
use crate::io::device::{DeviceError, HapticSink, InputSource, Peripheral, RawInput};

verus! {

/// Something that was done on the device thread.
pub enum Doing {
    /// It was asked whether to stop, and this was the answer.
    Asked(bool),
    /// The device was polled, and gave this.
    Polled(Option<RawInput>),
    /// An input was published.
    Offered(DriverInput),
    /// The clock was read, and said this.
    Looked(u64),
    /// The newest command was looked for.
    Found(Option<FfbCommand>),
    /// The device was handed a command, and took it, or not.
    Applied(FfbCommand, bool),
    /// A record of the turn was handed on.
    Traced(TraceDevice),
    /// A deadline was waited for.
    Waited(u64),
    /// The device was left slack.
    Zeroed,
}

/// Everything the device thread reaches besides the device.
pub struct Links<C, L, W, T, S, Z> {
    clock: C,
    latest: L,
    publish: W,
    trace: T,
    stop: S,
    wait: Z,
}

impl<
    C: Fn() -> u64,
    L: Fn() -> Option<FfbCommand>,
    W: Fn(DriverInput),
    T: Fn(TraceDevice),
    S: Fn() -> bool,
    Z: Fn(u64),
> Links<C, L, W, T, S, Z> {
    pub closed spec fn time(self) -> C {
        self.clock
    }

    pub closed spec fn finder(self) -> L {
        self.latest
    }

    pub closed spec fn publisher(self) -> W {
        self.publish
    }

    pub closed spec fn tracer(self) -> T {
        self.trace
    }

    pub closed spec fn stopper(self) -> S {
        self.stop
    }

    pub closed spec fn waiter(self) -> Z {
        self.wait
    }

    /// Everything can be reached.
    pub open spec fn open_all(self) -> bool {
        &&& call_requires(self.time(), ())
        &&& call_requires(self.finder(), ())
        &&& forall|input: DriverInput| #[trigger] call_requires(self.publisher(), (input,))
        &&& forall|leg: TraceDevice| #[trigger] call_requires(self.tracer(), (leg,))
        &&& call_requires(self.stopper(), ())
        &&& forall|until: u64| #[trigger] call_requires(self.waiter(), (until,))
    }

    /// `clock` reads the monotonic clock, `latest` gives the newest command,
    /// `publish` takes an input, `trace` the record of a turn, `stop` says whether
    /// it is time to, and `wait` waits for a deadline.
    pub fn new(clock: C, latest: L, publish: W, trace: T, stop: S, wait: Z) -> (links: Self)
        ensures
            links.time() == clock,
            links.finder() == latest,
            links.publisher() == publish,
            links.tracer() == trace,
            links.stopper() == stop,
            links.waiter() == wait,
    {
        Links { clock, latest, publish, trace, stop, wait }
    }
}

/// A device, what its thread reaches besides, and what was done.
pub struct Handled<D, N> {
    device: D,
    links: N,
    log: Ghost<Seq<Doing>>,
}

impl<D> Handled<D, ()> {
    /// A device with nothing beside it yet.
    pub fn new(device: D) -> (handled: Self)
        ensures
            handled.held() == device,
            handled.log() == Seq::<Doing>::empty(),
    {
        Handled { device, links: (), log: Ghost(Seq::empty()) }
    }

    /// The device, and what its thread reaches besides.
    pub fn linked<N>(self, links: N) -> (handled: Handled<D, N>)
        ensures
            handled.held() == self.held(),
            handled.links() == links,
            handled.log() == self.log(),
    {
        Handled { device: self.device, links, log: self.log }
    }
}

impl<D, N> Handled<D, N> {
    /// What was done, in order.
    pub closed spec fn log(self) -> Seq<Doing> {
        self.log@
    }

    /// The device as it stands.
    pub closed spec fn held(self) -> D {
        self.device
    }

    /// What can be reached besides the device.
    pub closed spec fn links(self) -> N {
        self.links
    }

    pub fn device(&self) -> (device: &D)
        ensures
            *device == self.held(),
    {
        &self.device
    }

    /// Nothing was done to the device, and one thing beside it.
    pub open spec fn did(self, doing: Doing, after: Self) -> bool {
        &&& after.held() == self.held()
        &&& after.links() == self.links()
        &&& after.log() == self.log().push(doing)
    }
}

impl<
    D,
    C: Fn() -> u64,
    L: Fn() -> Option<FfbCommand>,
    W: Fn(DriverInput),
    T: Fn(TraceDevice),
    S: Fn() -> bool,
    Z: Fn(u64),
> Handled<D, Links<C, L, W, T, S, Z>> {
    /// Ask whether to stop.
    pub fn ask(&mut self) -> (answer: bool)
        requires
            old(self).links().open_all(),
        ensures
            old(self).did(Doing::Asked(answer), *final(self)),
            call_ensures(old(self).links().stopper(), (), answer),
    {
        let answer: bool = (self.links.stop)();
        self.log = Ghost(self.log@.push(Doing::Asked(answer)));
        answer
    }

    /// Publish an input.
    pub fn offer(&mut self, input: DriverInput)
        requires
            old(self).links().open_all(),
        ensures
            old(self).did(Doing::Offered(input), *final(self)),
            call_ensures(old(self).links().publisher(), (input,), ()),
    {
        (self.links.publish)(input);
        self.log = Ghost(self.log@.push(Doing::Offered(input)));
    }

    /// Read the clock.
    pub fn now(&mut self) -> (at: u64)
        requires
            old(self).links().open_all(),
        ensures
            old(self).did(Doing::Looked(at), *final(self)),
            call_ensures(old(self).links().time(), (), at),
    {
        let at: u64 = (self.links.clock)();
        self.log = Ghost(self.log@.push(Doing::Looked(at)));
        at
    }

    /// Look for the newest command.
    pub fn find(&mut self) -> (command: Option<FfbCommand>)
        requires
            old(self).links().open_all(),
        ensures
            old(self).did(Doing::Found(command), *final(self)),
            call_ensures(old(self).links().finder(), (), command),
    {
        let command: Option<FfbCommand> = (self.links.latest)();
        self.log = Ghost(self.log@.push(Doing::Found(command)));
        command
    }

    /// Hand on a record of a turn.
    pub fn trace(&mut self, leg: TraceDevice)
        requires
            old(self).links().open_all(),
        ensures
            old(self).did(Doing::Traced(leg), *final(self)),
            call_ensures(old(self).links().tracer(), (leg,), ()),
    {
        (self.links.trace)(leg);
        self.log = Ghost(self.log@.push(Doing::Traced(leg)));
    }

    /// Wait for a deadline.
    pub fn wait(&mut self, deadline: u64)
        requires
            old(self).links().open_all(),
        ensures
            old(self).did(Doing::Waited(deadline), *final(self)),
            call_ensures(old(self).links().waiter(), (deadline,), ()),
    {
        (self.links.wait)(deadline);
        self.log = Ghost(self.log@.push(Doing::Waited(deadline)));
    }
}

impl<D: Peripheral, N> Handled<D, N> {
    /// The device can be used.
    pub open spec fn ready(self) -> bool {
        self.held().ready()
    }
}

impl<D: InputSource, N> Handled<D, N> {
    /// Poll the device.
    pub fn poll(&mut self) -> (raw: Result<RawInput, DeviceError>)
        requires
            old(self).ready(),
        ensures
            final(self).ready(),
            final(self).links() == old(self).links(),
            final(self).log() == old(self).log().push(
                Doing::Polled(
                    match raw {
                        Ok(found) => Some(found),
                        Err(_) => None,
                    },
                ),
            ),
            final(self).held().seen() == match raw {
                Ok(found) => Some(found),
                Err(_) => None,
            },
    {
        let raw: Result<RawInput, DeviceError> = self.device.poll();
        self.log = Ghost(
            self.log@.push(
                Doing::Polled(
                    match raw {
                        Ok(found) => Some(found),
                        Err(_) => None,
                    },
                ),
            ),
        );
        raw
    }
}

impl<D: HapticSink, N> Handled<D, N> {
    /// Hand the device a command. Did it take it?
    pub fn apply(&mut self, command: &FfbCommand) -> (applied: bool)
        ensures
            old(self).ready() ==> final(self).ready(),
            final(self).links() == old(self).links(),
            final(self).held().told() == *command,
            final(self).log() == old(self).log().push(Doing::Applied(*command, applied)),
    {
        let applied: bool = self.device.apply(command).is_ok();
        self.log = Ghost(self.log@.push(Doing::Applied(*command, applied)));
        applied
    }

    /// Leave the device slack.
    pub fn zero(&mut self)
        ensures
            old(self).ready() ==> final(self).ready(),
            final(self).links() == old(self).links(),
            final(self).held().told() == FfbCommand::zero(),
            final(self).log() == old(self).log().push(Doing::Zeroed),
    {
        self.device.zero();
        self.log = Ghost(self.log@.push(Doing::Zeroed));
    }
}

} // verus!
