//! The device thread.
//!
//! It does two things, at device rate, and nothing else: sample the wheel and
//! pedals into the input channel, and take the latest conditioned torque out of
//! the feedback channel and put it on the device.
//!
//! It is a separate thread from the step thread for one reason: a USB
//! transaction can block for milliseconds, and the plant must never wait on one.
//! It carries its own watchdog because it is the last component before the
//! hardware -- if the step thread stops publishing entirely (deadlocked, stopped,
//! suspended in a debugger), nothing upstream can help, and this thread is what
//! makes the wheel go slack instead of staying locked.

use vstd::prelude::*;

use crate::arith;
use crate::arith::{from_count, times, Operation};
use crate::generated::frames::{ffb_flags, trace_flags, DriverInput, FfbCommand, TraceDevice};
use crate::io::device::{Calibration, DeviceError, HapticSink, InputSource, RawInput};
use crate::io::ffb;
use crate::io::handled::{Doing, Handled, Links};
use crate::io::watchdog;
use crate::io::watchdog::{command_is_fresh, Verdict, Watchdog, WatchdogConfig};
use crate::metrics;
use crate::metrics::NANO;
use crate::scalar;
use crate::scalar::{is_finite, Scalar, ZERO};

verus! {

#[derive(Clone, Copy, PartialEq, Eq, Structural, Debug)]
pub struct HidConfig {
    /// Device poll period. 1 kHz matches what a modern wheel base reports at.
    pub period_ns: u64,
    pub calibration: Calibration,
    /// A feedback command older than this is treated as absent. Sized at a few
    /// step periods: long enough not to trip on ordinary jitter, short enough
    /// that a dead step thread is caught before a driver can be hurt.
    pub max_command_age_ns: u64,
    pub watchdog: WatchdogConfig,
    pub spin_ns: u64,
}

impl HidConfig {
    /// A millisecond, commands up to eight old, and a watchdog that starts a
    /// 40 ms ramp at the third miss.
    pub open spec fn standard() -> Self {
        HidConfig {
            period_ns: 1_000_000,
            calibration: Calibration::standard(),
            max_command_age_ns: 8_000_000,
            watchdog: WatchdogConfig {
                miss_limit: 3,
                ramp_ms: 0x4044_0000_0000_0000,
                recovery_streak: 30,
            },
            spin_ns: 60_000,
        }
    }
}

impl Default for HidConfig {
    fn default() -> (config: Self)
        ensures
            config == Self::standard(),
    {
        HidConfig {
            period_ns: 1_000_000,
            calibration: Calibration::default(),
            max_command_age_ns: 8_000_000,
            watchdog: WatchdogConfig {
                miss_limit: 3,
                ramp_ms: 0x4044_0000_0000_0000,
                recovery_streak: 30,
            },
            spin_ns: 60_000,
        }
    }
}

/// Counters the session surfaces. They wrap.
#[derive(Clone, Copy, PartialEq, Eq, Structural, Debug)]
pub struct HidStats {
    pub samples: u64,
    pub poll_errors: u64,
    pub apply_errors: u64,
    /// Commands rejected as stale. Any sustained count here means the step
    /// thread is not keeping up and the driver is not feeling the model.
    pub stale_commands: u64,
}

impl HidStats {
    pub open spec fn zero() -> Self {
        HidStats { samples: 0, poll_errors: 0, apply_errors: 0, stale_commands: 0 }
    }
}

impl Default for HidStats {
    fn default() -> (stats: Self)
        ensures
            stats == Self::zero(),
    {
        HidStats { samples: 0, poll_errors: 0, apply_errors: 0, stale_commands: 0 }
    }
}

// --- what is decided ------------------------------------------------------------------

/// There is a command, and it is young enough.
pub open spec fn usable(command: Option<FfbCommand>, now: u64, max_age_ns: u64) -> bool {
    match command {
        Some(found) => watchdog::fresh(found.host_time_ns, now, max_age_ns),
        None => false,
    }
}

/// `command` turned down.
pub open spec fn turned_down<F: Fn(Operation) -> Scalar>(
    unit: &F,
    command: FfbCommand,
    scale: Scalar,
) -> FfbCommand {
    FfbCommand {
        torque_nm: times(unit, command.torque_nm, scale),
        damper_coeff: times(unit, command.damper_coeff, scale),
        spring_coeff: times(unit, command.spring_coeff, scale),
        ..command
    }
}

/// What goes to the device.
///
/// A stale command is never held. It is replaced by one that moves nothing, and
/// that is scaled by a watchdog that is on its way to zero, so the wheel goes
/// slack rather than locking at whatever the last value happened to be.
pub open spec fn outgoing<F: Fn(Operation) -> Scalar>(
    unit: &F,
    command: Option<FfbCommand>,
    now: u64,
    max_age_ns: u64,
    verdict: Verdict,
) -> FfbCommand {
    turned_down(
        unit,
        if usable(command, now, max_age_ns) {
            command->0
        } else {
            ffb::inert(now, ffb_flags::DISABLED)
        },
        verdict.multiplier(),
    )
}

/// What became of the command that was found.
pub open spec fn fate(command: Option<FfbCommand>, fresh: bool, applied: bool) -> u64 {
    let found = match command {
        Some(_) => if fresh {
            trace_flags::COMMAND_FRESH
        } else {
            trace_flags::COMMAND_STALE
        },
        None => trace_flags::COMMAND_MISSING,
    };
    if applied {
        found
    } else {
        found | trace_flags::APPLY_FAILED
    }
}

/// The device leg of the trace.
///
/// The flags are what keeps a broken leg out of a latency percentile: a stale
/// command is a fault, not a slow span.
pub fn device_leg(
    command: &Option<FfbCommand>,
    fresh: bool,
    applied: bool,
    pickup: u64,
    after_apply: u64,
    sample_index: u64,
) -> (leg: TraceDevice)
    ensures
        leg == (TraceDevice {
            command_host_time_ns: match command {
                Some(found) => found.host_time_ns,
                None => 0,
            },
            t_pickup: pickup,
            t_after_apply: after_apply,
            sample_index,
            flags: fate(*command, fresh, applied),
        }),
        leg.flags != trace_flags::NONE,
{
    let found: u64 = match command {
        Some(_) => if fresh {
            trace_flags::COMMAND_FRESH
        } else {
            trace_flags::COMMAND_STALE
        },
        None => trace_flags::COMMAND_MISSING,
    };
    assert(found | 8 != 0) by (bit_vector)
        requires
            found == 1 || found == 2 || found == 4,
    ;
    TraceDevice {
        command_host_time_ns: match command {
            Some(found) => found.host_time_ns,
            None => 0,
        },
        t_pickup: pickup,
        t_after_apply: after_apply,
        sample_index,
        flags: if applied {
            found
        } else {
            found | trace_flags::APPLY_FAILED
        },
    }
}

/// When the next poll is due.
///
/// A device thread that has fallen far behind must not try to catch up by
/// spinning through a backlog of polls.
pub fn next_deadline(deadline: u64, period_ns: u64, now: u64) -> (next: u64)
    requires
        deadline + period_ns <= u64::MAX,
        now + period_ns <= u64::MAX,
    ensures
        next == if deadline + period_ns < now {
            now + period_ns
        } else {
            deadline + period_ns
        },
        // Never in the past, and never more than one period away because of it.
        next >= now,
{
    let next: u64 = deadline + period_ns;
    if next < now {
        now + period_ns
    } else {
        next
    }
}

// --- the loop -------------------------------------------------------------------------

/// What one delivery came to.
#[derive(Clone, Copy, PartialEq, Eq, Structural, Debug)]
pub struct Delivery {
    /// The command found was young enough.
    pub fresh: bool,
    /// What the device was told.
    pub sent: FfbCommand,
    /// The device took it.
    pub applied: bool,
}

/// A device, and what stands between it and the channels.
pub struct HidLoop<D, N> {
    pub device: Handled<D, N>,
    pub config: HidConfig,
    pub watchdog: Watchdog,
    pub stats: HidStats,
    pub sample_index: u64,
}

impl<D> HidLoop<D, ()> {
    pub fn new(device: D, config: HidConfig) -> (hid: Self)
        ensures
            hid.device.held() == device,
            hid.device.log() == Seq::<Doing>::empty(),
            hid.config == config,
            hid.watchdog == Watchdog::fresh(config.watchdog),
            hid.stats == HidStats::zero(),
            hid.sample_index == 0,
    {
        HidLoop {
            device: Handled::new(device),
            config,
            watchdog: Watchdog::new(config.watchdog),
            stats: HidStats::default(),
            sample_index: 0,
        }
    }

    /// The same loop, connected to the channels, the clock, and whoever tells it to
    /// stop.
    pub fn linked<N>(self, links: N) -> (hid: HidLoop<D, N>)
        ensures
            hid.device.held() == self.device.held(),
            hid.device.links() == links,
            hid.device.log() == self.device.log(),
            hid.config == self.config,
            hid.watchdog == self.watchdog,
            hid.stats == self.stats,
            hid.sample_index == self.sample_index,
    {
        HidLoop {
            device: self.device.linked(links),
            config: self.config,
            watchdog: self.watchdog,
            stats: self.stats,
            sample_index: self.sample_index,
        }
    }
}

impl<D, N> HidLoop<D, N> {
    /// The time one turn of the loop stands for.
    pub open spec fn turn_s<F: Fn(Operation) -> Scalar>(self, unit: &F) -> Scalar {
        times(unit, from_count(unit, self.config.period_ns), NANO)
    }

    /// What to publish of a sample, if there is one.
    pub fn sampled<F: Fn(Operation) -> Scalar>(
        &mut self,
        unit: &F,
        polled: &Result<RawInput, DeviceError>,
    ) -> (input: Option<DriverInput>)
        requires
            arith::functional(*unit),
            old(self).sample_index < u64::MAX,
        ensures
            final(self).device == old(self).device,
            final(self).config == old(self).config,
            final(self).watchdog == old(self).watchdog,
            match *polled {
                Ok(raw) => {
                    &&& input == Some(
                        old(self).config.calibration.calibrated(unit, raw, old(self).sample_index),
                    )
                    &&& final(self).sample_index == old(self).sample_index + 1
                    &&& final(self).stats == (HidStats {
                        samples: old(self).stats.samples.wrapping_add(1),
                        ..old(self).stats
                    })
                },
                Err(_) => {
                    &&& input is None
                    &&& final(self).sample_index == old(self).sample_index
                    &&& final(self).stats == (HidStats {
                        poll_errors: old(self).stats.poll_errors.wrapping_add(1),
                        ..old(self).stats
                    })
                },
            },
    {
        match polled {
            Ok(raw) => {
                let input: DriverInput = self.config.calibration.apply(
                    unit,
                    raw,
                    self.sample_index,
                );
                self.sample_index += 1;
                self.stats.samples = self.stats.samples.wrapping_add(1);
                Some(input)
            },
            Err(_) => {
                self.stats.poll_errors = self.stats.poll_errors.wrapping_add(1);
                None
            },
        }
    }
}

impl<D: InputSource, N> HidLoop<D, N> {
    /// Sample the driver: what the device gave, calibrated, if it gave anything.
    pub fn sample<F: Fn(Operation) -> Scalar>(&mut self, unit: &F) -> (sample: (
        Option<RawInput>,
        Option<DriverInput>,
    ))
        requires
            arith::functional(*unit),
            old(self).device.ready(),
            old(self).sample_index < u64::MAX,
        ensures
            final(self).device.ready(),
            final(self).device.links() == old(self).device.links(),
            final(self).device.held().seen() == sample.0,
            final(self).device.log() == old(self).device.log().push(Doing::Polled(sample.0)),
            final(self).config == old(self).config,
            final(self).watchdog == old(self).watchdog,
            sample.1 == old(self).config.calibration.calibrated_if(
                unit,
                sample.0,
                old(self).sample_index,
            ),
            match sample.0 {
                Some(_) => {
                    &&& final(self).sample_index == old(self).sample_index + 1
                    &&& final(self).stats == (HidStats {
                        samples: old(self).stats.samples.wrapping_add(1),
                        ..old(self).stats
                    })
                },
                None => {
                    &&& final(self).sample_index == old(self).sample_index
                    &&& final(self).stats == (HidStats {
                        poll_errors: old(self).stats.poll_errors.wrapping_add(1),
                        ..old(self).stats
                    })
                },
            },
    {
        let polled: Result<RawInput, DeviceError> = self.device.poll();
        let input: Option<DriverInput> = self.sampled(unit, &polled);
        (
            match polled {
                Ok(raw) => Some(raw),
                Err(_) => None,
            },
            input,
        )
    }
}

impl Calibration {
    /// A sample, calibrated, if there is one.
    pub open spec fn calibrated_if<F: Fn(Operation) -> Scalar>(
        self,
        unit: &F,
        raw: Option<RawInput>,
        sample_index: u64,
    ) -> Option<DriverInput> {
        match raw {
            Some(found) => Some(self.calibrated(unit, found, sample_index)),
            None => None,
        }
    }
}

impl<D: HapticSink, N> HidLoop<D, N> {
    /// Deliver the torque: the newest command if it is fresh, nothing otherwise,
    /// and no more of it than the watchdog allows.
    pub fn deliver<F: Fn(Operation) -> Scalar>(
        &mut self,
        unit: &F,
        command: &Option<FfbCommand>,
        now: u64,
    ) -> (delivery: Delivery)
        requires
            arith::functional(*unit),
            old(self).watchdog.trips < u64::MAX,
        ensures
            delivery.fresh == usable(*command, now, old(self).config.max_command_age_ns),
            final(self).watchdog == old(self).watchdog.observed(
                unit,
                delivery.fresh,
                old(self).turn_s(unit),
            ),
            delivery.sent == outgoing(
                unit,
                *command,
                now,
                old(self).config.max_command_age_ns,
                final(self).watchdog.verdict(),
            ),
            old(self).device.ready() ==> final(self).device.ready(),
            final(self).device.links() == old(self).device.links(),
            final(self).device.held().told() == delivery.sent,
            final(self).device.log() == old(self).device.log().push(
                Doing::Applied(delivery.sent, delivery.applied),
            ),
            final(self).config == old(self).config,
            final(self).sample_index == old(self).sample_index,
            final(self).stats == (HidStats {
                stale_commands: if delivery.fresh {
                    old(self).stats.stale_commands
                } else {
                    old(self).stats.stale_commands.wrapping_add(1)
                },
                apply_errors: if delivery.applied {
                    old(self).stats.apply_errors
                } else {
                    old(self).stats.apply_errors.wrapping_add(1)
                },
                ..old(self).stats
            }),
    {
        let dt: Scalar = times(unit, from_count(unit, self.config.period_ns), NANO);
        let fresh: bool = match command {
            Some(found) => command_is_fresh(
                found.host_time_ns,
                now,
                self.config.max_command_age_ns,
            ),
            None => false,
        };
        if !fresh {
            self.stats.stale_commands = self.stats.stale_commands.wrapping_add(1);
        }
        let verdict: Verdict = self.watchdog.observe(unit, fresh, dt);
        let mut sent: FfbCommand = FfbCommand::default();
        sent.host_time_ns = now;
        sent.flags = ffb_flags::DISABLED;
        match command {
            Some(found) => if fresh {
                sent = *found;
            },
            None => {},
        }
        sent.torque_nm = times(unit, sent.torque_nm, verdict.scale());
        sent.damper_coeff = times(unit, sent.damper_coeff, verdict.scale());
        sent.spring_coeff = times(unit, sent.spring_coeff, verdict.scale());
        let applied: bool = self.device.apply(&sent);
        if !applied {
            self.stats.apply_errors = self.stats.apply_errors.wrapping_add(1);
        }
        Delivery { fresh, sent, applied }
    }

    /// Leave the device slack. Every way out of the loop ends here.
    pub fn finish(&mut self)
        ensures
            old(self).device.ready() ==> final(self).device.ready(),
            final(self).device.links() == old(self).device.links(),
            final(self).device.held().told() == FfbCommand::zero(),
            final(self).device.log() == old(self).device.log().push(Doing::Zeroed),
            final(self).config == old(self).config,
            final(self).watchdog == old(self).watchdog,
            final(self).stats == old(self).stats,
            final(self).sample_index == old(self).sample_index,
    {
        self.device.zero();
    }
}

/// Everything one turn of the loop saw and did.
#[derive(Clone, Copy, Debug)]
pub struct Turn {
    /// What the device gave.
    pub raw: Option<RawInput>,
    /// What was published of the driver.
    pub input: Option<DriverInput>,
    /// When the command was looked for.
    pub now: u64,
    /// The command that was found.
    pub command: Option<FfbCommand>,
    pub delivery: Delivery,
    /// When the device had been handed the torque, as far as anybody asked.
    pub after_apply: u64,
    /// The record of the turn.
    pub leg: TraceDevice,
    /// When the turn was over.
    pub end: u64,
    /// When the next one is due.
    pub deadline: u64,
}

impl Turn {
    /// What is done in a turn, in order: the driver is sampled and the sample
    /// published, the clock is read and the newest command looked for, the device
    /// is handed what is to go out, and the next turn is waited for.
    pub open spec fn doings(self, tracing: bool) -> Seq<Doing> {
        seq![Doing::Polled(self.raw)] + (match self.input {
            Some(input) => seq![Doing::Offered(input)],
            None => seq![],
        }) + seq![
            Doing::Looked(self.now),
            Doing::Found(self.command),
            Doing::Applied(self.delivery.sent, self.delivery.applied),
        ] + (if tracing {
            seq![Doing::Looked(self.after_apply), Doing::Traced(self.leg)]
        } else {
            seq![]
        }) + seq![Doing::Looked(self.end), Doing::Waited(self.deadline)]
    }

    /// Everything the turn saw is what `links` gave, and everything it had to say
    /// is what they took.
    pub open spec fn vouched<
        C: Fn() -> u64,
        L: Fn() -> Option<FfbCommand>,
        W: Fn(DriverInput),
        T: Fn(TraceDevice),
        S: Fn() -> bool,
        Z: Fn(u64),
    >(self, links: Links<C, L, W, T, S, Z>, tracing: bool) -> bool {
        &&& call_ensures(links.time(), (), self.now)
        &&& call_ensures(links.finder(), (), self.command)
        &&& self.input matches Some(input) ==> call_ensures(links.publisher(), (input,), ())
        &&& tracing ==> call_ensures(links.time(), (), self.after_apply)
        &&& tracing ==> call_ensures(links.tracer(), (self.leg,), ())
        &&& call_ensures(links.time(), (), self.end)
        &&& call_ensures(links.waiter(), (self.deadline,), ())
    }
}

/// Where the device thread stands between two turns.
pub ghost struct Post {
    pub config: HidConfig,
    pub watchdog: Watchdog,
    pub stats: HidStats,
    pub sample_index: u64,
    pub deadline: u64,
    pub log: Seq<Doing>,
}

impl Post {
    /// The time one turn of the loop stands for.
    pub open spec fn turn_s<F: Fn(Operation) -> Scalar>(self, unit: &F) -> Scalar {
        times(unit, from_count(unit, self.config.period_ns), NANO)
    }

    /// A turn leads from here to there.
    pub open spec fn turns<F: Fn(Operation) -> Scalar>(
        self,
        turn: Turn,
        after: Self,
        unit: &F,
        tracing: bool,
    ) -> bool {
        let max_age = self.config.max_command_age_ns;
        &&& after.log == self.log + turn.doings(tracing)
        &&& after.config == self.config
        &&& turn.input == self.config.calibration.calibrated_if(unit, turn.raw, self.sample_index)
        &&& after.sample_index == self.sample_index + if turn.raw is Some {
            1int
        } else {
            0int
        }
        &&& turn.delivery.fresh == usable(turn.command, turn.now, max_age)
        &&& after.watchdog == self.watchdog.observed(unit, turn.delivery.fresh, self.turn_s(unit))
        &&& turn.delivery.sent == outgoing(
            unit,
            turn.command,
            turn.now,
            max_age,
            after.watchdog.verdict(),
        )
        &&& turn.leg == (TraceDevice {
            command_host_time_ns: match turn.command {
                Some(found) => found.host_time_ns,
                None => 0,
            },
            t_pickup: turn.now,
            t_after_apply: turn.after_apply,
            sample_index: after.sample_index,
            flags: fate(turn.command, turn.delivery.fresh, turn.delivery.applied),
        })
        // Everything that went wrong was counted.
        &&& after.stats == (HidStats {
            samples: if turn.raw is Some {
                self.stats.samples.wrapping_add(1)
            } else {
                self.stats.samples
            },
            poll_errors: if turn.raw is Some {
                self.stats.poll_errors
            } else {
                self.stats.poll_errors.wrapping_add(1)
            },
            stale_commands: if turn.delivery.fresh {
                self.stats.stale_commands
            } else {
                self.stats.stale_commands.wrapping_add(1)
            },
            apply_errors: if turn.delivery.applied {
                self.stats.apply_errors
            } else {
                self.stats.apply_errors.wrapping_add(1)
            },
        })
        &&& turn.deadline == if self.deadline + self.config.period_ns < turn.end {
            turn.end + self.config.period_ns
        } else {
            self.deadline + self.config.period_ns
        }
        &&& after.deadline == turn.deadline
    }

    /// The same, once it was asked whether to stop.
    pub open spec fn goes_on(self) -> Self {
        Post { log: self.log.push(Doing::Asked(false)), ..self }
    }
}

/// `story` and `turns` tell what the device thread did: before each turn it was
/// asked whether to stop, and not told to, and each turn leads on to the next, on
/// what `links` gave.
pub open spec fn tells<
    F: Fn(Operation) -> Scalar,
    C: Fn() -> u64,
    L: Fn() -> Option<FfbCommand>,
    W: Fn(DriverInput),
    T: Fn(TraceDevice),
    S: Fn() -> bool,
    Z: Fn(u64),
>(
    story: Seq<Post>,
    turns: Seq<Turn>,
    unit: &F,
    links: Links<C, L, W, T, S, Z>,
    tracing: bool,
) -> bool {
    &&& story.len() == turns.len() + 1
    &&& turns.len() > 0 ==> call_ensures(links.stopper(), (), false)
    &&& forall|i: int|
        0 <= i < turns.len() ==> (#[trigger] story[i].goes_on().turns(
            turns[i],
            story[i + 1],
            unit,
            tracing,
        ) && turns[i].vouched(links, tracing))
}

/// A run of at most `limit` turns led from `begin` to `end`. One that is over was
/// told to stop, and ended with the device slack.
pub open spec fn ran<
    F: Fn(Operation) -> Scalar,
    C: Fn() -> u64,
    L: Fn() -> Option<FfbCommand>,
    W: Fn(DriverInput),
    T: Fn(TraceDevice),
    S: Fn() -> bool,
    Z: Fn(u64),
>(
    begin: Post,
    end: Post,
    unit: &F,
    links: Links<C, L, W, T, S, Z>,
    tracing: bool,
    limit: nat,
    more: bool,
) -> bool {
    exists|story: Seq<Post>, turns: Seq<Turn>|
        {
            &&& #[trigger] tells(story, turns, unit, links, tracing)
            &&& story[0] == begin
            &&& turns.len() <= limit
            &&& if more {
                turns.len() == limit && end == story.last()
            } else {
                &&& call_ensures(links.stopper(), (), true)
                &&& end == Post {
                    log: story.last().log + seq![Doing::Asked(true), Doing::Zeroed],
                    ..story.last()
                }
            }
        }
}

impl<D, N> HidLoop<D, N> {
    /// Where this loop stands, with its next turn due at `deadline`.
    pub open spec fn post(self, deadline: u64) -> Post {
        Post {
            config: self.config,
            watchdog: self.watchdog,
            stats: self.stats,
            sample_index: self.sample_index,
            deadline,
            log: self.device.log(),
        }
    }
}

impl<
    D: InputSource + HapticSink,
    C: Fn() -> u64,
    L: Fn() -> Option<FfbCommand>,
    W: Fn(DriverInput),
    T: Fn(TraceDevice),
    S: Fn() -> bool,
    Z: Fn(u64),
> HidLoop<D, Links<C, L, W, T, S, Z>> {
    /// One turn: sample the driver and publish the sample, pick the newest command
    /// up and deliver it, hand on the record of it, if anybody asked, and wait until
    /// the next turn is due.
    pub fn turn<F: Fn(Operation) -> Scalar>(
        &mut self,
        unit: &F,
        tracing: bool,
        deadline: u64,
    ) -> (turn: Turn)
        requires
            arith::functional(*unit),
            old(self).device.ready(),
            old(self).device.links().open_all(),
            old(self).sample_index < u64::MAX,
            old(self).watchdog.trips < u64::MAX,
            deadline + old(self).config.period_ns <= u64::MAX,
            forall|now: u64| #[trigger]
                call_ensures(old(self).device.links().time(), (), now) ==> now
                    + old(self).config.period_ns <= u64::MAX,
        ensures
            final(self).device.ready(),
            final(self).device.links() == old(self).device.links(),
            final(self).device.held().told() == turn.delivery.sent,
            turn.vouched(old(self).device.links(), tracing),
            old(self).post(deadline).turns(turn, final(self).post(turn.deadline), unit, tracing),
    {
        let ghost past = self.device.log();
        let (raw, input) = self.sample(unit);
        match input {
            Some(found) => self.device.offer(found),
            None => {},
        }
        let now: u64 = self.device.now();
        let command: Option<FfbCommand> = self.device.find();
        let delivery: Delivery = self.deliver(unit, &command, now);
        let after_apply: u64 = if tracing {
            self.device.now()
        } else {
            0
        };
        let leg: TraceDevice = device_leg(
            &command,
            delivery.fresh,
            delivery.applied,
            now,
            after_apply,
            self.sample_index,
        );
        if tracing {
            self.device.trace(leg);
        }
        let end: u64 = self.device.now();
        let next: u64 = next_deadline(deadline, self.config.period_ns, end);
        self.device.wait(next);
        let turn: Turn = Turn {
            raw,
            input,
            now,
            command,
            delivery,
            after_apply,
            leg,
            end,
            deadline: next,
        };
        assert(self.device.log() =~= past + turn.doings(tracing));
        turn
    }

    /// Run until told to stop, or for `limit` turns, whichever comes first. Told
    /// to stop, it leaves the device at zero torque. The answer is when the next
    /// turn is due, if there may be more.
    pub fn run<F: Fn(Operation) -> Scalar>(
        &mut self,
        unit: &F,
        tracing: bool,
        deadline: u64,
        limit: u32,
    ) -> (more: Option<u64>)
        requires
            arith::functional(*unit),
            old(self).device.ready(),
            old(self).device.links().open_all(),
            old(self).sample_index + limit < u64::MAX,
            old(self).watchdog.trips + limit < u64::MAX,
            deadline + limit * old(self).config.period_ns <= u64::MAX,
            forall|now: u64| #[trigger]
                call_ensures(old(self).device.links().time(), (), now) ==> now + limit
                    * old(self).config.period_ns <= u64::MAX,
        ensures
            final(self).device.ready(),
            final(self).device.links() == old(self).device.links(),
            // It is over when it was told to stop, and only then.
            more is None ==> call_ensures(old(self).device.links().stopper(), (), true),
            more is Some && limit > 0 ==> call_ensures(
                old(self).device.links().stopper(),
                (),
                false,
            ),
            match more {
                Some(next) => ran(
                    old(self).post(deadline),
                    final(self).post(next),
                    unit,
                    old(self).device.links(),
                    tracing,
                    limit as nat,
                    true,
                ),
                None => {
                    &&& exists|due: u64|
                        ran(
                            old(self).post(deadline),
                            #[trigger] final(self).post(due),
                            unit,
                            old(self).device.links(),
                            tracing,
                            limit as nat,
                            false,
                        )
                    &&& final(self).device.held().told() == FfbCommand::zero()
                    &&& final(self).device.log().last() == Doing::Zeroed
                },
            },
    {
        let mut due: u64 = deadline;
        let mut taken: u32 = 0;
        let ghost first = *self;
        let ghost links = self.device.links();
        let ghost mut story: Seq<Post> = seq![self.post(deadline)];
        let ghost mut turns: Seq<Turn> = seq![];
        assert(tells(story, turns, unit, links, tracing));
        while taken < limit
            invariant
                taken <= limit,
                first == *old(self),
                links == old(self).device.links(),
                arith::functional(*unit),
                self.device.ready(),
                self.device.links() == links,
                links.open_all(),
                self.config == first.config,
                self.sample_index + (limit - taken) < u64::MAX,
                self.watchdog.trips + (limit - taken) < u64::MAX,
                due + (limit - taken) * first.config.period_ns <= u64::MAX,
                forall|now: u64| #[trigger]
                    call_ensures(links.time(), (), now) ==> now + (limit - taken)
                        * first.config.period_ns <= u64::MAX,
                tells(story, turns, unit, links, tracing),
                turns.len() == taken,
                story[0] == first.post(deadline),
                story.last() == self.post(due),
            decreases limit - taken,
        {
            let ghost here = self.post(due);
            let told: bool = self.device.ask();
            if told {
                self.finish();
                proof {
                    let end = self.post(due);
                    assert(end.log =~= here.log + seq![Doing::Asked(true), Doing::Zeroed]);
                    assert(ran(
                        old(self).post(deadline),
                        self.post(due),
                        unit,
                        links,
                        tracing,
                        limit as nat,
                        false,
                    ));
                }
                return None;
            }
            proof {
                let period = first.config.period_ns as int;
                let left = limit - taken;
                assert(left * period == period + (left - 1) * period && (left - 1) * period >= 0)
                    by (nonlinear_arith)
                    requires
                        left >= 1,
                        period >= 0,
                ;
            }
            let ghost asked = self.post(due);
            let turn: Turn = self.turn(unit, tracing, due);
            due = turn.deadline;
            proof {
                assert(asked == here.goes_on());
                let next = self.post(due);
                let longer = story.push(next);
                let told = turns.push(turn);
                assert forall|i: int| 0 <= i < told.len() implies (
                #[trigger] longer[i].goes_on().turns(told[i], longer[i + 1], unit, tracing)
                    && told[i].vouched(links, tracing)) by {
                    if i < turns.len() {
                        assert(story[i].goes_on().turns(turns[i], story[i + 1], unit, tracing));
                    }
                }
                story = longer;
                turns = told;
            }
            taken += 1;
        }
        Some(due)
    }
}

// --- laws -----------------------------------------------------------------------------

/// A command that is stale, or not there, moves nothing: no torque, no damping
/// and no spring, from the very first turn, whatever it asked for.
pub proof fn law_a_stale_command_is_never_held<F: Fn(Operation) -> Scalar>(
    unit: &F,
    command: Option<FfbCommand>,
    now: u64,
    max_age_ns: u64,
    verdict: Verdict,
)
    requires
        arith::rounding(unit),
        is_finite(verdict.multiplier()),
        !usable(command, now, max_age_ns),
    ensures
        ({
            let sent = outgoing(unit, command, now, max_age_ns, verdict);
            &&& scalar::exact(sent.torque_nm) == 0 && is_finite(sent.torque_nm)
            &&& scalar::exact(sent.damper_coeff) == 0 && is_finite(sent.damper_coeff)
            &&& scalar::exact(sent.spring_coeff) == 0 && is_finite(sent.spring_coeff)
        }),
{
    scalar::lemma_exact_order(ZERO, ZERO);
    arith::lemma_nothing_times(unit, verdict.multiplier(), ZERO);
}

/// A step thread that dies leaves the wheel slack: once its last command is too
/// old it stays too old, so no later turn moves anything either.
pub proof fn law_a_dead_step_thread_leaves_the_wheel_slack<F: Fn(Operation) -> Scalar>(
    unit: &F,
    last: FfbCommand,
    now: u64,
    later: u64,
    max_age_ns: u64,
    verdict: Verdict,
)
    requires
        arith::rounding(unit),
        is_finite(verdict.multiplier()),
        !usable(Some(last), now, max_age_ns),
        now <= later,
    ensures
        ({
            let sent = outgoing(unit, Some(last), later, max_age_ns, verdict);
            scalar::exact(sent.torque_nm) == 0 && is_finite(sent.torque_nm)
        }),
{
    watchdog::law_staleness_is_permanent(last.host_time_ns, now, later, max_age_ns);
    law_a_stale_command_is_never_held(unit, Some(last), later, max_age_ns, verdict);
}

/// The length of a turn is a time, and not a negative one.
proof fn lemma_a_turn_takes_time<F: Fn(Operation) -> Scalar>(post: Post, unit: &F)
    requires
        arith::rounding(unit),
    ensures
        !scalar::is_nan(post.turn_s(unit)),
        scalar::exact(post.turn_s(unit)) >= 0,
{
    let period = from_count(unit, post.config.period_ns);
    let turn = post.turn_s(unit);
    scalar::lemma_one();
    scalar::lemma_exact_order(ZERO, ZERO);
    scalar::lemma_exact_order(NANO, ZERO);
    scalar::lemma_exact_order(arith::INFINITY, ZERO);
    assert(arith::delivers(post.config.period_ns * scalar::unit(), 1, period));
    metrics::lemma_counts_are_finite(post.config.period_ns, period);
    let num = scalar::exact(period) * scalar::exact(NANO);
    assert(num >= 0) by (nonlinear_arith)
        requires
            scalar::exact(period) >= 0,
            scalar::exact(NANO) >= 0,
            num == scalar::exact(period) * scalar::exact(NANO),
    ;
    scalar::lemma_largest(ZERO);
    let most = scalar::exact(arith::LARGEST);
    assert(most * scalar::unit() >= 0) by (nonlinear_arith)
        requires
            most >= 0,
            scalar::unit() > 0,
    ;
    assert(arith::delivers(num, scalar::unit(), turn));
    if arith::nearest(num, scalar::unit(), turn) {
        arith::lemma_nearest_is_bounded(num, scalar::unit(), turn, ZERO);
    }
}

/// What a run leaves alone, and that the watchdog's scale stays one.
proof fn lemma_along_a_run<
    F: Fn(Operation) -> Scalar,
    C: Fn() -> u64,
    L: Fn() -> Option<FfbCommand>,
    W: Fn(DriverInput),
    T: Fn(TraceDevice),
    S: Fn() -> bool,
    Z: Fn(u64),
>(
    story: Seq<Post>,
    turns: Seq<Turn>,
    unit: &F,
    links: Links<C, L, W, T, S, Z>,
    tracing: bool,
    n: int,
)
    requires
        tells(story, turns, unit, links, tracing),
        arith::rounding(unit),
        story[0].sound(),
        0 <= n <= turns.len(),
    ensures
        story[n].sound(),
        story[n].config == story[0].config,
    decreases n,
{
    if n > 0 {
        lemma_along_a_run(story, turns, unit, links, tracing, n - 1);
        let before = story[n - 1];
        let turn = turns[n - 1];
        assert(before.goes_on().turns(turn, story[n - 1 + 1], unit, tracing));
        lemma_a_turn_takes_time(before, unit);
        watchdog::law_scale_stays_in_range(
            before.watchdog,
            unit,
            turn.delivery.fresh,
            before.turn_s(unit),
        );
    }
}

impl Post {
    /// The watchdog's scale is one, and its ramp is finite.
    pub open spec fn sound(self) -> bool {
        &&& self.watchdog.in_range()
        &&& is_finite(self.watchdog.config.ramp_ms)
    }
}

/// Through a whole run, whatever the device and the step thread do, each turn polls
/// the device, reads the clock, looks for the newest command, and then hands the
/// device a command. Without a command found that is fresh by that reading, it moves
/// nothing; with one, it is that command, turned down by a scale between zero and
/// one.
pub proof fn law_every_turn_is_safe<
    F: Fn(Operation) -> Scalar,
    C: Fn() -> u64,
    L: Fn() -> Option<FfbCommand>,
    W: Fn(DriverInput),
    T: Fn(TraceDevice),
    S: Fn() -> bool,
    Z: Fn(u64),
>(
    story: Seq<Post>,
    turns: Seq<Turn>,
    unit: &F,
    links: Links<C, L, W, T, S, Z>,
    tracing: bool,
    i: int,
)
    requires
        tells(story, turns, unit, links, tracing),
        arith::rounding(unit),
        story[0].sound(),
        0 <= i < turns.len(),
    ensures
        ({
            let turn = turns[i];
            let scale = story[i + 1].watchdog.verdict().multiplier();
            let max_age = story[0].config.max_command_age_ns;
            let sent = turn.delivery.sent;
            &&& call_ensures(links.time(), (), turn.now)
            &&& call_ensures(links.finder(), (), turn.command)
            &&& is_finite(scale) && 0 <= scalar::exact(scale) <= scalar::unit()
            &&& story[i + 1].log == story[i].log + seq![Doing::Asked(false)] + turn.doings(tracing)
            &&& if usable(turn.command, turn.now, max_age) {
                sent == turned_down(unit, turn.command->0, scale)
            } else {
                &&& scalar::exact(sent.torque_nm) == 0 && is_finite(sent.torque_nm)
                &&& scalar::exact(sent.damper_coeff) == 0 && is_finite(sent.damper_coeff)
                &&& scalar::exact(sent.spring_coeff) == 0 && is_finite(sent.spring_coeff)
            }
        }),
{
    lemma_along_a_run(story, turns, unit, links, tracing, i);
    lemma_along_a_run(story, turns, unit, links, tracing, i + 1);
    let turn = turns[i];
    assert(story[i].goes_on().turns(turn, story[i + 1], unit, tracing));
    assert(story[i + 1].log =~= story[i].log + seq![Doing::Asked(false)] + turn.doings(tracing));
    scalar::lemma_one();
    scalar::lemma_exact_order(ZERO, ZERO);
    let verdict = story[i + 1].watchdog.verdict();
    if !usable(turn.command, turn.now, story[0].config.max_command_age_ns) {
        law_a_stale_command_is_never_held(
            unit,
            turn.command,
            turn.now,
            story[0].config.max_command_age_ns,
            verdict,
        );
    }
}

/// A thread that is told to stop leaves the wheel slack: the last thing it does to
/// the device is to zero it.
pub proof fn law_the_last_word_is_zero<
    F: Fn(Operation) -> Scalar,
    C: Fn() -> u64,
    L: Fn() -> Option<FfbCommand>,
    W: Fn(DriverInput),
    T: Fn(TraceDevice),
    S: Fn() -> bool,
    Z: Fn(u64),
>(
    begin: Post,
    end: Post,
    unit: &F,
    links: Links<C, L, W, T, S, Z>,
    tracing: bool,
    limit: nat,
)
    requires
        ran(begin, end, unit, links, tracing, limit, false),
    ensures
        call_ensures(links.stopper(), (), true),
        end.log.len() >= 2,
        end.log.last() == Doing::Zeroed,
        end.log[end.log.len() - 2] == Doing::Asked(true),
{
}

} // verus!
