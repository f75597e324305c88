//! Monotonic time and absolute-deadline sleeping.
//!
//! Pacing sleeps to an absolute deadline rather than for a computed remainder.
//! A relative sleep accumulates the wake-up latency of every previous step, so
//! a 1 kHz loop built on it drifts steadily away from wall clock; an absolute
//! deadline does not.

use vstd::prelude::*;

use crate::rig::{Tick, Timer};
use crate::sys::SysError;

verus! {

/// Interrupted by a signal: the deadline is unchanged, so sleep again.
pub const EINTR: i32 = 4;

/// A point in time, split the way the platform wants it.
#[derive(Clone, Copy, PartialEq, Eq, Structural, Debug)]
pub struct Timespec {
    pub seconds: i64,
    pub nanoseconds: i64,
}

/// A deadline as the platform takes it.
pub fn timespec(deadline_ns: u64) -> (request: Timespec)
    ensures
        request.seconds * 1_000_000_000 + request.nanoseconds == deadline_ns,
        0 <= request.nanoseconds < 1_000_000_000,
{
    Timespec {
        seconds: (deadline_ns / 1_000_000_000) as i64,
        nanoseconds: (deadline_ns % 1_000_000_000) as i64,
    }
}

/// Nanoseconds from the two parts of a clock reading, wrapping.
pub fn nanoseconds(seconds: u64, nanos: u64) -> (ns: u64)
    ensures
        seconds * 1_000_000_000 + nanos <= u64::MAX ==> ns == seconds * 1_000_000_000 + nanos,
{
    seconds.wrapping_mul(1_000_000_000).wrapping_add(nanos)
}

/// What a return from the platform's sleep means.
#[derive(Clone, Copy, Debug)]
pub enum Woken {
    /// The deadline has come.
    Due,
    /// A signal arrived; the deadline is unchanged.
    Early,
    Failed { error: SysError },
}

/// What a return code from the platform's sleep means. The platform hands the
/// error back directly rather than via errno.
pub fn woken(rc: i32) -> (outcome: Woken)
    ensures
        match outcome {
            Woken::Due => rc == 0,
            Woken::Early => rc == EINTR,
            Woken::Failed { error } => rc != 0 && rc != EINTR && error.call@ == "clock_nanosleep"@
                && error.errno == rc,
        },
{
    match rc {
        0 => Woken::Due,
        EINTR => Woken::Early,
        _ => Woken::Failed { error: SysError { call: "clock_nanosleep", errno: rc } },
    }
}

/// What to do on the way to a deadline.
#[derive(Clone, Copy, PartialEq, Eq, Structural, Debug)]
pub enum Wait {
    /// Far off: sleep until this point.
    Sleep { until_ns: u64 },
    /// Close: busy-wait.
    Spin,
    /// There.
    Done,
}

/// Where the sleep ends and the spin begins.
pub open spec fn coarse_target(deadline_ns: u64, spin_ns: u64) -> u64 {
    if deadline_ns >= spin_ns {
        (deadline_ns - spin_ns) as u64
    } else {
        0
    }
}

/// One look at the clock on the way to a deadline.
///
/// The platform typically wakes tens of microseconds late. For the last slice
/// of a 1 ms period that is a large fraction of the budget, so the loop sleeps
/// until `deadline - spin_ns` and spins the remainder.
pub fn wait_for(deadline_ns: u64, spin_ns: u64, now_ns: u64, slept: bool) -> (wait: Wait)
    ensures
        wait == if !slept && now_ns < coarse_target(deadline_ns, spin_ns) {
            Wait::Sleep { until_ns: coarse_target(deadline_ns, spin_ns) }
        } else if now_ns < deadline_ns {
            Wait::Spin
        } else {
            Wait::Done
        },
{
    let target: u64 = deadline_ns.saturating_sub(spin_ns);
    if !slept && now_ns < target {
        Wait::Sleep { until_ns: target }
    } else if now_ns < deadline_ns {
        Wait::Spin
    } else {
        Wait::Done
    }
}

/// The looks at the clock of a spin towards a deadline: all but the last came
/// before it, the last one is what the answer is about, and there were no more than
/// `spins`.
pub open spec fn spun(
    looks: Seq<Tick>,
    deadline_ns: u64,
    spins: u64,
    result: Result<bool, SysError>,
) -> bool {
    &&& looks.len() <= spins
    &&& forall|i: int|
        0 <= i < looks.len() ==> (#[trigger] looks[i] matches Tick::Looked(at) && (at >= deadline_ns
            ==> i == looks.len() - 1 && result == Ok::<bool, SysError>(true)))
    &&& match result {
        Ok(true) => looks.len() > 0 && (looks.last() matches Tick::Looked(at) && at
            >= deadline_ns),
        Ok(false) => looks.len() == spins,
        Err(_) => false,
    }
}

/// What is done to wait for a deadline: a look at the clock, a sleep for most of the
/// way, if it is far off, and a spin. A sleep that fails is the end of it.
pub open spec fn waited(
    ticks: Seq<Tick>,
    deadline_ns: u64,
    spin_ns: u64,
    spins: u64,
    result: Result<bool, SysError>,
) -> bool {
    let target = coarse_target(deadline_ns, spin_ns);
    &&& ticks.len() >= 1
    &&& match ticks[0] {
        Tick::Looked(first) => if first < target {
            &&& ticks.len() >= 2
            &&& match ticks[1] {
                Tick::Slept(until, Ok(_)) => until == target && spun(
                    ticks.skip(2),
                    deadline_ns,
                    spins,
                    result,
                ),
                Tick::Slept(until, Err(error)) => until == target && ticks.len() == 2 && result
                    == Err::<bool, SysError>(error),
                _ => false,
            }
        } else {
            spun(ticks.skip(1), deadline_ns, spins, result)
        },
        _ => false,
    }
}

/// Wait for a deadline, sleeping first and spinning the last stretch.
///
/// `spins` bounds how often the clock is looked at while spinning. The answer is
/// whether the deadline was seen to pass, or what the sleep said.
pub fn sleep_until_precise<C: Fn() -> u64, S: Fn(u64) -> Result<(), SysError>>(
    timer: &mut Timer<C, S>,
    deadline_ns: u64,
    spin_ns: u64,
    spins: u64,
) -> (result: Result<bool, SysError>)
    requires
        old(timer).wound(),
    ensures
        final(timer).time() == old(timer).time(),
        final(timer).bed() == old(timer).bed(),
        final(timer).log().len() >= old(timer).log().len(),
        final(timer).log().take(old(timer).log().len() as int) == old(timer).log(),
        waited(
            final(timer).log().skip(old(timer).log().len() as int),
            deadline_ns,
            spin_ns,
            spins,
            result,
        ),
        // Every look is at the timer's clock, and every sleep is in its bed.
        final(timer).vouches_from(old(timer).log().len() as int),
        // A clock already past the deadline is not waited for.
        (forall|now: u64| #[trigger]
            call_ensures(old(timer).time(), (), now) ==> now >= deadline_ns) && spins > 0
            ==> result == Ok::<bool, SysError>(true),
{
    let ghost past = timer.log();
    let ghost start = past.len() as int;
    let first: u64 = timer.now();
    let ghost mut ticks: Seq<Tick> = seq![Tick::Looked(first)];
    match wait_for(deadline_ns, spin_ns, first, false) {
        Wait::Sleep { until_ns } => {
            let outcome: Result<(), SysError> = timer.sleep(until_ns);
            proof {
                ticks = ticks.push(Tick::Slept(until_ns, outcome));
            }
            match outcome {
                Ok(_) => {},
                Err(error) => {
                    assert(timer.log().skip(start) =~= ticks);
                    assert(timer.log().take(start) =~= past);
                    return Err(error);
                },
            }
        },
        _ => {},
    }
    assert(timer.log() =~= past + ticks);
    let ghost mut looks: Seq<Tick> = seq![];
    let ghost opening = ticks;
    assert(timer.log() =~= past + opening + looks);
    let mut taken: u64 = 0;
    while taken < spins
        invariant
            timer.wound(),
            timer.time() == old(timer).time(),
            timer.bed() == old(timer).bed(),
            past == old(timer).log(),
            start == past.len(),
            taken <= spins,
            looks.len() == taken,
            timer.log() == past + opening + looks,
            timer.vouches_from(start),
            1 <= opening.len() <= 2,
            opening[0] == Tick::Looked(first),
            if first < coarse_target(deadline_ns, spin_ns) {
                opening.len() == 2 && (opening[1] matches Tick::Slept(until, Ok(_)) && until
                    == coarse_target(deadline_ns, spin_ns))
            } else {
                opening.len() == 1
            },
            forall|i: int|
                0 <= i < looks.len() ==> (#[trigger] looks[i] matches Tick::Looked(at) && at
                    < deadline_ns),
            taken > 0 ==> exists|now: u64| #[trigger]
                call_ensures(timer.time(), (), now) && now < deadline_ns,
        decreases spins - taken,
    {
        let now: u64 = timer.now();
        proof {
            looks = looks.push(Tick::Looked(now));
            assert(timer.log() =~= past + opening + looks);
        }
        match wait_for(deadline_ns, spin_ns, now, true) {
            Wait::Done => {
                proof {
                    assert(timer.log().take(start) =~= past);
                    let done = timer.log().skip(start);
                    assert(done =~= opening + looks);
                    assert(done.skip(opening.len() as int) =~= looks);
                }
                return Ok(true);
            },
            _ => {},
        }
        taken += 1;
    }
    proof {
        assert(timer.log().take(start) =~= past);
        let done = timer.log().skip(start);
        assert(done =~= opening + looks);
        assert(done.skip(opening.len() as int) =~= looks);
    }
    Ok(false)
}

/// Sleep `i` of a measurement that began at `start`, and how late it came back: a
/// sleep to its own deadline, whatever the ones before it did, and a look at the
/// clock after it.
pub open spec fn measured(ticks: Seq<Tick>, start: u64, period_ns: u64, i: int, late: i64) -> bool {
    match (ticks[2 * i + 1], ticks[2 * i + 2]) {
        (Tick::Slept(deadline, _), Tick::Looked(woke)) => deadline == start + (i + 1) * period_ns
            && late == woke - deadline,
        _ => false,
    }
}

/// A look at the clock and then a measurement for each of `late`, and nothing else,
/// is what was done.
pub open spec fn jittered(ticks: Seq<Tick>, period_ns: u64, late: Seq<i64>) -> bool {
    &&& ticks.len() == 1 + 2 * late.len()
    &&& match ticks[0] {
        Tick::Looked(start) => forall|i: int|
            0 <= i < late.len() ==> measured(ticks, start, period_ns, i, #[trigger] late[i]),
        _ => false,
    }
}

/// How late each of `samples` sleeps came back, measured rather than assumed.
pub fn measure_sleep_jitter_ns<C: Fn() -> u64, S: Fn(u64) -> Result<(), SysError>>(
    timer: &mut Timer<C, S>,
    samples: usize,
    period_ns: u64,
) -> (late: Vec<i64>)
    requires
        old(timer).wound(),
        forall|now: u64| #[trigger]
            call_ensures(old(timer).time(), (), now) ==> now + (samples + 1) * period_ns
                <= i64::MAX,
    ensures
        final(timer).time() == old(timer).time(),
        final(timer).bed() == old(timer).bed(),
        late@.len() == samples,
        final(timer).log().len() >= old(timer).log().len(),
        final(timer).log().take(old(timer).log().len() as int) == old(timer).log(),
        jittered(final(timer).log().skip(old(timer).log().len() as int), period_ns, late@),
        final(timer).vouches_from(old(timer).log().len() as int),
{
    let ghost past = timer.log();
    let mut late: Vec<i64> = Vec::new();
    let start: u64 = timer.now();
    let ghost mut ticks: Seq<Tick> = seq![Tick::Looked(start)];
    assert(timer.log() =~= past + ticks);
    let mut i: usize = 0;
    assert((samples + 1) * period_ns >= period_ns) by (nonlinear_arith)
        requires
            samples >= 0,
            period_ns >= 0,
    ;
    let mut deadline: u64 = start + period_ns;
    while i < samples
        invariant
            timer.wound(),
            timer.time() == old(timer).time(),
            timer.bed() == old(timer).bed(),
            forall|now: u64| #[trigger]
                call_ensures(timer.time(), (), now) ==> now + (samples + 1) * period_ns
                    <= i64::MAX,
            call_ensures(timer.time(), (), start),
            timer.log() == past + ticks,
            past == old(timer).log(),
            timer.vouches_from(past.len() as int),
            ticks.len() >= 1,
            ticks[0] == Tick::Looked(start),
            jittered(ticks, period_ns, late@),
            i <= samples,
            late@.len() == i,
            deadline == start + (i + 1) * period_ns,
        decreases samples - i,
    {
        let outcome: Result<(), SysError> = timer.sleep(deadline);
        let woke: u64 = timer.now();
        assert((i + 2) * period_ns == (i + 1) * period_ns + period_ns && 0 <= (i + 1) * period_ns
            && (i + 2) * period_ns <= (samples + 1) * period_ns) by (nonlinear_arith)
            requires
                0 <= i < samples,
                period_ns >= 0,
        ;
        assert((samples + 1) * period_ns >= 0) by (nonlinear_arith)
            requires
                samples >= 0,
                period_ns >= 0,
        ;
        let ghost before = late@;
        late.push(woke as i64 - deadline as i64);
        proof {
            let longer = ticks + seq![Tick::Slept(deadline, outcome), Tick::Looked(woke)];
            assert(timer.log() =~= past + longer);
            assert forall|j: int| 0 <= j < late@.len() implies measured(
                longer,
                start,
                period_ns,
                j,
                #[trigger] late@[j],
            ) by {
                if j < i {
                    assert(late@[j] == before[j]);
                    assert(measured(ticks, start, period_ns, j, before[j]));
                }
            }
            ticks = longer;
        }
        deadline = deadline + period_ns;
        i += 1;
    }
    assert(timer.log().skip(past.len() as int) =~= ticks);
    assert(timer.log().take(past.len() as int) =~= past);
    late
}

// --- laws -----------------------------------------------------------------------

/// A sleep that went well is over no sooner than it should be.
pub open spec fn sound_sleep(ticks: Seq<Tick>, i: int) -> bool {
    match (ticks[2 * i + 1], ticks[2 * i + 2]) {
        (Tick::Slept(deadline, Ok(_)), Tick::Looked(woke)) => woke >= deadline,
        _ => false,
    }
}

/// Lateness is never negative, on a platform whose sleeps succeed and never wake
/// anybody early.
pub proof fn law_lateness_is_never_negative(ticks: Seq<Tick>, period_ns: u64, late: Seq<i64>)
    requires
        jittered(ticks, period_ns, late),
        forall|i: int| 0 <= i < late.len() ==> #[trigger] sound_sleep(ticks, i),
    ensures
        forall|i: int| 0 <= i < late.len() ==> #[trigger] late[i] >= 0,
{
    assert forall|i: int| 0 <= i < late.len() implies #[trigger] late[i] >= 0 by {
        assert(sound_sleep(ticks, i));
    }
}

} // verus!
