//! The safety path, exercised deliberately before any human touches the wheel.
//!
//! These checks are a command rather than only a test so they can be run on the
//! machine and with the arithmetic that will actually be used.

use vstd::arithmetic::power2::*;
use vstd::prelude::*;

use crate::arith;
use crate::arith::Operation;
use crate::generated::frames::{FfbCommand, VehicleState};
use crate::io::device::{HapticSink, NullDevice, RawInput};
use crate::io::ffb;
use crate::io::ffb::{FfbChain, FfbConfig, FfbOutcome};
use crate::io::watchdog;
use crate::io::watchdog::{command_is_fresh, Watchdog, WatchdogConfig, MILLI};
use crate::scalar;
use crate::scalar::{abs, is_at_most, is_same, max_of, Scalar, ONE, ZERO};
use crate::text;
use crate::text::{count_text, join};

verus! {

/// 5 N.m.
pub const TEST_LIMIT: Scalar = 0x4014_0000_0000_0000;

/// 5 N.m, and a little for rounding: 5 + 1e-9.
pub const TEST_CEILING: Scalar = 0x4014_0000_0011_2e0c;

/// 1e12 N.m/s: no slew limit to speak of.
pub const TEST_SLEW: Scalar = 0x426d_1a94_a200_0000;

/// How long the chain is driven before anything is done to it.
pub const WARM_UP: u32 = 500;

/// How long a stall is watched.
pub const STALL: u64 = 300;

/// How soon a stall has to be slack.
pub const STALL_LIMIT: u64 = 100;

/// One check, and what came of it.
#[derive(Debug)]
pub struct Check {
    pub name: &'static str,
    pub passed: bool,
    pub detail: String,
}

impl Check {
    pub open spec fn shown(self) -> Seq<char> {
        "  ["@ + (if self.passed {
            "PASS"@
        } else {
            "FAIL"@
        }) + "] "@ + self.name@ + if self.detail@.len() == 0 {
            ""@
        } else {
            " -- "@ + self.detail@
        }
    }

    pub fn line(&self) -> (line: String)
        ensures
            line@ == self.shown(),
    {
        let mut line: String = "  [".to_owned();
        line.append(
            if self.passed {
                "PASS"
            } else {
                "FAIL"
            },
        );
        line.append("] ");
        line.append(self.name);
        let mut rest: String = "".to_owned();
        if self.detail.as_str().unicode_len() > 0 {
            rest = " -- ".to_owned();
            rest.append(self.detail.as_str());
        }
        line.append(rest.as_str());
        line
    }
}

/// A car that pulls on the wheel.
pub open spec fn pulling(torque: Scalar, angle: Scalar) -> VehicleState {
    VehicleState { handwheel_torque: torque, handwheel_angle: angle, ..VehicleState::zero() }
}

fn pull(torque: Scalar, angle: Scalar) -> (state: VehicleState)
    ensures
        state == pulling(torque, angle),
{
    let mut state: VehicleState = VehicleState::default();
    state.handwheel_torque = torque;
    state.handwheel_angle = angle;
    state
}

/// The chain after `n` steps of the same thing.
pub open spec fn repeated<F: Fn(Operation) -> Scalar>(
    chain: FfbChain,
    unit: &F,
    state: VehicleState,
    deadline_met: bool,
    n: nat,
) -> FfbChain
    decreases n,
{
    if n == 0 {
        chain
    } else {
        repeated(chain, unit, state, deadline_met, (n - 1) as nat).conditioned(
            unit,
            state,
            MILLI,
            deadline_met,
        )
    }
}

fn warm_up<F: Fn(Operation) -> Scalar>(unit: &F, config: FfbConfig, state: &VehicleState) -> (chain:
    FfbChain)
    requires
        arith::functional(*unit),
        config.slews(unit, MILLI),
    ensures
        chain == repeated(FfbChain::fresh(config), unit, *state, true, WARM_UP as nat),
        chain.config == config,
        chain.watchdog.trips <= WARM_UP,
        chain.clamp_events <= WARM_UP,
        chain.nonfinite_events <= WARM_UP,
{
    let mut chain: FfbChain = FfbChain::new(config);
    let mut i: u32 = 0;
    while i < WARM_UP
        invariant
            i <= WARM_UP,
            arith::functional(*unit),
            config.slews(unit, MILLI),
            chain == repeated(FfbChain::fresh(config), unit, *state, true, i as nat),
            chain.config == config,
            chain.watchdog.trips <= i,
            chain.clamp_events <= i,
            chain.nonfinite_events <= i,
        decreases WARM_UP - i,
    {
        chain.condition(unit, state, MILLI, 0, true);
        i += 1;
    }
    chain
}

impl Check {
    /// A check with nothing more to say.
    pub open spec fn plainly(self, name: Seq<char>) -> bool {
        self.name@ == name && self.passed && self.detail@.len() == 0
    }

    /// The check that a poisoned frame is silenced.
    pub open spec fn of_poison<P: Fn(Scalar, usize) -> String>(self, print: P) -> bool {
        &&& self.name@ == "NaN plant output -> zero torque in one step"@
        &&& self.passed
        &&& self.detail@ == text::printed(print, ZERO, text::SHORTEST) + " N.m"@
    }

    /// The check that the clamp holds.
    pub open spec fn of_clamp<F: Fn(Operation) -> Scalar, P: Fn(Scalar, usize) -> String>(
        self,
        unit: &F,
        print: P,
    ) -> bool {
        &&& self.name@ == "torque clamp holds against extreme input"@
        &&& self.passed == is_at_most(battered(unit, 4).1, TEST_CEILING)
        &&& self.detail@ == "worst "@ + text::printed(print, battered(unit, 4).1, 3) + " N.m"@
    }

    /// The check that a stalled loop goes slack.
    pub open spec fn of_stall<F: Fn(Operation) -> Scalar, P: Fn(Scalar, usize) -> String>(
        self,
        unit: &F,
        print: P,
    ) -> bool {
        &&& self.name@ == "stalled loop ramps torque to zero within 100 ms"@
        &&& match first_slack(unit, 0) {
            Some(step) => self.passed == (step <= STALL_LIMIT) && self.detail@ == "zero at step "@
                + text::decimal(step as nat),
            None => !self.passed && self.detail@ == "never reached zero (ended at "@
                + text::printed(print, stalled_torque(unit, STALL - 1), 3) + " N.m)"@,
        }
    }
}

/// A non-finite plant output must produce exactly zero torque, in one step.
pub fn poison_check<F: Fn(Operation) -> Scalar, P: Fn(Scalar, usize) -> String>(
    unit: &F,
    print: &P,
) -> (check: Check)
    requires
        arith::functional(*unit),
        text::prints(*print),
        FfbConfig::standard().slews(unit, MILLI),
    ensures
        check.of_poison(*print),
{
    let mut chain: FfbChain = warm_up(
        unit,
        FfbConfig::default(),
        &pull(TEST_LIMIT, 0x3fd9_9999_9999_999a),
    );
    let state: VehicleState = pull(arith::NAN, 0x3fd9_9999_9999_999a);
    let outcome: FfbOutcome = chain.condition(unit, &state, MILLI, 0, true);
    proof {
        scalar::lemma_exact_order(ZERO, ZERO);
    }
    let mut detail: String = print(outcome.command.torque_nm, text::SHORTEST);
    detail.append(" N.m");
    Check {
        name: "NaN plant output -> zero torque in one step",
        passed: is_same(outcome.command.torque_nm, ZERO) && outcome.nonfinite,
        detail,
    }
}

/// How a chain with a low limit and no slew limit to speak of is set up.
pub open spec fn hard_limited() -> FfbConfig {
    FfbConfig {
        torque_limit_nm: TEST_LIMIT,
        slew_limit_nm_per_s: TEST_SLEW,
        ..FfbConfig::standard()
    }
}

/// The torques nobody should ever feel: 1e3, 1e6, 1e12 and -1e12.
pub open spec fn extreme(index: int) -> Scalar {
    if index == 0 {
        0x408f_4000_0000_0000
    } else if index == 1 {
        0x412e_8480_0000_0000
    } else if index == 2 {
        0x426d_1a94_a200_0000
    } else {
        0xc26d_1a94_a200_0000
    }
}

/// The chain, and the worst torque so far, after the first `n` of them.
pub open spec fn battered<F: Fn(Operation) -> Scalar>(unit: &F, n: nat) -> (FfbChain, Scalar)
    decreases n,
{
    if n == 0 {
        (FfbChain::fresh(hard_limited()), ZERO)
    } else {
        let before = battered(unit, (n - 1) as nat);
        let state = pulling(extreme(n - 1), ZERO);
        (
            before.0.conditioned(unit, state, MILLI, true),
            max_of(
                before.1,
                abs(before.0.outcome(unit, state, MILLI, 0, true).command.torque_nm),
            ),
        )
    }
}

/// No input, however extreme, may exceed the clamp.
pub fn clamp_check<F: Fn(Operation) -> Scalar, P: Fn(Scalar, usize) -> String>(
    unit: &F,
    print: &P,
) -> (check: Check)
    requires
        arith::functional(*unit),
        text::prints(*print),
        hard_limited().slews(unit, MILLI),
    ensures
        check.of_clamp(unit, *print),
{
    let mut config: FfbConfig = FfbConfig::default();
    config.torque_limit_nm = TEST_LIMIT;
    config.slew_limit_nm_per_s = TEST_SLEW;
    let mut chain: FfbChain = FfbChain::new(config);
    let mut worst: Scalar = ZERO;
    let mut i: u32 = 0;
    while i < 4
        invariant
            i <= 4,
            arith::functional(*unit),
            hard_limited().slews(unit, MILLI),
            (chain, worst) == battered(unit, i as nat),
            chain.config == hard_limited(),
            chain.watchdog.trips <= i,
            chain.clamp_events <= i,
            chain.nonfinite_events <= i,
        decreases 4 - i,
    {
        let torque: Scalar = match i {
            0 => 0x408f_4000_0000_0000,
            1 => 0x412e_8480_0000_0000,
            2 => 0x426d_1a94_a200_0000,
            _ => 0xc26d_1a94_a200_0000,
        };
        let outcome: FfbOutcome = chain.condition(unit, &pull(torque, ZERO), MILLI, 0, true);
        worst = max_of(worst, abs(outcome.command.torque_nm));
        i += 1;
    }
    let mut detail: String = "worst ".to_owned();
    detail.append(print(worst, 3).as_str());
    detail.append(" N.m");
    Check {
        name: "torque clamp holds against extreme input",
        passed: is_at_most(worst, TEST_CEILING),
        detail,
    }
}

/// The car the stall is tried with.
pub open spec fn steady() -> VehicleState {
    pulling(0x4018_0000_0000_0000, 0x3fd9_9999_9999_999a)
}

/// The chain when the stall begins.
pub open spec fn stalling<F: Fn(Operation) -> Scalar>(unit: &F) -> FfbChain {
    repeated(FfbChain::fresh(FfbConfig::standard()), unit, steady(), true, WARM_UP as nat)
}

/// The torque at step `k` of the stall.
pub open spec fn stalled_torque<F: Fn(Operation) -> Scalar>(unit: &F, k: int) -> Scalar {
    repeated(stalling(unit), unit, steady(), false, k as nat).outcome(
        unit,
        steady(),
        MILLI,
        k as u64,
        false,
    ).command.torque_nm
}

/// The first step, from `from` on, at which the wheel is slack.
pub open spec fn first_slack<F: Fn(Operation) -> Scalar>(unit: &F, from: int) -> Option<int>
    decreases STALL - from,
{
    if from >= STALL {
        None
    } else if is_same(stalled_torque(unit, from), ZERO) {
        Some(from)
    } else {
        first_slack(unit, from + 1)
    }
}

/// A stalled step thread must reach exactly zero within the ramp.
pub fn stall_check<F: Fn(Operation) -> Scalar, P: Fn(Scalar, usize) -> String>(
    unit: &F,
    print: &P,
) -> (check: Check)
    requires
        arith::functional(*unit),
        text::prints(*print),
        FfbConfig::standard().slews(unit, MILLI),
    ensures
        check.of_stall(unit, *print),
{
    let state: VehicleState = pull(0x4018_0000_0000_0000, 0x3fd9_9999_9999_999a);
    let mut chain: FfbChain = warm_up(unit, FfbConfig::default(), &state);
    let mut torque: Scalar = arith::LARGEST;
    let mut slack_at: Option<u64> = None;
    let mut step: u64 = 0;
    while step < STALL
        invariant
            step <= STALL,
            arith::functional(*unit),
            FfbConfig::standard().slews(unit, MILLI),
            state == steady(),
            chain == repeated(stalling(unit), unit, steady(), false, step as nat),
            chain.config == FfbConfig::standard(),
            chain.watchdog.trips <= WARM_UP + step,
            chain.clamp_events <= WARM_UP + step,
            chain.nonfinite_events <= WARM_UP + step,
            step > 0 ==> torque == stalled_torque(unit, step - 1),
            match slack_at {
                Some(at) => first_slack(unit, 0) == Some(at as int),
                None => first_slack(unit, 0) == first_slack(unit, step as int),
            },
        decreases STALL - step,
    {
        let outcome: FfbOutcome = chain.condition(unit, &state, MILLI, step, false);
        torque = outcome.command.torque_nm;
        assert(torque == stalled_torque(unit, step as int));
        if slack_at.is_none() && is_same(torque, ZERO) {
            slack_at = Some(step);
        }
        step += 1;
    }
    let detail: String = match slack_at {
        Some(at) => {
            let mut line: String = "zero at step ".to_owned();
            line.append(count_text(at).as_str());
            line
        },
        None => {
            let mut line: String = "never reached zero (ended at ".to_owned();
            line.append(print(torque, 3).as_str());
            line.append(" N.m)");
            line
        },
    };
    Check {
        name: "stalled loop ramps torque to zero within 100 ms",
        passed: match slack_at {
            Some(at) => at <= STALL_LIMIT,
            None => false,
        },
        detail,
    }
}

/// The device is left slack on shutdown. The device is one that is not there,
/// which keeps what it was told.
pub fn shutdown_check<S: Fn(u64) -> RawInput>(device: NullDevice<S>) -> (check: Check)
    ensures
        check.plainly("device is left at zero torque on shutdown"@),
{
    let mut device: NullDevice<S> = device;
    let mut command: FfbCommand = FfbCommand::default();
    command.torque_nm = 0x401c_0000_0000_0000;
    let _ = device.apply(&command);
    device.zero();
    proof {
        scalar::lemma_exact_order(ZERO, ZERO);
    }
    Check {
        name: "device is left at zero torque on shutdown",
        passed: is_same(device.last_command.torque_nm, ZERO) && device.zeroed,
        detail: String::new(),
    }
}

/// A stale command must not be held.
pub fn stale_check() -> (check: Check)
    ensures
        check.plainly("a 20 ms old command is rejected as stale"@),
{
    Check {
        name: "a 20 ms old command is rejected as stale",
        passed: !command_is_fresh(1_000_000, 21_000_000, 8_000_000),
        detail: String::new(),
    }
}

/// All of them, in order.
pub fn selftest<
    F: Fn(Operation) -> Scalar,
    P: Fn(Scalar, usize) -> String,
    S: Fn(u64) -> RawInput,
>(unit: &F, print: &P, device: NullDevice<S>) -> (checks: Vec<Check>)
    requires
        arith::functional(*unit),
        text::prints(*print),
        FfbConfig::standard().slews(unit, MILLI),
        hard_limited().slews(unit, MILLI),
    ensures
        checks@.len() == 5,
        checks@[0].of_poison(*print),
        checks@[1].of_clamp(unit, *print),
        checks@[2].of_stall(unit, *print),
        checks@[3].plainly("device is left at zero torque on shutdown"@),
        checks@[4].plainly("a 20 ms old command is rejected as stale"@),
{
    let mut checks: Vec<Check> = Vec::new();
    checks.push(poison_check(unit, print));
    checks.push(clamp_check(unit, print));
    checks.push(stall_check(unit, print));
    checks.push(shutdown_check(device));
    checks.push(stale_check());
    checks
}

/// The names of the checks that failed, among the first `n`.
pub open spec fn failed(checks: Seq<Check>, n: int) -> Seq<Seq<char>>
    decreases n,
{
    if n <= 0 {
        Seq::empty()
    } else if checks[n - 1].passed {
        failed(checks, n - 1)
    } else {
        failed(checks, n - 1).push(checks[n - 1].name@)
    }
}

/// Whether the rig is cleared for a driver, in words.
pub fn verdict(checks: &Vec<Check>) -> (verdict: Result<String, String>)
    ensures
        match verdict {
            Ok(line) => failed(checks@, checks@.len() as int).len() == 0 && line@
                == "all safety checks passed. The rig is cleared for a driver."@,
            Err(why) => failed(checks@, checks@.len() as int).len() > 0 && why@ == text::decimal(
                failed(checks@, checks@.len() as int).len(),
            ) + " SAFETY CHECK(S) FAILED: "@ + text::joined(
                failed(checks@, checks@.len() as int),
                ", "@,
            ) + ". DO NOT let anyone drive this build."@,
        },
{
    let mut names: Vec<String> = Vec::new();
    let mut i: usize = 0;
    while i < checks.len()
        invariant
            i <= checks@.len(),
            text::views(names@) =~= failed(checks@, i as int),
        decreases checks@.len() - i,
    {
        if !checks[i].passed {
            let name: String = checks[i].name.to_owned();
            proof {
                text::lemma_views_push(names@, name);
            }
            names.push(name);
        }
        i += 1;
    }
    assert(text::views(names@).len() == names@.len());
    if names.len() == 0 {
        Ok("all safety checks passed. The rig is cleared for a driver.".to_owned())
    } else {
        let mut why: String = count_text(names.len() as u64);
        why.append(" SAFETY CHECK(S) FAILED: ");
        why.append(join(&names, ", ").as_str());
        why.append(". DO NOT let anyone drive this build.");
        Err(why)
    }
}

// --- laws -----------------------------------------------------------------------------

/// A chain fresh out of its box is ordinary, in both of the setups tried, and
/// both can slew.
proof fn lemma_fresh_is_ordinary<F: Fn(Operation) -> Scalar>(unit: &F)
    requires
        arith::rounding(unit),
    ensures
        FfbChain::fresh(FfbConfig::standard()).ordinary(unit, MILLI),
        FfbChain::fresh(hard_limited()).ordinary(unit, MILLI),
        FfbConfig::standard().slews(unit, MILLI),
        hard_limited().slews(unit, MILLI),
{
    // 10^12 <= 2^40, so no more than 2^31 in a millisecond, and 2^31 + 5 is
    // nowhere near the largest value.
    let power: Scalar = 0x4270_0000_0000_0000;
    let most: Scalar = 0x41e0_0000_0000_0000;
    let roof: Scalar = 0x41f0_0000_0000_0000;
    scalar::lemma_exact_order(TEST_SLEW, power);
    scalar::lemma_exact_order(power, TEST_SLEW);
    ffb::lemma_change(unit, TEST_SLEW, power, 0x427, most);
    scalar::lemma_power(roof, 0x41f);
    scalar::lemma_power(most, 0x41e);
    lemma_pow2_adds(1, 1105);
    lemma2_to64();
    scalar::lemma_exact_order(TEST_LIMIT, most);
    scalar::lemma_exact_order(TEST_LIMIT, TEST_LIMIT);
    scalar::lemma_largest(roof);
    ffb::lemma_the_usual_limit_leaves_room();
    ffb::lemma_fresh_is_ordinary(unit, FfbConfig::standard());
    watchdog::lemma_millisecond_ramp(Watchdog::fresh(hard_limited().watchdog), unit);
    scalar::lemma_exact_order(ZERO, ZERO);
    scalar::law_negation_flips(hard_limited().max_change(unit, MILLI));
}

/// The worst torque of the clamp check stays inside the limit.
proof fn lemma_battering<F: Fn(Operation) -> Scalar>(unit: &F, n: nat)
    requires
        arith::rounding(unit),
        n <= 4,
    ensures
        battered(unit, n).0.ordinary(unit, MILLI),
        battered(unit, n).0.config == hard_limited(),
        is_at_most(battered(unit, n).1, TEST_LIMIT),
    decreases n,
{
    lemma_fresh_is_ordinary(unit);
    scalar::lemma_exact_order(ZERO, TEST_LIMIT);
    scalar::lemma_exact_order(TEST_LIMIT, TEST_LIMIT);
    if n > 0 {
        let m = (n - 1) as nat;
        lemma_battering(unit, m);
        ffb::law_torque_stays_inside_the_limit(
            battered(unit, m).0,
            unit,
            pulling(extreme(n - 1), ZERO),
            MILLI,
            0,
            true,
        );
    }
}

/// A chain that is driven without a miss keeps its watchdog content.
proof fn lemma_warm<F: Fn(Operation) -> Scalar>(unit: &F, n: nat)
    requires
        arith::rounding(unit),
    ensures
        ({
            let chain = repeated(
                FfbChain::fresh(FfbConfig::standard()),
                unit,
                steady(),
                true,
                n,
            );
            &&& chain.ordinary(unit, MILLI)
            &&& chain.config == FfbConfig::standard()
            &&& chain.watchdog.config == WatchdogConfig::standard()
            &&& !chain.watchdog.tripped
            &&& !chain.watchdog.latched
            &&& chain.watchdog.consecutive_misses == 0
            &&& chain.watchdog.scale == ONE
        }),
    decreases n,
{
    lemma_fresh_is_ordinary(unit);
    if n > 0 {
        let m = (n - 1) as nat;
        lemma_warm(unit, m);
        let before = repeated(FfbChain::fresh(FfbConfig::standard()), unit, steady(), true, m);
        ffb::lemma_ordinary_is_sound(before, unit, steady(), MILLI);
        ffb::law_torque_stays_inside_the_limit(before, unit, steady(), MILLI, 0, true);
    }
}

/// While the loop stalls, the chain stays ordinary and its watchdog counts.
proof fn lemma_stalling<F: Fn(Operation) -> Scalar>(unit: &F, k: nat)
    requires
        arith::rounding(unit),
    ensures
        ({
            let chain = repeated(stalling(unit), unit, steady(), false, k);
            &&& chain.ordinary(unit, MILLI)
            &&& chain.config == FfbConfig::standard()
            &&& chain.watchdog == watchdog::stalled(stalling(unit).watchdog, unit, MILLI, k)
        }),
    decreases k,
{
    lemma_warm(unit, WARM_UP as nat);
    if k > 0 {
        let m = (k - 1) as nat;
        lemma_stalling(unit, m);
        let before = repeated(stalling(unit), unit, steady(), false, m);
        ffb::lemma_ordinary_is_sound(before, unit, steady(), MILLI);
        ffb::law_torque_stays_inside_the_limit(before, unit, steady(), MILLI, 0, false);
    }
}

/// A stall in two parts is one stall.
proof fn lemma_stalls_add<F: Fn(Operation) -> Scalar>(
    watchdog: Watchdog,
    unit: &F,
    dt: Scalar,
    first: nat,
    second: nat,
)
    ensures
        watchdog::stalled(watchdog::stalled(watchdog, unit, dt, first), unit, dt, second) == watchdog::stalled(
            watchdog,
            unit,
            dt,
            first + second,
        ),
    decreases second,
{
    if second > 0 {
        lemma_stalls_add(watchdog, unit, dt, first, (second - 1) as nat);
    }
}

/// A slack step is found, or one before it.
proof fn lemma_slack_is_found<F: Fn(Operation) -> Scalar>(unit: &F, from: int, at: int)
    requires
        0 <= from <= at < STALL,
        is_same(stalled_torque(unit, at), ZERO),
    ensures
        first_slack(unit, from) matches Some(step) && step <= at,
    decreases at - from,
{
    if from < at && !is_same(stalled_torque(unit, from), ZERO) {
        lemma_slack_is_found(unit, from + 1, at);
    }
}

/// The self-test clears every machine whose arithmetic rounds to nearest: each of
/// its checks can be run there, the clamp holds, and the stalled wheel is slack
/// in time.
pub proof fn law_the_self_test_clears<F: Fn(Operation) -> Scalar>(unit: &F)
    requires
        arith::rounding(unit),
    ensures
        FfbConfig::standard().slews(unit, MILLI),
        hard_limited().slews(unit, MILLI),
        is_at_most(battered(unit, 4).1, TEST_CEILING),
        first_slack(unit, 0) matches Some(step) && step <= STALL_LIMIT,
{
    lemma_fresh_is_ordinary(unit);
    lemma_battering(unit, 4);
    scalar::lemma_exact_order(TEST_LIMIT, TEST_CEILING);
    // Five misses trip the watchdog, and 65 steps run it down.
    let dog = stalling(unit).watchdog;
    lemma_warm(unit, WARM_UP as nat);
    watchdog::lemma_milli();
    lemma_pow2_pos(1064);
    watchdog::law_a_stall_trips(dog, unit, MILLI, 5);
    lemma_stalling(unit, 5);
    let tripped = watchdog::stalled(dog, unit, MILLI, 5);
    watchdog::lemma_millisecond_ramp(tripped, unit);
    let step = scalar::exact(tripped.ramp_step(unit, MILLI));
    let grain = watchdog::grain();
    lemma_pow2_adds(1068, 6);
    lemma_pow2_adds(1021, 47);
    lemma_pow2_pos(1021);
    lemma2_to64();
    lemma2_to64_rest();
    assert(65 * (step - grain) >= scalar::unit());
    watchdog::law_a_stall_goes_slack(tripped, unit, MILLI, 65);
    lemma_stalls_add(dog, unit, MILLI, 5, 65);
    lemma_stalling(unit, 69);
    let chain = repeated(stalling(unit), unit, steady(), false, 69);
    ffb::lemma_ordinary_is_sound(chain, unit, steady(), MILLI);
    let limit = scalar::absolute(FfbConfig::standard().torque_limit_nm);
    scalar::lemma_exact_order(limit, limit);
    ffb::lemma_held_is_inside(chain.stopped(unit, steady(), MILLI), limit);
    ffb::law_a_spent_watchdog_is_slack(chain, unit, steady(), MILLI, 69, false);
    scalar::lemma_exact_order(ZERO, ZERO);
    lemma_slack_is_found(unit, 0, 69);
}

} // verus!
