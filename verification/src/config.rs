//! Session configuration.
//!
//! Everything that changes how the loop behaves lives in one place so a session
//! can be described, recorded alongside its telemetry, and reproduced exactly.

use vstd::arithmetic::power2::*;
use vstd::prelude::*;

use crate::arith;
use crate::arith::{over, times, Operation};
use crate::numbers;
use crate::numbers::{number, size, upto};
use crate::plant::integrator::Method;
use crate::scalar;
use crate::scalar::{is_finite, round_to_count, Scalar, ONE, ZERO};
use crate::sys::sched::suggested_rt_cpu;
use crate::telemetry::recorder::DEFAULT_STEP_DT;

verus! {

/// Nanoseconds in a second: 1e9.
pub const GIGA: Scalar = 0x41cd_cd65_0000_0000;

/// 8 N.m: firm but survivable.
pub const DEFAULT_TORQUE_LIMIT: Scalar = 0x4020_0000_0000_0000;

/// How the loop should behave when it cannot keep up.
#[derive(Clone, Copy, PartialEq, Eq, Structural, Debug)]
pub enum OverrunPolicy {
    /// Absorb a single late step and carry on. Correct for the ordinary case:
    /// one late step is invisible to a driver.
    Absorb,
    /// Under sustained overrun, stretch the step rather than bursting to catch
    /// up, and tell the driver. Bursting four steps back to back spikes the
    /// force feedback and diverges from wall clock -- a tool that silently
    /// varies its own timescale is worse than useless, because the driver's
    /// verdict then encodes the stutter rather than the setup.
    DegradeAndReport,
}

#[derive(Clone, Debug)]
pub struct KernelConfig {
    /// Fixed step. 1 ms is the baseline; the ladder may select a slower one.
    pub step_dt: Scalar,
    /// Integration method for the host-owned integrator.
    pub method: Method,
    pub substeps: usize,
    /// Directory holding an unpacked FMI 2.0 Model Exchange FMU. `None` selects
    /// the built-in reduced kernel.
    pub plant_dir: Option<String>,
    pub initial_speed: Scalar,
    /// CPU to pin the step thread to. `None` lets the OS decide.
    pub rt_cpu: Option<usize>,
    /// Ask for SCHED_FIFO. Best-effort: an unprivileged session still runs.
    pub request_realtime: bool,
    /// How long to busy-wait before a deadline, trading a core for jitter.
    pub spin_ns: u64,
    pub overrun_policy: OverrunPolicy,
    /// Consecutive missed deadlines before the force-feedback watchdog trips.
    pub watchdog_miss_limit: u32,
    /// Telemetry ring capacity in steps. 60 s at 1 kHz by default, so a
    /// momentarily blocked disk cannot lose samples.
    pub telemetry_capacity: usize,
    pub telemetry_path: Option<String>,
    /// Where to write the round-trip trace. `None` turns tracing off.
    pub trace_path: Option<String>,
    /// Capacity of each trace ring in records.
    pub trace_capacity: usize,
    /// Absolute force-feedback torque clamp [N.m]. Must be set below the
    /// device's capability before anyone drives.
    pub ffb_torque_limit: Scalar,
    /// Overall force-feedback gain, 0 disables feedback entirely.
    pub ffb_gain: Scalar,
    pub duration_s: Option<Scalar>,
}

impl KernelConfig {
    /// What a session on a machine with `cpus` CPUs does unless it is told
    /// otherwise.
    pub open spec fn is_standard(self, cpus: usize) -> bool {
        &&& self.step_dt == DEFAULT_STEP_DT
        &&& self.method == Method::Rk4
        &&& self.substeps == 1
        &&& self.plant_dir is None
        &&& self.initial_speed == ZERO
        &&& self.rt_cpu == if cpus >= 2 {
            Some((cpus - 1) as usize)
        } else {
            None
        }
        &&& self.request_realtime
        &&& self.spin_ns == 120_000
        &&& self.overrun_policy == OverrunPolicy::DegradeAndReport
        &&& self.watchdog_miss_limit == 5
        &&& self.telemetry_capacity == 65_536
        &&& self.telemetry_path is None
        &&& self.trace_path is None
        &&& self.trace_capacity == 65_536
        &&& self.ffb_torque_limit == DEFAULT_TORQUE_LIMIT
        &&& self.ffb_gain == ONE
        &&& self.duration_s is None
    }

    pub fn standard(cpus: usize) -> (config: Self)
        ensures
            config.is_standard(cpus),
    {
        KernelConfig {
            step_dt: DEFAULT_STEP_DT,
            method: Method::Rk4,
            substeps: 1,
            plant_dir: None,
            initial_speed: ZERO,
            rt_cpu: suggested_rt_cpu(cpus),
            request_realtime: true,
            spin_ns: 120_000,
            overrun_policy: OverrunPolicy::DegradeAndReport,
            watchdog_miss_limit: 5,
            telemetry_capacity: 65_536,
            telemetry_path: None,
            trace_path: None,
            trace_capacity: 65_536,
            // A direct-drive wheel can deliver 20+ N.m, which is enough to
            // injure a wrist, so the limit is opt-in-raised rather than
            // opt-out-lowered.
            ffb_torque_limit: DEFAULT_TORQUE_LIMIT,
            ffb_gain: ONE,
            duration_s: None,
        }
    }

    /// One step in nanoseconds, rounded.
    pub open spec fn period<F: Fn(Operation) -> Scalar>(self, unit: &F) -> u64 {
        round_to_count(times(unit, self.step_dt, GIGA))
    }

    pub fn step_ns<F: Fn(Operation) -> Scalar>(&self, unit: &F) -> (ns: u64)
        requires
            arith::functional(*unit),
        ensures
            ns == self.period(unit),
    {
        round_to_count(times(unit, self.step_dt, GIGA))
    }

    pub fn rate_hz<F: Fn(Operation) -> Scalar>(&self, unit: &F) -> (rate: Scalar)
        requires
            arith::functional(*unit),
        ensures
            rate == over(unit, ONE, self.step_dt),
    {
        over(unit, ONE, self.step_dt)
    }
}

impl Default for KernelConfig {
    /// On a machine nothing is known of, nothing is pinned.
    fn default() -> (config: Self)
        ensures
            config.is_standard(1),
    {
        KernelConfig::standard(1)
    }
}

/// A step lasts as many nanoseconds as its seconds come to, to the nearest.
pub proof fn law_a_step_lasts_its_seconds<F: Fn(Operation) -> Scalar>(config: KernelConfig, unit: &F)
    requires
        arith::rounding(unit),
        upto(config.step_dt, 1000real),
        number(config.step_dt) > 0real,
    ensures
        size(config.period(unit) as real - number(config.step_dt) * 1000000000real) * 1000real
            <= 501real,
{
    let dt = number(config.step_dt);
    lemma2_to64();
    lemma2_to64_rest();
    numbers::lemma_word(GIGA, 0x1d_cd65_0000_0000, 1052, 23, 8388608);
    assert(number(GIGA) == 1000000000real);
    let x = times(unit, config.step_dt, GIGA);
    numbers::lemma_in_range(dt * number(GIGA));
    numbers::lemma_close_times(unit, config.step_dt, GIGA);
    numbers::lemma_off(x, dt * number(GIGA));
    numbers::lemma_sign_of_product(unit, config.step_dt, GIGA);
    numbers::lemma_number(x);
    scalar::lemma_exact_order(x, ZERO);
    lemma_rounded(x);
}

/// A number rounded to a count is off by no more than a half.
proof fn lemma_rounded(x: Scalar)
    requires
        is_finite(x),
        0real <= number(x) <= 10000000000000real,
    ensures
        size(scalar::rounded(x) as real - number(x)) <= 1real / 2real,
{
    scalar::lemma_one();
    scalar::lemma_exact_order(x, ZERO);
    numbers::lemma_number(x);
    let u = scalar::unit();
    let w = u as real;
    let n = number(x);
    let e = scalar::exact(x);
    if scalar::negative(x) {
        assert(e == 0);
    } else {
        let a = 2 * e + u;
        let q = a / (2 * u);
        vstd::arithmetic::div_mod::lemma_fundamental_div_mod(a, 2 * u);
        vstd::arithmetic::div_mod::lemma_div_pos_is_pos(a, 2 * u);
        assert((2 * u) * q == 2 * (q * u)) by (nonlinear_arith);
        numbers::lemma_product_of_wholes(q, u);
        let r = q as real;
        assert(2real * (r * w) <= 2real * (n * w) + w && 2real * (n * w) + w < 2real * (r * w) + 2real
            * w);
        assert(2real * r <= 2real * n + 1real && 2real * n < 2real * r + 1real) by (nonlinear_arith)
            requires
                2real * (r * w) <= 2real * (n * w) + w,
                2real * (n * w) + w < 2real * (r * w) + 2real * w,
                w > 0real,
        ;
        assert(q <= 10000000000001);
    }
}

} // verus!
