//! What a frame says of the loop it came from.

use vstd::arithmetic::power2::*;
use vstd::prelude::*;

use crate::arith;
use crate::arith::{from_count, over, rounding, Operation};
use crate::generated::frames::VehicleState;
use crate::loop_runner::StepLoop;
use crate::metrics::THOUSAND;
use crate::numbers;
use crate::numbers::{nearly, number};
use crate::scalar;
use crate::scalar::Scalar;

verus! {

/// A span of nanoseconds, as microseconds.
proof fn lemma_microseconds<F: Fn(Operation) -> Scalar>(unit: &F, ns: u64)
    requires
        rounding(unit),
        ns <= 1_000_000_000_000,
    ensures
        nearly(over(unit, from_count(unit, ns), THOUSAND), ns as real / 1000real),
{
    lemma2_to64();
    lemma2_to64_rest();
    numbers::lemma_word(THOUSAND, 0x1f_4000_0000_0000, 1032, 43, 8796093022208);
    let s = numbers::lemma_whole_value(ns as int);
    let count = from_count(unit, ns);
    let u = scalar::unit();
    arith::lemma_exact_is_kept(ns * u, 1, count, s);
    numbers::lemma_number(count);
    numbers::lemma_product_of_wholes(ns as int, u);
    let w = u as real;
    let c = number(count);
    assert(c == ns as real) by (nonlinear_arith)
        requires
            c * w == (ns as real) * w,
            w > 0real,
    ;
    numbers::lemma_within_over(unit, count, ns as real, 0real, THOUSAND, 1000000000real, 0real);
}

/// A published frame shows how the loop is keeping up: how long the step took and how
/// long the slowest in a hundred take, in microseconds, the realtime factor, the
/// deadlines missed and the faults so far, beside where the car is and the torque
/// that was sent. Everything else is the plant's own.
pub proof fn law_a_frame_shows_how_the_loop_keeps_up<F: Fn(Operation) -> Scalar>(
    session: StepLoop,
    unit: &F,
    state: VehicleState,
    torque: Scalar,
    now: u64,
    started: u64,
    p99_ns: u64,
)
    requires
        rounding(unit),
        started <= now <= started + 1_000_000_000_000,
        p99_ns <= 1_000_000_000_000,
    ensures
        ({
            let frame = session.filled(unit, state, torque, now, started, p99_ns);
            &&& nearly(frame.step_time_us, (now - started) as real / 1000real)
            &&& nearly(frame.step_time_p99_us, p99_ns as real / 1000real)
            &&& frame.rtf == session.rtf.current
            &&& frame.deadline_misses == session.deadline_misses
            &&& frame.fault_flags == session.faults
            &&& frame.pos_x == session.pose.x
            &&& frame.pos_y == session.pose.y
            &&& frame.yaw == session.pose.yaw
            &&& frame.ffb_torque_nm == torque
            &&& frame.host_time_ns == now
            &&& frame.vel_x == state.vel_x && frame.vel_y == state.vel_y
            &&& frame.handwheel_torque == state.handwheel_torque
        }),
{
    lemma_microseconds(unit, (now - started) as u64);
    lemma_microseconds(unit, p99_ns);
}

} // verus!
