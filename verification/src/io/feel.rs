//! What the driver feels, in numbers.
//!
//! The stages of the feedback chain, each held to what it is for: which way it
//! pushes, and how hard.

use vstd::prelude::*;

use crate::arith::{minus, plus, rounding, times, Operation};
use crate::generated::frames::VehicleState;
use crate::io::ffb::{held_to, FfbChain};
use crate::numbers;
use crate::numbers::{nearly, number, size, upto};
use crate::scalar;
use crate::scalar::{abs, clamp, exact, is_finite, negate, signum, Scalar, ZERO};

verus! {

/// A number kept to `most`, either way.
pub open spec fn at_most_by(r: real, most: real) -> real {
    if r < -most {
        -most
    } else if r > most {
        most
    } else {
        r
    }
}

/// What reaches the driver's hands opposes what the car reacts with, times the gain.
pub proof fn law_feedback_opposes_the_reaction<F: Fn(Operation) -> Scalar>(
    chain: FfbChain,
    unit: &F,
    state: VehicleState,
)
    requires
        rounding(unit),
        upto(state.handwheel_torque, 10000real),
        upto(chain.config.gain, 100real),
    ensures
        nearly(
            chain.gained(unit, state),
            -number(state.handwheel_torque) * number(chain.config.gain),
        ),
{
    numbers::lemma_unrounded(state.handwheel_torque);
    let target = times(unit, negate(state.handwheel_torque), chain.config.gain);
    let target_n = (-number(state.handwheel_torque)) * number(chain.config.gain);
    numbers::lemma_within_times(unit, negate(state.handwheel_torque), (-number(state.handwheel_torque)), 0real, chain.config.gain, number(chain.config.gain), 0real, 10000real, 100real);
    assert(numbers::within(target, target_n, 1100000real));
}

/// The slew limit moves the torque towards what is asked for, by no more than the limit's
/// rate for the time of the step, and all the way when that is enough.
pub proof fn law_torque_slews_towards_what_is_asked<F: Fn(Operation) -> Scalar>(
    chain: FfbChain,
    unit: &F,
    state: VehicleState,
    dt: Scalar,
)
    requires
        rounding(unit),
        chain.config.enable_slew_limit,
        upto(chain.gained(unit, state), 1000000real),
        upto(chain.last_torque, 10000real),
        upto(chain.config.slew_limit_nm_per_s, 100000real),
        number(chain.config.slew_limit_nm_per_s) >= 0real,
        upto(dt, 1real),
        number(dt) >= 0real,
    ensures
        ({
            let last = number(chain.last_torque);
            let most = number(chain.config.slew_limit_nm_per_s) * number(dt);
            nearly(
                chain.slewed(unit, state, dt),
                last + at_most_by(number(chain.gained(unit, state)) - last, most),
            )
        }),
{
    let target = chain.gained(unit, state);
    let (s, t) = (number(chain.config.slew_limit_nm_per_s), number(dt));
    assert(s * t >= 0real) by (nonlinear_arith)
        requires
            s >= 0real,
            t >= 0real,
    ;
    numbers::lemma_sign_of_product(unit, chain.config.slew_limit_nm_per_s, dt);
    let most = times(unit, chain.config.slew_limit_nm_per_s, dt);
    let most_n = number(chain.config.slew_limit_nm_per_s) * number(dt);
    numbers::lemma_within_times(unit, chain.config.slew_limit_nm_per_s, number(chain.config.slew_limit_nm_per_s), 0real, dt, number(dt), 0real, 100000real, 1real);
    assert(numbers::within(most, most_n, 210000real));
    let gap = minus(unit, target, chain.last_torque);
    let gap_n = number(target) - number(chain.last_torque);
    numbers::lemma_within_minus(unit, target, number(target), 0real, chain.last_torque, number(chain.last_torque), 0real);
    assert(numbers::within(gap, gap_n, 1100000real));
    numbers::lemma_unrounded(most);
    let kept = clamp(gap, negate(most), most);
    let kept_n = at_most_by(gap_n, most_n);
    numbers::lemma_number_order(gap, negate(most));
    numbers::lemma_number_order(most, gap);
    numbers::lemma_number_order(negate(most), most);
    assert(numbers::within(kept, kept_n, 1310000real));
    let next = plus(unit, chain.last_torque, kept);
    let next_n = number(chain.last_torque) + kept_n;
    numbers::lemma_within_plus(unit, chain.last_torque, number(chain.last_torque), 0real, kept, kept_n, 1310000real);
    assert(numbers::within(next, next_n, 2400000real));
}

/// Past the end of the rack's travel the stop pushes the wheel back to the centre, by its
/// stiffness on how far past it is.
pub proof fn law_the_end_stop_pushes_back<F: Fn(Operation) -> Scalar>(
    chain: FfbChain,
    unit: &F,
    state: VehicleState,
    dt: Scalar,
)
    requires
        rounding(unit),
        chain.config.enable_end_stop,
        upto(state.handwheel_angle, 1000real),
        upto(chain.config.end_stop_start_rad, 1000real),
        number(chain.config.end_stop_start_rad) >= 0real,
        upto(chain.config.end_stop_rate, 1000real),
        upto(chain.slewed(unit, state, dt), 1000000real),
    ensures
        ({
            let angle = number(state.handwheel_angle);
            let (start, rate) = (
                number(chain.config.end_stop_start_rad),
                number(chain.config.end_stop_rate),
            );
            let torque = number(chain.slewed(unit, state, dt));
            &&& angle > start ==> nearly(
                chain.stopped(unit, state, dt),
                torque - (angle - start) * rate,
            )
            &&& angle < -start ==> nearly(
                chain.stopped(unit, state, dt),
                torque + (-angle - start) * rate,
            )
            &&& -start <= angle <= start ==> chain.stopped(unit, state, dt) == chain.slewed(
                unit,
                state,
                dt,
            )
        }),
{
    let out = abs(state.handwheel_angle);
    let side = signum(state.handwheel_angle);
    let slewed = chain.slewed(unit, state, dt);
    numbers::lemma_unrounded(state.handwheel_angle);
    numbers::lemma_side(state.handwheel_angle);
    numbers::lemma_number_order(out, chain.config.end_stop_start_rad);
    numbers::lemma_number_order(chain.config.end_stop_start_rad, out);
    let past = minus(unit, out, chain.config.end_stop_start_rad);
    let past_n = number(out) - number(chain.config.end_stop_start_rad);
    numbers::lemma_within_minus(unit, out, number(out), 0real, chain.config.end_stop_start_rad, number(chain.config.end_stop_start_rad), 0real);
    assert(numbers::within(past, past_n, 2100real));
    let toward = times(unit, side, past);
    let toward_n = number(side) * past_n;
    numbers::lemma_within_times(unit, side, number(side), 0real, past, past_n, 2100real, 1real, 2000real);
    assert(numbers::within(toward, toward_n, 6200real));
    let push = times(unit, toward, chain.config.end_stop_rate);
    let push_n = toward_n * number(chain.config.end_stop_rate);
    numbers::lemma_within_times(unit, toward, toward_n, 6200real, chain.config.end_stop_rate, number(chain.config.end_stop_rate), 0real, 2000real, 1000real);
    assert(numbers::within(push, push_n, 8300000real));
    let stopped = minus(unit, slewed, push);
    let stopped_n = number(slewed) - push_n;
    numbers::lemma_within_minus(unit, slewed, number(slewed), 0real, push, push_n, 8300000real);
    assert(numbers::within(stopped, stopped_n, 12000000real));
    numbers::lemma_signs(unit, out, chain.config.end_stop_start_rad);
    if exact(chain.config.end_stop_start_rad) < exact(out) {
        numbers::lemma_differences_show(unit, chain.config.end_stop_start_rad, out);
    }
    scalar::lemma_exact_order(ZERO, ZERO);
    let r = number(chain.config.end_stop_rate);
    assert(1real * past_n == past_n && (-1real) * past_n == -past_n) by (nonlinear_arith);
    assert((-past_n) * r == -(past_n * r)) by (nonlinear_arith);
}

/// What is delivered is the conditioned torque, kept inside the limit, times what the
/// watchdog leaves of it, and the clamp is reported exactly when it had something to do.
pub proof fn law_delivery_is_limited_and_watched<F: Fn(Operation) -> Scalar>(
    chain: FfbChain,
    unit: &F,
    state: VehicleState,
    dt: Scalar,
    now_ns: u64,
    deadline_met: bool,
    m: Scalar,
)
    requires
        rounding(unit),
        !chain.unsound(unit, state, dt),
        m == chain.watched(unit, dt, deadline_met).verdict().multiplier(),
        upto(m, 1real),
        is_finite(chain.stopped(unit, state, dt)),
        upto(chain.config.torque_limit_nm, 10000real),
        upto(chain.config.damper_coeff, 10000real),
    ensures
        ({
            let outcome = chain.outcome(unit, state, dt, now_ns, deadline_met);
            let limit = size(number(chain.config.torque_limit_nm));
            let torque = number(chain.stopped(unit, state, dt));
            &&& nearly(outcome.command.torque_nm, at_most_by(torque, limit) * number(m))
            &&& nearly(
                outcome.command.damper_coeff,
                number(chain.config.damper_coeff) * number(m),
            )
            &&& outcome.clamped == (size(torque) > limit)
            &&& !outcome.nonfinite
            &&& outcome.command.host_time_ns == now_ns
            &&& number(outcome.command.spring_coeff) == 0real
        }),
{
    let limit = abs(chain.config.torque_limit_nm);
    let torque_in = chain.stopped(unit, state, dt);
    numbers::lemma_unrounded(chain.config.torque_limit_nm);
    numbers::lemma_unrounded(torque_in);
    numbers::lemma_unrounded(limit);
    numbers::lemma_number_order(limit, abs(torque_in));
    numbers::lemma_number_order(torque_in, negate(limit));
    numbers::lemma_number_order(limit, torque_in);
    let kept = held_to(torque_in, limit);
    assert(number(kept) == at_most_by(number(torque_in), number(limit)) && upto(kept, 10000real));
    let torque = times(unit, kept, m);
    let torque_n = number(kept) * number(m);
    numbers::lemma_within_times(unit, kept, number(kept), 0real, m, number(m), 0real, 10000real, 1real);
    assert(numbers::within(torque, torque_n, 21000real));
    let damping = times(unit, chain.config.damper_coeff, m);
    let damping_n = number(chain.config.damper_coeff) * number(m);
    numbers::lemma_within_times(unit, chain.config.damper_coeff, number(chain.config.damper_coeff), 0real, m, number(m), 0real, 10000real, 1real);
    assert(numbers::within(damping, damping_n, 21000real));
}

} // verus!
