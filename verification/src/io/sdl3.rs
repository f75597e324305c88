//! A wheel and pedals, as far as they are numbers.
//!
//! The handles belong to whoever opened the device. What is here is what is made
//! of the numbers it reports, and the one number it is sent: force feedback is
//! delivered as a single long-running constant effect whose level is updated
//! each step. That is the standard way to render an arbitrary torque signal:
//! creating an effect per step would allocate in the driver and would not be
//! deadline-safe.

use vstd::arithmetic::power2::*;
use vstd::prelude::*;

use crate::arith;
use crate::arith::{from_count, minus, over, plus, times, Operation};
use crate::generated::frames::FfbCommand;
use crate::io::device;
use crate::io::device::{DeviceCaps, DeviceError, RawInput, HALF};
use crate::arith::rounding;
use crate::numbers;
use crate::numbers::{nearly, number, size, upto};
use crate::scalar;
use crate::scalar::{clamp, is_finite, max_of, negate, to_level, Scalar, MINUS_ONE, ONE, ZERO};

verus! {

/// The level at which the effect is at full scale: 32767.
pub const FULL_LEVEL: Scalar = 0x40df_ffc0_0000_0000;

/// The least torque that full scale may stand for: 1e-3 N.m.
pub const LEAST_FULL_SCALE: Scalar = 0x3f50_624d_d2f1_a9fc;

/// Which physical axis carries which control.
///
/// Wheels disagree wildly about this, and pedals are often a separate device,
/// so it is configuration rather than a guess. The defaults match the most
/// common layout (steer, throttle, brake on axes 0, 1, 2).
#[derive(Clone, Copy, PartialEq, Eq, Structural, Debug)]
pub struct AxisMap {
    pub steer: usize,
    pub accelerator: usize,
    pub brake: usize,
    /// True when a pedal rests at -32768 and is fully pressed at +32767, which
    /// is what most wheels report. False for pedals that rest at 0.
    pub pedals_are_bipolar: bool,
    pub invert_accelerator: bool,
    pub invert_brake: bool,
}

impl Default for AxisMap {
    fn default() -> (map: Self)
        ensures
            map == (AxisMap {
                steer: 0,
                accelerator: 1,
                brake: 2,
                pedals_are_bipolar: true,
                invert_accelerator: false,
                invert_brake: false,
            }),
    {
        AxisMap {
            steer: 0,
            accelerator: 1,
            brake: 2,
            pedals_are_bipolar: true,
            invert_accelerator: false,
            invert_brake: false,
        }
    }
}

// --- choosing a device ----------------------------------------------------------------

/// The first device that can produce torque, else the first that opened.
///
/// Each entry says of a device whether it opened and, if it did, whether it can
/// produce torque.
pub open spec fn preferred(opened: Seq<Option<bool>>, index: int) -> bool {
    &&& 0 <= index < opened.len()
    &&& opened[index] is Some
    &&& if opened[index] == Some(true) {
        forall|i: int| 0 <= i < index ==> opened[i] != Some(true)
    } else {
        (forall|i: int| 0 <= i < opened.len() ==> opened[i] != Some(true)) && (forall|i: int|
            0 <= i < index ==> opened[i] is None)
    }
}

pub fn choose_device(opened: &Vec<Option<bool>>) -> (choice: Result<usize, DeviceError>)
    ensures
        match choice {
            Ok(index) => preferred(opened@, index as int),
            Err(error) => error is NotFound && forall|i: int|
                0 <= i < opened@.len() ==> opened@[i] is None,
        },
{
    let mut chosen: Option<usize> = None;
    let mut i: usize = 0;
    while i < opened.len()
        invariant
            i <= opened@.len(),
            forall|j: int| 0 <= j < i ==> opened@[j] != Some(true),
            match chosen {
                Some(index) => index < i && opened@[index as int] is Some && forall|j: int|
                    0 <= j < index ==> opened@[j] is None,
                None => forall|j: int| 0 <= j < i ==> opened@[j] is None,
            },
        decreases opened@.len() - i,
    {
        match opened[i] {
            Some(haptic) => {
                if haptic {
                    return Ok(i);
                }
                if chosen.is_none() {
                    chosen = Some(i);
                }
            },
            None => {},
        }
        i += 1;
    }
    match chosen {
        Some(index) => Ok(index),
        None => Err(DeviceError::NotFound),
    }
}

// --- reading --------------------------------------------------------------------------

/// An axis as a fraction of full deflection, before it is kept inside it.
pub open spec fn deflection<F: Fn(Operation) -> Scalar>(unit: &F, raw: i16) -> Scalar {
    over(
        unit,
        if raw < 0 {
            negate(from_count(unit, (-raw) as u64))
        } else {
            from_count(unit, raw as u64)
        },
        FULL_LEVEL,
    )
}

pub fn axis<F: Fn(Operation) -> Scalar>(unit: &F, raw: i16) -> (value: Scalar)
    requires
        arith::functional(*unit),
    ensures
        value == deflection(unit, raw),
{
    let level: Scalar = if raw < 0 {
        negate(from_count(unit, (-(raw as i64)) as u64))
    } else {
        from_count(unit, raw as u64)
    };
    over(unit, level, FULL_LEVEL)
}

/// A pedal between released and fully pressed.
pub open spec fn pressed<F: Fn(Operation) -> Scalar>(
    unit: &F,
    raw: i16,
    bipolar: bool,
    invert: bool,
) -> Scalar {
    let travel = deflection(unit, raw);
    let value = clamp(
        if bipolar {
            times(unit, plus(unit, travel, ONE), HALF)
        } else {
            travel
        },
        ZERO,
        ONE,
    );
    if invert {
        minus(unit, ONE, value)
    } else {
        value
    }
}

pub fn pedal<F: Fn(Operation) -> Scalar>(unit: &F, raw: i16, bipolar: bool, invert: bool) -> (value:
    Scalar)
    requires
        arith::functional(*unit),
    ensures
        value == pressed(unit, raw, bipolar, invert),
{
    proof {
        device::lemma_unit_interval();
    }
    let travel: Scalar = axis(unit, raw);
    let value: Scalar = clamp(
        if bipolar {
            times(unit, plus(unit, travel, ONE), HALF)
        } else {
            travel
        },
        ZERO,
        ONE,
    );
    if invert {
        minus(unit, ONE, value)
    } else {
        value
    }
}

/// The first 64 buttons, one bit each.
pub open spec fn held(down: Seq<bool>, n: int) -> u64
    decreases n,
{
    if n <= 0 {
        0
    } else if down[n - 1] {
        held(down, n - 1) | (1u64 << (n - 1) as u64)
    } else {
        held(down, n - 1)
    }
}

pub fn buttons(down: &Vec<bool>) -> (mask: u64)
    ensures
        mask == held(
            down@,
            if down@.len() < 64 {
                down@.len() as int
            } else {
                64
            },
        ),
{
    let mut mask: u64 = 0;
    let mut i: usize = 0;
    while i < 64 && i < down.len()
        invariant
            i <= 64,
            i <= down@.len(),
            mask == held(down@, i as int),
        decreases 64 - i,
    {
        if down[i] {
            mask = mask | (1u64 << (i as u64));
        }
        i += 1;
    }
    mask
}

/// Every control at once.
pub open spec fn reading<F: Fn(Operation) -> Scalar>(
    unit: &F,
    axes: AxisMap,
    steer: i16,
    accelerator: i16,
    brake: i16,
    buttons: u64,
    now: u64,
) -> RawInput {
    RawInput {
        steer: clamp(deflection(unit, steer), MINUS_ONE, ONE),
        accelerator: pressed(
            unit,
            accelerator,
            axes.pedals_are_bipolar,
            axes.invert_accelerator,
        ),
        brake: pressed(unit, brake, axes.pedals_are_bipolar, axes.invert_brake),
        buttons,
        host_time_ns: now,
    }
}

// --- the device -----------------------------------------------------------------------

/// What the force-feedback side of a device said when it was opened.
#[derive(Debug)]
pub struct Haptic {
    pub name: String,
    pub rumble: bool,
    /// It can render a constant force.
    pub constant: bool,
    /// A constant effect was created and is running. It is never created on a
    /// device that cannot render one.
    pub running: bool,
    /// The effect exists, whether or not it runs.
    pub created: bool,
}

/// A device that was opened: what it can do, and what it was last sent.
#[derive(Debug)]
pub struct SdlDevice {
    pub caps: DeviceCaps,
    pub axes: AxisMap,
    /// Torque at which the constant effect reaches full scale [N.m]. The device
    /// takes a level, so a physical torque has to be referred to something; this
    /// is that reference, and it must be set to the device's real peak or every
    /// torque in the session is wrong by a constant factor.
    pub full_scale_torque: Scalar,
    pub last_level: i16,
    /// There is an effect to send a level to.
    pub effect: bool,
}

impl SdlDevice {
    /// What a device came to, from what it said of itself.
    pub fn open(
        name: &str,
        axis_count: i32,
        button_count: i32,
        haptic: &Option<Haptic>,
        axes: AxisMap,
        full_scale_torque: Scalar,
    ) -> (device: Self)
        ensures
            device.axes == axes,
            device.full_scale_torque == max_of(full_scale_torque, LEAST_FULL_SCALE),
            device.last_level == 0,
            device.caps.wheel_range is None,
            // No mainstream pedal set can render programmable stiffness.
            !device.caps.pedal_force,
            device.caps.axes == if axis_count > 0 {
                axis_count as int
            } else {
                0
            },
            device.caps.buttons == if button_count > 0 {
                button_count as int
            } else {
                0
            },
            match haptic {
                Some(feel) => {
                    &&& device.caps.name@ == name@ + " / "@ + feel.name@
                    &&& device.caps.rumble == feel.rumble
                    &&& device.effect == (feel.constant && feel.created)
                    &&& device.caps.wheel_torque == (feel.constant && feel.created && feel.running)
                },
                None => {
                    &&& device.caps.name@ == name@
                    &&& !device.caps.rumble
                    &&& !device.effect
                    &&& !device.caps.wheel_torque
                },
            },
            device.caps.wheel_torque_limit == if device.caps.wheel_torque {
                Some(full_scale_torque)
            } else {
                None
            },
    {
        let mut title: String = name.to_owned();
        let mut rumble: bool = false;
        let mut effect: bool = false;
        let mut torque: bool = false;
        match haptic {
            Some(feel) => {
                title.append(" / ");
                title.append(feel.name.as_str());
                rumble = feel.rumble;
                effect = feel.constant && feel.created;
                torque = effect && feel.running;
            },
            None => {},
        }
        SdlDevice {
            caps: DeviceCaps {
                name: title,
                wheel_torque: torque,
                wheel_torque_limit: if torque {
                    Some(full_scale_torque)
                } else {
                    None
                },
                wheel_range: None,
                pedal_force: false,
                rumble,
                axes: if axis_count > 0 {
                    axis_count as usize
                } else {
                    0
                },
                buttons: if button_count > 0 {
                    button_count as usize
                } else {
                    0
                },
            },
            axes,
            full_scale_torque: max_of(full_scale_torque, LEAST_FULL_SCALE),
            last_level: 0,
            effect,
        }
    }

    /// The device to take the pedals from, of those there are.
    pub fn with_pedal_device(count: usize, index: usize) -> (choice: Result<usize, DeviceError>)
        ensures
            match choice {
                Ok(found) => index < count && found == index,
                Err(error) => index >= count && error is NotFound,
            },
    {
        if index < count {
            Ok(index)
        } else {
            Err(DeviceError::NotFound)
        }
    }

    /// Every control at once, from the raw axes.
    pub fn poll<F: Fn(Operation) -> Scalar>(
        &self,
        unit: &F,
        steer: i16,
        accelerator: i16,
        brake: i16,
        down: &Vec<bool>,
        now: u64,
    ) -> (raw: RawInput)
        requires
            arith::functional(*unit),
        ensures
            raw == reading(
                unit,
                self.axes,
                steer,
                accelerator,
                brake,
                held(
                    down@,
                    if down@.len() < 64 {
                        down@.len() as int
                    } else {
                        64
                    },
                ),
                now,
            ),
    {
        proof {
            device::lemma_unit_interval();
        }
        RawInput {
            steer: clamp(axis(unit, steer), MINUS_ONE, ONE),
            accelerator: pedal(
                unit,
                accelerator,
                self.axes.pedals_are_bipolar,
                self.axes.invert_accelerator,
            ),
            brake: pedal(unit, brake, self.axes.pedals_are_bipolar, self.axes.invert_brake),
            buttons: buttons(down),
            host_time_ns: now,
        }
    }

    /// The level that stands for a torque.
    ///
    /// A non-finite torque must never reach a driver's hands. The chain already
    /// guards this; guarding again here costs one comparison and means a future
    /// caller that bypasses the chain still cannot hurt anyone. Independent
    /// barriers are the point.
    pub open spec fn level<F: Fn(Operation) -> Scalar>(self, unit: &F, torque: Scalar) -> i16 {
        let asked = if is_finite(torque) {
            torque
        } else {
            ZERO
        };
        scalar::truncated_i16(
            times(
                unit,
                clamp(over(unit, asked, self.full_scale_torque), MINUS_ONE, ONE),
                FULL_LEVEL,
            ),
        )
    }

    /// The level to send for a command, or nothing when it is the one the device
    /// has already.
    pub fn apply<F: Fn(Operation) -> Scalar>(&self, unit: &F, command: &FfbCommand) -> (update:
        Result<Option<i16>, DeviceError>)
        requires
            arith::functional(*unit),
        ensures
            match update {
                Ok(change) => self.effect && change == if self.level(unit, command.torque_nm)
                    == self.last_level {
                    None
                } else {
                    Some(self.level(unit, command.torque_nm))
                },
                Err(DeviceError::Unsupported { what }) => !self.effect && what@
                    == "constant force output"@,
                Err(_) => false,
            },
    {
        if !self.effect {
            return Err(DeviceError::Unsupported { what: "constant force output" });
        }
        proof {
            device::lemma_unit_interval();
        }
        let torque: Scalar = if is_finite(command.torque_nm) {
            command.torque_nm
        } else {
            ZERO
        };
        let fraction: Scalar = clamp(over(unit, torque, self.full_scale_torque), MINUS_ONE, ONE);
        let level: i16 = to_level(times(unit, fraction, FULL_LEVEL));
        if level == self.last_level {
            Ok(None)
        } else {
            Ok(Some(level))
        }
    }

    /// The device took this level.
    pub fn took(&mut self, level: i16)
        ensures
            final(self).last_level == level,
            final(self).caps == old(self).caps,
            final(self).axes == old(self).axes,
            final(self).full_scale_torque == old(self).full_scale_torque,
            final(self).effect == old(self).effect,
    {
        self.last_level = level;
    }
}

/// A torque that is not a number is sent as nothing.
pub proof fn law_no_level_for_a_poisoned_torque<F: Fn(Operation) -> Scalar>(
    device: SdlDevice,
    unit: &F,
    torque: Scalar,
)
    requires
        arith::rounding(unit),
        !is_finite(torque),
        is_finite(device.full_scale_torque),
        scalar::exact(device.full_scale_torque) > 0,
    ensures
        device.level(unit, torque) == 0,
{
    let full = scalar::exact(device.full_scale_torque);
    let whole = scalar::unit();
    scalar::lemma_exact_order(ZERO, ZERO);
    scalar::lemma_one();
    device::lemma_unit_interval();
    let fraction = over(unit, ZERO, device.full_scale_torque);
    assert(scalar::exact(ZERO) * whole == 0 && scalar::exact(ZERO) * full == 0) by (nonlinear_arith)
        requires
            scalar::exact(ZERO) == 0,
    ;
    arith::lemma_exact_is_kept(0, full, fraction, ZERO);
    scalar::lemma_exact_order(fraction, MINUS_ONE);
    scalar::lemma_exact_order(fraction, ONE);
    scalar::lemma_exact_order(MINUS_ONE, fraction);
    scalar::lemma_exact_order(ONE, fraction);
    let kept = clamp(fraction, MINUS_ONE, ONE);
    assert(kept == fraction);
    scalar::lemma_exact_order(FULL_LEVEL, FULL_LEVEL);
    arith::lemma_nothing_times(unit, FULL_LEVEL, kept);
    let product = times(unit, kept, FULL_LEVEL);
    assert(scalar::measure(scalar::magnitude(product)) == 0);
    assert(0int / whole == 0) by (nonlinear_arith)
        requires
            whole > 0,
    ;
}


proof fn lemma_full()
    ensures
        number(FULL_LEVEL) == 32767real && is_finite(FULL_LEVEL),
{
    lemma2_to64();
    lemma2_to64_rest();
    numbers::lemma_word(FULL_LEVEL, 0x1f_ffc0_0000_0000, 1037, 38, 274877906944);
}

/// What an axis reports, as a number.
proof fn lemma_levels<F: Fn(Operation) -> Scalar>(unit: &F, raw: i16)
    requires
        rounding(unit),
    ensures
        ({
            let level = if raw < 0 {
                negate(from_count(unit, (-raw) as u64))
            } else {
                from_count(unit, raw as u64)
            };
            is_finite(level) && number(level) == raw as real
        }),
        number(FULL_LEVEL) == 32767real && is_finite(FULL_LEVEL),
{
    lemma_full();
    let n = if raw < 0 {
        (-raw) as u64
    } else {
        raw as u64
    };
    let s = numbers::lemma_whole_value(n as int);
    let count = from_count(unit, n);
    arith::lemma_exact_is_kept(n * scalar::unit(), 1, count, s);
    numbers::lemma_unrounded(count);
    numbers::lemma_number(count);
    let w = scalar::unit() as real;
    numbers::lemma_product_of_wholes(n as int, scalar::unit());
    let c = number(count);
    assert(c == n as real) by (nonlinear_arith)
        requires
            c * w == (n as real) * w,
            w > 0real,
    ;
}

proof fn lemma_travel<F: Fn(Operation) -> Scalar>(unit: &F, raw: i16)
    requires
        rounding(unit),
    ensures
        numbers::within(deflection(unit, raw), raw as real / 32767real, 10real),
{
    lemma_levels(unit, raw);
    let level = if raw < 0 {
        negate(from_count(unit, (-raw) as u64))
    } else {
        from_count(unit, raw as u64)
    };
    numbers::lemma_within_over(unit, level, raw as real, 0real, FULL_LEVEL, 2real, 0real);
}

/// A number cut to a whole one is off by less than one.
proof fn lemma_cut(x: Scalar)
    requires
        is_finite(x),
        size(number(x)) <= 32768real,
    ensures
        size(scalar::truncated_i16(x) as real - number(x)) <= 1real,
{
    scalar::lemma_one();
    scalar::lemma_exact_order(x, ZERO);
    numbers::lemma_number(x);
    let u = scalar::unit();
    let m = scalar::measure(scalar::magnitude(x));
    let whole = m / u;
    vstd::arithmetic::div_mod::lemma_fundamental_div_mod(m, u);
    let w = u as real;
    let n = number(x);
    numbers::lemma_product_of_wholes(whole, u);
    assert(u * whole == whole * u) by (nonlinear_arith);
    let a = size(n);
    assert(a * w == m as real) by {
        assert((-n) * w == -(n * w)) by (nonlinear_arith);
    }
    assert((whole as real) * w <= a * w && a * w < (whole as real) * w + w);
    let r = whole as real;
    assert(r <= a && a < r + 1real) by (nonlinear_arith)
        requires
            r * w <= a * w,
            a * w < r * w + w,
            w > 0real,
    ;
    assert(whole <= 32768);
    assert(m >= 0);
    vstd::arithmetic::div_mod::lemma_div_pos_is_pos(m, u);
}

/// An axis at full deflection is one, either way, and in between it is the part of the way.
pub proof fn law_an_axis_is_a_fraction_of_its_travel<F: Fn(Operation) -> Scalar>(
    unit: &F,
    raw: i16,
)
    requires
        rounding(unit),
    ensures
        nearly(deflection(unit, raw), raw as real / 32767real),
{
    lemma_levels(unit, raw);
    let level = if raw < 0 {
        negate(from_count(unit, (-raw) as u64))
    } else {
        from_count(unit, raw as u64)
    };
    let travel = over(unit, level, FULL_LEVEL);
    let travel_n = raw as real / number(FULL_LEVEL);
    numbers::lemma_within_over(unit, level, raw as real, 0real, FULL_LEVEL, 32768real / 32767real, 0real);
    assert(numbers::within(travel, travel_n, 4real));
}

/// A pedal that rests at one end of its axis is pressed as far as it is from that end, one
/// that rests at the centre as far as it is from the centre, and one that is wired the
/// other way round as far as is left.
pub proof fn law_a_pedal_is_pressed_from_where_it_rests<F: Fn(Operation) -> Scalar>(
    unit: &F,
    raw: i16,
    bipolar: bool,
    invert: bool,
)
    requires
        rounding(unit),
    ensures
        ({
            let travel = raw as real / 32767real;
            let way = if bipolar {
                (travel + 1real) * (1real / 2real)
            } else {
                travel
            };
            let pressed_n = if way < 0real {
                0real
            } else if way > 1real {
                1real
            } else {
                way
            };
            nearly(
                pressed(unit, raw, bipolar, invert),
                if invert {
                    1real - pressed_n
                } else {
                    pressed_n
                },
            )
        }),
{
    law_an_axis_is_a_fraction_of_its_travel(unit, raw);
    lemma_travel(unit, raw);
    numbers::lemma_unrounded(ZERO);
    let travel = deflection(unit, raw);
    let raised = plus(unit, travel, ONE);
    let raised_n = raw as real / 32767real + 1real;
    numbers::lemma_within_plus(unit, travel, raw as real / 32767real, 10real, ONE, 1real, 0real);
    assert(numbers::within(raised, raised_n, 15real));
    let half_way = times(unit, raised, HALF);
    let half_way_n = raised_n * number(HALF);
    numbers::lemma_within_times(unit, raised, raised_n, 15real, HALF, number(HALF), 0real, 3real, 1real);
    assert(numbers::within(half_way, half_way_n, 39real));
    let way = if bipolar {
        half_way
    } else {
        travel
    };
    let way_n = if bipolar {
        half_way_n
    } else {
        raw as real / 32767real
    };
    let kept = clamp(way, ZERO, ONE);
    let kept_n = if way_n < 0real {
        0real
    } else if way_n > 1real {
        1real
    } else {
        way_n
    };
    numbers::lemma_number_order(way, ZERO);
    numbers::lemma_number_order(ONE, way);
    assert(numbers::within(kept, kept_n, 49real));
    numbers::lemma_within_minus(unit, ONE, 1real, 0real, kept, kept_n, 49real);
}

/// A torque is sent as the level that is the same part of full scale, the same way round,
/// and as full scale where it is more.
pub proof fn law_a_level_is_the_torque_in_parts_of_full_scale<F: Fn(Operation) -> Scalar>(
    device: SdlDevice,
    unit: &F,
    torque: Scalar,
)
    requires
        rounding(unit),
        upto(torque, 10000real),
        upto(device.full_scale_torque, 10000real),
        number(device.full_scale_torque) >= 1real / 1001real,
    ensures
        ({
            let part = number(torque) / number(device.full_scale_torque);
            let kept = if part < -1real {
                -1real
            } else if part > 1real {
                1real
            } else {
                part
            };
            size(device.level(unit, torque) as real - kept * 32767real) <= 1real + 1real / 1000real
        }),
{
    numbers::lemma_unrounded(ZERO);
    lemma_full();
    let part = over(unit, torque, device.full_scale_torque);
    let part_n = number(torque) / number(device.full_scale_torque);
    numbers::lemma_within_over(unit, torque, number(torque), 0real, device.full_scale_torque, 10010000real, 0real);
    assert(numbers::within(part, part_n, 11000000real));
    let kept = clamp(part, MINUS_ONE, ONE);
    let kept_n = if part_n < -1real {
        -1real
    } else if part_n > 1real {
        1real
    } else {
        part_n
    };
    numbers::lemma_number_order(part, MINUS_ONE);
    numbers::lemma_number_order(ONE, part);
    assert(numbers::within(kept, kept_n, 11000000real));
    let level = times(unit, kept, FULL_LEVEL);
    let level_n = kept_n * number(FULL_LEVEL);
    numbers::lemma_within_times(unit, kept, kept_n, 11000000real, FULL_LEVEL, number(FULL_LEVEL), 0real, 1real, 32767real);
    assert(numbers::within(level, level_n, 370000000000real));
    lemma_cut(level);
}

/// A button that is down is a bit that is set, and no other bit is.
pub proof fn law_buttons_are_bits(down: Seq<bool>, n: int, i: u64)
    requires
        0 <= n <= 64,
        n <= down.len(),
        i < 64,
    ensures
        (held(down, n) & (1u64 << i) != 0) == (i < n && down[i as int]),
    decreases n,
{
    if n <= 0 {
        assert(0u64 & (1u64 << i) == 0) by (bit_vector);
    } else {
        law_buttons_are_bits(down, n - 1, i);
        let before = held(down, n - 1);
        let j = (n - 1) as u64;
        assert(i != j ==> ((before | (1u64 << j)) & (1u64 << i)) == (before & (1u64 << i)))
            by (bit_vector)
            requires
                i < 64,
                j < 64,
        ;
        assert(((before | (1u64 << j)) & (1u64 << j)) != 0) by (bit_vector)
            requires
                j < 64,
        ;
    }
}

} // verus!
