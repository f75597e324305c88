//! What state a torque command was produced in.

use vstd::prelude::*;

verus! {

pub const ACTIVE: u64 = 1;

pub const RAMPING_DOWN: u64 = 2;

pub const WATCHDOG_TRIPPED: u64 = 4;

pub const DISABLED: u64 = 8;

} // verus!
