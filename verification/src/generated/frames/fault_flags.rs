//! What has gone wrong in a session. Flags accumulate.

use vstd::prelude::*;

verus! {

pub const PLANT_NONFINITE: u64 = 1;

pub const DEADLINE_MISSED: u64 = 2;

pub const FFB_CLAMPED: u64 = 4;

pub const TELEMETRY_OVERFLOW: u64 = 8;

pub const DEVICE_LOST: u64 = 16;

pub const PLANT_STEP_FAILED: u64 = 32;

pub const INPUT_STALE: u64 = 64;

} // verus!
