//! What the device thread made of the command it found.

use vstd::prelude::*;

verus! {

pub const NONE: u64 = 0;

pub const COMMAND_FRESH: u64 = 1;

pub const COMMAND_STALE: u64 = 2;

pub const COMMAND_MISSING: u64 = 4;

pub const APPLY_FAILED: u64 = 8;

} // verus!
