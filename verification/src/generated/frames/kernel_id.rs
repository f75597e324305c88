//! The rungs of the plant ladder.

use vstd::prelude::*;

verus! {

/// The full multibody model.
pub const VEHICLE_FMI: u64 = 1;

/// The same model with table-driven kinematics.
pub const VEHICLE_RT: u64 = 2;

/// The built-in floor.
pub const REDUCED14DOF: u64 = 3;

} // verus!
