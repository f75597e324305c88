//! Definitions shared with every other component of the rig.

use vstd::prelude::*;

pub mod frames;

verus! {

} // verus!
