//! Devices, and everything between the model and the driver's hands.
//!
//! Nothing in this module knows what a tire is. It takes a `VehicleState` and
//! turns it into a torque, and takes a device reading and turns it into a
//! `DriverInput`.

use vstd::prelude::*;

pub mod device;
pub mod feel;
pub mod ffb;
pub mod handled;
pub mod hid;
pub mod input_shaper;
pub mod sdl3;
pub mod watchdog;

pub use device::{
    Calibration, DeviceCaps, DeviceError, HapticSink, InputSource, NullDevice, Peripheral, RawInput,
};
pub use ffb::{FfbChain, FfbConfig, FfbOutcome};
pub use input_shaper::{ShapedSteer, ShaperConfig, SteerShaper};
pub use watchdog::{Verdict, Watchdog, WatchdogConfig};

verus! {

} // verus!
