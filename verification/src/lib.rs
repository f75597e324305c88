//! Soft-real-time plant kernel for a driver-in-the-loop rig.
//!
//! One job: read what the driver is doing, advance the vehicle model by exactly
//! one fixed step, and give the driver back a force derived from that model -- a
//! thousand times a second, without ever blocking.
//!
//! The layering is deliberate and one-directional:
//!
//! ```text
//!   loop_runner   owns the clock's policy, arranges the rest
//!     |- plant/     physics. Knows nothing about wheels, screens or drivers.
//!     |- io/        devices. Knows nothing about tires.
//!     |- transport/ buffers. Knows nothing about either.
//!     `- sys/       what is decided around the platform's calls.
//! ```
//!
//! Nothing in `plant/` refers to `io/`, and nothing in `io/` to `plant/`. That is
//! what makes the physics kernel swappable and the device layer testable without
//! a wheel plugged in.
//!
//! Real values are bit patterns here (`scalar`), and arithmetic on them is a
//! function that the caller supplies (`arith`): every decision the kernel takes
//! is stated and proved, whatever the platform's rounding. Clocks, memory that is
//! shared between threads, files and devices are the caller's too.

use vstd::prelude::*;

pub mod arith;
pub mod cli;
pub mod config;
pub mod generated;
pub mod health;
pub mod io;
pub mod loop_runner;
pub mod metrics;
pub mod numbers;
pub mod plant;
pub mod pose;
pub mod replay;
pub mod rig;
pub mod scalar;
pub mod standard;
pub mod sys;
pub mod telemetry;
pub mod text;
pub mod transport;
pub mod wire;

verus! {

/// Version of the kernel.
pub const VERSION: &'static str = "0.1.0";

} // verus!
