//! Every byte that crosses a component boundary goes through this module.
//!
//! Two channel types, picked by what the consumer actually needs. Using one
//! everywhere would be wrong in both directions: a queue on the input path adds
//! latency to a value that only wants to be current, and a latest-value cell on
//! telemetry loses the samples a comparison depends on.
//!
//! | Channel                      | Type      | Why |
//! |------------------------------|-----------|-----|
//! | driver input -> step thread  | seqlock   | wants the newest input, not a backlog |
//! | vehicle state -> view        | seqlock   | a dropped frame is correct behaviour |
//! | ffb torque -> hid thread     | seqlock   | a stale queue is worse than a dropped sample |
//! | telemetry -> disk            | SPSC ring | every sample matters; overflow is a fault |
//!
//! What is here is the part of each channel that decides: which slot, which
//! sequence number, whether what was read may be believed. The memory itself,
//! and the ordering of accesses to it, belong to whoever maps it.

use vstd::prelude::*;

pub mod seqlock;
pub mod spsc_ring;
pub mod window;

pub use seqlock::{SeqlockError, SeqlockReader, SeqlockWriter};
pub use spsc_ring::{channel as ring_channel, Consumer, Producer, PushError};

verus! {

} // verus!
