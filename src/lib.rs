//! Verified core of a real-time audio engine: the recording capture, the
//! latency ring buffer, the device catalog and the engine's control decisions.
//!
//! Normalized samples are carried as the raw bit pattern of an IEEE-754
//! single-precision value (`u32`); the pattern `0` is silence.

pub mod clip;
pub mod latency;
pub mod catalog;
pub mod engine;
