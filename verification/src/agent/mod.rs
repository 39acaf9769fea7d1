//! Assistant-side protocol logic.

pub mod accumulator;
pub mod cancel;
pub mod config;
pub mod error;
pub mod poll;
pub mod session;
pub mod sse;
pub mod types;
pub mod wire;
