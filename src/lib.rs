//! A real-time text broadcast relay: message codec, hub, shutdown signal and
//! the per-connection actors' decision logic.

pub mod payload;
pub mod codec;
pub mod hub;
pub mod shutdown;
pub mod session;
pub mod listener;
pub mod relay;
