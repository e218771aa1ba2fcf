//! The discovery engine's decisions: where queries are sent, what becomes of
//! a datagram, what the inventory holds, and how the engine's life goes.

pub mod broadcast;
pub mod engine;
pub mod error;
pub mod inventory;
pub mod lifecycle;
