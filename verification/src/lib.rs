//! Verified core of the StandX dry-run grid simulator.
//!
//! The library holds the integer and structural logic of the simulator:
//! reconnection back-off, WebSocket settings, order-book level selection on
//! ordered price keys, timestamp decoding, the rolling sample window, the
//! parameter grid, quote gating and order identifiers.

pub mod book;
pub mod client;
pub mod config;
pub mod grid;
pub mod messages;
pub mod order;
pub mod quote_gate;
pub mod reconnect;
pub mod rolling;
pub mod types;
