//! Verified core of a trading-gateway session manager.
//!
//! The library models the pure decision logic of the gateway: account
//! descriptors and their validation, the per-session protocol state machine
//! that turns connector events into correlated outbound requests, and the
//! registry that reconciles a desired account set against the live sessions.
//! All connector I/O, task scheduling and UI plumbing live outside the
//! library and drive it through plain values.

pub mod account;
pub mod laws;
pub mod registry;
pub mod session;
