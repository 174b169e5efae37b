//! Log-driven IP blocking: pattern matching over journal messages, per-address
//! scoring and blocking decisions, and the firewall commands that enforce them.

pub mod config;
pub mod firewall;
pub mod text;
pub mod tracking;
pub mod patterns;
