//! Supervision and configuration engine for a locally spawned reverse-tunnel
//! client: configuration text format, remote port allocation, mapping limits,
//! process supervision decisions and status reconciliation.

pub mod text;
pub mod config;
pub mod format;
pub mod ports;
pub mod commands;
pub mod supervisor;
pub mod roundtrip;
pub mod diagnostics;
