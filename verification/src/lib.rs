//! Telemetry aggregation for database driver events: cluster topology,
//! heartbeat latencies, a ledger of commands, a ranking of the slowest
//! finished commands and per-second throughput statistics.

pub mod access;
pub mod analysis;
pub mod clock;
pub mod command;
pub mod error;
pub mod handlers;
pub mod heartbeat;
pub mod metric;
pub mod model;
pub mod payload;
pub mod ranking;
pub mod statistics;
pub mod topology;
pub mod trace;
