//! Per-tenant (zone) VFS latency-bucket monitoring: sample raw counter
//! snapshots, index them by instance id, compute clamped deltas against the
//! previous poll, filter rows by activity and name, and render a fixed-width
//! table with periodic headers.

pub mod delta;
pub mod filter;
pub mod index;
pub mod records;
pub mod render;
pub mod sched;
