//! Telemetry-collection core of a device-monitoring daemon.
//!
//! The library holds the verified logic of the daemon: extracting numeric
//! fields from JSON-like status payloads, evolving a relational table schema
//! as new columns are declared, composing timestamped metric rows and the SQL
//! statements that persist them, and deciding, tick by tick, which devices
//! are due for a poll and when the run loop may stop.  The decision logic
//! of the companion control tool — script selection, upload planning,
//! key-value folding, filename and URL derivation — lives here as well.
//! Transport (HTTP), storage execution (SQL), configuration loading and
//! signal handling are external collaborators: the surrounding program
//! performs them and hands this library plain values.

pub mod cli;
pub mod clock;
pub mod ctl;
pub mod json;
pub mod nested;
pub mod row;
pub mod sched;
pub mod schema;
pub mod text;
