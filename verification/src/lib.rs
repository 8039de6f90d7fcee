//! A caching-aware feature pipeline for taxi-trip data joined with hourly
//! weather observations.
//!
//! Raw trip records are cleaned into a fixed set of modeling columns, joined
//! against a shared weather table by nearest-preceding timestamp, and the
//! resulting per-dataset feature tables are persisted so later runs can skip
//! recomputation. Floating-point measurements are carried as IEEE-754 bit
//! patterns; timestamps are nanoseconds since the Unix epoch.

pub mod args;
pub mod cells;
pub mod codec;
pub mod cyclic;
pub mod errors;
pub mod join;
pub mod persist;
pub mod resolver;
pub mod table;
pub mod time;
pub mod transform;
pub mod weather;

pub use args::Args;
