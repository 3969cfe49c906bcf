//! Metrics engine of a terminal system dashboard: a sliding window of
//! processor and memory samples with averages, peaks and trends, and a
//! tracker that turns cumulative device counters into per-second rates.

pub mod config;
pub mod display;
pub mod history;
pub mod monitor;
pub mod rates;
pub mod snapshot;
