//! Synthetic data-center telemetry.
//!
//! A zone holds a fixed set of simulated hosts. Every tick one host reports one
//! metric: the value follows a bounded random walk, hosts may become overloaded,
//! and now and then a host goes silent for a while. Values are fixed-point
//! numbers, counted in millionths of the metric's unit.

pub mod args;
pub mod dc_metrics;
pub mod host;
pub mod metric;
pub mod reading;
pub mod scan;
pub mod source;
pub mod text;
pub mod walk;
