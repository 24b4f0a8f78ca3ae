//! The decision core of a batch statistics engine.
//!
//! Everything here works on integers, strings and positions: which items of a
//! sample a statistic reads, how a duration text becomes seconds, how a batch
//! of task records is tallied, and in which order a set of timers may report.
//! Arithmetic on the measured values themselves is left to the caller.

pub mod bonus;
pub mod cells;
pub mod clock;
pub mod confidence;
pub mod outliers;
pub mod pairs;
pub mod ranks;
pub mod run_length;
pub mod shape;
pub mod tables;
pub mod tasks;
pub mod text;
pub mod time_pattern;
pub mod timers;
pub mod time_text;
