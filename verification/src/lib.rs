//! Verified core of a radio-frequency monitoring pipeline.
//!
//! Raw complex baseband samples from a software-defined radio are turned
//! into per-frequency power readings, and a streaming rolling-window
//! detector decides which readings are anomalous enough to persist.  All
//! quantities are held in fixed-point integer form (hertz, milli-decibels),
//! so every sum and comparison in the pipeline is exact and proved.

pub mod config;
pub mod math_tools;
pub mod sdr_tools;
pub mod sql_tools;
