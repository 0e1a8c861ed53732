//! Sampling of a child process's cumulative I/O counters and the rates
//! reported between two samples.

pub mod counters;
pub mod elapsed;
pub mod rate;
pub mod sampler;
pub mod text;
