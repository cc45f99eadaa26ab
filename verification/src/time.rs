//! Durations, clock readings and instants of a monotonic clock.

pub mod duration;
pub mod sys;
pub mod instant;
