//! Core pieces of a small C library: bit manipulation primitives, monotonic
//! time arithmetic, memory routines over byte slices, spin back-off, a
//! per-thread value table and the decisions behind a handful of POSIX calls.

pub mod constants;
pub mod futex;
pub mod time;
pub mod bitwise;
pub mod memory;
pub mod parking_lot;
pub mod posix;
pub mod thread_local;
