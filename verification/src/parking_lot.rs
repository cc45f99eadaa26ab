//! Spin back-off, deadlines and the decisions of a futex-based thread parker.

pub mod spinwait;
pub mod util;
pub mod elision;
pub mod thread_parker;
