use vstd::prelude::*;

verus! {

/// The number of rounds a futex waiter spins before it sleeps in the kernel.
pub const SPIN_ROUNDS: u32 = 100;

/// What a thread waiting for a futex to be released does next.
#[derive(Clone, Copy, Debug, PartialEq, Eq, Structural)]
pub enum WaitStep {
    /// The futex is free and nobody waits on it: stop waiting.
    Done,
    /// Yield the processor and look again.
    YieldAndRetry,
    /// Register as a waiter and sleep in the kernel until woken.
    Sleep,
}

/// One round of waiting for a futex: during the first rounds, stop once the
/// futex is free with no waiters and otherwise yield; after them, sleep.
pub fn wait_step(round: u32, waiters: usize, locked: u8) -> (s: WaitStep)
    ensures
        round >= SPIN_ROUNDS ==> s == WaitStep::Sleep,
        round < SPIN_ROUNDS && waiters == 0 && locked == 0 ==> s == WaitStep::Done,
        round < SPIN_ROUNDS && !(waiters == 0 && locked == 0) ==> s == WaitStep::YieldAndRetry,
{
    if round >= SPIN_ROUNDS {
        WaitStep::Sleep
    } else if waiters == 0 && locked == 0 {
        WaitStep::Done
    } else {
        WaitStep::YieldAndRetry
    }
}

} // verus!
