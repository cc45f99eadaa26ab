use vstd::prelude::*;

verus! {

/// Hints to the processor that the caller is spinning: calls
/// `core::hint::spin_loop`, which has no result; the contract claims nothing.
#[verifier::external_body]
fn spin_loop_hint() {
    core::hint::spin_loop()
}

/// Wastes some processor time: `iterations` spin-loop hints.
pub fn cpu_relax(iterations: u32) {
    let mut i: u32 = 0;
    while i < iterations
        invariant
            i <= iterations,
        decreases iterations - i,
    {
        spin_loop_hint();
        i = i + 1;
    }
}

/// What a step of spinning asks of its caller.
#[derive(Clone, Copy, Debug, PartialEq, Eq, Structural)]
pub enum Backoff {
    /// The sleep threshold has been reached: spinning further has diminishing
    /// returns and the thread should be parked instead.
    Exhausted,
    /// The step spun on the processor and is done.
    Spun,
    /// The step asks the caller to yield the processor to the operating system.
    Yield,
}

/// The step limit after which spinning stops.
pub open spec fn spin_limit() -> nat {
    10
}

/// A counter used to perform exponential back-off in spin loops.
#[derive(Debug)]
pub struct SpinWait {
    counter: u32,
}

impl SpinWait {
    #[verifier::type_invariant]
    spec fn counter_at_most_limit(self) -> bool {
        self.counter <= 10
    }

    /// The number of spin steps taken since creation or the last reset.
    pub closed spec fn count(self) -> nat {
        self.counter as nat
    }

    /// A counter that has taken no steps.
    pub fn new() -> (w: SpinWait)
        ensures
            w.count() == 0,
    {
        SpinWait { counter: 0 }
    }

    /// Resets the counter to its initial state.
    pub fn reset(&mut self)
        ensures
            final(self).count() == 0,
    {
        self.counter = 0;
    }

    /// The number of spin steps taken since creation or the last reset.
    pub fn counter(&self) -> (c: u32)
        ensures
            c == self.count(),
            c <= spin_limit(),
    {
        proof {
            use_type_invariant(self);
        }
        self.counter
    }

    /// One step of spinning until the sleep threshold is reached. Once ten
    /// steps have been taken the counter stays and the answer is `Exhausted`.
    /// Otherwise the counter goes up by one; the first three steps spin on the
    /// processor for 2, 4 and 8 hints and answer `Spun`, the later ones answer
    /// `Yield`: the caller yields the processor to the operating system.
    pub fn spin(&mut self) -> (b: Backoff)
        ensures
            old(self).count() >= spin_limit() ==> b == Backoff::Exhausted && final(self).count() == old(self).count(),
            old(self).count() < spin_limit() ==> final(self).count() == old(self).count() + 1,
            old(self).count() < spin_limit() && final(self).count() <= 3 ==> b == Backoff::Spun,
            old(self).count() < spin_limit() && final(self).count() > 3 ==> b == Backoff::Yield,
    {
        proof {
            use_type_invariant(&*self);
        }
        if self.counter >= 10 {
            return Backoff::Exhausted;
        }
        self.counter = self.counter + 1;
        if self.counter <= 3 {
            cpu_relax(1u32 << self.counter);
            Backoff::Spun
        } else {
            Backoff::Yield
        }
    }

    /// One step of spinning without yielding to the operating system: the
    /// counter goes up by one, capped at ten, and the step spins for two to the
    /// power of the counter hints.
    pub fn spin_no_yield(&mut self)
        ensures
            old(self).count() < spin_limit() ==> final(self).count() == old(self).count() + 1,
            old(self).count() >= spin_limit() ==> final(self).count() == spin_limit(),
    {
        proof {
            use_type_invariant(&*self);
        }
        let mut counter: u32 = self.counter + 1;
        if counter > 10 {
            counter = 10;
        }
        self.counter = counter;
        cpu_relax(1u32 << self.counter);
    }
}

impl Default for SpinWait {
    fn default() -> (w: SpinWait)
        ensures
            w.count() == 0,
    {
        SpinWait::new()
    }
}

} // verus!
