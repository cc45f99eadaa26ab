use vstd::prelude::*;

verus! {

/// Nanoseconds in one second, as a mathematical integer.
pub open spec fn nanos_per_sec() -> int {
    1_000_000_000
}

/// A span of time: whole seconds and the nanoseconds below one second.
#[derive(Clone, Copy, Debug, PartialEq, Eq, PartialOrd, Ord, Hash)]
pub struct Duration {
    secs: u64,
    nanos: u32,
}

impl Duration {
    #[verifier::type_invariant]
    spec fn nanos_below_one_second(self) -> bool {
        self.nanos < 1_000_000_000
    }

    /// Whole seconds of the span.
    pub closed spec fn secs(self) -> nat {
        self.secs as nat
    }

    /// Nanoseconds of the span below one second.
    pub closed spec fn nanos(self) -> nat {
        self.nanos as nat
    }

    /// The whole span in nanoseconds.
    pub open spec fn total_nanos(self) -> int {
        self.secs() * nanos_per_sec() + self.nanos()
    }

    /// What every span satisfies: its sub-second part is below one second.
    pub open spec fn valid(self) -> bool {
        self.nanos() < nanos_per_sec()
    }

    /// The span of `n` nanoseconds.
    pub closed spec fn from_total(n: int) -> Duration {
        Duration { secs: (n / nanos_per_sec()) as u64, nanos: (n % nanos_per_sec()) as u32 }
    }

    /// A valid span is the span of its length in nanoseconds.
    pub proof fn lemma_from_total(d: Duration)
        requires
            d.valid(),
        ensures
            d == Duration::from_total(d.total_nanos()),
    {
    }

    /// Spans with the same seconds and the same sub-second nanoseconds are the
    /// same span.
    pub proof fn lemma_same_parts(a: Duration, b: Duration)
        requires
            a.secs() == b.secs(),
            a.nanos() == b.nanos(),
        ensures
            a == b,
    {
    }

    /// Builds a span from seconds and nanoseconds; nanoseconds of one second
    /// or more carry over into the seconds.
    pub fn new(secs: u64, nanos: u32) -> (d: Duration)
        requires
            secs + nanos / 1_000_000_000 <= u64::MAX,
        ensures
            d.valid(),
            d.total_nanos() == secs * nanos_per_sec() + nanos,
    {
        let carry: u64 = (nanos / 1_000_000_000) as u64;
        let d = Duration { secs: secs + carry, nanos: nanos % 1_000_000_000 };
        d
    }

    /// The empty span.
    pub fn zero() -> (d: Duration)
        ensures
            d.valid(),
            d.total_nanos() == 0,
    {
        Duration { secs: 0, nanos: 0 }
    }

    /// Whole seconds of the span.
    pub fn as_secs(&self) -> (s: u64)
        ensures
            s == self.secs(),
    {
        self.secs
    }

    /// Nanoseconds of the span below one second.
    pub fn subsec_nanos(&self) -> (n: u32)
        ensures
            n == self.nanos(),
            n < 1_000_000_000,
    {
        proof {
            use_type_invariant(self);
        }
        self.nanos
    }
}

} // verus!
