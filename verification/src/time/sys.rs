use vstd::prelude::*;
use crate::time::duration::{Duration, nanos_per_sec};

verus! {

/// A reading of a clock: seconds and the nanoseconds below one second.
#[derive(Clone, Copy, Debug, PartialEq, Eq, PartialOrd, Ord, Hash)]
pub struct Timespec {
    tv_sec: i64,
    tv_nsec: i64,
}

/// `r` is the distance between readings `a` and `b`: `Ok` with `a - b` where
/// `a` is at or after `b`, else `Err` with `b - a`.
pub open spec fn is_distance(a: Timespec, b: Timespec, r: Result<Duration, Duration>) -> bool {
    &&& a.total_nanos() >= b.total_nanos() ==> (r matches Ok(d) && d.valid()
        && d.total_nanos() == a.total_nanos() - b.total_nanos())
    &&& a.total_nanos() < b.total_nanos() ==> (r matches Err(d) && d.valid()
        && d.total_nanos() == b.total_nanos() - a.total_nanos())
}

impl Timespec {
    #[verifier::type_invariant]
    spec fn nsec_in_range(self) -> bool {
        0 <= self.tv_nsec < 1_000_000_000
    }

    /// Seconds of the reading.
    pub closed spec fn sec(self) -> int {
        self.tv_sec as int
    }

    /// Nanoseconds of the reading below one second.
    pub closed spec fn nsec(self) -> int {
        self.tv_nsec as int
    }

    /// The point in time that the reading names, in nanoseconds from the clock's origin.
    pub open spec fn total_nanos(self) -> int {
        self.sec() * nanos_per_sec() + self.nsec()
    }

    /// What every reading satisfies.
    pub open spec fn valid(self) -> bool {
        &&& 0 <= self.nsec() < nanos_per_sec()
        &&& i64::MIN <= self.sec() <= i64::MAX
    }

    /// The reading of the clock's origin.
    pub fn zero() -> (t: Timespec)
        ensures
            t.valid(),
            t.sec() == 0,
            t.nsec() == 0,
    {
        Timespec { tv_sec: 0, tv_nsec: 0 }
    }

    /// A reading from seconds and nanoseconds, or `None` where the nanoseconds
    /// are not below one second or are negative.
    pub fn new(tv_sec: i64, tv_nsec: i64) -> (t: Option<Timespec>)
        ensures
            t is Some <==> 0 <= tv_nsec < nanos_per_sec(),
            t matches Some(t) ==> t.valid() && t.sec() == tv_sec && t.nsec() == tv_nsec,
    {
        if 0 <= tv_nsec && tv_nsec < 1_000_000_000 {
            Some(Timespec { tv_sec, tv_nsec })
        } else {
            None
        }
    }

    /// Seconds of the reading.
    pub fn tv_sec(&self) -> (s: i64)
        ensures
            s == self.sec(),
    {
        self.tv_sec
    }

    /// Nanoseconds of the reading below one second.
    pub fn tv_nsec(&self) -> (n: i64)
        ensures
            n == self.nsec(),
            0 <= n < nanos_per_sec(),
    {
        proof {
            use_type_invariant(self);
        }
        self.tv_nsec
    }

    /// Whether `self` is at or after `other`, comparing seconds first and then nanoseconds.
    pub fn ge(&self, other: &Timespec) -> (b: bool)
        ensures
            b <==> self.total_nanos() >= other.total_nanos(),
    {
        proof {
            use_type_invariant(self);
            use_type_invariant(other);
        }
        self.tv_sec > other.tv_sec || (self.tv_sec == other.tv_sec && self.tv_nsec >= other.tv_nsec)
    }

    /// The distance between two readings: `Ok` with `self - other` where
    /// `self` is at or after `other`, else `Err` with `other - self`.
    pub fn sub_timespec(&self, other: &Timespec) -> (r: Result<Duration, Duration>)
        ensures
            is_distance(*self, *other, r),
        decreases
            (if self.total_nanos() >= other.total_nanos() { 0int } else { 1int }),
    {
        proof {
            use_type_invariant(self);
            use_type_invariant(other);
        }
        if self.ge(other) {
            if self.tv_nsec >= other.tv_nsec {
                let secs: u64 = (self.tv_sec as i128 - other.tv_sec as i128) as u64;
                let nanos: u32 = (self.tv_nsec - other.tv_nsec) as u32;
                Ok(Duration::new(secs, nanos))
            } else {
                let secs: u64 = (self.tv_sec as i128 - 1 - other.tv_sec as i128) as u64;
                let nanos: u32 = (self.tv_nsec as u32 + 1_000_000_000) - other.tv_nsec as u32;
                Ok(Duration::new(secs, nanos))
            }
        } else {
            match other.sub_timespec(self) {
                Ok(d) => Err(d),
                Err(d) => Ok(d),
            }
        }
    }
    /// Whether adding `d` to `self` carries one second out of the nanoseconds.
    pub open spec fn add_carries(self, d: Duration) -> bool {
        self.nsec() + d.nanos() >= nanos_per_sec()
    }

    /// Whether subtracting `d` from `self` borrows one second from the seconds.
    pub open spec fn sub_borrows(self, d: Duration) -> bool {
        self.nsec() < d.nanos()
    }

    /// Seconds of `self + d`.
    pub open spec fn add_secs(self, d: Duration) -> int {
        self.sec() + d.secs() + (if self.add_carries(d) { 1int } else { 0int })
    }

    /// Seconds of `self - d`.
    pub open spec fn sub_secs(self, d: Duration) -> int {
        self.sec() - d.secs() - (if self.sub_borrows(d) { 1int } else { 0int })
    }

    /// The reading `d` after this one.
    pub closed spec fn plus(self, d: Duration) -> Timespec {
        Timespec {
            tv_sec: self.add_secs(d) as i64,
            tv_nsec: ((self.nsec() + d.nanos()) % nanos_per_sec()) as i64,
        }
    }

    /// The reading `d` before this one.
    pub closed spec fn minus(self, d: Duration) -> Timespec {
        Timespec {
            tv_sec: self.sub_secs(d) as i64,
            tv_nsec: (if self.sub_borrows(d) {
                self.nsec() + nanos_per_sec() - d.nanos()
            } else {
                self.nsec() - d.nanos()
            }) as i64,
        }
    }

    /// `self + d` as a reading, or `None` where the seconds of `d` or of the
    /// sum do not fit in `i64`.
    pub fn checked_add_duration(&self, other: &Duration) -> (r: Option<Timespec>)
        ensures
            r is Some <==> other.secs() <= i64::MAX && self.add_secs(*other) <= i64::MAX,
            r matches Some(t) ==> t.valid() && t.sec() == self.add_secs(*other)
                && t.total_nanos() == self.total_nanos() + other.total_nanos(),
            r matches Some(t) ==> t == self.plus(*other),
    {
        proof {
            use_type_invariant(self);
        }
        let d_secs = other.as_secs();
        if d_secs > 0x7fff_ffff_ffff_ffff {
            return None;
        }
        let mut secs: i64 = match self.tv_sec.checked_add(d_secs as i64) {
            Some(s) => s,
            None => { return None; }
        };
        let mut nsec: u32 = other.subsec_nanos() + self.tv_nsec as u32;
        if nsec >= 1_000_000_000 {
            nsec = nsec - 1_000_000_000;
            secs = match secs.checked_add(1) {
                Some(s) => s,
                None => { return None; }
            };
        }
        Some(Timespec { tv_sec: secs, tv_nsec: nsec as i64 })
    }

    /// `self - d` as a reading, or `None` where the seconds of `d` or of the
    /// difference do not fit in `i64`.
    pub fn checked_sub_duration(&self, other: &Duration) -> (r: Option<Timespec>)
        ensures
            r is Some <==> other.secs() <= i64::MAX && i64::MIN <= self.sub_secs(*other),
            r matches Some(t) ==> t.valid() && t.sec() == self.sub_secs(*other)
                && t.total_nanos() == self.total_nanos() - other.total_nanos(),
            r matches Some(t) ==> t == self.minus(*other),
    {
        proof {
            use_type_invariant(self);
        }
        let d_secs = other.as_secs();
        if d_secs > 0x7fff_ffff_ffff_ffff {
            return None;
        }
        let mut secs: i64 = match self.tv_sec.checked_sub(d_secs as i64) {
            Some(s) => s,
            None => { return None; }
        };
        let mut nsec: i32 = self.tv_nsec as i32 - other.subsec_nanos() as i32;
        if nsec < 0 {
            nsec = nsec + 1_000_000_000;
            secs = match secs.checked_sub(1) {
                Some(s) => s,
                None => { return None; }
            };
        }
        Some(Timespec { tv_sec: secs, tv_nsec: nsec as i64 })
    }
}

} // verus!

verus! {

/// A point in time of the monotonic clock.
#[derive(Clone, Copy, Debug, PartialEq, Eq, PartialOrd, Ord, Hash)]
pub struct Instant {
    t: Timespec,
}

impl Instant {
    /// The clock reading that the instant holds.
    pub closed spec fn timespec(self) -> Timespec {
        self.t
    }

    /// The instant in nanoseconds from the clock's origin.
    pub open spec fn total_nanos(self) -> int {
        self.timespec().total_nanos()
    }

    /// The instant `d` after this one.
    pub closed spec fn plus(self, d: Duration) -> Instant {
        Instant { t: self.t.plus(d) }
    }

    /// The instant `d` before this one.
    pub closed spec fn minus(self, d: Duration) -> Instant {
        Instant { t: self.t.minus(d) }
    }

    /// The instant at which the monotonic clock read `t`.
    pub fn from_timespec(t: Timespec) -> (i: Instant)
        ensures
            i.timespec() == t,
    {
        Instant { t }
    }

    /// The clock reading that the instant holds.
    pub fn as_timespec(&self) -> (t: Timespec)
        ensures
            t == self.timespec(),
    {
        self.t
    }

    /// The clock's origin.
    pub fn zero() -> (i: Instant)
        ensures
            i.timespec().sec() == 0,
            i.timespec().nsec() == 0,
            i.total_nanos() == 0,
    {
        Instant { t: Timespec::zero() }
    }

    /// Whether the clock never goes backwards; it does not on Linux-like systems.
    pub fn actually_monotonic() -> (b: bool)
        ensures
            b,
    {
        true
    }

    /// Whether `self` is at or after `other`.
    pub fn ge(&self, other: &Instant) -> (b: bool)
        ensures
            b <==> self.total_nanos() >= other.total_nanos(),
    {
        self.t.ge(&other.t)
    }

    /// `self - other`, or `None` where `other` is after `self`.
    pub fn checked_sub_instant(&self, other: &Instant) -> (r: Option<Duration>)
        ensures
            r is Some <==> self.total_nanos() >= other.total_nanos(),
            r matches Some(d) ==> d.valid() && d.total_nanos() == self.total_nanos() - other.total_nanos(),
    {
        match self.t.sub_timespec(&other.t) {
            Ok(d) => Some(d),
            Err(_) => None,
        }
    }

    /// `self + other`, or `None` where it cannot be represented.
    pub fn checked_add_duration(&self, other: &Duration) -> (r: Option<Instant>)
        ensures
            r is Some <==> other.secs() <= i64::MAX && self.timespec().add_secs(*other) <= i64::MAX,
            r matches Some(i) ==> i.timespec().sec() == self.timespec().add_secs(*other)
                && i.total_nanos() == self.total_nanos() + other.total_nanos(),
            r matches Some(i) ==> i == self.plus(*other),
    {
        match self.t.checked_add_duration(other) {
            Some(t) => Some(Instant { t }),
            None => None,
        }
    }

    /// `self - other`, or `None` where it cannot be represented.
    pub fn checked_sub_duration(&self, other: &Duration) -> (r: Option<Instant>)
        ensures
            r is Some <==> other.secs() <= i64::MAX && i64::MIN <= self.timespec().sub_secs(*other),
            r matches Some(i) ==> i.timespec().sec() == self.timespec().sub_secs(*other)
                && i.total_nanos() == self.total_nanos() - other.total_nanos(),
            r matches Some(i) ==> i == self.minus(*other),
    {
        match self.t.checked_sub_duration(other) {
            Some(t) => Some(Instant { t }),
            None => None,
        }
    }
}

} // verus!

verus! {

/// Two spans of the same length in nanoseconds have the same seconds and
/// the same sub-second nanoseconds.
pub proof fn law_duration_determined_by_total(a: Duration, b: Duration)
    requires
        a.valid(),
        b.valid(),
        a.total_nanos() == b.total_nanos(),
    ensures
        a.secs() == b.secs(),
        a.nanos() == b.nanos(),
{
    if a.secs() < b.secs() {
        assert(a.total_nanos() < b.total_nanos());
    }
    if b.secs() < a.secs() {
        assert(b.total_nanos() < a.total_nanos());
    }
}

/// Adding a span to a reading and subtracting it again gives back the
/// reading: where `s` is `t + d`, `s - d` fits and is `t`.
pub proof fn law_add_then_sub(t: Timespec, d: Duration, s: Timespec)
    requires
        t.valid(),
        d.valid(),
        s.valid(),
        s.sec() == t.add_secs(d),
        s.total_nanos() == t.total_nanos() + d.total_nanos(),
    ensures
        s.sub_secs(d) == t.sec(),
        i64::MIN <= s.sub_secs(d),
        s.total_nanos() - d.total_nanos() == t.total_nanos(),
{
}

/// Subtracting a span from a reading and adding it again gives back the
/// reading: where `s` is `t - d`, `s + d` fits and is `t`.
pub proof fn law_sub_then_add(t: Timespec, d: Duration, s: Timespec)
    requires
        t.valid(),
        d.valid(),
        s.valid(),
        s.sec() == t.sub_secs(d),
        s.total_nanos() == t.total_nanos() - d.total_nanos(),
    ensures
        s.add_secs(d) == t.sec(),
        s.add_secs(d) <= i64::MAX,
        s.total_nanos() + d.total_nanos() == t.total_nanos(),
{
}

/// The distance between two different readings is the same either way
/// round: where `a - b` is `Ok(d)`, `b - a` is `Err` with a span of the same
/// seconds and nanoseconds, and the other way round.
pub proof fn law_distance_symmetric(a: Timespec, b: Timespec, r1: Result<Duration, Duration>, r2: Result<Duration, Duration>)
    requires
        a.valid(),
        b.valid(),
        a.total_nanos() != b.total_nanos(),
        is_distance(a, b, r1),
        is_distance(b, a, r2),
    ensures
        r1 is Ok <==> r2 is Err,
        r1 matches Ok(d1) ==> (r2 matches Err(d2) && d1.secs() == d2.secs() && d1.nanos() == d2.nanos()),
        r1 matches Err(d1) ==> (r2 matches Ok(d2) && d1.secs() == d2.secs() && d1.nanos() == d2.nanos()),
{
    match (r1, r2) {
        (Ok(d1), Err(d2)) => law_duration_determined_by_total(d1, d2),
        (Err(d1), Ok(d2)) => law_duration_determined_by_total(d1, d2),
        _ => {},
    }
}

impl Timespec {
    /// What `plus` builds: a valid reading `d` after this one.
    pub proof fn lemma_plus(self, d: Duration)
        requires
            self.valid(),
            d.valid(),
            self.add_secs(d) <= i64::MAX,
        ensures
            self.plus(d).valid(),
            self.plus(d).sec() == self.add_secs(d),
            self.plus(d).total_nanos() == self.total_nanos() + d.total_nanos(),
    {
    }

    /// What `minus` builds: a valid reading `d` before this one.
    pub proof fn lemma_minus(self, d: Duration)
        requires
            self.valid(),
            d.valid(),
            i64::MIN <= self.sub_secs(d),
        ensures
            self.minus(d).valid(),
            self.minus(d).sec() == self.sub_secs(d),
            self.minus(d).total_nanos() == self.total_nanos() - d.total_nanos(),
    {
    }

    /// Readings with the same seconds and the same sub-second nanoseconds are
    /// the same reading.
    pub proof fn lemma_same_parts(a: Timespec, b: Timespec)
        requires
            a.sec() == b.sec(),
            a.nsec() == b.nsec(),
        ensures
            a == b,
    {
    }

    /// Taking a span off a reading it was added to gives back the reading.
    pub proof fn lemma_plus_then_minus(self, d: Duration)
        requires
            self.valid(),
            d.valid(),
            self.add_secs(d) <= i64::MAX,
        ensures
            i64::MIN <= self.plus(d).sub_secs(d),
            self.plus(d).minus(d) == self,
    {
    }

    /// Adding back a span taken off a reading gives back the reading.
    pub proof fn lemma_minus_then_plus(self, d: Duration)
        requires
            self.valid(),
            d.valid(),
            i64::MIN <= self.sub_secs(d),
        ensures
            self.minus(d).add_secs(d) <= i64::MAX,
            self.minus(d).plus(d) == self,
    {
    }
}

impl Instant {
    /// `plus` moves the reading the instant holds.
    pub proof fn lemma_plus(self, d: Duration)
        ensures
            self.plus(d).timespec() == self.timespec().plus(d),
    {
    }

    /// `minus` moves the reading the instant holds.
    pub proof fn lemma_minus(self, d: Duration)
        ensures
            self.minus(d).timespec() == self.timespec().minus(d),
    {
    }

    /// Taking a span off an instant it was added to gives back the instant.
    pub proof fn lemma_plus_then_minus(self, d: Duration)
        requires
            self.timespec().valid(),
            d.valid(),
            self.timespec().add_secs(d) <= i64::MAX,
        ensures
            i64::MIN <= self.timespec().plus(d).sub_secs(d),
            self.plus(d).minus(d) == self,
    {
        self.timespec().lemma_plus_then_minus(d);
    }

    /// Adding back a span taken off an instant gives back the instant.
    pub proof fn lemma_minus_then_plus(self, d: Duration)
        requires
            self.timespec().valid(),
            d.valid(),
            i64::MIN <= self.timespec().sub_secs(d),
        ensures
            self.timespec().minus(d).add_secs(d) <= i64::MAX,
            self.minus(d).plus(d) == self,
    {
        self.timespec().lemma_minus_then_plus(d);
    }

    /// Instants holding the same reading are the same.
    pub proof fn lemma_same_reading(a: Instant, b: Instant)
        requires
            a.timespec() == b.timespec(),
        ensures
            a == b,
    {
    }
}

} // verus!
