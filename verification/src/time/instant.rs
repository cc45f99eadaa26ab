use vstd::prelude::*;
use crate::time::duration::Duration;
use crate::time::sys;

verus! {

/// A point in time of the monotonic clock, with the arithmetic callers use.
#[derive(Clone, Copy, Debug, PartialEq, Eq, PartialOrd, Ord, Hash)]
pub struct Instant(sys::Instant);

impl Instant {
    /// The underlying instant.
    pub closed spec fn inner(self) -> sys::Instant {
        self.0
    }

    /// The instant in nanoseconds from the clock's origin.
    pub open spec fn total_nanos(self) -> int {
        self.inner().total_nanos()
    }

    /// The instant `d` after this one.
    pub closed spec fn plus(self, d: Duration) -> Instant {
        Instant(self.0.plus(d))
    }

    /// The instant `d` before this one.
    pub closed spec fn minus(self, d: Duration) -> Instant {
        Instant(self.0.minus(d))
    }

    /// Whether `self + d` can be represented.
    pub open spec fn can_add(self, d: Duration) -> bool {
        d.secs() <= i64::MAX && self.inner().timespec().add_secs(d) <= i64::MAX
    }

    /// Whether `self - d` can be represented.
    pub open spec fn can_sub(self, d: Duration) -> bool {
        d.secs() <= i64::MAX && i64::MIN <= self.inner().timespec().sub_secs(d)
    }

    /// The instant that `i` names.
    pub fn from_sys(i: sys::Instant) -> (r: Instant)
        ensures
            r.inner() == i,
    {
        Instant(i)
    }

    /// The underlying instant.
    pub fn as_sys(&self) -> (i: sys::Instant)
        ensures
            i == self.inner(),
    {
        self.0
    }

    /// Whether `self` is at or after `other`.
    pub fn ge(&self, other: &Instant) -> (b: bool)
        ensures
            b <==> self.total_nanos() >= other.total_nanos(),
    {
        self.0.ge(&other.0)
    }

    /// The time elapsed from `earlier` to `self`; `earlier` must not be after `self`.
    pub fn duration_since(&self, earlier: Instant) -> (d: Duration)
        requires
            earlier.total_nanos() <= self.total_nanos(),
        ensures
            d.valid(),
            d.total_nanos() == self.total_nanos() - earlier.total_nanos(),
    {
        match self.0.checked_sub_instant(&earlier.0) {
            Some(d) => d,
            None => {
                assert(false);
                Duration::zero()
            },
        }
    }

    /// The time elapsed from `earlier` to `self`, or `None` where `earlier` is after `self`.
    pub fn checked_duration_since(&self, earlier: Instant) -> (r: Option<Duration>)
        ensures
            r is Some <==> earlier.total_nanos() <= self.total_nanos(),
            r matches Some(d) ==> d.valid() && d.total_nanos() == self.total_nanos() - earlier.total_nanos(),
    {
        self.0.checked_sub_instant(&earlier.0)
    }

    /// The time elapsed from `earlier` to `self`, or zero where `earlier` is after `self`.
    pub fn saturating_duration_since(&self, earlier: Instant) -> (d: Duration)
        ensures
            d.valid(),
            earlier.total_nanos() <= self.total_nanos() ==> d.total_nanos() == self.total_nanos() - earlier.total_nanos(),
            earlier.total_nanos() > self.total_nanos() ==> d.total_nanos() == 0,
    {
        match self.checked_duration_since(earlier) {
            Some(d) => d,
            None => Duration::new(0, 0),
        }
    }

    /// The time elapsed from `self` to `now`, the clock's current reading;
    /// `self` must not be after `now`.
    pub fn elapsed(&self, now: Instant) -> (d: Duration)
        requires
            self.total_nanos() <= now.total_nanos(),
        ensures
            d.valid(),
            d.total_nanos() == now.total_nanos() - self.total_nanos(),
    {
        now.duration_since(*self)
    }

    /// `self + duration`, or `None` where it cannot be represented.
    pub fn checked_add(&self, duration: Duration) -> (r: Option<Instant>)
        ensures
            r is Some <==> self.can_add(duration),
            r matches Some(i) ==> i.inner().timespec().sec() == self.inner().timespec().add_secs(duration)
                && i.total_nanos() == self.total_nanos() + duration.total_nanos(),
            r matches Some(i) ==> i == self.plus(duration),
    {
        match self.0.checked_add_duration(&duration) {
            Some(i) => Some(Instant(i)),
            None => None,
        }
    }

    /// `self - duration`, or `None` where it cannot be represented.
    pub fn checked_sub(&self, duration: Duration) -> (r: Option<Instant>)
        ensures
            r is Some <==> self.can_sub(duration),
            r matches Some(i) ==> i.inner().timespec().sec() == self.inner().timespec().sub_secs(duration)
                && i.total_nanos() == self.total_nanos() - duration.total_nanos(),
            r matches Some(i) ==> i == self.minus(duration),
    {
        match self.0.checked_sub_duration(&duration) {
            Some(i) => Some(Instant(i)),
            None => None,
        }
    }
}

} // verus!

verus! {

impl core::ops::Add<Duration> for Instant {
    type Output = Instant;

    /// `self + other`; the sum must be representable.
    fn add(self, other: Duration) -> (r: Instant) {
        match self.checked_add(other) {
            Some(i) => i,
            None => vstd::pervasive::unreached(),
        }
    }
}

impl vstd::std_specs::ops::AddSpecImpl<Duration> for Instant {
    open spec fn obeys_add_spec() -> bool {
        true
    }

    open spec fn add_req(self, rhs: Duration) -> bool {
        self.can_add(rhs)
    }

    open spec fn add_spec(self, rhs: Duration) -> Instant {
        self.plus(rhs)
    }
}

impl core::ops::Sub<Duration> for Instant {
    type Output = Instant;

    /// `self - other`; the difference must be representable.
    fn sub(self, other: Duration) -> (r: Instant) {
        match self.checked_sub(other) {
            Some(i) => i,
            None => vstd::pervasive::unreached(),
        }
    }
}

impl vstd::std_specs::ops::SubSpecImpl<Duration> for Instant {
    open spec fn obeys_sub_spec() -> bool {
        true
    }

    open spec fn sub_req(self, rhs: Duration) -> bool {
        self.can_sub(rhs)
    }

    open spec fn sub_spec(self, rhs: Duration) -> Instant {
        self.minus(rhs)
    }
}

impl core::ops::Sub<Instant> for Instant {
    type Output = Duration;

    /// The time elapsed from `other` to `self`; `other` must not be after `self`.
    fn sub(self, other: Instant) -> (d: Duration) {
        let d = self.duration_since(other);
        proof {
            Duration::lemma_from_total(d);
        }
        d
    }
}

impl vstd::std_specs::ops::SubSpecImpl<Instant> for Instant {
    open spec fn obeys_sub_spec() -> bool {
        true
    }

    open spec fn sub_req(self, rhs: Instant) -> bool {
        rhs.total_nanos() <= self.total_nanos()
    }

    open spec fn sub_spec(self, rhs: Instant) -> Duration {
        Duration::from_total(self.total_nanos() - rhs.total_nanos())
    }
}

} // verus!

verus! {

/// Adding a span to an instant and measuring from the instant gives back the
/// span: `(a + d) - a == d`.
pub proof fn law_add_then_measure(a: Instant, d: Duration)
    requires
        a.inner().timespec().valid(),
        d.valid(),
        a.can_add(d),
    ensures
        a.plus(d).total_nanos() == a.total_nanos() + d.total_nanos(),
        Duration::from_total(a.plus(d).total_nanos() - a.total_nanos()) == d,
{
    a.inner().lemma_plus(d);
    a.inner().timespec().lemma_plus(d);
    Duration::lemma_from_total(d);
}

/// Adding a span to an instant and taking it off again gives back the
/// instant: `(a + d) - d == a`.
pub proof fn law_add_then_sub(a: Instant, d: Duration)
    requires
        a.inner().timespec().valid(),
        d.valid(),
        a.can_add(d),
    ensures
        a.plus(d).can_sub(d),
        a.plus(d).minus(d) == a,
{
    let t = a.inner().timespec();
    a.inner().lemma_plus(d);
    t.lemma_plus(d);
    t.lemma_plus_then_minus(d);
    a.inner().plus(d).lemma_minus(d);
    sys::Instant::lemma_same_reading(a.inner().plus(d).minus(d), a.inner());
}

} // verus!
