use vstd::prelude::*;
use crate::time::duration::Duration;
use crate::time::instant::Instant;

verus! {

/// Unwrapping an option that the caller knows holds a value.
pub trait UncheckedOptionExt<T> {
    /// Whether the option holds a value.
    spec fn holds_value(&self) -> bool;

    /// The value the option holds.
    spec fn held_value(&self) -> T;

    /// The value of an option that holds one.
    fn unchecked_unwrap(self) -> (t: T)
        requires
            self.holds_value(),
        ensures
            t == self.held_value(),
    ;
}

impl<T> UncheckedOptionExt<T> for Option<T> {
    open spec fn holds_value(&self) -> bool {
        *self is Some
    }

    open spec fn held_value(&self) -> T {
        self->0
    }

    fn unchecked_unwrap(self) -> (t: T) {
        match self {
            Some(x) => x,
            None => vstd::pervasive::unreached(),
        }
    }
}

/// The instant `timeout` after `now`, the clock's current reading, or `None`
/// where it cannot be represented.
pub fn to_deadline(now: Instant, timeout: Duration) -> (r: Option<Instant>)
    ensures
        r is Some <==> now.can_add(timeout),
        r matches Some(i) ==> i == now.plus(timeout) && i.total_nanos() == now.total_nanos() + timeout.total_nanos(),
{
    now.checked_add(timeout)
}

} // verus!
