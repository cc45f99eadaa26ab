use vstd::prelude::*;
use core::sync::atomic::AtomicUsize;
use core::sync::atomic::Ordering;

verus! {

/// Lock-elision flavoured atomic operations.
pub trait AtomicElisionExt {
    /// Compares the atomic with `current` and, where equal, stores `new`; the
    /// answer is `Ok` with the previous value where it equalled `current`,
    /// else `Err` with the previous value.
    fn elision_compare_exchange_acquire(&self, current: usize, new: usize) -> (r: Result<usize, usize>)
        ensures
            r matches Ok(prev) ==> prev == current,
            r matches Err(prev) ==> prev != current,
    ;

    /// Subtracts `val`, wrapping around, and answers with the previous value.
    fn elision_fetch_sub_release(&self, val: usize) -> usize;
}

impl AtomicElisionExt for AtomicUsize {
    fn elision_compare_exchange_acquire(&self, current: usize, new: usize) -> (r: Result<usize, usize>) {
        let prev: usize = match self.compare_exchange(current, new, Ordering::Acquire, Ordering::Relaxed) {
            Ok(p) => p,
            Err(p) => p,
        };
        if prev == current {
            Ok(prev)
        } else {
            Err(prev)
        }
    }

    fn elision_fetch_sub_release(&self, val: usize) -> usize {
        self.fetch_sub(val, Ordering::Release)
    }
}

} // verus!
