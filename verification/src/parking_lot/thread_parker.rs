use vstd::prelude::*;
use crate::time::duration::Duration;
use crate::time::instant::Instant;
use crate::time::sys::Timespec;

verus! {

/// What a thread parked until a deadline does on one round of its wait.
#[derive(Clone, Copy, Debug)]
pub enum ParkStep {
    /// The deadline has passed: stop waiting and report a time-out.
    TimedOut,
    /// The time left does not fit a clock reading: wait without a time-out.
    WaitIndefinitely,
    /// Wait on the futex for at most this long.
    WaitFor(Timespec),
}

/// One round of parking until `timeout`, at clock reading `now`: time out
/// where the deadline is not after `now`; else wait for the time left, or
/// without a time-out where its seconds do not fit in `i64`.
pub fn park_until_step(timeout: Instant, now: Instant) -> (s: ParkStep)
    ensures
        timeout.total_nanos() <= now.total_nanos() <==> s is TimedOut,
        s is WaitIndefinitely ==> (timeout.total_nanos() - now.total_nanos()) / 1_000_000_000 > i64::MAX,
        s matches ParkStep::WaitFor(ts) ==> ts.valid() && ts.sec() >= 0
            && ts.total_nanos() == timeout.total_nanos() - now.total_nanos(),
        now.total_nanos() < timeout.total_nanos() && (timeout.total_nanos() - now.total_nanos())
            / 1_000_000_000 <= i64::MAX ==> s is WaitFor,
{
    if now.ge(&timeout) {
        return ParkStep::TimedOut;
    }
    let diff: Duration = timeout.duration_since(now);
    let secs: u64 = diff.as_secs();
    if secs > 0x7fff_ffff_ffff_ffff {
        return ParkStep::WaitIndefinitely;
    }
    let nanos: u32 = diff.subsec_nanos();
    match Timespec::new(secs as i64, nanos as i64) {
        Some(ts) => ParkStep::WaitFor(ts),
        None => ParkStep::WaitIndefinitely,
    }
}

} // verus!
