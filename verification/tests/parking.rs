use minilibc::parking_lot::elision::AtomicElisionExt;
use minilibc::parking_lot::spinwait::{Backoff, SpinWait};
use minilibc::parking_lot::thread_parker::{park_until_step, ParkStep};
use minilibc::parking_lot::util::UncheckedOptionExt;
use minilibc::time::instant::Instant;
use minilibc::time::sys;
use minilibc::time::sys::Timespec;
use std::sync::atomic::{AtomicUsize, Ordering};

fn instant(sec: i64, nsec: i64) -> Instant {
    Instant::from_sys(sys::Instant::from_timespec(Timespec::new(sec, nsec).unwrap()))
}

#[test]
fn spin_wait_backs_off_then_stops() {
    let mut w = SpinWait::new();
    let mut steps = Vec::new();
    for _ in 0..12 {
        steps.push(w.spin());
    }
    assert_eq!(&steps[..3], &[Backoff::Spun, Backoff::Spun, Backoff::Spun]);
    assert!(steps[3..10].iter().all(|s| *s == Backoff::Yield));
    assert_eq!(&steps[10..], &[Backoff::Exhausted, Backoff::Exhausted]);
    assert_eq!(w.counter(), 10);
    w.reset();
    assert_eq!(w.counter(), 0);
    for _ in 0..15 {
        w.spin_no_yield();
    }
    assert_eq!(w.counter(), 10);
    let d = SpinWait::default();
    assert_eq!(d.counter(), 0);
}

#[test]
fn park_step_decisions() {
    let now = instant(10, 0);
    assert!(matches!(park_until_step(instant(9, 0), now), ParkStep::TimedOut));
    assert!(matches!(park_until_step(instant(10, 0), now), ParkStep::TimedOut));
    match park_until_step(instant(12, 5), now) {
        ParkStep::WaitFor(ts) => assert_eq!((ts.tv_sec(), ts.tv_nsec()), (2, 5)),
        _ => panic!("expected a bounded wait"),
    }
    let far = instant(i64::MAX, 0);
    let early = instant(-10, 0);
    assert!(matches!(park_until_step(far, early), ParkStep::WaitIndefinitely));
}

#[test]
fn elision_exchange() {
    let a = AtomicUsize::new(5);
    assert_eq!(a.elision_compare_exchange_acquire(5, 7), Ok(5));
    assert_eq!(a.load(Ordering::SeqCst), 7);
    assert_eq!(a.elision_compare_exchange_acquire(5, 9), Err(7));
    assert_eq!(a.elision_fetch_sub_release(2), 7);
    assert_eq!(a.load(Ordering::SeqCst), 5);
}

#[test]
fn unchecked_unwrap_of_some() {
    assert_eq!(Some(4).unchecked_unwrap(), 4);
}
