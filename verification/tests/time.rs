use minilibc::parking_lot::util::to_deadline;
use minilibc::time::duration::Duration;
use minilibc::time::instant::Instant;
use minilibc::time::sys;
use minilibc::time::sys::Timespec;

/// A reading of the system clock as std reports it, in the library's terms.
fn read_clock() -> Timespec {
    let since = std::time::SystemTime::now().duration_since(std::time::UNIX_EPOCH).unwrap();
    Timespec::new(since.as_secs() as i64, since.subsec_nanos() as i64).unwrap()
}

fn instant(sec: i64, nsec: i64) -> Instant {
    Instant::from_sys(sys::Instant::from_timespec(Timespec::new(sec, nsec).unwrap()))
}

/// The monotonic clock is read through a system call in the application
/// layer, which tests cannot reach; this test reads std's system clock
/// instead and checks that the reading converts to a valid `Timespec`.
#[test]
fn now() {
    println!("{:?}", read_clock())
}

#[test]
fn timespec_subtraction() {
    let a = Timespec::new(5, 100).unwrap();
    let b = Timespec::new(3, 200).unwrap();
    let d = a.sub_timespec(&b).unwrap();
    assert_eq!((d.as_secs(), d.subsec_nanos()), (1, 999_999_900));
    let e = b.sub_timespec(&a).unwrap_err();
    assert_eq!((e.as_secs(), e.subsec_nanos()), (1, 999_999_900));
    let far = Timespec::new(i64::MAX, 0).unwrap();
    let early = Timespec::new(i64::MIN, 0).unwrap();
    assert_eq!(far.sub_timespec(&early).unwrap().as_secs(), u64::MAX);
}

#[test]
fn timespec_duration_arithmetic() {
    let t = Timespec::new(10, 900_000_000).unwrap();
    let d = Duration::new(2, 200_000_000);
    let s = t.checked_add_duration(&d).unwrap();
    assert_eq!((s.tv_sec(), s.tv_nsec()), (13, 100_000_000));
    let back = s.checked_sub_duration(&d).unwrap();
    assert_eq!((back.tv_sec(), back.tv_nsec()), (10, 900_000_000));
    assert!(Timespec::new(i64::MAX, 900_000_000).unwrap().checked_add_duration(&Duration::new(0, 200_000_000)).is_none());
    assert!(Timespec::new(-5, 0).unwrap().checked_add_duration(&Duration::new(u64::MAX, 0)).is_none());
    assert!(Timespec::new(i64::MIN, 0).unwrap().checked_sub_duration(&Duration::new(0, 1)).is_none());
    assert!(Timespec::new(0, 1_000_000_000).is_none());
    assert!(Timespec::new(0, -1).is_none());
}

#[test]
fn duration_carries_nanoseconds() {
    let d = Duration::new(1, 2_500_000_000);
    assert_eq!((d.as_secs(), d.subsec_nanos()), (3, 500_000_000));
}

#[test]
fn instant_arithmetic() {
    let a = instant(100, 0);
    let b = instant(101, 500);
    assert_eq!(b.duration_since(a).as_secs(), 1);
    assert_eq!(b.duration_since(a).subsec_nanos(), 500);
    assert!(a.checked_duration_since(b).is_none());
    let z = a.saturating_duration_since(b);
    assert_eq!((z.as_secs(), z.subsec_nanos()), (0, 0));
    let e = a.elapsed(b);
    assert_eq!((e.as_secs(), e.subsec_nanos()), (1, 500));
    let c = a.checked_add(Duration::new(1, 500)).unwrap();
    assert!(c.ge(&b) && b.ge(&c));
    let back = c.checked_sub(Duration::new(1, 500)).unwrap();
    assert!(back.ge(&a) && a.ge(&back));
    assert!(to_deadline(a, Duration::new(u64::MAX, 0)).is_none());
    let dl = to_deadline(a, Duration::new(5, 0)).unwrap();
    assert_eq!(dl.duration_since(a).as_secs(), 5);
}

#[test]
fn sys_instant_basics() {
    let z = sys::Instant::zero();
    assert!(sys::Instant::actually_monotonic());
    let t = z.as_timespec();
    assert_eq!((t.tv_sec(), t.tv_nsec()), (0, 0));
    let later = z.checked_add_duration(&Duration::new(0, 7)).unwrap();
    assert_eq!(later.checked_sub_instant(&z).unwrap().subsec_nanos(), 7);
    assert!(z.checked_sub_instant(&later).is_none());
    let before = z.checked_sub_duration(&Duration::new(1, 0)).unwrap();
    assert_eq!(before.as_timespec().tv_sec(), -1);
}

#[test]
fn clock_readings_are_ordered() {
    let a = Instant::from_sys(sys::Instant::from_timespec(read_clock()));
    let b = Instant::from_sys(sys::Instant::from_timespec(read_clock()));
    if b.ge(&a) {
        let _ = a.elapsed(b);
    }
}

#[test]
fn instant_operators() {
    let a = instant(100, 900_000_000);
    let b = a + Duration::new(1, 200_000_000);
    assert_eq!(b, instant(102, 100_000_000));
    assert_eq!(b - Duration::new(1, 200_000_000), a);
    let d = b - a;
    assert_eq!((d.as_secs(), d.subsec_nanos()), (1, 200_000_000));
    assert!(a < b);
}

#[test]
fn add_then_measure_and_sub() {
    for (sec, nsec) in [(0i64, 0i64), (5, 999_999_999), (-3, 1), (1_000_000, 500)] {
        let a = instant(sec, nsec);
        for d in [Duration::new(0, 1), Duration::new(2, 999_999_999), Duration::new(7, 0)] {
            let b = a + d;
            let m = b - a;
            assert_eq!((m.as_secs(), m.subsec_nanos()), (d.as_secs(), d.subsec_nanos()));
            assert_eq!(b - d, a);
        }
    }
}

#[test]
fn sub_then_add_gives_the_reading_back() {
    let t = Timespec::new(4, 100_000_000).unwrap();
    let d = Duration::new(1, 300_000_000);
    let s = t.checked_sub_duration(&d).unwrap();
    assert_eq!((s.tv_sec(), s.tv_nsec()), (2, 800_000_000));
    let back = s.checked_add_duration(&d).unwrap();
    assert_eq!(back, t);
    let low = Timespec::new(i64::MIN + 1, 0).unwrap();
    let one = Duration::new(1, 0);
    let bottom = low.checked_sub_duration(&one).unwrap();
    assert_eq!(bottom.checked_add_duration(&one), Some(low));
}
