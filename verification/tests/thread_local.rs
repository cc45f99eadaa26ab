use minilibc::thread_local::{hash, ThreadLocal, HASH_MULTIPLIER};

#[test]
fn new_table_is_empty() {
    let mut t: ThreadLocal<u32> = ThreadLocal::new();
    assert!(t.get(7).is_none());
    let mut d: ThreadLocal<u32> = ThreadLocal::default();
    assert!(d.get(1).is_none());
}

#[test]
fn get_or_creates_once() {
    let mut t: ThreadLocal<u32> = ThreadLocal::new();
    assert_eq!(*t.get_or(5, || 10), 10);
    assert_eq!(*t.get_or(5, || 20), 10);
    assert_eq!(t.get(5), Some(&10));
    assert_eq!(t.get(6), None);
}

#[test]
fn many_threads_grow_the_table() {
    let mut t: ThreadLocal<usize> = ThreadLocal::new();
    for id in 1..=200usize {
        assert_eq!(*t.get_or(id, || id * 3), id * 3);
    }
    for id in 1..=200usize {
        assert_eq!(t.get(id), Some(&(id * 3)));
    }
    for id in 201..=260usize {
        assert_eq!(t.get(id), None);
    }
    for id in (1..=200usize).rev() {
        assert_eq!(*t.get_or(id, || 0), id * 3);
    }
}

#[test]
fn get_or_try_keeps_errors() {
    let mut t: ThreadLocal<String> = ThreadLocal::new();
    let r: Result<&String, &str> = t.get_or_try(3, || Err("no"));
    assert_eq!(r, Err("no"));
    assert!(t.get(3).is_none());
    let r: Result<&String, &str> = t.get_or_try(3, || Ok(String::from("yes")));
    assert_eq!(r, Ok(&String::from("yes")));
    let r: Result<&String, &str> = t.get_or_try(3, || Err("later"));
    assert_eq!(r, Ok(&String::from("yes")));
}

#[test]
fn get_or_default_and_clear() {
    let mut t: ThreadLocal<Vec<u8>> = ThreadLocal::new();
    assert!(t.get_or_default(9).is_empty());
    assert_eq!(t.get(9), Some(&Vec::new()));
    t.clear();
    assert!(t.get(9).is_none());
}

#[test]
fn hash_takes_top_bits() {
    assert_eq!(hash(1, 1), (HASH_MULTIPLIER >> 63) as usize);
    assert_eq!(hash(1, 8), (HASH_MULTIPLIER >> 56) as usize);
    assert_eq!(hash(2, 4), (HASH_MULTIPLIER.wrapping_mul(2) >> 60) as usize);
    assert!(hash(12345, 3) < 8);
}

#[test]
fn into_values_lists_each_thread_once() {
    let mut t: ThreadLocal<usize> = ThreadLocal::new();
    for id in 1..=50usize {
        t.get_or(id, || id + 1000);
    }
    for id in 1..=50usize {
        assert_eq!(t.get(id), Some(&(id + 1000)));
    }
    assert_eq!(t.thread_count(), 50);
    let mut v = t.into_values();
    v.sort();
    let expected: Vec<usize> = (1..=50usize).map(|id| id + 1000).collect();
    assert_eq!(v, expected);
}

#[test]
fn get_mut_writes_the_threads_value() {
    let mut t: ThreadLocal<u32> = ThreadLocal::new();
    assert!(t.get_mut(4).is_none());
    t.get_or(4, || 1);
    t.get_or(8, || 2);
    if let Some(v) = t.get_mut(4) {
        *v += 40;
    } else {
        panic!("thread 4 has a value");
    }
    assert_eq!(t.get(4), Some(&41));
    assert_eq!(t.get(8), Some(&2));
    assert!(t.get_mut(5).is_none());
    assert_eq!(t.thread_count(), 2);
}

#[test]
fn into_values_lists_the_newest_table_first() {
    let mut t: ThreadLocal<u32> = ThreadLocal::new();
    // The first table has two entries: the second thread outgrows it, and its
    // value goes to a new table of four while the first thread's stays behind.
    t.get_or(1, || 10);
    t.get_or(2, || 20);
    assert_eq!(t.into_values(), vec![20, 10]);
}

#[test]
fn nth_mut_visits_every_value_once() {
    let mut t: ThreadLocal<usize> = ThreadLocal::new();
    for id in 1..=20usize {
        t.get_or(id, || id);
    }
    // Move a few values up from older tables, as lookups do.
    for id in 1..=5usize {
        assert_eq!(t.get(id), Some(&id));
    }
    let count = t.thread_count();
    assert_eq!(count, 20);
    for n in 0..count {
        if let Some(v) = t.nth_mut(n) {
            *v += 100;
        } else {
            panic!("every place below the count holds a value");
        }
    }
    assert!(t.nth_mut(count).is_none());
    for id in 1..=20usize {
        assert_eq!(t.get(id), Some(&(id + 100)));
    }
    let mut listed: Vec<usize> = Vec::new();
    for n in 0..count {
        listed.push(*t.nth_mut(n).unwrap());
    }
    assert_eq!(t.into_values(), listed);
}
