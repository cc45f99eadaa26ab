use minilibc::memory;

fn words_to_bytes(v: &[i32]) -> Vec<u8> {
    let mut out = Vec::new();
    for w in v {
        out.extend_from_slice(&w.to_ne_bytes());
    }
    out
}

fn bytes_to_words(v: &[u8]) -> Vec<i32> {
    v.chunks(4).map(|c| i32::from_ne_bytes([c[0], c[1], c[2], c[3]])).collect()
}

fn signed(v: &[u8]) -> Vec<i8> {
    v.iter().map(|&b| b as i8).collect()
}

#[test]
fn memcpy() {
    let mut a = Vec::new();
    let mut b = Vec::new();
    for i in 0..1000 {
        a.push(i);
    }
    b.resize(a.len(), 0);
    let src = words_to_bytes(&a);
    let mut dst = words_to_bytes(&b);
    memory::memcpy(&mut dst, &src, 4 * a.len());
    let b = bytes_to_words(&dst);
    assert_eq!(a, b)
}

#[test]
fn memmove() {
    let mut a = Vec::new();
    let mut b = Vec::new();
    a.resize(1500, 0);
    b.resize(1500, 0);
    for i in 0..1000 {
        b[i] = i as i32;
        a[i] = i as i32;
    }
    for i in 500..1500 {
        b[i] = i as i32 - 500;
    }
    let mut buf = words_to_bytes(&a);
    memory::memmove(&mut buf, 4 * 500, 0, 4 * 1000);
    let a = bytes_to_words(&buf);
    assert_eq!(a, b)
}

#[test]
fn memchr() {
    let string = b"1234123412341234";
    let res = memory::memchr(&signed(string), 0, string.len());
    println!("{:?}", res);
    assert_eq!(res, None);
}

#[test]
fn memcmp() {
    let a = signed(b"12345555555555555555565555555");
    let b = signed(b"12345555555555555555555555555");
    assert!(memory::memcmp(&a, &b, a.len()) > 0);
    assert!(memory::memcmp(&b, &a, a.len()) < 0);
    assert_eq!(memory::memcmp(&a, &a, a.len()), 0);
}

#[test]
fn memchr_finds_first_occurrence() {
    let s: Vec<i8> = (0..100).map(|i| (i % 7) as i8).collect();
    assert_eq!(memory::memchr(&s, 3, 100), Some(3));
    assert_eq!(memory::memchr(&s, 3, 3), None);
    assert_eq!(memory::memchr_simd_avx2(&s, 6, 100), Some(6));
    assert_eq!(memory::memchr_simd_sse(&s, 6 + 256, 100), Some(6));
    let mut t = vec![1i8; 80];
    t[70] = 9;
    assert_eq!(memory::memchr_simd_avx2(&t, 9, 80), Some(70));
    assert_eq!(memory::memchr_simd_sse(&t, 9, 80), Some(70));
    assert_eq!(memory::memchr(&t, 9, 70), None);
}

#[test]
fn short_cmp_wraps_the_difference() {
    let a = [1i8, 2, 100];
    let b = [1i8, 2, -100];
    assert_eq!(memory::short_cmp(&a, &b, 3), -56);
    assert_eq!(memory::short_cmp(&a, &b, 2), 0);
    assert_eq!(memory::short_cmp(&b, &a, 3), 56);
}

#[test]
fn memcmp_long_blocks_compare_the_first_block() {
    let a = vec![0i8; 40];
    let mut b = vec![0i8; 40];
    b[35] = 1;
    assert_eq!(memory::memcmp(&a, &b, 40), 0);
    let mut c = vec![0i8; 40];
    c[10] = 1;
    let mut d = vec![0i8; 40];
    d[18] = 5;
    assert_eq!(memory::memcmp(&c, &d, 40), -5);
}

#[test]
fn memcpy_sse_copies_half_lanes() {
    let src: Vec<u8> = (0..70).map(|i| i as u8 + 1).collect();
    let mut dst = vec![0u8; 70];
    memory::memcpy_simd_sse(&mut dst, &src, 70);
    for k in 0..70 {
        let written = k < 6 || (k - 6) % 32 < 16;
        assert_eq!(dst[k], if written { src[k] } else { 0 });
    }
}

#[test]
fn memmove_overlaps() {
    let orig: Vec<u8> = (0..64).collect();
    let mut buf = orig.clone();
    memory::memmove_simd_avx2(&mut buf, 0, 5, 40);
    for k in 0..40 {
        assert_eq!(buf[k], orig[k + 5]);
    }
    for k in 40..64 {
        assert_eq!(buf[k], orig[k]);
    }
    let mut buf = orig.clone();
    memory::memmove_simd_avx2(&mut buf, 30, 10, 30);
    for k in 30..60 {
        assert_eq!(buf[k], orig[k - 20]);
    }
    let mut buf = vec![b'a', b'b', b'c', b'd'];
    memory::memmove(&mut buf, 1, 0, 3);
    assert_eq!(buf, vec![b'a', b'a', b'b', b'b']);
    let mut buf = orig.clone();
    memory::memmove_simd_sse(&mut buf, 0, 1, 3);
    assert_eq!(&buf[..4], &[1, 2, 3, 3]);
}
