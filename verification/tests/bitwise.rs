use minilibc::bitwise;

#[test]
fn bsf32() {
    let a: i32 = 0b00010000;
    assert_eq!(bitwise::bsf32(a), 4);
}

#[test]
fn pop_count() {
    let a: u64 = 0b00000000;
    assert_eq!(bitwise::pop_count64(a), 0);
    let a: u64 = 0b00010000;
    assert_eq!(bitwise::pop_count64(a), 1);
    let a: u64 = 0b00011000;
    assert_eq!(bitwise::pop_count64(a), 2);
    let a: u64 = 0b10011000111101111;
    assert_eq!(bitwise::pop_count64(a), 11);
}

#[test]
fn byte_parity() {
    assert!(bitwise::byte_parity(1));
    assert!(!bitwise::byte_parity(0b11));
    assert!(!bitwise::byte_parity(0b0));
    assert!(!bitwise::byte_parity(0b1100));
    assert!(!bitwise::byte_parity(0b11));
}

#[test]
fn pop_parity() {
    assert!(bitwise::pop_parity(1));
    assert!(!bitwise::pop_parity(0b11));
    assert!(!bitwise::pop_parity(0b0));
    assert!(!bitwise::pop_parity(0b110011111111));
    assert!(!bitwise::pop_parity(0b11));
}

#[test]
fn pop_reverse() {
    assert_eq!(bitwise::pop_reverse8(0b11101101), 0b10110111);
    assert_eq!(bitwise::pop_reverse(18446744073709551615), 18446744073709551615);
    assert_eq!(bitwise::pop_reverse(0), 0);
    assert_eq!(
        bitwise::pop_reverse(0b1100001110001111100010101001010101000010101010101010101010000001),
        0b1000000101010101010101010100001010101001010100011111000111000011
    );
}

#[test]
fn scans_of_every_width() {
    assert_eq!(bitwise::bsf16(0b0110_0000), 5);
    assert_eq!(bitwise::bsr16(0b0110_0000), 6);
    assert_eq!(bitwise::bsf16(-1), 0);
    assert_eq!(bitwise::bsr16(-1), 15);
    assert_eq!(bitwise::bsr16(i16::MIN), 15);
    assert_eq!(bitwise::bsf16(i16::MIN), 15);
    assert_eq!(bitwise::bsr32(1), 0);
    assert_eq!(bitwise::bsr32(-1), 31);
    assert_eq!(bitwise::bsf32(i32::MIN), 31);
    assert_eq!(bitwise::bsf64(1 << 40), 40);
    assert_eq!(bitwise::bsr64(-1), 63);
    assert_eq!(bitwise::bsr64(0x00ff_0000_0000_0000), 55);
    assert_eq!(bitwise::bsf64(i64::MIN), 63);
}

#[test]
fn counts_of_every_width() {
    assert_eq!(bitwise::pop_count16(0xffff), 16);
    assert_eq!(bitwise::pop_count16(0x8001), 2);
    assert_eq!(bitwise::pop_count32(0xffff_ffff), 32);
    assert_eq!(bitwise::pop_count32(0x1234_5678), 13);
    assert_eq!(bitwise::pop_count64(u64::MAX), 64);
}

#[test]
fn parity_agrees_with_count() {
    for b in 0..=255u8 {
        assert_eq!(bitwise::byte_parity(b), bitwise::pop_count64(b as u64) % 2 == 1);
    }
    for x in [0u64, 1, 3, 7, 0xdead_beef, u64::MAX, 1 << 63, 0x8000_0000_0000_0001, 0x1234_5678_9abc_def0] {
        assert_eq!(bitwise::pop_parity(x), bitwise::pop_count64(x) % 2 == 1);
    }
}

#[test]
fn reverse_twice_is_identity() {
    for x in [0u64, 1, 0xdead_beef, u64::MAX, 1 << 63, 0x0123_4567_89ab_cdef] {
        assert_eq!(bitwise::pop_reverse(bitwise::pop_reverse(x)), x);
    }
    for b in 0..=255u8 {
        assert_eq!(bitwise::pop_reverse8(bitwise::pop_reverse8(b)), b);
        assert_eq!(bitwise::pop_reverse8(b) as u64, bitwise::pop_reverse(b as u64) >> 56);
    }
}

#[test]
fn reverse_mirrors_scans() {
    for x in [1i64, 0x10, 0x0f00, 0x7fff_0000_0000_0000, -1, i64::MIN] {
        let r = bitwise::pop_reverse(x as u64) as i64;
        assert_eq!(bitwise::bsf64(x) + bitwise::bsr64(r), 63);
    }
}

#[test]
fn count_is_zero_only_for_zero() {
    assert_eq!(bitwise::pop_count64(0), 0);
    for x in [1u64, 2, 1 << 63, 0xf0] {
        assert!(bitwise::pop_count64(x) > 0);
    }
}

#[test]
fn reverse_keeps_count() {
    for x in [0u64, 1, 0xdead_beef, u64::MAX, 1 << 63, 0x0123_4567_89ab_cdef, 0xf0f0] {
        assert_eq!(bitwise::pop_count64(bitwise::pop_reverse(x)), bitwise::pop_count64(x));
    }
}
