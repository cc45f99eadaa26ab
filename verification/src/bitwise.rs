use vstd::prelude::*;
use vstd::std_specs::bits::{
    u16_trailing_zeros, u16_leading_zeros, u32_trailing_zeros, u32_leading_zeros,
    u64_trailing_zeros, u64_leading_zeros, axiom_u16_trailing_zeros, axiom_u16_leading_zeros,
    axiom_u32_trailing_zeros, axiom_u32_leading_zeros, axiom_u64_trailing_zeros,
    axiom_u64_leading_zeros,
};

verus! {

/// A nonzero signed value has a nonzero bit pattern.
proof fn lemma_nonzero_patterns(a: i16, b: i32, c: i64)
    by (bit_vector)
    ensures
        a != 0 ==> a as u16 != 0,
        b != 0 ==> b as u32 != 0,
        c != 0 ==> c as u64 != 0,
{
}

/// Bit `i` of a 16-bit pattern is set.
pub open spec fn bit16(x: u16, i: u16) -> bool {
    (x >> i) & 1u16 != 0u16
}

/// Bit `i` of a 32-bit pattern is set.
pub open spec fn bit32(x: u32, i: u32) -> bool {
    (x >> i) & 1u32 != 0u32
}

/// Bit `i` of a 64-bit pattern is set.
pub open spec fn bit64(x: u64, i: u64) -> bool {
    (x >> i) & 1u64 != 0u64
}

/// `r` is the index of the lowest set bit of the 16-bit pattern `x`.
pub open spec fn is_lowest_set16(x: u16, r: int) -> bool {
    &&& 0 <= r < 16
    &&& bit16(x, r as u16)
    &&& forall|j: u16| 0 <= j < r ==> !#[trigger] bit16(x, j)
}

/// `r` is the index of the highest set bit of the 16-bit pattern `x`.
pub open spec fn is_highest_set16(x: u16, r: int) -> bool {
    &&& 0 <= r < 16
    &&& bit16(x, r as u16)
    &&& forall|j: u16| r < j < 16 ==> !#[trigger] bit16(x, j)
}

/// `r` is the index of the lowest set bit of the 32-bit pattern `x`.
pub open spec fn is_lowest_set32(x: u32, r: int) -> bool {
    &&& 0 <= r < 32
    &&& bit32(x, r as u32)
    &&& forall|j: u32| 0 <= j < r ==> !#[trigger] bit32(x, j)
}

/// `r` is the index of the highest set bit of the 32-bit pattern `x`.
pub open spec fn is_highest_set32(x: u32, r: int) -> bool {
    &&& 0 <= r < 32
    &&& bit32(x, r as u32)
    &&& forall|j: u32| r < j < 32 ==> !#[trigger] bit32(x, j)
}

/// `r` is the index of the lowest set bit of the 64-bit pattern `x`.
pub open spec fn is_lowest_set64(x: u64, r: int) -> bool {
    &&& 0 <= r < 64
    &&& bit64(x, r as u64)
    &&& forall|j: u64| 0 <= j < r ==> !#[trigger] bit64(x, j)
}

/// `r` is the index of the highest set bit of the 64-bit pattern `x`.
pub open spec fn is_highest_set64(x: u64, r: int) -> bool {
    &&& 0 <= r < 64
    &&& bit64(x, r as u64)
    &&& forall|j: u64| r < j < 64 ==> !#[trigger] bit64(x, j)
}

/// Bit scan forward: the index of the lowest set bit of `data`'s 16-bit pattern.
pub fn bsf16(data: i16) -> (r: i16)
    requires
        data != 0,
    ensures
        is_lowest_set16(data as u16, r as int),
{
    let x: u16 = data as u16;
    proof {
        lemma_nonzero_patterns(data, 1, 1);
        axiom_u16_trailing_zeros(x);
    }
    x.trailing_zeros() as i16
}

/// Bit scan forward: the index of the lowest set bit of `data`'s 32-bit pattern.
pub fn bsf32(data: i32) -> (r: i32)
    requires
        data != 0,
    ensures
        is_lowest_set32(data as u32, r as int),
{
    let x: u32 = data as u32;
    proof {
        lemma_nonzero_patterns(1, data, 1);
        axiom_u32_trailing_zeros(x);
    }
    x.trailing_zeros() as i32
}

/// Bit scan forward: the index of the lowest set bit of `data`'s 64-bit pattern.
pub fn bsf64(data: i64) -> (r: i64)
    requires
        data != 0,
    ensures
        is_lowest_set64(data as u64, r as int),
{
    let x: u64 = data as u64;
    proof {
        lemma_nonzero_patterns(1, 1, data);
        axiom_u64_trailing_zeros(x);
    }
    x.trailing_zeros() as i64
}

/// Bit scan reverse: the index of the highest set bit of `data`'s 16-bit pattern.
pub fn bsr16(data: i16) -> (r: i16)
    requires
        data != 0,
    ensures
        is_highest_set16(data as u16, r as int),
{
    let x: u16 = data as u16;
    proof {
        lemma_nonzero_patterns(data, 1, 1);
        axiom_u16_leading_zeros(x);
    }
    let lz: u32 = x.leading_zeros();
    (15 - lz as i16)
}

/// Bit scan reverse: the index of the highest set bit of `data`'s 32-bit pattern.
pub fn bsr32(data: i32) -> (r: i32)
    requires
        data != 0,
    ensures
        is_highest_set32(data as u32, r as int),
{
    let x: u32 = data as u32;
    proof {
        lemma_nonzero_patterns(1, data, 1);
        axiom_u32_leading_zeros(x);
    }
    let lz: u32 = x.leading_zeros();
    (31 - lz as i32)
}

/// Bit scan reverse: the index of the highest set bit of `data`'s 64-bit pattern.
pub fn bsr64(data: i64) -> (r: i64)
    requires
        data != 0,
    ensures
        is_highest_set64(data as u64, r as int),
{
    let x: u64 = data as u64;
    proof {
        lemma_nonzero_patterns(1, 1, data);
        axiom_u64_leading_zeros(x);
    }
    let lz: u32 = x.leading_zeros();
    (63 - lz as i64)
}

/// Bit `i` of an 8-bit pattern is set.
pub open spec fn bit8(x: u8, i: u8) -> bool {
    (x >> i) & 1u8 != 0u8
}

/// The number of set bits among the lowest `n` bits of `x`.
pub open spec fn ones64(x: u64, n: nat) -> nat
    decreases n,
{
    if n == 0 {
        0
    } else {
        ones64(x, (n - 1) as nat) + (if bit64(x, (n - 1) as u64) { 1nat } else { 0nat })
    }
}

/// The exclusive or of the lowest `n` bits of `x`.
spec fn xor_bits(x: u64, n: nat) -> u64
    decreases n,
{
    if n == 0 {
        0
    } else {
        xor_bits(x, (n - 1) as nat) ^ ((x >> ((n - 1) as u64)) & 1u64)
    }
}

/// A single bit, read out, is 0 or 1, and adding such bits modulo two is their
/// exclusive or.
proof fn lemma_bit_facts(x: u64, k: u64, a: u64)
    by (bit_vector)
    ensures
        (x >> k) & 1u64 <= 1u64,
        ((x >> k) & 1u64 != 0u64) == ((x >> k) & 1u64 == 1u64),
        a <= 1u64 ==> a ^ ((x >> k) & 1u64) <= 1u64,
        a <= 1u64 ==> (a ^ ((x >> k) & 1u64)) == (a + ((x >> k) & 1u64)) % 2,
{
}

/// The exclusive or of the lowest `n` bits is the parity of their count.
proof fn lemma_xor_bits_is_parity(x: u64, n: nat)
    requires
        n <= 64,
    ensures
        xor_bits(x, n) <= 1,
        xor_bits(x, n) == ones64(x, n) % 2,
    decreases n,
{
    if n > 0 {
        lemma_xor_bits_is_parity(x, (n - 1) as nat);
        lemma_bit_facts(x, (n - 1) as u64, xor_bits(x, (n - 1) as nat));
    }
}

/// Counts the set bits among the lowest `n` bits of `x`.
fn count_low_ones(x: u64, n: u64) -> (c: u64)
    requires
        n <= 64,
    ensures
        c == ones64(x, n as nat),
        c <= n,
{
    let mut c: u64 = 0;
    let mut i: u64 = 0;
    while i < n
        invariant
            i <= n <= 64,
            c == ones64(x, i as nat),
            c <= i,
        decreases n - i,
    {
        proof {
            lemma_bit_facts(x, i, 0);
        }
        if (x >> i) & 1 != 0 {
            c = c + 1;
        }
        i = i + 1;
    }
    c
}

/// The number of set bits of `v`.
pub fn pop_count64(v: u64) -> (r: u64)
    ensures
        r == ones64(v, 64),
        r <= 64,
{
    count_low_ones(v, 64)
}

/// The number of set bits of `v`.
pub fn pop_count32(v: u32) -> (r: u32)
    ensures
        r == ones64(v as u64, 32),
        r <= 32,
{
    count_low_ones(v as u64, 32) as u32
}

/// The number of set bits of `v`.
pub fn pop_count16(v: u16) -> (r: u16)
    ensures
        r == ones64(v as u64, 16),
        r <= 16,
{
    count_low_ones(v as u64, 16) as u16
}

/// The multiply-and-mask parity of a byte computes the exclusive or of its bits.
proof fn lemma_byte_parity_trick(x: u64)
    by (bit_vector)
    requires
        x < 256,
    ensures
        (((((x * 0x0101010101010101u64) as u64) & 0x8040201008040201u64) % 0x1FFu64) & 1u64 != 0u64)
            == ((0u64 ^ ((x >> 0u64) & 1) ^ ((x >> 1u64) & 1) ^ ((x >> 2u64) & 1) ^ ((x >> 3u64) & 1)
            ^ ((x >> 4u64) & 1) ^ ((x >> 5u64) & 1) ^ ((x >> 6u64) & 1) ^ ((x >> 7u64) & 1)) == 1u64),
{
}

/// Whether `b` has an odd number of set bits.
pub fn byte_parity(b: u8) -> (r: bool)
    ensures
        r == (ones64(b as u64, 8) % 2 == 1),
{
    let b: u64 = b as u64;
    proof {
        lemma_byte_parity_trick(b);
        lemma_xor_bits_is_parity(b, 8);
        reveal_with_fuel(xor_bits, 9);
    }
    (((b * 0x0101010101010101) & 0x8040201008040201) % 0x1FF) & 1 != 0
}

/// Folding each nibble's bits into its lowest bit and summing those bits into
/// the top nibble computes the exclusive or of all bits.
proof fn lemma_word_parity_trick(x: u64)
    by (bit_vector)
    ensures
        ({
            let b1 = x ^ (x >> 1u64);
            let b2 = b1 ^ (b1 >> 2u64);
            let p = (((b2 & 0x1111111111111111u64) as u128) * 0x1111111111111111u128) as u64;
            ((p >> 60u64) & 1u64 != 0u64)
        }) == ((0u64 ^ ((x >> 0u64) & 1) ^ ((x >> 1u64) & 1) ^ ((x >> 2u64) & 1) ^ ((x >> 3u64) & 1)
            ^ ((x >> 4u64) & 1) ^ ((x >> 5u64) & 1) ^ ((x >> 6u64) & 1) ^ ((x >> 7u64) & 1)
            ^ ((x >> 8u64) & 1) ^ ((x >> 9u64) & 1) ^ ((x >> 10u64) & 1) ^ ((x >> 11u64) & 1)
            ^ ((x >> 12u64) & 1) ^ ((x >> 13u64) & 1) ^ ((x >> 14u64) & 1) ^ ((x >> 15u64) & 1)
            ^ ((x >> 16u64) & 1) ^ ((x >> 17u64) & 1) ^ ((x >> 18u64) & 1) ^ ((x >> 19u64) & 1)
            ^ ((x >> 20u64) & 1) ^ ((x >> 21u64) & 1) ^ ((x >> 22u64) & 1) ^ ((x >> 23u64) & 1)
            ^ ((x >> 24u64) & 1) ^ ((x >> 25u64) & 1) ^ ((x >> 26u64) & 1) ^ ((x >> 27u64) & 1)
            ^ ((x >> 28u64) & 1) ^ ((x >> 29u64) & 1) ^ ((x >> 30u64) & 1) ^ ((x >> 31u64) & 1)
            ^ ((x >> 32u64) & 1) ^ ((x >> 33u64) & 1) ^ ((x >> 34u64) & 1) ^ ((x >> 35u64) & 1)
            ^ ((x >> 36u64) & 1) ^ ((x >> 37u64) & 1) ^ ((x >> 38u64) & 1) ^ ((x >> 39u64) & 1)
            ^ ((x >> 40u64) & 1) ^ ((x >> 41u64) & 1) ^ ((x >> 42u64) & 1) ^ ((x >> 43u64) & 1)
            ^ ((x >> 44u64) & 1) ^ ((x >> 45u64) & 1) ^ ((x >> 46u64) & 1) ^ ((x >> 47u64) & 1)
            ^ ((x >> 48u64) & 1) ^ ((x >> 49u64) & 1) ^ ((x >> 50u64) & 1) ^ ((x >> 51u64) & 1)
            ^ ((x >> 52u64) & 1) ^ ((x >> 53u64) & 1) ^ ((x >> 54u64) & 1) ^ ((x >> 55u64) & 1)
            ^ ((x >> 56u64) & 1) ^ ((x >> 57u64) & 1) ^ ((x >> 58u64) & 1) ^ ((x >> 59u64) & 1)
            ^ ((x >> 60u64) & 1) ^ ((x >> 61u64) & 1) ^ ((x >> 62u64) & 1) ^ ((x >> 63u64) & 1)) == 1u64),
{
}

/// Whether `b` has an odd number of set bits.
pub fn pop_parity(b: u64) -> (r: bool)
    ensures
        r == (ones64(b, 64) % 2 == 1),
{
    proof {
        lemma_word_parity_trick(b);
        lemma_xor_bits_is_parity(b, 64);
        reveal_with_fuel(xor_bits, 65);
    }
    let mut b = b;
    b = b ^ (b >> 1);
    b = b ^ (b >> 2);
    b = (((b & 0x1111111111111111) as u128) * 0x1111111111111111u128) as u64;
    (b >> 60) & 1 != 0
}

/// Reverses the bits of `x` in the 64-bit word: `r` holds bit `63 - i` of `x` at bit `i`.
pub open spec fn is_reverse64(x: u64, r: u64) -> bool {
    forall|i: u64| i < 64 ==> (#[trigger] bit64(r, i) == bit64(x, (63 - i) as u64))
}

/// Reverses the bits of `x` in the byte: `r` holds bit `7 - i` of `x` at bit `i`.
pub open spec fn is_reverse8(x: u8, r: u8) -> bool {
    forall|i: u8| i < 8 ==> (#[trigger] bit8(r, i) == bit8(x, (7 - i) as u8))
}

/// The multiply-and-mask reversal of a byte.
proof fn lemma_byte_reverse_trick(x: u64, i: u8)
    by (bit_vector)
    requires
        x < 256,
        i < 8,
    ensures
        ({
            let t = ((x * 0x80200802u64) as u64) & 0x0884422110u64;
            let p = ((((t as u128) * 0x0101010101u128) as u64) >> 32u64) as u8;
            ((p >> i) & 1u8 != 0u8) == (((x as u8) >> ((7 - i) as u8)) & 1u8 != 0u8)
        }),
{
}

/// The bits of `b` in reverse order.
pub fn pop_reverse8(b: u8) -> (r: u8)
    ensures
        is_reverse8(b, r),
{
    let x: u64 = b as u64;
    let t: u64 = (x * 0x80200802) & 0x0884422110;
    let p: u64 = (((t as u128) * 0x0101010101u128) as u64) >> 32;
    let r: u8 = p as u8;
    assert forall|i: u8| i < 8 implies (#[trigger] bit8(r, i) == bit8(b, (7 - i) as u8)) by {
        lemma_byte_reverse_trick(x, i);
    }
    r
}

/// One stage of the reversal: swaps the neighbouring blocks of `s` bits that `mask` separates.
pub open spec fn swap_stage(x: u64, s: u64, mask: u64) -> u64 {
    ((x >> s) & mask) | ((x << s) & !mask)
}

/// The masks of the reversal's stages and the shift amounts between them.
proof fn lemma_reverse_masks()
    by (bit_vector)
    ensures
        0xffff_ffff_ffff_ffffu64 ^ (0xffff_ffff_ffff_ffffu64 << 32u64) == 0x0000_0000_ffff_ffffu64,
        0x0000_0000_ffff_ffffu64 ^ (0x0000_0000_ffff_ffffu64 << 16u64) == 0x0000_ffff_0000_ffffu64,
        0x0000_ffff_0000_ffffu64 ^ (0x0000_ffff_0000_ffffu64 << 8u64) == 0x00ff_00ff_00ff_00ffu64,
        0x00ff_00ff_00ff_00ffu64 ^ (0x00ff_00ff_00ff_00ffu64 << 4u64) == 0x0f0f_0f0f_0f0f_0f0fu64,
        0x0f0f_0f0f_0f0f_0f0fu64 ^ (0x0f0f_0f0f_0f0f_0f0fu64 << 2u64) == 0x3333_3333_3333_3333u64,
        0x3333_3333_3333_3333u64 ^ (0x3333_3333_3333_3333u64 << 1u64) == 0x5555_5555_5555_5555u64,
        32u64 >> 1u64 == 16u64,
        16u64 >> 1u64 == 8u64,
        8u64 >> 1u64 == 4u64,
        4u64 >> 1u64 == 2u64,
        2u64 >> 1u64 == 1u64,
        1u64 >> 1u64 == 0u64,
{
}

/// The six swap stages, from blocks of 32 bits down to single bits.
pub open spec fn reverse_stages(x: u64, k: nat) -> u64
    decreases k,
{
    if k == 0 {
        x
    } else if k == 1 {
        swap_stage(x, 32, 0x0000_0000_ffff_ffff)
    } else if k == 2 {
        swap_stage(reverse_stages(x, 1), 16, 0x0000_ffff_0000_ffff)
    } else if k == 3 {
        swap_stage(reverse_stages(x, 2), 8, 0x00ff_00ff_00ff_00ff)
    } else if k == 4 {
        swap_stage(reverse_stages(x, 3), 4, 0x0f0f_0f0f_0f0f_0f0f)
    } else if k == 5 {
        swap_stage(reverse_stages(x, 4), 2, 0x3333_3333_3333_3333)
    } else {
        swap_stage(reverse_stages(x, 5), 1, 0x5555_5555_5555_5555)
    }
}

/// After all six stages every bit has moved to its mirrored position.
proof fn lemma_six_stages_reverse(x: u64, i: u64)
    by (bit_vector)
    requires
        i < 64,
    ensures
        ({
            let b1 = ((x >> 32u64) & 0x0000_0000_ffff_ffffu64) | ((x << 32u64) & !0x0000_0000_ffff_ffffu64);
            let b2 = ((b1 >> 16u64) & 0x0000_ffff_0000_ffffu64) | ((b1 << 16u64) & !0x0000_ffff_0000_ffffu64);
            let b3 = ((b2 >> 8u64) & 0x00ff_00ff_00ff_00ffu64) | ((b2 << 8u64) & !0x00ff_00ff_00ff_00ffu64);
            let b4 = ((b3 >> 4u64) & 0x0f0f_0f0f_0f0f_0f0fu64) | ((b3 << 4u64) & !0x0f0f_0f0f_0f0f_0f0fu64);
            let b5 = ((b4 >> 2u64) & 0x3333_3333_3333_3333u64) | ((b4 << 2u64) & !0x3333_3333_3333_3333u64);
            let b6 = ((b5 >> 1u64) & 0x5555_5555_5555_5555u64) | ((b5 << 1u64) & !0x5555_5555_5555_5555u64);
            ((b6 >> i) & 1u64 != 0u64) == ((x >> ((63 - i) as u64)) & 1u64 != 0u64)
        }),
{
}

/// The bits of `b` in reverse order.
pub fn pop_reverse(b: u64) -> (r: u64)
    ensures
        is_reverse64(b, r),
{
    let ghost x = b;
    let mut b = b;
    let mut s: u64 = 32;
    let mut mask: u64 = 0xffff_ffff_ffff_ffff;
    let ghost mut k: nat = 0;
    while s > 0
        invariant
            k <= 6,
            b == reverse_stages(x, k),
            k == 0 ==> s == 32 && mask == 0xffff_ffff_ffff_ffffu64,
            k == 1 ==> s == 16 && mask == 0x0000_0000_ffff_ffffu64,
            k == 2 ==> s == 8 && mask == 0x0000_ffff_0000_ffffu64,
            k == 3 ==> s == 4 && mask == 0x00ff_00ff_00ff_00ffu64,
            k == 4 ==> s == 2 && mask == 0x0f0f_0f0f_0f0f_0f0fu64,
            k == 5 ==> s == 1 && mask == 0x3333_3333_3333_3333u64,
            k == 6 ==> s == 0 && mask == 0x5555_5555_5555_5555u64,
        decreases 6 - k,
    {
        proof {
            lemma_reverse_masks();
        }
        mask = mask ^ (mask << s);
        b = ((b >> s) & mask) | ((b << s) & !mask);
        s = s >> 1;
        proof {
            k = k + 1;
        }
    }
    assert(k == 6);
    assert(b == reverse_stages(x, 6)) by {
        reveal_with_fuel(reverse_stages, 7);
    }
    assert forall|i: u64| i < 64 implies (#[trigger] bit64(b, i) == bit64(x, (63 - i) as u64)) by {
        reveal_with_fuel(reverse_stages, 7);
        lemma_six_stages_reverse(x, i);
    }
    b
}

/// Two words with the same 64 bits are equal.
proof fn lemma_bits_determine_word(a: u64, b: u64)
    by (bit_vector)
    requires
        bit64(a, 0u64) == bit64(b, 0u64),
        bit64(a, 1u64) == bit64(b, 1u64),
        bit64(a, 2u64) == bit64(b, 2u64),
        bit64(a, 3u64) == bit64(b, 3u64),
        bit64(a, 4u64) == bit64(b, 4u64),
        bit64(a, 5u64) == bit64(b, 5u64),
        bit64(a, 6u64) == bit64(b, 6u64),
        bit64(a, 7u64) == bit64(b, 7u64),
        bit64(a, 8u64) == bit64(b, 8u64),
        bit64(a, 9u64) == bit64(b, 9u64),
        bit64(a, 10u64) == bit64(b, 10u64),
        bit64(a, 11u64) == bit64(b, 11u64),
        bit64(a, 12u64) == bit64(b, 12u64),
        bit64(a, 13u64) == bit64(b, 13u64),
        bit64(a, 14u64) == bit64(b, 14u64),
        bit64(a, 15u64) == bit64(b, 15u64),
        bit64(a, 16u64) == bit64(b, 16u64),
        bit64(a, 17u64) == bit64(b, 17u64),
        bit64(a, 18u64) == bit64(b, 18u64),
        bit64(a, 19u64) == bit64(b, 19u64),
        bit64(a, 20u64) == bit64(b, 20u64),
        bit64(a, 21u64) == bit64(b, 21u64),
        bit64(a, 22u64) == bit64(b, 22u64),
        bit64(a, 23u64) == bit64(b, 23u64),
        bit64(a, 24u64) == bit64(b, 24u64),
        bit64(a, 25u64) == bit64(b, 25u64),
        bit64(a, 26u64) == bit64(b, 26u64),
        bit64(a, 27u64) == bit64(b, 27u64),
        bit64(a, 28u64) == bit64(b, 28u64),
        bit64(a, 29u64) == bit64(b, 29u64),
        bit64(a, 30u64) == bit64(b, 30u64),
        bit64(a, 31u64) == bit64(b, 31u64),
        bit64(a, 32u64) == bit64(b, 32u64),
        bit64(a, 33u64) == bit64(b, 33u64),
        bit64(a, 34u64) == bit64(b, 34u64),
        bit64(a, 35u64) == bit64(b, 35u64),
        bit64(a, 36u64) == bit64(b, 36u64),
        bit64(a, 37u64) == bit64(b, 37u64),
        bit64(a, 38u64) == bit64(b, 38u64),
        bit64(a, 39u64) == bit64(b, 39u64),
        bit64(a, 40u64) == bit64(b, 40u64),
        bit64(a, 41u64) == bit64(b, 41u64),
        bit64(a, 42u64) == bit64(b, 42u64),
        bit64(a, 43u64) == bit64(b, 43u64),
        bit64(a, 44u64) == bit64(b, 44u64),
        bit64(a, 45u64) == bit64(b, 45u64),
        bit64(a, 46u64) == bit64(b, 46u64),
        bit64(a, 47u64) == bit64(b, 47u64),
        bit64(a, 48u64) == bit64(b, 48u64),
        bit64(a, 49u64) == bit64(b, 49u64),
        bit64(a, 50u64) == bit64(b, 50u64),
        bit64(a, 51u64) == bit64(b, 51u64),
        bit64(a, 52u64) == bit64(b, 52u64),
        bit64(a, 53u64) == bit64(b, 53u64),
        bit64(a, 54u64) == bit64(b, 54u64),
        bit64(a, 55u64) == bit64(b, 55u64),
        bit64(a, 56u64) == bit64(b, 56u64),
        bit64(a, 57u64) == bit64(b, 57u64),
        bit64(a, 58u64) == bit64(b, 58u64),
        bit64(a, 59u64) == bit64(b, 59u64),
        bit64(a, 60u64) == bit64(b, 60u64),
        bit64(a, 61u64) == bit64(b, 61u64),
        bit64(a, 62u64) == bit64(b, 62u64),
        bit64(a, 63u64) == bit64(b, 63u64),
    ensures
        a == b,
{
}

/// Reversing twice gives back the word.
pub proof fn law_reverse_involution(x: u64, r: u64, rr: u64)
    requires
        is_reverse64(x, r),
        is_reverse64(r, rr),
    ensures
        rr == x,
{
    assert forall|i: u64| i < 64 implies (#[trigger] bit64(rr, i) == bit64(x, i)) by {
        assert(bit64(r, (63 - i) as u64) == bit64(x, (63 - (63 - i)) as u64));
    }
    lemma_bits_determine_word(rr, x);
}

} // verus!

verus! {

/// The lowest set bit of a word is at or below its highest set bit.
pub proof fn law_lowest_at_most_highest(x: u64, lo: int, hi: int)
    requires
        is_lowest_set64(x, lo),
        is_highest_set64(x, hi),
    ensures
        lo <= hi,
{
    if hi < lo {
        assert(!bit64(x, hi as u64));
    }
}

/// Reversing a word mirrors its lowest set bit onto the highest set bit of the
/// result: the two indices add up to 63.
pub proof fn law_reverse_mirrors_scans(x: u64, r: u64, lo: int, hi: int)
    requires
        is_reverse64(x, r),
        is_lowest_set64(x, lo),
        is_highest_set64(r, hi),
    ensures
        lo + hi == 63,
{
    let m = 63 - lo;
    assert(bit64(r, m as u64) == bit64(x, (63 - m) as u64));
    assert forall|j: u64| m < j < 64 implies !#[trigger] bit64(r, j) by {
        assert(bit64(r, j) == bit64(x, (63 - j) as u64));
    }
    if hi < m {
        assert(!bit64(r, m as u64));
    }
    if m < hi {
        assert(!bit64(r, hi as u64));
    }
}

/// A word with a set bit below `n` has a set bit among its lowest `n` bits.
proof fn lemma_ones_positive(x: u64, k: u64, n: nat)
    requires
        k < n <= 64,
        bit64(x, k),
    ensures
        ones64(x, n) >= 1,
    decreases n,
{
    if k < n - 1 {
        lemma_ones_positive(x, k, (n - 1) as nat);
    }
}

/// The bits of zero are all clear.
proof fn lemma_zero_bits(k: u64)
    by (bit_vector)
    ensures
        (0u64 >> k) & 1u64 == 0u64,
{
}

/// A word has no set bits exactly when it is zero.
pub proof fn law_count_zero_iff_zero(x: u64)
    ensures
        (ones64(x, 64) == 0) <==> (x == 0),
{
    if x == 0 {
        lemma_ones_zero_word(64);
    } else {
        axiom_u64_trailing_zeros(x);
        lemma_ones_positive(x, u64_trailing_zeros(x) as u64, 64);
    }
}

/// Zero has no set bits among its lowest `n`.
proof fn lemma_ones_zero_word(n: nat)
    ensures
        ones64(0, n) == 0,
    decreases n,
{
    if n > 0 {
        lemma_ones_zero_word((n - 1) as nat);
        lemma_zero_bits((n - 1) as u64);
    }
}

/// The number of set bits of `x` at indices `lo` up to, not including, `hi`.
spec fn ones_between(x: u64, lo: nat, hi: nat) -> nat
    decreases hi,
{
    if hi <= lo {
        0
    } else {
        ones_between(x, lo, (hi - 1) as nat) + (if bit64(x, (hi - 1) as u64) { 1nat } else { 0nat })
    }
}

/// Counting from zero is counting the lowest bits.
proof fn lemma_ones_between_zero(x: u64, n: nat)
    ensures
        ones_between(x, 0, n) == ones64(x, n),
    decreases n,
{
    if n > 0 {
        lemma_ones_between_zero(x, (n - 1) as nat);
    }
}

/// A range's count is its first bit plus the count of the rest.
proof fn lemma_ones_between_front(x: u64, lo: nat, hi: nat)
    requires
        lo < hi,
    ensures
        ones_between(x, lo, hi) == (if bit64(x, lo as u64) { 1nat } else { 0nat }) + ones_between(x, lo + 1, hi),
    decreases hi,
{
    if hi > lo + 1 {
        lemma_ones_between_front(x, lo, (hi - 1) as nat);
    } else {
        assert(ones_between(x, lo, lo) == 0);
        assert(ones_between(x, lo + 1, hi) == 0);
    }
}

/// The lowest `n` bits of a reversed word are the highest `n` bits of the word.
proof fn lemma_reverse_counts(x: u64, r: u64, n: nat)
    requires
        is_reverse64(x, r),
        n <= 64,
    ensures
        ones_between(r, 0, n) == ones_between(x, (64 - n) as nat, 64),
    decreases n,
{
    if n > 0 {
        lemma_reverse_counts(x, r, (n - 1) as nat);
        assert(bit64(r, (n - 1) as u64) == bit64(x, (63 - (n - 1)) as u64));
        lemma_ones_between_front(x, (64 - n) as nat, 64);
    }
}

/// Reversing a word keeps the number of its set bits.
pub proof fn law_reverse_keeps_count(x: u64, r: u64)
    requires
        is_reverse64(x, r),
    ensures
        ones64(r, 64) == ones64(x, 64),
{
    lemma_reverse_counts(x, r, 64);
    lemma_ones_between_zero(r, 64);
    lemma_ones_between_zero(x, 64);
}

} // verus!
