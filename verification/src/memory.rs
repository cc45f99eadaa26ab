use vstd::prelude::*;

verus! {

/// Bytes that a copy of `size` bytes, made in lanes of `width` bytes per block
/// of 32, writes: the leading `size % 32` bytes one by one, then the first
/// `width` bytes of each following block of 32.
pub open spec fn lane_written(k: int, size: int, width: int) -> bool {
    &&& 0 <= k < size
    &&& (k < size % 32 || (k - size % 32) % 32 < width)
}

/// `31 & size` is `size % 32`.
proof fn lemma_low_five_bits(size: usize)
    by (bit_vector)
    ensures
        31 & size == size % 32,
{
}

/// Copies `size` bytes of `src` to `dst`: the leading `size % 32` bytes one
/// by one, then the first `width` bytes of each block of 32.
fn copy_lanes(dst: &mut [u8], src: &[u8], size: usize, width: usize)
    requires
        size <= old(dst)@.len(),
        size <= src@.len(),
        width <= 32,
    ensures
        final(dst)@.len() == old(dst)@.len(),
        forall|k: int|
            0 <= k < old(dst)@.len() ==> #[trigger] final(dst)@[k] == if lane_written(k, size as int, width as int) {
                src@[k]
            } else {
                old(dst)@[k]
            },
{
    proof {
        lemma_low_five_bits(size);
    }
    let preset: usize = 31 & size;
    let mut i: usize = 0;
    while i < preset
        invariant
            preset == size % 32,
            i <= preset <= size <= dst@.len(),
            size <= src@.len(),
            dst@.len() == old(dst)@.len(),
            forall|k: int| 0 <= k < i ==> #[trigger] dst@[k] == src@[k],
            forall|k: int| i <= k < dst@.len() ==> #[trigger] dst@[k] == old(dst)@[k],
        decreases preset - i,
    {
        dst[i] = src[i];
        i = i + 1;
    }
    let mut i: usize = preset;
    while i < size
        invariant
            preset == size % 32,
            preset <= i <= size <= dst@.len(),
            size <= src@.len(),
            width <= 32,
            (i - preset) % 32 == 0,
            dst@.len() == old(dst)@.len(),
            forall|k: int|
                0 <= k < i ==> #[trigger] dst@[k] == if lane_written(k, size as int, width as int) {
                    src@[k]
                } else {
                    old(dst)@[k]
                },
            forall|k: int| i <= k < dst@.len() ==> #[trigger] dst@[k] == old(dst)@[k],
        decreases size - i,
    {
        let mut j: usize = 0;
        while j < width
            invariant
                preset == size % 32,
                preset <= i < size <= dst@.len(),
                i + 32 <= size,
                size <= src@.len(),
                (i - preset) % 32 == 0,
                j <= width <= 32,
                dst@.len() == old(dst)@.len(),
                forall|k: int|
                    0 <= k < i ==> #[trigger] dst@[k] == if lane_written(k, size as int, width as int) {
                        src@[k]
                    } else {
                        old(dst)@[k]
                    },
                forall|k: int| i <= k < i + j ==> #[trigger] dst@[k] == src@[k],
                forall|k: int| i + j <= k < dst@.len() ==> #[trigger] dst@[k] == old(dst)@[k],
            decreases width - j,
        {
            dst[i + j] = src[i + j];
            j = j + 1;
        }
        i = i + 32;
    }
}

/// Copies the first `size` bytes of `src` over the first `size` bytes of `dst`.
pub fn memcpy_simd_avx2(dst: &mut [u8], src: &[u8], size: usize)
    requires
        size <= old(dst)@.len(),
        size <= src@.len(),
    ensures
        final(dst)@ == src@.subrange(0, size as int) + old(dst)@.subrange(size as int, old(dst)@.len() as int),
{
    copy_lanes(dst, src, size, 32);
    assert(dst@ =~= src@.subrange(0, size as int) + old(dst)@.subrange(size as int, old(dst)@.len() as int));
}

/// Copies `size` bytes of `src` to `dst` in lanes of 16 bytes per block of 32:
/// the leading `size % 32` bytes are copied one by one, and of each following
/// block of 32 bytes only the first 16 are copied.
pub fn memcpy_simd_sse(dst: &mut [u8], src: &[u8], size: usize)
    requires
        size <= old(dst)@.len(),
        size <= src@.len(),
    ensures
        final(dst)@.len() == old(dst)@.len(),
        forall|k: int|
            0 <= k < old(dst)@.len() ==> #[trigger] final(dst)@[k] == if lane_written(k, size as int, 16) {
                src@[k]
            } else {
                old(dst)@[k]
            },
{
    copy_lanes(dst, src, size, 16);
}

/// Copies the first `size` bytes of `src` over the first `size` bytes of `dst`.
pub fn memcpy(dst: &mut [u8], src: &[u8], size: usize)
    requires
        size <= old(dst)@.len(),
        size <= src@.len(),
    ensures
        final(dst)@ == src@.subrange(0, size as int) + old(dst)@.subrange(size as int, old(dst)@.len() as int),
{
    memcpy_simd_avx2(dst, src, size)
}

/// `buf` with the `size` bytes at `src` written over the bytes at `dst`, as
/// an overlap-safe move does it.
pub open spec fn moved(buf: Seq<u8>, dst: int, src: int, size: int) -> Seq<u8> {
    Seq::new(buf.len(), |j: int| if dst <= j < dst + size { buf[src + (j - dst)] } else { buf[j] })
}

/// `buf` after the first `k` single-byte copies from `src` to `dst`, made in
/// ascending order within the same buffer.
pub open spec fn after_bytes(buf: Seq<u8>, dst: int, src: int, k: nat) -> Seq<u8>
    decreases k,
{
    if k == 0 {
        buf
    } else {
        let b = after_bytes(buf, dst, src, (k - 1) as nat);
        b.update(dst + k - 1, b[src + k - 1])
    }
}

/// `buf` after `m` block copies of `width` bytes, one per block of 32 from
/// `start`, each reading its whole lane before writing it.
pub open spec fn after_blocks(buf: Seq<u8>, dst: int, src: int, start: int, m: nat, width: int) -> Seq<u8>
    decreases m,
{
    if m == 0 {
        buf
    } else {
        let b = after_blocks(buf, dst, src, start, (m - 1) as nat, width);
        let i = start + 32 * (m - 1);
        Seq::new(b.len(), |j: int| if dst + i <= j < dst + i + width { b[src + i + (j - (dst + i))] } else { b[j] })
    }
}

/// `buf` after a forward copy of `size` bytes from `src` to `dst` within it:
/// the leading `size % 32` bytes one by one, then the blocks of 32 in lanes of `width`.
pub open spec fn copied_within(buf: Seq<u8>, dst: int, src: int, size: int, width: int) -> Seq<u8> {
    after_blocks(after_bytes(buf, dst, src, (size % 32) as nat), dst, src, size % 32, (size / 32) as nat, width)
}

/// Without a source byte that an earlier write replaces, the single-byte copies move bytes.
proof fn lemma_bytes_move(buf: Seq<u8>, dst: int, src: int, size: int, k: nat)
    requires
        0 <= dst,
        0 <= src,
        dst + size <= buf.len(),
        src + size <= buf.len(),
        dst <= src || src + size <= dst,
        k <= size,
    ensures
        after_bytes(buf, dst, src, k) == moved(buf, dst, src, k as int),
    decreases k,
{
    if k > 0 {
        lemma_bytes_move(buf, dst, src, size, (k - 1) as nat);
        assert(after_bytes(buf, dst, src, k) =~= moved(buf, dst, src, k as int));
    }
}

/// Without a source byte that an earlier write replaces, the block copies move bytes.
proof fn lemma_blocks_move(buf: Seq<u8>, dst: int, src: int, size: int, start: int, m: nat)
    requires
        0 <= dst,
        0 <= src,
        0 <= start,
        dst + size <= buf.len(),
        src + size <= buf.len(),
        dst <= src || src + size <= dst,
        start + 32 * m <= size,
    ensures
        after_blocks(moved(buf, dst, src, start), dst, src, start, m, 32) == moved(buf, dst, src, start + 32 * m),
    decreases m,
{
    if m > 0 {
        lemma_blocks_move(buf, dst, src, size, start, (m - 1) as nat);
        assert(after_blocks(moved(buf, dst, src, start), dst, src, start, m, 32)
            =~= moved(buf, dst, src, start + 32 * m));
    }
}

/// Without a source byte that an earlier write replaces, a forward copy of
/// whole blocks moves the bytes.
proof fn lemma_copy_moves(buf: Seq<u8>, dst: int, src: int, size: int)
    requires
        0 <= dst,
        0 <= src,
        0 <= size,
        dst + size <= buf.len(),
        src + size <= buf.len(),
        dst <= src || src + size <= dst,
    ensures
        copied_within(buf, dst, src, size, 32) == moved(buf, dst, src, size),
{
    lemma_bytes_move(buf, dst, src, size, (size % 32) as nat);
    lemma_blocks_move(buf, dst, src, size, size % 32, (size / 32) as nat);
}

/// Copies `size` bytes from `src` to `dst` within `buf`, front to back: the
/// leading `size % 32` bytes one by one, then of each block of 32 the first
/// `width` bytes, each lane read whole before it is written.
fn copy_lanes_within(buf: &mut [u8], dst: usize, src: usize, size: usize, width: usize)
    requires
        dst + size <= old(buf)@.len(),
        src + size <= old(buf)@.len(),
        width <= 32,
    ensures
        final(buf)@.len() == old(buf)@.len(),
        final(buf)@ == copied_within(old(buf)@, dst as int, src as int, size as int, width as int),
{
    proof {
        lemma_low_five_bits(size);
    }
    let preset: usize = 31 & size;
    let len: usize = buf.len();
    let ghost orig = buf@;
    let mut i: usize = 0;
    while i < preset
        invariant
            buf@.len() == len,
            preset == size % 32,
            i <= preset <= size,
            buf@.len() == orig.len(),
            dst + size <= buf@.len(),
            src + size <= buf@.len(),
            buf@ == after_bytes(orig, dst as int, src as int, i as nat),
        decreases preset - i,
    {
        let v = buf[src + i];
        buf[dst + i] = v;
        i = i + 1;
    }
    let ghost mid = buf@;
    let mut i: usize = preset;
    let ghost mut m: nat = 0;
    while i < size
        invariant
            buf@.len() == len,
            preset == size % 32,
            i == preset + 32 * m,
            preset <= i <= size,
            (size - preset) % 32 == 0,
            buf@.len() == orig.len(),
            dst + size <= buf@.len(),
            src + size <= buf@.len(),
            width <= 32,
            mid == after_bytes(orig, dst as int, src as int, preset as nat),
            buf@ == after_blocks(mid, dst as int, src as int, preset as int, m, width as int),
        decreases size - i,
    {
        assert(i + 32 <= size) by {
            assert((i - preset) % 32 == 0);
        }
        let ghost before = buf@;
        let mut lane: Vec<u8> = Vec::new();
        let mut j: usize = 0;
        while j < width
            invariant
                buf@.len() == len,
                i + 32 <= size,
                src + size <= buf@.len(),
                j <= width <= 32,
                buf@ == before,
                lane@.len() == j,
                forall|t: int| 0 <= t < j ==> #[trigger] lane@[t] == before[src + i + t],
            decreases width - j,
        {
            lane.push(buf[src + i + j]);
            j = j + 1;
        }
        let mut j: usize = 0;
        while j < width
            invariant
                buf@.len() == len,
                i + 32 <= size,
                dst + size <= buf@.len(),
                buf@.len() == before.len(),
                j <= width <= 32,
                lane@.len() == width,
                forall|t: int| 0 <= t < width ==> #[trigger] lane@[t] == before[src + i + t],
                forall|k: int|
                    0 <= k < buf@.len() ==> #[trigger] buf@[k] == if dst + i <= k < dst + i + j {
                        before[src + i + (k - (dst + i))]
                    } else {
                        before[k]
                    },
            decreases width - j,
        {
            buf[dst + i + j] = lane[j];
            j = j + 1;
        }
        proof {
            m = m + 1;
            assert(buf@ =~= after_blocks(mid, dst as int, src as int, preset as int, m, width as int));
        }
        i = i + 32;
    }
    assert(m == size / 32);
}

/// The buffer a move from `src` to `dst` within it leaves, made the way the
/// move makes it: one forward copy where `dst` is before `src` or the regions
/// are apart; else a forward copy of the tail of the destination region from
/// its own head, then a forward copy of the `dst - src` bytes at `src`.
pub open spec fn memmove_result(buf: Seq<u8>, dst: int, src: int, n: int, width: int) -> Seq<u8> {
    if dst < src || dst - src > n {
        copied_within(buf, dst, src, n, width)
    } else {
        let diff = dst - src;
        copied_within(copied_within(buf, dst + diff, dst, n - diff, width), dst, src, diff, width)
    }
}

/// Moves the `n` bytes at `src` to `dst` within `buf`. Where the destination
/// starts at most halfway into the source region, or not after it, or the
/// regions are apart, the result is an exact move.
pub fn memmove_simd_avx2(buf: &mut [u8], dst: usize, src: usize, n: usize)
    requires
        dst + n <= old(buf)@.len(),
        src + n <= old(buf)@.len(),
    ensures
        final(buf)@ == memmove_result(old(buf)@, dst as int, src as int, n as int, 32),
        (dst < src || dst - src > n || 2 * (dst - src) >= n) ==> final(buf)@ == moved(
            old(buf)@,
            dst as int,
            src as int,
            n as int,
        ),
{
    let ghost orig = buf@;
    let len = buf.len();
    if dst < src {
        copy_lanes_within(buf, dst, src, n, 32);
        proof {
            lemma_copy_moves(orig, dst as int, src as int, n as int);
        }
    } else {
        let diff: usize = dst - src;
        if diff > n {
            copy_lanes_within(buf, dst, src, n, 32);
            proof {
                lemma_copy_moves(orig, dst as int, src as int, n as int);
            }
        } else {
            copy_lanes_within(buf, dst + diff, dst, n - diff, 32);
            let ghost step = buf@;
            copy_lanes_within(buf, dst, src, diff, 32);
            proof {
                if 2 * diff >= n {
                    lemma_copy_moves(orig, (dst + diff) as int, dst as int, (n - diff) as int);
                    lemma_copy_moves(step, dst as int, src as int, diff as int);
                    assert(buf@ =~= moved(orig, dst as int, src as int, n as int));
                }
            }
        }
    }
}

/// Moves the `n` bytes at `src` to `dst` within `buf` the way
/// `memmove_simd_avx2` does, with lanes of 16 bytes per block of 32.
pub fn memmove_simd_sse(buf: &mut [u8], dst: usize, src: usize, n: usize)
    requires
        dst + n <= old(buf)@.len(),
        src + n <= old(buf)@.len(),
    ensures
        final(buf)@ == memmove_result(old(buf)@, dst as int, src as int, n as int, 16),
{
    let len = buf.len();
    if dst < src {
        copy_lanes_within(buf, dst, src, n, 16);
    } else {
        let diff: usize = dst - src;
        if diff > n {
            copy_lanes_within(buf, dst, src, n, 16);
        } else {
            copy_lanes_within(buf, dst + diff, dst, n - diff, 16);
            copy_lanes_within(buf, dst, src, diff, 16);
        }
    }
}

/// Moves the `n` bytes at `src` to `dst` within `buf`, as `memmove_simd_avx2` does.
pub fn memmove(buf: &mut [u8], dst: usize, src: usize, n: usize)
    requires
        dst + n <= old(buf)@.len(),
        src + n <= old(buf)@.len(),
    ensures
        final(buf)@ == memmove_result(old(buf)@, dst as int, src as int, n as int, 32),
        (dst < src || dst - src > n || 2 * (dst - src) >= n) ==> final(buf)@ == moved(
            old(buf)@,
            dst as int,
            src as int,
            n as int,
        ),
{
    memmove_simd_avx2(buf, dst, src, n)
}

/// `j` is the first index below `n` at which `s` holds the byte `c`.
pub open spec fn is_first_match(s: Seq<i8>, c: i8, n: int, j: int) -> bool {
    &&& 0 <= j < n
    &&& s[j] == c
    &&& forall|k: int| 0 <= k < j ==> s[k] != c
}

/// `s` holds no byte `c` below index `n`.
pub open spec fn no_match(s: Seq<i8>, c: i8, n: int) -> bool {
    forall|k: int| 0 <= k < n ==> s[k] != c
}

/// Searches the first `n` bytes of `s` for the byte `c` (the low byte of `c`),
/// scanning `block` bytes at a time while more than `block` bytes are left.
fn memchr_blocks(s: &[i8], c: i32, n: usize, block: usize) -> (r: Option<usize>)
    requires
        n <= s@.len(),
        1 <= block <= 32,
    ensures
        r matches Some(j) ==> is_first_match(s@, c as i8, n as int, j as int),
        r is None ==> no_match(s@, c as i8, n as int),
{
    let b: i8 = c as i8;
    let len: usize = s.len();
    let mut i: usize = 0;
    while block < n - i
        invariant
            n <= s@.len(),
            1 <= block <= 32,
            i <= n,
            b == c as i8,
            no_match(s@, b, i as int),
            len == s@.len(),
        decreases n - i,
    {
        let mut k: usize = 0;
        while k < block
            invariant
                i + block < n <= s@.len(),
                b == c as i8,
                k <= block,
                no_match(s@, b, (i + k) as int),
            decreases block - k,
        {
            if s[i + k] == b {
                return Some(i + k);
            }
            k = k + 1;
        }
        i = i + block;
    }
    let mut j: usize = i;
    while j < n
        invariant
            n <= s@.len(),
            i <= j <= n,
            b == c as i8,
            no_match(s@, b, j as int),
        decreases n - j,
    {
        if s[j] == b {
            return Some(j);
        }
        j = j + 1;
    }
    None
}

/// The index of the first byte `c` (the low byte of `c`) among the first `n`
/// bytes of `s`, or `None`; scans 32 bytes at a time.
pub fn memchr_simd_avx2(s: &[i8], c: i32, n: usize) -> (r: Option<usize>)
    requires
        n <= s@.len(),
    ensures
        r matches Some(j) ==> is_first_match(s@, c as i8, n as int, j as int),
        r is None ==> no_match(s@, c as i8, n as int),
{
    memchr_blocks(s, c, n, 32)
}

/// The index of the first byte `c` (the low byte of `c`) among the first `n`
/// bytes of `s`, or `None`; scans 16 bytes at a time.
pub fn memchr_simd_sse(s: &[i8], c: i32, n: usize) -> (r: Option<usize>)
    requires
        n <= s@.len(),
    ensures
        r matches Some(j) ==> is_first_match(s@, c as i8, n as int, j as int),
        r is None ==> no_match(s@, c as i8, n as int),
{
    memchr_blocks(s, c, n, 16)
}

/// The index of the first byte `c` (the low byte of `c`) among the first `n`
/// bytes of `s`, or `None`.
pub fn memchr(s: &[i8], c: i32, n: usize) -> (r: Option<usize>)
    requires
        n <= s@.len(),
    ensures
        r matches Some(j) ==> is_first_match(s@, c as i8, n as int, j as int),
        r is None ==> no_match(s@, c as i8, n as int),
{
    if n < 32 {
        memchr_simd_sse(s, c, n)
    } else {
        memchr_simd_avx2(s, c, n)
    }
}

/// `j` is the first index below `n` at which `s` and `t` differ.
pub open spec fn is_first_difference(s: Seq<i8>, t: Seq<i8>, n: int, j: int) -> bool {
    &&& 0 <= j < n
    &&& s[j] != t[j]
    &&& forall|k: int| 0 <= k < j ==> s[k] == t[k]
}

/// `s` and `t` agree below index `n`.
pub open spec fn same_prefix(s: Seq<i8>, t: Seq<i8>, n: int) -> bool {
    forall|k: int| 0 <= k < n ==> s[k] == t[k]
}

/// The difference of two bytes, wrapped to a byte and widened.
pub open spec fn byte_difference(a: i8, b: i8) -> i32 {
    a.wrapping_sub(b) as i32
}

/// What a byte-by-byte comparison of the first `n` bytes answers: the wrapped
/// difference at the first index where `s` and `t` differ, or 0 where they agree.
pub open spec fn bytewise_result(s: Seq<i8>, t: Seq<i8>, n: usize, r: i32) -> bool {
    &&& forall|j: int| is_first_difference(s, t, n as int, j) ==> r == byte_difference(s[j], t[j])
    &&& same_prefix(s, t, n as int) ==> r == 0
    &&& r == 0 <==> same_prefix(s, t, n as int)
}

/// What `memcmp_simd_avx2` answers: the wrapped difference at the first
/// difference among the leading `n % 32` bytes; else, where `n` is at least
/// 32 and the first 32 bytes of `s` and `t` differ, first at `k`, the wrapped
/// difference at index `n % 32 + k`; else 0.
pub open spec fn block_result(s: Seq<i8>, t: Seq<i8>, n: usize, r: i32) -> bool {
    let p = n as int % 32;
    &&& forall|j: int| is_first_difference(s, t, p, j) ==> r == byte_difference(s[j], t[j])
    &&& same_prefix(s, t, p) && n >= 32 ==> forall|k: int|
        is_first_difference(s, t, 32, k) ==> r == byte_difference(s[p + k], t[p + k])
    &&& same_prefix(s, t, p) && (n < 32 || same_prefix(s, t, 32)) ==> r == 0
}

/// `same_prefix` at an index held as a `usize`, so that the comparison loops
/// below can state it of their counters without a conversion.
spec fn agree_below(s: Seq<i8>, t: Seq<i8>, n: usize) -> bool {
    same_prefix(s, t, n as int)
}

/// The wrapped difference of the bytes at index `i`; zero exactly where they agree.
fn difference_at(s: &[i8], t: &[i8], i: usize) -> (d: i32)
    requires
        i < s@.len(),
        i < t@.len(),
    ensures
        d == byte_difference(s@[i as int], t@[i as int]),
        d == 0 <==> s@[i as int] == t@[i as int],
{
    s[i].wrapping_sub(t[i]) as i32
}

/// `n % 32` and the bound it gives on the blocks that follow.
proof fn lemma_blocks_fit(n: usize, preset: usize, i: usize)
    requires
        preset == n % 32,
        preset <= i < n,
        (i - preset) % 32 == 0,
    ensures
        i + 32 <= n,
{
}

/// Compares the first `n` bytes of `s` and `t` one by one: the wrapped
/// difference at the first index where they differ, or 0.
pub fn short_cmp(s: &[i8], t: &[i8], n: usize) -> (r: i32)
    requires
        n <= s@.len(),
        n <= t@.len(),
    ensures
        bytewise_result(s@, t@, n, r),
{
    let mut i: usize = 0;
    while i < n
        invariant
            i <= n <= s@.len(),
            n <= t@.len(),
            agree_below(s@, t@, i),
        decreases n - i,
    {
        let res = difference_at(s, t, i);
        if res != 0 {
            return res;
        }
        i = i + 1;
    }
    0
}

/// Compares the first `n` bytes of `s` and `t`: the leading `n % 32` bytes one
/// by one, then each following block of 32 by comparing the first 32 bytes of
/// `s` and `t` and, at their first difference `k`, answering with the wrapped
/// difference at offset `k` of the block.
pub fn memcmp_simd_avx2(s: &[i8], t: &[i8], n: usize) -> (r: i32)
    requires
        n <= s@.len(),
        n <= t@.len(),
    ensures
        block_result(s@, t@, n, r),
{
    proof {
        lemma_low_five_bits(n);
    }
    let preset: usize = 31 & n;
    let first = short_cmp(s, t, preset);
    if first != 0 {
        return first;
    }
    let mut i: usize = preset;
    while i < n
        invariant
            preset == n % 32,
            preset <= i <= n,
            (i - preset) % 32 == 0,
            n <= s@.len(),
            n <= t@.len(),
            agree_below(s@, t@, preset),
            i > preset ==> agree_below(s@, t@, 32),
        decreases n - i,
    {
        proof {
            lemma_blocks_fit(n, preset, i);
        }
        let mut k: usize = 0;
        while k < 32
            invariant
                i + 32 <= n <= s@.len(),
                n <= t@.len(),
                preset == n % 32,
                preset <= i,
                i > preset ==> agree_below(s@, t@, 32),
                k <= 32,
                agree_below(s@, t@, preset),
                agree_below(s@, t@, k),
            decreases 32 - k,
        {
            if s[k] != t[k] {
                return difference_at(s, t, i + k);
            }
            k = k + 1;
        }
        i = i + 32;
    }
    0
}

/// Compares the first `n` bytes of `s` and `t` as `memcmp_simd_avx2` does.
pub fn memcmp(s: &[i8], t: &[i8], n: usize) -> (r: i32)
    requires
        n <= s@.len(),
        n <= t@.len(),
    ensures
        block_result(s@, t@, n, r),
{
    memcmp_simd_avx2(s, t, n)
}

} // verus!

verus! {

/// Comparing a byte string with itself answers 0.
pub proof fn law_compare_with_itself(s: Seq<i8>, n: usize, r: i32)
    requires
        n <= s.len(),
        block_result(s, s, n, r),
    ensures
        r == 0,
{
}

/// Comparing a byte string with itself one byte at a time answers 0.
pub proof fn law_bytewise_compare_with_itself(s: Seq<i8>, n: usize, r: i32)
    requires
        n <= s.len(),
        bytewise_result(s, s, n, r),
    ensures
        r == 0,
{
}

/// A byte-by-byte comparison answers with the first byte at which the two
/// strings differ: where `j` is the least index below `n` with `s[j] != t[j]`,
/// the answer is `s[j] - t[j]` wrapped into `-128..=127`, whatever follows `j`.
pub proof fn law_bytewise_answers_first_difference(s: Seq<i8>, t: Seq<i8>, n: usize, r: i32, j: int)
    requires
        n <= s.len(),
        n <= t.len(),
        bytewise_result(s, t, n, r),
        0 <= j < n,
        s[j] != t[j],
        forall|k: int| 0 <= k < j ==> s[k] == t[k],
    ensures
        -128 <= r <= 127,
        r == s[j] - t[j] || r == s[j] - t[j] - 256 || r == s[j] - t[j] + 256,
        -128 <= s[j] - t[j] <= 127 ==> r == s[j] - t[j],
        r != 0,
{
    assert(is_first_difference(s, t, n as int, j));
}

/// A byte-by-byte comparison answers 0 exactly where the first `n` bytes of
/// the two strings are equal.
pub proof fn law_bytewise_zero_iff_equal(s: Seq<i8>, t: Seq<i8>, n: usize, r: i32)
    requires
        n <= s.len(),
        n <= t.len(),
        bytewise_result(s, t, n, r),
    ensures
        r == 0 <==> forall|k: int| 0 <= k < n ==> s[k] == t[k],
{
    if r != 0 {
        assert(!same_prefix(s, t, n as int));
    }
}

/// Among the leading `n % 32` bytes (all of them where `n` is below 32),
/// the block comparison answers with the first byte at which the strings differ: where
/// `j` is the least such index, the answer is `s[j] - t[j]` wrapped into
/// `-128..=127`, whatever follows `j`.
pub proof fn law_block_compare_answers_first_leading_difference(s: Seq<i8>, t: Seq<i8>, n: usize, r: i32, j: int)
    requires
        n <= s.len(),
        n <= t.len(),
        block_result(s, t, n, r),
        0 <= j < n % 32,
        s[j] != t[j],
        forall|k: int| 0 <= k < j ==> s[k] == t[k],
    ensures
        -128 <= r <= 127,
        r == s[j] - t[j] || r == s[j] - t[j] - 256 || r == s[j] - t[j] + 256,
        -128 <= s[j] - t[j] <= 127 ==> r == s[j] - t[j],
        r != 0,
{
    assert(is_first_difference(s, t, n as int % 32, j));
}

/// For fewer than 32 bytes the block comparison answers 0 exactly where the strings are
/// equal on them.
pub proof fn law_block_compare_short_zero_iff_equal(s: Seq<i8>, t: Seq<i8>, n: usize, r: i32)
    requires
        n < 32,
        n <= s.len(),
        n <= t.len(),
        block_result(s, t, n, r),
    ensures
        r == 0 <==> forall|k: int| 0 <= k < n ==> s[k] == t[k],
{
    if !same_prefix(s, t, n as int) {
        let j = choose|j: int| 0 <= j < n && s[j] != t[j];
        lemma_first_difference_exists(s, t, n as int, j);
        let f = choose|f: int| is_first_difference(s, t, n as int, f);
        assert(is_first_difference(s, t, n as int % 32, f));
    }
}

/// Past the leading `n % 32` bytes, where those agree and `n` is at least 32,
/// the block comparison looks at the first 32 bytes of the strings: where
/// `k` is the least index below 32 with `s[k] != t[k]`, it answers with the
/// byte `n % 32 + k` of each, `s[n % 32 + k] - t[n % 32 + k]` wrapped into
/// `-128..=127`; where the first 32 bytes agree, it answers 0.
pub proof fn law_block_compare_later_blocks(s: Seq<i8>, t: Seq<i8>, n: usize, r: i32, k: int)
    requires
        32 <= n,
        n <= s.len(),
        n <= t.len(),
        block_result(s, t, n, r),
        forall|i: int| 0 <= i < n % 32 ==> s[i] == t[i],
    ensures
        0 <= k < 32 && s[k] != t[k] && (forall|i: int| 0 <= i < k ==> s[i] == t[i]) ==> {
            let a = s[n % 32 + k];
            let b = t[n % 32 + k];
            &&& -128 <= r <= 127
            &&& r == a - b || r == a - b - 256 || r == a - b + 256
        },
        (forall|i: int| 0 <= i < 32 ==> s[i] == t[i]) ==> r == 0,
{
    let p = n as int % 32;
    assert(same_prefix(s, t, p));
    if 0 <= k < 32 && s[k] != t[k] && (forall|i: int| 0 <= i < k ==> s[i] == t[i]) {
        assert(is_first_difference(s, t, 32, k));
    }
    if forall|i: int| 0 <= i < 32 ==> s[i] == t[i] {
        assert(same_prefix(s, t, 32));
    }
}

/// Where two strings differ below `n`, there is a first index at which they do.
proof fn lemma_first_difference_exists(s: Seq<i8>, t: Seq<i8>, n: int, j: int)
    requires
        0 <= j < n,
        s[j] != t[j],
    ensures
        exists|f: int| is_first_difference(s, t, n, f),
    decreases j,
{
    if forall|k: int| 0 <= k < j ==> s[k] == t[k] {
        assert(is_first_difference(s, t, n, j));
    } else {
        let k = choose|k: int| 0 <= k < j && s[k] != t[k];
        lemma_first_difference_exists(s, t, n, k);
    }
}

/// A move between regions that do not overlap copies exactly, whichever
/// of the two comes first.
pub proof fn law_disjoint_move_copies(buf: Seq<u8>, dst: int, src: int, n: int)
    requires
        0 <= dst,
        0 <= src,
        0 <= n,
        dst + n <= buf.len(),
        src + n <= buf.len(),
        dst + n <= src || src + n <= dst,
    ensures
        memmove_result(buf, dst, src, n, 32) == moved(buf, dst, src, n),
{
    if dst < src || dst - src > n {
        lemma_copy_moves(buf, dst, src, n);
    } else {
        let diff = dst - src;
        lemma_copy_moves(buf, dst + diff, dst, n - diff);
        lemma_copy_moves(copied_within(buf, dst + diff, dst, n - diff, 32), dst, src, diff);
        assert(memmove_result(buf, dst, src, n, 32) =~= moved(buf, dst, src, n));
    }
}

} // verus!
