use vstd::prelude::*;

verus! {

/// The multiplier of the thread id hash (the 64-bit golden ratio).
pub const HASH_MULTIPLIER: u64 = 0x9E37_79B9_7F4A_7C15;

/// The number of entries of a table whose hash has `bits` bits.
pub open spec fn table_size(bits: usize) -> int {
    (1u64 << (bits as u64)) as int
}

/// The bucket of thread `id` in a table of `2^bits` entries: the top `bits`
/// bits of the id multiplied by the golden ratio.
pub open spec fn hash_spec(id: usize, bits: usize) -> int {
    ((id as u64).wrapping_mul(0x9E37_79B9_7F4A_7C15u64) >> ((64 - bits) as u64)) as int
}

/// The top `b` bits of a word are below `2^b`; table sizes double with `b`.
proof fn lemma_shift_facts(x: u64, b: u64)
    by (bit_vector)
    requires
        1 <= b <= 62,
    ensures
        x >> ((64u64 - b) as u64) < (1u64 << b),
        (1u64 << ((b + 1) as u64)) == 2 * (1u64 << b),
        (1u64 << b) >= 2,
        (1u64 << b) < 0x4000_0000_0000_0000u64 ==> b <= 61,
        (1u64 << 1u64) == 2,
{
}

/// Slot `d` of the probe sequence from bucket `h` in a table of `len` entries.
pub open spec fn probe(h: int, d: int, len: int) -> int {
    if h + d < len {
        h + d
    } else {
        h + d - len
    }
}

/// How many probes from bucket `h` it takes to reach slot `k`.
pub open spec fn dist(h: int, k: int, len: int) -> int {
    if k >= h {
        k - h
    } else {
        k + len - h
    }
}

/// The bucket of thread `id` in a table of `2^bits` entries.
pub fn hash(id: usize, bits: usize) -> (h: usize)
    requires
        1 <= bits <= 62,
        table_size(bits) <= usize::MAX,
    ensures
        h == hash_spec(id, bits),
        h < table_size(bits),
{
    let x: u64 = (id as u64).wrapping_mul(HASH_MULTIPLIER);
    proof {
        lemma_shift_facts(x, bits as u64);
    }
    (x >> (64 - bits as u64)) as usize
}

/// An entry of a table: the thread that owns it (0 for a free entry) and the
/// value, which a later table may have taken over.
pub struct TableEntry<T> {
    owner: usize,
    data: Option<T>,
}

/// One level of the hash table: `2^hash_bits` entries, filled by linear probing.
pub struct Table<T> {
    entries: Vec<TableEntry<T>>,
    hash_bits: usize,
}

/// The entries of a table are laid out as linear probing lays them out: the
/// table has `2^bits` entries, no thread owns two of them, and every slot on
/// the probe path from an owner's bucket to its entry is taken.
spec fn slots_wf<T>(s: Seq<TableEntry<T>>, bits: usize) -> bool {
    &&& 1 <= bits <= 62
    &&& s.len() == table_size(bits)
    &&& s.len() <= usize::MAX
    &&& forall|a: int, b: int|
        0 <= a < s.len() && 0 <= b < s.len() && a != b && s[a].owner != 0 ==> s[a].owner != s[b].owner
    &&& forall|k: int, d: int|
        #![trigger probe(hash_spec(s[k].owner, bits), d, s.len() as int)]
        0 <= k < s.len() && s[k].owner != 0 && 0 <= d < dist(hash_spec(s[k].owner, bits), k, s.len() as int)
            ==> s[probe(hash_spec(s[k].owner, bits), d, s.len() as int)].owner != 0
    &&& forall|k: int| 0 <= k < s.len() && (#[trigger] s[k]).data is Some ==> s[k].owner != 0
}

/// Thread `id` owns an entry of `s`.
spec fn owns_slot<T>(s: Seq<TableEntry<T>>, id: usize) -> bool {
    exists|k: int| 0 <= k < s.len() && (#[trigger] s[k]).owner == id
}

impl<T> Table<T> {
    /// The table's entries.
    pub closed spec fn slots(self) -> Seq<TableEntry<T>> {
        self.entries@
    }

    /// The number of bits of the table's hash.
    pub closed spec fn bits(self) -> usize {
        self.hash_bits
    }

    /// A table of `2^bits` free entries.
    fn empty(bits: usize) -> (t: Table<T>)
        requires
            1 <= bits <= 62,
            table_size(bits) <= usize::MAX,
        ensures
            t.bits() == bits,
            slots_wf(t.slots(), bits),
            forall|k: int| 0 <= k < t.slots().len() ==> (#[trigger] t.slots()[k]).owner == 0,
    {
        proof {
            lemma_shift_facts(0, bits as u64);
        }
        let size: usize = (1u64 << bits as u64) as usize;
        let mut entries: Vec<TableEntry<T>> = Vec::new();
        let mut i: usize = 0;
        while i < size
            invariant
                i <= size,
                size == table_size(bits),
                entries@.len() == i,
                forall|k: int| 0 <= k < i ==> (#[trigger] entries@[k]).owner == 0 && entries@[k].data is None,
            decreases size - i,
        {
            entries.push(TableEntry { owner: 0, data: None });
            i = i + 1;
        }
        Table { entries, hash_bits: bits }
    }

    /// The slot of thread `id`, found by linear probing from its bucket, or
    /// `None` where it owns no entry.
    fn lookup(&self, id: usize) -> (r: Option<usize>)
        requires
            slots_wf(self.slots(), self.bits()),
            id != 0,
        ensures
            r matches Some(k) ==> k < self.slots().len() && self.slots()[k as int].owner == id,
            r is None ==> !owns_slot(self.slots(), id),
    {
        let ghost s = self.slots();
        let len: usize = self.entries.len();
        let h: usize = hash(id, self.hash_bits);
        let mut idx: usize = h;
        let mut d: usize = 0;
        while d < len
            invariant
                s == self.slots(),
                slots_wf(s, self.bits()),
                len == s.len(),
                h == hash_spec(id, self.bits()),
                h < len,
                d <= len,
                idx == probe(h as int, d as int, len as int) || d == len,
                forall|e: int| 0 <= e < d ==> #[trigger] s[probe(h as int, e, len as int)].owner != id
                    && s[probe(h as int, e, len as int)].owner != 0,
            decreases len - d,
        {
            let owner = self.entries[idx].owner;
            if owner == id {
                return Some(idx);
            }
            if owner == 0 {
                proof {
                    if owns_slot(s, id) {
                        let k = choose|k: int| 0 <= k < s.len() && (#[trigger] s[k]).owner == id;
                        let dk = dist(h as int, k, len as int);
                        assert(probe(h as int, dk, len as int) == k);
                        if dk < d {
                            assert(s[probe(h as int, dk, len as int)].owner != id);
                        } else {
                            assert(s[probe(hash_spec(s[k].owner, self.bits()), d as int, s.len() as int)].owner != 0);
                        }
                    }
                }
                return None;
            }
            idx = idx + 1;
            if idx == len {
                idx = 0;
            }
            d = d + 1;
        }
        proof {
            if owns_slot(s, id) {
                let k = choose|k: int| 0 <= k < s.len() && (#[trigger] s[k]).owner == id;
                let dk = dist(h as int, k, len as int);
                assert(probe(h as int, dk, len as int) == k);
                assert(s[probe(h as int, dk, len as int)].owner != id);
            }
        }
        None
    }
}

/// The number of taken entries among the first `n` of `s`.
spec fn occ<T>(s: Seq<TableEntry<T>>, n: nat) -> nat
    decreases n,
{
    if n == 0 {
        0
    } else {
        occ(s, (n - 1) as nat) + (if s[n - 1].owner != 0 { 1nat } else { 0nat })
    }
}

/// Where all of the first `n` entries are taken, `n` are taken.
proof fn lemma_occ_full<T>(s: Seq<TableEntry<T>>, n: nat)
    requires
        n <= s.len(),
        forall|k: int| 0 <= k < n ==> (#[trigger] s[k]).owner != 0,
    ensures
        occ(s, n) == n,
    decreases n,
{
    if n > 0 {
        lemma_occ_full(s, (n - 1) as nat);
    }
}

/// Where none of the first `n` entries is taken, none are.
proof fn lemma_occ_none<T>(s: Seq<TableEntry<T>>, n: nat)
    requires
        n <= s.len(),
        forall|k: int| 0 <= k < n ==> (#[trigger] s[k]).owner == 0,
    ensures
        occ(s, n) == 0,
    decreases n,
{
    if n > 0 {
        lemma_occ_none(s, (n - 1) as nat);
    }
}

/// Taking a free entry raises the count of taken entries by one.
proof fn lemma_occ_take<T>(s: Seq<TableEntry<T>>, p: int, e: TableEntry<T>, n: nat)
    requires
        n <= s.len(),
        0 <= p < s.len(),
        s[p].owner == 0,
        e.owner != 0,
    ensures
        occ(s.update(p, e), n) == occ(s, n) + (if p < n { 1nat } else { 0nat }),
    decreases n,
{
    if n > 0 {
        lemma_occ_take(s, p, e, (n - 1) as nat);
    }
}

/// Entries with the same owners count the same taken entries.
proof fn lemma_occ_same_owners<T>(s: Seq<TableEntry<T>>, t: Seq<TableEntry<T>>, n: nat)
    requires
        n <= s.len(),
        s.len() == t.len(),
        forall|k: int| 0 <= k < s.len() ==> (#[trigger] t[k]).owner == s[k].owner,
    ensures
        occ(t, n) == occ(s, n),
    decreases n,
{
    if n > 0 {
        lemma_occ_same_owners(s, t, (n - 1) as nat);
    }
}

/// Probing `d` steps from a bucket and measuring the distance back agree.
proof fn lemma_probe_dist(h: int, d: int, k: int, len: int)
    requires
        0 <= h < len,
        0 <= d < len,
        0 <= k < len,
    ensures
        dist(h, probe(h, d, len), len) == d,
        0 <= probe(h, d, len) < len,
        probe(h, dist(h, k, len), len) == k,
        0 <= dist(h, k, len) < len,
{
}

/// The size of the newest table once `count` threads have values, where it had
/// `size` entries before the last of them came: it doubles where the count
/// goes above three quarters of it.
pub open spec fn grown_size(size: int, count: int) -> int {
    if 4 * count > 3 * size {
        2 * size
    } else {
        size
    }
}

/// At most this many threads hold values in a table: it keeps the tables'
/// sizes within `usize`.
pub open spec fn capacity_limit() -> int {
    usize::MAX as int / 32
}

/// A value per thread: a chain of hash tables from thread id to value. Values
/// are created in the newest table, which doubles when more than three
/// quarters full; a value found in an older table moves to the newest one.
pub struct ThreadLocal<T> {
    tables: Vec<Table<T>>,
    count: usize,
    homes: Ghost<Map<usize, (int, int)>>,
}

impl<T> ThreadLocal<T> {
    /// Entry `k` of table `i`.
    spec fn entry(self, i: int, k: int) -> TableEntry<T> {
        self.tables@[i].entries@[k]
    }

    /// The number of entries of table `i`.
    spec fn table_len(self, i: int) -> int {
        self.tables@[i].entries@.len() as int
    }

    /// The index of the newest table.
    spec fn top(self) -> int {
        self.tables@.len() - 1
    }

    /// The threads whose values live in the newest table.
    spec fn top_ids(self) -> Set<usize> {
        self.homes@.dom().filter(|id: usize| self.homes@[id].0 == self.top())
    }

    /// The tables are laid out by linear probing; each thread with a value has
    /// exactly one entry holding it, in the newest table it owns an entry of;
    /// the count is the number of threads with values, at most three quarters
    /// of the newest table and, together with `pending` (a thread whose value is
    /// in flight, owning no entry of the newest table and only emptied ones
    /// elsewhere), a quarter of it.
    spec fn inv(self, pending: Option<usize>) -> bool {
        let n = self.tables@.len();
        let homes = self.homes@;
        &&& n >= 1
        &&& forall|i: int| 0 <= i < n ==> slots_wf(#[trigger] self.tables@[i].entries@, self.tables@[i].hash_bits)
        &&& forall|id: usize| #[trigger] homes.contains_key(id) ==> {
            &&& id != 0
            &&& Some(id) != pending
            &&& 0 <= homes[id].0 < n
            &&& 0 <= homes[id].1 < self.table_len(homes[id].0)
            &&& self.entry(homes[id].0, homes[id].1).owner == id
            &&& self.entry(homes[id].0, homes[id].1).data is Some
        }
        &&& forall|i: int, k: int|
            0 <= i < n && 0 <= k < self.table_len(i) && (#[trigger] self.entry(i, k)).owner != 0
                && Some(self.entry(i, k).owner) != pending ==> homes.contains_key(self.entry(i, k).owner)
                && i <= homes[self.entry(i, k).owner].0
        &&& forall|i: int, k: int|
            0 <= i < n && 0 <= k < self.table_len(i) && (#[trigger] self.entry(i, k)).data is Some
                ==> Some(self.entry(i, k).owner) != pending && homes[self.entry(i, k).owner] == (i, k)
        &&& forall|k: int|
            0 <= k < self.table_len(n - 1) ==> Some((#[trigger] self.entry(n - 1, k)).owner) != pending
        &&& homes.dom().finite()
        &&& homes.dom().len() <= self.count
        &&& self.count <= homes.dom().len() + (if pending is Some { 1int } else { 0int })
        &&& self.count <= capacity_limit()
        &&& 4 * self.count <= 3 * self.table_len(n - 1)
        &&& self.table_len(n - 1) <= 4 * (self.count + 1)
        &&& occ(self.tables@[n - 1].entries@, self.table_len(n - 1) as nat) == self.top_ids().len()
    }

    /// The table is well formed.
    pub closed spec fn wf(self) -> bool {
        self.inv(None)
    }

    /// The value of each thread that has one.
    pub closed spec fn values(self) -> Map<usize, T> {
        Map::new(
            |id: usize| self.homes@.contains_key(id),
            |id: usize| self.entry(self.homes@[id].0, self.homes@[id].1).data->0,
        )
    }

    /// Thread `id`'s value is in entry `k` of the newest table.
    spec fn at_top(self, id: usize, k: usize) -> bool {
        &&& 0 <= k < self.table_len(self.top())
        &&& self.entry(self.top(), k as int).owner == id
        &&& self.homes@.contains_key(id)
        &&& self.homes@[id] == (self.top(), k as int)
    }
}

impl<T> View for ThreadLocal<T> {
    type V = Map<usize, T>;

    closed spec fn view(&self) -> Map<usize, T> {
        self.values()
    }
}

impl<T> ThreadLocal<T> {
    /// A table with no values.
    pub fn new() -> (t: ThreadLocal<T>)
        ensures
            t.wf(),
            t@ == Map::<usize, T>::empty(),
            t.newest_size() == 2,
    {
        proof {
            lemma_shift_facts(0, 1);
        }
        let first: Table<T> = Table::empty(1);
        proof {
            lemma_occ_none(first.entries@, first.entries@.len() as nat);
        }
        let mut tables: Vec<Table<T>> = Vec::new();
        tables.push(first);
        let t = ThreadLocal { tables, count: 0, homes: Ghost(Map::empty()) };
        assert(t.newest_size() == 2);
        assert(t.top_ids() =~= Set::empty());
        assert(t@ =~= Map::<usize, T>::empty());
        t
    }
}

/// Placing a thread in a free slot at the end of its probe path keeps the
/// linear-probing layout.
proof fn lemma_place_keeps_layout<T>(s: Seq<TableEntry<T>>, bits: usize, idx: int, e: TableEntry<T>, d: int)
    requires
        slots_wf(s, bits),
        0 <= idx < s.len(),
        s[idx].owner == 0,
        e.owner != 0,
        forall|k: int| 0 <= k < s.len() ==> (#[trigger] s[k]).owner != e.owner,
        0 <= hash_spec(e.owner, bits) < s.len(),
        0 <= d < s.len(),
        idx == probe(hash_spec(e.owner, bits), d, s.len() as int),
        forall|f: int| 0 <= f < d ==> #[trigger] s[probe(hash_spec(e.owner, bits), f, s.len() as int)].owner != 0,
    ensures
        slots_wf(s.update(idx, e), bits),
{
    let t = s.update(idx, e);
    let len = s.len() as int;
    let h = hash_spec(e.owner, bits);
    lemma_probe_dist(h, d, idx, len);
    assert forall|a: int, b: int|
        0 <= a < t.len() && 0 <= b < t.len() && a != b && t[a].owner != 0 implies t[a].owner != t[b].owner by {
        if a != idx && b != idx {
            assert(s[a].owner != s[b].owner);
        }
    }
    assert forall|k: int, f: int|
        #![trigger probe(hash_spec(t[k].owner, bits), f, t.len() as int)]
        0 <= k < t.len() && t[k].owner != 0 && 0 <= f < dist(hash_spec(t[k].owner, bits), k, t.len() as int)
            implies t[probe(hash_spec(t[k].owner, bits), f, t.len() as int)].owner != 0 by {
        let hk = hash_spec(t[k].owner, bits);
        let q = probe(hk, f, len);
        if k == idx {
            assert(s[probe(h, f, len)].owner != 0);
        } else {
            assert(s[probe(hash_spec(s[k].owner, bits), f, s.len() as int)].owner != 0);
        }
        if q == idx {
            assert(t[q].owner == e.owner);
        }
    }
}

impl<T> ThreadLocal<T> {
    /// Stores `data` as thread `id`'s value in the newest table, after
    /// counting a new thread and, where the count is then above three quarters
    /// of the newest table, adding a table twice its size.
    ///
    /// The probe stops at the first free entry or at an entry `id` already
    /// owns. In the second case the entry keeps its value, `data` is dropped
    /// and the table is left as it was. Callers reach it only when they hold a
    /// value for `id` in the newest table already; a thread that is counted
    /// anew (`new`) holds no value, else the count would run ahead of the
    /// values.
    fn insert(&mut self, id: usize, data: T, new: bool) -> (k: usize)
        requires
            id != 0,
            old(self).homes@.contains_key(id) ==> !new && old(self).wf() && old(self).homes@[id].0
                == old(self).top(),
            !old(self).homes@.contains_key(id) ==> old(self).inv(Some(id)),
            !old(self).homes@.contains_key(id) && new ==> old(self).count < capacity_limit()
                && old(self).homes@.dom().len() == old(self).count,
            !old(self).homes@.contains_key(id) && !new ==> old(self).homes@.dom().len() + 1 == old(
                self,
            ).count,
        ensures
            final(self).wf(),
            final(self).at_top(id, k),
            !old(self)@.contains_key(id) ==> final(self)@ == old(self)@.insert(id, data),
            old(self)@.contains_key(id) ==> *final(self) == *old(self),
            final(self).newest_size() == if new {
                grown_size(old(self).newest_size(), old(self).count + 1)
            } else {
                old(self).newest_size()
            },
    {
        let ghost old_self = *self;
        let ghost value = data;
        let ghost present = old_self.homes@.contains_key(id);
        proof {
            if present {
                assert(old_self@.dom().contains(id));
            } else {
                assert(!old_self@.dom().contains(id));
            }
        }
        if new {
            self.count = self.count + 1;
        }
        let n: usize = self.tables.len();
        let top_len: usize = self.tables[n - 1].entries.len();
        if self.count > top_len * 3 / 4 {
            proof {
                if present {
                    assert(4 * self.count <= 3 * top_len);
                    assert(false);
                }
                assert(4 * self.count > 3 * top_len);
            }
            let bits: usize = self.tables[n - 1].hash_bits;
            proof {
                lemma_shift_facts(0, bits as u64);
                assert(bits <= 61);
                lemma_shift_facts(0, (bits + 1) as u64);
            }
            let t: Table<T> = Table::empty(bits + 1);
            proof {
                lemma_occ_none(t.entries@, t.entries@.len() as nat);
            }
            self.tables.push(t);
            proof {
                assert(self.newest_size() == 2 * old_self.newest_size());
                assert(self.top_ids() =~= Set::empty());
                assert(forall|i: int| 0 <= i < n ==> self.tables@[i] == old_self.tables@[i]);
                assert forall|i: int, k: int| 0 <= i < n && 0 <= k < self.table_len(i)
                    implies #[trigger] self.entry(i, k) == old_self.entry(i, k) by {
                }
                assert forall|k: int| 0 <= k < self.table_len(n as int)
                    implies (#[trigger] self.entry(n as int, k)).owner == 0 && self.entry(n as int, k).data is None by {
                    assert(self.tables@[n as int].entries@[k].owner == 0);
                }
            }
        } else {
            proof {
                assert(4 * self.count <= 3 * top_len);
            }
        }
        let ghost pre = *self;
        let ghost size_after: int = if new {
            grown_size(old_self.newest_size(), old_self.count + 1)
        } else {
            old_self.newest_size()
        };
        proof {
            if !new {
                assert(self.count == old_self.count);
            }
            assert(pre.newest_size() == size_after);
        }
        proof {
            if present {
                assert(pre == old_self);
            } else {
                assert forall|i: int, k: int| 0 <= i < n && 0 <= k < pre.table_len(i)
                    implies #[trigger] pre.entry(i, k) == old_self.entry(i, k) by {
                }
                assert(pre.inv(Some(id)));
                assert(pre@ =~= old_self@);
                assert(pre.homes@.dom().len() + 1 == pre.count);
                assert(!pre.homes@.contains_key(id));
            }
        }
        let top: usize = self.tables.len() - 1;
        let len: usize = self.tables[top].entries.len();
        let h: usize = hash(id, self.tables[top].hash_bits);
        let ghost k0: int = if present { pre.homes@[id].1 } else { 0 };
        proof {
            if present {
                assert(pre.entry(top as int, k0).owner == id);
                lemma_probe_dist(h as int, 0, k0, len as int);
            }
        }
        let mut idx: usize = h;
        let mut d: usize = 0;
        while d < len
            invariant
                *self == pre,
                pre.newest_size() == size_after,
                size_after == if new {
                    grown_size(old_self.newest_size(), old_self.count + 1)
                } else {
                    old_self.newest_size()
                },
                present == old_self.homes@.contains_key(id),
                !present ==> pre.inv(Some(id)),
                !present ==> !pre.homes@.contains_key(id),
                !present ==> pre.homes@.dom().len() + 1 == pre.count,
                !present ==> pre@ == old_self@,
                present ==> pre == old_self && pre.wf() && pre.homes@.contains_key(id),
                present ==> pre.homes@[id] == (top as int, k0) && pre.entry(top as int, k0).owner == id,
                present ==> 0 <= k0 < len && d <= dist(h as int, k0, len as int) < len,
                old_self == *old(self),
                value == data,
                id != 0,
                top == pre.top(),
                len == pre.table_len(top as int),
                h == hash_spec(id, pre.tables@[top as int].hash_bits),
                h < len,
                d <= len,
                idx == probe(h as int, d as int, len as int) || d == len,
                forall|f: int| 0 <= f < d ==> #[trigger] pre.entry(top as int, probe(h as int, f, len as int)).owner != 0,
            decreases len - d,
        {
            let owner: usize = self.tables[top].entries[idx].owner;
            proof {
                if present {
                    let s = pre.tables@[top as int].entries@;
                    let bits = pre.tables@[top as int].hash_bits;
                    assert(slots_wf(s, bits));
                    lemma_probe_dist(h as int, d as int, k0, len as int);
                    if d < dist(h as int, k0, len as int) {
                        assert(s[k0].owner == id);
                        assert(s[probe(hash_spec(s[k0].owner, bits), d as int, s.len() as int)].owner != 0);
                    }
                    assert(owner != 0);
                }
            }
            if owner == 0 {
                self.tables[top].entries[idx] = TableEntry { owner: id, data: Some(data) };
                proof {
                    self.homes@ = pre.homes@.insert(id, (top as int, idx as int));
                    Self::lemma_placed(pre, *self, id, value, idx as int, d as int);
                    assert(self.newest_size() == pre.newest_size());
                }
                return idx;
            }
            if owner == id {
                proof {
                    assert(pre.entry(top as int, idx as int).owner == id);
                    if present {
                        let s = pre.tables@[top as int].entries@;
                        assert(slots_wf(s, pre.tables@[top as int].hash_bits));
                        assert(idx as int == k0);
                        assert(pre.at_top(id, idx));
                    } else {
                        assert(false);
                    }
                }
                return idx;
            }
            proof {
                if present {
                    lemma_probe_dist(h as int, d as int, k0, len as int);
                    if d as int == dist(h as int, k0, len as int) {
                        assert(idx as int == k0);
                    }
                }
            }
            idx = idx + 1;
            if idx == len {
                idx = 0;
            }
            d = d + 1;
        }
        proof {
            let ts = pre.tables@[top as int].entries@;
            assert forall|k: int| 0 <= k < len implies (#[trigger] ts[k]).owner != 0 by {
                lemma_probe_dist(h as int, 0, k, len as int);
                assert(pre.entry(top as int, probe(h as int, dist(h as int, k, len as int), len as int)).owner != 0);
            }
            lemma_occ_full(ts, len as nat);
            vstd::set_lib::lemma_len_subset(pre.top_ids(), pre.homes@.dom());
        }
        vstd::pervasive::unreached()
    }
}

impl<T> ThreadLocal<T> {
    /// Storing a thread's value in the free slot that ends its probe path in
    /// the newest table restores the invariant and adds the value to the map.
    proof fn lemma_placed(pre: Self, post: Self, id: usize, value: T, idx: int, d: int)
        requires
            id != 0,
            pre.inv(Some(id)),
            !pre.homes@.contains_key(id),
            pre.homes@.dom().len() + 1 == pre.count,
            post.count == pre.count,
            post.homes@ == pre.homes@.insert(id, (pre.top(), idx)),
            post.tables@.len() == pre.tables@.len(),
            forall|i: int| 0 <= i < pre.top() ==> post.tables@[i] == pre.tables@[i],
            post.tables@[pre.top()].hash_bits == pre.tables@[pre.top()].hash_bits,
            post.tables@[pre.top()].entries@ == pre.tables@[pre.top()].entries@.update(
                idx,
                TableEntry { owner: id, data: Some(value) },
            ),
            0 <= d < pre.table_len(pre.top()),
            0 <= hash_spec(id, pre.tables@[pre.top()].hash_bits) < pre.table_len(pre.top()),
            idx == probe(hash_spec(id, pre.tables@[pre.top()].hash_bits), d, pre.table_len(pre.top())),
            pre.entry(pre.top(), idx).owner == 0,
            forall|f: int| 0 <= f < d ==> #[trigger] pre.entry(
                pre.top(),
                probe(hash_spec(id, pre.tables@[pre.top()].hash_bits), f, pre.table_len(pre.top())),
            ).owner != 0,
        ensures
            post.wf(),
            post@ == pre@.insert(id, value),
            post.at_top(id, idx as usize),
    {
        let top = pre.top();
        let e = TableEntry { owner: id, data: Some(value) };
        let s0 = pre.tables@[top].entries@;
        let bits = pre.tables@[top].hash_bits;
        let len = s0.len();
        assert forall|k: int| 0 <= k < s0.len() implies (#[trigger] s0[k]).owner != e.owner by {
            assert(pre.entry(top, k).owner == s0[k].owner);
        }
        assert forall|f: int| 0 <= f < d implies #[trigger] s0[probe(hash_spec(e.owner, bits), f, s0.len() as int)].owner != 0 by {
            assert(pre.entry(top, probe(hash_spec(id, bits), f, len as int)).owner != 0);
        }
        lemma_place_keeps_layout(s0, bits, idx, e, d);
        lemma_occ_take(s0, idx, e, len as nat);
        assert forall|i: int, k: int| 0 <= i < post.tables@.len() && 0 <= k < post.table_len(i)
            implies #[trigger] post.entry(i, k) == (if i == top && k == idx { e } else { pre.entry(i, k) }) by {
        }
        assert forall|i: int| 0 <= i < post.tables@.len() implies slots_wf(
            #[trigger] post.tables@[i].entries@,
            post.tables@[i].hash_bits,
        ) by {
            if i != top {
                assert(post.tables@[i] == pre.tables@[i]);
            }
        }
        assert(post.top_ids() =~= pre.top_ids().insert(id));
        assert(post@ =~= pre@.insert(id, value));
    }
}

impl<T> ThreadLocal<T> {
    /// Writing a new value into an entry of any table that holds a value keeps
    /// the invariant, replaces its owner's value and changes the listing at
    /// that entry's place only.
    proof fn lemma_rewritten(pre: Self, post: Self, t: int, k: int, value: T)
        requires
            pre.wf(),
            0 <= t < pre.tables@.len(),
            0 <= k < pre.table_len(t),
            pre.entry(t, k).data is Some,
            post.count == pre.count,
            post.homes@ == pre.homes@,
            post.tables@.len() == pre.tables@.len(),
            forall|i: int| 0 <= i < pre.tables@.len() && i != t ==> post.tables@[i] == pre.tables@[i],
            post.tables@[t].hash_bits == pre.tables@[t].hash_bits,
            post.tables@[t].entries@ == pre.tables@[t].entries@.update(
                k,
                TableEntry { owner: pre.entry(t, k).owner, data: Some(value) },
            ),
        ensures
            post.wf(),
            post@ == pre@.insert(pre.entry(t, k).owner, value),
            post.listing() == pre.listing().update(slot_index(pre.tables@, t, k), value),
            post.newest_size() == pre.newest_size(),
    {
        let top = pre.top();
        let id = pre.entry(t, k).owner;
        let s0 = pre.tables@[t].entries@;
        let s1 = post.tables@[t].entries@;
        assert(pre.homes@[id] == (t, k));
        assert forall|i: int, j: int| 0 <= i < post.tables@.len() && 0 <= j < post.table_len(i)
            implies #[trigger] post.entry(i, j).owner == pre.entry(i, j).owner
                && (post.entry(i, j).data is Some <==> pre.entry(i, j).data is Some) by {
            if i != t {
                assert(post.tables@[i] == pre.tables@[i]);
            }
        }
        assert forall|i: int| 0 <= i < post.tables@.len() implies slots_wf(
            #[trigger] post.tables@[i].entries@,
            post.tables@[i].hash_bits,
        ) by {
            if i != t {
                assert(post.tables@[i] == pre.tables@[i]);
            } else {
                assert(slots_wf(s0, pre.tables@[t].hash_bits));
                assert forall|j: int| 0 <= j < s1.len() implies (#[trigger] s1[j]).owner == s0[j].owner by {
                    assert(s1.len() == s0.len());
                    assert(post.entry(t, j).owner == pre.entry(t, j).owner);
                }
            }
        }
        if t == top {
            lemma_occ_same_owners(s0, s1, s0.len() as nat);
        } else {
            assert(post.tables@[top] == pre.tables@[top]);
        }
        assert(post.top_ids() =~= pre.top_ids());
        assert(post@ =~= pre@.insert(id, value));
        lemma_newest_values_update(pre.tables@, post.tables@, t, k, value, pre.tables@.len());
    }

    /// Emptying the entry that holds thread `id`'s value, and forgetting where
    /// it lived, leaves the value in flight.
    proof fn lemma_taken(pre: Self, post: Self, id: usize, j: int, k: int)
        requires
            pre.wf(),
            pre.homes@.contains_key(id),
            pre.homes@[id] == (j, k),
            j < pre.top(),
            !owns_slot(pre.tables@[pre.top()].entries@, id),
            post.count == pre.count,
            post.homes@ == pre.homes@.remove(id),
            post.tables@.len() == pre.tables@.len(),
            forall|i: int| 0 <= i < pre.tables@.len() && i != j ==> post.tables@[i] == pre.tables@[i],
            post.tables@[j].hash_bits == pre.tables@[j].hash_bits,
            post.tables@[j].entries@ == pre.tables@[j].entries@.update(
                k,
                TableEntry { owner: id, data: None },
            ),
        ensures
            post.inv(Some(id)),
            !post.homes@.contains_key(id),
            post.homes@.dom().len() + 1 == post.count,
            post@ == pre@.remove(id),
    {
        let e = TableEntry::<T> { owner: id, data: None };
        let s0 = pre.tables@[j].entries@;
        assert forall|i: int, m: int| 0 <= i < post.tables@.len() && 0 <= m < post.table_len(i)
            implies #[trigger] post.entry(i, m) == (if i == j && m == k { e } else { pre.entry(i, m) }) by {
        }
        assert(slots_wf(post.tables@[j].entries@, post.tables@[j].hash_bits)) by {
            let t = post.tables@[j].entries@;
            assert(slots_wf(s0, pre.tables@[j].hash_bits));
            assert forall|a: int| 0 <= a < t.len() implies (#[trigger] t[a]).owner == s0[a].owner by {
            }
            assert forall|kk: int, f: int|
                #![trigger probe(hash_spec(t[kk].owner, post.tables@[j].hash_bits), f, t.len() as int)]
                0 <= kk < t.len() && t[kk].owner != 0 && 0 <= f < dist(hash_spec(t[kk].owner, post.tables@[j].hash_bits), kk, t.len() as int)
                    implies t[probe(hash_spec(t[kk].owner, post.tables@[j].hash_bits), f, t.len() as int)].owner != 0 by {
                assert(s0[probe(hash_spec(s0[kk].owner, pre.tables@[j].hash_bits), f, s0.len() as int)].owner != 0);
            }
        }
        assert forall|i: int| 0 <= i < post.tables@.len() implies slots_wf(
            #[trigger] post.tables@[i].entries@,
            post.tables@[i].hash_bits,
        ) by {
            if i != j {
                assert(post.tables@[i] == pre.tables@[i]);
            }
        }
        assert forall|m: int| 0 <= m < post.table_len(post.top())
            implies Some((#[trigger] post.entry(post.top(), m)).owner) != Some(id) by {
            assert(pre.entry(pre.top(), m) == pre.tables@[pre.top()].entries@[m]);
        }
        assert(post.top_ids() =~= pre.top_ids());
        assert(post@ =~= pre@.remove(id));
    }

    /// Finds thread `id`'s value and, where it lives in an older table, moves
    /// it to the newest one; answers with its entry in the newest table.
    fn locate(&mut self, id: usize) -> (r: Option<usize>)
        requires
            old(self).wf(),
            id != 0,
        ensures
            final(self).wf(),
            final(self)@ == old(self)@,
            r is Some <==> old(self)@.contains_key(id),
            r matches Some(k) ==> final(self).at_top(id, k),
            final(self).newest_size() == old(self).newest_size(),
    {
        let top: usize = self.tables.len() - 1;
        match self.tables[top].lookup(id) {
            Some(k) => {
                proof {
                    let homes = self.homes@;
                    assert(self.entry(top as int, k as int).owner == id);
                    let (hi, hk) = homes[id];
                    assert(self.entry(hi, hk).owner == id);
                    assert(slots_wf(self.tables@[top as int].entries@, self.tables@[top as int].hash_bits));
                }
                return Some(k);
            },
            None => {},
        }
        let ghost start = *self;
        let mut j: usize = top;
        while j > 0
            invariant
                *self == start,
                start.wf(),
                start@ == old(self)@,
                start.newest_size() == old(self).newest_size(),
                id != 0,
                top == start.top(),
                j <= top,
                forall|i: int| j <= i <= top ==> !owns_slot(#[trigger] start.tables@[i].entries@, id),
            decreases j,
        {
            j = j - 1;
            match self.tables[j].lookup(id) {
                Some(k) => {
                    let ghost pre = *self;
                    proof {
                        let homes = self.homes@;
                        assert(self.entry(j as int, k as int).owner == id);
                        let (hi, hk) = homes[id];
                        assert(self.entry(hi, hk).owner == id);
                        if hi > j {
                            assert(owns_slot(self.tables@[hi].entries@, id));
                        }
                        assert(slots_wf(self.tables@[j as int].entries@, self.tables@[j as int].hash_bits));
                    }
                    let taken = self.tables[j].entries[k].data.take();
                    match taken {
                        Some(v) => {
                            proof {
                                self.homes@ = pre.homes@.remove(id);
                                Self::lemma_taken(pre, *self, id, j as int, k as int);
                                assert(self.tables@[self.top()] == pre.tables@[pre.top()]);
                            }
                            let slot = self.insert(id, v, false);
                            return Some(slot);
                        },
                        None => {
                            return vstd::pervasive::unreached();
                        },
                    }
                },
                None => {},
            }
        }
        proof {
            if self.homes@.contains_key(id) {
                let (hi, hk) = self.homes@[id];
                assert(self.entry(hi, hk).owner == id);
                assert(owns_slot(self.tables@[hi].entries@, id));
            }
        }
        None
    }
}

impl<T> ThreadLocal<T> {
    /// The threads with values are the ones the table tracks.
    proof fn lemma_view_dom(self)
        requires
            self.wf(),
        ensures
            self@.dom() == self.homes@.dom(),
            self@.dom().finite(),
            self@.len() == self.count,
    {
        assert(self@.dom() =~= self.homes@.dom());
    }

    /// The threads with values are finitely many.
    pub proof fn lemma_len_finite(self)
        requires
            self.wf(),
        ensures
            self@.dom().finite(),
    {
        self.lemma_view_dom();
    }

    /// The number of entries of the newest table.
    pub closed spec fn newest_size(self) -> int {
        self.table_len(self.top())
    }

    /// The number of bits of the newest table's hash.
    pub closed spec fn newest_bits(self) -> usize {
        self.tables@[self.top()].hash_bits
    }

    /// Entry `k` of the newest table is free.
    pub closed spec fn newest_free(self, k: int) -> bool {
        self.entry(self.top(), k).owner == 0
    }

    /// The newest table has `2^bits` entries, is at most three quarters full
    /// and keeps a free entry, so that every probe for a slot in it ends.
    pub proof fn lemma_fill_bounds(self)
        requires
            self.wf(),
        ensures
            1 <= self.newest_bits() <= 62,
            self.newest_size() == table_size(self.newest_bits()),
            4 * self@.len() <= 3 * self.newest_size(),
            self@.len() < self.newest_size(),
            exists|k: int| 0 <= k < self.newest_size() && self.newest_free(k),
    {
        self.lemma_view_dom();
        let top = self.top();
        let s = self.tables@[top].entries@;
        assert(slots_wf(s, self.tables@[top].hash_bits));
        lemma_shift_facts(0, self.tables@[top].hash_bits as u64);
        vstd::set_lib::lemma_len_subset(self.top_ids(), self.homes@.dom());
        if forall|k: int| 0 <= k < s.len() ==> (#[trigger] s[k]).owner != 0 {
            lemma_occ_full(s, s.len() as nat);
        }
        let k = choose|k: int| 0 <= k < s.len() && !((#[trigger] s[k]).owner != 0);
        assert(self.newest_free(k));
    }

    /// The number of threads that have a value.
    pub fn thread_count(&self) -> (c: usize)
        requires
            self.wf(),
        ensures
            c == self@.len(),
    {
        proof {
            self.lemma_view_dom();
        }
        self.count
    }

    /// The value of thread `id`, if it has one; a value found in an older
    /// table moves to the newest one, which leaves the values as they are.
    pub fn get(&mut self, id: usize) -> (r: Option<&T>)
        requires
            old(self).wf(),
            id != 0,
        ensures
            final(self).wf(),
            final(self)@ == old(self)@,
            r is Some <==> old(self)@.contains_key(id),
            r matches Some(v) ==> *v == old(self)@[id],
            final(self).newest_size() == old(self).newest_size(),
    {
        match self.locate(id) {
            Some(k) => {
                let top: usize = self.tables.len() - 1;
                self.tables[top].entries[k].data.as_ref()
            },
            None => None,
        }
    }

    /// Thread `id`'s value, to change in place, if it has one; a value found
    /// in an older table moves to the newest one first. What is written
    /// through the reference becomes the thread's value.
    pub fn get_mut(&mut self, id: usize) -> (r: Option<&mut T>)
        requires
            old(self).wf(),
            id != 0,
        ensures
            r is Some <==> old(self)@.contains_key(id),
            r is None ==> final(self).wf() && final(self)@ == old(self)@,
            r matches Some(v) ==> *v == old(self)@[id],
            r matches Some(v) ==> final(self).wf(),
            r matches Some(v) ==> final(self)@ == old(self)@.insert(id, *final(v)),
            final(self).newest_size() == old(self).newest_size(),
    {
        match self.locate(id) {
            Some(k) => {
                let ghost pre = *self;
                let top: usize = self.tables.len() - 1;
                proof {
                    // What the caller writes through the reference is known
                    // only once it is done, so the invariant is shown for
                    // every value that the entry can end up holding.
                    assert forall|post: Self|
                        #![trigger post.wf()]
                        #![trigger post@]
                        #![trigger post.newest_size()]
                        post.count == pre.count && post.homes@ == pre.homes@ && post.tables@.len()
                            == pre.tables@.len() && (forall|i: int|
                            0 <= i < pre.top() ==> post.tables@[i] == pre.tables@[i])
                            && post.tables@[pre.top()].hash_bits == pre.tables@[pre.top()].hash_bits
                            && post.tables@[pre.top()].entries@[k as int].data is Some
                            && post.tables@[pre.top()].entries@ == pre.tables@[pre.top()].entries@.update(
                            k as int,
                            TableEntry { owner: id, data: post.tables@[pre.top()].entries@[k as int].data },
                        ) implies post.wf() && post@ == pre@.insert(
                            id,
                            post.tables@[pre.top()].entries@[k as int].data->0,
                        ) && post.newest_size() == pre.newest_size() by {
                        assert(pre.entry(pre.top(), k as int).owner == id);
                        Self::lemma_rewritten(
                            pre,
                            post,
                            pre.top(),
                            k as int,
                            post.tables@[pre.top()].entries@[k as int].data->0,
                        );
                    }
                }
                self.tables[top].entries[k].data.as_mut()
            },
            None => None,
        }
    }

    /// The value of thread `id`, created by `create` where it has none. A
    /// thread that has no value may be added while fewer than
    /// `capacity_limit()` threads have one.
    pub fn get_or<F: FnOnce() -> T>(&mut self, id: usize, create: F) -> (r: &T)
        requires
            old(self).wf(),
            id != 0,
            !old(self)@.contains_key(id) ==> old(self)@.len() < capacity_limit() && create.requires(()),
        ensures
            final(self).wf(),
            old(self)@.contains_key(id) ==> final(self)@ == old(self)@ && *r == old(self)@[id],
            !old(self)@.contains_key(id) ==> create.ensures((), *r) && final(self)@ == old(self)@.insert(id, *r),
            got_or(*old(self), *final(self), id, *r),
            old(self)@.contains_key(id) ==> final(self).newest_size() == old(self).newest_size(),
            !old(self)@.contains_key(id) ==> final(self).newest_size() == grown_size(
                old(self).newest_size(),
                old(self)@.len() + 1int,
            ),
    {
        match self.locate(id) {
            Some(k) => {
                let top: usize = self.tables.len() - 1;
                match self.tables[top].entries[k].data.as_ref() {
                    Some(v) => v,
                    None => vstd::pervasive::unreached(),
                }
            },
            None => {
                proof {
                    self.lemma_view_dom();
                }
                let v: T = create();
                let ghost created = v;
                let k = self.insert(id, v, true);
                let top: usize = self.tables.len() - 1;
                proof {
                    assert(self@[id] == created);
                    assert(self.entry(top as int, k as int).data == Some(created));
                }
                match self.tables[top].entries[k].data.as_ref() {
                    Some(v) => v,
                    None => vstd::pervasive::unreached(),
                }
            },
        }
    }

    /// The value of thread `id`, created by `create` where it has none; where
    /// `create` fails, its error, and no value is added. A thread that has no
    /// value may be added while fewer than `capacity_limit()` threads have one.
    pub fn get_or_try<E, F: FnOnce() -> Result<T, E>>(&mut self, id: usize, create: F) -> (r: Result<&T, E>)
        requires
            old(self).wf(),
            id != 0,
            !old(self)@.contains_key(id) ==> old(self)@.len() < capacity_limit() && create.requires(()),
        ensures
            final(self).wf(),
            old(self)@.contains_key(id) ==> final(self)@ == old(self)@,
            old(self)@.contains_key(id) ==> (r matches Ok(v) && *v == old(self)@[id]),
            !old(self)@.contains_key(id) ==> match r {
                Ok(v) => create.ensures((), Ok(*v)) && final(self)@ == old(self)@.insert(id, *v),
                Err(e) => create.ensures((), Err(e)) && final(self)@ == old(self)@,
            },
            old(self)@.contains_key(id) ==> final(self).newest_size() == old(self).newest_size(),
            !old(self)@.contains_key(id) ==> final(self).newest_size() == match r {
                Ok(_) => grown_size(old(self).newest_size(), old(self)@.len() + 1int),
                Err(_) => old(self).newest_size(),
            },
    {
        match self.locate(id) {
            Some(k) => {
                let top: usize = self.tables.len() - 1;
                match self.tables[top].entries[k].data.as_ref() {
                    Some(v) => Ok(v),
                    None => vstd::pervasive::unreached(),
                }
            },
            None => {
                proof {
                    self.lemma_view_dom();
                }
                match create() {
                    Ok(v) => {
                        let ghost created = v;
                        let k = self.insert(id, v, true);
                        let top: usize = self.tables.len() - 1;
                        proof {
                            assert(self@[id] == created);
                            assert(self.entry(top as int, k as int).data == Some(created));
                        }
                        match self.tables[top].entries[k].data.as_ref() {
                            Some(v) => Ok(v),
                            None => vstd::pervasive::unreached(),
                        }
                    },
                    Err(e) => Err(e),
                }
            },
        }
    }

    /// Removes every thread's value, leaving the table as `new` makes it.
    pub fn clear(&mut self)
        ensures
            final(self).wf(),
            final(self)@ == Map::<usize, T>::empty(),
            final(self).newest_size() == 2,
    {
        *self = ThreadLocal::new();
    }
}

/// `vals` lists the values of `m`, one per thread: `ids` names the thread of
/// each, and no thread comes twice.
pub open spec fn lists_values<T>(ids: Seq<usize>, vals: Seq<T>, m: Map<usize, T>) -> bool {
    &&& ids.len() == vals.len()
    &&& ids.no_duplicates()
    &&& forall|j: int| 0 <= j < ids.len() ==> m.contains_key(#[trigger] ids[j]) && vals[j] == m[ids[j]]
}

/// The values held by the first `n` entries of `s`, in entry order.
spec fn entry_values<T>(s: Seq<TableEntry<T>>, n: nat) -> Seq<T>
    decreases n,
{
    if n == 0 {
        Seq::empty()
    } else {
        let before = entry_values(s, (n - 1) as nat);
        match s[n - 1].data {
            Some(x) => before.push(x),
            None => before,
        }
    }
}

/// The values held by the newest `m` of `ts`, the newest table first and each
/// table in entry order.
spec fn newest_values<T>(ts: Seq<Table<T>>, m: nat) -> Seq<T>
    decreases m,
{
    if m == 0 {
        Seq::empty()
    } else {
        let t = ts[ts.len() - m];
        newest_values(ts, (m - 1) as nat) + entry_values(t.entries@, t.entries@.len())
    }
}

/// The place in the listing of the value held by entry `k` of table `t`.
spec fn slot_index<T>(ts: Seq<Table<T>>, t: int, k: int) -> int {
    newest_values(ts, (ts.len() - 1 - t) as nat).len() + entry_values(ts[t].entries@, k as nat).len() as int
}

/// The values of fewer entries come first among those of more.
proof fn lemma_entry_values_prefix<T>(s: Seq<TableEntry<T>>, m: nat, m2: nat)
    requires
        m <= m2 <= s.len(),
    ensures
        entry_values(s, m).len() <= entry_values(s, m2).len(),
        forall|j: int| 0 <= j < entry_values(s, m).len() ==> #[trigger] entry_values(s, m2)[j] == entry_values(s, m)[j],
    decreases m2,
{
    if m2 > m {
        lemma_entry_values_prefix(s, m, (m2 - 1) as nat);
    }
}

/// The value of entry `k` stands in the listing of its table after the
/// values of the entries before it.
proof fn lemma_entry_values_at<T>(s: Seq<TableEntry<T>>, k: int)
    requires
        0 <= k < s.len(),
        s[k].data is Some,
    ensures
        entry_values(s, k as nat).len() < entry_values(s, s.len()).len(),
        entry_values(s, s.len())[entry_values(s, k as nat).len() as int] == s[k].data->0,
{
    lemma_entry_values_prefix(s, (k + 1) as nat, s.len());
}

/// Writing a new value into an entry that holds one changes the listing of
/// its table at that value's place only.
proof fn lemma_entry_values_update<T>(s: Seq<TableEntry<T>>, k: int, x: T, m: nat)
    requires
        0 <= k < s.len(),
        s[k].data is Some,
        m <= s.len(),
    ensures
        entry_values(s.update(k, TableEntry { owner: s[k].owner, data: Some(x) }), m) == if m > k {
            entry_values(s, m).update(entry_values(s, k as nat).len() as int, x)
        } else {
            entry_values(s, m)
        },
    decreases m,
{
    let s2 = s.update(k, TableEntry { owner: s[k].owner, data: Some(x) });
    if m > 0 {
        lemma_entry_values_update(s, k, x, (m - 1) as nat);
        let p = entry_values(s, k as nat).len() as int;
        if m - 1 == k {
            assert(entry_values(s2, m) =~= entry_values(s, m).update(p, x));
        } else if m - 1 > k {
            lemma_entry_values_prefix(s, (k + 1) as nat, (m - 1) as nat);
            assert(entry_values(s2, m) =~= entry_values(s, m).update(p, x));
        }
    }
}

/// The values of fewer tables come first among those of more.
proof fn lemma_newest_values_prefix<T>(ts: Seq<Table<T>>, m: nat, m2: nat)
    requires
        m <= m2 <= ts.len(),
    ensures
        newest_values(ts, m).len() <= newest_values(ts, m2).len(),
        forall|j: int| 0 <= j < newest_values(ts, m).len() ==> #[trigger] newest_values(ts, m2)[j] == newest_values(ts, m)[j],
    decreases m2,
{
    if m2 > m {
        lemma_newest_values_prefix(ts, m, (m2 - 1) as nat);
    }
}

/// The value of entry `k` of table `t` stands at its place in the listing.
proof fn lemma_slot_index<T>(ts: Seq<Table<T>>, t: int, k: int)
    requires
        0 <= t < ts.len(),
        0 <= k < ts[t].entries@.len(),
        ts[t].entries@[k].data is Some,
    ensures
        0 <= slot_index(ts, t, k) < newest_values(ts, ts.len()).len(),
        newest_values(ts, ts.len())[slot_index(ts, t, k)] == ts[t].entries@[k].data->0,
{
    let q = (ts.len() - 1 - t) as nat;
    lemma_entry_values_at(ts[t].entries@, k);
    lemma_newest_values_prefix(ts, q + 1, ts.len());
    assert(ts[ts.len() - (q + 1)] == ts[t]);
}

/// Writing a new value into entry `k` of table `t` changes the listing at
/// that entry's place only.
proof fn lemma_newest_values_update<T>(ts: Seq<Table<T>>, ts2: Seq<Table<T>>, t: int, k: int, x: T, m: nat)
    requires
        0 <= t < ts.len(),
        0 <= k < ts[t].entries@.len(),
        ts[t].entries@[k].data is Some,
        ts2.len() == ts.len(),
        forall|u: int| 0 <= u < ts.len() && u != t ==> ts2[u] == ts[u],
        ts2[t].entries@ == ts[t].entries@.update(k, TableEntry { owner: ts[t].entries@[k].owner, data: Some(x) }),
        m <= ts.len(),
    ensures
        newest_values(ts2, m) == if m > ts.len() - 1 - t {
            newest_values(ts, m).update(slot_index(ts, t, k), x)
        } else {
            newest_values(ts, m)
        },
    decreases m,
{
    if m > 0 {
        lemma_newest_values_update(ts, ts2, t, k, x, (m - 1) as nat);
        let u = ts.len() - m;
        let s = ts[t].entries@;
        let q = (ts.len() - 1 - t) as nat;
        if u == t {
            lemma_entry_values_update(s, k, x, s.len());
            lemma_entry_values_at(s, k);
            assert(newest_values(ts2, m) =~= newest_values(ts, m).update(slot_index(ts, t, k), x));
        } else {
            assert(ts2[u] == ts[u]);
            if m > ts.len() - 1 - t {
                lemma_entry_values_at(s, k);
                lemma_newest_values_prefix(ts, q + 1, (m - 1) as nat);
                assert(ts[ts.len() - (q + 1)] == ts[t]);
                assert(newest_values(ts2, m) =~= newest_values(ts, m).update(slot_index(ts, t, k), x));
            }
        }
    }
}

impl<T> ThreadLocal<T> {
    /// The values in the order the tables hold them: the newest table first,
    /// each table from its first entry to its last.
    pub closed spec fn listing(self) -> Seq<T> {
        newest_values(self.tables@, self.tables@.len())
    }

    /// Every thread's value, moved out of the table: the newest table first,
    /// each table from its first entry to its last.
    pub fn into_values(self) -> (v: Vec<T>)
        requires
            self.wf(),
        ensures
            v@ == self.listing(),
            v@.len() == self@.len(),
            exists|ids: Seq<usize>| lists_values(ids, v@, self@),
    {
        let ghost orig = self;
        let ghost m = self@;
        proof {
            orig.lemma_view_dom();
        }
        let mut this = self;
        let mut out: Vec<T> = Vec::new();
        let ghost mut ids: Seq<usize> = Seq::empty();
        let n: usize = this.tables.len();
        let mut i: usize = n;
        while i > 0
            invariant
                orig.wf(),
                m == orig@,
                n == orig.tables@.len(),
                this.tables@.len() == n,
                i <= n,
                forall|t: int| 0 <= t < i ==> #[trigger] this.tables@[t] == orig.tables@[t],
                lists_values(ids, out@, m),
                out@ == newest_values(orig.tables@, (n - i) as nat),
                forall|j: int| 0 <= j < ids.len() ==> orig.homes@[#[trigger] ids[j]].0 >= i,
                forall|id: usize|
                    #[trigger] orig.homes@.contains_key(id) && orig.homes@[id].0 >= i ==> ids.contains(id),
            decreases i,
        {
            i = i - 1;
            let len: usize = this.tables[i].entries.len();
            let ghost before_i = this.tables@[i as int];
            let mut k: usize = 0;
            while k < len
                invariant
                    orig.wf(),
                    m == orig@,
                    n == orig.tables@.len(),
                    this.tables@.len() == n,
                    i < n,
                    len == orig.table_len(i as int),
                    before_i == orig.tables@[i as int],
                    k <= len,
                    forall|t: int| 0 <= t < i ==> #[trigger] this.tables@[t] == orig.tables@[t],
                    this.tables@[i as int].entries@.len() == len,
                    forall|kk: int| k <= kk < len ==> #[trigger] this.tables@[i as int].entries@[kk] == orig.entry(i as int, kk),
                    lists_values(ids, out@, m),
                    out@ == newest_values(orig.tables@, (n - i - 1) as nat) + entry_values(
                        before_i.entries@,
                        k as nat,
                    ),
                    forall|j: int|
                        0 <= j < ids.len() ==> orig.homes@[#[trigger] ids[j]].0 > i || (orig.homes@[ids[j]].0 == i
                            && orig.homes@[ids[j]].1 < k),
                    forall|id: usize|
                        #[trigger] orig.homes@.contains_key(id) && (orig.homes@[id].0 > i || (orig.homes@[id].0 == i
                            && orig.homes@[id].1 < k)) ==> ids.contains(id),
                decreases len - k,
            {
                let owner: usize = this.tables[i].entries[k].owner;
                let ghost ids_before = ids;
                let ghost out_before = out@;
                let taken = this.tables[i].entries[k].data.take();
                match taken {
                    Some(x) => {
                        proof {
                            assert(orig.entry(i as int, k as int).data is Some);
                            assert(orig.homes@[owner] == (i as int, k as int));
                            assert(!ids.contains(owner)) by {
                                if ids.contains(owner) {
                                    let j = choose|j: int| 0 <= j < ids.len() && ids[j] == owner;
                                    assert(orig.homes@[ids[j]].0 > i || (orig.homes@[ids[j]].0 == i
                                        && orig.homes@[ids[j]].1 < k));
                                }
                            }
                            ids = ids.push(owner);
                            assert(ids.no_duplicates());
                        }
                        out.push(x);
                        proof {
                            let prev = newest_values(orig.tables@, (n - i - 1) as nat);
                            let es = entry_values(before_i.entries@, k as nat);
                            assert(out@ =~= prev + es.push(x));
                        }
                    },
                    None => {
                        proof {
                            if orig.homes@.contains_key(owner) && orig.homes@[owner] == (i as int, k as int) {
                                assert(orig.entry(i as int, k as int).data is Some);
                            }
                        }
                    },
                }
                proof {
                    assert forall|id: usize|
                        #[trigger] orig.homes@.contains_key(id) && (orig.homes@[id].0 > i || (orig.homes@[id].0 == i
                            && orig.homes@[id].1 < k + 1)) implies ids.contains(id) by {
                        if orig.homes@[id] == (i as int, k as int) {
                            assert(orig.entry(i as int, k as int).owner == id);
                            assert(orig.entry(i as int, k as int).data is Some);
                            assert(ids.len() == ids_before.len() + 1);
                            assert(ids[ids.len() - 1] == id);
                        } else {
                            assert(ids_before.contains(id));
                            let j = choose|j: int| 0 <= j < ids_before.len() && ids_before[j] == id;
                            assert(ids[j] == id);
                        }
                    }
                }
                k = k + 1;
            }
            proof {
                assert(before_i == orig.tables@[orig.tables@.len() - (n - i)]);
            }
        }
        proof {
            assert(ids.to_set() =~= orig.homes@.dom()) by {
                assert forall|id: usize| orig.homes@.dom().contains(id) implies ids.to_set().contains(id) by {
                    assert(ids.contains(id));
                }
            }
            ids.unique_seq_to_set();
        }
        out
    }
}

impl<T> ThreadLocal<T> {
    /// The table and entry holding the `n`-th value of the listing, if there
    /// are more than `n` values.
    fn find_nth(&self, n: usize) -> (r: Option<(usize, usize)>)
        requires
            self.wf(),
        ensures
            r is Some <==> n < self@.len(),
            r matches Some((t, k)) ==> t < self.tables@.len() && k < self.table_len(t as int) && self.entry(
                t as int,
                k as int,
            ).data is Some && slot_index(self.tables@, t as int, k as int) == n,
    {
        proof {
            self.lemma_view_dom();
        }
        let ghost ts = self.tables@;
        let ghost homes = self.homes@;
        let ghost mut ids: Seq<usize> = Seq::empty();
        let n_tables: usize = self.tables.len();
        let mut seen: usize = 0;
        let mut i: usize = n_tables;
        while i > 0
            invariant
                self.wf(),
                ts == self.tables@,
                homes == self.homes@,
                homes.dom().finite(),
                homes.dom().len() == self@.len(),
                n_tables == ts.len(),
                i <= n_tables,
                seen <= n,
                seen == newest_values(ts, (n_tables - i) as nat).len(),
                ids.len() == seen,
                ids.no_duplicates(),
                forall|j: int| 0 <= j < ids.len() ==> homes.contains_key(#[trigger] ids[j]) && homes[ids[j]].0 >= i,
                forall|id: usize| #[trigger] homes.contains_key(id) && homes[id].0 >= i ==> ids.contains(id),
            decreases i,
        {
            i = i - 1;
            let len: usize = self.tables[i].entries.len();
            let ghost s = ts[i as int].entries@;
            let mut k: usize = 0;
            while k < len
                invariant
                    self.wf(),
                    ts == self.tables@,
                    homes == self.homes@,
                    homes.dom().finite(),
                    homes.dom().len() == self@.len(),
                    n_tables == ts.len(),
                    i < n_tables,
                    s == ts[i as int].entries@,
                    len == s.len(),
                    k <= len,
                    seen <= n,
                    seen == newest_values(ts, (n_tables - 1 - i) as nat).len() + entry_values(s, k as nat).len(),
                    ids.len() == seen,
                    ids.no_duplicates(),
                    forall|j: int|
                        0 <= j < ids.len() ==> homes.contains_key(#[trigger] ids[j]) && (homes[ids[j]].0 > i || (
                        homes[ids[j]].0 == i && homes[ids[j]].1 < k)),
                    forall|id: usize|
                        #[trigger] homes.contains_key(id) && (homes[id].0 > i || (homes[id].0 == i && homes[id].1
                            < k)) ==> ids.contains(id),
                decreases len - k,
            {
                if self.tables[i].entries[k].data.is_some() {
                    let owner: usize = self.tables[i].entries[k].owner;
                    proof {
                        assert(self.entry(i as int, k as int).data is Some);
                        assert(homes[owner] == (i as int, k as int));
                        assert(!ids.contains(owner)) by {
                            if ids.contains(owner) {
                                let j = choose|j: int| 0 <= j < ids.len() && ids[j] == owner;
                                assert(homes[ids[j]].0 > i || (homes[ids[j]].0 == i && homes[ids[j]].1 < k));
                            }
                        }
                    }
                    let ghost ids_before = ids;
                    proof {
                        ids = ids.push(owner);
                        assert(ids.no_duplicates());
                        assert(ids.to_set().subset_of(homes.dom())) by {
                            assert forall|x: usize| ids.to_set().contains(x) implies homes.dom().contains(x) by {
                                let j = choose|j: int| 0 <= j < ids.len() && ids[j] == x;
                                if j < ids_before.len() {
                                    assert(homes.contains_key(ids_before[j]));
                                }
                            }
                        }
                        ids.unique_seq_to_set();
                        vstd::set_lib::lemma_len_subset(ids.to_set(), homes.dom());
                    }
                    if seen == n {
                        return Some((i, k));
                    }
                    seen = seen + 1;
                    proof {
                        assert forall|id: usize|
                            #[trigger] homes.contains_key(id) && (homes[id].0 > i || (homes[id].0 == i
                                && homes[id].1 < k + 1)) implies ids.contains(id) by {
                            if homes[id] == (i as int, k as int) {
                                assert(self.entry(i as int, k as int).owner == id);
                                assert(ids[ids.len() - 1] == id);
                            } else {
                                assert(ids_before.contains(id));
                                let j = choose|j: int| 0 <= j < ids_before.len() && ids_before[j] == id;
                                assert(ids[j] == id);
                            }
                        }
                    }
                } else {
                    proof {
                        assert forall|id: usize|
                            #[trigger] homes.contains_key(id) && (homes[id].0 > i || (homes[id].0 == i
                                && homes[id].1 < k + 1)) implies ids.contains(id) by {
                            if homes[id] == (i as int, k as int) {
                                assert(self.entry(i as int, k as int).data is Some);
                            }
                        }
                    }
                }
                k = k + 1;
            }
            proof {
                assert(ts[ts.len() - (n_tables - i)] == ts[i as int]);
            }
        }
        proof {
            assert(ids.to_set() =~= homes.dom()) by {
                assert forall|id: usize| homes.dom().contains(id) implies ids.to_set().contains(id) by {
                    assert(ids.contains(id));
                }
            }
            ids.unique_seq_to_set();
        }
        None
    }

    /// The `n`-th value in the order `into_values` lists them, to change in
    /// place, if there are more than `n` values. Asking for each `n` below
    /// `thread_count()` visits every thread's value once; what is written
    /// through the reference becomes the value of the thread that owns it.
    pub fn nth_mut(&mut self, n: usize) -> (r: Option<&mut T>)
        requires
            old(self).wf(),
        ensures
            final(self).wf(),
            r is Some <==> n < old(self)@.len(),
            r is None ==> *final(self) == *old(self),
            r matches Some(v) ==> *v == old(self).listing()[n as int],
            r matches Some(v) ==> final(self).listing() == old(self).listing().update(n as int, *final(v)),
            r matches Some(v) ==> exists|id: usize|
                old(self)@.contains_key(id) && old(self)@[id] == *v && final(self)@ == old(self)@.insert(
                    id,
                    *final(v),
                ),
            final(self).newest_size() == old(self).newest_size(),
    {
        match self.find_nth(n) {
            Some((t, k)) => {
                let ghost pre = *self;
                proof {
                    lemma_slot_index(pre.tables@, t as int, k as int);
                    let id = pre.entry(t as int, k as int).owner;
                    assert(pre.homes@[id] == (t as int, k as int));
                    assert(pre@[id] == pre.entry(t as int, k as int).data->0);
                    // What the caller writes through the reference is known
                    // only once it is done, so the invariant is shown for
                    // every value that the entry can end up holding.
                    assert forall|post: Self|
                        #![trigger post.wf()]
                        #![trigger post@]
                        #![trigger post.listing()]
                        #![trigger post.newest_size()]
                        post.count == pre.count && post.homes@ == pre.homes@ && post.tables@.len()
                            == pre.tables@.len() && (forall|i: int|
                            0 <= i < pre.tables@.len() && i != t ==> post.tables@[i] == pre.tables@[i])
                            && post.tables@[t as int].hash_bits == pre.tables@[t as int].hash_bits
                            && post.tables@[t as int].entries@[k as int].data is Some
                            && post.tables@[t as int].entries@ == pre.tables@[t as int].entries@.update(
                            k as int,
                            TableEntry { owner: id, data: post.tables@[t as int].entries@[k as int].data },
                        ) implies post.wf() && post@ == pre@.insert(
                            id,
                            post.tables@[t as int].entries@[k as int].data->0,
                        ) && post.listing() == pre.listing().update(
                            n as int,
                            post.tables@[t as int].entries@[k as int].data->0,
                        ) && post.newest_size() == pre.newest_size() by {
                        Self::lemma_rewritten(
                            pre,
                            post,
                            t as int,
                            k as int,
                            post.tables@[t as int].entries@[k as int].data->0,
                        );
                    }
                }
                self.tables[t].entries[k].data.as_mut()
            },
            None => None,
        }
    }
}

impl<T: Default> ThreadLocal<T> {
    /// The value of thread `id`, created by `T::default` where it has none. A
    /// thread that has no value may be added while fewer than
    /// `capacity_limit()` threads have one.
    pub fn get_or_default(&mut self, id: usize) -> (r: &T)
        requires
            old(self).wf(),
            id != 0,
            !old(self)@.contains_key(id) ==> old(self)@.len() < capacity_limit(),
        ensures
            final(self).wf(),
            old(self)@.contains_key(id) ==> final(self)@ == old(self)@ && *r == old(self)@[id],
            !old(self)@.contains_key(id) ==> call_ensures(T::default, (), *r) && final(self)@ == old(
                self,
            )@.insert(id, *r),
            got_or(*old(self), *final(self), id, *r),
            old(self)@.contains_key(id) ==> final(self).newest_size() == old(self).newest_size(),
            !old(self)@.contains_key(id) ==> final(self).newest_size() == grown_size(
                old(self).newest_size(),
                old(self)@.len() + 1int,
            ),
    {
        self.get_or(id, T::default)
    }
}

impl<T> Default for ThreadLocal<T> {
    fn default() -> (t: ThreadLocal<T>)
        ensures
            t.wf(),
            t@ == Map::<usize, T>::empty(),
            t.newest_size() == 2,
    {
        ThreadLocal::new()
    }
}

} // verus!

verus! {

/// What `get_or` leaves when it answers `r` for thread `id`: a thread that had
/// a value keeps it and gets it back, any other thread gets `r` stored.
pub open spec fn got_or<T>(before: ThreadLocal<T>, after: ThreadLocal<T>, id: usize, r: T) -> bool {
    &&& after.wf()
    &&& before@.contains_key(id) ==> after@ == before@ && r == before@[id]
    &&& !before@.contains_key(id) ==> after@ == before@.insert(id, r)
}

/// After a thread's value is created or found, asking again finds that
/// value: where `get_or` answered `r` for `id`, `get(id)` answers `Some(r)`.
pub proof fn law_get_after_get_or<T>(before: ThreadLocal<T>, after: ThreadLocal<T>, id: usize, r: T)
    requires
        before.wf(),
        id != 0,
        got_or(before, after, id, r),
    ensures
        after.wf(),
        after@.contains_key(id),
        after@[id] == r,
{
}

/// Creating or finding one thread's value leaves every other thread's
/// value as it was, and adds at most the one thread.
pub proof fn law_values_are_per_thread<T>(
    before: ThreadLocal<T>,
    after: ThreadLocal<T>,
    id: usize,
    r: T,
    other: usize,
)
    requires
        before.wf(),
        id != 0,
        got_or(before, after, id, r),
        other != id,
    ensures
        after@.contains_key(other) == before@.contains_key(other),
        before@.contains_key(other) ==> after@[other] == before@[other],
        after@.len() == before@.len() + (if before@.contains_key(id) { 0int } else { 1int }),
{
    before.lemma_len_finite();
}

/// A cleared table holds no value for any thread and has room for one: the
/// next `get_or` for any thread calls `create` and stores what it returns.
pub proof fn law_cleared_holds_nothing<T>(t: ThreadLocal<T>, id: usize)
    requires
        t.wf(),
        t@ == Map::<usize, T>::empty(),
    ensures
        !t@.contains_key(id),
        t@.len() == 0,
        t@.len() < capacity_limit(),
{
}

} // verus!

