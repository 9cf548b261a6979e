//! Exact memory accounting for the mbuf pools.
//!
//! The mbuf pools are the largest single allocation the runtime makes. The figures here come from
//! the pools themselves rather than from the configuration, because the two disagree: the data room
//! of a pool is floored, so a pool for a 64-byte split header is exactly as large as one for a
//! full-sized frame.

use crate::ratio::Ratio;
use crate::text;
use vstd::prelude::*;

verus! {

/// What one pool costs, and how much of it is in use.
#[derive(Debug, Clone)]
pub struct MempoolStats {
    pub name: String,
    pub socket_id: i32,
    /// Objects requested at creation.
    pub size: u32,
    /// Objects actually populated.
    pub populated_size: u32,
    /// Per-object bytes, including the pool's own per-object header and trailer.
    pub obj_bytes: u32,
    /// Bytes the pool holds, summed over its memory chunks. Generally above `obj_bytes * size`,
    /// because an object may not straddle a page.
    pub allocated_bytes: u64,
    pub nb_mem_chunks: u32,
    /// Per-lcore cache size. Cached objects count as in use even while idle.
    pub cache_size: u32,
    /// Objects currently available.
    pub avail: u32,
    /// Objects currently held.
    pub in_use: u32,
}

/// What a pool says of itself.
#[derive(Debug)]
pub struct RawPool {
    pub name: String,
    pub socket_id: i32,
    pub size: u32,
    pub populated_size: u32,
    pub header_size: u32,
    pub elt_size: u32,
    pub trailer_size: u32,
    /// The lengths of its memory chunks.
    pub chunks: Vec<u64>,
    pub nb_mem_chunks: u32,
    pub cache_size: u32,
    pub avail: u32,
    pub in_use: u32,
}

/// Sum of the lengths.
pub open spec fn sum_of(lens: Seq<u64>) -> nat
    decreases lens.len(),
{
    if lens.len() == 0 {
        0
    } else {
        sum_of(lens.drop_last()) + lens.last() as nat
    }
}

impl RawPool {
    /// Bytes per object.
    pub open spec fn object(self) -> int {
        self.header_size + self.elt_size + self.trailer_size
    }

    /// The object size and the sum of the chunks fit their fields.
    pub open spec fn fits(self) -> bool {
        self.object() <= u32::MAX && sum_of(self.chunks@) <= u64::MAX
    }

    /// The pool's accounting.
    pub open spec fn stats(self) -> MempoolStats {
        MempoolStats {
            name: self.name,
            socket_id: self.socket_id,
            size: self.size,
            populated_size: self.populated_size,
            obj_bytes: self.object() as u32,
            allocated_bytes: sum_of(self.chunks@) as u64,
            nb_mem_chunks: self.nb_mem_chunks,
            cache_size: self.cache_size,
            avail: self.avail,
            in_use: self.in_use,
        }
    }

    /// Whether the object size and the sum of the chunks fit their fields.
    pub fn can_account(&self) -> (fits: bool)
        ensures
            fits == self.fits(),
    {
        let object: u64 = self.header_size as u64 + self.elt_size as u64 + self.trailer_size as u64;
        object <= 0xffff_ffff && checked_sum(&self.chunks).is_some()
    }
}

fn checked_sum(lens: &Vec<u64>) -> (sum: Option<u64>)
    ensures
        sum == (if sum_of(lens@) <= u64::MAX {
            Some(sum_of(lens@) as u64)
        } else {
            None
        }),
{
    let mut total: u64 = 0;
    let mut i: usize = 0;
    while i < lens.len()
        invariant
            i <= lens@.len(),
            total == sum_of(lens@.take(i as int)),
        decreases lens@.len() - i,
    {
        proof {
            assert(lens@.take(i + 1).drop_last() =~= lens@.take(i as int));
            lemma_sum_grows(lens@, i + 1);
        }
        match total.checked_add(lens[i]) {
            Some(more) => {
                total = more;
            },
            None => {
                return None;
            },
        }
        i = i + 1;
    }
    proof {
        assert(lens@.take(i as int) =~= lens@);
    }
    Some(total)
}

proof fn lemma_sum_grows(lens: Seq<u64>, i: int)
    requires
        0 <= i <= lens.len(),
    ensures
        sum_of(lens.take(i)) <= sum_of(lens),
    decreases lens.len() - i,
{
    if i < lens.len() {
        lemma_sum_grows(lens, i + 1);
        assert(lens.take(i + 1).drop_last() =~= lens.take(i));
    } else {
        assert(lens.take(i) =~= lens);
    }
}

impl MempoolStats {
    /// Objects in use over all objects.
    pub open spec fn used_share(self) -> Ratio {
        Ratio::exact(self.in_use as int, self.avail + self.in_use)
    }

    /// Bytes of the objects in use.
    pub open spec fn used_bytes(self) -> int {
        self.in_use * self.obj_bytes
    }

    /// Fraction of the pool currently in use.
    pub fn utilisation(&self) -> (r: Ratio)
        ensures
            r == Ratio::exact(self.in_use as int, self.avail + self.in_use),
            r == self.used_share(),
    {
        Ratio::of(self.in_use as u128, self.avail as u128 + self.in_use as u128)
    }

    /// Bytes currently in use.
    pub fn in_use_bytes(&self) -> (bytes: u64)
        ensures
            bytes == self.in_use * self.obj_bytes,
            bytes == self.used_bytes(),
    {
        times(self.in_use, self.obj_bytes)
    }
}

impl Default for MempoolStats {
    fn default() -> (stats: MempoolStats)
        ensures
            stats.name@ == Seq::<char>::empty(),
            stats == (MempoolStats {
                name: stats.name,
                socket_id: 0,
                size: 0,
                populated_size: 0,
                obj_bytes: 0,
                allocated_bytes: 0,
                nb_mem_chunks: 0,
                cache_size: 0,
                avail: 0,
                in_use: 0,
            }),
    {
        let name = String::new();
        proof {
            assert(name@ =~= Seq::empty());
        }
        MempoolStats {
            name,
            socket_id: 0,
            size: 0,
            populated_size: 0,
            obj_bytes: 0,
            allocated_bytes: 0,
            nb_mem_chunks: 0,
            cache_size: 0,
            avail: 0,
            in_use: 0,
        }
    }
}

fn times(a: u32, b: u32) -> (product: u64)
    ensures
        product == a * b,
{
    proof {
        assert(0 <= a * b <= 0xffff_ffff * 0xffff_ffff) by (nonlinear_arith)
            requires
                0 <= a <= 0xffff_ffff,
                0 <= b <= 0xffff_ffff,
        ;
    }
    a as u64 * b as u64
}

/// The bytes that each pool holds.
pub open spec fn allocations(stats: Seq<MempoolStats>) -> Seq<u64> {
    stats.map_values(|s: MempoolStats| s.allocated_bytes)
}

/// Bytes that the pools hold in total, or `None` if they do not fit in 64 bits.
pub fn checked_total_allocated_bytes(stats: &[MempoolStats]) -> (bytes: Option<u64>)
    ensures
        bytes == (if sum_of(allocations(stats@)) <= u64::MAX {
            Some(sum_of(allocations(stats@)) as u64)
        } else {
            None
        }),
{
    let mut lens: Vec<u64> = Vec::new();
    let mut i: usize = 0;
    while i < stats.len()
        invariant
            i <= stats@.len(),
            lens@ == allocations(stats@).take(i as int),
        decreases stats@.len() - i,
    {
        lens.push(stats[i].allocated_bytes);
        proof {
            assert(allocations(stats@).take(i + 1) =~= allocations(stats@).take(i as int).push(
                stats@[i as int].allocated_bytes,
            ));
        }
        i = i + 1;
    }
    proof {
        assert(allocations(stats@).take(i as int) =~= allocations(stats@));
    }
    checked_sum(&lens)
}

/// Bytes that the pools hold in total: what the runtime costs in memory.
pub fn total_allocated_bytes(stats: &[MempoolStats]) -> (bytes: u64)
    requires
        sum_of(allocations(stats@)) <= u64::MAX,
    ensures
        bytes == sum_of(allocations(stats@)),
{
    match checked_total_allocated_bytes(stats) {
        Some(bytes) => bytes,
        None => 0,
    }
}

fn stats_from_raw(raw: RawPool) -> (stats: MempoolStats)
    requires
        raw.fits(),
    ensures
        stats == raw.stats(),
{
    let allocated_bytes: u64 = match checked_sum(&raw.chunks) {
        Some(bytes) => bytes,
        None => 0,
    };
    MempoolStats {
        name: raw.name,
        socket_id: raw.socket_id,
        size: raw.size,
        populated_size: raw.populated_size,
        obj_bytes: raw.header_size + raw.elt_size + raw.trailer_size,
        allocated_bytes,
        nb_mem_chunks: raw.nb_mem_chunks,
        cache_size: raw.cache_size,
        avail: raw.avail,
        in_use: raw.in_use,
    }
}

/// Where a pool called `name` goes in a list in name order: after those that do not come later.
pub open spec fn place(list: Seq<MempoolStats>, name: Seq<char>) -> nat
    decreases list.len(),
{
    if list.len() == 0 {
        0
    } else if text::comes_before(name, list.last().name@) {
        place(list.drop_last(), name)
    } else {
        list.len()
    }
}

/// The pools in name order, those of one name in the order given.
pub open spec fn in_name_order(pools: Seq<MempoolStats>) -> Seq<MempoolStats>
    decreases pools.len(),
{
    if pools.len() == 0 {
        Seq::empty()
    } else {
        let list = in_name_order(pools.drop_last());
        list.insert(place(list, pools.last().name@) as int, pools.last())
    }
}

/// The accounting of each pool.
pub open spec fn all_stats(raws: Seq<RawPool>) -> Seq<MempoolStats> {
    raws.map_values(|raw: RawPool| raw.stats())
}

proof fn lemma_place(list: Seq<MempoolStats>, name: Seq<char>)
    ensures
        place(list, name) <= list.len(),
    decreases list.len(),
{
    if list.len() > 0 {
        lemma_place(list.drop_last(), name);
    }
}

/// Accounting for every pool, in name order.
pub fn all_mempool_stats(raws: Vec<RawPool>) -> (list: Vec<MempoolStats>)
    requires
        forall|i: int| 0 <= i < raws@.len() ==> (#[trigger] raws@[i]).fits(),
    ensures
        list@ == in_name_order(all_stats(raws@)),
{
    let ghost all = raws@;
    let mut rest = raws;
    let mut list: Vec<MempoolStats> = Vec::new();
    let ghost mut done: int = 0;
    proof {
        assert(all_stats(all.take(0)) =~= Seq::empty());
    }
    while rest.len() > 0
        invariant
            0 <= done <= all.len(),
            rest@ == all.skip(done),
            forall|i: int| 0 <= i < all.len() ==> (#[trigger] all[i]).fits(),
            list@ == in_name_order(all_stats(all.take(done))),
        decreases rest@.len(),
    {
        let raw = rest.remove(0);
        proof {
            assert(raw == all[done]);
            assert(rest@ =~= all.skip(done + 1));
        }
        let stats = stats_from_raw(raw);
        let at: usize = place_in(&list, &text::chars_of(stats.name.as_str()));
        proof {
            lemma_place(list@, stats.name@);
            assert(all_stats(all.take(done + 1)).drop_last() =~= all_stats(all.take(done)));
            assert(all_stats(all.take(done + 1)).last() == stats);
        }
        list.insert(at, stats);
        proof {
            done = done + 1;
        }
    }
    proof {
        assert(all.take(done) =~= all);
    }
    list
}

fn place_in(list: &Vec<MempoolStats>, name: &[char]) -> (at: usize)
    ensures
        at == place(list@, name@),
        at <= list@.len(),
{
    let mut at: usize = list.len();
    proof {
        assert(list@.take(at as int) =~= list@);
    }
    while at > 0 && text::is_before(name, &text::chars_of(list[at - 1].name.as_str()))
        invariant
            at <= list@.len(),
            place(list@, name@) == place(list@.take(at as int), name@),
        decreases at,
    {
        proof {
            assert(list@.take(at as int).drop_last() =~= list@.take(at - 1));
        }
        at = at - 1;
    }
    at
}

/// Accounting for one pool, if there is one.
pub fn mempool_stats(found: Option<RawPool>) -> (stats: Option<MempoolStats>)
    requires
        found matches Some(raw) ==> raw.fits(),
    ensures
        stats == (match found {
            Some(raw) => Some(raw.stats()),
            None => None,
        }),
{
    match found {
        Some(raw) => Some(stats_from_raw(raw)),
        None => None,
    }
}

/// The list is in name order, and it holds the same pools.
pub proof fn law_pools_are_in_name_order(pools: Seq<MempoolStats>)
    ensures
        in_name_order(pools).to_multiset() == pools.to_multiset(),
        forall|i: int, j: int|
            0 <= i < j < in_name_order(pools).len() ==> !text::comes_before(
                (#[trigger] in_name_order(pools)[j]).name@,
                (#[trigger] in_name_order(pools)[i]).name@,
            ),
    decreases pools.len(),
{
    broadcast use vstd::seq_lib::group_to_multiset_ensures;

    if pools.len() > 0 {
        let init = pools.drop_last();
        let x = pools.last();
        law_pools_are_in_name_order(init);
        let list = in_name_order(init);
        let after = in_name_order(pools);
        let at = place(list, x.name@) as int;
        lemma_place(list, x.name@);
        lemma_insert_multiset(list, at, x);
        assert(pools =~= init.push(x));
        assert forall|i: int, j: int| 0 <= i < j < after.len() implies !text::comes_before(
            (#[trigger] after[j]).name@,
            (#[trigger] after[i]).name@,
        ) by {
            lemma_around(list, x.name@);
            if i == at {
                assert(after[j] == list[j - 1]);
                text::law_dictionary_order(x.name@, list[j - 1].name@, x.name@);
            } else if j == at {
                assert(after[i] == list[i]);
            } else if i < at && j > at {
                assert(after[i] == list[i]);
                assert(after[j] == list[j - 1]);
            } else if i > at {
                assert(after[i] == list[i - 1]);
                assert(after[j] == list[j - 1]);
            } else {
                assert(after[i] == list[i]);
                assert(after[j] == list[j]);
            }
        }
    } else {
        assert(in_name_order(pools) =~= pools);
    }
}

proof fn lemma_insert_multiset(list: Seq<MempoolStats>, at: int, x: MempoolStats)
    requires
        0 <= at <= list.len(),
    ensures
        list.insert(at, x).to_multiset() == list.to_multiset().insert(x),
{
    broadcast use vstd::seq_lib::group_to_multiset_ensures;

}

/// In a list in name order, the pools from a name's place on come later, and those before it do
/// not.
proof fn lemma_around(list: Seq<MempoolStats>, name: Seq<char>)
    requires
        forall|i: int, j: int|
            0 <= i < j < list.len() ==> !text::comes_before(
                (#[trigger] list[j]).name@,
                (#[trigger] list[i]).name@,
            ),
    ensures
        place(list, name) <= list.len(),
        forall|i: int|
            0 <= i < place(list, name) ==> !text::comes_before(
                name,
                (#[trigger] list[i]).name@,
            ),
        forall|i: int|
            place(list, name) <= i < list.len() ==> text::comes_before(
                name,
                (#[trigger] list[i]).name@,
            ),
    decreases list.len(),
{
    if list.len() > 0 {
        let last = list.last();
        if text::comes_before(name, last.name@) {
            let init = list.drop_last();
            assert forall|i: int, j: int| 0 <= i < j < init.len() implies !text::comes_before(
                (#[trigger] init[j]).name@,
                (#[trigger] init[i]).name@,
            ) by {
                assert(init[i] == list[i]);
                assert(init[j] == list[j]);
            }
            lemma_around(init, name);
            assert forall|i: int| 0 <= i < place(list, name) implies !text::comes_before(
                name,
                (#[trigger] list[i]).name@,
            ) by {
                assert(init[i] == list[i]);
            }
            assert forall|i: int| place(list, name) <= i < list.len() implies text::comes_before(
                name,
                (#[trigger] list[i]).name@,
            ) by {
                if i < init.len() {
                    assert(init[i] == list[i]);
                }
            }
        } else {
            assert forall|i: int| 0 <= i < list.len() implies !text::comes_before(
                name,
                (#[trigger] list[i]).name@,
            ) by {
                if i < list.len() - 1 {
                    assert(list[list.len() - 1] == last);
                    text::law_dictionary_order(name, list[i].name@, last.name@);
                    text::law_dictionary_order(list[i].name@, last.name@, name);
                }
            }
        }
    }
}

/// Peak and mean occupancy of one pool, accumulated across the run.
#[derive(Debug, Clone)]
pub struct MempoolHighWater {
    pub name: String,
    /// Largest number of objects in use that was observed.
    pub peak_in_use: u32,
    /// The same in bytes.
    pub peak_in_use_bytes: u64,
    /// Peak as a fraction of the pool's size.
    pub peak_utilisation: Ratio,
    /// Mean number of objects in use over the samples taken.
    pub mean_in_use: Ratio,
    /// Samples the peak and mean were computed from.
    pub samples: u64,
}

/// What has been observed of one pool.
#[derive(Debug, Clone, Copy, PartialEq, Eq, Structural)]
pub struct Accum {
    pub peak: u32,
    pub sum: u128,
    pub samples: u64,
    pub size: u32,
    pub obj_bytes: u32,
}

impl Accum {
    /// Nothing observed yet.
    pub open spec fn zero() -> Accum {
        Accum { peak: 0, sum: 0, samples: 0, size: 0, obj_bytes: 0 }
    }

    /// What has been observed once a sample has been taken.
    pub open spec fn after(self, s: MempoolStats) -> Accum {
        Accum {
            peak: if s.in_use > self.peak {
                s.in_use
            } else {
                self.peak
            },
            sum: (self.sum + s.in_use) as u128,
            samples: (self.samples + 1) as u64,
            size: s.size,
            obj_bytes: s.obj_bytes,
        }
    }

    /// The sum is that of as many objects as samples.
    pub open spec fn wf(self) -> bool {
        self.sum <= self.samples * 0xffff_ffff
    }

    /// What is reported of the pool called `name`.
    pub open spec fn reported(self, name: Seq<char>, report: MempoolHighWater) -> bool {
        &&& report.name@ == name
        &&& report.peak_in_use == self.peak
        &&& report.peak_in_use_bytes == self.peak * self.obj_bytes
        &&& report.peak_utilisation == Ratio::exact(self.peak as int, self.size as int)
        &&& report.mean_in_use == Ratio::exact(self.sum as int, self.samples as int)
        &&& report.samples == self.samples
    }
}

/// A pool and what has been observed of it.
#[derive(Debug)]
pub struct HighWaterEntry {
    pub name: String,
    pub accum: Accum,
}

/// What has been observed of every pool, in name order.
#[derive(Debug)]
pub struct HighWaterTable {
    pub entries: Vec<HighWaterEntry>,
}

/// The entries as a map from names.
pub open spec fn contents(entries: Seq<HighWaterEntry>) -> Map<Seq<char>, Accum>
    decreases entries.len(),
{
    if entries.len() == 0 {
        Map::empty()
    } else {
        contents(entries.drop_last()).insert(entries.last().name@, entries.last().accum)
    }
}

/// The map once a sample of one pool has been folded in.
pub open spec fn folded(table: Map<Seq<char>, Accum>, s: MempoolStats) -> Map<Seq<char>, Accum> {
    let before = if table.dom().contains(s.name@) {
        table[s.name@]
    } else {
        Accum::zero()
    };
    table.insert(s.name@, before.after(s))
}

/// The map once a sample of several pools has been folded in.
pub open spec fn folded_all(table: Map<Seq<char>, Accum>, stats: Seq<MempoolStats>) -> Map<
    Seq<char>,
    Accum,
>
    decreases stats.len(),
{
    if stats.len() == 0 {
        table
    } else {
        folded(folded_all(table, stats.drop_last()), stats.last())
    }
}

/// Names strictly ascending.
pub open spec fn names_ascend(entries: Seq<HighWaterEntry>) -> bool {
    forall|i: int, j: int|
        0 <= i < j < entries.len() ==> text::comes_before(
            (#[trigger] entries[i]).name@,
            (#[trigger] entries[j]).name@,
        )
}

proof fn lemma_contents(entries: Seq<HighWaterEntry>, i: int)
    requires
        names_ascend(entries),
        0 <= i < entries.len(),
    ensures
        contents(entries).dom().contains(entries[i].name@),
        contents(entries)[entries[i].name@] == entries[i].accum,
    decreases entries.len(),
{
    if i < entries.len() - 1 {
        let init = entries.drop_last();
        assert(names_ascend(init)) by {
            assert forall|a: int, b: int| 0 <= a < b < init.len() implies text::comes_before(
                (#[trigger] init[a]).name@,
                (#[trigger] init[b]).name@,
            ) by {
                assert(init[a] == entries[a]);
                assert(init[b] == entries[b]);
            }
        }
        lemma_contents(init, i);
        assert(init[i] == entries[i]);
        let last = entries[entries.len() - 1];
        assert(text::comes_before(entries[i].name@, last.name@));
        text::law_dictionary_order(entries[i].name@, last.name@, last.name@);
    }
}

proof fn lemma_absent(entries: Seq<HighWaterEntry>, name: Seq<char>)
    ensures
        contents(entries).dom().contains(name) <==> exists|i: int|
            0 <= i < entries.len() && (#[trigger] entries[i]).name@ == name,
    decreases entries.len(),
{
    if entries.len() > 0 {
        let init = entries.drop_last();
        lemma_absent(init, name);
        if exists|i: int| 0 <= i < init.len() && (#[trigger] init[i]).name@ == name {
            let i = choose|i: int| 0 <= i < init.len() && (#[trigger] init[i]).name@ == name;
            assert(entries[i].name@ == name);
        }
        if exists|i: int| 0 <= i < entries.len() && (#[trigger] entries[i]).name@ == name {
            let i = choose|i: int| 0 <= i < entries.len() && (#[trigger] entries[i]).name@ == name;
            if i < init.len() {
                assert(init[i].name@ == name);
            }
        }
    }
}

/// Two maps from entries are the same if they hold the same entries, one aside.
proof fn lemma_contents_match(
    before: Seq<HighWaterEntry>,
    after: Seq<HighWaterEntry>,
    name: Seq<char>,
    accum: Accum,
)
    requires
        names_ascend(before),
        names_ascend(after),
        exists|i: int|
            0 <= i < after.len() && (#[trigger] after[i]).name@ == name && after[i].accum == accum,
        forall|i: int|
            0 <= i < after.len() && (#[trigger] after[i]).name@ != name ==> exists|j: int|
                0 <= j < before.len() && (#[trigger] before[j]).name@ == after[i].name@
                    && before[j].accum == after[i].accum,
        forall|j: int|
            0 <= j < before.len() && (#[trigger] before[j]).name@ != name ==> exists|i: int|
                0 <= i < after.len() && (#[trigger] after[i]).name@ == before[j].name@
                    && before[j].accum == after[i].accum,
    ensures
        contents(after) == contents(before).insert(name, accum),
{
    let want = contents(before).insert(name, accum);
    assert forall|n: Seq<char>|
        contents(after).dom().contains(n) <==> want.dom().contains(n) by {
        lemma_absent(after, n);
        lemma_absent(before, n);
        if contents(after).dom().contains(n) && n != name {
            let i = choose|i: int| 0 <= i < after.len() && (#[trigger] after[i]).name@ == n;
            assert(after[i].name@ != name);
            let j = choose|j: int|
                0 <= j < before.len() && (#[trigger] before[j]).name@ == after[i].name@
                    && before[j].accum == after[i].accum;
            assert(before[j].name@ == n);
        }
        if contents(before).dom().contains(n) && n != name {
            let j = choose|j: int| 0 <= j < before.len() && (#[trigger] before[j]).name@ == n;
            assert(before[j].name@ != name);
            let i = choose|i: int|
                0 <= i < after.len() && (#[trigger] after[i]).name@ == before[j].name@
                    && before[j].accum == after[i].accum;
            assert(after[i].name@ == n);
        }
    }
    assert forall|n: Seq<char>| contents(after).dom().contains(n) implies contents(after)[n]
        == want[n] by {
        lemma_absent(after, n);
        let i = choose|i: int| 0 <= i < after.len() && (#[trigger] after[i]).name@ == n;
        lemma_contents(after, i);
        if n != name {
            assert(after[i].name@ != name);
            let j = choose|j: int|
                0 <= j < before.len() && (#[trigger] before[j]).name@ == after[i].name@
                    && before[j].accum == after[i].accum;
            lemma_contents(before, j);
        } else {
            let k = choose|k: int|
                0 <= k < after.len() && (#[trigger] after[k]).name@ == name && after[k].accum
                    == accum;
            lemma_contents(after, k);
        }
    }
    assert(contents(after) =~= want);
}

impl HighWaterTable {
    /// In name order, each name once, and every sum within what was sampled.
    pub open spec fn wf(self) -> bool {
        &&& names_ascend(self.entries@)
        &&& forall|i: int|
            0 <= i < self.entries@.len() ==> (#[trigger] self.entries@[i]).accum.wf()
    }

    /// What has been observed, by pool.
    pub open spec fn view(&self) -> Map<Seq<char>, Accum> {
        contents(self.entries@)
    }

    /// Every pool can take `n` more samples.
    pub open spec fn room_for(self, n: nat) -> bool {
        forall|i: int|
            0 <= i < self.entries@.len() ==> (#[trigger] self.entries@[i]).accum.samples + n
                <= u64::MAX
    }

    /// Nothing observed yet.
    pub fn new() -> (table: HighWaterTable)
        ensures
            table@ == Map::<Seq<char>, Accum>::empty(),
            table.wf(),
            table.entries@.len() == 0,
    {
        HighWaterTable { entries: Vec::new() }
    }

    /// Whether every pool can take `n` more samples.
    pub fn has_room_for(&self, n: u64) -> (room: bool)
        ensures
            room == self.room_for(n as nat),
    {
        let mut i: usize = 0;
        while i < self.entries.len()
            invariant
                i <= self.entries@.len(),
                forall|k: int|
                    0 <= k < i ==> (#[trigger] self.entries@[k]).accum.samples + n <= u64::MAX,
            decreases self.entries@.len() - i,
        {
            if self.entries[i].accum.samples > u64::MAX - n {
                return false;
            }
            i = i + 1;
        }
        true
    }

    fn fold(&mut self, s: &MempoolStats, Ghost(left): Ghost<nat>)
        requires
            old(self).wf(),
            old(self).room_for(left),
            0 < left <= u64::MAX,
        ensures
            final(self).wf(),
            final(self)@ == folded(old(self)@, *s),
            final(self).room_for((left - 1) as nat),
    {
        let name = text::chars_of(s.name.as_str());
        let ghost before = self.entries@;
        let mut at: usize = 0;
        while at < self.entries.len() && text::is_before(
            &text::chars_of(self.entries[at].name.as_str()),
            &name,
        )
            invariant
                at <= self.entries@.len(),
                self.entries@ == before,
                name@ == s.name@,
                forall|k: int|
                    0 <= k < at ==> text::comes_before((#[trigger] before[k]).name@, name@),
            decreases self.entries@.len() - at,
        {
            at = at + 1;
        }
        if at < self.entries.len() && text::same_text(
            &text::chars_of(self.entries[at].name.as_str()),
            &name,
        ) {
            proof {
                lemma_contents(before, at as int);
            }
            let accum = observe(self.entries[at].accum, s);
            self.entries[at].accum = accum;
            proof {
                assert(self.entries@ =~= before.update(at as int, self.entries@[at as int]));
                lemma_entry_updated(before, at as int, self.entries@[at as int]);
            }
            return;
        }
        proof {
            // The name is not there yet: it comes after everything before `at`, and before the rest.
            assert forall|k: int| at <= k < before.len() implies text::comes_before(
                name@,
                (#[trigger] before[k]).name@,
            ) by {
                let first = before[at as int].name@;
                text::law_dictionary_order(first, name@, first);
                if k > at {
                    text::law_dictionary_order(name@, first, before[k].name@);
                }
            }
            lemma_absent(before, name@);
            assert forall|k: int| 0 <= k < before.len() implies (#[trigger] before[k]).name@
                != name@ by {
                text::law_dictionary_order(name@, name@, name@);
            }
        }
        let accum = observe(
            Accum { peak: 0, sum: 0, samples: 0, size: 0, obj_bytes: 0 },
            s,
        );
        self.entries.insert(at, HighWaterEntry { name: text::copied(s.name.as_str()), accum });
        proof {
            assert(self.entries@ =~= before.insert(at as int, self.entries@[at as int]));
            lemma_entry_inserted(before, at as int, self.entries@[at as int]);
            assert forall|i: int| 0 <= i < self.entries@.len() implies (
            #[trigger] self.entries@[i]).accum.wf() && self.entries@[i].accum.samples + (left - 1)
                <= u64::MAX by {
                if i < at {
                    assert(self.entries@[i] == before[i]);
                } else if i > at {
                    assert(self.entries@[i] == before[i - 1]);
                }
            }
        }
    }
}

/// Changing what was observed of one pool changes its part of the map.
proof fn lemma_entry_updated(before: Seq<HighWaterEntry>, at: int, entry: HighWaterEntry)
    requires
        names_ascend(before),
        0 <= at < before.len(),
        entry.name@ == before[at].name@,
    ensures
        names_ascend(before.update(at, entry)),
        contents(before.update(at, entry)) == contents(before).insert(entry.name@, entry.accum),
{
    let after = before.update(at, entry);
    let name = entry.name@;
    assert forall|a: int, b: int| 0 <= a < b < after.len() implies text::comes_before(
        (#[trigger] after[a]).name@,
        (#[trigger] after[b]).name@,
    ) by {
        assert(before[a].name@ == after[a].name@);
        assert(before[b].name@ == after[b].name@);
    }
    assert(after[at].name@ == name && after[at].accum == entry.accum);
    assert forall|i: int| 0 <= i < after.len() && (#[trigger] after[i]).name@ != name implies exists|
        j: int,
    |
        0 <= j < before.len() && (#[trigger] before[j]).name@ == after[i].name@ && before[j].accum
            == after[i].accum by {
        assert(before[i] == after[i]);
    }
    assert forall|j: int|
        0 <= j < before.len() && (#[trigger] before[j]).name@ != name implies exists|i: int|
        0 <= i < after.len() && (#[trigger] after[i]).name@ == before[j].name@ && before[j].accum
            == after[i].accum by {
        assert(before[j] == after[j]);
    }
    lemma_contents_match(before, after, name, entry.accum);
}

/// Putting in a pool that was not there adds it to the map.
proof fn lemma_entry_inserted(before: Seq<HighWaterEntry>, at: int, entry: HighWaterEntry)
    requires
        names_ascend(before),
        0 <= at <= before.len(),
        forall|k: int|
            0 <= k < at ==> text::comes_before((#[trigger] before[k]).name@, entry.name@),
        forall|k: int|
            at <= k < before.len() ==> text::comes_before(
                entry.name@,
                (#[trigger] before[k]).name@,
            ),
    ensures
        names_ascend(before.insert(at, entry)),
        contents(before.insert(at, entry)) == contents(before).insert(entry.name@, entry.accum),
{
    let after = before.insert(at, entry);
    let name = entry.name@;
    assert forall|a: int, b: int| 0 <= a < b < after.len() implies text::comes_before(
        (#[trigger] after[a]).name@,
        (#[trigger] after[b]).name@,
    ) by {
        if a < at {
            assert(after[a] == before[a]);
        } else if a > at {
            assert(after[a] == before[a - 1]);
        }
        if b < at {
            assert(after[b] == before[b]);
        } else if b > at {
            assert(after[b] == before[b - 1]);
        }
    }
    assert(after[at].name@ == name && after[at].accum == entry.accum);
    assert forall|i: int| 0 <= i < after.len() && (#[trigger] after[i]).name@ != name implies exists|
        j: int,
    |
        0 <= j < before.len() && (#[trigger] before[j]).name@ == after[i].name@ && before[j].accum
            == after[i].accum by {
        if i < at {
            assert(before[i] == after[i]);
        } else {
            assert(before[i - 1] == after[i]);
        }
    }
    assert forall|j: int|
        0 <= j < before.len() && (#[trigger] before[j]).name@ != name implies exists|i: int|
        0 <= i < after.len() && (#[trigger] after[i]).name@ == before[j].name@ && before[j].accum
            == after[i].accum by {
        if j < at {
            assert(before[j] == after[j]);
        } else {
            assert(before[j] == after[j + 1]);
        }
    }
    lemma_contents_match(before, after, name, entry.accum);
}

fn observe(accum: Accum, s: &MempoolStats) -> (after: Accum)
    requires
        accum.wf(),
        accum.samples < u64::MAX,
    ensures
        after == accum.after(*s),
        after.wf(),
{
    Accum {
        peak: if s.in_use > accum.peak {
            s.in_use
        } else {
            accum.peak
        },
        sum: accum.sum + s.in_use as u128,
        samples: accum.samples + 1,
        size: s.size,
        obj_bytes: s.obj_bytes,
    }
}

/// Fold one sample of every pool into the running peak and mean.
pub fn sample_mempool_high_water(table: &mut HighWaterTable, stats: &Vec<MempoolStats>)
    requires
        old(table).wf(),
        old(table).room_for(stats@.len()),
    ensures
        final(table).wf(),
        final(table)@ == folded_all(old(table)@, stats@),
{
    let mut i: usize = 0;
    let count: usize = stats.len();
    proof {
        assert(stats@.take(0) =~= Seq::empty());
    }
    while i < count
        invariant
            i <= count == stats@.len(),
            table.wf(),
            table.room_for((count - i) as nat),
            table@ == folded_all(old(table)@, stats@.take(i as int)),
        decreases count - i,
    {
        table.fold(&stats[i], Ghost((count - i) as nat));
        proof {
            assert(stats@.take(i + 1).drop_last() =~= stats@.take(i as int));
        }
        i = i + 1;
    }
    proof {
        assert(stats@.take(i as int) =~= stats@);
    }
}

/// The accumulated peak and mean for every pool sampled so far, in name order.
pub fn mempool_high_water(table: &HighWaterTable) -> (reports: Vec<MempoolHighWater>)
    requires
        table.wf(),
    ensures
        forall|i: int|
            0 <= i < reports@.len() ==> table@.dom().contains((#[trigger] reports@[i]).name@)
                && table@[reports@[i].name@].reported(reports@[i].name@, reports@[i]),
        forall|name: Seq<char>| #[trigger]
            table@.dom().contains(name) ==> exists|i: int|
                0 <= i < reports@.len() && (#[trigger] reports@[i]).name@ == name,
        forall|i: int, j: int|
            0 <= i < j < reports@.len() ==> text::comes_before(
                (#[trigger] reports@[i]).name@,
                (#[trigger] reports@[j]).name@,
            ),
{
    let mut reports: Vec<MempoolHighWater> = Vec::new();
    let mut i: usize = 0;
    while i < table.entries.len()
        invariant
            i <= table.entries@.len(),
            reports@.len() == i,
            forall|k: int|
                0 <= k < i ==> table.entries@[k].accum.reported(
                    table.entries@[k].name@,
                    #[trigger] reports@[k],
                ),
        decreases table.entries@.len() - i,
    {
        let accum = table.entries[i].accum;
        reports.push(
            MempoolHighWater {
                name: text::copied(table.entries[i].name.as_str()),
                peak_in_use: accum.peak,
                peak_in_use_bytes: times(accum.peak, accum.obj_bytes),
                peak_utilisation: Ratio::of(accum.peak as u128, accum.size as u128),
                mean_in_use: Ratio::of(accum.sum, accum.samples as u128),
                samples: accum.samples,
            },
        );
        i = i + 1;
    }
    proof {
        assert forall|k: int| 0 <= k < reports@.len() implies table@.dom().contains(
            (#[trigger] reports@[k]).name@,
        ) && table@[reports@[k].name@].reported(reports@[k].name@, reports@[k]) by {
            lemma_contents(table.entries@, k);
        }
        assert forall|name: Seq<char>| #[trigger] table@.dom().contains(name) implies exists|
            k: int,
        |
            0 <= k < reports@.len() && (#[trigger] reports@[k]).name@ == name by {
            lemma_absent(table.entries@, name);
            let k = choose|k: int|
                0 <= k < table.entries@.len() && (#[trigger] table.entries@[k]).name@ == name;
            assert(reports@[k].name@ == name);
        }
        assert forall|a: int, b: int| 0 <= a < b < reports@.len() implies text::comes_before(
            (#[trigger] reports@[a]).name@,
            (#[trigger] reports@[b]).name@,
        ) by {
            assert(reports@[a].name@ == table.entries@[a].name@);
            assert(reports@[b].name@ == table.entries@[b].name@);
        }
    }
    reports
}

/// The peak is never below what was in use when a sample was taken, and it never falls; the mean is
/// never above it.
pub proof fn law_peak_bounds_every_sample(accum: Accum, s: MempoolStats)
    requires
        accum.samples < u64::MAX,
        accum.sum <= accum.samples * accum.peak,
    ensures
        accum.after(s).peak >= s.in_use,
        accum.after(s).peak >= accum.peak,
        accum.after(s).peak == accum.peak || accum.after(s).peak == s.in_use,
        accum.after(s).sum <= accum.after(s).samples * accum.after(s).peak,
{
    let peak = accum.after(s).peak as int;
    let n = accum.samples as int;
    assert(n * accum.peak <= n * peak) by (nonlinear_arith)
        requires
            0 <= n,
            accum.peak <= peak,
    ;
    assert((n + 1) * peak == n * peak + peak) by (nonlinear_arith);
    assert(n * peak <= 0xffff_ffff_ffff_ffff * 0xffff_ffff) by (nonlinear_arith)
        requires
            0 <= n <= 0xffff_ffff_ffff_ffff,
            0 <= peak <= 0xffff_ffff,
    ;
}

impl Accum {
    /// What has been observed once several samples have been taken.
    pub open spec fn after_all(self, samples: Seq<MempoolStats>) -> Accum
        decreases samples.len(),
    {
        if samples.len() == 0 {
            self
        } else {
            self.after_all(samples.drop_last()).after(samples.last())
        }
    }
}

/// The objects in use at each sample.
pub open spec fn occupancy(samples: Seq<MempoolStats>) -> Seq<u64> {
    samples.map_values(|s: MempoolStats| s.in_use as u64)
}

/// The peak is the largest number in use at any sample, the sum is that of all of them, and as many
/// samples are reported as were taken.
pub proof fn law_peak_is_the_maximum(samples: Seq<MempoolStats>)
    requires
        0 < samples.len() <= u64::MAX,
    ensures
        ({
            let a = Accum::zero().after_all(samples);
            &&& a.samples == samples.len()
            &&& a.sum == sum_of(occupancy(samples))
            &&& forall|i: int| 0 <= i < samples.len() ==> (#[trigger] samples[i]).in_use <= a.peak
            &&& exists|i: int| 0 <= i < samples.len() && (#[trigger] samples[i]).in_use == a.peak
            &&& a.size == samples.last().size
            &&& a.obj_bytes == samples.last().obj_bytes
        }),
    decreases samples.len(),
{
    let init = samples.drop_last();
    let a = Accum::zero().after_all(samples);
    let before = Accum::zero().after_all(init);
    assert(occupancy(samples).drop_last() =~= occupancy(init));
    assert(occupancy(samples).last() == samples.last().in_use);
    lemma_sum_is_bounded(samples);
    if init.len() > 0 {
        law_peak_is_the_maximum(init);
        assert forall|i: int| 0 <= i < samples.len() implies (#[trigger] samples[i]).in_use
            <= a.peak by {
            if i < init.len() {
                assert(init[i].in_use <= before.peak);
            }
        }
        if a.peak == before.peak {
            let i = choose|i: int| 0 <= i < init.len() && (#[trigger] init[i]).in_use == before.peak;
            assert(samples[i].in_use == a.peak);
        } else {
            assert(samples[samples.len() - 1].in_use == a.peak);
        }
    } else {
        assert(init =~= Seq::empty());
        assert(samples[0].in_use == a.peak);
        assert(sum_of(occupancy(init)) == 0);
    }
}

proof fn lemma_sum_is_bounded(samples: Seq<MempoolStats>)
    ensures
        sum_of(occupancy(samples)) <= samples.len() * 0xffff_ffff,
    decreases samples.len(),
{
    if samples.len() > 0 {
        lemma_sum_is_bounded(samples.drop_last());
        assert(occupancy(samples).drop_last() =~= occupancy(samples.drop_last()));
    }
}

/// A sample of one pool leaves what was observed of the others as it was.
pub proof fn law_pools_are_sampled_apart(table: Map<Seq<char>, Accum>, s: MempoolStats, other: Seq<char>)
    requires
        other != s.name@,
    ensures
        folded(table, s).dom().contains(other) == table.dom().contains(other),
        table.dom().contains(other) ==> folded(table, s)[other] == table[other],
{
}

/// A sum of lengths is that of adding them one after the other.
pub proof fn law_a_sum_adds_one_after_the_other(lens: Seq<u64>)
    ensures
        sum_of(lens) == lens.fold_left(0int, |sum: int, len: u64| sum + len),
    decreases lens.len(),
{
    if lens.len() > 0 {
        law_a_sum_adds_one_after_the_other(lens.drop_last());
    }
}

/// A pool costs the sum of its memory chunks, an object its header, element and trailer together,
/// and everything else is reported as the pool says it.
pub proof fn law_a_pool_costs_its_chunks(raw: RawPool)
    requires
        raw.fits(),
    ensures
        ({
            let stats = raw.stats();
            &&& stats.obj_bytes == raw.header_size + raw.elt_size + raw.trailer_size
            &&& stats.allocated_bytes == raw.chunks@.fold_left(
                0int,
                |sum: int, len: u64| sum + len,
            )
            &&& stats.name == raw.name && stats.socket_id == raw.socket_id
            &&& stats.size == raw.size && stats.populated_size == raw.populated_size
            &&& stats.nb_mem_chunks == raw.nb_mem_chunks && stats.cache_size == raw.cache_size
            &&& stats.avail == raw.avail && stats.in_use == raw.in_use
        }),
{
    law_a_sum_adds_one_after_the_other(raw.chunks@);
}

/// Pools can be accounted for exactly if no figure of theirs runs over.
pub proof fn law_accounting_needs_room(raw: RawPool)
    ensures
        raw.fits() <==> raw.header_size + raw.elt_size + raw.trailer_size <= u32::MAX
            && raw.chunks@.fold_left(0int, |sum: int, len: u64| sum + len) <= u64::MAX,
{
    law_a_sum_adds_one_after_the_other(raw.chunks@);
}

/// The runtime's memory is that of its pools together: one more pool adds the bytes that it holds.
pub proof fn law_every_pool_adds_what_it_holds(stats: Seq<MempoolStats>, pool: MempoolStats)
    ensures
        sum_of(allocations(Seq::empty())) == 0,
        sum_of(allocations(stats.push(pool))) == sum_of(allocations(stats)) + pool.allocated_bytes,
{
    assert(allocations(stats.push(pool)).drop_last() =~= allocations(stats));
    assert(allocations(Seq::<MempoolStats>::empty()) =~= Seq::empty());
}

/// What is in use of a pool, over what is in use and what is available; of an empty pool nothing is
/// in use. In bytes it is that many objects.
pub proof fn law_use_is_a_share_of_the_pool(stats: MempoolStats)
    ensures
        ({
            let r = stats.used_share();
            let all = stats.in_use + stats.avail;
            &&& r.den > 0 && r.num <= r.den
            &&& all > 0 ==> r.num * all == stats.in_use * r.den
            &&& all == 0 ==> r.num == 0
        }),
        stats.in_use == 0 ==> stats.used_bytes() == 0,
        stats.obj_bytes > 0 ==> stats.used_bytes() / stats.obj_bytes as int == stats.in_use
            && stats.used_bytes() % stats.obj_bytes as int == 0,
{
    if stats.obj_bytes > 0 {
        vstd::arithmetic::div_mod::lemma_fundamental_div_mod_converse(
            stats.used_bytes(),
            stats.obj_bytes as int,
            stats.in_use as int,
            0,
        );
    }
    assert(0 * stats.obj_bytes == 0) by (nonlinear_arith);
}

/// The samples of one pool among those of several.
pub open spec fn samples_of(stats: Seq<MempoolStats>, name: Seq<char>) -> Seq<MempoolStats> {
    stats.filter(|s: MempoolStats| s.name@ == name)
}

/// What has been observed of a pool is what its own samples come to, in their order, and nothing
/// has been observed of a pool without samples.
pub proof fn law_a_pool_is_observed_through_its_own_samples(
    stats: Seq<MempoolStats>,
    name: Seq<char>,
)
    ensures
        ({
            let table = folded_all(Map::empty(), stats);
            let own = samples_of(stats, name);
            &&& table.dom().contains(name) <==> own.len() > 0
            &&& own.len() > 0 ==> table[name] == Accum::zero().after_all(own)
        }),
    decreases stats.len(),
{
    reveal(Seq::filter);
    if stats.len() > 0 {
        let init = stats.drop_last();
        let keep = |s: MempoolStats| s.name@ == name;
        law_a_pool_is_observed_through_its_own_samples(init, name);
        text::lemma_filter_push(init, stats.last(), keep);
        assert(init.push(stats.last()) =~= stats);
        let own = samples_of(init, name);
        if keep(stats.last()) {
            assert(own.push(stats.last()).drop_last() =~= own);
            if own.len() == 0 {
                assert(Accum::zero().after_all(own) == Accum::zero());
            }
        }
    }
}

/// Sampling twice is sampling once with both: what is observed does not depend on how the samples
/// are handed over.
pub proof fn law_sampling_goes_on_where_it_stopped(
    table: Map<Seq<char>, Accum>,
    first: Seq<MempoolStats>,
    second: Seq<MempoolStats>,
)
    ensures
        folded_all(folded_all(table, first), second) == folded_all(table, first + second),
    decreases second.len(),
{
    if second.len() > 0 {
        law_sampling_goes_on_where_it_stopped(table, first, second.drop_last());
        assert((first + second).drop_last() =~= first + second.drop_last());
    } else {
        assert(first + second =~= first);
    }
}

/// What is reported of a pool is what its samples say: the peak is the largest number in use at any
/// of them, in bytes as many objects, and as a share of the pool's size; the mean is that of all of
/// them; and as many samples are reported as were taken.
pub proof fn law_a_report_is_what_the_samples_say(
    samples: Seq<MempoolStats>,
    name: Seq<char>,
    report: MempoolHighWater,
)
    requires
        0 < samples.len() <= u64::MAX,
        Accum::zero().after_all(samples).reported(name, report),
    ensures
        report.name@ == name,
        report.samples == samples.len(),
        forall|i: int| 0 <= i < samples.len() ==> (#[trigger] samples[i]).in_use
            <= report.peak_in_use,
        exists|i: int| 0 <= i < samples.len() && (#[trigger] samples[i]).in_use
            == report.peak_in_use,
        report.peak_in_use_bytes == report.peak_in_use * samples.last().obj_bytes,
        samples.last().size > 0 ==> report.peak_utilisation.den > 0
            && report.peak_utilisation.num * samples.last().size == report.peak_in_use
            * report.peak_utilisation.den,
        samples.last().size == 0 ==> report.peak_utilisation.num == 0,
        report.mean_in_use.den > 0,
        report.mean_in_use.num * samples.len() == sum_of(occupancy(samples))
            * report.mean_in_use.den,
{
    law_peak_is_the_maximum(samples);
}

} // verus!
