//! Fold chunk events and free-list results into per-arena allocated/free totals.
//!
//! Three sources decide a chunk's fate, in this order:
//!   1. tcache: a chunk whose `PREV_INUSE` says "in use" but whose user address
//!      is in a tcache bin is actually free (glibc doesn't clear the neighbour's
//!      bit for tcache/fastbin puts).
//!   2. fastbins: counted from the chains, moved out of allocated into free by
//!      nominal bin size.
//!   3. everything the walk marked free via a cleared `PREV_INUSE`.
//!
//! Pure and I/O-free: it only produces `StatsInconsistent`, when a fastbin holds
//! more chunks of a size than were seen allocated (a truncated walk or
//! corruption). Everything else was reported upstream.

use std::collections::{BTreeMap, BTreeSet, HashMap};

use vstd::prelude::*;

use crate::arith;
use crate::glibc::DetectedLayout;
use crate::ordered;
use crate::problem;
use crate::problem::Problem;

use super::fastbin;
use super::fastbin::FastbinBinResult;
use super::tcache::tcache_index_to_size;
use super::walk::ChunkEvent;

verus! {

/// A running count/bytes total plus a size→count histogram.
#[derive(Debug)]
pub struct SizeTally {
    pub count: u64,
    pub bytes: u64,
    /// Payload size → number of chunks. Bytes for a bucket are `size * count`.
    pub histogram: BTreeMap<u64, u64>,
}

/// A [`SizeTally`] with its histogram as a map.
#[verifier::ext_equal]
pub struct Tally {
    pub count: u64,
    pub bytes: u64,
    pub histogram: Map<u64, u64>,
}

impl Tally {
    /// Nothing counted yet.
    pub open spec fn empty() -> Tally {
        Tally { count: 0, bytes: 0, histogram: Map::empty() }
    }

    /// Chunks counted of a size.
    pub open spec fn bucket(self, size: u64) -> u64 {
        if self.histogram.contains_key(size) {
            self.histogram[size]
        } else {
            0
        }
    }

    /// With `n` more chunks of a size. Totals stop at the largest number.
    pub open spec fn plus(self, size: u64, n: u64) -> Tally {
        Tally {
            count: self.count.saturating_add(n),
            bytes: self.bytes.saturating_add(arith::saturated_product(size, n)),
            histogram: self.histogram.insert(size, self.bucket(size).saturating_add(n)),
        }
    }

    /// With `n` chunks of a size taken out. Totals stop at zero.
    pub open spec fn minus(self, size: u64, n: u64) -> Tally {
        Tally {
            count: self.count.saturating_sub(n),
            bytes: self.bytes.saturating_sub(arith::saturated_product(size, n)),
            histogram: self.histogram.insert(size, self.bucket(size).saturating_sub(n)),
        }
    }

    /// There are no `n` chunks of a size to take out.
    pub open spec fn lacks(self, size: u64, n: u64) -> bool {
        self.bucket(size) < n
    }
}

impl View for SizeTally {
    type V = Tally;

    open spec fn view(&self) -> Tally {
        Tally { count: self.count, bytes: self.bytes, histogram: self.histogram@ }
    }
}

/// The value of a key, zero where the map has none.
fn count_of(map: &BTreeMap<u64, u64>, key: u64) -> (n: u64)
    ensures
        n == if map@.contains_key(key) {
            map@[key]
        } else {
            0
        },
{
    broadcast use vstd::std_specs::btree::group_btree_axioms;
    broadcast use vstd::laws_cmp::group_laws_cmp;

    match map.get(&key) {
        Some(n) => *n,
        None => 0,
    }
}

fn set_count(map: &mut BTreeMap<u64, u64>, key: u64, n: u64)
    ensures
        final(map)@ == old(map)@.insert(key, n),
{
    broadcast use vstd::std_specs::btree::group_btree_axioms;
    broadcast use vstd::laws_cmp::group_laws_cmp;

    map.insert(key, n);
}

impl Default for SizeTally {
    fn default() -> (t: SizeTally)
        ensures
            t@ == Tally::empty(),
    {
        SizeTally { count: 0, bytes: 0, histogram: BTreeMap::new() }
    }
}

impl SizeTally {
    /// Count one chunk.
    pub fn add(&mut self, size: u64)
        ensures
            final(self)@ == old(self)@.plus(size, 1),
    {
        self.add_n(size, 1);
    }

    /// Count `n` chunks of `size`.
    pub fn add_n(&mut self, size: u64, n: u64)
        ensures
            final(self)@ == old(self)@.plus(size, n),
    {
        self.count = self.count.saturating_add(n);
        self.bytes = self.bytes.saturating_add(arith::saturating_mul(size, n));
        let bucket: u64 = count_of(&self.histogram, size);
        set_count(&mut self.histogram, size, bucket.saturating_add(n));
    }

    /// Remove `n` chunks of `size`. Returns `true` if there are fewer of that size
    /// (the totals are inconsistent), clamping at zero.
    pub fn remove_n(&mut self, size: u64, n: u64) -> (underflow: bool)
        ensures
            underflow == old(self)@.lacks(size, n),
            final(self)@ == old(self)@.minus(size, n),
    {
        let bucket: u64 = count_of(&self.histogram, size);
        let underflow: bool = bucket < n;
        self.count = self.count.saturating_sub(n);
        self.bytes = self.bytes.saturating_sub(arith::saturating_mul(size, n));
        set_count(&mut self.histogram, size, bucket.saturating_sub(n));
        underflow
    }
}

#[derive(Debug, Clone, Copy)]
pub struct BinTally {
    pub index: u32,
    pub size: u64,
    pub count: u64,
    pub bytes: u64,
}

#[derive(Debug, Default)]
pub struct FreeStats {
    pub tally: SizeTally,
    pub fastbins: Vec<BinTally>,
    pub tcache_threads: BTreeSet<i32>,
    pub tcache_bins: Vec<BinTally>,
}

#[derive(Debug)]
pub struct ArenaStats {
    pub allocated: SizeTally,
    pub free: FreeStats,
    pub overhead_count: u64,
    pub overhead_bytes: u64,
}

/// Totals over chunk events.
#[verifier::ext_equal]
pub struct EventTotals {
    pub allocated: Tally,
    pub free: Tally,
    /// Threads that own a cached chunk.
    pub threads: Set<i32>,
    /// Cached chunks by tcache bin.
    pub bins: Map<u32, u64>,
}

impl EventTotals {
    pub open spec fn empty() -> EventTotals {
        EventTotals {
            allocated: Tally::empty(),
            free: Tally::empty(),
            threads: Set::empty(),
            bins: Map::empty(),
        }
    }

    /// Chunks counted in a tcache bin.
    pub open spec fn bin(self, index: u32) -> u64 {
        if self.bins.contains_key(index) {
            self.bins[index]
        } else {
            0
        }
    }

    /// With one more chunk: in use unless a tcache bin owns it, otherwise free.
    pub open spec fn with(
        self,
        membership: Map<u64, (i32, u32)>,
        event: ChunkEvent,
    ) -> EventTotals {
        if !event.prev_inuse_says_in_use {
            EventTotals { free: self.free.plus(event.user_size, 1), ..self }
        } else if membership.contains_key(event.user_addr) {
            let owner = membership[event.user_addr];
            EventTotals {
                free: self.free.plus(event.user_size, 1),
                threads: self.threads.insert(owner.0),
                bins: self.bins.insert(owner.1, self.bin(owner.1).saturating_add(1)),
                ..self
            }
        } else {
            EventTotals { allocated: self.allocated.plus(event.user_size, 1), ..self }
        }
    }
}

/// Totals over a list of chunk events.
pub open spec fn event_totals(
    events: Seq<ChunkEvent>,
    membership: Map<u64, (i32, u32)>,
) -> EventTotals
    decreases events.len(),
{
    if events.len() == 0 {
        EventTotals::empty()
    } else {
        event_totals(events.drop_last(), membership).with(membership, events.last())
    }
}

/// Totals once fastbins have been moved from allocated to free.
#[verifier::ext_equal]
pub struct BinnedTotals {
    pub allocated: Tally,
    pub free: Tally,
    pub fastbins: Seq<BinTally>,
    pub problems: Seq<problem::ProblemView>,
}

/// A tally of `count` chunks in the bin at `index`.
pub open spec fn bin_tally(index: u32, size: u64, count: u64) -> BinTally {
    BinTally { index, size, count, bytes: arith::saturated_product(size, count) }
}

impl BinnedTotals {
    /// With the chunks of one fastbin moved.
    pub open spec fn with(self, arena: u32, bin: FastbinBinResult) -> BinnedTotals {
        if bin.count == 0 {
            self
        } else {
            BinnedTotals {
                allocated: self.allocated.minus(bin.size, bin.count),
                free: self.free.plus(bin.size, bin.count),
                fastbins: self.fastbins.push(bin_tally(bin.index, bin.size, bin.count)),
                problems: if self.allocated.lacks(bin.size, bin.count) {
                    self.problems.push(
                        problem::ProblemView::StatsInconsistent {
                            arena,
                            size: bin.size,
                            reason: "fastbin count exceeds allocated count for this size"@,
                        },
                    )
                } else {
                    self.problems
                },
            }
        }
    }
}

/// Totals with a list of fastbins moved.
pub open spec fn binned_totals(
    start: EventTotals,
    arena: u32,
    fastbins: Seq<FastbinBinResult>,
) -> BinnedTotals
    decreases fastbins.len(),
{
    if fastbins.len() == 0 {
        BinnedTotals {
            allocated: start.allocated,
            free: start.free,
            fastbins: Seq::empty(),
            problems: Seq::empty(),
        }
    } else {
        binned_totals(start, arena, fastbins.drop_last()).with(arena, fastbins.last())
    }
}

/// `list` holds one tally per tcache bin that was counted, by ascending index,
/// with the bin's nominal size.
pub open spec fn lists_bins(
    list: Seq<BinTally>,
    layout: &DetectedLayout,
    bins: Map<u32, u64>,
) -> bool {
    &&& forall|i: int, j: int|
        0 <= i < j < list.len() ==> (#[trigger] list[i]).index < (#[trigger] list[j]).index
    &&& forall|i: int|
        0 <= i < list.len() ==> {
            let bin = #[trigger] list[i];
            &&& bins.contains_key(bin.index)
            &&& bin == bin_tally(
                bin.index,
                fastbin::bin_size(layout, bin.index),
                bins[bin.index],
            )
        }
    &&& forall|k: u32| #[trigger]
        bins.contains_key(k) ==> list.contains(
            bin_tally(k, fastbin::bin_size(layout, k), bins[k]),
        )
}

/// What the statistics of an arena are.
pub open spec fn stats_are(
    stats: ArenaStats,
    layout: &DetectedLayout,
    arena: u32,
    events: Seq<ChunkEvent>,
    membership: Map<u64, (i32, u32)>,
    fastbins: Seq<FastbinBinResult>,
) -> bool {
    let walked = event_totals(events, membership);
    let totals = binned_totals(walked, arena, fastbins);
    &&& stats.allocated@ == totals.allocated
    &&& stats.free.tally@ == totals.free
    &&& stats.free.fastbins@ == totals.fastbins
    &&& stats.free.tcache_threads@ == walked.threads
    &&& lists_bins(stats.free.tcache_bins@, layout, walked.bins)
    &&& stats.overhead_count == events.len()
    &&& stats.overhead_bytes == arith::saturated_product(
        events.len() as u64,
        layout.header_size as u64,
    )
}

fn insert_thread(threads: &mut BTreeSet<i32>, thread_id: i32)
    ensures
        final(threads)@ == old(threads)@.insert(thread_id),
{
    broadcast use vstd::std_specs::btree::group_btree_axioms;
    broadcast use vstd::laws_cmp::group_laws_cmp;

    threads.insert(thread_id);
}

/// Count one more chunk in a tcache bin.
fn count_bin(counts: &mut BTreeMap<u32, u64>, bin_index: u32)
    ensures
        final(counts)@ == old(counts)@.insert(
            bin_index,
            (if old(counts)@.contains_key(bin_index) {
                old(counts)@[bin_index]
            } else {
                0
            }).saturating_add(1),
        ),
{
    broadcast use vstd::std_specs::btree::group_btree_axioms;
    broadcast use vstd::laws_cmp::group_laws_cmp;

    let count: u64 = match counts.get(&bin_index) {
        Some(n) => *n,
        None => 0,
    };
    counts.insert(bin_index, count.saturating_add(1));
}

fn tcache_tallies(layout: &DetectedLayout, counts: &BTreeMap<u32, u64>) -> (list: Vec<BinTally>)
    requires
        layout.header_size <= layout.minsize,
    ensures
        lists_bins(list@, layout, counts@),
{
    let entries: Vec<(u32, u64)> = ordered::entries_u32(counts);
    let mut list: Vec<BinTally> = Vec::new();
    let mut i: usize = 0;
    while i < entries.len()
        invariant
            i <= entries.len(),
            list@.len() == i,
            layout.header_size <= layout.minsize,
            forall|j: int|
                0 <= j < i ==> (#[trigger] list@[j]) == bin_tally(
                    entries@[j].0,
                    fastbin::bin_size(layout, entries@[j].0),
                    entries@[j].1,
                ),
        decreases entries.len() - i,
    {
        let index: u32 = entries[i].0;
        let count: u64 = entries[i].1;
        let size: u64 = tcache_index_to_size(layout, index);
        list.push(BinTally { index, size, count, bytes: arith::saturating_mul(size, count) });
        i = i + 1;
    }
    proof {
        assert forall|k: u32| #[trigger] counts@.contains_key(k) implies list@.contains(
            bin_tally(k, fastbin::bin_size(layout, k), counts@[k]),
        ) by {
            assert(entries@.contains((k, counts@[k])));
            let j = choose|j: int| 0 <= j < entries@.len() && entries@[j] == (k, counts@[k]);
            assert(list@[j] == bin_tally(k, fastbin::bin_size(layout, k), counts@[k]));
        }
        assert forall|j: int, l: int| 0 <= j < l < list@.len() implies (#[trigger] list@[j]).index
            < (#[trigger] list@[l]).index by {
            assert(entries@[j].0 < entries@[l].0);
        }
        assert forall|j: int| 0 <= j < list@.len() implies {
            let bin = #[trigger] list@[j];
            &&& counts@.contains_key(bin.index)
            &&& bin == bin_tally(
                bin.index,
                fastbin::bin_size(layout, bin.index),
                counts@[bin.index],
            )
        } by {
            assert(counts@.contains_key(entries@[j].0));
        }
    }
    list
}

/// `tcache_membership` maps a user address to the `(thread_id, bin_index)` that
/// owns it, built globally before the arena loop.
pub fn accumulate(
    layout: &DetectedLayout,
    arena_index: u32,
    events: &[ChunkEvent],
    tcache_membership: &HashMap<u64, (i32, u32)>,
    fastbin_results: &[FastbinBinResult],
) -> (r: (ArenaStats, Vec<Problem>))
    requires
        layout.header_size <= layout.minsize,
    ensures
        stats_are(
            r.0,
            layout,
            arena_index,
            events@,
            tcache_membership@,
            fastbin_results@,
        ),
        problem::views(r.1@) == binned_totals(
            event_totals(events@, tcache_membership@),
            arena_index,
            fastbin_results@,
        ).problems,
{
    let header_size: u64 = layout.header_size as u64;
    let mut allocated = SizeTally::default();
    let mut free = SizeTally::default();
    let mut tcache_threads: BTreeSet<i32> = BTreeSet::new();
    // bin index → chunk count; the bucket size/bytes use the bin's nominal size.
    let mut tcache_counts: BTreeMap<u32, u64> = BTreeMap::new();
    let mut i: usize = 0;
    while i < events.len()
        invariant
            i <= events.len(),
            ({
                let t = event_totals(events@.take(i as int), tcache_membership@);
                &&& allocated@ == t.allocated
                &&& free@ == t.free
                &&& tcache_threads@ == t.threads
                &&& tcache_counts@ == t.bins
            }),
        decreases events.len() - i,
    {
        broadcast use vstd::std_specs::hash::group_hash_axioms;

        let ev: &ChunkEvent = &events[i];
        if ev.prev_inuse_says_in_use {
            match tcache_membership.get(&ev.user_addr) {
                Some(owner) => {
                    // Source 1: parked in a tcache bin, so really free.
                    free.add(ev.user_size);
                    insert_thread(&mut tcache_threads, owner.0);
                    count_bin(&mut tcache_counts, owner.1);
                },
                None => {
                    allocated.add(ev.user_size);
                },
            }
        } else {
            // Source 3: walk already saw this as free.
            free.add(ev.user_size);
        }
        proof {
            let now = events@.take(i + 1);
            assert(now.drop_last() =~= events@.take(i as int));
            assert(now.last() == *ev);
        }
        i = i + 1;
    }
    assert(events@.take(i as int) =~= events@);
    let ghost walked = event_totals(events@, tcache_membership@);
    // Source 2: move fastbin chunks from allocated to free by nominal size.
    let mut fastbins: Vec<BinTally> = Vec::new();
    let mut problems: Vec<Problem> = problem::none();
    let mut j: usize = 0;
    while j < fastbin_results.len()
        invariant
            j <= fastbin_results.len(),
            ({
                let t = binned_totals(walked, arena_index, fastbin_results@.take(j as int));
                &&& allocated@ == t.allocated
                &&& free@ == t.free
                &&& fastbins@ == t.fastbins
                &&& problem::views(problems@) == t.problems
            }),
        decreases fastbin_results.len() - j,
    {
        let fb: &FastbinBinResult = &fastbin_results[j];
        proof {
            let now = fastbin_results@.take(j + 1);
            assert(now.drop_last() =~= fastbin_results@.take(j as int));
            assert(now.last() == *fb);
        }
        if fb.count != 0 {
            if allocated.remove_n(fb.size, fb.count) {
                broadcast use problem::lemma_views_push;

                problems.push(
                    Problem::StatsInconsistent {
                        arena: arena_index,
                        size: fb.size,
                        reason: "fastbin count exceeds allocated count for this size".to_owned(),
                    },
                );
            }
            free.add_n(fb.size, fb.count);
            fastbins.push(
                BinTally {
                    index: fb.index,
                    size: fb.size,
                    count: fb.count,
                    bytes: arith::saturating_mul(fb.size, fb.count),
                },
            );
        }
        j = j + 1;
    }
    assert(fastbin_results@.take(j as int) =~= fastbin_results@);
    // Bucket size/bytes use the bin's nominal size; on a healthy heap this equals
    // the chunks' actual size, but it avoids drift when a wrong-sized chunk is
    // parked in a bin.
    let tcache_bins: Vec<BinTally> = tcache_tallies(layout, &tcache_counts);
    // Every walked chunk carries one header word of overhead.
    let overhead_count: u64 = events.len() as u64;
    let overhead_bytes: u64 = arith::saturating_mul(overhead_count, header_size);
    let stats = ArenaStats {
        allocated,
        free: FreeStats { tally: free, fastbins, tcache_threads, tcache_bins },
        overhead_count,
        overhead_bytes,
    };
    (stats, problems)
}

proof fn lemma_every_event_counts_once(
    events: Seq<ChunkEvent>,
    membership: Map<u64, (i32, u32)>,
)
    requires
        events.len() <= u64::MAX,
    ensures
        ({
            let t = event_totals(events, membership);
            &&& t.allocated.counts_up()
            &&& t.free.counts_up()
            &&& t.allocated.count + t.free.count == events.len()
        }),
    decreases events.len(),
{
    if events.len() == 0 {
        lemma_nothing_counted(all_sizes());
    } else {
        lemma_every_event_counts_once(events.drop_last(), membership);
        let before = event_totals(events.drop_last(), membership);
        let e = events.last();
        if e.prev_inuse_says_in_use && !membership.contains_key(e.user_addr) {
            lemma_plus_counts_up(before.allocated, e.user_size, 1);
        } else {
            lemma_plus_counts_up(before.free, e.user_size, 1);
        }
    }
}

proof fn lemma_binned_counts_once(
    arena: u32,
    events: Seq<ChunkEvent>,
    membership: Map<u64, (i32, u32)>,
    fastbins: Seq<FastbinBinResult>,
)
    requires
        events.len() <= u64::MAX,
        binned_totals(event_totals(events, membership), arena, fastbins).problems.len() == 0,
    ensures
        ({
            let t = binned_totals(event_totals(events, membership), arena, fastbins);
            &&& t.allocated.counts_up()
            &&& t.free.counts_up()
            &&& t.allocated.count + t.free.count == events.len()
        }),
    decreases fastbins.len(),
{
    if fastbins.len() == 0 {
        lemma_every_event_counts_once(events, membership);
    } else {
        lemma_binned_counts_once(arena, events, membership, fastbins.drop_last());
        let before = binned_totals(
            event_totals(events, membership),
            arena,
            fastbins.drop_last(),
        );
        let bin = fastbins.last();
        if bin.count > 0 {
            lemma_minus_counts_up(before.allocated, bin.size, bin.count);
            lemma_plus_counts_up(before.free, bin.size, bin.count);
        }
    }
}

/// Where no inconsistency is reported, every walked chunk is counted exactly
/// once, as allocated or as free: the two counts add up to the number of
/// headers.
pub proof fn law_counts_balance(
    arena: u32,
    events: Seq<ChunkEvent>,
    membership: Map<u64, (i32, u32)>,
    fastbins: Seq<FastbinBinResult>,
)
    requires
        events.len() <= u64::MAX,
        binned_totals(event_totals(events, membership), arena, fastbins).problems.len() == 0,
    ensures
        ({
            let t = binned_totals(event_totals(events, membership), arena, fastbins);
            t.allocated.count + t.free.count == events.len()
        }),
{
    lemma_binned_counts_once(arena, events, membership, fastbins);
}

/// Counts are those of their histograms: where no inconsistency is reported, the
/// count of allocated chunks is the sum over its histogram, and so is that of free
/// chunks, however large the chunks are.
pub proof fn law_counts_are_those_of_histograms(
    arena: u32,
    events: Seq<ChunkEvent>,
    membership: Map<u64, (i32, u32)>,
    fastbins: Seq<FastbinBinResult>,
)
    requires
        events.len() <= u64::MAX,
        binned_totals(event_totals(events, membership), arena, fastbins).problems.len() == 0,
    ensures
        ({
            let t = binned_totals(event_totals(events, membership), arena, fastbins);
            t.allocated.counts_up() && t.free.counts_up()
        }),
{
    lemma_binned_counts_once(arena, events, membership, fastbins);
}

/// A problem is reported for a fastbin exactly where the chunks of its size that
/// are still counted as allocated are too few to hold it, whatever the other sizes.
pub proof fn law_inconsistency_is_reported(
    walked: EventTotals,
    arena: u32,
    fastbins: Seq<FastbinBinResult>,
    bin: FastbinBinResult,
)
    requires
        bin.count > 0,
    ensures
        ({
            let before = binned_totals(walked, arena, fastbins);
            let after = binned_totals(walked, arena, fastbins.push(bin));
            after.problems == if before.allocated.bucket(bin.size) < bin.count {
                before.problems.push(
                    problem::ProblemView::StatsInconsistent {
                        arena,
                        size: bin.size,
                        reason: "fastbin count exceeds allocated count for this size"@,
                    },
                )
            } else {
                before.problems
            }
        }),
{
    assert(fastbins.push(bin).drop_last() =~= fastbins);
}

/// Chunks of a size that the walk found free: not in use, or in a tcache bin.
pub open spec fn freed(
    events: Seq<ChunkEvent>,
    membership: Map<u64, (i32, u32)>,
    size: u64,
) -> nat
    decreases events.len(),
{
    if events.len() == 0 {
        0
    } else {
        let e = events.last();
        freed(events.drop_last(), membership, size) + if e.user_size == size && (
        !e.prev_inuse_says_in_use || membership.contains_key(e.user_addr)) {
            1nat
        } else {
            0nat
        }
    }
}

/// Chunks of a size that fastbins hold.
pub open spec fn binned(fastbins: Seq<FastbinBinResult>, size: u64) -> nat
    decreases fastbins.len(),
{
    if fastbins.len() == 0 {
        0
    } else {
        binned(fastbins.drop_last(), size) + if fastbins.last().size == size {
            fastbins.last().count as nat
        } else {
            0
        }
    }
}

/// A count, or the largest that can be told.
pub open spec fn told(count: nat) -> u64 {
    if count > u64::MAX {
        u64::MAX
    } else {
        count as u64
    }
}

/// The free histogram covers all three sources: of each size it counts the
/// ordinary free chunks, those in tcache bins and those in fastbins.
pub proof fn law_free_covers_three_sources(
    arena: u32,
    events: Seq<ChunkEvent>,
    membership: Map<u64, (i32, u32)>,
    fastbins: Seq<FastbinBinResult>,
    size: u64,
)
    ensures
        binned_totals(event_totals(events, membership), arena, fastbins).free.bucket(size) == told(
            freed(events, membership, size) + binned(fastbins, size),
        ),
    decreases fastbins.len(),
{
    if fastbins.len() == 0 {
        lemma_freed(events, membership, size);
    } else {
        law_free_covers_three_sources(arena, events, membership, fastbins.drop_last(), size);
    }
}

proof fn lemma_freed(events: Seq<ChunkEvent>, membership: Map<u64, (i32, u32)>, size: u64)
    ensures
        event_totals(events, membership).free.bucket(size) == told(
            freed(events, membership, size),
        ),
    decreases events.len(),
{
    if events.len() > 0 {
        lemma_freed(events.drop_last(), membership, size);
    }
}

/// Payload bytes of chunks.
pub open spec fn payload(events: Seq<ChunkEvent>) -> nat
    decreases events.len(),
{
    if events.len() == 0 {
        0
    } else {
        payload(events.drop_last()) + events.last().user_size as nat
    }
}

/// Chunks that a histogram counts of a size.
pub open spec fn chunks_of(histogram: Map<u64, u64>, size: u64) -> u64 {
    if histogram.contains_key(size) {
        histogram[size]
    } else {
        0
    }
}

/// Chunks that a histogram counts of the sizes below a limit.
pub open spec fn counted(histogram: Map<u64, u64>, limit: int) -> int
    decreases limit,
{
    if limit <= 0 {
        0
    } else {
        counted(histogram, limit - 1) + chunks_of(histogram, (limit - 1) as u64)
    }
}

/// Payload bytes of the chunks that a histogram counts of the sizes below a limit.
pub open spec fn weighed(histogram: Map<u64, u64>, limit: int) -> int
    decreases limit,
{
    if limit <= 0 {
        0
    } else {
        weighed(histogram, limit - 1) + (limit - 1) * chunks_of(histogram, (limit - 1) as u64)
    }
}

/// One more than the largest size.
pub open spec fn all_sizes() -> int {
    u64::MAX + 1
}

impl Tally {
    /// The count is that of the histogram.
    pub open spec fn counts_up(self) -> bool {
        self.count == counted(self.histogram, all_sizes())
    }

    /// Count and bytes are those of the histogram.
    pub open spec fn adds_up(self) -> bool {
        &&& self.counts_up()
        &&& self.bytes == weighed(self.histogram, all_sizes())
    }
}

proof fn lemma_nothing_counted(limit: int)
    requires
        limit <= all_sizes(),
    ensures
        counted(Map::empty(), limit) == 0,
        weighed(Map::empty(), limit) == 0,
    decreases limit,
{
    if limit > 0 {
        lemma_nothing_counted(limit - 1);
        assert((limit - 1) * 0 == 0) by (nonlinear_arith);
    }
}

proof fn lemma_counted_insert(histogram: Map<u64, u64>, size: u64, n: u64, limit: int)
    requires
        limit <= all_sizes(),
    ensures
        counted(histogram.insert(size, n), limit) == counted(histogram, limit) + if size < limit {
            n - chunks_of(histogram, size)
        } else {
            0
        },
        weighed(histogram.insert(size, n), limit) == weighed(histogram, limit) + if size < limit {
            size * n - size * chunks_of(histogram, size)
        } else {
            0
        },
    decreases limit,
{
    if limit > 0 {
        lemma_counted_insert(histogram, size, n, limit - 1);
    }
}

proof fn lemma_bucket_is_counted(histogram: Map<u64, u64>, size: u64, limit: int)
    requires
        limit <= all_sizes(),
    ensures
        0 <= counted(histogram, limit),
        0 <= weighed(histogram, limit),
        size < limit ==> chunks_of(histogram, size) <= counted(histogram, limit) && size
            * chunks_of(histogram, size) <= weighed(histogram, limit),
    decreases limit,
{
    if limit > 0 {
        lemma_bucket_is_counted(histogram, size, limit - 1);
        let n = chunks_of(histogram, (limit - 1) as u64);
        assert((limit - 1) * n >= 0) by (nonlinear_arith)
            requires
                limit > 0,
                n >= 0,
        ;
    }
}

proof fn lemma_plus_counts_up(t: Tally, size: u64, n: u64)
    requires
        t.counts_up(),
        t.count + n <= u64::MAX,
    ensures
        t.plus(size, n).counts_up(),
        t.plus(size, n).count == t.count + n,
{
    let held = chunks_of(t.histogram, size);
    lemma_bucket_is_counted(t.histogram, size, all_sizes());
    lemma_counted_insert(t.histogram, size, (held + n) as u64, all_sizes());
}

proof fn lemma_minus_counts_up(t: Tally, size: u64, n: u64)
    requires
        t.counts_up(),
        !t.lacks(size, n),
    ensures
        t.minus(size, n).counts_up(),
        t.minus(size, n).count == t.count - n,
{
    let held = chunks_of(t.histogram, size);
    lemma_bucket_is_counted(t.histogram, size, all_sizes());
    lemma_counted_insert(t.histogram, size, (held - n) as u64, all_sizes());
}

proof fn lemma_plus_adds_up(t: Tally, size: u64, n: u64)
    requires
        t.adds_up(),
        t.count + n <= u64::MAX,
        t.bytes + size * n <= u64::MAX,
    ensures
        t.plus(size, n).adds_up(),
        t.plus(size, n).count == t.count + n,
        t.plus(size, n).bytes == t.bytes + size * n,
{
    let held = chunks_of(t.histogram, size);
    lemma_bucket_is_counted(t.histogram, size, all_sizes());
    lemma_counted_insert(t.histogram, size, (held + n) as u64, all_sizes());
    assert(size * (held + n) == size * held + size * n && size * n >= 0) by (nonlinear_arith);
}

proof fn lemma_minus_adds_up(t: Tally, size: u64, n: u64)
    requires
        t.adds_up(),
        !t.lacks(size, n),
    ensures
        t.minus(size, n).adds_up(),
        t.minus(size, n).count == t.count - n,
        t.minus(size, n).bytes == t.bytes - size * n,
        size * n <= t.bytes,
{
    let held = chunks_of(t.histogram, size);
    lemma_bucket_is_counted(t.histogram, size, all_sizes());
    lemma_counted_insert(t.histogram, size, (held - n) as u64, all_sizes());
    assert(size * (held - n) == size * held - size * n && 0 <= size * n <= size * held)
        by (nonlinear_arith)
        requires
            n <= held,
    ;
}

proof fn lemma_walked_adds_up(events: Seq<ChunkEvent>, membership: Map<u64, (i32, u32)>)
    requires
        events.len() <= u64::MAX,
        payload(events) <= u64::MAX,
    ensures
        ({
            let t = event_totals(events, membership);
            &&& t.allocated.adds_up()
            &&& t.free.adds_up()
            &&& t.allocated.count + t.free.count == events.len()
            &&& t.allocated.bytes + t.free.bytes == payload(events)
        }),
    decreases events.len(),
{
    if events.len() == 0 {
        lemma_nothing_counted(all_sizes());
    } else {
        lemma_walked_adds_up(events.drop_last(), membership);
        let before = event_totals(events.drop_last(), membership);
        let e = events.last();
        if e.prev_inuse_says_in_use && !membership.contains_key(e.user_addr) {
            lemma_plus_adds_up(before.allocated, e.user_size, 1);
        } else {
            lemma_plus_adds_up(before.free, e.user_size, 1);
        }
    }
}

/// Totals are those of their histograms: where no inconsistency is reported, the
/// count of allocated chunks is the sum over its histogram, their bytes are the sum
/// of size times count, and likewise for free chunks. Moving chunks between the two
/// loses none: together they have the payload of all walked chunks.
pub proof fn law_totals_add_up(
    arena: u32,
    events: Seq<ChunkEvent>,
    membership: Map<u64, (i32, u32)>,
    fastbins: Seq<FastbinBinResult>,
)
    requires
        events.len() <= u64::MAX,
        payload(events) <= u64::MAX,
        binned_totals(event_totals(events, membership), arena, fastbins).problems.len() == 0,
    ensures
        ({
            let t = binned_totals(event_totals(events, membership), arena, fastbins);
            &&& t.allocated.adds_up()
            &&& t.free.adds_up()
            &&& t.allocated.count + t.free.count == events.len()
            &&& t.allocated.bytes + t.free.bytes == payload(events)
        }),
    decreases fastbins.len(),
{
    if fastbins.len() == 0 {
        lemma_walked_adds_up(events, membership);
    } else {
        law_totals_add_up(arena, events, membership, fastbins.drop_last());
        let before = binned_totals(
            event_totals(events, membership),
            arena,
            fastbins.drop_last(),
        );
        let bin = fastbins.last();
        if bin.count > 0 {
            lemma_minus_adds_up(before.allocated, bin.size, bin.count);
            lemma_plus_adds_up(before.free, bin.size, bin.count);
        }
    }
}

/// No bin that holds nothing is listed.
pub proof fn law_listed_bins_are_not_empty(
    stats: ArenaStats,
    layout: &DetectedLayout,
    arena: u32,
    events: Seq<ChunkEvent>,
    membership: Map<u64, (i32, u32)>,
    fastbins: Seq<FastbinBinResult>,
)
    requires
        stats_are(stats, layout, arena, events, membership, fastbins),
    ensures
        forall|i: int|
            0 <= i < stats.free.fastbins@.len() ==> (#[trigger] stats.free.fastbins@[i]).count > 0,
        forall|i: int|
            0 <= i < stats.free.tcache_bins@.len() ==> (
            #[trigger] stats.free.tcache_bins@[i]).count > 0,
{
    lemma_listed_fastbins(event_totals(events, membership), arena, fastbins);
    lemma_counted_bins(events, membership);
    assert forall|i: int| 0 <= i < stats.free.tcache_bins@.len() implies (
    #[trigger] stats.free.tcache_bins@[i]).count > 0 by {
        let index = stats.free.tcache_bins@[i].index;
        assert(event_totals(events, membership).bins.contains_key(index));
    }
}

proof fn lemma_listed_fastbins(
    walked: EventTotals,
    arena: u32,
    fastbins: Seq<FastbinBinResult>,
)
    ensures
        forall|i: int|
            0 <= i < binned_totals(walked, arena, fastbins).fastbins.len() ==> (
            #[trigger] binned_totals(walked, arena, fastbins).fastbins[i]).count > 0,
    decreases fastbins.len(),
{
    if fastbins.len() > 0 {
        lemma_listed_fastbins(walked, arena, fastbins.drop_last());
        let before = binned_totals(walked, arena, fastbins.drop_last()).fastbins;
        let after = binned_totals(walked, arena, fastbins).fastbins;
        assert forall|i: int| 0 <= i < after.len() implies (#[trigger] after[i]).count > 0 by {
            if i < before.len() {
                assert(after[i] == before[i]);
            }
        }
    }
}

proof fn lemma_counted_bins(events: Seq<ChunkEvent>, membership: Map<u64, (i32, u32)>)
    ensures
        forall|index: u32| #[trigger]
            event_totals(events, membership).bins.contains_key(index) ==> event_totals(
                events,
                membership,
            ).bins[index] > 0,
    decreases events.len(),
{
    if events.len() > 0 {
        lemma_counted_bins(events.drop_last(), membership);
        let before = event_totals(events.drop_last(), membership).bins;
        let after = event_totals(events, membership).bins;
        assert forall|index: u32| #[trigger] after.contains_key(index) implies after[index] > 0 by {
            if before.contains_key(index) {
                assert(before[index] > 0);
            }
        }
    }
}

} // verus!
