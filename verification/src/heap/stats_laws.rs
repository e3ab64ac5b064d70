//! What the statistics of an arena count.

use vstd::prelude::*;

use crate::glibc::DetectedLayout;
use crate::problem::ProblemView;

use super::fastbin::FastbinBinResult;
use super::stats;
use super::stats::{ArenaStats, BinTally};
use super::walk::ChunkEvent;

verus! {

/// A chunk that is in use: its neighbour says so, and no tcache bin has it.
pub open spec fn is_allocated(owners: Map<u64, (i32, u32)>, e: ChunkEvent) -> bool {
    e.prev_inuse_says_in_use && !owners.contains_key(e.user_addr)
}

/// A chunk that a tcache bin has, though its neighbour calls it in use.
pub open spec fn is_cached(owners: Map<u64, (i32, u32)>, e: ChunkEvent) -> bool {
    e.prev_inuse_says_in_use && owners.contains_key(e.user_addr)
}

/// Chunks of a kind.
pub open spec fn chunks(events: Seq<ChunkEvent>, kind: spec_fn(ChunkEvent) -> bool) -> nat {
    events.filter(kind).len()
}

/// Payload bytes of the chunks of a kind.
pub open spec fn bytes(events: Seq<ChunkEvent>, kind: spec_fn(ChunkEvent) -> bool) -> nat
    decreases events.len(),
{
    if events.len() == 0 {
        0
    } else if kind(events.last()) {
        bytes(events.drop_last(), kind) + events.last().user_size as nat
    } else {
        bytes(events.drop_last(), kind)
    }
}

/// Chunks that fastbins hold, of one size or of all.
pub open spec fn in_fastbins(fastbins: Seq<FastbinBinResult>, size: Option<u64>) -> nat
    decreases fastbins.len(),
{
    if fastbins.len() == 0 {
        0
    } else if size is None || size == Some(fastbins.last().size) {
        in_fastbins(fastbins.drop_last(), size) + fastbins.last().count as nat
    } else {
        in_fastbins(fastbins.drop_last(), size)
    }
}

/// Payload bytes of the chunks that fastbins hold.
pub open spec fn fastbin_bytes(fastbins: Seq<FastbinBinResult>) -> int
    decreases fastbins.len(),
{
    if fastbins.len() == 0 {
        0
    } else {
        fastbin_bytes(fastbins.drop_last()) + fastbins.last().size * fastbins.last().count
    }
}

/// A number between zero and the largest of 64 bits.
pub open spec fn held(n: int) -> int {
    if n < 0 {
        0
    } else if n > u64::MAX {
        u64::MAX as int
    } else {
        n
    }
}

proof fn lemma_filter_last<A>(s: Seq<A>, p: spec_fn(A) -> bool)
    requires
        s.len() > 0,
    ensures
        s.filter(p) == if p(s.last()) {
            s.drop_last().filter(p).push(s.last())
        } else {
            s.drop_last().filter(p)
        },
{
    reveal(Seq::filter);
}

proof fn lemma_filter_none<A>(s: Seq<A>, p: spec_fn(A) -> bool)
    requires
        s.len() == 0,
    ensures
        s.filter(p).len() == 0,
{
    reveal(Seq::filter);
}

proof fn lemma_walked(events: Seq<ChunkEvent>, owners: Map<u64, (i32, u32)>, size: u64, bin: u32)
    ensures
        ({
            let t = stats::event_totals(events, owners);
            let allocated = |e: ChunkEvent| is_allocated(owners, e);
            let free = |e: ChunkEvent| !is_allocated(owners, e);
            let allocated_of = |e: ChunkEvent| is_allocated(owners, e) && e.user_size == size;
            let free_of = |e: ChunkEvent| !is_allocated(owners, e) && e.user_size == size;
            let cached_in = |e: ChunkEvent|
                is_cached(owners, e) && owners[e.user_addr].1 == bin;
            &&& t.allocated.count == held(chunks(events, allocated) as int)
            &&& t.free.count == held(chunks(events, free) as int)
            &&& t.allocated.bytes == held(bytes(events, allocated) as int)
            &&& t.free.bytes == held(bytes(events, free) as int)
            &&& t.allocated.bucket(size) == held(chunks(events, allocated_of) as int)
            &&& t.free.bucket(size) == held(chunks(events, free_of) as int)
            &&& t.bin(bin) == held(chunks(events, cached_in) as int)
            &&& t.bins.contains_key(bin) <==> chunks(events, cached_in) > 0
        }),
    decreases events.len(),
{
    let allocated = |e: ChunkEvent| is_allocated(owners, e);
    let free = |e: ChunkEvent| !is_allocated(owners, e);
    let allocated_of = |e: ChunkEvent| is_allocated(owners, e) && e.user_size == size;
    let free_of = |e: ChunkEvent| !is_allocated(owners, e) && e.user_size == size;
    let cached_in = |e: ChunkEvent| is_cached(owners, e) && owners[e.user_addr].1 == bin;
    if events.len() == 0 {
        lemma_filter_none(events, allocated);
        lemma_filter_none(events, free);
        lemma_filter_none(events, allocated_of);
        lemma_filter_none(events, free_of);
        lemma_filter_none(events, cached_in);
    } else {
        lemma_walked(events.drop_last(), owners, size, bin);
        lemma_filter_last(events, allocated);
        lemma_filter_last(events, free);
        lemma_filter_last(events, allocated_of);
        lemma_filter_last(events, free_of);
        lemma_filter_last(events, cached_in);
        let e = events.last();
        assert(e.user_size * 1 == e.user_size);
    }
}

proof fn lemma_threads(events: Seq<ChunkEvent>, owners: Map<u64, (i32, u32)>, thread_id: i32)
    ensures
        stats::event_totals(events, owners).threads.contains(thread_id) <==> exists|i: int|
            0 <= i < events.len() && is_cached(owners, #[trigger] events[i])
                && owners[events[i].user_addr].0 == thread_id,
    decreases events.len(),
{
    if events.len() > 0 {
        let before = events.drop_last();
        lemma_threads(before, owners, thread_id);
        let e = events.last();
        if stats::event_totals(before, owners).threads.contains(thread_id) {
            let i = choose|i: int|
                0 <= i < before.len() && is_cached(owners, #[trigger] before[i])
                    && owners[before[i].user_addr].0 == thread_id;
            assert(events[i] == before[i]);
        } else if is_cached(owners, e) && owners[e.user_addr].0 == thread_id {
            assert(events[events.len() - 1] == e);
        }
        if exists|i: int|
            0 <= i < events.len() && is_cached(owners, #[trigger] events[i])
                && owners[events[i].user_addr].0 == thread_id {
            let i = choose|i: int|
                0 <= i < events.len() && is_cached(owners, #[trigger] events[i])
                    && owners[events[i].user_addr].0 == thread_id;
            if i < before.len() {
                assert(events[i] == before[i]);
                assert(is_cached(owners, before[i]));
            }
        }
    }
}

proof fn lemma_binned(
    walked: stats::EventTotals,
    arena: u32,
    fastbins: Seq<FastbinBinResult>,
    size: u64,
)
    ensures
        ({
            let t = stats::binned_totals(walked, arena, fastbins);
            let all = in_fastbins(fastbins, None) as int;
            let of_size = in_fastbins(fastbins, Some(size)) as int;
            let told = ProblemView::StatsInconsistent {
                arena,
                size,
                reason: "fastbin count exceeds allocated count for this size"@,
            };
            &&& fastbin_bytes(fastbins) >= 0
            &&& t.allocated.count == held(walked.allocated.count - all)
            &&& t.free.count == held(walked.free.count + all)
            &&& t.allocated.bytes == held(walked.allocated.bytes - fastbin_bytes(fastbins))
            &&& t.free.bytes == held(walked.free.bytes + fastbin_bytes(fastbins))
            &&& t.allocated.bucket(size) == held(walked.allocated.bucket(size) - of_size)
            &&& t.free.bucket(size) == held(walked.free.bucket(size) + of_size)
            &&& t.problems.contains(told) <==> walked.allocated.bucket(size) < of_size
        }),
    decreases fastbins.len(),
{
    let told = ProblemView::StatsInconsistent {
        arena,
        size,
        reason: "fastbin count exceeds allocated count for this size"@,
    };
    if fastbins.len() > 0 {
        lemma_binned(walked, arena, fastbins.drop_last(), size);
        let before = stats::binned_totals(walked, arena, fastbins.drop_last());
        let after = stats::binned_totals(walked, arena, fastbins);
        let bin = fastbins.last();
        assert(bin.size * bin.count >= 0) by (nonlinear_arith)
            requires
                bin.size >= 0,
                bin.count >= 0,
        ;
        if bin.count == 0 {
            assert(bin.size * 0 == 0) by (nonlinear_arith);
        } else {
            if before.problems.contains(told) {
                let k = choose|k: int| 0 <= k < before.problems.len() && before.problems[k] == told;
                assert(after.problems[k] == told);
            }
            if after.problems.contains(told) {
                let k = choose|k: int| 0 <= k < after.problems.len() && after.problems[k] == told;
                if k < before.problems.len() {
                    assert(before.problems[k] == told);
                }
            }
            if before.allocated.lacks(bin.size, bin.count) {
                assert(after.problems.last() == after.problems[before.problems.len() as int]);
            }
        }
    }
}

/// Chunks are sorted by what they are: one that its neighbour calls in use and no
/// tcache bin has is allocated, any other is free, and what fastbins hold is moved from
/// allocated to free. So are their bytes, and so are the chunks of each size, in
/// numbers that stop at zero and at the largest of 64 bits.
pub proof fn law_chunks_are_sorted_by_what_they_are(
    stats: ArenaStats,
    layout: &DetectedLayout,
    arena: u32,
    events: Seq<ChunkEvent>,
    owners: Map<u64, (i32, u32)>,
    fastbins: Seq<FastbinBinResult>,
    size: u64,
)
    requires
        stats::stats_are(stats, layout, arena, events, owners, fastbins),
    ensures
        ({
            let allocated = |e: ChunkEvent| is_allocated(owners, e);
            let free = |e: ChunkEvent| !is_allocated(owners, e);
            let allocated_of = |e: ChunkEvent| is_allocated(owners, e) && e.user_size == size;
            let free_of = |e: ChunkEvent| !is_allocated(owners, e) && e.user_size == size;
            let moved = in_fastbins(fastbins, None) as int;
            let moved_of = in_fastbins(fastbins, Some(size)) as int;
            &&& stats.allocated.count == held(held(chunks(events, allocated) as int) - moved)
            &&& stats.free.tally.count == held(chunks(events, free) + moved)
            &&& stats.allocated.bytes == held(
                held(bytes(events, allocated) as int) - fastbin_bytes(fastbins),
            )
            &&& stats.free.tally.bytes == held(bytes(events, free) + fastbin_bytes(fastbins))
            &&& stats::chunks_of(stats.allocated.histogram@, size) == held(
                held(chunks(events, allocated_of) as int) - moved_of,
            )
            &&& stats::chunks_of(stats.free.tally.histogram@, size) == held(
                chunks(events, free_of) + moved_of,
            )
            &&& stats.overhead_count == events.len()
            &&& stats.overhead_bytes == held(events.len() * layout.header_size)
        }),
{
    let walked = stats::event_totals(events, owners);
    lemma_walked(events, owners, size, 0);
    lemma_binned(walked, arena, fastbins, size);
    let t = stats::binned_totals(walked, arena, fastbins);
    assert(stats.allocated@ == t.allocated);
    assert(stats.free.tally@ == t.free);
}

/// The fastbins that are listed are those that hold something, in the order in which
/// they were given, each with its index, its size, the number of its chunks and their
/// bytes.
pub proof fn law_fastbins_are_listed_as_given(
    stats: ArenaStats,
    layout: &DetectedLayout,
    arena: u32,
    events: Seq<ChunkEvent>,
    owners: Map<u64, (i32, u32)>,
    fastbins: Seq<FastbinBinResult>,
)
    requires
        stats::stats_are(stats, layout, arena, events, owners, fastbins),
    ensures
        ({
            let listed = stats.free.fastbins@;
            let given = fastbins.filter(|b: FastbinBinResult| b.count > 0);
            &&& listed.len() == given.len()
            &&& forall|i: int|
                0 <= i < listed.len() ==> {
                    &&& (#[trigger] listed[i]).index == given[i].index
                    &&& listed[i].size == given[i].size
                    &&& listed[i].count == given[i].count
                    &&& listed[i].bytes == held(given[i].size * given[i].count)
                }
        }),
{
    lemma_listed(stats::event_totals(events, owners), arena, fastbins);
}

proof fn lemma_listed(walked: stats::EventTotals, arena: u32, fastbins: Seq<FastbinBinResult>)
    ensures
        ({
            let listed = stats::binned_totals(walked, arena, fastbins).fastbins;
            let given = fastbins.filter(|b: FastbinBinResult| b.count > 0);
            &&& listed.len() == given.len()
            &&& forall|i: int|
                0 <= i < listed.len() ==> {
                    &&& (#[trigger] listed[i]).index == given[i].index
                    &&& listed[i].size == given[i].size
                    &&& listed[i].count == given[i].count
                    &&& listed[i].bytes == held(given[i].size * given[i].count)
                }
        }),
    decreases fastbins.len(),
{
    let kept = |b: FastbinBinResult| b.count > 0;
    if fastbins.len() == 0 {
        lemma_filter_none(fastbins, kept);
    } else {
        lemma_listed(walked, arena, fastbins.drop_last());
        lemma_filter_last(fastbins, kept);
        let bin = fastbins.last();
        assert(bin.size * bin.count >= 0) by (nonlinear_arith)
            requires
                bin.size >= 0,
                bin.count >= 0,
        ;
    }
}

/// The listed chunks of a size are those that the given fastbins of that size hold.
pub open spec fn listed_of(listed: Seq<BinTally>, size: u64) -> nat
    decreases listed.len(),
{
    if listed.len() == 0 {
        0
    } else if listed.last().size == size {
        listed_of(listed.drop_last(), size) + listed.last().count as nat
    } else {
        listed_of(listed.drop_last(), size)
    }
}

proof fn lemma_listed_counts(
    walked: stats::EventTotals,
    arena: u32,
    fastbins: Seq<FastbinBinResult>,
    size: u64,
)
    ensures
        listed_of(stats::binned_totals(walked, arena, fastbins).fastbins, size) == in_fastbins(
            fastbins,
            Some(size),
        ),
    decreases fastbins.len(),
{
    if fastbins.len() > 0 {
        lemma_listed_counts(walked, arena, fastbins.drop_last(), size);
        let before = stats::binned_totals(walked, arena, fastbins.drop_last()).fastbins;
        let after = stats::binned_totals(walked, arena, fastbins).fastbins;
        if fastbins.last().count > 0 {
            assert(after.drop_last() =~= before);
        }
    }
}

/// The counts of the listed fastbins of a size add up to the chunks that fastbins of
/// that size hold.
pub proof fn law_listed_fastbins_add_up(
    stats: ArenaStats,
    layout: &DetectedLayout,
    arena: u32,
    events: Seq<ChunkEvent>,
    owners: Map<u64, (i32, u32)>,
    fastbins: Seq<FastbinBinResult>,
    size: u64,
)
    requires
        stats::stats_are(stats, layout, arena, events, owners, fastbins),
    ensures
        listed_of(stats.free.fastbins@, size) == in_fastbins(fastbins, Some(size)),
{
    lemma_listed_counts(stats::event_totals(events, owners), arena, fastbins, size);
}

/// The tcache bins that are listed are those of which the arena has chunks, each once
/// and by ascending index, with the number of the walked chunks that the bin has, the
/// bin's size and their bytes. The threads are those whose bins have walked chunks.
pub proof fn law_tcache_bins_count_walked_chunks(
    stats: ArenaStats,
    layout: &DetectedLayout,
    arena: u32,
    events: Seq<ChunkEvent>,
    owners: Map<u64, (i32, u32)>,
    fastbins: Seq<FastbinBinResult>,
    bin: u32,
    thread_id: i32,
)
    requires
        layout.header_size <= layout.minsize,
        events.len() <= u64::MAX,
        stats::stats_are(stats, layout, arena, events, owners, fastbins),
    ensures
        ({
            let listed = stats.free.tcache_bins@;
            let here = chunks(
                events,
                |e: ChunkEvent| is_cached(owners, e) && owners[e.user_addr].1 == bin,
            );
            &&& forall|i: int, j: int|
                0 <= i < j < listed.len() ==> (#[trigger] listed[i]).index < (
                #[trigger] listed[j]).index
            &&& here > 0 <==> exists|i: int|
                0 <= i < listed.len() && (#[trigger] listed[i]).index == bin
            &&& forall|i: int|
                0 <= i < listed.len() && (#[trigger] listed[i]).index == bin ==> {
                    &&& listed[i].count == here
                    &&& listed[i].size + layout.header_size == layout.minsize + bin
                        * layout.malloc_alignment
                    &&& listed[i].bytes == held(listed[i].size * listed[i].count)
                }
            &&& stats.free.tcache_threads@.contains(thread_id) <==> exists|i: int|
                0 <= i < events.len() && is_cached(owners, #[trigger] events[i])
                    && owners[events[i].user_addr].0 == thread_id
        }),
{
    lemma_walked(events, owners, 0, bin);
    lemma_threads(events, owners, thread_id);
    super::chain_laws::law_bin_sizes(layout, bin);
    let walked = stats::event_totals(events, owners);
    let listed = stats.free.tcache_bins@;
    let cached_in = |e: ChunkEvent| is_cached(owners, e) && owners[e.user_addr].1 == bin;
    lemma_filter_len(events, cached_in);
    if walked.bins.contains_key(bin) {
        let want = stats::bin_tally(
            bin,
            super::fastbin::bin_size(layout, bin),
            walked.bins[bin],
        );
        assert(listed.contains(want));
        let i = choose|i: int| 0 <= i < listed.len() && listed[i] == want;
        assert(listed[i].index == bin);
    }
    assert forall|i: int| 0 <= i < listed.len() && (#[trigger] listed[i]).index == bin implies {
        &&& listed[i].count == chunks(events, cached_in)
        &&& listed[i].size + layout.header_size == layout.minsize + bin * layout.malloc_alignment
        &&& listed[i].bytes == held(listed[i].size * listed[i].count)
    } by {
        let (size, count) = (listed[i].size, listed[i].count);
        assert(size * count >= 0) by (nonlinear_arith)
            requires
                size >= 0,
                count >= 0,
        ;
    }
}

proof fn lemma_filter_len<A>(s: Seq<A>, p: spec_fn(A) -> bool)
    ensures
        s.filter(p).len() <= s.len(),
    decreases s.len(),
{
    if s.len() == 0 {
        lemma_filter_none(s, p);
    } else {
        lemma_filter_last(s, p);
        lemma_filter_len(s.drop_last(), p);
    }
}

/// A size is told to be inconsistent exactly where fastbins hold more chunks of it than
/// were found allocated, and nothing else is told.
pub proof fn law_inconsistent_sizes_are_told(
    arena: u32,
    events: Seq<ChunkEvent>,
    owners: Map<u64, (i32, u32)>,
    fastbins: Seq<FastbinBinResult>,
    size: u64,
)
    requires
        events.len() <= u64::MAX,
    ensures
        ({
            let told = stats::binned_totals(
                stats::event_totals(events, owners),
                arena,
                fastbins,
            ).problems;
            let allocated_of = |e: ChunkEvent| is_allocated(owners, e) && e.user_size == size;
            &&& told.contains(
                ProblemView::StatsInconsistent {
                    arena,
                    size,
                    reason: "fastbin count exceeds allocated count for this size"@,
                },
            ) <==> chunks(events, allocated_of) < in_fastbins(fastbins, Some(size))
            &&& forall|i: int|
                0 <= i < told.len() ==> exists|s: u64|
                    #[trigger] told[i] == (ProblemView::StatsInconsistent {
                        arena,
                        size: s,
                        reason: "fastbin count exceeds allocated count for this size"@,
                    })
        }),
{
    let walked = stats::event_totals(events, owners);
    lemma_walked(events, owners, size, 0);
    lemma_binned(walked, arena, fastbins, size);
    lemma_filter_len(
        events,
        |e: ChunkEvent| is_allocated(owners, e) && e.user_size == size,
    );
    lemma_only_sizes(walked, arena, fastbins);
    let told = stats::binned_totals(walked, arena, fastbins).problems;
    assert forall|i: int| 0 <= i < told.len() implies exists|s: u64|
        #[trigger] told[i] == (ProblemView::StatsInconsistent {
            arena,
            size: s,
            reason: "fastbin count exceeds allocated count for this size"@,
        }) by {
        let s = told[i]->StatsInconsistent_size;
        assert(told[i] == (ProblemView::StatsInconsistent {
            arena,
            size: s,
            reason: "fastbin count exceeds allocated count for this size"@,
        }));
    }
}

proof fn lemma_only_sizes(walked: stats::EventTotals, arena: u32, fastbins: Seq<FastbinBinResult>)
    ensures
        ({
            let told = stats::binned_totals(walked, arena, fastbins).problems;
            forall|i: int|
                0 <= i < told.len() ==> #[trigger] told[i] == (ProblemView::StatsInconsistent {
                    arena,
                    size: told[i]->StatsInconsistent_size,
                    reason: "fastbin count exceeds allocated count for this size"@,
                })
        }),
    decreases fastbins.len(),
{
    if fastbins.len() > 0 {
        lemma_only_sizes(walked, arena, fastbins.drop_last());
        let before = stats::binned_totals(walked, arena, fastbins.drop_last()).problems;
        let after = stats::binned_totals(walked, arena, fastbins).problems;
        assert forall|i: int| 0 <= i < after.len() implies #[trigger] after[i] == (
        ProblemView::StatsInconsistent {
            arena,
            size: after[i]->StatsInconsistent_size,
            reason: "fastbin count exceeds allocated count for this size"@,
        }) by {
            if i < before.len() {
                assert(after[i] == before[i]);
            }
        }
    }
}

} // verus!
