//! What the report on an arena says, in terms of its memory.

use vstd::prelude::*;

use crate::elf::coredump::Thread;
use crate::elf::MemReader;
use crate::error;
use crate::glibc::DetectedLayout;
use crate::heap::arena::Arena;
use crate::heap::chain_laws;
use crate::heap::fastbin;
use crate::heap::fastbin::{ChainEnd, FastbinBinResult};
use crate::heap::heap_list;
use crate::heap::heap_list::Heap;
use crate::heap::stats;
use crate::heap::stats::ArenaStats;
use crate::heap::stats_laws;
use crate::heap::walk;
use crate::heap::walk::ChunkEvent;
use crate::problem::ProblemView;
use crate::report::model::{ArenaReport, SizeBucket};
use crate::text;

use super::arenas;

verus! {

/// Where the head of fastbin `bin` of the arena at `base` is stored.
pub open spec fn head_slot(layout: &DetectedLayout, base: u64, bin: int) -> u64 {
    base.wrapping_add(layout.fastbin_array_offset as u64).wrapping_add(
        (bin * layout.word_size) as u64,
    )
}

/// Fastbin `bin` of an arena was walked with this result: its head was read, and its
/// chunks are those on the free list from there.
pub open spec fn is_walked_bin<M: MemReader>(
    mem: &M,
    layout: &DetectedLayout,
    arena: Arena,
    bin: FastbinBinResult,
) -> bool {
    let head = mem.word_at(head_slot(layout, arena.malloc_state_addr, bin.index as int));
    &&& bin.index < layout.fastbin_count
    &&& head is Ok
    &&& bin.count == fastbin::fastbin_chain(mem, layout, head->Ok_0).0.len()
    &&& bin.size + layout.header_size == layout.minsize + bin.index * layout.malloc_alignment
}

/// What is told of fastbin `bin` of an arena.
pub open spec fn told_of_fastbin<M: MemReader>(
    mem: &M,
    layout: &DetectedLayout,
    arena: Arena,
    bin: int,
    told: ProblemView,
) -> bool {
    let slot = head_slot(layout, arena.malloc_state_addr, bin);
    match mem.word_at(slot) {
        Err(_) => told == (ProblemView::FastbinChunkReadFailed {
            arena: arena.index,
            bin_index: bin as u32,
            address: text::hex(slot as nat),
        }),
        Ok(head) => match fastbin::fastbin_chain(mem, layout, head).1 {
            ChainEnd::Clean => false,
            ChainEnd::Cycle => told == (ProblemView::FastbinCycleDetected {
                arena: arena.index,
                bin_index: bin as u32,
            }),
            ChainEnd::Unreadable(at) => told == (ProblemView::FastbinChunkReadFailed {
                arena: arena.index,
                bin_index: bin as u32,
                address: text::hex(at as nat),
            }),
        },
    }
}

proof fn lemma_add_contains<T>(s: Seq<T>, t: Seq<T>, x: T)
    ensures
        (s + t).contains(x) <==> s.contains(x) || t.contains(x),
{
    if s.contains(x) {
        let k = choose|k: int| 0 <= k < s.len() && s[k] == x;
        assert((s + t)[k] == x);
    }
    if t.contains(x) {
        let k = choose|k: int| 0 <= k < t.len() && t[k] == x;
        assert((s + t)[s.len() + k] == x);
    }
    if (s + t).contains(x) {
        let k = choose|k: int| 0 <= k < (s + t).len() && (s + t)[k] == x;
        if k < s.len() {
            assert(s[k] == x);
        } else {
            assert(t[k - s.len()] == x);
        }
    }
}

proof fn lemma_fastbins<M: MemReader>(
    mem: &M,
    layout: &DetectedLayout,
    arena: Arena,
    bin: int,
    told: ProblemView,
)
    requires
        layout.header_size <= layout.minsize,
        0 <= bin <= layout.fastbin_count,
    ensures
        ({
            let r = arenas::fastbins_from(mem, layout, arena, bin);
            &&& forall|i: int|
                0 <= i < r.0.len() ==> (#[trigger] r.0[i]).index >= bin && is_walked_bin(
                    mem,
                    layout,
                    arena,
                    r.0[i],
                )
            &&& forall|i: int, j: int|
                0 <= i < j < r.0.len() ==> (#[trigger] r.0[i]).index < (#[trigger] r.0[j]).index
            &&& forall|b: int|
                bin <= b < layout.fastbin_count && mem.word_at(
                    #[trigger] head_slot(layout, arena.malloc_state_addr, b),
                ) is Ok ==> exists|i: int| 0 <= i < r.0.len() && (#[trigger] r.0[i]).index == b
            &&& r.1.contains(told) <==> exists|b: int|
                bin <= b < layout.fastbin_count && #[trigger] told_of_fastbin(
                    mem,
                    layout,
                    arena,
                    b,
                    told,
                )
        }),
    decreases layout.fastbin_count - bin,
{
    let r = arenas::fastbins_from(mem, layout, arena, bin);
    if bin < layout.fastbin_count {
        lemma_fastbins(mem, layout, arena, bin + 1, told);
        let rest = arenas::fastbins_from(mem, layout, arena, bin + 1);
        let slot = head_slot(layout, arena.malloc_state_addr, bin);
        match mem.word_at(slot) {
            Err(_) => {
                let own = seq![
                    ProblemView::FastbinChunkReadFailed {
                        arena: arena.index,
                        bin_index: bin as u32,
                        address: text::hex(slot as nat),
                    },
                ];
                assert(r.1 == own + rest.1);
                lemma_add_contains(own, rest.1, told);
                assert(own.contains(told) <==> own[0] == told);
                assert(r.0 == rest.0);
            },
            Ok(head) => {
                let chain = fastbin::fastbin_chain(mem, layout, head);
                let own = fastbin::end_problems(chain.1, arena.index, bin as u32);
                assert(r.1 == own + rest.1);
                lemma_add_contains(own, rest.1, told);
                assert(own.contains(told) <==> own.len() > 0 && own[0] == told);
                fastbin::law_chain_nodes_are_distinct(
                    mem,
                    layout.capabilities.has_safe_linking,
                    (2 * layout.word_size) as u64,
                    head,
                );
                chain_laws::law_bin_sizes(layout, bin as u32);
                let result = r.0[0];
                assert(r.0 == seq![result] + rest.0);
                assert(is_walked_bin(mem, layout, arena, result));
                assert forall|i: int| 0 <= i < r.0.len() implies (#[trigger] r.0[i]).index >= bin
                    && is_walked_bin(mem, layout, arena, r.0[i]) by {
                    if i > 0 {
                        assert(rest.0[i - 1] == r.0[i]);
                    }
                }
                assert forall|i: int, j: int| 0 <= i < j < r.0.len() implies (
                #[trigger] r.0[i]).index < (#[trigger] r.0[j]).index by {
                    assert(rest.0[j - 1] == r.0[j]);
                    if i > 0 {
                        assert(rest.0[i - 1] == r.0[i]);
                    }
                }
            },
        }
        assert forall|b: int|
            bin <= b < layout.fastbin_count && mem.word_at(
                #[trigger] head_slot(layout, arena.malloc_state_addr, b),
            ) is Ok implies exists|i: int|
            0 <= i < r.0.len() && (#[trigger] r.0[i]).index == b by {
            if b == bin {
                assert(r.0[0].index == b);
            } else {
                let i = choose|i: int| 0 <= i < rest.0.len() && (#[trigger] rest.0[i]).index == b;
                if mem.word_at(slot) is Ok {
                    assert(r.0[i + 1] == rest.0[i]);
                } else {
                    assert(r.0[i] == rest.0[i]);
                }
            }
        }
        let here = told_of_fastbin(mem, layout, arena, bin, told);
        assert(r.1.contains(told) <==> here || rest.1.contains(told));
        if exists|b: int|
            bin <= b < layout.fastbin_count && #[trigger] told_of_fastbin(
                mem,
                layout,
                arena,
                b,
                told,
            ) {
            let b = choose|b: int|
                bin <= b < layout.fastbin_count && #[trigger] told_of_fastbin(
                    mem,
                    layout,
                    arena,
                    b,
                    told,
                );
            if b > bin {
                assert(bin + 1 <= b && told_of_fastbin(mem, layout, arena, b, told));
                assert(rest.1.contains(told));
            }
        }
    }
}

/// Every fastbin of an arena whose head can be read is walked once, by ascending index,
/// and counts the chunks on its free list; of each bin it is told what is wrong with
/// it, and nothing else.
pub proof fn law_fastbins_are_walked<M: MemReader>(
    mem: &M,
    layout: &DetectedLayout,
    arena: Arena,
    told: ProblemView,
)
    requires
        layout.header_size <= layout.minsize,
    ensures
        ({
            let r = arenas::fastbins_from(mem, layout, arena, 0);
            &&& forall|i: int|
                0 <= i < r.0.len() ==> is_walked_bin(mem, layout, arena, #[trigger] r.0[i])
            &&& forall|i: int, j: int|
                0 <= i < j < r.0.len() ==> (#[trigger] r.0[i]).index < (#[trigger] r.0[j]).index
            &&& forall|b: int|
                0 <= b < layout.fastbin_count && mem.word_at(
                    #[trigger] head_slot(layout, arena.malloc_state_addr, b),
                ) is Ok ==> exists|i: int| 0 <= i < r.0.len() && (#[trigger] r.0[i]).index == b
            &&& r.1.contains(told) <==> exists|b: int|
                0 <= b < layout.fastbin_count && #[trigger] told_of_fastbin(
                    mem,
                    layout,
                    arena,
                    b,
                    told,
                )
        }),
{
    lemma_fastbins(mem, layout, arena, 0, told);
}

/// The threads that are attached to an arena are those bound to its address, in order,
/// and no others.
pub proof fn law_attached_threads_are_those_bound(
    threads: Seq<Thread>,
    bound_to: Map<i32, u64>,
    addr: u64,
    thread: Thread,
)
    ensures
        arenas::attached(Seq::empty(), bound_to, addr).len() == 0,
        arenas::attached(threads.push(thread), bound_to, addr) == if bound_to.contains_key(
            thread.thread_id,
        ) && bound_to[thread.thread_id] == addr {
            arenas::attached(threads, bound_to, addr).push(thread.thread_id)
        } else {
            arenas::attached(threads, bound_to, addr)
        },
{
    reveal(Seq::filter);
    let bound = |t: Thread| arenas::bound_there(bound_to, addr, t);
    let id = |t: Thread| t.thread_id;
    assert(threads.push(thread).drop_last() =~= threads);
    assert(threads.filter(bound).push(thread).map_values(id) =~= threads.filter(bound).map_values(
        id,
    ).push(thread.thread_id));
}

proof fn lemma_chunks_skip<M: MemReader>(
    mem: &M,
    layout: &DetectedLayout,
    arena: Arena,
    heaps: Seq<Heap>,
    i: int,
)
    requires
        0 <= i <= heaps.len(),
    ensures
        arenas::chunks_from(mem, layout, arena, heaps, i) == arenas::chunks_from(
            mem,
            layout,
            arena,
            heaps.skip(i),
            0,
        ),
    decreases heaps.len() - i,
{
    if i < heaps.len() {
        lemma_chunks_skip(mem, layout, arena, heaps, i + 1);
        lemma_chunks_skip(mem, layout, arena, heaps.skip(i), 1);
        assert(heaps.skip(i).skip(1) =~= heaps.skip(i + 1));
    }
}

/// The chunks of an arena are those of its heaps, one heap after the other, each walked
/// over its own region; so is what is told of them.
pub proof fn law_chunks_are_those_of_every_heap<M: MemReader>(
    mem: &M,
    layout: &DetectedLayout,
    arena: Arena,
    heap: Heap,
    heaps: Seq<Heap>,
)
    ensures
        ({
            let none = arenas::chunks_from(mem, layout, arena, Seq::empty(), 0);
            let here = walk::region(
                mem,
                layout,
                arena.index,
                heap.region_start,
                heap.region_end,
                arena.index == 0,
            );
            let rest = arenas::chunks_from(mem, layout, arena, heaps, 0);
            let all = arenas::chunks_from(mem, layout, arena, seq![heap] + heaps, 0);
            &&& none.0.len() == 0 && none.1.len() == 0
            &&& all.0 == here.0 + rest.0
            &&& all.1 == here.1 + rest.1
        }),
{
    let all = seq![heap] + heaps;
    lemma_chunks_skip(mem, layout, arena, all, 1);
    assert(all.skip(1) =~= heaps);
}

/// A list of sizes has one bucket per size of which there are chunks, by ascending size,
/// with their number and their bytes.
pub open spec fn lists_sizes(list: Seq<SizeBucket>, number: spec_fn(u64) -> int) -> bool {
    &&& forall|i: int, j: int|
        0 <= i < j < list.len() ==> (#[trigger] list[i]).size < (#[trigger] list[j]).size
    &&& forall|i: int|
        0 <= i < list.len() ==> {
            &&& (#[trigger] list[i]).count == number(list[i].size)
            &&& list[i].count > 0
            &&& list[i].bytes == stats_laws::held(list[i].size * list[i].count)
        }
    &&& forall|size: u64|
        #[trigger] number(size) > 0 ==> exists|i: int|
            0 <= i < list.len() && (#[trigger] list[i]).size == size
}

proof fn lemma_lists_sizes(
    list: Seq<SizeBucket>,
    histogram: Map<u64, u64>,
    number: spec_fn(u64) -> int,
)
    requires
        crate::report::model::lists_buckets(list, histogram),
        forall|size: u64| #[trigger] number(size) == stats::chunks_of(histogram, size),
    ensures
        lists_sizes(list, number),
{
    assert forall|i: int| 0 <= i < list.len() implies {
        &&& (#[trigger] list[i]).count == number(list[i].size)
        &&& list[i].count > 0
        &&& list[i].bytes == stats_laws::held(list[i].size * list[i].count)
    } by {
        let (size, count) = (list[i].size, list[i].count);
        assert(number(size) == stats::chunks_of(histogram, size));
        assert(size * count >= 0) by (nonlinear_arith)
            requires
                size >= 0,
                count >= 0,
        ;
    }
    assert forall|size: u64| #[trigger] number(size) > 0 implies exists|i: int|
        0 <= i < list.len() && (#[trigger] list[i]).size == size by {
        let want = crate::report::model::bucket_of(size, histogram[size]);
        assert(histogram.contains_key(size) && histogram[size] > 0);
        assert(list.contains(want));
        let i = choose|i: int| 0 <= i < list.len() && list[i] == want;
        assert(list[i].size == size);
    }
}

/// Bytes of heaps.
pub open spec fn heap_bytes(heaps: Seq<Heap>, of: spec_fn(Heap) -> u64) -> int
    decreases heaps.len(),
{
    if heaps.len() == 0 {
        0
    } else {
        of(heaps[0]) + heap_bytes(heaps.drop_first(), of)
    }
}

proof fn lemma_heap_bytes(heaps: Seq<Heap>)
    ensures
        crate::report::model::total_size(heaps) == heap_bytes(heaps, |h: Heap| h.size),
        crate::report::model::total_committed(heaps) == heap_bytes(
            heaps,
            |h: Heap| h.mprotect_size,
        ),
    decreases heaps.len(),
{
    let size = |h: Heap| h.size;
    let committed = |h: Heap| h.mprotect_size;
    if heaps.len() > 0 {
        lemma_heap_bytes(heaps.drop_last());
        lemma_heap_bytes_last(heaps, size);
        lemma_heap_bytes_last(heaps, committed);
    }
}

proof fn lemma_heap_bytes_last(heaps: Seq<Heap>, of: spec_fn(Heap) -> u64)
    requires
        heaps.len() > 0,
    ensures
        heap_bytes(heaps, of) == heap_bytes(heaps.drop_last(), of) + of(heaps.last()),
    decreases heaps.len(),
{
    if heaps.len() > 1 {
        lemma_heap_bytes_last(heaps.drop_first(), of);
        assert(heaps.drop_first().drop_last() =~= heaps.drop_last().drop_first());
        assert(heaps.drop_first().last() == heaps.last());
        assert(heaps.drop_last()[0] == heaps[0]);
    } else {
        assert(heaps.drop_first() =~= Seq::empty());
        assert(heaps.drop_last() =~= Seq::empty());
        reveal_with_fuel(heap_bytes, 2);
    }
}

/// A report on an arena says what its memory holds: how many heaps there are and their
/// extents; how many of the chunks of all of them are allocated and how many free, with
/// those that fastbins hold moved to the free ones, and their bytes; one bucket per
/// size; each fastbin and each tcache bin that has chunks; a header per chunk. An arena
/// whose heaps cannot be listed has an empty entry.
pub proof fn law_report_says_what_memory_holds<M: MemReader>(
    report: ArenaReport,
    mem: &M,
    layout: &DetectedLayout,
    libc_addr: u64,
    arena: Arena,
    threads: Seq<i32>,
    owners: Map<u64, (i32, u32)>,
)
    requires
        layout.header_size <= layout.minsize,
        arenas::reports_arena(report, mem, layout, libc_addr, arena, threads, owners),
    ensures
        report.index == arena.index,
        report.is_main == (arena.index == 0),
        report.attached_threads@ == threads,
        heap_list::heaps(mem, layout, libc_addr, arena) is Err ==> {
            &&& report.heaps.count == 0 && report.heaps.total_bytes == 0
            &&& report.heaps.committed_bytes == 0
            &&& report.allocated.count == 0 && report.allocated.bytes == 0
            &&& report.free.count == 0 && report.free.bytes == 0
            &&& report.overhead.count == 0 && report.overhead.bytes == 0
            &&& report.allocated.size_histogram@.len() == 0
            &&& report.free.size_histogram@.len() == 0
            &&& report.free.fastbins@.len() == 0
            &&& report.free.tcache.bins@.len() == 0
            &&& report.free.tcache.tcache_threads@.len() == 0
        },
        heap_list::heaps(mem, layout, libc_addr, arena) matches Ok(listed) ==> ({
            let heaps = listed.0;
            let events = arenas::chunks_from(mem, layout, arena, heaps, 0).0;
            let fastbins = arenas::fastbins_from(mem, layout, arena, 0).0;
            let allocated = |e: ChunkEvent| stats_laws::is_allocated(owners, e);
            let free = |e: ChunkEvent| !stats_laws::is_allocated(owners, e);
            let moved = stats_laws::in_fastbins(fastbins, None) as int;
            let moved_bytes = stats_laws::fastbin_bytes(fastbins);
            &&& heaps.len() <= u64::MAX ==> report.heaps.count == heaps.len()
            &&& report.heaps.total_bytes == stats_laws::held(
                heap_bytes(heaps, |h: Heap| h.size),
            )
            &&& report.heaps.committed_bytes == stats_laws::held(
                heap_bytes(heaps, |h: Heap| h.mprotect_size),
            )
            &&& report.allocated.count == stats_laws::held(
                stats_laws::held(stats_laws::chunks(events, allocated) as int) - moved,
            )
            &&& report.allocated.bytes == stats_laws::held(
                stats_laws::held(stats_laws::bytes(events, allocated) as int) - moved_bytes,
            )
            &&& report.free.count == stats_laws::held(stats_laws::chunks(events, free) + moved)
            &&& report.free.bytes == stats_laws::held(
                stats_laws::bytes(events, free) + moved_bytes,
            )
            &&& report.overhead.count == events.len()
            &&& report.overhead.bytes == stats_laws::held(events.len() * layout.header_size)
            &&& lists_sizes(
                report.allocated.size_histogram@,
                |size: u64|
                    stats_laws::held(
                        stats_laws::held(
                            stats_laws::chunks(
                                events,
                                |e: ChunkEvent|
                                    stats_laws::is_allocated(owners, e) && e.user_size == size,
                            ) as int,
                        ) - stats_laws::in_fastbins(fastbins, Some(size)),
                    ),
            )
            &&& lists_sizes(
                report.free.size_histogram@,
                |size: u64|
                    stats_laws::held(
                        stats_laws::chunks(
                            events,
                            |e: ChunkEvent|
                                !stats_laws::is_allocated(owners, e) && e.user_size == size,
                        ) as int + stats_laws::in_fastbins(fastbins, Some(size)),
                    ),
            )
        }),
{
    if let Ok(listed) = heap_list::heaps(mem, layout, libc_addr, arena) {
        let heaps = listed.0;
        let events = arenas::chunks_from(mem, layout, arena, heaps, 0).0;
        let fastbins = arenas::fastbins_from(mem, layout, arena, 0).0;
        let s = choose|s: ArenaStats| #[trigger]
            stats::stats_are(s, layout, arena.index, events, owners, fastbins) && report.sums_up(
                heaps,
                s,
            );
        lemma_heap_bytes(heaps);
        stats_laws::law_chunks_are_sorted_by_what_they_are(
            s,
            layout,
            arena.index,
            events,
            owners,
            fastbins,
            0,
        );
        let allocated_of = |size: u64|
            stats_laws::held(
                stats_laws::held(
                    stats_laws::chunks(
                        events,
                        |e: ChunkEvent| stats_laws::is_allocated(owners, e) && e.user_size == size,
                    ) as int,
                ) - stats_laws::in_fastbins(fastbins, Some(size)),
            );
        let free_of = |size: u64|
            stats_laws::held(
                stats_laws::chunks(
                    events,
                    |e: ChunkEvent| !stats_laws::is_allocated(owners, e) && e.user_size == size,
                ) as int + stats_laws::in_fastbins(fastbins, Some(size)),
            );
        assert forall|size: u64| #[trigger] allocated_of(size) == stats::chunks_of(
            s.allocated.histogram@,
            size,
        ) by {
            stats_laws::law_chunks_are_sorted_by_what_they_are(
                s,
                layout,
                arena.index,
                events,
                owners,
                fastbins,
                size,
            );
        }
        assert forall|size: u64| #[trigger] free_of(size) == stats::chunks_of(
            s.free.tally.histogram@,
            size,
        ) by {
            stats_laws::law_chunks_are_sorted_by_what_they_are(
                s,
                layout,
                arena.index,
                events,
                owners,
                fastbins,
                size,
            );
        }
        lemma_lists_sizes(
            report.allocated.size_histogram@,
            s.allocated.histogram@,
            allocated_of,
        );
        lemma_lists_sizes(report.free.size_histogram@, s.free.tally.histogram@, free_of);
    }
}

/// A report on an arena lists its heaps by number, its fastbins that have chunks and the
/// tcache bins that have chunks of it, with the threads they belong to.
pub proof fn law_report_lists_bins<M: MemReader>(
    report: ArenaReport,
    mem: &M,
    layout: &DetectedLayout,
    libc_addr: u64,
    arena: Arena,
    threads: Seq<i32>,
    owners: Map<u64, (i32, u32)>,
    bin: u32,
    thread_id: i32,
)
    requires
        layout.header_size <= layout.minsize,
        arenas::reports_arena(report, mem, layout, libc_addr, arena, threads, owners),
        heap_list::heaps(mem, layout, libc_addr, arena) is Ok,
    ensures
        ({
            let heaps = heap_list::heaps(mem, layout, libc_addr, arena)->Ok_0.0;
            let events = arenas::chunks_from(mem, layout, arena, heaps, 0).0;
            let given = arenas::fastbins_from(mem, layout, arena, 0).0.filter(
                |b: FastbinBinResult| b.count > 0,
            );
            let here = stats_laws::chunks(
                events,
                |e: ChunkEvent| stats_laws::is_cached(owners, e) && owners[e.user_addr].1 == bin,
            );
            let fastbins = report.free.fastbins@;
            let bins = report.free.tcache.bins@;
            let ids = report.free.tcache.tcache_threads@;
            &&& fastbins.len() == given.len()
            &&& forall|i: int|
                0 <= i < fastbins.len() ==> {
                    &&& (#[trigger] fastbins[i]).index == given[i].index
                    &&& fastbins[i].size == given[i].size
                    &&& fastbins[i].count == given[i].count
                    &&& fastbins[i].bytes == stats_laws::held(given[i].size * given[i].count)
                }
            &&& forall|i: int, j: int|
                0 <= i < j < bins.len() ==> (#[trigger] bins[i]).index < (#[trigger] bins[j]).index
            &&& here > 0 <==> exists|i: int|
                0 <= i < bins.len() && (#[trigger] bins[i]).index == bin
            &&& forall|i: int|
                0 <= i < bins.len() && (#[trigger] bins[i]).index == bin ==> {
                    &&& bins[i].count == here
                    &&& bins[i].size + layout.header_size == layout.minsize + bin
                        * layout.malloc_alignment
                    &&& bins[i].bytes == stats_laws::held(bins[i].size * bins[i].count)
                }
            &&& forall|i: int, j: int|
                0 <= i < j < ids.len() ==> (#[trigger] ids[i]) < (#[trigger] ids[j])
            &&& ids.contains(thread_id) <==> exists|i: int|
                0 <= i < events.len() && stats_laws::is_cached(owners, #[trigger] events[i])
                    && owners[events[i].user_addr].0 == thread_id
        }),
{
    let heaps = heap_list::heaps(mem, layout, libc_addr, arena)->Ok_0.0;
    let events = arenas::chunks_from(mem, layout, arena, heaps, 0).0;
    let fastbins = arenas::fastbins_from(mem, layout, arena, 0).0;
    let s = choose|s: ArenaStats| #[trigger]
        stats::stats_are(s, layout, arena.index, events, owners, fastbins) && report.sums_up(
            heaps,
            s,
        );
    stats_laws::law_fastbins_are_listed_as_given(s, layout, arena.index, events, owners, fastbins);
    stats_laws::law_tcache_bins_count_walked_chunks(
        s,
        layout,
        arena.index,
        events,
        owners,
        fastbins,
        bin,
        thread_id,
    );
    let listed = s.free.fastbins@;
    let bins = report.free.tcache.bins@;
    assert(report.free.fastbins@.len() == listed.len());
    assert forall|i: int| 0 <= i < report.free.fastbins@.len() implies {
        let b = #[trigger] report.free.fastbins@[i];
        b.index == listed[i].index && b.size == listed[i].size && b.count == listed[i].count
            && b.bytes == listed[i].bytes
    } by {}
    let caches = s.free.tcache_bins@;
    assert(bins.len() == caches.len());
    assert forall|i: int| 0 <= i < bins.len() implies {
        let b = #[trigger] bins[i];
        b.index == caches[i].index && b.size == caches[i].size && b.count == caches[i].count
            && b.bytes == caches[i].bytes
    } by {}
    if exists|i: int| 0 <= i < caches.len() && (#[trigger] caches[i]).index == bin {
        let i = choose|i: int| 0 <= i < caches.len() && (#[trigger] caches[i]).index == bin;
        assert(bins[i].index == bin);
    }
    if exists|i: int| 0 <= i < bins.len() && (#[trigger] bins[i]).index == bin {
        let i = choose|i: int| 0 <= i < bins.len() && (#[trigger] bins[i]).index == bin;
        assert(caches[i].index == bin);
    }
    assert(s.free.tcache_threads@.contains(thread_id)
        <==> report.free.tcache.tcache_threads@.contains(thread_id));
}

/// An arena makes the analysis fail exactly where it is the main one and its heaps
/// cannot be listed, and then with what stopped the listing.
pub proof fn law_only_the_main_arena_fails<M: MemReader>(
    mem: &M,
    layout: &DetectedLayout,
    libc_addr: u64,
    all: Seq<Arena>,
)
    requires
        all.len() > 0,
        forall|i: int| 0 <= i < all.len() ==> (#[trigger] all[i]).index == i,
    ensures
        arenas::failure_from(mem, layout, libc_addr, all, 0) == match heap_list::heaps(
            mem,
            layout,
            libc_addr,
            all[0],
        ) {
            Err(e) => Some(e),
            Ok(_) => None::<error::ErrorView>,
        },
{
    lemma_no_later_failure(mem, layout, libc_addr, all, 1);
}

proof fn lemma_no_later_failure<M: MemReader>(
    mem: &M,
    layout: &DetectedLayout,
    libc_addr: u64,
    all: Seq<Arena>,
    i: int,
)
    requires
        0 < i <= all.len(),
        forall|i: int| 0 <= i < all.len() ==> (#[trigger] all[i]).index == i,
    ensures
        arenas::failure_from(mem, layout, libc_addr, all, i) is None,
    decreases all.len() - i,
{
    if i < all.len() {
        assert(all[i].index == i);
        lemma_no_later_failure(mem, layout, libc_addr, all, i + 1);
    }
}

/// A problem of one arena: of its heaps, of its chunks, of its fastbins or of its
/// statistics, or that its heaps could not be listed.
pub open spec fn told_of_arena<M: MemReader>(
    mem: &M,
    layout: &DetectedLayout,
    libc_addr: u64,
    arena: Arena,
    owners: Map<u64, (i32, u32)>,
    told: ProblemView,
) -> bool {
    match heap_list::heaps(mem, layout, libc_addr, arena) {
        Err(_) => told == (ProblemView::HeapWalkTruncated {
            arena: arena.index,
            reason: "heap list start unreadable"@,
        }),
        Ok(listed) => {
            ||| listed.1.contains(told)
            ||| arenas::chunks_from(mem, layout, arena, listed.0, 0).1.contains(told)
            ||| arenas::fastbins_from(mem, layout, arena, 0).1.contains(told)
            ||| stats::binned_totals(
                stats::event_totals(
                    arenas::chunks_from(mem, layout, arena, listed.0, 0).0,
                    owners,
                ),
                arena.index,
                arenas::fastbins_from(mem, layout, arena, 0).0,
            ).problems.contains(told)
        },
    }
}

proof fn lemma_told_from<M: MemReader>(
    mem: &M,
    layout: &DetectedLayout,
    libc_addr: u64,
    all: Seq<Arena>,
    owners: Map<u64, (i32, u32)>,
    i: int,
    told: ProblemView,
)
    requires
        0 <= i <= all.len(),
    ensures
        arenas::problems_from(mem, layout, libc_addr, all, owners, i).contains(told) <==> exists|
            k: int,
        |
            i <= k < all.len() && told_of_arena(
                mem,
                layout,
                libc_addr,
                #[trigger] all[k],
                owners,
                told,
            ),
    decreases all.len() - i,
{
    if i < all.len() {
        lemma_told_from(mem, layout, libc_addr, all, owners, i + 1, told);
        let own = arenas::arena_problems(mem, layout, libc_addr, all[i], owners);
        lemma_add_contains(
            own,
            arenas::problems_from(mem, layout, libc_addr, all, owners, i + 1),
            told,
        );
        lemma_told_here(mem, layout, libc_addr, all[i], owners, told);
        if told_of_arena(mem, layout, libc_addr, all[i], owners, told) {
            assert(told_of_arena(mem, layout, libc_addr, all[i], owners, told));
        }
    }
}

proof fn lemma_told_here<M: MemReader>(
    mem: &M,
    layout: &DetectedLayout,
    libc_addr: u64,
    arena: Arena,
    owners: Map<u64, (i32, u32)>,
    told: ProblemView,
)
    ensures
        arenas::arena_problems(mem, layout, libc_addr, arena, owners).contains(told)
            <==> told_of_arena(mem, layout, libc_addr, arena, owners, told),
{
    match heap_list::heaps(mem, layout, libc_addr, arena) {
        Err(_) => {
            let own = arenas::arena_problems(mem, layout, libc_addr, arena, owners);
            assert(own.contains(told) <==> own[0] == told);
        },
        Ok(listed) => {
            let chunks = arenas::chunks_from(mem, layout, arena, listed.0, 0);
            let bins = arenas::fastbins_from(mem, layout, arena, 0);
            let counted = stats::binned_totals(
                stats::event_totals(chunks.0, owners),
                arena.index,
                bins.0,
            ).problems;
            lemma_add_contains(listed.1 + chunks.1 + bins.1, counted, told);
            lemma_add_contains(listed.1 + chunks.1, bins.1, told);
            lemma_add_contains(listed.1, chunks.1, told);
        },
    }
}

/// Every arena is told of: a problem is among those of the arenas exactly where it is
/// one of some arena.
pub proof fn law_every_arena_is_told_of<M: MemReader>(
    mem: &M,
    layout: &DetectedLayout,
    libc_addr: u64,
    all: Seq<Arena>,
    owners: Map<u64, (i32, u32)>,
    told: ProblemView,
)
    ensures
        arenas::problems_from(mem, layout, libc_addr, all, owners, 0).contains(told) <==> exists|
            k: int,
        |
            0 <= k < all.len() && told_of_arena(
                mem,
                layout,
                libc_addr,
                #[trigger] all[k],
                owners,
                told,
            ),
{
    lemma_told_from(mem, layout, libc_addr, all, owners, 0, told);
}

} // verus!
