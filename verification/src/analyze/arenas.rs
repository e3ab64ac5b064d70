//! From an arena to its entry in the report.

use std::collections::HashMap;

use vstd::prelude::*;

use crate::elf::coredump::Thread;
use crate::elf::MemReader;
use crate::error;
use crate::error::Result;
use crate::glibc::DetectedLayout;
use crate::heap::arena::Arena;
use crate::heap::fastbin;
use crate::heap::fastbin::{walk_fastbin, FastbinBinResult};
use crate::heap::heap_list;
use crate::heap::heap_list::Heap;
use crate::heap::stats;
use crate::heap::stats::{accumulate, ArenaStats};
use crate::heap::walk;
use crate::heap::walk::{walk_region, ChunkEvent};
use crate::problem;
use crate::problem::Problem;
use crate::report::model::ArenaReport;
use crate::text;

use super::tls;
use super::tls::slot_address;

verus! {

/// The fastbins of an arena from index `bin` on, and the problems met in walking
/// them.
pub open spec fn fastbins_from<M: MemReader>(
    mem: &M,
    layout: &DetectedLayout,
    arena: Arena,
    bin: int,
) -> (Seq<FastbinBinResult>, Seq<problem::ProblemView>)
    decreases layout.fastbin_count - bin,
{
    if bin < 0 || bin >= layout.fastbin_count {
        (Seq::empty(), Seq::empty())
    } else {
        let head_addr = tls::slot_at(
            arena.malloc_state_addr,
            layout.fastbin_array_offset,
            bin as u32,
            layout.word_size,
        );
        let rest = fastbins_from(mem, layout, arena, bin + 1);
        match mem.word_at(head_addr) {
            Err(_) => (
                rest.0,
                seq![
                    problem::ProblemView::FastbinChunkReadFailed {
                        arena: arena.index,
                        bin_index: bin as u32,
                        address: text::hex(head_addr as nat),
                    },
                ] + rest.1,
            ),
            Ok(head) => {
                let chain = fastbin::fastbin_chain(mem, layout, head);
                let result = FastbinBinResult {
                    index: bin as u32,
                    size: fastbin::bin_size(layout, bin as u32),
                    count: chain.0.len() as u64,
                };
                (
                    seq![result] + rest.0,
                    fastbin::end_problems(chain.1, arena.index, bin as u32) + rest.1,
                )
            },
        }
    }
}

/// Walk the fastbins of an arena.
pub fn walk_arena_fastbins<M: MemReader>(mem: &M, layout: &DetectedLayout, arena: &Arena) -> (r: (
    Vec<FastbinBinResult>,
    Vec<Problem>,
))
    requires
        layout.header_size <= layout.minsize,
    ensures
        (r.0@, problem::views(r.1@)) == fastbins_from(mem, layout, *arena, 0),
{
    let mut results: Vec<FastbinBinResult> = Vec::new();
    let mut problems: Vec<Problem> = problem::none();
    let ghost whole = fastbins_from(mem, layout, *arena, 0);
    let mut bin: u32 = 0;
    assert(results@ + whole.0 =~= whole.0);
    assert(problem::views(problems@) + whole.1 =~= whole.1);
    while bin < layout.fastbin_count
        invariant
            layout.header_size <= layout.minsize,
            bin <= layout.fastbin_count,
            results@ + fastbins_from(mem, layout, *arena, bin as int).0 == whole.0,
            problem::views(problems@) + fastbins_from(mem, layout, *arena, bin as int).1
                == whole.1,
        decreases layout.fastbin_count - bin,
    {
        let ghost before = (results@, problem::views(problems@));
        let ghost rest = fastbins_from(mem, layout, *arena, bin + 1);
        let head_addr: u64 = slot_address(
            arena.malloc_state_addr,
            layout.fastbin_array_offset,
            bin,
            layout.word_size,
        );
        match mem.read_u64(head_addr) {
            Ok(head) => {
                let (result, told) = walk_fastbin(mem, layout, head, arena.index, bin);
                let ghost end = problem::views(told@);
                problem::extend(&mut problems, told);
                results.push(result);
                proof {
                    assert(before.0 + (seq![result] + rest.0) =~= results@ + rest.0);
                    assert(before.1 + (end + rest.1) =~= problem::views(problems@) + rest.1);
                }
            },
            Err(_) => {
                let failed = Problem::FastbinChunkReadFailed {
                    arena: arena.index,
                    bin_index: bin,
                    address: text::hex_string(head_addr),
                };
                problem::push(&mut problems, failed);
                proof {
                    assert(before.1 + (seq![failed@] + rest.1) =~= problem::views(problems@)
                        + rest.1);
                }
            },
        }
        bin = bin + 1;
    }
    proof {
        assert(results@ + Seq::<FastbinBinResult>::empty() =~= results@);
        assert(problem::views(problems@) + Seq::<problem::ProblemView>::empty()
            =~= problem::views(problems@));
    }
    (results, problems)
}

/// A thread is bound to the arena at an address.
pub open spec fn bound_there(bound_to: Map<i32, u64>, addr: u64, thread: Thread) -> bool {
    bound_to.contains_key(thread.thread_id) && bound_to[thread.thread_id] == addr
}

/// The threads bound to the arena at an address, in order.
pub open spec fn attached(threads: Seq<Thread>, bound_to: Map<i32, u64>, addr: u64) -> Seq<i32> {
    threads.filter(|t: Thread| bound_there(bound_to, addr, t)).map_values(
        |t: Thread| t.thread_id,
    )
}

/// Threads currently bound to this arena, via the precomputed map.
pub fn attached_threads(arena: &Arena, threads: &[Thread], map: &HashMap<i32, u64>) -> (r: Vec<i32>)
    ensures
        r@ == attached(threads@, map@, arena.malloc_state_addr),
{
    broadcast use vstd::std_specs::hash::group_hash_axioms;

    let addr: u64 = arena.malloc_state_addr;
    let mut ids: Vec<i32> = Vec::new();
    let mut i: usize = 0;
    proof {
        reveal(Seq::filter);
        assert(attached(threads@.take(0), map@, addr) =~= Seq::empty());
    }
    while i < threads.len()
        invariant
            i <= threads@.len(),
            addr == arena.malloc_state_addr,
            ids@ == attached(threads@.take(i as int), map@, addr),
        decreases threads@.len() - i,
    {
        broadcast use vstd::std_specs::hash::group_hash_axioms;

        let thread: Thread = threads[i];
        let bound: bool = match map.get(&thread.thread_id) {
            Some(at) => *at == addr,
            None => false,
        };
        proof {
            reveal(Seq::filter);
            let now = threads@.take(i + 1);
            assert(now.drop_last() =~= threads@.take(i as int));
            assert(now.last() == thread);
            let kept = now.drop_last().filter(|t: Thread| bound_there(map@, addr, t));
            assert(kept.push(thread).map_values(|t: Thread| t.thread_id) =~= kept.map_values(
                |t: Thread| t.thread_id,
            ).push(thread.thread_id));
        }
        if bound {
            ids.push(thread.thread_id);
        }
        i = i + 1;
    }
    assert(threads@.take(threads@.len() as int) =~= threads@);
    ids
}

/// The chunks of the heaps from index `i` on, and the problems met in walking
/// them.
pub open spec fn chunks_from<M: MemReader>(
    mem: &M,
    layout: &DetectedLayout,
    arena: Arena,
    heaps: Seq<Heap>,
    i: int,
) -> (Seq<ChunkEvent>, Seq<problem::ProblemView>)
    decreases heaps.len() - i,
{
    if i < 0 || i >= heaps.len() {
        (Seq::empty(), Seq::empty())
    } else {
        let here = walk::region(
            mem,
            layout,
            arena.index,
            heaps[i].region_start,
            heaps[i].region_end,
            arena.index == 0,
        );
        let rest = chunks_from(mem, layout, arena, heaps, i + 1);
        (here.0 + rest.0, here.1 + rest.1)
    }
}

/// Walk all of an arena's chunks, across every heap.
pub fn walk_heaps<M: MemReader>(
    mem: &M,
    layout: &DetectedLayout,
    arena: &Arena,
    heaps: &Vec<Heap>,
) -> (r: (Vec<ChunkEvent>, Vec<Problem>))
    requires
        layout.malloc_alignment > 0,
        layout.header_size <= 2 * layout.word_size,
    ensures
        (r.0@, problem::views(r.1@)) == chunks_from(mem, layout, *arena, heaps@, 0),
{
    let mut events: Vec<ChunkEvent> = Vec::new();
    let mut problems: Vec<Problem> = problem::none();
    let ghost whole = chunks_from(mem, layout, *arena, heaps@, 0);
    let mut i: usize = 0;
    assert(events@ + whole.0 =~= whole.0);
    assert(problem::views(problems@) + whole.1 =~= whole.1);
    while i < heaps.len()
        invariant
            layout.malloc_alignment > 0,
            layout.header_size <= 2 * layout.word_size,
            i <= heaps@.len(),
            events@ + chunks_from(mem, layout, *arena, heaps@, i as int).0 == whole.0,
            problem::views(problems@) + chunks_from(mem, layout, *arena, heaps@, i as int).1
                == whole.1,
        decreases heaps@.len() - i,
    {
        let h: Heap = heaps[i];
        let ghost before = (events@, problem::views(problems@));
        let ghost rest = chunks_from(mem, layout, *arena, heaps@, i + 1);
        let (mut found, told): (Vec<ChunkEvent>, Vec<Problem>) = walk_region(
            mem,
            layout,
            arena.index,
            h.region_start,
            h.region_end,
            arena.is_main(),
        );
        let ghost here = (found@, problem::views(told@));
        events.append(&mut found);
        problem::extend(&mut problems, told);
        proof {
            assert(before.0 + (here.0 + rest.0) =~= events@ + rest.0);
            assert(before.1 + (here.1 + rest.1) =~= problem::views(problems@) + rest.1);
        }
        i = i + 1;
    }
    proof {
        assert(events@ + Seq::<ChunkEvent>::empty() =~= events@);
        assert(problem::views(problems@) + Seq::<problem::ProblemView>::empty()
            =~= problem::views(problems@));
    }
    (events, problems)
}

/// Whether a report sums up an arena whose heaps could be listed.
pub open spec fn sums_up_arena<M: MemReader>(
    report: ArenaReport,
    mem: &M,
    layout: &DetectedLayout,
    arena: Arena,
    heaps: Seq<Heap>,
    owners: Map<u64, (i32, u32)>,
) -> bool {
    exists|s: ArenaStats| #[trigger]
        stats::stats_are(
            s,
            layout,
            arena.index,
            chunks_from(mem, layout, arena, heaps, 0).0,
            owners,
            fastbins_from(mem, layout, arena, 0).0,
        ) && report.sums_up(heaps, s)
}

/// Whether a report is that on an arena: a stub where its heaps could not be
/// listed.
pub open spec fn reports_arena<M: MemReader>(
    report: ArenaReport,
    mem: &M,
    layout: &DetectedLayout,
    libc_addr: u64,
    arena: Arena,
    threads: Seq<i32>,
    owners: Map<u64, (i32, u32)>,
) -> bool {
    &&& report.is_of(arena.index, arena.index == 0, threads)
    &&& match heap_list::heaps(mem, layout, libc_addr, arena) {
        Err(_) => report.is_blank(),
        Ok((heaps, _)) => sums_up_arena(report, mem, layout, arena, heaps, owners),
    }
}

/// The problems met in an arena: of its heaps, their chunks, its fastbins, its
/// statistics.
pub open spec fn arena_problems<M: MemReader>(
    mem: &M,
    layout: &DetectedLayout,
    libc_addr: u64,
    arena: Arena,
    owners: Map<u64, (i32, u32)>,
) -> Seq<problem::ProblemView> {
    match heap_list::heaps(mem, layout, libc_addr, arena) {
        Err(_) => walk::truncated(arena.index, "heap list start unreadable"@),
        Ok((heaps, told)) => {
            let chunks = chunks_from(mem, layout, arena, heaps, 0);
            let fastbins = fastbins_from(mem, layout, arena, 0);
            told + chunks.1 + fastbins.1 + stats::binned_totals(
                stats::event_totals(chunks.0, owners),
                arena.index,
                fastbins.0,
            ).problems
        },
    }
}

/// Why an arena makes the analysis fail: the main arena is core to the report, so
/// without its heaps there is none. A secondary arena degrades to a stub.
pub open spec fn arena_failure<M: MemReader>(
    mem: &M,
    layout: &DetectedLayout,
    libc_addr: u64,
    arena: Arena,
) -> Option<error::ErrorView> {
    match heap_list::heaps(mem, layout, libc_addr, arena) {
        Err(e) if arena.index == 0 => Some(e),
        _ => None,
    }
}

/// Report on one arena.
pub fn report_arena<M: MemReader>(
    mem: &M,
    layout: &DetectedLayout,
    libc_addr: u64,
    arena: &Arena,
    attached: Vec<i32>,
    membership: &HashMap<u64, (i32, u32)>,
    problems: &mut Vec<Problem>,
) -> (r: Result<ArenaReport>)
    requires
        layout.is_usable(),
    ensures
        match r {
            Err(e) => arena_failure(mem, layout, libc_addr, *arena) == Some(e@),
            Ok(report) => {
                &&& arena_failure(mem, layout, libc_addr, *arena) is None
                &&& reports_arena(
                    report,
                    mem,
                    layout,
                    libc_addr,
                    *arena,
                    attached@,
                    membership@,
                )
                &&& problem::views(final(problems)@) == problem::views(old(problems)@)
                    + arena_problems(mem, layout, libc_addr, *arena, membership@)
            },
        },
{
    let (heaps, heap_problems): (Vec<Heap>, Vec<Problem>) = match heap_list::list(
        mem,
        layout,
        libc_addr,
        arena,
    ) {
        Ok(v) => v,
        Err(e) => {
            if arena.is_main() {
                return Err(e);
            }
            problem::extend(problems, walk::truncation(arena.index, "heap list start unreadable"));
            return Ok(ArenaReport::stub(arena.index, arena.is_main(), attached));
        },
    };
    let ghost before = problem::views(problems@);
    let ghost told = problem::views(heap_problems@);
    problem::extend(problems, heap_problems);
    let (events, walk_problems) = walk_heaps(mem, layout, arena, &heaps);
    problem::extend(problems, walk_problems);
    // Fastbins belong to the arena, so walk them once here (not per heap).
    let (fastbins, bin_problems) = walk_arena_fastbins(mem, layout, arena);
    problem::extend(problems, bin_problems);
    let (stats, stat_problems) = accumulate(layout, arena.index, &events, membership, &fastbins);
    problem::extend(problems, stat_problems);
    let report = ArenaReport::build(arena.index, arena.is_main(), attached, &heaps, &stats);
    proof {
        let chunks = chunks_from(mem, layout, *arena, heaps@, 0);
        let bins = fastbins_from(mem, layout, *arena, 0);
        let counted = stats::binned_totals(
            stats::event_totals(chunks.0, membership@),
            arena.index,
            bins.0,
        ).problems;
        assert(before + told + chunks.1 + bins.1 + counted =~= before + (told + chunks.1 + bins.1
            + counted));
        assert(sums_up_arena(report, mem, layout, *arena, heaps@, membership@));
    }
    Ok(report)
}

/// The problems met in the arenas from index `i` on.
pub open spec fn problems_from<M: MemReader>(
    mem: &M,
    layout: &DetectedLayout,
    libc_addr: u64,
    arenas: Seq<Arena>,
    owners: Map<u64, (i32, u32)>,
    i: int,
) -> Seq<problem::ProblemView>
    decreases arenas.len() - i,
{
    if i < 0 || i >= arenas.len() {
        Seq::empty()
    } else {
        arena_problems(mem, layout, libc_addr, arenas[i], owners) + problems_from(
            mem,
            layout,
            libc_addr,
            arenas,
            owners,
            i + 1,
        )
    }
}

/// Why the arenas from index `i` on make the analysis fail, if they do.
pub open spec fn failure_from<M: MemReader>(
    mem: &M,
    layout: &DetectedLayout,
    libc_addr: u64,
    arenas: Seq<Arena>,
    i: int,
) -> Option<error::ErrorView>
    decreases arenas.len() - i,
{
    if i < 0 || i >= arenas.len() {
        None
    } else {
        match arena_failure(mem, layout, libc_addr, arenas[i]) {
            Some(e) => Some(e),
            None => failure_from(mem, layout, libc_addr, arenas, i + 1),
        }
    }
}

/// Whether there is one report per arena, in order.
pub open spec fn report_all<M: MemReader>(
    reports: Seq<ArenaReport>,
    mem: &M,
    layout: &DetectedLayout,
    libc_addr: u64,
    arenas: Seq<Arena>,
    threads: Seq<Thread>,
    tls: tls::Tls,
) -> bool {
    &&& reports.len() == arenas.len()
    &&& forall|i: int|
        0 <= i < arenas.len() ==> reports_arena(
            #[trigger] reports[i],
            mem,
            layout,
            libc_addr,
            arenas[i],
            attached(threads, tls.bound_to, arenas[i].malloc_state_addr),
            tls.cached.owners,
        )
}

/// Report on every arena.
pub fn report_arenas<M: MemReader>(
    mem: &M,
    layout: &DetectedLayout,
    libc_addr: u64,
    arenas: &Vec<Arena>,
    threads: &Vec<Thread>,
    info: &tls::TlsInfo,
    problems: &mut Vec<Problem>,
) -> (r: Result<Vec<ArenaReport>>)
    requires
        layout.is_usable(),
    ensures
        match r {
            Err(e) => failure_from(mem, layout, libc_addr, arenas@, 0) == Some(e@),
            Ok(reports) => {
                &&& failure_from(mem, layout, libc_addr, arenas@, 0) is None
                &&& report_all(
                    reports@,
                    mem,
                    layout,
                    libc_addr,
                    arenas@,
                    threads@,
                    tls::tls_view(*info, Seq::empty()),
                )
                &&& problem::views(final(problems)@) == problem::views(old(problems)@)
                    + problems_from(
                    mem,
                    layout,
                    libc_addr,
                    arenas@,
                    info.tcache_membership@,
                    0,
                )
            },
        },
{
    let ghost owners = info.tcache_membership@;
    let ghost told = problem::views(problems@);
    let ghost whole = problems_from(mem, layout, libc_addr, arenas@, owners, 0);
    let mut reports: Vec<ArenaReport> = Vec::new();
    let mut i: usize = 0;
    while i < arenas.len()
        invariant
            layout.is_usable(),
            i <= arenas@.len(),
            owners == info.tcache_membership@,
            reports@.len() == i,
            forall|k: int|
                0 <= k < i ==> reports_arena(
                    #[trigger] reports@[k],
                    mem,
                    layout,
                    libc_addr,
                    arenas@[k],
                    attached(threads@, info.thread_arena_map@, arenas@[k].malloc_state_addr),
                    owners,
                ),
            failure_from(mem, layout, libc_addr, arenas@, i as int) == failure_from(
                mem,
                layout,
                libc_addr,
                arenas@,
                0,
            ),
            problem::views(problems@) + problems_from(
                mem,
                layout,
                libc_addr,
                arenas@,
                owners,
                i as int,
            ) == told + whole,
        decreases arenas@.len() - i,
    {
        let arena: Arena = arenas[i];
        let ghost before = problem::views(problems@);
        let ghost rest = problems_from(mem, layout, libc_addr, arenas@, owners, i + 1);
        let bound: Vec<i32> = attached_threads(&arena, threads, &info.thread_arena_map);
        let report = match report_arena(
            mem,
            layout,
            libc_addr,
            &arena,
            bound,
            &info.tcache_membership,
            problems,
        ) {
            Ok(report) => report,
            Err(e) => return Err(e),
        };
        proof {
            let here = arena_problems(mem, layout, libc_addr, arena, owners);
            assert(before + (here + rest) =~= problem::views(problems@) + rest);
        }
        reports.push(report);
        i = i + 1;
    }
    assert(problem::views(problems@) + Seq::<problem::ProblemView>::empty() =~= problem::views(
        problems@,
    ));
    Ok(reports)
}

/// In a report on an arena of which no inconsistency is told, every walked chunk
/// is counted once: allocated and free chunks add up to the headers.
pub proof fn law_arena_counts_balance<M: MemReader>(
    report: ArenaReport,
    mem: &M,
    layout: &DetectedLayout,
    libc_addr: u64,
    arena: Arena,
    threads: Seq<i32>,
    owners: Map<u64, (i32, u32)>,
)
    requires
        reports_arena(report, mem, layout, libc_addr, arena, threads, owners),
        forall|i: int|
            0 <= i < arena_problems(mem, layout, libc_addr, arena, owners).len() ==> !(
            #[trigger] arena_problems(mem, layout, libc_addr, arena, owners)[i]
                is StatsInconsistent),
    ensures
        report.allocated.count + report.free.count == report.overhead.count,
{
    match heap_list::heaps(mem, layout, libc_addr, arena) {
        Err(_) => {},
        Ok((heaps, told)) => {
            let chunks = chunks_from(mem, layout, arena, heaps, 0);
            let bins = fastbins_from(mem, layout, arena, 0);
            let s = choose|s: ArenaStats| #[trigger]
                stats::stats_are(s, layout, arena.index, chunks.0, owners, bins.0)
                    && report.sums_up(heaps, s);
            let walked = stats::event_totals(chunks.0, owners);
            let counted = stats::binned_totals(walked, arena.index, bins.0).problems;
            let all = arena_problems(mem, layout, libc_addr, arena, owners);
            if counted.len() > 0 {
                lemma_only_inconsistencies(walked, arena.index, bins.0);
                let at = told.len() + chunks.1.len() + bins.1.len();
                assert(all[at as int] == counted[0]);
            }
            stats::law_counts_balance(arena.index, chunks.0, owners, bins.0);
        },
    }
}

proof fn lemma_only_inconsistencies(
    walked: stats::EventTotals,
    arena: u32,
    fastbins: Seq<FastbinBinResult>,
)
    ensures
        forall|i: int|
            0 <= i < stats::binned_totals(walked, arena, fastbins).problems.len() ==> (
            #[trigger] stats::binned_totals(walked, arena, fastbins).problems[i])
                is StatsInconsistent,
    decreases fastbins.len(),
{
    if fastbins.len() > 0 {
        lemma_only_inconsistencies(walked, arena, fastbins.drop_last());
    }
}

} // verus!
