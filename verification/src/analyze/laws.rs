//! What holds of every report.

use vstd::prelude::*;

use crate::elf::coredump::Thread;
use crate::elf::{Elf, MemReader};
use crate::glibc::detect;
use crate::glibc::DetectedLayout;
use crate::heap::arena;
use crate::heap::arena::Arena;
use crate::heap::fastbin::FastbinBinResult;
use crate::heap::heap_list;
use crate::heap::heap_list::Heap;
use crate::heap::stats;
use crate::heap::tcache;
use crate::heap::walk;
use crate::commands::check;
use crate::locate::{IdentityView, LocatedLibcView};
use crate::problem;
use crate::report::model::Report;

use super::arenas;
use super::tls;

verus! {

/// No problem of a list is fatal.
pub open spec fn harmless(problems: Seq<problem::ProblemView>) -> bool {
    forall|i: int| 0 <= i < problems.len() ==> !(#[trigger] problems[i]).fatal()
}

proof fn lemma_harmless_add(a: Seq<problem::ProblemView>, b: Seq<problem::ProblemView>)
    requires
        harmless(a),
        harmless(b),
    ensures
        harmless(a + b),
{
}

proof fn lemma_ring<M: MemReader>(
    mem: &M,
    next_off: u64,
    main_addr: u64,
    current: u64,
    visited: Set<u64>,
    index: u32,
)
    ensures
        harmless(arena::ring_from(mem, next_off, main_addr, current, visited, index).1),
    decreases arena::MAX_ARENAS - index,
{
    if index < arena::MAX_ARENAS {
        if let Ok(next) = mem.word_at(current.wrapping_add(next_off)) {
            if next != main_addr && next != 0 && !visited.contains(next) && mem.word_at(
                next.wrapping_add(next_off),
            ) is Ok {
                lemma_ring(
                    mem,
                    next_off,
                    main_addr,
                    next,
                    visited.insert(next),
                    (index + 1) as u32,
                );
            }
        }
    }
}

proof fn lemma_entries(cached: tls::Cached, addrs: Seq<u64>, i: int, thread_id: i32, bin: u32)
    requires
        harmless(cached.problems),
    ensures
        harmless(cached.with_entries(addrs, i, thread_id, bin).problems),
    decreases addrs.len() - i,
{
    if 0 <= i < addrs.len() {
        lemma_entries(cached.with_entry(addrs[i], thread_id, bin), addrs, i + 1, thread_id, bin);
    }
}

proof fn lemma_bins<M: MemReader>(
    cached: tls::Cached,
    mem: &M,
    layout: &DetectedLayout,
    base: u64,
    thread_id: i32,
    bin: int,
)
    requires
        harmless(cached.problems),
    ensures
        harmless(cached.with_bins(mem, layout, base, thread_id, bin).problems),
    decreases layout.tcache_max_bins - bin,
{
    if 0 <= bin < layout.tcache_max_bins {
        let head_addr = tls::slot_at(
            base,
            layout.tcache_entries_offset,
            bin as u32,
            layout.word_size,
        );
        if let Ok(head) = mem.word_at(head_addr) {
            let chain = tcache::tcache_chain(mem, layout, head);
            let end = tcache::end_problems(chain.1, thread_id, bin as u32);
            lemma_harmless_add(cached.problems, end);
            let told = tls::Cached { problems: cached.problems + end, ..cached };
            lemma_entries(told, chain.0, 0, thread_id, bin as u32);
        }
        lemma_bins(
            cached.with_bin(mem, layout, head_addr, thread_id, bin as u32),
            mem,
            layout,
            base,
            thread_id,
            bin + 1,
        );
    }
}

proof fn lemma_threads<M: MemReader>(
    found: tls::Tls,
    mem: &M,
    layout: &DetectedLayout,
    libc_addr: u64,
    main_addr: u64,
    threads: Seq<Thread>,
    i: int,
)
    requires
        harmless(found.cached.problems),
    ensures
        harmless(
            found.with_threads(
                mem,
                layout,
                libc_addr,
                main_addr,
                threads,
                i,
            ).cached.problems,
        ),
    decreases threads.len() - i,
{
    if 0 <= i < threads.len() {
        let thread = threads[i];
        let arena_read = if layout.thread_arena.present {
            found.with_arena(mem, layout, libc_addr, main_addr, thread)
        } else {
            found
        };
        if let Ok(base) = tcache::tls_var(
            mem,
            layout,
            libc_addr,
            thread.tp,
            layout.tcache.value,
        ) {
            lemma_bins(arena_read.cached, mem, layout, base, thread.thread_id, 0);
        }
        lemma_threads(
            found.with_thread(mem, layout, libc_addr, main_addr, thread),
            mem,
            layout,
            libc_addr,
            main_addr,
            threads,
            i + 1,
        );
    }
}

proof fn lemma_walk<M: MemReader>(
    mem: &M,
    layout: &DetectedLayout,
    arena: u32,
    is_main: bool,
    end: u64,
    addr: u64,
    raw: u64,
    seen: nat,
)
    ensures
        harmless(walk::walk_from(mem, layout, arena, is_main, end, addr, raw, seen).1),
    decreases walk::MAX_CHUNKS - seen,
{
    if addr != end && seen < walk::MAX_CHUNKS {
        if let walk::Step::Chunk(event, next_raw) = walk::step(
            mem,
            layout,
            arena,
            is_main,
            end,
            addr,
            raw,
        ) {
            lemma_walk(
                mem,
                layout,
                arena,
                is_main,
                end,
                (addr + event.full_size) as u64,
                next_raw,
                seen + 1,
            );
        }
    }
}

proof fn lemma_chunks<M: MemReader>(
    mem: &M,
    layout: &DetectedLayout,
    arena: Arena,
    heaps: Seq<Heap>,
    i: int,
)
    ensures
        harmless(arenas::chunks_from(mem, layout, arena, heaps, i).1),
    decreases heaps.len() - i,
{
    if 0 <= i < heaps.len() {
        let start = heaps[i].region_start;
        let end = heaps[i].region_end;
        if let Ok(raw) = mem.word_at(start) {
            lemma_walk(mem, layout, arena.index, arena.index == 0, end, start, raw, 0);
        }
        lemma_chunks(mem, layout, arena, heaps, i + 1);
        lemma_harmless_add(
            walk::region(mem, layout, arena.index, start, end, arena.index == 0).1,
            arenas::chunks_from(mem, layout, arena, heaps, i + 1).1,
        );
    }
}

proof fn lemma_fastbins<M: MemReader>(mem: &M, layout: &DetectedLayout, arena: Arena, bin: int)
    ensures
        harmless(arenas::fastbins_from(mem, layout, arena, bin).1),
    decreases layout.fastbin_count - bin,
{
    if 0 <= bin < layout.fastbin_count {
        lemma_fastbins(mem, layout, arena, bin + 1);
    }
}

proof fn lemma_counted(walked: stats::EventTotals, arena: u32, fastbins: Seq<FastbinBinResult>)
    ensures
        harmless(stats::binned_totals(walked, arena, fastbins).problems),
    decreases fastbins.len(),
{
    if fastbins.len() > 0 {
        lemma_counted(walked, arena, fastbins.drop_last());
    }
}

proof fn lemma_heap_chain<M: MemReader>(
    mem: &M,
    layout: &DetectedLayout,
    arena_index: u32,
    top: u64,
    addr: u64,
    visited: Set<u64>,
    count: nat,
)
    ensures
        harmless(
            heap_list::chain_from(mem, layout, arena_index, top, addr, visited, count).1,
        ),
    decreases heap_list::MAX_HEAPS - count,
{
    if count < heap_list::MAX_HEAPS && !visited.contains(addr) {
        if let Ok(info) = heap_list::heap_info_at(mem, layout, addr) {
            if heap_list::secondary_end(layout, top, addr, info) is Some && info.prev != 0 {
                lemma_heap_chain(
                    mem,
                    layout,
                    arena_index,
                    top,
                    info.prev,
                    visited.insert(addr),
                    count + 1,
                );
            }
        }
    }
}

proof fn lemma_heaps<M: MemReader>(
    mem: &M,
    layout: &DetectedLayout,
    libc_addr: u64,
    arena: Arena,
)
    ensures
        heap_list::heaps(mem, layout, libc_addr, arena) matches Ok(listed) ==> harmless(listed.1),
{
    if arena.index != 0 {
        if let Ok(top) = heap_list::top_of(mem, layout, arena) {
            lemma_heap_chain(
                mem,
                layout,
                arena.index,
                top,
                heap_list::reservation_start(top, layout.heap_max_size),
                Set::empty(),
                0,
            );
        }
    }
}

proof fn lemma_arenas<M: MemReader>(
    mem: &M,
    layout: &DetectedLayout,
    libc_addr: u64,
    all: Seq<Arena>,
    owners: Map<u64, (i32, u32)>,
    i: int,
)
    ensures
        harmless(arenas::problems_from(mem, layout, libc_addr, all, owners, i)),
    decreases all.len() - i,
{
    if 0 <= i < all.len() {
        lemma_heaps(mem, layout, libc_addr, all[i]);
        if let Ok((heaps, told)) = heap_list::heaps(mem, layout, libc_addr, all[i]) {
            let chunks = arenas::chunks_from(mem, layout, all[i], heaps, 0);
            let bins = arenas::fastbins_from(mem, layout, all[i], 0);
            let walked = stats::event_totals(chunks.0, owners);
            lemma_chunks(mem, layout, all[i], heaps, 0);
            lemma_fastbins(mem, layout, all[i], 0);
            lemma_counted(walked, all[i].index, bins.0);
            lemma_harmless_add(told, chunks.1);
            lemma_harmless_add(told + chunks.1, bins.1);
            lemma_harmless_add(
                told + chunks.1 + bins.1,
                stats::binned_totals(walked, all[i].index, bins.0).problems,
            );
        }
        lemma_arenas(mem, layout, libc_addr, all, owners, i + 1);
        lemma_harmless_add(
            arenas::arena_problems(mem, layout, libc_addr, all[i], owners),
            arenas::problems_from(mem, layout, libc_addr, all, owners, i + 1),
        );
    }
}

/// A libc whose problems have no fatal one first has none at all.
proof fn lemma_no_fatal(problems: Seq<problem::ProblemView>, i: int)
    requires
        0 <= i,
        check::fatal_from(problems, i) is None,
    ensures
        forall|k: int| i <= k < problems.len() ==> !(#[trigger] problems[k]).fatal(),
    decreases problems.len() - i,
{
    if i < problems.len() {
        lemma_no_fatal(problems, i + 1);
    }
}

/// A finished report never holds a fatal problem: what is fatal ends the analysis
/// with an error instead.
pub proof fn law_report_is_never_fatal(
    report: Report,
    core: Elf<'_>,
    core_path: Seq<char>,
    threads: Seq<Thread>,
    layout: DetectedLayout,
    identity: IdentityView,
    force_libc: Option<&str>,
)
    requires
        super::conclusion_is(
            core,
            core_path,
            threads,
            layout,
            identity,
            force_libc,
            Ok(report),
        ),
    ensures
        !detect::any_fatal(problem::views(report.problems@)),
{
    let found = problem::views(layout.problems@);
    lemma_no_fatal(found, 0);
    let libc = super::location(core, identity, force_libc)->Ok_0;
    let main = arena::main_arena_addr(&layout, libc.load_addr);
    let all = arena::arenas(&core, &layout, libc.load_addr);
    let none = tls::Tls {
        cached: tls::Cached { owners: Map::empty(), problems: Seq::empty() },
        bound_to: Map::empty(),
    };
    let tls = tls::tls_of(&core, &layout, libc.load_addr, all, threads);
    lemma_ring(
        &core,
        layout.malloc_state_next_offset as u64,
        main,
        main,
        set![main],
        1,
    );
    lemma_threads(
        none,
        &core,
        &layout,
        libc.load_addr,
        tls::first_address(all),
        threads,
        0,
    );
    lemma_arenas(&core, &layout, libc.load_addr, all, tls.cached.owners, 0);
    let by_identity = check::identity_problems(identity);
    let ring = arena::ring(&core, &layout, libc.load_addr).1;
    assert(harmless(found));
    assert(harmless(tls.cached.problems));
    lemma_harmless_add(found, by_identity);
    lemma_harmless_add(found + by_identity, ring);
    lemma_harmless_add(found + by_identity + ring, tls.cached.problems);
    lemma_harmless_add(
        found + by_identity + ring + tls.cached.problems,
        arenas::problems_from(&core, &layout, libc.load_addr, all, tls.cached.owners, 0),
    );
}

/// The problems of an arena are among those of all arenas.
proof fn lemma_arena_problems_are_told<M: MemReader>(
    mem: &M,
    layout: &DetectedLayout,
    libc_addr: u64,
    all: Seq<Arena>,
    owners: Map<u64, (i32, u32)>,
    i: int,
    k: int,
    j: int,
)
    requires
        0 <= i <= k < all.len(),
        0 <= j < arenas::arena_problems(mem, layout, libc_addr, all[k], owners).len(),
    ensures
        arenas::problems_from(mem, layout, libc_addr, all, owners, i).contains(
            arenas::arena_problems(mem, layout, libc_addr, all[k], owners)[j],
        ),
    decreases all.len() - i,
{
    let here = arenas::arena_problems(mem, layout, libc_addr, all[i], owners);
    let rest = arenas::problems_from(mem, layout, libc_addr, all, owners, i + 1);
    let whole = arenas::problems_from(mem, layout, libc_addr, all, owners, i);
    assert(whole == here + rest);
    if i == k {
        assert(whole[j] == here[j]);
    } else {
        lemma_arena_problems_are_told(mem, layout, libc_addr, all, owners, i + 1, k, j);
        let wanted = arenas::arena_problems(mem, layout, libc_addr, all[k], owners)[j];
        let at = choose|at: int| 0 <= at < rest.len() && rest[at] == wanted;
        assert(whole[here.len() + at] == wanted);
    }
}

/// In a report that tells of no inconsistency the books balance: in every arena,
/// allocated and free chunks add up to the headers counted as overhead.
pub proof fn law_report_counts_balance(
    report: Report,
    core: Elf<'_>,
    core_path: Seq<char>,
    threads: Seq<Thread>,
    layout: DetectedLayout,
    identity: IdentityView,
    libc: LocatedLibcView,
)
    requires
        super::reports_core(report, core, core_path, threads, layout, identity, libc),
        forall|i: int|
            0 <= i < report.problems@.len() ==> !((#[trigger] report.problems@[i])@
                is StatsInconsistent),
    ensures
        forall|k: int|
            0 <= k < report.arenas@.len() ==> (#[trigger] report.arenas@[k]).allocated.count
                + report.arenas@[k].free.count == report.arenas@[k].overhead.count,
{
    let all = arena::arenas(&core, &layout, libc.load_addr);
    let tls = tls::tls_of(&core, &layout, libc.load_addr, all, threads);
    let owners = tls.cached.owners;
    let told = problem::views(report.problems@);
    let before = problem::views(layout.problems@) + check::identity_problems(identity)
        + arena::ring(&core, &layout, libc.load_addr).1 + tls.cached.problems;
    let last = arenas::problems_from(&core, &layout, libc.load_addr, all, owners, 0);
    assert(told == before + last);
    assert forall|k: int| 0 <= k < report.arenas@.len() implies (
    #[trigger] report.arenas@[k]).allocated.count + report.arenas@[k].free.count
        == report.arenas@[k].overhead.count by {
        let here = arenas::arena_problems(&core, &layout, libc.load_addr, all[k], owners);
        assert forall|j: int| 0 <= j < here.len() implies !(#[trigger] here[j]
            is StatsInconsistent) by {
            lemma_arena_problems_are_told(
                &core,
                &layout,
                libc.load_addr,
                all,
                owners,
                0,
                k,
                j,
            );
            let at = choose|at: int| 0 <= at < last.len() && last[at] == here[j];
            assert(told[before.len() + at] == here[j]);
            assert(report.problems@[before.len() + at]@ == here[j]);
        }
        arenas::law_arena_counts_balance(
            report.arenas@[k],
            &core,
            &layout,
            libc.load_addr,
            all[k],
            arenas::attached(threads, tls.bound_to, all[k].malloc_state_addr),
            owners,
        );
    }
}

} // verus!
