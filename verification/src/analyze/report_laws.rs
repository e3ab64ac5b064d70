//! When an analysis succeeds, and what its report carries.

use vstd::prelude::*;

use crate::arch;
use crate::commands::check;
use crate::elf::coredump;
use crate::elf::coredump::{MappedFileView, Thread};
use crate::elf::notes;
use crate::elf::{Elf, MemReader};
use crate::error;
use crate::error::Result;
use crate::glibc::debuglink;
use crate::glibc::detect;
use crate::glibc::{DetectedLayout, LayoutSource};
use crate::heap::arena;
use crate::heap::arena::Arena;
use crate::heap::heap_list;
use crate::locate;
use crate::locate::{IdentityView, LocatedLibcView};
use crate::locate_laws;
use crate::problem;
use crate::problem::ProblemView;
use crate::report::model::{IdentityText, Report};
use crate::text;

use super::arena_laws;
use super::arenas;
use super::tls;

verus! {

/// A problem that leaves nothing to analyse.
pub open spec fn is_fatal(told: ProblemView) -> bool {
    told is MissingSymbol || told is UnsupportedArch
}

proof fn lemma_fatal(told: Seq<ProblemView>, i: int)
    requires
        0 <= i,
    ensures
        match check::fatal_from(told, i) {
            Some(k) => i <= k < told.len() && is_fatal(told[k]) && forall|j: int|
                i <= j < k ==> !is_fatal(#[trigger] told[j]),
            None => forall|j: int| i <= j < told.len() ==> !is_fatal(#[trigger] told[j]),
        },
    decreases told.len() - i,
{
    if i < told.len() {
        lemma_fatal(told, i + 1);
        assert(told[i].fatal() == is_fatal(told[i]));
    }
}

/// The first fatal problem of a list is fatal, and none before it is; there is none
/// exactly where no problem is fatal.
pub proof fn law_first_fatal_is_first(told: Seq<ProblemView>)
    ensures
        match check::fatal_from(told, 0) {
            Some(k) => 0 <= k < told.len() && is_fatal(told[k]) && forall|j: int|
                0 <= j < k ==> !is_fatal(#[trigger] told[j]),
            None => forall|j: int| 0 <= j < told.len() ==> !is_fatal(#[trigger] told[j]),
        },
{
    lemma_fatal(told, 0);
}

/// Where `main_arena` of a libc at an address is.
pub open spec fn main_arena_at(layout: DetectedLayout, libc_addr: u64) -> Arena {
    Arena { malloc_state_addr: libc_addr.wrapping_add(layout.main_arena.value), index: 0 }
}

/// The first heap and the top of the main arena can be read.
pub open spec fn can_start(core: Elf<'_>, layout: DetectedLayout, libc_addr: u64) -> bool {
    let main = main_arena_at(layout, libc_addr);
    &&& core.word_at(
        main.malloc_state_addr.wrapping_add(layout.malloc_state_top_offset as u64),
    ) is Ok
    &&& heap_list::heaps(&core, &layout, libc_addr, main) is Ok
}

proof fn lemma_main_failure(core: Elf<'_>, layout: DetectedLayout, libc_addr: u64)
    ensures
        ({
            let all = arena::arenas(&core, &layout, libc_addr);
            let main = main_arena_at(layout, libc_addr);
            &&& all.len() > 0 && all[0] == main
            &&& forall|i: int| 0 <= i < all.len() ==> (#[trigger] all[i]).index == i
            &&& arenas::failure_from(&core, &layout, libc_addr, all, 0) == match heap_list::heaps(
                &core,
                &layout,
                libc_addr,
                main,
            ) {
                Err(e) => Some(e),
                Ok(_) => None::<error::ErrorView>,
            }
        }),
{
    crate::heap::list_laws::law_arenas_follow_the_ring(&core, &layout, libc_addr);
    let all = arena::arenas(&core, &layout, libc_addr);
    arena_laws::law_only_the_main_arena_fails(&core, &layout, libc_addr, all);
}

/// An analysis gives a report exactly where its libc has no fatal problem, is located in
/// the core, and has a main arena whose top and heaps can be read. Otherwise it fails
/// with the first of these that is missing.
pub proof fn law_analysis_needs_libc_and_main_arena(
    core: Elf<'_>,
    core_path: Seq<char>,
    threads: Seq<Thread>,
    layout: DetectedLayout,
    identity: IdentityView,
    forced: Option<&str>,
    r: Result<Report>,
)
    requires
        super::conclusion_is(core, core_path, threads, layout, identity, forced, r),
    ensures
        ({
            let told = problem::views(layout.problems@);
            let found = match forced {
                Some(path) => locate::found_by_path(core, path@),
                None => locate::found_by_identity(core, identity),
            };
            &&& r is Ok <==> {
                &&& forall|j: int| 0 <= j < told.len() ==> !is_fatal(#[trigger] told[j])
                &&& found is Ok
                &&& can_start(core, layout, found->Ok_0.load_addr)
            }
            &&& (exists|j: int| 0 <= j < told.len() && is_fatal(#[trigger] told[j])) <==> (
            r matches Err(e) && e@ is UnusableLibc)
            &&& (forall|j: int| 0 <= j < told.len() ==> !is_fatal(#[trigger] told[j])) && (
            found is Err) ==> (r matches Err(e) && e@ == found->Err_0)
        }),
{
    let told = problem::views(layout.problems@);
    lemma_fatal(told, 0);
    let found = match forced {
        Some(path) => locate::found_by_path(core, path@),
        None => locate::found_by_identity(core, identity),
    };
    if let Some(path) = forced {
        locate_laws::law_forced_libc_is_not_compared(core, path@);
    } else {
        locate_laws::law_located_libc_is_the_lowest_with_the_identity(core, identity);
    }
    if let Ok(libc) = found {
        lemma_main_failure(core, layout, libc.load_addr);
        lemma_read_failures(core, layout, libc.load_addr);
    }
}

/// What stops the reading of an arena is not a libc that cannot be used.
proof fn lemma_read_failures(core: Elf<'_>, layout: DetectedLayout, libc_addr: u64)
    ensures
        arena::probe(&core, &layout, libc_addr) matches Err(e) ==> !(e is UnusableLibc),
        heap_list::heaps(&core, &layout, libc_addr, main_arena_at(layout, libc_addr)) matches Err(e)
            ==> !(e is UnusableLibc),
{
}

/// What a report carries: the path that was given, the libc's path, identity and whether
/// it was verified, where its layout and version come from, and one entry per arena, in
/// order, with the threads bound to it.
pub proof fn law_report_carries_what_was_found(
    report: Report,
    core: Elf<'_>,
    core_path: Seq<char>,
    threads: Seq<Thread>,
    layout: DetectedLayout,
    identity: IdentityView,
    libc: LocatedLibcView,
)
    requires
        super::reports_core(report, core, core_path, threads, layout, identity, libc),
    ensures
        ({
            let all = arena::arenas(&core, &layout, libc.load_addr);
            let tls = tls::tls_of(&core, &layout, libc.load_addr, all, threads);
            &&& report.schema_version == 1
            &&& report.tool_version@ == "0.1.0"@
            &&& report.core_path@ == core_path
            &&& report.libc.path@ == libc.path
            &&& report.libc.verified == libc.verified
            &&& match identity {
                IdentityView::BuildId(id) => report.libc.identity@ == IdentityText::BuildId(
                    text::hex_bytes(id),
                ),
                IdentityView::ContentHash(hash) => report.libc.identity@
                    == IdentityText::ContentHash(text::hex_bytes(hash)),
            }
            &&& report.glibc_capabilities.has_tcache == layout.capabilities.has_tcache
            &&& report.glibc_capabilities.has_safe_linking == layout.capabilities.has_safe_linking
            &&& report.glibc_capabilities.layout_source@ == "dwarf"@ <==> layout.layout_source
                == LayoutSource::Dwarf
            &&& report.glibc_capabilities.layout_source@ == "builtin"@ <==> layout.layout_source
                == LayoutSource::Builtin
            &&& report.glibc_capabilities.version_source@ == "gnu_version_d"@
                <==> layout.capabilities.version_source is Detected
            &&& report.glibc_capabilities.version_source@ == "assumed_default"@
                <==> layout.capabilities.version_source is AssumedDefault
            &&& report.arenas@.len() == all.len()
            &&& forall|i: int|
                0 <= i < all.len() ==> {
                    &&& (#[trigger] report.arenas@[i]).index == i
                    &&& report.arenas@[i].is_main == (i == 0)
                    &&& report.arenas@[i].attached_threads@ == threads.filter(
                        |t: Thread|
                            tls.bound_to.contains_key(t.thread_id) && tls.bound_to[t.thread_id]
                                == all[i].malloc_state_addr,
                    ).map_values(|t: Thread| t.thread_id)
                }
        }),
{
    let all = arena::arenas(&core, &layout, libc.load_addr);
    let tls = tls::tls_of(&core, &layout, libc.load_addr, all, threads);
    lemma_main_failure(core, layout, libc.load_addr);
    reveal_strlit("dwarf");
    reveal_strlit("builtin");
    reveal_strlit("gnu_version_d");
    reveal_strlit("assumed_default");
    assert("dwarf"@.len() == 5 && "builtin"@.len() == 7);
    assert("gnu_version_d"@.len() == 13 && "assumed_default"@.len() == 15);
    assert forall|i: int| 0 <= i < all.len() implies {
        &&& (#[trigger] report.arenas@[i]).index == i
        &&& report.arenas@[i].is_main == (i == 0)
        &&& report.arenas@[i].attached_threads@ == threads.filter(
            |t: Thread|
                tls.bound_to.contains_key(t.thread_id) && tls.bound_to[t.thread_id]
                    == all[i].malloc_state_addr,
        ).map_values(|t: Thread| t.thread_id)
    } by {
        let addr = all[i].malloc_state_addr;
        let bound = |t: Thread|
            tls.bound_to.contains_key(t.thread_id) && tls.bound_to[t.thread_id]
                == all[i].malloc_state_addr;
        assert(all[i].index == i);
        lemma_bound(threads, bound, tls.bound_to, addr);
    }
}

proof fn lemma_bound(
    threads: Seq<Thread>,
    bound: spec_fn(Thread) -> bool,
    bound_to: Map<i32, u64>,
    addr: u64,
)
    requires
        forall|t: Thread| #[trigger] bound(t) <==> bound_to.contains_key(t.thread_id)
            && bound_to[t.thread_id] == addr,
    ensures
        arenas::attached(threads, bound_to, addr) == threads.filter(bound).map_values(
            |t: Thread| t.thread_id,
        ),
    decreases threads.len(),
{
    if threads.len() > 0 {
        let front = threads.drop_last();
        lemma_bound(front, bound, bound_to, addr);
        arena_laws::law_attached_threads_are_those_bound(front, bound_to, addr, threads.last());
        assert(front.push(threads.last()) =~= threads);
        reveal(Seq::filter);
        let id = |t: Thread| t.thread_id;
        let kept = front.filter(bound);
        assert(kept.push(threads.last()).map_values(id) =~= kept.map_values(id).push(
            threads.last().thread_id,
        ));
        assert(bound(threads.last()) || !bound(threads.last()));
    } else {
        reveal(Seq::filter);
        arena_laws::law_attached_threads_are_those_bound(
            threads,
            bound_to,
            addr,
            Thread { pc: 0, sp: 0, tp: 0, thread_id: 0 },
        );
        assert(threads =~= Seq::empty());
        assert(threads.filter(bound) =~= Seq::empty());
    }
}

proof fn lemma_add_contains<T>(s: Seq<T>, t: Seq<T>, x: T)
    ensures
        (s + t).contains(x) <==> s.contains(x) || t.contains(x),
{
    if s.contains(x) {
        let k = choose|k: int| 0 <= k < s.len() && s[k] == x;
        assert((s + t)[k] == x);
    }
    if t.contains(x) {
        let k = choose|k: int| 0 <= k < t.len() && t[k] == x;
        assert((s + t)[s.len() + k] == x);
    }
    if (s + t).contains(x) {
        let k = choose|k: int| 0 <= k < (s + t).len() && (s + t)[k] == x;
        if k < s.len() {
            assert(s[k] == x);
        } else {
            assert(t[k - s.len()] == x);
        }
    }
}

/// A report tells of every problem that was met, and of no other: those of the libc, a
/// missing build-id, those of the list of arenas, of the threads and of each arena.
pub proof fn law_report_tells_of_every_problem(
    report: Report,
    core: Elf<'_>,
    core_path: Seq<char>,
    threads: Seq<Thread>,
    layout: DetectedLayout,
    identity: IdentityView,
    libc: LocatedLibcView,
    told: ProblemView,
)
    requires
        super::reports_core(report, core, core_path, threads, layout, identity, libc),
    ensures
        ({
            let all = arena::arenas(&core, &layout, libc.load_addr);
            let tls = tls::tls_of(&core, &layout, libc.load_addr, all, threads);
            problem::views(report.problems@).contains(told) <==> {
                ||| problem::views(layout.problems@).contains(told)
                ||| told is MissingBuildId && identity is ContentHash
                ||| arena::ring(&core, &layout, libc.load_addr).1.contains(told)
                ||| tls.cached.problems.contains(told)
                ||| exists|k: int|
                    0 <= k < all.len() && arena_laws::told_of_arena(
                        &core,
                        &layout,
                        libc.load_addr,
                        #[trigger] all[k],
                        tls.cached.owners,
                        told,
                    )
            }
        }),
{
    let all = arena::arenas(&core, &layout, libc.load_addr);
    let tls = tls::tls_of(&core, &layout, libc.load_addr, all, threads);
    let a = problem::views(layout.problems@);
    let b = check::identity_problems(identity);
    let c = arena::ring(&core, &layout, libc.load_addr).1;
    let d = tls.cached.problems;
    let e = arenas::problems_from(&core, &layout, libc.load_addr, all, tls.cached.owners, 0);
    lemma_add_contains(a + b + c + d, e, told);
    lemma_add_contains(a + b + c, d, told);
    lemma_add_contains(a + b, c, told);
    lemma_add_contains(a, b, told);
    arena_laws::law_every_arena_is_told_of(
        &core,
        &layout,
        libc.load_addr,
        all,
        tls.cached.owners,
        told,
    );
    assert(b.contains(told) <==> told is MissingBuildId && identity is ContentHash) by {
        if identity is ContentHash {
            assert(b[0] is MissingBuildId);
            if b.contains(told) {
                assert(b[0] == told);
            }
        }
    }
}

proof fn lemma_default_path(mapped: Seq<MappedFileView>, i: int, k: int)
    requires
        0 <= i <= k <= mapped.len(),
        forall|j: int|
            0 <= j < k ==> (#[trigger] mapped[j]).file_offset != 0 || !locate_laws::is_libc_path(
                mapped[j].path,
            ),
        k < mapped.len() ==> mapped[k].file_offset == 0 && locate_laws::is_libc_path(
            mapped[k].path,
        ),
    ensures
        super::libc_path_from(mapped, i) == if k < mapped.len() {
            Some(locate::stripped(mapped[k].path))
        } else {
            None
        },
    decreases k - i,
{
    if i < mapped.len() {
        locate_laws::law_libc_is_told_by_its_name(mapped[i].path);
    }
    if i < k {
        assert(mapped[i].file_offset != 0 || !locate_laws::is_libc_path(mapped[i].path));
        lemma_default_path(mapped, i + 1, k);
    }
}

/// The libc to read where none is named is that of the first mapping of a libc from the
/// start of its file, under its path without the mark of a replaced file.
pub proof fn law_default_libc_is_the_first_mapped(mapped: Seq<MappedFileView>, k: int)
    requires
        0 <= k <= mapped.len(),
        forall|j: int|
            0 <= j < k ==> (#[trigger] mapped[j]).file_offset != 0 || !locate_laws::is_libc_path(
                mapped[j].path,
            ),
        k < mapped.len() ==> mapped[k].file_offset == 0 && locate_laws::is_libc_path(
            mapped[k].path,
        ),
    ensures
        super::libc_path_from(mapped, 0) is Some <==> k < mapped.len(),
        super::libc_path_from(mapped, 0) matches Some(path) ==> {
            &&& mapped[k].path == path || mapped[k].path == path + locate_laws::mark()
            &&& path == locate::stripped(mapped[k].path)
        },
{
    lemma_default_path(mapped, 0, k);
    if k < mapped.len() {
        locate_laws::law_only_the_mark_is_stripped(mapped[k].path);
    }
}

/// Why a libc cannot be used is told by the name of what it lacks.
pub proof fn law_reasons_name_what_is_missing(symbol: Seq<char>, machine: u16)
    ensures
        super::description(ProblemView::MissingSymbol { symbol }) == "missing required symbol '"@
            + symbol + "'"@,
        super::description(ProblemView::UnsupportedArch { machine })
            == "unsupported architecture e_machine="@ + text::hex(machine as nat),
{
}

/// A core is read before its libc is looked at: an architecture that is not implemented, a
/// broken thread and a debug file that does not belong to the libc end the analysis, in
/// this order. Otherwise its outcome is that of a layout detected in the libc.
pub proof fn law_core_is_read_first<'a>(
    core: Elf<'_>,
    core_path: Seq<char>,
    reference: Elf<'a>,
    debug: Option<&Elf<'a>>,
    forced: Option<&str>,
    r: Result<Report>,
)
    requires
        super::analysis_is(core, core_path, reference, debug, forced, r),
    ensures
        ({
            let machine = core.tables.machine;
            let implemented = machine == 62 || machine == 183;
            let list = notes::all_notes(core.tables.program_headers@, core.data@);
            let threads = coredump::threads_of(list, arch::handler(machine)->0);
            let paired = match debug {
                Some(debug) => debuglink::pairing(reference, *debug),
                None => Ok(()),
            };
            &&& !implemented ==> (r matches Err(e) && e@ == error::ErrorView::UnsupportedArch(
                machine,
            ))
            &&& implemented && threads is Err ==> (r matches Err(e) && e@ == threads->Err_0)
            &&& implemented && threads is Ok && paired is Err ==> (r matches Err(e) && e@
                == error::ErrorView::UnusableLibc(paired->Err_0))
            &&& implemented && threads is Ok && paired is Ok ==> exists|layout: DetectedLayout|
                #[trigger]
                detect::detection_is(layout, reference, debug, arch::handler(machine)->0)
                    && super::conclusion_is(
                    core,
                    core_path,
                    threads->Ok_0,
                    layout,
                    locate::identity_of(reference),
                    forced,
                    r,
                )
        }),
{
}

} // verus!
