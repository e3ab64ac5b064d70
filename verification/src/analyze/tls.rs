//! Thread-local data: which thread caches which chunk, and which arena a thread
//! is bound to.

use std::collections::HashMap;

use vstd::prelude::*;

use crate::elf::coredump::Thread;
use crate::elf::MemReader;
use crate::glibc::DetectedLayout;
use crate::heap::arena::Arena;
use crate::heap::tcache;
use crate::heap::tcache::{read_thread_arena, tcache_ptr, walk_tcache_bin};
use crate::problem;
use crate::problem::Problem;
use crate::text;

verus! {

/// What the threads' TLS tells.
pub struct TlsInfo {
    /// User address of a cached chunk → the `(thread_id, bin_index)` that owns it.
    pub tcache_membership: HashMap<u64, (i32, u32)>,
    /// Thread → address of the arena it is bound to.
    pub thread_arena_map: HashMap<i32, u64>,
}

/// Owners of cached chunks, and the problems met.
#[verifier::ext_equal]
pub struct Cached {
    pub owners: Map<u64, (i32, u32)>,
    pub problems: Seq<problem::ProblemView>,
}

impl Cached {
    /// With one more problem.
    pub open spec fn with_problem(self, problem: problem::ProblemView) -> Cached {
        Cached { problems: self.problems.push(problem), ..self }
    }

    /// With a chunk in a bin of a thread. The first owner wins; a repeat is a
    /// problem.
    pub open spec fn with_entry(self, addr: u64, thread_id: i32, bin: u32) -> Cached {
        if self.owners.contains_key(addr) {
            self.with_problem(
                problem::ProblemView::DuplicateTcacheEntry {
                    thread_id,
                    bin_index: bin,
                    address: text::hex(addr as nat),
                },
            )
        } else {
            Cached { owners: self.owners.insert(addr, (thread_id, bin)), ..self }
        }
    }

    /// With the chunks of a bin from index `i` on.
    pub open spec fn with_entries(
        self,
        addrs: Seq<u64>,
        i: int,
        thread_id: i32,
        bin: u32,
    ) -> Cached
        decreases addrs.len() - i,
    {
        if i < 0 || i >= addrs.len() {
            self
        } else {
            self.with_entry(addrs[i], thread_id, bin).with_entries(addrs, i + 1, thread_id, bin)
        }
    }

    /// With the bin whose head is stored at `head_addr`.
    pub open spec fn with_bin<M: MemReader>(
        self,
        mem: &M,
        layout: &DetectedLayout,
        head_addr: u64,
        thread_id: i32,
        bin: u32,
    ) -> Cached {
        match mem.word_at(head_addr) {
            Err(_) => self.with_problem(
                problem::ProblemView::TcacheChunkReadFailed {
                    thread_id,
                    bin_index: bin,
                    address: text::hex(head_addr as nat),
                },
            ),
            Ok(head) => {
                let chain = tcache::tcache_chain(mem, layout, head);
                let told = Cached {
                    problems: self.problems + tcache::end_problems(chain.1, thread_id, bin),
                    ..self
                };
                told.with_entries(chain.0, 0, thread_id, bin)
            },
        }
    }

    /// With the bins of a thread's tcache from index `bin` on.
    pub open spec fn with_bins<M: MemReader>(
        self,
        mem: &M,
        layout: &DetectedLayout,
        base: u64,
        thread_id: i32,
        bin: int,
    ) -> Cached
        decreases layout.tcache_max_bins - bin,
    {
        if bin < 0 || bin >= layout.tcache_max_bins {
            self
        } else {
            self.with_bin(
                mem,
                layout,
                slot_at(base, layout.tcache_entries_offset, bin as u32, layout.word_size),
                thread_id,
                bin as u32,
            ).with_bins(mem, layout, base, thread_id, bin + 1)
        }
    }
}

/// Address of entry `bin` of the array of words at `offset` behind `base`.
pub open spec fn slot_at(base: u64, offset: u32, bin: u32, word_size: u32) -> u64 {
    base.wrapping_add(offset as u64).wrapping_add((bin * word_size) as u64)
}

/// Address of entry `bin` of the array of words at `offset` behind `base`.
pub fn slot_address(base: u64, offset: u32, bin: u32, word_size: u32) -> (addr: u64)
    ensures
        addr == slot_at(base, offset, bin, word_size),
{
    assert(bin * word_size <= 0xffff_ffff * 0xffff_ffff) by (nonlinear_arith)
        requires
            bin <= 0xffff_ffff,
            word_size <= 0xffff_ffff,
    ;
    base.wrapping_add(offset as u64).wrapping_add((bin as u64) * (word_size as u64))
}

/// Thread-local data of the threads met so far.
#[verifier::ext_equal]
pub struct Tls {
    pub cached: Cached,
    /// Thread → address of the arena it is bound to.
    pub bound_to: Map<i32, u64>,
}

impl Tls {
    /// With the arena of a thread: a null `thread_arena` is glibc's "this thread
    /// uses main".
    pub open spec fn with_arena<M: MemReader>(
        self,
        mem: &M,
        layout: &DetectedLayout,
        libc_addr: u64,
        main_addr: u64,
        thread: Thread,
    ) -> Tls {
        match tcache::tls_var(mem, layout, libc_addr, thread.tp, layout.thread_arena.value) {
            Err(_) => self,
            Ok(addr) => Tls {
                bound_to: self.bound_to.insert(
                    thread.thread_id,
                    if addr == 0 {
                        main_addr
                    } else {
                        addr
                    },
                ),
                ..self
            },
        }
    }

    /// With the tcache of a thread; a null pointer is no tcache.
    pub open spec fn with_tcache<M: MemReader>(
        self,
        mem: &M,
        layout: &DetectedLayout,
        libc_addr: u64,
        thread: Thread,
    ) -> Tls {
        match tcache::tls_var(mem, layout, libc_addr, thread.tp, layout.tcache.value) {
            Err(_) => self,
            Ok(base) => if base == 0 {
                self
            } else {
                Tls { cached: self.cached.with_bins(mem, layout, base, thread.thread_id, 0), ..self }
            },
        }
    }

    /// With one more thread. A thread without a thread pointer, or with TLS that
    /// cannot be read, is a problem.
    pub open spec fn with_thread<M: MemReader>(
        self,
        mem: &M,
        layout: &DetectedLayout,
        libc_addr: u64,
        main_addr: u64,
        thread: Thread,
    ) -> Tls {
        let unresolved = problem::ProblemView::ThreadTlsResolutionFailed {
            thread_id: thread.thread_id,
        };
        if thread.tp == 0 {
            Tls { cached: self.cached.with_problem(unresolved), ..self }
        } else {
            let arena_failed = layout.thread_arena.present && tcache::tls_var(
                mem,
                layout,
                libc_addr,
                thread.tp,
                layout.thread_arena.value,
            ) is Err;
            let tcache_failed = layout.capabilities.has_tcache && tcache::tls_var(
                mem,
                layout,
                libc_addr,
                thread.tp,
                layout.tcache.value,
            ) is Err;
            let with_arena = if layout.thread_arena.present {
                self.with_arena(mem, layout, libc_addr, main_addr, thread)
            } else {
                self
            };
            let with_both = if layout.capabilities.has_tcache {
                with_arena.with_tcache(mem, layout, libc_addr, thread)
            } else {
                with_arena
            };
            if arena_failed || tcache_failed {
                Tls { cached: with_both.cached.with_problem(unresolved), ..with_both }
            } else {
                with_both
            }
        }
    }

    /// With the threads from index `i` on.
    pub open spec fn with_threads<M: MemReader>(
        self,
        mem: &M,
        layout: &DetectedLayout,
        libc_addr: u64,
        main_addr: u64,
        threads: Seq<Thread>,
        i: int,
    ) -> Tls
        decreases threads.len() - i,
    {
        if i < 0 || i >= threads.len() {
            self
        } else {
            self.with_thread(mem, layout, libc_addr, main_addr, threads[i]).with_threads(
                mem,
                layout,
                libc_addr,
                main_addr,
                threads,
                i + 1,
            )
        }
    }
}

/// The address of the first arena, or zero without any.
pub open spec fn first_address(arenas: Seq<Arena>) -> u64 {
    if arenas.len() == 0 {
        0
    } else {
        arenas[0].malloc_state_addr
    }
}

/// The thread-local data of a process. Without the TP-offset relocation there is
/// none to be had.
pub open spec fn tls_of<M: MemReader>(
    mem: &M,
    layout: &DetectedLayout,
    libc_addr: u64,
    arenas: Seq<Arena>,
    threads: Seq<Thread>,
) -> Tls {
    let none = Tls {
        cached: Cached { owners: Map::empty(), problems: Seq::empty() },
        bound_to: Map::empty(),
    };
    if layout.tp_off_reloc_addr is None {
        none
    } else {
        none.with_threads(mem, layout, libc_addr, first_address(arenas), threads, 0)
    }
}

/// Add the chunks of a bin to their owners.
fn own_entries(
    addrs: &Vec<u64>,
    thread_id: i32,
    bin: u32,
    membership: &mut HashMap<u64, (i32, u32)>,
    problems: &mut Vec<Problem>,
)
    ensures
        (Cached { owners: final(membership)@, problems: problem::views(final(problems)@) })
            == (Cached {
            owners: old(membership)@,
            problems: problem::views(old(problems)@),
        }).with_entries(addrs@, 0, thread_id, bin),
{
    broadcast use vstd::std_specs::hash::group_hash_axioms;

    let ghost whole = (Cached {
        owners: membership@,
        problems: problem::views(problems@),
    }).with_entries(addrs@, 0, thread_id, bin);
    let mut i: usize = 0;
    while i < addrs.len()
        invariant
            i <= addrs@.len(),
            (Cached { owners: membership@, problems: problem::views(problems@) }).with_entries(
                addrs@,
                i as int,
                thread_id,
                bin,
            ) == whole,
        decreases addrs@.len() - i,
    {
        broadcast use vstd::std_specs::hash::group_hash_axioms;

        let addr: u64 = addrs[i];
        i = i + 1;
        // First owner wins; a repeat indicates a double-free, not an overwrite.
        if membership.contains_key(&addr) {
            problem::push(
                problems,
                Problem::DuplicateTcacheEntry {
                    thread_id,
                    bin_index: bin,
                    address: text::hex_string(addr),
                },
            );
        } else {
            membership.insert(addr, (thread_id, bin));
        }
    }
}

/// Add the bins of one thread's tcache.
pub fn collect_tcache<M: MemReader>(
    mem: &M,
    layout: &DetectedLayout,
    base: u64,
    thread_id: i32,
    membership: &mut HashMap<u64, (i32, u32)>,
    problems: &mut Vec<Problem>,
)
    requires
        layout.header_size <= layout.minsize,
    ensures
        (Cached { owners: final(membership)@, problems: problem::views(final(problems)@) })
            == (Cached {
            owners: old(membership)@,
            problems: problem::views(old(problems)@),
        }).with_bins(mem, layout, base, thread_id, 0),
{
    let ghost whole = (Cached {
        owners: membership@,
        problems: problem::views(problems@),
    }).with_bins(mem, layout, base, thread_id, 0);
    let mut bin: u32 = 0;
    while bin < layout.tcache_max_bins
        invariant
            layout.header_size <= layout.minsize,
            bin <= layout.tcache_max_bins,
            (Cached { owners: membership@, problems: problem::views(problems@) }).with_bins(
                mem,
                layout,
                base,
                thread_id,
                bin as int,
            ) == whole,
        decreases layout.tcache_max_bins - bin,
    {
        let head_addr: u64 = slot_address(
            base,
            layout.tcache_entries_offset,
            bin,
            layout.word_size,
        );
        match mem.read_u64(head_addr) {
            Ok(head) => {
                let (result, told) = walk_tcache_bin(mem, layout, head, thread_id, bin);
                problem::extend(problems, told);
                own_entries(&result.user_addrs, thread_id, bin, membership, problems);
            },
            Err(_) => {
                problem::push(
                    problems,
                    Problem::TcacheChunkReadFailed {
                        thread_id,
                        bin_index: bin,
                        address: text::hex_string(head_addr),
                    },
                );
            },
        }
        bin = bin + 1;
    }
}

/// Resolve one thread's TLS.
fn resolve_thread<M: MemReader>(
    mem: &M,
    layout: &DetectedLayout,
    libc_addr: u64,
    main_addr: u64,
    thread: Thread,
    info: &mut TlsInfo,
    problems: &mut Vec<Problem>,
)
    requires
        layout.header_size <= layout.minsize,
    ensures
        tls_view(*final(info), final(problems)@) == tls_view(
            *old(info),
            old(problems)@,
        ).with_thread(mem, layout, libc_addr, main_addr, thread),
{
    broadcast use vstd::std_specs::hash::group_hash_axioms;

    let thread_id: i32 = thread.thread_id;
    if thread.tp == 0 {
        problem::push(problems, Problem::ThreadTlsResolutionFailed { thread_id });
        return;
    }
    let mut tls_failed: bool = false;
    if layout.thread_arena.present {
        match read_thread_arena(mem, layout, libc_addr, thread.tp) {
            // A null thread_arena is glibc's "this thread uses main"; map it to
            // main so attached_threads matches by address.
            Ok(addr) => {
                let resolved: u64 = if addr == 0 {
                    main_addr
                } else {
                    addr
                };
                info.thread_arena_map.insert(thread_id, resolved);
            },
            Err(_) => tls_failed = true,
        }
    }
    if layout.capabilities.has_tcache {
        match tcache_ptr(mem, layout, libc_addr, thread.tp) {
            Ok(base) => if base != 0 {
                collect_tcache(
                    mem,
                    layout,
                    base,
                    thread_id,
                    &mut info.tcache_membership,
                    problems,
                );
            },
            Err(_) => tls_failed = true,
        }
    }
    if tls_failed {
        problem::push(problems, Problem::ThreadTlsResolutionFailed { thread_id });
    }
}

/// What was found and reported, as maps and a sequence.
pub open spec fn tls_view(info: TlsInfo, problems: Seq<Problem>) -> Tls {
    Tls {
        cached: Cached {
            owners: info.tcache_membership@,
            problems: problem::views(problems),
        },
        bound_to: info.thread_arena_map@,
    }
}

/// Resolve each thread's TLS exactly once, producing the global tcache
/// membership map and the thread→arena map. Kept out of the arena loop so a
/// chain isn't re-walked, and a failing thread isn't re-reported, per arena.
pub fn resolve_tls<M: MemReader>(
    mem: &M,
    layout: &DetectedLayout,
    libc_addr: u64,
    arenas: &[Arena],
    threads: &[Thread],
) -> (r: (TlsInfo, Vec<Problem>))
    requires
        layout.header_size <= layout.minsize,
    ensures
        tls_view(r.0, r.1@) == tls_of(mem, layout, libc_addr, arenas@, threads@),
{
    broadcast use vstd::std_specs::hash::group_hash_axioms;

    let mut info = TlsInfo { tcache_membership: HashMap::new(), thread_arena_map: HashMap::new() };
    let mut problems: Vec<Problem> = problem::none();
    if layout.tp_off_reloc_addr.is_none() {
        return (info, problems);
    }
    let main_addr: u64 = if arenas.len() > 0 {
        arenas[0].malloc_state_addr
    } else {
        0
    };
    let ghost whole = tls_of(mem, layout, libc_addr, arenas@, threads@);
    let mut i: usize = 0;
    while i < threads.len()
        invariant
            i <= threads@.len(),
            layout.header_size <= layout.minsize,
            tls_view(info, problems@).with_threads(
                mem,
                layout,
                libc_addr,
                main_addr,
                threads@,
                i as int,
            ) == whole,
        decreases threads@.len() - i,
    {
        resolve_thread(
            mem,
            layout,
            libc_addr,
            main_addr,
            threads[i],
            &mut info,
            &mut problems,
        );
        i = i + 1;
    }
    (info, problems)
}

/// The first owner of a cached chunk keeps it, whatever further bins hold.
pub proof fn law_first_owner_wins<M: MemReader>(
    cached: Cached,
    mem: &M,
    layout: &DetectedLayout,
    base: u64,
    thread_id: i32,
    bin: int,
    addr: u64,
)
    requires
        cached.owners.contains_key(addr),
    ensures
        cached.with_bins(mem, layout, base, thread_id, bin).owners.contains_key(addr),
        cached.with_bins(mem, layout, base, thread_id, bin).owners[addr] == cached.owners[addr],
    decreases layout.tcache_max_bins - bin,
{
    if 0 <= bin < layout.tcache_max_bins {
        let head_addr = slot_at(base, layout.tcache_entries_offset, bin as u32, layout.word_size);
        let next = cached.with_bin(mem, layout, head_addr, thread_id, bin as u32);
        match mem.word_at(head_addr) {
            Ok(head) => {
                let chain = tcache::tcache_chain(mem, layout, head);
                let told = Cached {
                    problems: cached.problems + tcache::end_problems(
                        chain.1,
                        thread_id,
                        bin as u32,
                    ),
                    ..cached
                };
                lemma_entries_keep_owners(told, chain.0, 0, thread_id, bin as u32, addr);
            },
            Err(_) => {},
        }
        law_first_owner_wins(next, mem, layout, base, thread_id, bin + 1, addr);
    }
}

proof fn lemma_entries_keep_owners(
    cached: Cached,
    addrs: Seq<u64>,
    i: int,
    thread_id: i32,
    bin: u32,
    addr: u64,
)
    requires
        cached.owners.contains_key(addr),
    ensures
        cached.with_entries(addrs, i, thread_id, bin).owners.contains_key(addr),
        cached.with_entries(addrs, i, thread_id, bin).owners[addr] == cached.owners[addr],
    decreases addrs.len() - i,
{
    if 0 <= i < addrs.len() {
        lemma_entries_keep_owners(
            cached.with_entry(addrs[i], thread_id, bin),
            addrs,
            i + 1,
            thread_id,
            bin,
            addr,
        );
    }
}

/// A chunk that two bins hold is reported: of a bin's chunks that had an owner
/// before, each leaves one duplicate-entry problem.
pub proof fn law_repeated_owner_is_reported(
    cached: Cached,
    addrs: Seq<u64>,
    i: int,
    thread_id: i32,
    bin: u32,
    k: int,
)
    requires
        0 <= i <= k < addrs.len(),
        cached.owners.contains_key(addrs[k]),
    ensures
        cached.with_entries(addrs, i, thread_id, bin).problems.contains(
            problem::ProblemView::DuplicateTcacheEntry {
                thread_id,
                bin_index: bin,
                address: text::hex(addrs[k] as nat),
            },
        ),
    decreases addrs.len() - i,
{
    let next = cached.with_entry(addrs[i], thread_id, bin);
    if i < k {
        law_repeated_owner_is_reported(next, addrs, i + 1, thread_id, bin, k);
    } else {
        let at = next.problems.len() - 1;
        lemma_entries_keep_problems(next, addrs, i + 1, thread_id, bin, at);
        let all = cached.with_entries(addrs, i, thread_id, bin).problems;
        assert(all[at] == next.problems[at]);
    }
}

proof fn lemma_entries_keep_problems(
    cached: Cached,
    addrs: Seq<u64>,
    i: int,
    thread_id: i32,
    bin: u32,
    at: int,
)
    requires
        0 <= at < cached.problems.len(),
    ensures
        at < cached.with_entries(addrs, i, thread_id, bin).problems.len(),
        cached.with_entries(addrs, i, thread_id, bin).problems[at] == cached.problems[at],
    decreases addrs.len() - i,
{
    if 0 <= i < addrs.len() {
        lemma_entries_keep_problems(
            cached.with_entry(addrs[i], thread_id, bin),
            addrs,
            i + 1,
            thread_id,
            bin,
            at,
        );
    }
}

/// Without the TP-offset relocation nothing is known of any thread, and nothing
/// is said of it.
pub proof fn law_no_relocation_no_thread_data<M: MemReader>(
    mem: &M,
    layout: &DetectedLayout,
    libc_addr: u64,
    arenas: Seq<Arena>,
    threads: Seq<Thread>,
)
    requires
        layout.tp_off_reloc_addr is None,
    ensures
        ({
            let tls = tls_of(mem, layout, libc_addr, arenas, threads);
            &&& tls.cached.owners == Map::<u64, (i32, u32)>::empty()
            &&& tls.bound_to == Map::<i32, u64>::empty()
            &&& tls.cached.problems.len() == 0
        }),
{
}

} // verus!
