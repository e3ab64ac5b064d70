//! What the thread-local data of a process tells, in terms of the words in memory.

use vstd::prelude::*;

use crate::elf::coredump::Thread;
use crate::elf::MemReader;
use crate::error;
use crate::glibc::DetectedLayout;
use crate::heap::arena::Arena;
use crate::heap::fastbin::ChainEnd;
use crate::heap::tcache;
use crate::problem::ProblemView;
use crate::text;

use super::tls;
use super::tls::{Cached, Tls};

verus! {

/// Where the head of bin `bin` of the tcache at `base` is stored.
pub open spec fn head_slot(layout: &DetectedLayout, base: u64, bin: int) -> u64 {
    base.wrapping_add(layout.tcache_entries_offset as u64).wrapping_add(
        (bin * layout.word_size) as u64,
    )
}

/// A chunk is on the free list of bin `bin` of the tcache at `base`.
pub open spec fn cached_in<M: MemReader>(
    mem: &M,
    layout: &DetectedLayout,
    base: u64,
    bin: int,
    addr: u64,
) -> bool {
    match mem.word_at(head_slot(layout, base, bin)) {
        Ok(head) => tcache::tcache_chain(mem, layout, head).0.contains(addr),
        Err(_) => false,
    }
}

/// What is told of bin `bin` of a thread's tcache itself: that its head or a link could
/// not be read, or that it runs in a circle.
pub open spec fn told_of_bin<M: MemReader>(
    mem: &M,
    layout: &DetectedLayout,
    base: u64,
    thread_id: i32,
    bin: int,
    told: ProblemView,
) -> bool {
    let slot = head_slot(layout, base, bin);
    match mem.word_at(slot) {
        Err(_) => told == (ProblemView::TcacheChunkReadFailed {
            thread_id,
            bin_index: bin as u32,
            address: text::hex(slot as nat),
        }),
        Ok(head) => match tcache::tcache_chain(mem, layout, head).1 {
            ChainEnd::Clean => false,
            ChainEnd::Cycle => told == (ProblemView::TcacheCycleDetected {
                thread_id,
                bin_index: bin as u32,
            }),
            ChainEnd::Unreadable(at) => told == (ProblemView::TcacheChunkReadFailed {
                thread_id,
                bin_index: bin as u32,
                address: text::hex(at as nat),
            }),
        },
    }
}

/// What is told of a chunk that was met again in bin `bin` of a thread's tcache.
pub open spec fn met_again(thread_id: i32, bin: int, addr: u64) -> ProblemView {
    ProblemView::DuplicateTcacheEntry {
        thread_id,
        bin_index: bin as u32,
        address: text::hex(addr as nat),
    }
}

proof fn lemma_entries(
    cached: Cached,
    addrs: Seq<u64>,
    i: int,
    thread_id: i32,
    bin: u32,
    addr: u64,
)
    requires
        0 <= i <= addrs.len(),
    ensures
        ({
            let after = cached.with_entries(addrs, i, thread_id, bin);
            &&& after.owners.contains_key(addr) <==> cached.owners.contains_key(addr) || exists|
                k: int,
            |
                i <= k < addrs.len() && #[trigger] addrs[k] == addr
            &&& cached.owners.contains_key(addr) ==> after.owners[addr] == cached.owners[addr]
            &&& !cached.owners.contains_key(addr) && after.owners.contains_key(addr)
                ==> after.owners[addr] == (thread_id, bin)
        }),
    decreases addrs.len() - i,
{
    if i < addrs.len() {
        let next = cached.with_entry(addrs[i], thread_id, bin);
        lemma_entries(next, addrs, i + 1, thread_id, bin, addr);
        if exists|k: int| i + 1 <= k < addrs.len() && #[trigger] addrs[k] == addr {
            let k = choose|k: int| i + 1 <= k < addrs.len() && #[trigger] addrs[k] == addr;
            assert(addrs[k] == addr);
        }
        if exists|k: int| i <= k < addrs.len() && #[trigger] addrs[k] == addr {
            let k = choose|k: int| i <= k < addrs.len() && #[trigger] addrs[k] == addr;
            if k > i {
                assert(addrs[k] == addr);
            }
        }
    }
}

proof fn lemma_bin<M: MemReader>(
    cached: Cached,
    mem: &M,
    layout: &DetectedLayout,
    base: u64,
    thread_id: i32,
    bin: int,
    addr: u64,
)
    requires
        0 <= bin <= u32::MAX,
    ensures
        ({
            let after = cached.with_bin(
                mem,
                layout,
                head_slot(layout, base, bin),
                thread_id,
                bin as u32,
            );
            &&& after.owners.contains_key(addr) <==> cached.owners.contains_key(addr) || cached_in(
                mem,
                layout,
                base,
                bin,
                addr,
            )
            &&& cached.owners.contains_key(addr) ==> after.owners[addr] == cached.owners[addr]
            &&& !cached.owners.contains_key(addr) && after.owners.contains_key(addr)
                ==> after.owners[addr] == (thread_id, bin as u32)
        }),
{
    if let Ok(head) = mem.word_at(head_slot(layout, base, bin)) {
        let chain = tcache::tcache_chain(mem, layout, head);
        let told = Cached {
            problems: cached.problems + tcache::end_problems(chain.1, thread_id, bin as u32),
            ..cached
        };
        lemma_entries(told, chain.0, 0, thread_id, bin as u32, addr);
        if chain.0.contains(addr) {
            let k = choose|k: int| 0 <= k < chain.0.len() && chain.0[k] == addr;
            assert(chain.0[k] == addr);
        }
    }
}

proof fn lemma_bins<M: MemReader>(
    cached: Cached,
    mem: &M,
    layout: &DetectedLayout,
    base: u64,
    thread_id: i32,
    bin: int,
    addr: u64,
)
    requires
        0 <= bin <= layout.tcache_max_bins,
    ensures
        ({
            let after = cached.with_bins(mem, layout, base, thread_id, bin);
            &&& after.owners.contains_key(addr) <==> cached.owners.contains_key(addr) || exists|
                b: int,
            |
                bin <= b < layout.tcache_max_bins && #[trigger] cached_in(
                    mem,
                    layout,
                    base,
                    b,
                    addr,
                )
            &&& cached.owners.contains_key(addr) ==> after.owners[addr] == cached.owners[addr]
            &&& !cached.owners.contains_key(addr) && after.owners.contains_key(addr) ==> {
                let owner = after.owners[addr];
                &&& owner.0 == thread_id
                &&& bin <= owner.1 < layout.tcache_max_bins
                &&& cached_in(mem, layout, base, owner.1 as int, addr)
                &&& forall|b: int|
                    bin <= b < owner.1 ==> !#[trigger] cached_in(mem, layout, base, b, addr)
            }
        }),
    decreases layout.tcache_max_bins - bin,
{
    if bin < layout.tcache_max_bins {
        let next = cached.with_bin(
            mem,
            layout,
            head_slot(layout, base, bin),
            thread_id,
            bin as u32,
        );
        lemma_bin(cached, mem, layout, base, thread_id, bin, addr);
        lemma_bins(next, mem, layout, base, thread_id, bin + 1, addr);
        let after = next.with_bins(mem, layout, base, thread_id, bin + 1);
        assert(cached.with_bins(mem, layout, base, thread_id, bin) == after);
        if cached_in(mem, layout, base, bin, addr) {
            assert(next.owners.contains_key(addr));
        }
    }
}

/// Every bin of a thread's tcache is collected, whatever the other bins hold: a chunk
/// has an owner exactly where it had one before or is on the free list of some bin. Who
/// had a chunk keeps it; a new chunk belongs to the thread and to the first bin that
/// has it.
pub proof fn law_every_bin_is_collected<M: MemReader>(
    cached: Cached,
    mem: &M,
    layout: &DetectedLayout,
    base: u64,
    thread_id: i32,
    addr: u64,
)
    ensures
        ({
            let after = cached.with_bins(mem, layout, base, thread_id, 0);
            &&& after.owners.contains_key(addr) <==> cached.owners.contains_key(addr) || exists|
                b: int,
            |
                0 <= b < layout.tcache_max_bins && #[trigger] cached_in(mem, layout, base, b, addr)
            &&& cached.owners.contains_key(addr) ==> after.owners[addr] == cached.owners[addr]
            &&& !cached.owners.contains_key(addr) && after.owners.contains_key(addr) ==> {
                let owner = after.owners[addr];
                &&& owner.0 == thread_id
                &&& owner.1 < layout.tcache_max_bins
                &&& cached_in(mem, layout, base, owner.1 as int, addr)
                &&& forall|b: int|
                    0 <= b < owner.1 ==> !#[trigger] cached_in(mem, layout, base, b, addr)
            }
        }),
{
    lemma_bins(cached, mem, layout, base, thread_id, 0, addr);
}

proof fn lemma_entry_problems(
    cached: Cached,
    addrs: Seq<u64>,
    i: int,
    thread_id: i32,
    bin: u32,
    told: ProblemView,
)
    requires
        0 <= i <= addrs.len(),
        addrs.no_duplicates(),
    ensures
        ({
            let after = cached.with_entries(addrs, i, thread_id, bin);
            after.problems.contains(told) <==> cached.problems.contains(told) || exists|k: int|
                i <= k < addrs.len() && cached.owners.contains_key(#[trigger] addrs[k]) && told
                    == met_again(thread_id, bin as int, addrs[k])
        }),
    decreases addrs.len() - i,
{
    if i < addrs.len() {
        let next = cached.with_entry(addrs[i], thread_id, bin);
        lemma_entry_problems(next, addrs, i + 1, thread_id, bin, told);
        lemma_push_contains(
            cached.problems,
            met_again(thread_id, bin as int, addrs[i]),
            told,
        );
        let again = |c: Cached, from: int|
            exists|k: int|
                from <= k < addrs.len() && c.owners.contains_key(#[trigger] addrs[k]) && told
                    == met_again(thread_id, bin as int, addrs[k]);
        if again(next, i + 1) {
            let k = choose|k: int|
                i + 1 <= k < addrs.len() && next.owners.contains_key(#[trigger] addrs[k]) && told
                    == met_again(thread_id, bin as int, addrs[k]);
            assert(addrs[i] != addrs[k]);
            assert(cached.owners.contains_key(addrs[k]));
        }
        if again(cached, i) {
            let k = choose|k: int|
                i <= k < addrs.len() && cached.owners.contains_key(#[trigger] addrs[k]) && told
                    == met_again(thread_id, bin as int, addrs[k]);
            if k > i {
                assert(next.owners.contains_key(addrs[k]));
            }
        }
    }
}

proof fn lemma_push_contains<A>(s: Seq<A>, a: A, x: A)
    ensures
        s.push(a).contains(x) <==> s.contains(x) || x == a,
{
    if s.contains(x) {
        let k = choose|k: int| 0 <= k < s.len() && s[k] == x;
        assert(s.push(a)[k] == x);
    }
    if s.push(a).contains(x) && x != a {
        let k = choose|k: int| 0 <= k < s.push(a).len() && s.push(a)[k] == x;
        assert(s[k] == x);
    }
    assert(s.push(a)[s.len() as int] == a);
}

proof fn lemma_add_contains<A>(s: Seq<A>, t: Seq<A>, x: A)
    ensures
        (s + t).contains(x) <==> s.contains(x) || t.contains(x),
{
    if s.contains(x) {
        let k = choose|k: int| 0 <= k < s.len() && s[k] == x;
        assert((s + t)[k] == x);
    }
    if t.contains(x) {
        let k = choose|k: int| 0 <= k < t.len() && t[k] == x;
        assert((s + t)[s.len() + k] == x);
    }
    if (s + t).contains(x) {
        let k = choose|k: int| 0 <= k < (s + t).len() && (s + t)[k] == x;
        if k < s.len() {
            assert(s[k] == x);
        } else {
            assert(t[k - s.len()] == x);
        }
    }
}

proof fn lemma_bin_problems<M: MemReader>(
    cached: Cached,
    mem: &M,
    layout: &DetectedLayout,
    base: u64,
    thread_id: i32,
    bin: int,
    told: ProblemView,
)
    requires
        0 <= bin <= u32::MAX,
    ensures
        ({
            let after = cached.with_bin(
                mem,
                layout,
                head_slot(layout, base, bin),
                thread_id,
                bin as u32,
            );
            after.problems.contains(told) <==> cached.problems.contains(told) || told_of_bin(
                mem,
                layout,
                base,
                thread_id,
                bin,
                told,
            ) || exists|addr: u64| #[trigger]
                cached_in(mem, layout, base, bin, addr) && cached.owners.contains_key(addr) && told
                    == met_again(thread_id, bin, addr)
        }),
{
    let slot = head_slot(layout, base, bin);
    match mem.word_at(slot) {
        Err(_) => {
            lemma_push_contains(
                cached.problems,
                ProblemView::TcacheChunkReadFailed {
                    thread_id,
                    bin_index: bin as u32,
                    address: text::hex(slot as nat),
                },
                told,
            );
        },
        Ok(head) => {
            let chain = tcache::tcache_chain(mem, layout, head);
            let end = tcache::end_problems(chain.1, thread_id, bin as u32);
            let before = Cached { problems: cached.problems + end, ..cached };
            crate::heap::fastbin::law_chain_nodes_are_distinct(
                mem,
                layout.capabilities.has_safe_linking,
                0,
                head,
            );
            lemma_entry_problems(before, chain.0, 0, thread_id, bin as u32, told);
            lemma_add_contains(cached.problems, end, told);
            assert(end.contains(told) <==> told_of_bin(
                mem,
                layout,
                base,
                thread_id,
                bin,
                told,
            )) by {
                if told_of_bin(mem, layout, base, thread_id, bin, told) {
                    assert(end[0] == told);
                }
            }
            if exists|k: int|
                0 <= k < chain.0.len() && before.owners.contains_key(#[trigger] chain.0[k]) && told
                    == met_again(thread_id, bin, chain.0[k]) {
                let k = choose|k: int|
                    0 <= k < chain.0.len() && before.owners.contains_key(#[trigger] chain.0[k])
                        && told == met_again(thread_id, bin, chain.0[k]);
                assert(cached_in(mem, layout, base, bin, chain.0[k]));
            }
            if exists|addr: u64| #[trigger]
                cached_in(mem, layout, base, bin, addr) && cached.owners.contains_key(addr) && told
                    == met_again(thread_id, bin, addr) {
                let addr = choose|addr: u64| #[trigger]
                    cached_in(mem, layout, base, bin, addr) && cached.owners.contains_key(addr)
                        && told == met_again(thread_id, bin, addr);
                let k = choose|k: int| 0 <= k < chain.0.len() && chain.0[k] == addr;
                assert(before.owners.contains_key(chain.0[k]));
            }
        },
    }
}

/// A chunk of bin `bin` was met before: it had an owner, or a bin before has it too.
pub open spec fn met_before<M: MemReader>(
    cached: Cached,
    mem: &M,
    layout: &DetectedLayout,
    base: u64,
    from: int,
    bin: int,
    addr: u64,
) -> bool {
    cached.owners.contains_key(addr) || exists|b: int|
        from <= b < bin && #[trigger] cached_in(mem, layout, base, b, addr)
}

/// What a bin is told of.
pub open spec fn told_in<M: MemReader>(
    cached: Cached,
    mem: &M,
    layout: &DetectedLayout,
    base: u64,
    thread_id: i32,
    from: int,
    bin: int,
    told: ProblemView,
) -> bool {
    told_of_bin(mem, layout, base, thread_id, bin, told) || exists|addr: u64| #[trigger]
        cached_in(mem, layout, base, bin, addr) && met_before(
            cached,
            mem,
            layout,
            base,
            from,
            bin,
            addr,
        ) && told == met_again(thread_id, bin, addr)
}

proof fn lemma_bins_problems<M: MemReader>(
    cached: Cached,
    mem: &M,
    layout: &DetectedLayout,
    base: u64,
    thread_id: i32,
    bin: int,
    told: ProblemView,
)
    requires
        0 <= bin <= layout.tcache_max_bins,
    ensures
        cached.with_bins(mem, layout, base, thread_id, bin).problems.contains(told)
            <==> cached.problems.contains(told) || exists|b: int|
            bin <= b < layout.tcache_max_bins && #[trigger] told_in(
                cached,
                mem,
                layout,
                base,
                thread_id,
                bin,
                b,
                told,
            ),
    decreases layout.tcache_max_bins - bin,
{
    if bin < layout.tcache_max_bins {
        let next = cached.with_bin(
            mem,
            layout,
            head_slot(layout, base, bin),
            thread_id,
            bin as u32,
        );
        lemma_bin_problems(cached, mem, layout, base, thread_id, bin, told);
        lemma_bins_problems(next, mem, layout, base, thread_id, bin + 1, told);
        assert forall|addr: u64, b: int| bin < b implies (#[trigger] met_before(
            next,
            mem,
            layout,
            base,
            bin + 1,
            b,
            addr,
        ) <==> met_before(cached, mem, layout, base, bin, b, addr)) by {
            lemma_bin(cached, mem, layout, base, thread_id, bin, addr);
            if cached_in(mem, layout, base, bin, addr) {
                assert(met_before(cached, mem, layout, base, bin, b, addr));
            }
        }
        assert forall|b: int| bin < b implies (#[trigger] told_in(
            next,
            mem,
            layout,
            base,
            thread_id,
            bin + 1,
            b,
            told,
        ) <==> told_in(cached, mem, layout, base, thread_id, bin, b, told)) by {
            assert forall|addr: u64| #[trigger]
                cached_in(mem, layout, base, b, addr) implies (met_before(
                next,
                mem,
                layout,
                base,
                bin + 1,
                b,
                addr,
            ) <==> met_before(cached, mem, layout, base, bin, b, addr)) by {}
        }
        assert(told_in(cached, mem, layout, base, thread_id, bin, bin, told) <==> told_of_bin(
            mem,
            layout,
            base,
            thread_id,
            bin,
            told,
        ) || exists|addr: u64| #[trigger]
            cached_in(mem, layout, base, bin, addr) && cached.owners.contains_key(addr) && told
                == met_again(thread_id, bin, addr));
        let after = next.with_bins(mem, layout, base, thread_id, bin + 1);
        assert(cached.with_bins(mem, layout, base, thread_id, bin) == after);
        if exists|b: int|
            bin + 1 <= b < layout.tcache_max_bins && #[trigger] told_in(
                next,
                mem,
                layout,
                base,
                thread_id,
                bin + 1,
                b,
                told,
            ) {
            let b = choose|b: int|
                bin + 1 <= b < layout.tcache_max_bins && #[trigger] told_in(
                    next,
                    mem,
                    layout,
                    base,
                    thread_id,
                    bin + 1,
                    b,
                    told,
                );
            assert(told_in(cached, mem, layout, base, thread_id, bin, b, told));
        }
        if exists|b: int|
            bin <= b < layout.tcache_max_bins && #[trigger] told_in(
                cached,
                mem,
                layout,
                base,
                thread_id,
                bin,
                b,
                told,
            ) {
            let b = choose|b: int|
                bin <= b < layout.tcache_max_bins && #[trigger] told_in(
                    cached,
                    mem,
                    layout,
                    base,
                    thread_id,
                    bin,
                    b,
                    told,
                );
            if b > bin {
                assert(told_in(next, mem, layout, base, thread_id, bin + 1, b, told));
            }
        }
    }
}

/// What collecting a tcache tells is what was told before, what is wrong with some bin,
/// and that a chunk was met again: every bin is told of, and nothing else is told.
pub proof fn law_every_bin_is_told_of<M: MemReader>(
    cached: Cached,
    mem: &M,
    layout: &DetectedLayout,
    base: u64,
    thread_id: i32,
    told: ProblemView,
)
    ensures
        cached.with_bins(mem, layout, base, thread_id, 0).problems.contains(told)
            <==> cached.problems.contains(told) || exists|b: int|
            0 <= b < layout.tcache_max_bins && #[trigger] told_in(
                cached,
                mem,
                layout,
                base,
                thread_id,
                0,
                b,
                told,
            ),
{
    lemma_bins_problems(cached, mem, layout, base, thread_id, 0, told);
}

/// The tcache of a thread is at `base`: the libc has tcaches, the thread has a pointer,
/// and the variable is read and not null.
pub open spec fn has_tcache_at<M: MemReader>(
    mem: &M,
    layout: &DetectedLayout,
    libc_addr: u64,
    thread: Thread,
    base: u64,
) -> bool {
    &&& layout.capabilities.has_tcache
    &&& thread.tp != 0
    &&& base != 0
    &&& tcache::tls_var(mem, layout, libc_addr, thread.tp, layout.tcache.value) == Ok::<
        u64,
        error::ErrorView,
    >(base)
}

/// The word `thread_arena` of a thread is `addr`.
pub open spec fn has_arena_at<M: MemReader>(
    mem: &M,
    layout: &DetectedLayout,
    libc_addr: u64,
    thread: Thread,
    addr: u64,
) -> bool {
    &&& layout.thread_arena.present
    &&& thread.tp != 0
    &&& tcache::tls_var(mem, layout, libc_addr, thread.tp, layout.thread_arena.value) == Ok::<
        u64,
        error::ErrorView,
    >(addr)
}

/// The thread-local data of a thread cannot be had.
pub open spec fn is_unresolved<M: MemReader>(
    mem: &M,
    layout: &DetectedLayout,
    libc_addr: u64,
    thread: Thread,
) -> bool {
    ||| thread.tp == 0
    ||| layout.thread_arena.present && tcache::tls_var(
        mem,
        layout,
        libc_addr,
        thread.tp,
        layout.thread_arena.value,
    ) is Err
    ||| layout.capabilities.has_tcache && tcache::tls_var(
        mem,
        layout,
        libc_addr,
        thread.tp,
        layout.tcache.value,
    ) is Err
}

/// A chunk is on a free list of a thread's tcache.
pub open spec fn cached_by<M: MemReader>(
    mem: &M,
    layout: &DetectedLayout,
    libc_addr: u64,
    thread: Thread,
    bin: int,
    addr: u64,
) -> bool {
    &&& 0 <= bin < layout.tcache_max_bins
    &&& exists|base: u64| #[trigger]
        has_tcache_at(mem, layout, libc_addr, thread, base) && cached_in(
            mem,
            layout,
            base,
            bin,
            addr,
        )
}

proof fn lemma_thread<M: MemReader>(
    before: Tls,
    mem: &M,
    layout: &DetectedLayout,
    libc_addr: u64,
    main_addr: u64,
    thread: Thread,
    addr: u64,
)
    ensures
        ({
            let after = before.with_thread(mem, layout, libc_addr, main_addr, thread);
            let owners = before.cached.owners;
            &&& after.cached.owners.contains_key(addr) <==> owners.contains_key(addr) || exists|
                b: int,
            | #[trigger]
                cached_by(mem, layout, libc_addr, thread, b, addr)
            &&& owners.contains_key(addr) ==> after.cached.owners[addr] == owners[addr]
            &&& !owners.contains_key(addr) && after.cached.owners.contains_key(addr) ==> {
                &&& after.cached.owners[addr].0 == thread.thread_id
                &&& cached_by(
                    mem,
                    layout,
                    libc_addr,
                    thread,
                    after.cached.owners[addr].1 as int,
                    addr,
                )
            }
            &&& after.bound_to == if exists|at: u64| #[trigger]
                has_arena_at(mem, layout, libc_addr, thread, at) {
                let at = choose|at: u64| #[trigger]
                    has_arena_at(mem, layout, libc_addr, thread, at);
                before.bound_to.insert(
                    thread.thread_id,
                    if at == 0 {
                        main_addr
                    } else {
                        at
                    },
                )
            } else {
                before.bound_to
            }
        }),
{
    let owners = before.cached.owners;
    if thread.tp != 0 {
        let arena = tcache::tls_var(
            mem,
            layout,
            libc_addr,
            thread.tp,
            layout.thread_arena.value,
        );
        if layout.thread_arena.present && arena is Ok {
            assert(has_arena_at(mem, layout, libc_addr, thread, arena->Ok_0));
        }
        let base = tcache::tls_var(mem, layout, libc_addr, thread.tp, layout.tcache.value);
        if layout.capabilities.has_tcache && base is Ok && base->Ok_0 != 0 {
            assert(has_tcache_at(mem, layout, libc_addr, thread, base->Ok_0));
            law_every_bin_is_collected(
                before.cached,
                mem,
                layout,
                base->Ok_0,
                thread.thread_id,
                addr,
            );
            let all = before.cached.with_bins(mem, layout, base->Ok_0, thread.thread_id, 0);
            if exists|b: int| #[trigger] cached_by(mem, layout, libc_addr, thread, b, addr) {
                let b = choose|b: int| #[trigger]
                    cached_by(mem, layout, libc_addr, thread, b, addr);
                assert(cached_in(mem, layout, base->Ok_0, b, addr));
            }
            if exists|b: int|
                0 <= b < layout.tcache_max_bins && #[trigger] cached_in(
                    mem,
                    layout,
                    base->Ok_0,
                    b,
                    addr,
                ) {
                let b = choose|b: int|
                    0 <= b < layout.tcache_max_bins && #[trigger] cached_in(
                        mem,
                        layout,
                        base->Ok_0,
                        b,
                        addr,
                    );
                assert(cached_by(mem, layout, libc_addr, thread, b, addr));
            }
        }
    }
}

proof fn lemma_threads_owners<M: MemReader>(
    before: Tls,
    mem: &M,
    layout: &DetectedLayout,
    libc_addr: u64,
    main_addr: u64,
    threads: Seq<Thread>,
    i: int,
    addr: u64,
)
    requires
        0 <= i <= threads.len(),
    ensures
        ({
            let after = before.with_threads(mem, layout, libc_addr, main_addr, threads, i);
            let owners = before.cached.owners;
            &&& after.cached.owners.contains_key(addr) <==> owners.contains_key(addr) || exists|
                k: int,
                b: int,
            |
                i <= k < threads.len() && #[trigger] cached_by(
                    mem,
                    layout,
                    libc_addr,
                    threads[k],
                    b,
                    addr,
                )
            &&& owners.contains_key(addr) ==> after.cached.owners[addr] == owners[addr]
            &&& !owners.contains_key(addr) && after.cached.owners.contains_key(addr) ==> exists|
                k: int,
            |
                {
                    &&& i <= k < threads.len()
                    &&& #[trigger] threads[k].thread_id == after.cached.owners[addr].0
                    &&& cached_by(
                        mem,
                        layout,
                        libc_addr,
                        threads[k],
                        after.cached.owners[addr].1 as int,
                        addr,
                    )
                    &&& forall|j: int, b: int|
                        i <= j < k ==> !#[trigger] cached_by(
                            mem,
                            layout,
                            libc_addr,
                            threads[j],
                            b,
                            addr,
                        )
                }
        }),
    decreases threads.len() - i,
{
    if i < threads.len() {
        let next = before.with_thread(mem, layout, libc_addr, main_addr, threads[i]);
        lemma_thread(before, mem, layout, libc_addr, main_addr, threads[i], addr);
        lemma_threads_owners(next, mem, layout, libc_addr, main_addr, threads, i + 1, addr);
        let after = before.with_threads(mem, layout, libc_addr, main_addr, threads, i);
        assert(after == next.with_threads(mem, layout, libc_addr, main_addr, threads, i + 1));
        let owners = before.cached.owners;
        if !owners.contains_key(addr) && after.cached.owners.contains_key(addr) {
            if next.cached.owners.contains_key(addr) {
                assert(threads[i].thread_id == after.cached.owners[addr].0);
            } else {
                let k = choose|k: int|
                    {
                        &&& i + 1 <= k < threads.len()
                        &&& #[trigger] threads[k].thread_id == after.cached.owners[addr].0
                        &&& cached_by(
                            mem,
                            layout,
                            libc_addr,
                            threads[k],
                            after.cached.owners[addr].1 as int,
                            addr,
                        )
                        &&& forall|j: int, b: int|
                            i + 1 <= j < k ==> !#[trigger] cached_by(
                                mem,
                                layout,
                                libc_addr,
                                threads[j],
                                b,
                                addr,
                            )
                    };
                assert forall|j: int, b: int| i <= j < k implies !#[trigger] cached_by(
                    mem,
                    layout,
                    libc_addr,
                    threads[j],
                    b,
                    addr,
                ) by {
                    if j == i && cached_by(mem, layout, libc_addr, threads[j], b, addr) {
                        assert(next.cached.owners.contains_key(addr));
                    }
                }
                assert(threads[k].thread_id == after.cached.owners[addr].0);
            }
        }
    }
}

/// Chunks belong to the threads that cache them: a chunk has an owner exactly where it
/// is on a free list of some thread's tcache, and the owner is the first such thread,
/// with a bin of its that has the chunk.
pub proof fn law_cached_chunks_belong_to_their_threads<M: MemReader>(
    mem: &M,
    layout: &DetectedLayout,
    libc_addr: u64,
    arenas: Seq<Arena>,
    threads: Seq<Thread>,
    addr: u64,
)
    requires
        layout.tp_off_reloc_addr is Some,
    ensures
        ({
            let owners = tls::tls_of(mem, layout, libc_addr, arenas, threads).cached.owners;
            &&& owners.contains_key(addr) <==> exists|k: int, b: int|
                0 <= k < threads.len() && #[trigger] cached_by(
                    mem,
                    layout,
                    libc_addr,
                    threads[k],
                    b,
                    addr,
                )
            &&& owners.contains_key(addr) ==> exists|k: int|
                {
                    &&& 0 <= k < threads.len()
                    &&& #[trigger] threads[k].thread_id == owners[addr].0
                    &&& cached_by(
                        mem,
                        layout,
                        libc_addr,
                        threads[k],
                        owners[addr].1 as int,
                        addr,
                    )
                    &&& forall|j: int, b: int|
                        0 <= j < k ==> !#[trigger] cached_by(
                            mem,
                            layout,
                            libc_addr,
                            threads[j],
                            b,
                            addr,
                        )
                }
        }),
{
    let none = Tls {
        cached: Cached { owners: Map::empty(), problems: Seq::empty() },
        bound_to: Map::empty(),
    };
    lemma_threads_owners(
        none,
        mem,
        layout,
        libc_addr,
        tls::first_address(arenas),
        threads,
        0,
        addr,
    );
}

proof fn lemma_threads_bound<M: MemReader>(
    before: Tls,
    mem: &M,
    layout: &DetectedLayout,
    libc_addr: u64,
    main_addr: u64,
    threads: Seq<Thread>,
    i: int,
    id: i32,
)
    requires
        0 <= i <= threads.len(),
    ensures
        ({
            let after = before.with_threads(mem, layout, libc_addr, main_addr, threads, i).bound_to;
            let bound = |k: int, at: u64|
                i <= k < threads.len() && threads[k].thread_id == id && has_arena_at(
                    mem,
                    layout,
                    libc_addr,
                    threads[k],
                    at,
                );
            if exists|k: int, at: u64| #[trigger] bound(k, at) {
                after.contains_key(id) && exists|k: int, at: u64|
                    {
                        &&& #[trigger] bound(k, at)
                        &&& after[id] == if at == 0 {
                            main_addr
                        } else {
                            at
                        }
                        &&& forall|j: int, to: u64| k < j ==> !#[trigger] bound(j, to)
                    }
            } else {
                &&& after.contains_key(id) <==> before.bound_to.contains_key(id)
                &&& after.contains_key(id) ==> after[id] == before.bound_to[id]
            }
        }),
    decreases threads.len() - i,
{
    let bound = |k: int, at: u64|
        i <= k < threads.len() && threads[k].thread_id == id && has_arena_at(
            mem,
            layout,
            libc_addr,
            threads[k],
            at,
        );
    if i < threads.len() {
        let next = before.with_thread(mem, layout, libc_addr, main_addr, threads[i]);
        lemma_thread(before, mem, layout, libc_addr, main_addr, threads[i], 0);
        lemma_threads_bound(next, mem, layout, libc_addr, main_addr, threads, i + 1, id);
        let later = |k: int, at: u64|
            i + 1 <= k < threads.len() && threads[k].thread_id == id && has_arena_at(
                mem,
                layout,
                libc_addr,
                threads[k],
                at,
            );
        assert forall|k: int, at: u64| i < k implies (#[trigger] later(k, at) <==> bound(k, at)) by {}
        assert forall|k: int, at: u64| i < k implies (#[trigger] bound(k, at) <==> later(k, at)) by {}
        let after = before.with_threads(mem, layout, libc_addr, main_addr, threads, i).bound_to;
        assert(after == next.with_threads(
            mem,
            layout,
            libc_addr,
            main_addr,
            threads,
            i + 1,
        ).bound_to);
        if exists|k: int, at: u64| #[trigger] later(k, at) {
            let (k, at) = choose|k: int, at: u64|
                {
                    &&& #[trigger] later(k, at)
                    &&& after[id] == if at == 0 {
                        main_addr
                    } else {
                        at
                    }
                    &&& forall|j: int, to: u64| k < j ==> !#[trigger] later(j, to)
                };
            assert(bound(k, at));
            assert forall|j: int, to: u64| k < j implies !#[trigger] bound(j, to) by {
                assert(!later(j, to));
            }
        } else if exists|k: int, at: u64| #[trigger] bound(k, at) {
            let (k, at) = choose|k: int, at: u64| #[trigger] bound(k, at);
            if k > i {
                assert(later(k, at));
            }
            assert(k == i);
            assert(has_arena_at(mem, layout, libc_addr, threads[i], at));
            assert forall|j: int, to: u64| i < j implies !#[trigger] bound(j, to) by {
                assert(!later(j, to));
            }
            assert(bound(i, at));
        } else {
            assert forall|at: u64| threads[i].thread_id == id implies !#[trigger] has_arena_at(
                mem,
                layout,
                libc_addr,
                threads[i],
                at,
            ) by {
                assert(!bound(i, at));
            }
        }
    }
}

/// A thread is bound to the arena that its `thread_arena` names, to the main arena
/// where that is null. It is bound at all exactly where the variable can be read.
pub proof fn law_threads_are_bound_by_their_variable<M: MemReader>(
    mem: &M,
    layout: &DetectedLayout,
    libc_addr: u64,
    arenas: Seq<Arena>,
    threads: Seq<Thread>,
    k: int,
)
    requires
        layout.tp_off_reloc_addr is Some,
        0 <= k < threads.len(),
        forall|j: int| 0 <= j < threads.len() && j != k ==> (#[trigger] threads[j]).thread_id
            != threads[k].thread_id,
    ensures
        ({
            let bound_to = tls::tls_of(mem, layout, libc_addr, arenas, threads).bound_to;
            let id = threads[k].thread_id;
            let variable = tcache::tls_var(
                mem,
                layout,
                libc_addr,
                threads[k].tp,
                layout.thread_arena.value,
            );
            if layout.thread_arena.present && threads[k].tp != 0 && variable is Ok {
                &&& bound_to.contains_key(id)
                &&& variable->Ok_0 != 0 ==> bound_to[id] == variable->Ok_0
                &&& variable->Ok_0 == 0 && arenas.len() > 0 ==> bound_to[id]
                    == arenas[0].malloc_state_addr
                &&& variable->Ok_0 == 0 && arenas.len() == 0 ==> bound_to[id] == 0
            } else {
                !bound_to.contains_key(id)
            }
        }),
{
    let none = Tls {
        cached: Cached { owners: Map::empty(), problems: Seq::empty() },
        bound_to: Map::empty(),
    };
    let id = threads[k].thread_id;
    let main_addr = tls::first_address(arenas);
    lemma_threads_bound(none, mem, layout, libc_addr, main_addr, threads, 0, id);
    let bound = |k: int, at: u64|
        0 <= k < threads.len() && threads[k].thread_id == id && has_arena_at(
            mem,
            layout,
            libc_addr,
            threads[k],
            at,
        );
    let variable = tcache::tls_var(
        mem,
        layout,
        libc_addr,
        threads[k].tp,
        layout.thread_arena.value,
    );
    if layout.thread_arena.present && threads[k].tp != 0 && variable is Ok {
        assert(bound(k, variable->Ok_0));
    } else {
        assert forall|j: int, at: u64| !#[trigger] bound(j, at) by {
            if bound(j, at) {
                assert(j == k);
            }
        }
    }
}

proof fn lemma_thread_problems<M: MemReader>(
    before: Tls,
    mem: &M,
    layout: &DetectedLayout,
    libc_addr: u64,
    main_addr: u64,
    thread: Thread,
    id: i32,
)
    ensures
        ({
            let told = ProblemView::ThreadTlsResolutionFailed { thread_id: id };
            before.with_thread(
                mem,
                layout,
                libc_addr,
                main_addr,
                thread,
            ).cached.problems.contains(told) <==> before.cached.problems.contains(told) || (
            thread.thread_id == id && is_unresolved(mem, layout, libc_addr, thread))
        }),
{
    let told = ProblemView::ThreadTlsResolutionFailed { thread_id: id };
    let own = ProblemView::ThreadTlsResolutionFailed { thread_id: thread.thread_id };
    lemma_push_contains(before.cached.problems, own, told);
    if thread.tp != 0 {
        if let Ok(base) = tcache::tls_var(
            mem,
            layout,
            libc_addr,
            thread.tp,
            layout.tcache.value,
        ) {
            law_every_bin_is_told_of(before.cached, mem, layout, base, thread.thread_id, told);
            assert forall|b: int| !#[trigger] told_in(
                before.cached,
                mem,
                layout,
                base,
                thread.thread_id,
                0,
                b,
                told,
            ) by {}
            let all = before.cached.with_bins(mem, layout, base, thread.thread_id, 0);
            lemma_push_contains(all.problems, own, told);
        }
    }
}

proof fn lemma_threads_problems<M: MemReader>(
    before: Tls,
    mem: &M,
    layout: &DetectedLayout,
    libc_addr: u64,
    main_addr: u64,
    threads: Seq<Thread>,
    i: int,
    id: i32,
)
    requires
        0 <= i <= threads.len(),
    ensures
        ({
            let told = ProblemView::ThreadTlsResolutionFailed { thread_id: id };
            before.with_threads(
                mem,
                layout,
                libc_addr,
                main_addr,
                threads,
                i,
            ).cached.problems.contains(told) <==> before.cached.problems.contains(told) || exists|
                k: int,
            |
                i <= k < threads.len() && #[trigger] threads[k].thread_id == id && is_unresolved(
                    mem,
                    layout,
                    libc_addr,
                    threads[k],
                )
        }),
    decreases threads.len() - i,
{
    if i < threads.len() {
        let next = before.with_thread(mem, layout, libc_addr, main_addr, threads[i]);
        lemma_thread_problems(before, mem, layout, libc_addr, main_addr, threads[i], id);
        lemma_threads_problems(next, mem, layout, libc_addr, main_addr, threads, i + 1, id);
        if threads[i].thread_id == id && is_unresolved(mem, layout, libc_addr, threads[i]) {
            assert(threads[i].thread_id == id);
        }
    }
}

/// A thread is told to be unresolved exactly where it has no thread pointer or one of
/// its two variables cannot be read.
pub proof fn law_unresolved_threads_are_told<M: MemReader>(
    mem: &M,
    layout: &DetectedLayout,
    libc_addr: u64,
    arenas: Seq<Arena>,
    threads: Seq<Thread>,
    id: i32,
)
    requires
        layout.tp_off_reloc_addr is Some,
    ensures
        tls::tls_of(mem, layout, libc_addr, arenas, threads).cached.problems.contains(
            ProblemView::ThreadTlsResolutionFailed { thread_id: id },
        ) <==> exists|k: int|
            0 <= k < threads.len() && #[trigger] threads[k].thread_id == id && is_unresolved(
                mem,
                layout,
                libc_addr,
                threads[k],
            ),
{
    let none = Tls {
        cached: Cached { owners: Map::empty(), problems: Seq::empty() },
        bound_to: Map::empty(),
    };
    lemma_threads_problems(
        none,
        mem,
        layout,
        libc_addr,
        tls::first_address(arenas),
        threads,
        0,
        id,
    );
}

} // verus!
