//! What the arenas and heaps of a process are, in terms of the words in memory.

use vstd::prelude::*;

use crate::elf::MemReader;
use crate::error;
use crate::glibc::DetectedLayout;
use crate::problem::ProblemView;

use super::arena;
use super::arena::Arena;
use super::heap_list;
use super::heap_list::Heap;

verus! {

/// The word at an address is a certain one.
pub open spec fn reads<M: MemReader>(mem: &M, addr: u64, word: u64) -> bool {
    mem.word_at(addr) == Ok::<u64, error::ErrorView>(word)
}

/// A list that was cut short, and why.
pub open spec fn cut(arena: int, reason: Seq<char>) -> Seq<ProblemView> {
    seq![ProblemView::HeapWalkTruncated { arena: arena as u32, reason }]
}

/// Why the ring of arenas is not followed behind the arena at `last`, the `count`th,
/// and what is said of it. `met` are the addresses of the arenas so far.
pub open spec fn ring_ends<M: MemReader>(
    mem: &M,
    next_off: u64,
    main: u64,
    last: u64,
    met: Set<u64>,
    count: int,
    told: Seq<ProblemView>,
) -> bool {
    if count == 1024 {
        told == cut(count, "arena list did not cycle back within limit"@)
    } else {
        match mem.word_at(last.wrapping_add(next_off)) {
            Err(_) => told == cut(count, "next pointer unreadable"@),
            Ok(next) => if next == main || next == 0 {
                told.len() == 0
            } else if met.contains(next) {
                told == cut(count, "arena next pointer forms a mid-chain cycle"@)
            } else {
                &&& mem.word_at(next.wrapping_add(next_off)) is Err
                &&& told == cut(count, "next arena malloc_state unreadable"@)
            },
        }
    }
}

/// The set with further addresses.
pub open spec fn with_all(met: Set<u64>, more: Seq<u64>) -> Set<u64> {
    met.union(more.to_set())
}

proof fn lemma_ring_followed<M: MemReader>(
    mem: &M,
    next_off: u64,
    main: u64,
    current: u64,
    visited: Set<u64>,
    index: u32,
)
    requires
        index <= 1024,
        visited.contains(main),
    ensures
        ({
            let r = arena::ring_from(mem, next_off, main, current, visited, index);
            let all = seq![current] + r.0;
            &&& forall|i: int|
                0 <= i < r.0.len() ==> reads(
                    mem,
                    all[i].wrapping_add(next_off),
                    #[trigger] r.0[i],
                ) && r.0[i] != main && r.0[i] != 0 && mem.word_at(
                    r.0[i].wrapping_add(next_off),
                ) is Ok
            &&& ring_ends(
                mem,
                next_off,
                main,
                all.last(),
                with_all(visited, r.0),
                index + r.0.len(),
                r.1,
            )
        }),
    decreases 1024 - index,
{
    let r = arena::ring_from(mem, next_off, main, current, visited, index);
    let all = seq![current] + r.0;
    assert(with_all(visited, Seq::empty()) =~= visited);
    if index < 1024 {
        if let Ok(next) = mem.word_at(current.wrapping_add(next_off)) {
            if next != main && next != 0 && !visited.contains(next) && mem.word_at(
                next.wrapping_add(next_off),
            ) is Ok {
                let more = visited.insert(next);
                lemma_ring_followed(mem, next_off, main, next, more, (index + 1) as u32);
                let rest = arena::ring_from(
                    mem,
                    next_off,
                    main,
                    next,
                    more,
                    (index + 1) as u32,
                );
                assert(r.0 == seq![next] + rest.0);
                let rest_all = seq![next] + rest.0;
                assert forall|i: int| 0 <= i < r.0.len() implies reads(
                    mem,
                    all[i].wrapping_add(next_off),
                    #[trigger] r.0[i],
                ) && r.0[i] != main && r.0[i] != 0 && mem.word_at(
                    r.0[i].wrapping_add(next_off),
                ) is Ok by {
                    if i > 0 {
                        assert(r.0[i] == rest.0[i - 1]);
                        assert(all[i] == rest_all[i - 1]);
                    }
                }
                assert(all.last() == rest_all.last());
                assert(with_all(visited, r.0) =~= with_all(more, rest.0)) by {
                    assert forall|a: u64| with_all(visited, r.0).contains(a) <==> with_all(
                        more,
                        rest.0,
                    ).contains(a) by {
                        if r.0.contains(a) && a != next {
                            let k = choose|k: int| 0 <= k < r.0.len() && r.0[k] == a;
                            assert(rest.0[k - 1] == a);
                        }
                        if rest.0.contains(a) {
                            let k = choose|k: int| 0 <= k < rest.0.len() && rest.0[k] == a;
                            assert(r.0[k + 1] == a);
                        }
                        if a == next {
                            assert(r.0[0] == a);
                        }
                    }
                }
            }
        }
    }
}

/// The arenas are those on the ring of `next` words: the main arena where the libc has
/// its symbol, then each arena that the one before it leads to, as far as the ring can
/// be followed. Listing them fails exactly where the word `top` of the main arena
/// cannot be read.
pub proof fn law_arenas_follow_the_ring<M: MemReader>(
    mem: &M,
    layout: &DetectedLayout,
    libc_addr: u64,
)
    ensures
        ({
            let all = arena::arenas(mem, layout, libc_addr);
            let told = arena::ring(mem, layout, libc_addr).1;
            let next_off = layout.malloc_state_next_offset as u64;
            let main = libc_addr.wrapping_add(layout.main_arena.value);
            &&& all.len() > 0
            &&& all[0].malloc_state_addr == main
            &&& forall|i: int| 0 <= i < all.len() ==> (#[trigger] all[i]).index == i
            &&& forall|i: int|
                0 < i < all.len() ==> reads(
                    mem,
                    all[i - 1].malloc_state_addr.wrapping_add(next_off),
                    (#[trigger] all[i]).malloc_state_addr,
                ) && all[i].malloc_state_addr != main && all[i].malloc_state_addr != 0
                    && mem.word_at(all[i].malloc_state_addr.wrapping_add(next_off)) is Ok
            &&& ring_ends(
                mem,
                next_off,
                main,
                all.last().malloc_state_addr,
                all.map_values(|a: Arena| a.malloc_state_addr).to_set(),
                all.len() as int,
                told,
            )
        }),
        arena::probe(mem, layout, libc_addr) == mem.word_at(
            libc_addr.wrapping_add(layout.main_arena.value).wrapping_add(
                layout.malloc_state_top_offset as u64,
            ),
        ),
{
    let all = arena::arenas(mem, layout, libc_addr);
    let ring = arena::ring(mem, layout, libc_addr);
    let next_off = layout.malloc_state_next_offset as u64;
    let main = libc_addr.wrapping_add(layout.main_arena.value);
    arena::law_arenas_are_distinct(mem, layout, libc_addr);
    lemma_ring_followed(mem, next_off, main, main, set![main], 1);
    let chain = seq![main] + ring.0;
    let addrs = all.map_values(|a: Arena| a.malloc_state_addr);
    assert(addrs =~= chain);
    assert(all.last().malloc_state_addr == chain.last()) by {
        assert(addrs.last() == all.last().malloc_state_addr);
    }
    assert forall|i: int| 0 < i < all.len() implies reads(
        mem,
        all[i - 1].malloc_state_addr.wrapping_add(next_off),
        (#[trigger] all[i]).malloc_state_addr,
    ) && all[i].malloc_state_addr != main && all[i].malloc_state_addr != 0 by {
        assert(all[i].malloc_state_addr == ring.0[i - 1]);
        assert(all[i - 1].malloc_state_addr == chain[i - 1]);
    }
    assert(addrs.to_set() =~= with_all(set![main], ring.0)) by {
        assert forall|a: u64| addrs.to_set().contains(a) <==> with_all(
            set![main],
            ring.0,
        ).contains(a) by {
            if chain.contains(a) && a != main {
                let k = choose|k: int| 0 <= k < chain.len() && chain[k] == a;
                assert(ring.0[k - 1] == a);
            }
            if ring.0.contains(a) {
                let k = choose|k: int| 0 <= k < ring.0.len() && ring.0[k] == a;
                assert(chain[k + 1] == a);
            }
            if a == main {
                assert(chain[0] == a);
            }
        }
    }
}

/// `at` is where the zero words from `start` on end: a whole number of words on, with
/// zeros only in between, at the end of the region or past it, or where no zero can be
/// read. There is nothing to skip in an empty region.
pub open spec fn behind_zeros<M: MemReader>(
    mem: &M,
    start: u64,
    end: u64,
    word: u64,
    at: u64,
) -> bool {
    if start >= end {
        at == start
    } else {
        &&& start <= at < end + word
        &&& (at - start) % word as int == 0
        &&& forall|x: u64|
            start <= x < at && (x - start) % word as int == 0 ==> #[trigger] reads(mem, x, 0)
        &&& at >= end || !reads(mem, at, 0)
    }
}

/// Skipping padding ends right behind the zero words, in every region behind which
/// there is room for a word.
pub proof fn law_padding_is_zero_words<M: MemReader>(
    mem: &M,
    start: u64,
    end: u64,
    word: u64,
    wraps: u64,
)
    requires
        word > 0,
        end + word <= u64::MAX,
    ensures
        behind_zeros(mem, start, end, word, heap_list::padding_end(mem, start, end, word, wraps)),
    decreases u64::MAX - start,
{
    let w = word as int;
    let r = heap_list::padding_end(mem, start, end, word, wraps);
    assert(0int % w == 0) by (nonlinear_arith)
        requires
            w > 0,
    ;
    if start < end && reads(mem, start, 0) {
        let next = (start + word) as u64;
        law_padding_is_zero_words(mem, next, end, word, wraps);
        assert(r == heap_list::padding_end(mem, next, end, word, wraps));
        vstd::arithmetic::div_mod::lemma_mod_add_multiples_vanish(r - next, w);
        assert((r - start) % w == 0);
        assert forall|x: u64| start <= x < r && (x - start) % w == 0 implies #[trigger] reads(
            mem,
            x,
            0,
        ) by {
            let d = x - start;
            if x >= next {
                vstd::arithmetic::div_mod::lemma_mod_sub_multiples_vanish(d, w);
                assert((x - next) % w == 0);
                if next >= end {
                    assert(r == next);
                }
            } else if x > start {
                vstd::arithmetic::div_mod::lemma_small_mod(d as nat, w as nat);
            }
        }
    }
}

/// A heap whose chunks may begin at `from`: its region starts behind the zero words
/// there. Nothing is said where the region runs to the top of the address space.
pub open spec fn starts_behind_zeros<M: MemReader>(
    mem: &M,
    layout: &DetectedLayout,
    heap: Heap,
    from: u64,
) -> bool {
    heap.region_end + layout.word_size <= u64::MAX ==> behind_zeros(
        mem,
        from,
        heap.region_end,
        layout.word_size as u64,
        heap.region_start,
    )
}

/// The main arena has one heap, from where `sbrk_base` says to where its `top` says:
/// the words at those two places of the libc tell its extent, and its region ends one
/// word behind `top`. Where `sbrk_base` is not mapped, the heap starts with the segment
/// that holds `top`, at most four reservations back.
pub proof fn law_main_heap_runs_from_base_to_top<M: MemReader>(
    mem: &M,
    layout: &DetectedLayout,
    libc_addr: u64,
    arena: Arena,
)
    requires
        arena.index == 0,
        layout.word_size > 0,
    ensures
        ({
            let r = heap_list::heaps(mem, layout, libc_addr, arena);
            let base = mem.word_at(
                libc_addr.wrapping_add(layout.mp.value).wrapping_add(
                    layout.mp_sbrk_base_offset as u64,
                ),
            );
            let top = mem.word_at(
                arena.malloc_state_addr.wrapping_add(layout.malloc_state_top_offset as u64),
            );
            if base is Err {
                r is Err && r->Err_0 == base->Err_0
            } else if top is Err {
                r is Err && r->Err_0 == top->Err_0
            } else {
                let base = base->Ok_0;
                let top = top->Ok_0;
                &&& r is Ok
                &&& if base == 0 || top == 0 {
                    r->Ok_0.0.len() == 0 && r->Ok_0.1.len() == 0
                } else if mem.segment_at(base) is None && mem.segment_at(top) is None {
                    r->Ok_0.0.len() == 0 && r->Ok_0.1 == cut(
                        0,
                        "main arena heap start undeterminable"@,
                    )
                } else {
                    let heap = r->Ok_0.0[0];
                    &&& r->Ok_0.0.len() == 1
                    &&& mem.segment_at(base) is Some ==> heap.address == base
                    &&& mem.segment_at(base) is None ==> {
                        let segment = mem.segment_at(top)->0;
                        &&& heap.address >= segment
                        &&& heap.address + 4 * layout.heap_max_size >= top
                        &&& heap.address == segment || heap.address + 4 * layout.heap_max_size
                            == top || heap.address == 0
                    }
                    &&& heap.size == if heap.address <= top {
                        top - heap.address
                    } else {
                        0
                    }
                    &&& heap.mprotect_size == heap.size
                    &&& heap.region_end == top.wrapping_add(layout.word_size as u64)
                    &&& starts_behind_zeros(mem, layout, heap, heap.address)
                    &&& r->Ok_0.1 == if heap.address <= top {
                        Seq::<ProblemView>::empty()
                    } else {
                        cut(0, "top is below heap start"@)
                    }
                }
            }
        }),
{
    if let Ok(listed) = heap_list::heaps(mem, layout, libc_addr, arena) {
        if listed.0.len() > 0 {
            let heap = listed.0[0];
            let word = layout.word_size as u64;
            if heap.region_end + word <= u64::MAX {
                law_padding_is_zero_words(mem, heap.address, heap.region_end, word, word);
            }
        }
    }
}

/// A heap of a secondary arena is as its `_heap_info` says: its sizes are the words
/// there, its region ends one word behind `top` in the heap that `top` is in and where
/// its size says in another, and its chunks begin behind the `_heap_info` and, in the
/// oldest heap, behind the `malloc_state` there.
pub open spec fn is_heap_of<M: MemReader>(
    mem: &M,
    layout: &DetectedLayout,
    heap: Heap,
    top: u64,
    holds_top: bool,
) -> bool {
    let prev = mem.word_at(heap.address.wrapping_add(layout.heap_info_prev_offset as u64));
    &&& reads(mem, heap.address.wrapping_add(layout.heap_info_size_offset as u64), heap.size)
    &&& reads(
        mem,
        heap.address.wrapping_add(layout.heap_info_mprotect_size_offset as u64),
        heap.mprotect_size,
    )
    &&& prev is Ok
    &&& heap.region_end == if holds_top {
        top.wrapping_add(layout.word_size as u64) as int
    } else {
        heap.address + heap.size
    }
    &&& starts_behind_zeros(
        mem,
        layout,
        heap,
        if prev->Ok_0 == 0 {
            heap.address.wrapping_add(layout.heap_info_size as u64).wrapping_add(
                layout.main_arena.size,
            )
        } else {
            heap.address.wrapping_add(layout.heap_info_size as u64)
        },
    )
}

/// The `_heap_info` at an address can be read.
pub open spec fn has_info<M: MemReader>(mem: &M, layout: &DetectedLayout, addr: u64) -> bool {
    &&& mem.word_at(addr.wrapping_add(layout.heap_info_size_offset as u64)) is Ok
    &&& mem.word_at(addr.wrapping_add(layout.heap_info_mprotect_size_offset as u64)) is Ok
    &&& mem.word_at(addr.wrapping_add(layout.heap_info_prev_offset as u64)) is Ok
}

/// Why the heaps of a secondary arena, `count` of them with these addresses, end
/// before the one at `addr`, or with none left where that is null, and what is said of
/// it.
pub open spec fn heaps_end<M: MemReader>(
    mem: &M,
    layout: &DetectedLayout,
    arena: u32,
    first: u64,
    addr: u64,
    met: Set<u64>,
    count: int,
    told: Seq<ProblemView>,
) -> bool {
    let size = mem.word_at(addr.wrapping_add(layout.heap_info_size_offset as u64));
    if count >= 10_000 {
        told == cut(arena as int, "heap_info prev chain exceeded limit"@)
    } else if met.contains(addr) {
        told == cut(arena as int, "heap_info prev chain forms a cycle"@)
    } else if !has_info(mem, layout, addr) {
        told == cut(arena as int, "heap_info unreadable"@)
    } else {
        &&& addr != first
        &&& addr + size->Ok_0 > u64::MAX
        &&& told == cut(arena as int, "heap_info size overflows its region"@)
    }
}

/// The addresses of heaps, in order.
pub open spec fn addresses(heaps: Seq<Heap>) -> Seq<u64> {
    heaps.map_values(|h: Heap| h.address)
}

/// Where the `prev` word of a heap leads.
pub open spec fn leads_to<M: MemReader>(
    mem: &M,
    layout: &DetectedLayout,
    from: u64,
    to: u64,
) -> bool {
    reads(mem, from.wrapping_add(layout.heap_info_prev_offset as u64), to)
}

/// Where the `prev` word of the last heap leads: nowhere, with nothing to tell, or to
/// where the heaps end for a reason that is told.
pub open spec fn end_is_told<M: MemReader>(
    mem: &M,
    layout: &DetectedLayout,
    arena: u32,
    first: u64,
    last: u64,
    met: Set<u64>,
    count: int,
    told: Seq<ProblemView>,
) -> bool {
    exists|prev: u64| #[trigger]
        leads_to(mem, layout, last, prev) && if prev == 0 {
            told.len() == 0
        } else {
            heaps_end(mem, layout, arena, first, prev, met, count, told)
        }
}

proof fn lemma_chain_followed<M: MemReader>(
    mem: &M,
    layout: &DetectedLayout,
    arena: u32,
    top: u64,
    addr: u64,
    visited: Set<u64>,
    count: nat,
)
    requires
        layout.word_size > 0,
        count <= 10_000,
    ensures
        ({
            let r = heap_list::chain_from(mem, layout, arena, top, addr, visited, count);
            let first = heap_list::reservation_start(top, layout.heap_max_size);
            let met = with_all(visited, addresses(r.0));
            &&& forall|i: int|
                0 <= i < r.0.len() ==> is_heap_of(
                    mem,
                    layout,
                    #[trigger] r.0[i],
                    top,
                    r.0[i].address == first,
                )
            &&& r.0.len() > 0 ==> r.0[0].address == addr
            &&& forall|i: int|
                0 < i < r.0.len() ==> leads_to(
                    mem,
                    layout,
                    r.0[i - 1].address,
                    (#[trigger] r.0[i]).address,
                )
            &&& forall|i: int|
                0 <= i < r.0.len() - 1 ==> !leads_to(
                    mem,
                    layout,
                    (#[trigger] r.0[i]).address,
                    0,
                )
            &&& if r.0.len() == 0 {
                heaps_end(mem, layout, arena, first, addr, met, count as int, r.1)
            } else {
                end_is_told(
                    mem,
                    layout,
                    arena,
                    first,
                    r.0.last().address,
                    met,
                    (count + r.0.len()) as int,
                    r.1,
                )
            }
        }),
    decreases 10_000 - count,
{
    let r = heap_list::chain_from(mem, layout, arena, top, addr, visited, count);
    let first = heap_list::reservation_start(top, layout.heap_max_size);
    let met = with_all(visited, addresses(r.0));
    assert(with_all(visited, Seq::empty()) =~= visited);
    assert(addresses(Seq::empty()) =~= Seq::empty());
    if count < 10_000 && !visited.contains(addr) {
        if let Ok(info) = heap_list::heap_info_at(mem, layout, addr) {
            if let Some(end) = heap_list::secondary_end(layout, top, addr, info) {
                let heap = heap_list::secondary_heap(mem, layout, addr, info, end);
                let word = layout.word_size as u64;
                let from = heap_list::secondary_start(layout, addr, info);
                if heap.region_end + word <= u64::MAX {
                    law_padding_is_zero_words(mem, from, heap.region_end, word, word);
                }
                assert(is_heap_of(mem, layout, heap, top, heap.address == first));
                assert(leads_to(mem, layout, addr, info.prev));
                if info.prev == 0 {
                    assert(r.0 == seq![heap]);
                    assert(r.0.last().address == addr);
                } else {
                    let more = visited.insert(addr);
                    lemma_chain_followed(mem, layout, arena, top, info.prev, more, count + 1);
                    let rest = heap_list::chain_from(
                        mem,
                        layout,
                        arena,
                        top,
                        info.prev,
                        more,
                        count + 1,
                    );
                    assert(r.0 == seq![heap] + rest.0);
                    assert(r.0[0] == heap);
                    assert forall|i: int| 0 <= i < r.0.len() implies is_heap_of(
                        mem,
                        layout,
                        #[trigger] r.0[i],
                        top,
                        r.0[i].address == first,
                    ) by {
                        if i > 0 {
                            assert(rest.0[i - 1] == r.0[i]);
                        }
                    }
                    assert forall|i: int| 0 < i < r.0.len() implies leads_to(
                        mem,
                        layout,
                        r.0[i - 1].address,
                        (#[trigger] r.0[i]).address,
                    ) by {
                        assert(rest.0[i - 1] == r.0[i]);
                        if i > 1 {
                            assert(rest.0[i - 2] == r.0[i - 1]);
                        }
                    }
                    assert forall|i: int| 0 <= i < r.0.len() - 1 implies !leads_to(
                        mem,
                        layout,
                        (#[trigger] r.0[i]).address,
                        0,
                    ) by {
                        if i > 0 {
                            assert(rest.0[i - 1] == r.0[i]);
                        }
                    }
                    lemma_met(visited, addr, r.0, rest.0);
                    if rest.0.len() == 0 {
                        assert(r.0.last() == heap);
                    } else {
                        assert(r.0.last() == rest.0.last());
                    }
                }
            }
        }
    }
}

proof fn lemma_met(visited: Set<u64>, addr: u64, all: Seq<Heap>, rest: Seq<Heap>)
    requires
        all.len() == rest.len() + 1,
        all[0].address == addr,
        forall|i: int| 0 <= i < rest.len() ==> all[i + 1] == #[trigger] rest[i],
    ensures
        with_all(visited, addresses(all)) == with_all(visited.insert(addr), addresses(rest)),
{
    let a = addresses(all);
    let b = addresses(rest);
    assert forall|x: u64| with_all(visited, a).contains(x) <==> with_all(
        visited.insert(addr),
        b,
    ).contains(x) by {
        if a.contains(x) && x != addr {
            let k = choose|k: int| 0 <= k < a.len() && a[k] == x;
            assert(rest[k - 1] == all[k]);
            assert(b[k - 1] == x);
        }
        if b.contains(x) {
            let k = choose|k: int| 0 <= k < b.len() && b[k] == x;
            assert(all[k + 1] == rest[k]);
            assert(a[k + 1] == x);
        }
        if x == addr {
            assert(a[0] == x);
        }
    }
    assert(with_all(visited, a) =~= with_all(visited.insert(addr), b));
}

/// The heaps of a secondary arena are those that `prev` leads to from the one that
/// holds `top`, each as its `_heap_info` says, as far as they can be followed. Listing
/// them fails exactly where `top` or the first `_heap_info` cannot be read.
pub proof fn law_heaps_are_as_their_info_says<M: MemReader>(
    mem: &M,
    layout: &DetectedLayout,
    libc_addr: u64,
    arena: Arena,
)
    requires
        arena.index != 0,
        layout.word_size > 0,
        layout.heap_max_size == 0x400_0000 || layout.heap_max_size == 0x10_0000,
    ensures
        ({
            let r = heap_list::heaps(mem, layout, libc_addr, arena);
            let top = mem.word_at(
                arena.malloc_state_addr.wrapping_add(layout.malloc_state_top_offset as u64),
            );
            if top is Err {
                r is Err && r->Err_0 == top->Err_0
            } else if top->Ok_0 == 0 {
                r is Ok && r->Ok_0.0.len() == 0 && r->Ok_0.1.len() == 0
            } else {
                let top = top->Ok_0;
                let first = (top - top % layout.heap_max_size) as u64;
                let heaps = r->Ok_0.0;
                &&& r is Ok <==> has_info(mem, layout, first)
                &&& r is Ok ==> {
                    &&& heaps.len() > 0
                    &&& heaps[0].address == first
                    &&& forall|i: int|
                        0 <= i < heaps.len() ==> is_heap_of(
                            mem,
                            layout,
                            #[trigger] heaps[i],
                            top,
                            i == 0,
                        )
                    &&& forall|i: int|
                        0 < i < heaps.len() ==> (#[trigger] heaps[i]).address != 0 && leads_to(
                            mem,
                            layout,
                            heaps[i - 1].address,
                            heaps[i].address,
                        )
                    &&& end_is_told(
                        mem,
                        layout,
                        arena.index,
                        first,
                        heaps.last().address,
                        addresses(heaps).to_set(),
                        heaps.len() as int,
                        r->Ok_0.1,
                    )
                }
            }
        }),
{
    if let Ok(top) = heap_list::top_of(mem, layout, arena) {
        let first = heap_list::reservation_start(top, layout.heap_max_size);
        heap_list::law_reservation_is_aligned(top, layout.heap_max_size);
        lemma_chain_followed(mem, layout, arena.index, top, first, Set::empty(), 0);
        heap_list::law_heaps_are_distinct(
            mem,
            layout,
            arena.index,
            top,
            first,
            Set::empty(),
            0,
        );
        let heaps = heap_list::chain_from(
            mem,
            layout,
            arena.index,
            top,
            first,
            Set::empty(),
            0,
        ).0;
        assert(with_all(Set::empty(), addresses(heaps)) =~= addresses(heaps).to_set());
        assert(first == (top - top % layout.heap_max_size) as u64);
        if has_info(mem, layout, first) && top != 0 {
            let info = heap_list::heap_info_at(mem, layout, first)->Ok_0;
            assert(heap_list::secondary_end(layout, top, first, info) is Some);
            assert(heaps.len() > 0);
        }
        assert forall|i: int| 0 < i < heaps.len() implies (#[trigger] heaps[i]).address != 0
            && leads_to(mem, layout, heaps[i - 1].address, heaps[i].address) by {
            assert(!leads_to(mem, layout, heaps[i - 1].address, 0));
        }
        assert forall|i: int| 0 <= i < heaps.len() implies is_heap_of(
            mem,
            layout,
            #[trigger] heaps[i],
            top,
            i == 0,
        ) by {
            if i > 0 {
                assert(heaps[0].address != heaps[i].address);
            }
        }
    }
}

/// The extents of every heap of a secondary arena are the words of its `_heap_info`,
/// whatever the size of a reservation is.
pub proof fn law_heap_extents_are_read<M: MemReader>(
    mem: &M,
    layout: &DetectedLayout,
    libc_addr: u64,
    arena: Arena,
    i: int,
)
    requires
        arena.index != 0,
        layout.word_size > 0,
        heap_list::heaps(mem, layout, libc_addr, arena) is Ok,
        0 <= i < heap_list::heaps(mem, layout, libc_addr, arena)->Ok_0.0.len(),
    ensures
        ({
            let h = heap_list::heaps(mem, layout, libc_addr, arena)->Ok_0.0[i];
            &&& reads(mem, h.address.wrapping_add(layout.heap_info_size_offset as u64), h.size)
            &&& reads(
                mem,
                h.address.wrapping_add(layout.heap_info_mprotect_size_offset as u64),
                h.mprotect_size,
            )
        }),
{
    if let Ok(top) = heap_list::top_of(mem, layout, arena) {
        let first = heap_list::reservation_start(top, layout.heap_max_size);
        lemma_chain_followed(mem, layout, arena.index, top, first, Set::empty(), 0);
        let h = heap_list::heaps(mem, layout, libc_addr, arena)->Ok_0.0[i];
        assert(is_heap_of(mem, layout, h, top, h.address == first));
    }
}

} // verus!
