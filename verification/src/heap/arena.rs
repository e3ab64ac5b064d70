//! Enumerate arenas by following `malloc_state.next` from `main_arena`.
//!
//! Address arithmetic here is `wrapping_add`: the base is a `malloc_state`
//! pointer read from the (untrusted) core, and adding a fixed layout offset must
//! not panic on a corrupt value. Any bogus result is caught by the
//! mapping-checked read that follows.

use std::collections::HashSet;

use vstd::prelude::*;

use crate::elf::MemReader;
use crate::error::Result;
use crate::glibc::DetectedLayout;
use crate::problem;
use crate::problem::Problem;

use super::walk;

verus! {

/// Defensive ceiling; the cycle check below normally ends the walk first.
pub const MAX_ARENAS: u32 = 1024;

#[derive(Debug, Clone, Copy)]
pub struct Arena {
    pub malloc_state_addr: u64,
    pub index: u32,
}

impl Arena {
    pub fn is_main(&self) -> (main: bool)
        ensures
            main == (self.index == 0),
    {
        self.index == 0
    }
}

/// The secondary arenas on the ring behind `current`, which has index
/// `index - 1`, and the problem that broke the ring, if any. `visited` are the
/// arenas met so far.
pub open spec fn ring_from<M: MemReader>(
    mem: &M,
    next_off: u64,
    main_addr: u64,
    current: u64,
    visited: Set<u64>,
    index: u32,
) -> (Seq<u64>, Seq<problem::ProblemView>)
    decreases MAX_ARENAS - index,
{
    if index >= MAX_ARENAS {
        (Seq::empty(), walk::truncated(index, "arena list did not cycle back within limit"@))
    } else {
        match mem.word_at(current.wrapping_add(next_off)) {
            Err(_) => (Seq::empty(), walk::truncated(index, "next pointer unreadable"@)),
            Ok(next) => if next == main_addr || next == 0 {
                (Seq::empty(), Seq::empty())
            } else if visited.contains(next) {
                (
                    Seq::empty(),
                    walk::truncated(index, "arena next pointer forms a mid-chain cycle"@),
                )
            } else if mem.word_at(next.wrapping_add(next_off)) is Err {
                (Seq::empty(), walk::truncated(index, "next arena malloc_state unreadable"@))
            } else {
                let rest = ring_from(
                    mem,
                    next_off,
                    main_addr,
                    next,
                    visited.insert(next),
                    (index + 1) as u32,
                );
                (seq![next] + rest.0, rest.1)
            },
        }
    }
}

/// Address of `main_arena` in the process.
pub open spec fn main_arena_addr(layout: &DetectedLayout, libc_addr: u64) -> u64 {
    libc_addr.wrapping_add(layout.main_arena.value)
}

/// The ring behind the main arena.
pub open spec fn ring<M: MemReader>(mem: &M, layout: &DetectedLayout, libc_addr: u64) -> (
    Seq<u64>,
    Seq<problem::ProblemView>,
) {
    let main = main_arena_addr(layout, libc_addr);
    ring_from(mem, layout.malloc_state_next_offset as u64, main, main, set![main], 1)
}

/// Arenas at these addresses, numbered from `first` on.
pub open spec fn numbered(addrs: Seq<u64>, first: u32) -> Seq<Arena> {
    Seq::new(
        addrs.len(),
        |i: int| Arena { malloc_state_addr: addrs[i], index: (first + i) as u32 },
    )
}

/// The main arena with index 0, then the ring behind it.
pub open spec fn arenas<M: MemReader>(mem: &M, layout: &DetectedLayout, libc_addr: u64) -> Seq<
    Arena,
> {
    seq![Arena { malloc_state_addr: main_arena_addr(layout, libc_addr), index: 0 }] + numbered(
        ring(mem, layout, libc_addr).0,
        1,
    )
}

/// What reading `main_arena.top`, the starting point of the list, gives.
pub open spec fn probe<M: MemReader>(
    mem: &M,
    layout: &DetectedLayout,
    libc_addr: u64,
) -> std::result::Result<u64, crate::error::ErrorView> {
    mem.word_at(
        main_arena_addr(layout, libc_addr).wrapping_add(layout.malloc_state_top_offset as u64),
    )
}

/// List every arena. The main arena is index 0; secondary arenas follow the
/// `next` ring.
///
/// Fails only if the main arena's own fields can't be read: without a starting
/// point there's nothing to return. A `next` pointer that breaks partway yields
/// the arenas found so far plus a [`Problem`].
pub fn list<M: MemReader>(mem: &M, layout: &DetectedLayout, libc_addr: u64) -> (r: Result<
    (Vec<Arena>, Vec<Problem>),
>)
    ensures
        r is Ok <==> probe(mem, layout, libc_addr) is Ok,
        r matches Err(e) ==> probe(mem, layout, libc_addr) == Err::<u64, crate::error::ErrorView>(
            e@,
        ),
        r matches Ok(v) ==> {
            &&& v.0@ == arenas(mem, layout, libc_addr)
            &&& problem::views(v.1@) == ring(mem, layout, libc_addr).1
        },
{
    broadcast use vstd::std_specs::hash::group_hash_axioms;

    let next_off: u64 = layout.malloc_state_next_offset as u64;
    let top_off: u64 = layout.malloc_state_top_offset as u64;
    let main_addr: u64 = libc_addr.wrapping_add(layout.main_arena.value);
    // Starting-point probe: if we can't even read main_arena.top, bail hard.
    match mem.read_u64(main_addr.wrapping_add(top_off)) {
        Ok(_) => {},
        Err(e) => return Err(e),
    }
    let mut arenas: Vec<Arena> = Vec::new();
    arenas.push(Arena { malloc_state_addr: main_addr, index: 0 });
    let mut visited: HashSet<u64> = HashSet::new();
    visited.insert(main_addr);
    let mut current: u64 = main_addr;
    let mut index: u32 = 1;
    let ghost whole = ring(mem, layout, libc_addr);
    let ghost all = self::arenas(mem, layout, libc_addr);
    assert(visited@ =~= set![main_addr]);
    assert(all =~= arenas@ + numbered(whole.0, 1));
    loop
        invariant
            next_off == layout.malloc_state_next_offset,
            1 <= index <= MAX_ARENAS,
            probe(mem, layout, libc_addr) is Ok,
            all == self::arenas(mem, layout, libc_addr),
            whole == ring(mem, layout, libc_addr),
            ({
                let rest = ring_from(mem, next_off, main_addr, current, visited@, index);
                all == arenas@ + numbered(rest.0, index) && whole.1 == rest.1
            }),
        decreases MAX_ARENAS - index,
    {
        broadcast use vstd::std_specs::hash::group_hash_axioms;

        let ghost here = ring_from(mem, next_off, main_addr, current, visited@, index);
        assert(arenas@ + numbered(Seq::empty(), index) =~= arenas@);
        if index >= MAX_ARENAS {
            let problems = walk::truncation(index, "arena list did not cycle back within limit");
            return Ok((arenas, problems));
        }
        let next: u64 = match mem.read_u64(current.wrapping_add(next_off)) {
            Ok(n) => n,
            Err(_) => {
                let problems = walk::truncation(index, "next pointer unreadable");
                return Ok((arenas, problems));
            },
        };
        // Only a link back to main_arena (or a null terminator) is a clean end.
        if next == main_addr || next == 0 {
            return Ok((arenas, problem::none()));
        }
        // A link to an already-seen node that isn't main_arena means the ring is
        // corrupt: record it rather than silently treating it as a clean end.
        if !visited.insert(next) {
            let problems = walk::truncation(index, "arena next pointer forms a mid-chain cycle");
            return Ok((arenas, problems));
        }
        // Verify the candidate is itself readable before trusting it as an arena.
        if mem.read_u64(next.wrapping_add(next_off)).is_err() {
            let problems = walk::truncation(index, "next arena malloc_state unreadable");
            return Ok((arenas, problems));
        }
        let ghost before = arenas@;
        arenas.push(Arena { malloc_state_addr: next, index });
        current = next;
        index = index + 1;
        proof {
            let rest = ring_from(mem, next_off, main_addr, current, visited@, index);
            assert(here.0 == seq![next] + rest.0);
            assert(before + numbered(here.0, (index - 1) as u32) =~= arenas@ + numbered(
                rest.0,
                index,
            ));
        }
    }
}

proof fn lemma_ring_from_shape<M: MemReader>(
    mem: &M,
    next_off: u64,
    main_addr: u64,
    current: u64,
    visited: Set<u64>,
    index: u32,
)
    requires
        index <= MAX_ARENAS,
        visited.contains(main_addr),
    ensures
        ({
            let r = ring_from(mem, next_off, main_addr, current, visited, index);
            &&& r.0.no_duplicates()
            &&& forall|i: int|
                0 <= i < r.0.len() ==> (#[trigger] r.0[i]) != 0 && !visited.contains(r.0[i])
            &&& r.0.len() + index <= MAX_ARENAS
            &&& r.1.len() <= 1
        }),
    decreases MAX_ARENAS - index,
{
    if index < MAX_ARENAS {
        if let Ok(next) = mem.word_at(current.wrapping_add(next_off)) {
            if next != main_addr && next != 0 && !visited.contains(next) && mem.word_at(
                next.wrapping_add(next_off),
            ) is Ok {
                let more = visited.insert(next);
                lemma_ring_from_shape(mem, next_off, main_addr, next, more, (index + 1) as u32);
                let rest = ring_from(mem, next_off, main_addr, next, more, (index + 1) as u32).0;
                let all = seq![next] + rest;
                assert forall|i: int, j: int|
                    0 <= i < all.len() && 0 <= j < all.len() && i != j implies all[i] != all[j] by {
                    if i > 0 {
                        assert(rest[i - 1] == all[i]);
                    }
                    if j > 0 {
                        assert(rest[j - 1] == all[j]);
                    }
                }
                assert forall|i: int| 0 <= i < all.len() implies (#[trigger] all[i]) != 0
                    && !visited.contains(all[i]) by {
                    if i > 0 {
                        assert(rest[i - 1] == all[i]);
                    }
                }
            }
        }
    }
}

/// The main arena comes first, arenas are numbered in the order of the list, no
/// two share an address, and there are at most [`MAX_ARENAS`] of them.
pub proof fn law_arenas_are_distinct<M: MemReader>(mem: &M, layout: &DetectedLayout, libc_addr: u64)
    ensures
        ({
            let all = arenas(mem, layout, libc_addr);
            &&& 1 <= all.len() <= MAX_ARENAS
            &&& all[0].malloc_state_addr == main_arena_addr(layout, libc_addr)
            &&& forall|i: int| 0 <= i < all.len() ==> (#[trigger] all[i]).index == i
            &&& forall|i: int, j: int|
                0 <= i < j < all.len() ==> (#[trigger] all[i]).malloc_state_addr != (
                #[trigger] all[j]).malloc_state_addr
        }),
{
    let main = main_arena_addr(layout, libc_addr);
    let next_off = layout.malloc_state_next_offset as u64;
    lemma_ring_from_shape(mem, next_off, main, main, set![main], 1);
    let all = arenas(mem, layout, libc_addr);
    let tail = ring(mem, layout, libc_addr).0;
    assert forall|i: int, j: int| 0 <= i < j < all.len() implies (
    #[trigger] all[i]).malloc_state_addr != (#[trigger] all[j]).malloc_state_addr by {
        assert(all[j].malloc_state_addr == tail[j - 1]);
        if i > 0 {
            assert(all[i].malloc_state_addr == tail[i - 1]);
        }
    }
}

} // verus!
