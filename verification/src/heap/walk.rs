//! Linear chunk traversal over one heap region.
//!
//! This is pure iteration: it emits a [`ChunkEvent`] per chunk and knows how a
//! non-main-arena heap ends (the sentinel), but keeps no running totals: that's
//! `stats`'s job. The size-field address is what advances: chunk `N`'s size
//! field sits at `p + word`, and the next chunk's size field is exactly
//! `full_size` further on, so stepping the size-field address by `full_size`
//! lands on the next one.

use vstd::prelude::*;

use crate::elf::MemReader;
use crate::glibc::DetectedLayout;
use crate::problem;
use crate::problem::Problem;
use crate::text;

use super::chunk;
use super::chunk::{chunk_size, NON_MAIN_ARENA, PREV_INUSE};

verus! {

/// Extra safety cap on chunks per region, independent of the region bound.
pub const MAX_CHUNKS: u64 = 10_000_000;

#[derive(Debug, Clone, Copy)]
pub struct ChunkEvent {
    /// Address of the chunk's `size` field (not the `prev_size`-bearing start;
    /// the two differ by one word).
    pub size_field_addr: u64,
    /// User/mem pointer = `size_field_addr + word`.
    pub user_addr: u64,
    /// Payload bytes = `full_size - header_size` (one word of header).
    pub user_size: u64,
    /// Full chunk size with its header, flags masked off.
    pub full_size: u64,
    /// In-use per the *next* chunk's `PREV_INUSE` bit. This misses chunks parked
    /// in fastbins/tcache, which keep the bit set; `stats` corrects for those.
    pub prev_inuse_says_in_use: bool,
}

/// What one step of the walk finds at a size field.
pub enum Step {
    /// The walk ends here, with these problems.
    Stop(Seq<problem::ProblemView>),
    /// A chunk, and the raw size field of the chunk behind it.
    Chunk(ChunkEvent, u64),
}

/// A walk cut short for `reason`.
pub open spec fn truncated(arena: u32, reason: Seq<char>) -> Seq<problem::ProblemView> {
    seq![problem::ProblemView::HeapWalkTruncated { arena, reason }]
}

/// A chunk address that could not be read.
pub open spec fn unreadable(arena: u32, addr: u64) -> Seq<problem::ProblemView> {
    seq![problem::ProblemView::ChunkReadFailed { arena, address: text::hex(addr as nat) }]
}

/// Whether the chunk with raw size field `raw`, in front of the one at `next`,
/// is the fake top that closes an intermediate heap of a secondary arena: it has
/// no `NON_MAIN_ARENA` flag, and the chunk behind it ends one word before the
/// end of the region, at a word that is a bare `PREV_INUSE`.
pub open spec fn is_bridge<M: MemReader>(
    mem: &M,
    layout: &DetectedLayout,
    region_end: u64,
    raw: u64,
    next: u64,
    next_raw: u64,
) -> bool {
    let sentinel = next + chunk::size_of(next_raw);
    &&& raw & NON_MAIN_ARENA == 0
    &&& sentinel + layout.word_size == region_end
    &&& mem.word_at(sentinel as u64) == Ok::<u64, crate::error::ErrorView>(PREV_INUSE)
}

/// One step of the walk, at the size field `addr` that holds `raw`.
pub open spec fn step<M: MemReader>(
    mem: &M,
    layout: &DetectedLayout,
    arena: u32,
    is_main_arena: bool,
    region_end: u64,
    addr: u64,
    raw: u64,
) -> Step {
    let full_size = chunk::size_of(raw);
    let next = addr + full_size;
    if full_size < 2 * layout.word_size {
        Step::Stop(truncated(arena, "chunk size below minimum"@))
    } else if full_size as int % layout.malloc_alignment as int != 0 {
        Step::Stop(truncated(arena, "chunk size not aligned"@))
    } else if next > u64::MAX {
        Step::Stop(truncated(arena, "address arithmetic overflow"@))
    } else if next > region_end {
        Step::Stop(truncated(arena, "chunk extends past region end"@))
    } else {
        match mem.word_at(next as u64) {
            Err(_) => Step::Stop(unreadable(arena, next as u64)),
            Ok(next_raw) => if !is_main_arena && is_bridge(
                mem,
                layout,
                region_end,
                raw,
                next as u64,
                next_raw,
            ) {
                Step::Stop(Seq::empty())
            } else {
                Step::Chunk(
                    ChunkEvent {
                        size_field_addr: addr,
                        user_addr: (addr + layout.word_size) as u64,
                        user_size: (full_size - layout.header_size) as u64,
                        full_size,
                        prev_inuse_says_in_use: next_raw & PREV_INUSE != 0,
                    },
                    next_raw,
                )
            },
        }
    }
}

/// The walk from the size field `addr` on, which holds `raw`, after `seen`
/// chunks.
pub open spec fn walk_from<M: MemReader>(
    mem: &M,
    layout: &DetectedLayout,
    arena: u32,
    is_main_arena: bool,
    region_end: u64,
    addr: u64,
    raw: u64,
    seen: nat,
) -> (Seq<ChunkEvent>, Seq<problem::ProblemView>)
    decreases MAX_CHUNKS - seen,
{
    if addr == region_end {
        (Seq::empty(), Seq::empty())
    } else if seen >= MAX_CHUNKS {
        (Seq::empty(), truncated(arena, "chunk count cap exceeded"@))
    } else {
        match step(mem, layout, arena, is_main_arena, region_end, addr, raw) {
            Step::Stop(problems) => (Seq::empty(), problems),
            Step::Chunk(event, next_raw) => {
                let rest = walk_from(
                    mem,
                    layout,
                    arena,
                    is_main_arena,
                    region_end,
                    (addr + event.full_size) as u64,
                    next_raw,
                    seen + 1,
                );
                (seq![event] + rest.0, rest.1)
            },
        }
    }
}

/// The chunks of `[region_start, region_end)`, and the problem that ended the
/// walk early, if any.
pub open spec fn region<M: MemReader>(
    mem: &M,
    layout: &DetectedLayout,
    arena: u32,
    region_start: u64,
    region_end: u64,
    is_main_arena: bool,
) -> (Seq<ChunkEvent>, Seq<problem::ProblemView>) {
    if region_start > region_end {
        (Seq::empty(), truncated(arena, "region_start > region_end"@))
    } else if region_start == region_end {
        (Seq::empty(), Seq::empty())
    } else {
        match mem.word_at(region_start) {
            Err(_) => (Seq::empty(), unreadable(arena, region_start)),
            Ok(raw) => walk_from(
                mem,
                layout,
                arena,
                is_main_arena,
                region_end,
                region_start,
                raw,
                0,
            ),
        }
    }
}

/// The list with the one problem of a walk cut short.
pub fn truncation(arena: u32, reason: &str) -> (problems: Vec<Problem>)
    ensures
        problem::views(problems@) == truncated(arena, reason@),
{
    problem::one(Problem::HeapWalkTruncated { arena, reason: reason.to_owned() })
}

fn read_failure(arena: u32, addr: u64) -> (problems: Vec<Problem>)
    ensures
        problem::views(problems@) == unreadable(arena, addr),
{
    problem::one(Problem::ChunkReadFailed { arena, address: text::hex_string(addr) })
}

fn at_bridge<M: MemReader>(
    mem: &M,
    layout: &DetectedLayout,
    region_end: u64,
    raw: u64,
    next: u64,
    next_raw: u64,
) -> (bridge: bool)
    ensures
        bridge == is_bridge(mem, layout, region_end, raw, next, next_raw),
{
    if raw & NON_MAIN_ARENA != 0 {
        return false;
    }
    let sentinel: u64 = match next.checked_add(chunk_size(next_raw)) {
        Some(v) => v,
        None => return false,
    };
    match sentinel.checked_add(layout.word_size as u64) {
        Some(end) => if end != region_end {
            return false;
        },
        None => return false,
    }
    match mem.read_u64(sentinel) {
        Ok(v) => v == PREV_INUSE,
        Err(_) => false,
    }
}

/// Walk `[region_start, region_end)` where `region_start` is the first chunk's
/// size-field address and `region_end` is one word past the last usable chunk
/// (`top + word` for the last heap of an arena).
///
/// Returns partial results with a `Problem` on any corruption rather than
/// aborting: a damaged chunk shouldn't cost us the chunks before it. The
/// sentinel check applies only to non-main arenas: a chunk there that has lost
/// its `NON_MAIN_ARENA` flag is the fake top bridging to the next heap. The last
/// heap's real chunks keep the flag, so the check never fires on them.
pub fn walk_region<M: MemReader>(
    mem: &M,
    layout: &DetectedLayout,
    arena_index: u32,
    region_start: u64,
    region_end: u64,
    is_main_arena: bool,
) -> (r: (Vec<ChunkEvent>, Vec<Problem>))
    requires
        layout.malloc_alignment > 0,
        layout.header_size <= 2 * layout.word_size,
    ensures
        r.0@ == region(mem, layout, arena_index, region_start, region_end, is_main_arena).0,
        problem::views(r.1@) == region(
            mem,
            layout,
            arena_index,
            region_start,
            region_end,
            is_main_arena,
        ).1,
{
    let word: u64 = layout.word_size as u64;
    let header: u64 = layout.header_size as u64;
    let alignment: u64 = layout.malloc_alignment as u64;
    let mut events: Vec<ChunkEvent> = Vec::new();
    if region_start > region_end {
        return (events, truncation(arena_index, "region_start > region_end"));
    }
    if region_start == region_end {
        return (events, problem::none());
    }
    // `next_header_address` is the size-field address of the chunk we're about
    // to emit; `next_header` is its (already read) raw size field.
    let mut next_header_address: u64 = region_start;
    let mut next_header: u64 = match mem.read_u64(next_header_address) {
        Ok(v) => v,
        Err(_) => return (events, read_failure(arena_index, next_header_address)),
    };
    let ghost whole = region(mem, layout, arena_index, region_start, region_end, is_main_arena);
    let mut seen: u64 = 0;
    while next_header_address != region_end
        invariant
            seen <= MAX_CHUNKS,
            word == layout.word_size,
            header == layout.header_size,
            alignment == layout.malloc_alignment,
            alignment > 0,
            header <= 2 * word,
            whole == region(mem, layout, arena_index, region_start, region_end, is_main_arena),
            ({
                let rest = walk_from(
                    mem,
                    layout,
                    arena_index,
                    is_main_arena,
                    region_end,
                    next_header_address,
                    next_header,
                    seen as nat,
                );
                whole.0 == events@ + rest.0 && whole.1 == rest.1
            }),
        decreases MAX_CHUNKS - seen,
    {
        if seen >= MAX_CHUNKS {
            return (events, truncation(arena_index, "chunk count cap exceeded"));
        }
        seen = seen + 1;
        let size_field_addr: u64 = next_header_address;
        let current_header: u64 = next_header;
        let full_size: u64 = chunk_size(current_header);
        // Corruption checks: below the minimum chunk, or not a multiple of
        // MALLOC_ALIGNMENT (glibc always rounds up to it).
        if full_size < 2 * word {
            return (events, truncation(arena_index, "chunk size below minimum"));
        }
        if full_size % alignment != 0 {
            return (events, truncation(arena_index, "chunk size not aligned"));
        }
        // Advance to the next size field. `full_size` is core-read, so the add
        // is checked; landing past the region means the size drove us out of
        // bounds (which a failed read can't catch: it might land in another
        // live mapping).
        let next_cursor: u64 = match size_field_addr.checked_add(full_size) {
            Some(v) => v,
            None => return (events, truncation(arena_index, "address arithmetic overflow")),
        };
        if next_cursor > region_end {
            return (events, truncation(arena_index, "chunk extends past region end"));
        }
        next_header_address = next_cursor;
        next_header = match mem.read_u64(next_header_address) {
            Ok(v) => v,
            Err(_) => return (events, read_failure(arena_index, next_header_address)),
        };
        if !is_main_arena && at_bridge(
            mem,
            layout,
            region_end,
            current_header,
            next_cursor,
            next_header,
        ) {
            return (events, problem::none());
        }
        let event = ChunkEvent {
            size_field_addr,
            user_addr: size_field_addr + word,
            user_size: full_size - header,
            full_size,
            prev_inuse_says_in_use: next_header & PREV_INUSE != 0,
        };
        let ghost before = events@;
        events.push(event);
        proof {
            let rest = walk_from(
                mem,
                layout,
                arena_index,
                is_main_arena,
                region_end,
                next_header_address,
                next_header,
                seen as nat,
            );
            assert(before + (seq![event] + rest.0) =~= events@ + rest.0);
        }
    }
    (events, problem::none())
}

/// Chunks lie one behind the other, from `addr` on.
pub open spec fn contiguous(events: Seq<ChunkEvent>, addr: u64) -> bool {
    &&& events.len() > 0 ==> events[0].size_field_addr == addr
    &&& forall|i: int|
        0 < i < events.len() ==> (#[trigger] events[i]).size_field_addr == events[i
            - 1].size_field_addr + events[i - 1].full_size
}

/// The chunks from `addr` on end at `end`.
pub open spec fn reaches(events: Seq<ChunkEvent>, addr: u64, end: u64) -> bool {
    if events.len() == 0 {
        addr == end
    } else {
        events.last().size_field_addr + events.last().full_size == end
    }
}

/// What every emitted chunk satisfies.
pub open spec fn well_placed(event: ChunkEvent, layout: &DetectedLayout, start: u64, end: u64) -> bool {
    &&& start <= event.size_field_addr
    &&& event.size_field_addr + event.full_size <= end
    &&& event.full_size >= 2 * layout.word_size
    &&& event.full_size as int % layout.malloc_alignment as int == 0
    &&& event.user_addr == event.size_field_addr + layout.word_size
    &&& event.user_size == event.full_size - layout.header_size
}

proof fn lemma_walk_from_shape<M: MemReader>(
    mem: &M,
    layout: &DetectedLayout,
    arena: u32,
    is_main_arena: bool,
    region_end: u64,
    addr: u64,
    raw: u64,
    seen: nat,
)
    requires
        layout.malloc_alignment > 0,
        layout.header_size <= 2 * layout.word_size,
        addr <= region_end,
        seen <= MAX_CHUNKS,
    ensures
        ({
            let r = walk_from(mem, layout, arena, is_main_arena, region_end, addr, raw, seen);
            &&& contiguous(r.0, addr)
            &&& forall|i: int|
                0 <= i < r.0.len() ==> well_placed(#[trigger] r.0[i], layout, addr, region_end)
            &&& r.0.len() + seen <= MAX_CHUNKS
            &&& r.1.len() <= 1
            &&& is_main_arena && r.1.len() == 0 ==> reaches(r.0, addr, region_end)
        }),
    decreases MAX_CHUNKS - seen,
{
    if addr != region_end && seen < MAX_CHUNKS {
        match step(mem, layout, arena, is_main_arena, region_end, addr, raw) {
            Step::Stop(problems) => {},
            Step::Chunk(event, next_raw) => {
                let next = (addr + event.full_size) as u64;
                lemma_walk_from_shape(
                    mem,
                    layout,
                    arena,
                    is_main_arena,
                    region_end,
                    next,
                    next_raw,
                    seen + 1,
                );
                let rest = walk_from(
                    mem,
                    layout,
                    arena,
                    is_main_arena,
                    region_end,
                    next,
                    next_raw,
                    seen + 1,
                ).0;
                let all = seq![event] + rest;
                assert forall|i: int| 0 < i < all.len() implies (#[trigger] all[i]).size_field_addr
                    == all[i - 1].size_field_addr + all[i - 1].full_size by {
                    if i > 1 {
                        assert(rest[i - 1] == all[i]);
                        assert(rest[i - 2] == all[i - 1]);
                    } else {
                        assert(rest[0] == all[1]);
                    }
                }
                assert forall|i: int| 0 <= i < all.len() implies well_placed(
                    #[trigger] all[i],
                    layout,
                    addr,
                    region_end,
                ) by {
                    if i > 0 {
                        assert(rest[i - 1] == all[i]);
                    }
                }
            },
        }
    }
}

/// The chunks of a region lie back to back from its start, inside it, each a
/// multiple of the malloc alignment and no smaller than two words; their number
/// is capped, and at most one problem ends the walk. In the main arena a walk
/// without a problem reaches the end of the region.
pub proof fn law_region_chunks_tile<M: MemReader>(
    mem: &M,
    layout: &DetectedLayout,
    arena: u32,
    region_start: u64,
    region_end: u64,
    is_main_arena: bool,
)
    requires
        layout.malloc_alignment > 0,
        layout.header_size <= 2 * layout.word_size,
    ensures
        ({
            let r = region(mem, layout, arena, region_start, region_end, is_main_arena);
            &&& contiguous(r.0, region_start)
            &&& forall|i: int|
                0 <= i < r.0.len() ==> well_placed(
                    #[trigger] r.0[i],
                    layout,
                    region_start,
                    region_end,
                )
            &&& r.0.len() <= MAX_CHUNKS
            &&& r.1.len() <= 1
            &&& is_main_arena && r.1.len() == 0 ==> reaches(r.0, region_start, region_end)
        }),
{
    if region_start < region_end {
        if let Ok(raw) = mem.word_at(region_start) {
            lemma_walk_from_shape(
                mem,
                layout,
                arena,
                is_main_arena,
                region_end,
                region_start,
                raw,
                0,
            );
        }
    }
}

/// The chunks that end before `a` stand at the same places among `others`.
pub open spec fn kept_before(events: Seq<ChunkEvent>, others: Seq<ChunkEvent>, a: u64) -> bool {
    forall|i: int|
        0 <= i < events.len() && (#[trigger] events[i]).size_field_addr + events[i].full_size < a
            ==> i < others.len() && others[i] == events[i]
}

/// Two memories hold the same words below `a` and, in a secondary arena, at the word
/// that may close a region that ends at `region_end`.
pub open spec fn agree_below<M: MemReader, N: MemReader>(
    mem: &M,
    other: &N,
    layout: &DetectedLayout,
    region_end: u64,
    is_main_arena: bool,
    a: u64,
) -> bool {
    &&& forall|x: u64| x < a ==> #[trigger] mem.word_at(x) == other.word_at(x)
    &&& !is_main_arena && layout.word_size <= region_end ==> mem.word_at(
        (region_end - layout.word_size) as u64,
    ) == other.word_at((region_end - layout.word_size) as u64)
}

proof fn lemma_kept_from<M: MemReader, N: MemReader>(
    mem: &M,
    other: &N,
    layout: &DetectedLayout,
    arena: u32,
    is_main_arena: bool,
    region_end: u64,
    addr: u64,
    raw: u64,
    seen: nat,
    a: u64,
)
    requires
        layout.malloc_alignment > 0,
        layout.header_size <= 2 * layout.word_size,
        agree_below(mem, other, layout, region_end, is_main_arena, a),
        addr <= region_end,
        seen <= MAX_CHUNKS,
    ensures
        kept_before(
            walk_from(mem, layout, arena, is_main_arena, region_end, addr, raw, seen).0,
            walk_from(other, layout, arena, is_main_arena, region_end, addr, raw, seen).0,
            a,
        ),
    decreases MAX_CHUNKS - seen,
{
    let next = addr + chunk::size_of(raw);
    if addr != region_end && seen < MAX_CHUNKS {
        if next >= a {
            lemma_walk_from_shape(
                mem,
                layout,
                arena,
                is_main_arena,
                region_end,
                addr,
                raw,
                seen,
            );
            let events = walk_from(
                mem,
                layout,
                arena,
                is_main_arena,
                region_end,
                addr,
                raw,
                seen,
            ).0;
            if let Step::Chunk(event, next_raw) = step(
                mem,
                layout,
                arena,
                is_main_arena,
                region_end,
                addr,
                raw,
            ) {
                let at = (addr + event.full_size) as u64;
                lemma_walk_from_shape(
                    mem,
                    layout,
                    arena,
                    is_main_arena,
                    region_end,
                    at,
                    next_raw,
                    seen + 1,
                );
                let rest = walk_from(
                    mem,
                    layout,
                    arena,
                    is_main_arena,
                    region_end,
                    at,
                    next_raw,
                    seen + 1,
                ).0;
                assert forall|i: int| 0 <= i < events.len() implies (
                #[trigger] events[i]).size_field_addr + events[i].full_size >= a by {
                    if i > 0 {
                        assert(rest[i - 1] == events[i]);
                    }
                }
            }
        } else if let Step::Chunk(event, next_raw) = step(
            mem,
            layout,
            arena,
            is_main_arena,
            region_end,
            addr,
            raw,
        ) {
            assert(mem.word_at(next as u64) == other.word_at(next as u64));
            let at = (addr + event.full_size) as u64;
            lemma_kept_from(
                mem,
                other,
                layout,
                arena,
                is_main_arena,
                region_end,
                at,
                next_raw,
                seen + 1,
                a,
            );
            let rest = walk_from(
                mem,
                layout,
                arena,
                is_main_arena,
                region_end,
                at,
                next_raw,
                seen + 1,
            ).0;
            let other_rest = walk_from(
                other,
                layout,
                arena,
                is_main_arena,
                region_end,
                at,
                next_raw,
                seen + 1,
            ).0;
            let events = seq![event] + rest;
            let others = seq![event] + other_rest;
            assert(kept_before(events, others, a)) by {
                assert forall|i: int|
                    0 <= i < events.len() && (#[trigger] events[i]).size_field_addr
                        + events[i].full_size < a implies i < others.len() && others[i]
                    == events[i] by {
                    if i > 0 {
                        assert(rest[i - 1] == events[i]);
                    }
                }
            }
        }
    }
}

/// A damaged chunk does not cost the chunks before it: where two memories hold the
/// same words below `a`, walking a region in either gives the same chunks as far as
/// they end before `a`, whatever stands behind. In a secondary arena the word that
/// may close the region is to be the same too.
pub proof fn law_damage_costs_no_chunk_before<M: MemReader, N: MemReader>(
    mem: &M,
    other: &N,
    layout: &DetectedLayout,
    arena: u32,
    region_start: u64,
    region_end: u64,
    is_main_arena: bool,
    a: u64,
)
    requires
        layout.malloc_alignment > 0,
        layout.header_size <= 2 * layout.word_size,
        agree_below(mem, other, layout, region_end, is_main_arena, a),
    ensures
        ({
            let r = region(mem, layout, arena, region_start, region_end, is_main_arena).0;
            let s = region(other, layout, arena, region_start, region_end, is_main_arena).0;
            kept_before(r, s, a) && kept_before(s, r, a)
        }),
{
    law_region_chunks_tile(mem, layout, arena, region_start, region_end, is_main_arena);
    law_region_chunks_tile(other, layout, arena, region_start, region_end, is_main_arena);
    if region_start < region_end && region_start < a {
        assert(mem.word_at(region_start) == other.word_at(region_start));
        if let Ok(raw) = mem.word_at(region_start) {
            lemma_kept_from(
                mem,
                other,
                layout,
                arena,
                is_main_arena,
                region_end,
                region_start,
                raw,
                0,
                a,
            );
            lemma_kept_from(
                other,
                mem,
                layout,
                arena,
                is_main_arena,
                region_end,
                region_start,
                raw,
                0,
                a,
            );
        }
    }
}

} // verus!
