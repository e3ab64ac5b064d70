//! What the chunks of a walk are, in terms of the words in memory.

use vstd::prelude::*;

use crate::elf::MemReader;
use crate::error;
use crate::glibc::DetectedLayout;
use crate::problem::ProblemView;
use crate::text;

use super::chunk;
use super::walk;
use super::walk::ChunkEvent;

verus! {

/// The word at an address is a certain one.
pub open spec fn holds<M: MemReader>(mem: &M, addr: int, word: u64) -> bool {
    0 <= addr <= u64::MAX && mem.word_at(addr as u64) == Ok::<u64, error::ErrorView>(word)
}

/// A chunk of which the words in memory tell all that is said of it: its size field
/// has its size above three flag bits, and the size field behind it is odd where the
/// chunk is in use.
pub open spec fn as_in_memory<M: MemReader>(
    mem: &M,
    layout: &DetectedLayout,
    e: ChunkEvent,
) -> bool {
    &&& exists|raw: u64| #[trigger]
        holds(mem, e.size_field_addr as int, raw) && e.full_size <= raw < e.full_size + 8
    &&& e.full_size % 8 == 0
    &&& exists|next: u64| #[trigger]
        holds(mem, e.size_field_addr + e.full_size, next) && (e.prev_inuse_says_in_use <==> next % 2
            == 1)
    &&& e.user_addr == e.size_field_addr + layout.word_size
    &&& e.user_size == e.full_size - layout.header_size
}

/// At `at` stands the fake top that closes a heap of a secondary arena: a chunk
/// without the flag of such arenas, and behind it one that ends a word before the
/// end of the region, where the word is one.
pub open spec fn closes_heap<M: MemReader>(
    mem: &M,
    layout: &DetectedLayout,
    end: u64,
    at: int,
) -> bool {
    exists|raw: u64, next: u64|
        {
            &&& #[trigger] holds(mem, at, raw)
            &&& #[trigger] holds(mem, at + raw - raw % 8, next)
            &&& (raw / 4) % 2 == 0
            &&& at + (raw - raw % 8) + (next - next % 8) + layout.word_size == end
            &&& holds(mem, end - layout.word_size, 1)
        }
}

/// Where a list of chunks ends.
pub open spec fn end_of(events: Seq<ChunkEvent>, start: u64) -> int {
    if events.len() == 0 {
        start as int
    } else {
        events.last().size_field_addr + events.last().full_size
    }
}

/// Why a walk that came to `at` after `count` chunks, with the word `raw` there, goes
/// no further, and what it says of that.
pub open spec fn goes_no_further<M: MemReader>(
    mem: &M,
    layout: &DetectedLayout,
    arena: u32,
    is_main_arena: bool,
    end: u64,
    at: int,
    raw: u64,
    count: nat,
    told: Seq<ProblemView>,
) -> bool {
    let size = raw - raw % 8;
    let next = at + size;
    if at == end {
        told.len() == 0
    } else if count == 10_000_000 {
        told == seq![
            ProblemView::HeapWalkTruncated { arena, reason: "chunk count cap exceeded"@ },
        ]
    } else if size < 2 * layout.word_size {
        told == seq![
            ProblemView::HeapWalkTruncated { arena, reason: "chunk size below minimum"@ },
        ]
    } else if size % layout.malloc_alignment as int != 0 {
        told == seq![ProblemView::HeapWalkTruncated { arena, reason: "chunk size not aligned"@ }]
    } else if next > u64::MAX {
        told == seq![
            ProblemView::HeapWalkTruncated { arena, reason: "address arithmetic overflow"@ },
        ]
    } else if next > end {
        told == seq![
            ProblemView::HeapWalkTruncated { arena, reason: "chunk extends past region end"@ },
        ]
    } else if mem.word_at(next as u64) is Err {
        told == seq![ProblemView::ChunkReadFailed { arena, address: text::hex(next as nat) }]
    } else {
        told.len() == 0 && !is_main_arena && closes_heap(mem, layout, end, at)
    }
}

proof fn lemma_low_bits(raw: u64)
    ensures
        raw & 1 != 0 <==> raw % 2 == 1,
        raw & 4 == 0 <==> (raw / 4) % 2 == 0,
{
    assert(raw & 1 != 0 <==> raw % 2 == 1) by (bit_vector);
    assert(raw & 4 == 0 <==> (raw / 4) % 2 == 0) by (bit_vector);
}

proof fn lemma_bridge<M: MemReader>(
    mem: &M,
    layout: &DetectedLayout,
    end: u64,
    at: u64,
    raw: u64,
    next: u64,
)
    requires
        holds(mem, at as int, raw),
        holds(mem, at + chunk::size_of(raw), next),
    ensures
        walk::is_bridge(mem, layout, end, raw, (at + chunk::size_of(raw)) as u64, next)
            <==> closes_heap(mem, layout, end, at as int),
{
    lemma_low_bits(raw);
    let sentinel = at + chunk::size_of(raw) + chunk::size_of(next);
    if walk::is_bridge(mem, layout, end, raw, (at + chunk::size_of(raw)) as u64, next) {
        assert(holds(mem, at as int, raw) && holds(mem, at + raw - raw % 8, next));
        assert(holds(mem, end - layout.word_size, 1));
    }
    if closes_heap(mem, layout, end, at as int) {
        let (r, n) = choose|r: u64, n: u64|
            {
                &&& #[trigger] holds(mem, at as int, r)
                &&& #[trigger] holds(mem, at as int + r - r % 8, n)
                &&& (r / 4) % 2 == 0
                &&& at + (r - r % 8) + (n - n % 8) + layout.word_size == end
                &&& holds(mem, end - layout.word_size, 1)
            };
        assert(r == raw && n == next);
    }
}

proof fn lemma_walked<M: MemReader>(
    mem: &M,
    layout: &DetectedLayout,
    arena: u32,
    is_main_arena: bool,
    end: u64,
    addr: u64,
    raw: u64,
    seen: nat,
)
    requires
        layout.malloc_alignment > 0,
        layout.header_size <= 2 * layout.word_size,
        addr <= end,
        seen <= 10_000_000,
        holds(mem, addr as int, raw),
    ensures
        ({
            let r = walk::walk_from(mem, layout, arena, is_main_arena, end, addr, raw, seen);
            &&& forall|i: int|
                0 <= i < r.0.len() ==> as_in_memory(mem, layout, #[trigger] r.0[i]) && (
                is_main_arena || !closes_heap(mem, layout, end, r.0[i].size_field_addr as int))
            &&& addr <= end_of(r.0, addr) <= end
            &&& exists|last: u64| #[trigger]
                holds(mem, end_of(r.0, addr), last) && goes_no_further(
                    mem,
                    layout,
                    arena,
                    is_main_arena,
                    end,
                    end_of(r.0, addr),
                    last,
                    r.0.len() + seen,
                    r.1,
                )
        }),
    decreases 10_000_000 - seen,
{
    let r = walk::walk_from(mem, layout, arena, is_main_arena, end, addr, raw, seen);
    let size = chunk::size_of(raw);
    lemma_low_bits(raw);
    if addr == end || seen == 10_000_000 {
        assert(holds(mem, end_of(r.0, addr), raw));
    } else if let walk::Step::Chunk(event, next_raw) = walk::step(
        mem,
        layout,
        arena,
        is_main_arena,
        end,
        addr,
        raw,
    ) {
        let next = (addr + size) as u64;
        assert(holds(mem, addr + size, next_raw));
        lemma_low_bits(next_raw);
        lemma_bridge(mem, layout, end, addr, raw, next_raw);
        lemma_walked(mem, layout, arena, is_main_arena, end, next, next_raw, seen + 1);
        let rest = walk::walk_from(
            mem,
            layout,
            arena,
            is_main_arena,
            end,
            next,
            next_raw,
            seen + 1,
        );
        assert(r.0 == seq![event] + rest.0);
        assert(holds(mem, event.size_field_addr as int, raw));
        assert(holds(mem, event.size_field_addr + event.full_size, next_raw));
        assert(as_in_memory(mem, layout, event));
        assert forall|i: int| 0 <= i < r.0.len() implies as_in_memory(
            mem,
            layout,
            #[trigger] r.0[i],
        ) && (is_main_arena || !closes_heap(mem, layout, end, r.0[i].size_field_addr as int)) by {
            if i > 0 {
                assert(rest.0[i - 1] == r.0[i]);
            }
        }
        assert(end_of(r.0, addr) == end_of(rest.0, next)) by {
            if rest.0.len() > 0 {
                assert(r.0.last() == rest.0.last());
            } else {
                assert(r.0.last() == event);
            }
        }
    } else {
        assert(holds(mem, end_of(r.0, addr), raw));
        let next = addr + size;
        if size >= 2 * layout.word_size && size as int % layout.malloc_alignment as int == 0
            && next <= end {
            if let Ok(next_raw) = mem.word_at(next as u64) {
                assert(holds(mem, next, next_raw));
                lemma_bridge(mem, layout, end, addr, raw, next_raw);
            }
        }
    }
}

/// What is said of a chunk is what memory holds: its size field has the size above
/// the three flags, it is in use where the size field of the chunk behind it is odd,
/// and it stands right behind the chunk before it, the first one at the start of the
/// region. That holds of every chunk of a walk, in the main arena and in others.
pub proof fn law_chunks_are_as_in_memory<M: MemReader>(
    mem: &M,
    layout: &DetectedLayout,
    arena: u32,
    region_start: u64,
    region_end: u64,
    is_main_arena: bool,
    i: int,
)
    requires
        layout.malloc_alignment > 0,
        layout.header_size <= 2 * layout.word_size,
        0 <= i < walk::region(
            mem,
            layout,
            arena,
            region_start,
            region_end,
            is_main_arena,
        ).0.len(),
    ensures
        ({
            let events = walk::region(
                mem,
                layout,
                arena,
                region_start,
                region_end,
                is_main_arena,
            ).0;
            let e = events[i];
            &&& as_in_memory(mem, layout, e)
            &&& e.size_field_addr == if i == 0 {
                region_start as int
            } else {
                events[i - 1].size_field_addr + events[i - 1].full_size
            }
            &&& e.size_field_addr + e.full_size <= region_end
            &&& e.full_size >= 2 * layout.word_size
            &&& e.full_size as int % layout.malloc_alignment as int == 0
        }),
{
    walk::law_region_chunks_tile(mem, layout, arena, region_start, region_end, is_main_arena);
    let events = walk::region(mem, layout, arena, region_start, region_end, is_main_arena).0;
    assert(walk::well_placed(events[i], layout, region_start, region_end));
    if let Ok(raw) = mem.word_at(region_start) {
        lemma_walked(mem, layout, arena, is_main_arena, region_end, region_start, raw, 0);
    }
}

proof fn lemma_told_by_words<M: MemReader>(mem: &M, layout: &DetectedLayout, e: ChunkEvent)
    requires
        as_in_memory(mem, layout, e),
    ensures
        ({
            let own = mem.word_at(e.size_field_addr);
            let next = mem.word_at((e.size_field_addr + e.full_size) as u64);
            &&& e.size_field_addr + e.full_size <= u64::MAX
            &&& own is Ok && e.full_size == own->Ok_0 - own->Ok_0 % 8
            &&& next is Ok && (e.prev_inuse_says_in_use <==> next->Ok_0 % 2 == 1)
        }),
{
}

/// A chunk is in use exactly where the word behind it is odd, and its size is the
/// word at its size field without the low three bits.
pub proof fn law_use_is_told_by_the_next_chunk<M: MemReader>(
    mem: &M,
    layout: &DetectedLayout,
    arena: u32,
    region_start: u64,
    region_end: u64,
    is_main_arena: bool,
    i: int,
)
    requires
        layout.malloc_alignment > 0,
        layout.header_size <= 2 * layout.word_size,
        0 <= i < walk::region(
            mem,
            layout,
            arena,
            region_start,
            region_end,
            is_main_arena,
        ).0.len(),
    ensures
        ({
            let e = walk::region(
                mem,
                layout,
                arena,
                region_start,
                region_end,
                is_main_arena,
            ).0[i];
            let own = mem.word_at(e.size_field_addr);
            let next = mem.word_at((e.size_field_addr + e.full_size) as u64);
            &&& e.size_field_addr + e.full_size <= u64::MAX
            &&& own is Ok && e.full_size == own->Ok_0 - own->Ok_0 % 8
            &&& next is Ok && (e.prev_inuse_says_in_use <==> next->Ok_0 % 2 == 1)
        }),
{
    law_chunks_are_as_in_memory(
        mem,
        layout,
        arena,
        region_start,
        region_end,
        is_main_arena,
        i,
    );
    lemma_told_by_words(
        mem,
        layout,
        walk::region(mem, layout, arena, region_start, region_end, is_main_arena).0[i],
    );
}

/// A walk is complete: it goes on to the end of the region, or to a chunk that cannot
/// be gone past, and says which. In a secondary arena it goes on up to the fake top
/// that closes a heap, which is never one of the chunks.
pub proof fn law_walk_goes_as_far_as_it_can<M: MemReader>(
    mem: &M,
    layout: &DetectedLayout,
    arena: u32,
    region_start: u64,
    region_end: u64,
    is_main_arena: bool,
)
    requires
        layout.malloc_alignment > 0,
        layout.header_size <= 2 * layout.word_size,
    ensures
        ({
            let r = walk::region(mem, layout, arena, region_start, region_end, is_main_arena);
            if region_start > region_end {
                r.0.len() == 0 && r.1 == seq![
                    ProblemView::HeapWalkTruncated { arena, reason: "region_start > region_end"@ },
                ]
            } else if region_start == region_end {
                r.0.len() == 0 && r.1.len() == 0
            } else if mem.word_at(region_start) is Err {
                r.0.len() == 0 && r.1 == seq![
                    ProblemView::ChunkReadFailed { arena, address: text::hex(region_start as nat) },
                ]
            } else {
                let at = end_of(r.0, region_start);
                &&& region_start <= at <= region_end
                &&& mem.word_at(at as u64) is Ok
                &&& goes_no_further(
                    mem,
                    layout,
                    arena,
                    is_main_arena,
                    region_end,
                    at,
                    mem.word_at(at as u64)->Ok_0,
                    r.0.len(),
                    r.1,
                )
                &&& is_main_arena || forall|i: int|
                    0 <= i < r.0.len() ==> !closes_heap(
                        mem,
                        layout,
                        region_end,
                        (#[trigger] r.0[i]).size_field_addr as int,
                    )
            }
        }),
{
    if region_start < region_end {
        if let Ok(raw) = mem.word_at(region_start) {
            lemma_walked(mem, layout, arena, is_main_arena, region_end, region_start, raw, 0);
        }
    }
}

} // verus!
