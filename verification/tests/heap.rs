//! Arenas, heaps, chunks and free lists in synthetic memory.

use std::collections::{BTreeMap, HashMap};

use heap_analyser::elf::MemReader;
use heap_analyser::error::{Error, ErrorView, Result};
use heap_analyser::glibc::{test_layout, DetectedLayout};
use heap_analyser::heap::arena;
use heap_analyser::heap::arena::Arena;
use heap_analyser::heap::chunk::{chunk_size, IS_MMAPPED, NON_MAIN_ARENA, PREV_INUSE};
use heap_analyser::heap::fastbin::{
    fastbin_index_to_size, reveal_link, walk_fastbin, FastbinBinResult, MAX_CHAIN,
};
use heap_analyser::heap::heap_list;
use heap_analyser::heap::stats::{accumulate, SizeTally};
use heap_analyser::heap::tcache::{
    read_thread_arena, tcache_index_to_size, tcache_ptr, walk_tcache_bin,
};
use heap_analyser::heap::walk::{walk_region, ChunkEvent};
use heap_analyser::problem::Problem;

const LIBC: u64 = 0x1000;

struct FakeMem {
    words: HashMap<u64, u64>,
    segments: Vec<(u64, u64)>,
}

impl FakeMem {
    fn new() -> Self {
        FakeMem {
            words: HashMap::new(),
            segments: Vec::new(),
        }
    }

    /// Place a word at `addr`. Returns `&mut self` for chaining.
    fn set(&mut self, addr: u64, val: u64) -> &mut Self {
        self.words.insert(addr, val);
        self
    }

    /// Register a `[start, end)` mapped segment for `segment_start`.
    fn add_segment(&mut self, start: u64, end: u64) -> &mut Self {
        self.segments.push((start, end));
        self
    }
}

impl MemReader for FakeMem {
    fn read_u64(&self, addr: u64) -> Result<u64> {
        self.words
            .get(&addr)
            .copied()
            .ok_or(Error::AddressNotMapped { addr })
    }

    fn segment_start(&self, addr: u64) -> Option<u64> {
        self.segments
            .iter()
            .find(|(s, e)| addr >= *s && addr < *e)
            .map(|(s, _)| *s)
    }

    // Ghost: only contracts speak of these.
    fn word_at(&self, _addr: u64) -> std::result::Result<u64, ErrorView> {
        unreachable!()
    }

    fn segment_at(&self, _addr: u64) -> Option<u64> {
        unreachable!()
    }
}

fn with_top(mem: &mut FakeMem, layout: &DetectedLayout, arena: u64) {
    mem.set(arena + u64::from(layout.malloc_state_top_offset), 0xdead);
}

// Arenas.

#[test]
fn single_main_arena_ring() {
    let layout = test_layout(8);
    let next_off = u64::from(layout.malloc_state_next_offset);
    let mut mem = FakeMem::new();
    with_top(&mut mem, &layout, LIBC);
    mem.set(LIBC + next_off, LIBC); // main.next -> main (single arena)

    let (arenas, problems) = arena::list(&mem, &layout, LIBC).unwrap();
    assert!(problems.is_empty());
    assert_eq!(arenas.len(), 1);
    assert!(arenas[0].is_main());
}

#[test]
fn two_arenas() {
    let layout = test_layout(8);
    let next_off = u64::from(layout.malloc_state_next_offset);
    let arena2 = 0x50000;
    let mut mem = FakeMem::new();
    with_top(&mut mem, &layout, LIBC);
    mem.set(LIBC + next_off, arena2);
    mem.set(arena2 + next_off, LIBC); // ring back

    let (arenas, problems) = arena::list(&mem, &layout, LIBC).unwrap();
    assert!(problems.is_empty());
    assert_eq!(arenas.len(), 2);
    assert_eq!(arenas[1].malloc_state_addr, arena2);
    assert!(!arenas[1].is_main());
}

#[test]
fn mid_chain_cycle_is_flagged() {
    let layout = test_layout(8);
    let next_off = u64::from(layout.malloc_state_next_offset);
    let arena2 = 0x50000;
    let mut mem = FakeMem::new();
    with_top(&mut mem, &layout, LIBC);
    mem.set(LIBC + next_off, arena2);
    mem.set(arena2 + next_off, arena2); // points to itself, never back to main

    let (arenas, problems) = arena::list(&mem, &layout, LIBC).unwrap();
    assert_eq!(arenas.len(), 2);
    assert!(matches!(
        problems.as_slice(),
        [Problem::HeapWalkTruncated { reason, .. }] if reason.contains("cycle")
    ));
}

#[test]
fn unreadable_main_arena_is_hard_error() {
    let layout = test_layout(8);
    let mem = FakeMem::new(); // nothing mapped
    assert!(arena::list(&mem, &layout, LIBC).is_err());
}

#[test]
fn unreadable_next_pointer_keeps_the_arenas_found() {
    let layout = test_layout(8);
    let next_off = u64::from(layout.malloc_state_next_offset);
    let mut mem = FakeMem::new();
    with_top(&mut mem, &layout, LIBC);

    let (arenas, problems) = arena::list(&mem, &layout, LIBC).unwrap();
    assert_eq!(arenas.len(), 1);
    assert!(matches!(
        problems.as_slice(),
        [Problem::HeapWalkTruncated { arena: 1, reason }] if reason == "next pointer unreadable"
    ));

    mem.set(LIBC + next_off, 0x50000);
    let (arenas, problems) = arena::list(&mem, &layout, LIBC).unwrap();
    assert_eq!(arenas.len(), 1);
    assert!(matches!(
        problems.as_slice(),
        [Problem::HeapWalkTruncated { arena: 1, reason }]
            if reason == "next arena malloc_state unreadable"
    ));
}

#[test]
fn endless_arena_list_stops_at_the_limit() {
    let layout = test_layout(8);
    let next_off = u64::from(layout.malloc_state_next_offset);
    let mut mem = FakeMem::new();
    with_top(&mut mem, &layout, LIBC);
    mem.set(LIBC + next_off, 0x10_0000);
    for i in 0..2000u64 {
        mem.set(0x10_0000 + i * 0x1000 + next_off, 0x10_0000 + (i + 1) * 0x1000);
    }
    let (arenas, problems) = arena::list(&mem, &layout, LIBC).unwrap();
    assert_eq!(arenas.len(), 1024);
    assert_eq!(arenas[1023].index, 1023);
    assert!(matches!(
        problems.as_slice(),
        [Problem::HeapWalkTruncated { arena: 1024, reason }] if reason.contains("within limit")
    ));
}

// Chunk sizes.

#[test]
fn masks_flag_bits() {
    assert_eq!(chunk_size(0x21), 0x20);
    assert_eq!(chunk_size(0x20 | PREV_INUSE | NON_MAIN_ARENA), 0x20);
    assert_eq!(chunk_size(0), 0);
}

#[test]
fn every_flag_combination_leaves_the_size() {
    for flags in 0..8u64 {
        assert_eq!(chunk_size(0x1230 | flags), 0x1230);
    }
    assert_eq!(PREV_INUSE | IS_MMAPPED | NON_MAIN_ARENA, 7);
}

// Fastbins.

#[test]
fn sizes_match_glibc_formula() {
    let layout = test_layout(8); // minsize 32, header 8, align 16
    assert_eq!(fastbin_index_to_size(&layout, 0), 24);
    assert_eq!(fastbin_index_to_size(&layout, 1), 40);
    assert_eq!(fastbin_index_to_size(&layout, 5), 104);
}

#[test]
fn counts_a_three_chunk_bin_without_safe_linking() {
    let mut layout = test_layout(8);
    layout.capabilities.has_safe_linking = false;
    let (c0, c1, c2) = (0x1000, 0x1100, 0x1200);
    let fd = 16u64;
    let mut mem = FakeMem::new();
    mem.set(c0 + fd, c1);
    mem.set(c1 + fd, c2);
    mem.set(c2 + fd, 0);

    let (result, problems) = walk_fastbin(&mem, &layout, c0, 0, 0);
    assert!(problems.is_empty());
    assert_eq!(result.count, 3);
}

#[test]
fn reveals_safe_linked_chain() {
    let mut layout = test_layout(8);
    layout.capabilities.has_safe_linking = true;
    let (c0, c1) = (0x55000u64, 0x66000u64);
    let fd = 16u64;
    let mut mem = FakeMem::new();
    // stored = real ^ (fd_slot >> 12); the tail real pointer is 0.
    mem.set(c0 + fd, c1 ^ ((c0 + fd) >> 12));
    mem.set(c1 + fd, (c1 + fd) >> 12);

    let (result, problems) = walk_fastbin(&mem, &layout, c0, 0, 0);
    assert!(problems.is_empty());
    assert_eq!(result.count, 2);
}

#[test]
fn cycle_is_reported() {
    let mut layout = test_layout(8);
    layout.capabilities.has_safe_linking = false;
    let (c0, c1) = (0x1000, 0x1100);
    let fd = 16u64;
    let mut mem = FakeMem::new();
    mem.set(c0 + fd, c1);
    mem.set(c1 + fd, c0); // loop

    let (_result, problems) = walk_fastbin(&mem, &layout, c0, 3, 2);
    assert!(matches!(
        problems.as_slice(),
        [Problem::FastbinCycleDetected {
            arena: 3,
            bin_index: 2
        }]
    ));
}

#[test]
fn empty_bin_reads_nothing() {
    let layout = test_layout(8);
    let mem = FakeMem::new();
    let (result, problems) = walk_fastbin(&mem, &layout, 0, 0, 0);
    assert_eq!(result.count, 0);
    assert!(problems.is_empty());
}

#[test]
fn overlong_fastbin_stops_at_the_cap() {
    let layout = test_layout(8);
    let mut mem = FakeMem::new();
    for i in 1..=20_000u64 {
        mem.set(i * 0x20 + 16, (i + 1) * 0x20);
    }
    let (result, problems) = walk_fastbin(&mem, &layout, 0x20, 0, 1);
    assert_eq!(result.count, MAX_CHAIN as u64);
    assert!(matches!(
        problems.as_slice(),
        [Problem::FastbinCycleDetected { .. }]
    ));
}

#[test]
fn unreadable_fastbin_node_names_the_link_address() {
    let layout = test_layout(8);
    let mem = FakeMem::new();
    let (result, problems) = walk_fastbin(&mem, &layout, 0x2000, 1, 4);
    assert_eq!(result.count, 1);
    assert_eq!(result.size, 88);
    assert!(matches!(
        problems.as_slice(),
        [Problem::FastbinChunkReadFailed { arena: 1, bin_index: 4, address }]
            if address == "0x2010"
    ));
}

#[test]
fn revealing_twice_gives_the_stored_value_back() {
    let mut layout = test_layout(8);
    layout.capabilities.has_safe_linking = true;
    let (location, pointer) = (0x5555_5575_9010u64, 0x5555_5575_a2a0u64);
    let stored = reveal_link(&layout, location, pointer);
    assert_eq!(stored, pointer ^ 0x5_5555_5759);
    assert_eq!(reveal_link(&layout, location, stored), pointer);
    layout.capabilities.has_safe_linking = false;
    assert_eq!(reveal_link(&layout, location, pointer), pointer);
}

// Heaps.

#[test]
fn main_arena_single_region() {
    let layout = test_layout(8);
    let arena = Arena {
        malloc_state_addr: LIBC,
        index: 0,
    };
    let sbrk_base = 0x40000;
    let top = 0x40800;
    let mut mem = FakeMem::new();
    mem.add_segment(0x40000, 0x41000);
    mem.set(LIBC + u64::from(layout.mp_sbrk_base_offset), sbrk_base);
    mem.set(LIBC + u64::from(layout.malloc_state_top_offset), top);
    // first word at sbrk_base is a real size field (no zero padding here)
    mem.set(sbrk_base, 0x20 | 1);

    let (heaps, problems) = heap_list::list(&mem, &layout, LIBC, &arena).unwrap();
    assert!(problems.is_empty());
    assert_eq!(heaps.len(), 1);
    assert_eq!(heaps[0].address, sbrk_base);
    assert_eq!(heaps[0].region_start, sbrk_base);
    assert_eq!(heaps[0].region_end, top + 8);
    assert_eq!(heaps[0].size, top - sbrk_base);
}

#[test]
fn main_arena_empty_when_top_zero() {
    let layout = test_layout(8);
    let arena = Arena {
        malloc_state_addr: LIBC,
        index: 0,
    };
    let mut mem = FakeMem::new();
    mem.set(LIBC + u64::from(layout.mp_sbrk_base_offset), 0x40000);
    mem.set(LIBC + u64::from(layout.malloc_state_top_offset), 0);
    let (heaps, _) = heap_list::list(&mem, &layout, LIBC, &arena).unwrap();
    assert!(heaps.is_empty());
}

#[test]
fn secondary_single_heap_skips_embedded_malloc_state() {
    let mut layout = test_layout(8);
    layout.main_arena.size = 0x8b0; // sizeof(malloc_state) on 64-bit-ish
    let hms = layout.heap_max_size;
    let heap_addr = 0x7f0000000000 & !(hms - 1);
    let top = heap_addr + 0x2000;
    let arena = Arena {
        malloc_state_addr: 0x9000,
        index: 1,
    };
    let mut mem = FakeMem::new();
    mem.set(0x9000 + u64::from(layout.malloc_state_top_offset), top);
    // _heap_info at heap_addr: size, mprotect_size, prev(=0 => first heap)
    mem.set(heap_addr + u64::from(layout.heap_info_size_offset), 0x2000);
    mem.set(
        heap_addr + u64::from(layout.heap_info_mprotect_size_offset),
        0x2000,
    );
    mem.set(heap_addr + u64::from(layout.heap_info_prev_offset), 0);
    // first chunk size field right after _heap_info + embedded malloc_state
    let first_chunk = heap_addr + u64::from(layout.heap_info_size) + 0x8b0;
    mem.set(first_chunk, 0x30 | 4 | 1);

    let (heaps, problems) = heap_list::list(&mem, &layout, LIBC, &arena).unwrap();
    assert!(problems.is_empty());
    assert_eq!(heaps.len(), 1);
    assert_eq!(heaps[0].address, heap_addr);
    assert_eq!(
        heaps[0].region_start, first_chunk,
        "region_start must skip _heap_info + embedded malloc_state"
    );
    assert_eq!(heaps[0].region_end, top + 8);
}

#[test]
fn secondary_prev_chain_cycle_is_bounded_and_flagged() {
    let layout = test_layout(8);
    let hms = layout.heap_max_size;
    let a = 0x40000000 & !(hms - 1);
    let b = a + hms; // distinct, also heap_max_size aligned
    let arena = Arena {
        malloc_state_addr: 0x9000,
        index: 2,
    };
    let mut mem = FakeMem::new();
    mem.set(
        0x9000 + u64::from(layout.malloc_state_top_offset),
        a + 0x1000,
    );
    // A.prev = B, B.prev = A -> a cycle that must not spin or duplicate.
    for h in [a, b] {
        mem.set(h + u64::from(layout.heap_info_size_offset), 0x2000);
        mem.set(h + u64::from(layout.heap_info_mprotect_size_offset), 0x2000);
    }
    mem.set(a + u64::from(layout.heap_info_prev_offset), b);
    mem.set(b + u64::from(layout.heap_info_prev_offset), a);

    let (heaps, problems) = heap_list::list(&mem, &layout, LIBC, &arena).unwrap();
    assert_eq!(heaps.len(), 2, "each distinct heap visited once");
    assert!(matches!(
        problems.as_slice(),
        [Problem::HeapWalkTruncated { reason, .. }] if reason.contains("cycle")
    ));
}

#[test]
fn zero_padding_before_the_first_chunk_is_skipped() {
    let layout = test_layout(8);
    let arena = Arena {
        malloc_state_addr: LIBC,
        index: 0,
    };
    let mut mem = FakeMem::new();
    mem.add_segment(0x40000, 0x41000);
    mem.set(LIBC + u64::from(layout.mp_sbrk_base_offset), 0x40000);
    mem.set(LIBC + u64::from(layout.malloc_state_top_offset), 0x40800);
    mem.set(0x40000, 0);
    mem.set(0x40008, 0x21);
    let (heaps, _) = heap_list::list(&mem, &layout, LIBC, &arena).unwrap();
    assert_eq!(heaps[0].region_start, 0x40008);
}

#[test]
fn padding_is_skipped_in_steps_of_any_size() {
    let mut mem = FakeMem::new();
    mem.set(100, 0).set(103, 0).set(106, 7);
    assert_eq!(heap_list::skip_zero_padding(&mem, 100, 112, 3), 106);
    assert_eq!(heap_list::skip_zero_padding(&mem, 100, 106, 3), 106);
    assert_eq!(heap_list::skip_zero_padding(&mem, 106, 112, 3), 106);
    // Nothing can be read behind the first word.
    assert_eq!(heap_list::skip_zero_padding(&mem, 100, 110, 5), 105);
}

#[test]
fn heap_starts_are_multiples_of_the_reservation() {
    assert_eq!(
        heap_list::to_heap_start(0x7f00_0123_4567, 0x400_0000),
        0x7f00_0000_0000
    );
    assert_eq!(heap_list::to_heap_start(0x1234_5678, 0x10_0000), 0x1230_0000);
}

#[test]
fn reservations_of_any_size_are_masked() {
    let mut layout = test_layout(8);
    layout.heap_max_size = 0x1000;
    let arena = Arena {
        malloc_state_addr: 0x9000,
        index: 1,
    };
    let (heap, top) = (0x5000u64, 0x5800u64);
    let mut mem = FakeMem::new();
    mem.set(0x9000 + u64::from(layout.malloc_state_top_offset), top);
    mem.set(heap + u64::from(layout.heap_info_size_offset), 0x1000);
    mem.set(heap + u64::from(layout.heap_info_mprotect_size_offset), 0x1000);
    mem.set(heap + u64::from(layout.heap_info_prev_offset), 0);
    let (heaps, problems) = heap_list::list(&mem, &layout, LIBC, &arena).unwrap();
    assert!(problems.is_empty());
    assert_eq!(heaps.len(), 1);
    assert_eq!(heaps[0].address, heap);
    assert_eq!(heaps[0].region_end, top + 8);
}

#[test]
fn unreadable_main_top_is_hard_error() {
    let layout = test_layout(8);
    let arena = Arena {
        malloc_state_addr: LIBC,
        index: 0,
    };
    let mem = FakeMem::new();
    assert!(matches!(
        heap_list::list(&mem, &layout, LIBC, &arena),
        Err(Error::AddressNotMapped { .. })
    ));
}

// Chunk walks.

/// Lay out a main-arena heap of three 0x20 chunks then top, at word-aligned
/// size-field addresses, and check counts + in-use flags.
#[test]
fn walks_main_arena_chunks() {
    let layout = test_layout(8);
    let mut mem = FakeMem::new();
    // size fields at 0x100, 0x120, 0x140; top's size field at 0x160.
    // Chunk 0: allocated (next PREV_INUSE set), chunk 1: free, chunk 2: allocated.
    mem.set(0x100, 0x20 | PREV_INUSE);
    mem.set(0x120, 0x20 | PREV_INUSE); // chunk1 header; its PREV_INUSE => chunk0 in use
    mem.set(0x140, 0x20); // chunk2 header; PREV_INUSE clear => chunk1 free
    mem.set(0x160, 0x20 | PREV_INUSE); // top; PREV_INUSE set => chunk2 in use
    let region_end = 0x160;

    let (events, problems) = walk_region(&mem, &layout, 0, 0x100, region_end, true);
    assert!(problems.is_empty(), "{problems:?}");
    assert_eq!(events.len(), 3);
    assert_eq!(events[0].user_addr, 0x108);
    assert_eq!(events[0].user_size, 0x18); // 0x20 - 8
    assert!(events[0].prev_inuse_says_in_use);
    assert!(!events[1].prev_inuse_says_in_use);
    assert!(events[2].prev_inuse_says_in_use);
}

#[test]
fn a_damaged_chunk_does_not_cost_those_before_it() {
    let layout = test_layout(8);
    let mut sound = FakeMem::new();
    for i in 0..4u64 {
        sound.set(0x100 + 0x20 * i, 0x20 | PREV_INUSE);
    }
    let (all, problems) = walk_region(&sound, &layout, 0, 0x100, 0x160, true);
    assert!(problems.is_empty());
    assert_eq!(all.len(), 3);
    for damage in [0, 0x18 | PREV_INUSE, 0x1000, u64::MAX] {
        let mut damaged = FakeMem::new();
        for i in 0..4u64 {
            damaged.set(0x100 + 0x20 * i, 0x20 | PREV_INUSE);
        }
        damaged.set(0x140, damage);
        let (kept, problems) = walk_region(&damaged, &layout, 0, 0x100, 0x160, true);
        assert_eq!(problems.len(), 1);
        assert_eq!(kept.len(), 2);
        // The chunk that ends before the damage is the same in all it says.
        assert_eq!(kept[0].size_field_addr, all[0].size_field_addr);
        assert_eq!(kept[0].user_size, all[0].user_size);
        assert_eq!(kept[0].full_size, all[0].full_size);
        assert_eq!(
            kept[0].prev_inuse_says_in_use,
            all[0].prev_inuse_says_in_use
        );
        assert_eq!(kept[1].size_field_addr, 0x120);
    }
}

#[test]
fn stops_on_unaligned_chunk() {
    let layout = test_layout(8);
    let mut mem = FakeMem::new();
    mem.set(0x100, 0x18 | PREV_INUSE); // 0x18 not a multiple of 16
    let (events, problems) = walk_region(&mem, &layout, 0, 0x100, 0x200, true);
    assert!(events.is_empty());
    assert!(matches!(
        problems.as_slice(),
        [Problem::HeapWalkTruncated { reason, .. }] if reason.contains("aligned")
    ));
}

#[test]
fn stops_when_chunk_exceeds_region() {
    let layout = test_layout(8);
    let mut mem = FakeMem::new();
    mem.set(0x100, 0x40 | PREV_INUSE); // would end at 0x140, past region_end 0x120
    let (events, problems) = walk_region(&mem, &layout, 0, 0x100, 0x120, true);
    assert!(events.is_empty());
    assert!(matches!(
        problems.as_slice(),
        [Problem::HeapWalkTruncated { reason, .. }] if reason.contains("past region")
    ));
}

#[test]
fn empty_region_yields_nothing() {
    let layout = test_layout(8);
    let mem = FakeMem::new();
    let (events, problems) = walk_region(&mem, &layout, 0, 0x100, 0x100, true);
    assert!(events.is_empty());
    assert!(problems.is_empty());
}

#[test]
fn walked_chunks_stand_side_by_side() {
    let layout = test_layout(8);
    let mut mem = FakeMem::new();
    let sizes = [0x20u64, 0x40, 0x30, 0x110];
    let mut at = 0x1008u64;
    for size in sizes {
        mem.set(at, size | PREV_INUSE);
        at += size;
    }
    mem.set(at, 0x1000 | PREV_INUSE);
    let (events, problems) = walk_region(&mem, &layout, 0, 0x1008, at, true);
    assert!(problems.is_empty());
    assert_eq!(events.len(), 4);
    for pair in events.windows(2) {
        assert_eq!(pair[0].size_field_addr + pair[0].full_size, pair[1].size_field_addr);
    }
    assert_eq!(events[3].size_field_addr + events[3].full_size, at);
}

#[test]
fn unmapped_region_start_is_reported_in_hex() {
    let layout = test_layout(8);
    let mem = FakeMem::new();
    let (events, problems) = walk_region(&mem, &layout, 5, 0xabc0, 0xf000, true);
    assert!(events.is_empty());
    assert!(matches!(
        problems.as_slice(),
        [Problem::ChunkReadFailed { arena: 5, address }] if address == "0xabc0"
    ));
}

// Statistics.

fn event(user_addr: u64, user_size: u64, in_use: bool) -> ChunkEvent {
    ChunkEvent {
        size_field_addr: user_addr - 8,
        user_addr,
        user_size,
        full_size: user_size + 8,
        prev_inuse_says_in_use: in_use,
    }
}

#[test]
fn splits_allocated_free_tcache_fastbin() {
    // Four walked chunks: two in use (one of them tcached), two free.
    let events = [
        event(0x100, 24, true),  // allocated
        event(0x200, 24, true),  // in tcache -> free
        event(0x300, 40, false), // free (source 3)
        event(0x400, 24, true),  // allocated, but a fastbin will claim it
    ];
    let mut membership = HashMap::new();
    membership.insert(0x200u64, (7i32, 0u32));
    // One fastbin bin, size 24, holding 1 chunk.
    let fastbins = [FastbinBinResult {
        index: 0,
        size: 24,
        count: 1,
    }];

    let layout = test_layout(8);
    let (stats, problems) = accumulate(&layout, 0, &events, &membership, &fastbins);
    assert!(problems.is_empty(), "{problems:?}");
    // allocated: started with 0x100 and 0x400 (24 each) = 2, minus 1 fastbin = 1.
    assert_eq!(stats.allocated.count, 1);
    assert_eq!(stats.allocated.bytes, 24);
    // free: tcache(1) + source3(1) + fastbin(1) = 3.
    assert_eq!(stats.free.tally.count, 3);
    assert_eq!(
        stats
            .free
            .tcache_threads
            .iter()
            .copied()
            .collect::<Vec<_>>(),
        vec![7]
    );
    assert_eq!(stats.free.tcache_bins.len(), 1);
    assert_eq!(stats.free.tcache_bins[0].count, 1);
    assert_eq!(stats.free.fastbins[0].count, 1);
    // overhead: 4 chunks * 8.
    assert_eq!(stats.overhead_count, 4);
    assert_eq!(stats.overhead_bytes, 32);
}

#[test]
fn fastbin_exceeding_allocated_flags_inconsistency() {
    let events = [event(0x100, 24, false)]; // one free chunk, none allocated at size 24
    let membership = HashMap::new();
    let fastbins = [FastbinBinResult {
        index: 0,
        size: 24,
        count: 2,
    }];
    let layout = test_layout(8);
    let (stats, problems) = accumulate(&layout, 1, &events, &membership, &fastbins);
    assert_eq!(stats.allocated.count, 0); // clamped, not underflowed
    assert!(matches!(
        problems.as_slice(),
        [Problem::StatsInconsistent {
            arena: 1,
            size: 24,
            ..
        }]
    ));
}

#[test]
fn inconsistency_is_told_of_the_lacking_size_alone() {
    let events = [event(0x100, 24, true), event(0x200, 40, true)];
    let fastbins = [
        FastbinBinResult {
            index: 0,
            size: 24,
            count: 2,
        },
        FastbinBinResult {
            index: 1,
            size: 40,
            count: 1,
        },
    ];
    let (stats, problems) =
        accumulate(&test_layout(8), 0, &events, &HashMap::new(), &fastbins);
    assert!(matches!(
        problems.as_slice(),
        [Problem::StatsInconsistent {
            arena: 0,
            size: 24,
            ..
        }]
    ));
    assert_eq!(stats.allocated.count, 0);
}

#[test]
fn consistent_books_balance() {
    let events = [
        event(0x100, 24, true),
        event(0x200, 24, true),
        event(0x300, 104, false),
        event(0x400, 40, true),
    ];
    let mut membership = HashMap::new();
    membership.insert(0x400u64, (1i32, 1u32));
    let fastbins = [FastbinBinResult {
        index: 0,
        size: 24,
        count: 2,
    }];
    let layout = test_layout(8);
    let (stats, problems) = accumulate(&layout, 0, &events, &membership, &fastbins);
    assert!(problems.is_empty());
    assert_eq!(
        stats.allocated.count + stats.free.tally.count,
        stats.overhead_count
    );
    assert_eq!(stats.free.tally.bytes, 24 + 24 + 104 + 40);
    assert_eq!(stats.free.tcache_bins[0].index, 1);
    assert_eq!(stats.free.tcache_bins[0].size, 40);
    assert_eq!(stats.free.tcache_bins[0].bytes, 40);
}

#[test]
fn totals_are_those_of_the_histograms() {
    let events = [
        event(0x100, 24, true),
        event(0x200, 24, true),
        event(0x300, 104, false),
        event(0x400, 40, true),
        event(0x500, 104, true),
    ];
    let mut membership = HashMap::new();
    membership.insert(0x400u64, (1i32, 1u32));
    let fastbins = [FastbinBinResult {
        index: 0,
        size: 24,
        count: 1,
    }];
    let (stats, problems) = accumulate(&test_layout(8), 0, &events, &membership, &fastbins);
    assert!(problems.is_empty());
    for tally in [&stats.allocated, &stats.free.tally] {
        assert_eq!(tally.count, tally.histogram.values().sum::<u64>());
        assert_eq!(
            tally.bytes,
            tally.histogram.iter().map(|(size, n)| size * n).sum::<u64>()
        );
    }
    assert_eq!((stats.allocated.count, stats.allocated.bytes), (2, 128));
    let payload: u64 = events.iter().map(|e| e.user_size).sum();
    assert_eq!(stats.allocated.bytes + stats.free.tally.bytes, payload);
}

#[test]
fn counts_are_those_of_the_histograms_however_large_the_chunks() {
    let huge = u64::MAX - 7;
    let events = [
        event(0x100, huge, true),
        event(0x200, huge, true),
        event(0x300, huge, false),
    ];
    let fastbins = [FastbinBinResult {
        index: 0,
        size: huge,
        count: 1,
    }];
    let (stats, problems) = accumulate(&test_layout(8), 0, &events, &HashMap::new(), &fastbins);
    assert!(problems.is_empty());
    assert_eq!(stats.allocated.count, 1);
    assert_eq!(stats.free.tally.count, 2);
    for tally in [&stats.allocated, &stats.free.tally] {
        assert_eq!(tally.count, tally.histogram.values().sum::<u64>());
    }
}

#[test]
fn tallies_saturate_and_clamp() {
    let mut tally = SizeTally::default();
    tally.add(24);
    tally.add_n(40, 3);
    assert_eq!((tally.count, tally.bytes), (4, 144));
    assert_eq!(tally.histogram, BTreeMap::from([(24, 1), (40, 3)]));
    assert!(!tally.remove_n(40, 2));
    assert_eq!((tally.count, tally.bytes), (2, 64));
    assert!(tally.remove_n(40, 2));
    assert_eq!((tally.count, tally.bytes), (0, 0));
    tally.add_n(u64::MAX, 2);
    assert_eq!(tally.bytes, u64::MAX);
}

// tcache.

#[test]
fn walks_safe_linked_entries() {
    let mut layout = test_layout(8);
    layout.capabilities.has_safe_linking = true;
    let (e0, e1, e2) = (0x1010u64, 0x2010u64, 0x3010u64);
    let mut mem = FakeMem::new();
    mem.set(e0, e1 ^ (e0 >> 12));
    mem.set(e1, e2 ^ (e1 >> 12));
    mem.set(e2, e2 >> 12); // tail: real pointer 0, safe-linked

    let (result, problems) = walk_tcache_bin(&mem, &layout, e0, 7, 0);
    assert!(problems.is_empty());
    assert_eq!(result.user_addrs, vec![e0, e1, e2]);
}

#[test]
fn read_failure_is_partial() {
    let mut layout = test_layout(8);
    layout.capabilities.has_safe_linking = false;
    let (e0, e1) = (0x1010u64, 0x2010u64);
    let mut mem = FakeMem::new();
    mem.set(e0, e1); // e1 itself is not mapped
    let (result, problems) = walk_tcache_bin(&mem, &layout, e0, 7, 3);
    assert_eq!(result.user_addrs, vec![e0, e1]);
    assert!(matches!(
        problems.as_slice(),
        [Problem::TcacheChunkReadFailed {
            thread_id: 7,
            bin_index: 3,
            ..
        }]
    ));
}

#[test]
fn tcache_ptr_reads_through_tls() {
    let layout = test_layout(8); // tp_off_reloc_addr Some(0), tcache.value 0
    let libc = 0x400000u64;
    let tp = 0x7f0000u64;
    let tp_offset = 0x40u64;
    let base = 0x8888u64;
    let mut mem = FakeMem::new();
    mem.set(libc, tp_offset); // *reloc = libc_tp_offset
    mem.set(tp + tp_offset, base); // *(tp + off + 0) = tcache base
    assert_eq!(tcache_ptr(&mem, &layout, libc, tp).unwrap(), base);
}

#[test]
fn tls_is_silent_without_relocation_and_fails_on_unmapped_words() {
    let mut layout = test_layout(8);
    let mem = FakeMem::new();
    assert!(read_thread_arena(&mem, &layout, 0x1000, 0x2000).is_err());
    layout.tp_off_reloc_addr = None;
    assert_eq!(read_thread_arena(&mem, &layout, 0x1000, 0x2000).unwrap(), 0);
}

#[test]
fn tcache_cycle_is_reported() {
    let layout = test_layout(8);
    let mut mem = FakeMem::new();
    mem.set(0x1010, 0x2010);
    mem.set(0x2010, 0x1010);
    let (result, problems) = walk_tcache_bin(&mem, &layout, 0x1010, 9, 2);
    assert_eq!(result.user_addrs, vec![0x1010, 0x2010]);
    assert!(matches!(
        problems.as_slice(),
        [Problem::TcacheCycleDetected {
            thread_id: 9,
            bin_index: 2
        }]
    ));
    assert_eq!(tcache_index_to_size(&layout, 4), 88);
}
