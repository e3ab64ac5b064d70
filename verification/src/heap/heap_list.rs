//! Enumerate the heap regions of an arena and, for each, the exact
//! `[region_start, region_end)` the chunk walker should scan.
//!
//! The main arena has a single sbrk'd region; a secondary arena is a `prev`-
//! linked chain of `_heap_info` blocks. In both cases the first chunk doesn't
//! begin right at the region start: there's zero padding (the unused
//! `prev_size` slot), and a secondary arena's first heap also embeds the arena's
//! `malloc_state` right after its `_heap_info`. Both are accounted for here so
//! the walker just consumes `region_start`/`region_end`.
//!
//! `wrapping_add` is used for base+offset arithmetic on core-read addresses;
//! results feed mapping-checked reads.

use std::collections::HashSet;

use vstd::prelude::*;

use crate::arith;
use crate::elf::MemReader;
use crate::error;
use crate::error::Result;
use crate::glibc::DetectedLayout;
use crate::problem;
use crate::problem::Problem;

use super::arena::Arena;
use super::walk;

verus! {

/// Guard against a corrupt `prev` chain.
pub const MAX_HEAPS: u32 = 10_000;

#[derive(Debug, Clone, Copy)]
pub struct Heap {
    /// Segment/`_heap_info` start of this heap.
    pub address: u64,
    /// In-use extent of the heap in bytes.
    pub size: u64,
    /// Bytes actually committed (mprotect'd); equals `size` for the main arena.
    pub mprotect_size: u64,
    /// Size-field address of the first real chunk (zero padding and any embedded
    /// `malloc_state` already skipped).
    pub region_start: u64,
    /// One word past the last usable chunk.
    pub region_end: u64,
}

/// Where the zero words from `start` on end: the first address at or past `end`,
/// or at which no zero can be read. The scan may pass the top of the address
/// space `wraps` times. Steps of `word` bytes are back where they started when they
/// have passed it `word` times, so a scan that passes it once more would go on for
/// ever; it stops there.
pub open spec fn padding_end<M: MemReader>(
    mem: &M,
    start: u64,
    end: u64,
    word: u64,
    wraps: u64,
) -> u64
    decreases wraps, u64::MAX - start,
    when word > 0
{
    if start < end && mem.word_at(start) == Ok::<u64, error::ErrorView>(0) {
        if start + word <= u64::MAX {
            padding_end(mem, (start + word) as u64, end, word, wraps)
        } else if wraps > 0 {
            padding_end(mem, start.wrapping_add(word), end, word, (wraps - 1) as u64)
        } else {
            start.wrapping_add(word)
        }
    } else {
        start
    }
}

/// Size-field address of the first chunk at or behind `start`.
pub open spec fn first_chunk<M: MemReader>(
    mem: &M,
    layout: &DetectedLayout,
    start: u64,
    end: u64,
) -> u64 {
    padding_end(mem, start, end, layout.word_size as u64, layout.word_size as u64)
}

/// Where the main heap starts: at `sbrk_base` where that is mapped, otherwise at
/// the segment that holds `top`, but no further back than four reservations.
pub open spec fn main_heap_start<M: MemReader>(
    mem: &M,
    layout: &DetectedLayout,
    sbrk_base: u64,
    top: u64,
) -> Option<u64> {
    if mem.segment_at(sbrk_base) is Some {
        Some(sbrk_base)
    } else {
        match mem.segment_at(top) {
            Some(segment) => {
                let furthest = top.saturating_sub(
                    arith::saturated_product(layout.heap_max_size, 4),
                );
                Some(
                    if segment >= furthest {
                        segment
                    } else {
                        furthest
                    },
                )
            },
            None => None,
        }
    }
}

/// The main arena's heap, given `sbrk_base` and `top`.
pub open spec fn main_heap<M: MemReader>(
    mem: &M,
    layout: &DetectedLayout,
    arena: Arena,
    sbrk_base: u64,
    top: u64,
) -> (Seq<Heap>, Seq<problem::ProblemView>) {
    if sbrk_base == 0 || top == 0 {
        (Seq::empty(), Seq::empty())
    } else {
        match main_heap_start(mem, layout, sbrk_base, top) {
            None => (
                Seq::empty(),
                walk::truncated(arena.index, "main arena heap start undeterminable"@),
            ),
            Some(start) => {
                let end = top.wrapping_add(layout.word_size as u64);
                let size: u64 = if start <= top {
                    (top - start) as u64
                } else {
                    0
                };
                let heap = Heap {
                    address: start,
                    size,
                    mprotect_size: size,
                    region_start: first_chunk(mem, layout, start, end),
                    region_end: end,
                };
                (
                    seq![heap],
                    if start <= top {
                        Seq::empty()
                    } else {
                        walk::truncated(arena.index, "top is below heap start"@)
                    },
                )
            },
        }
    }
}

/// `top` of an arena.
pub open spec fn top_of<M: MemReader>(
    mem: &M,
    layout: &DetectedLayout,
    arena: Arena,
) -> std::result::Result<u64, error::ErrorView> {
    mem.word_at(arena.malloc_state_addr.wrapping_add(layout.malloc_state_top_offset as u64))
}

/// `sbrk_base` of the process.
pub open spec fn sbrk_base_of<M: MemReader>(
    mem: &M,
    layout: &DetectedLayout,
    libc_addr: u64,
) -> std::result::Result<u64, error::ErrorView> {
    mem.word_at(
        libc_addr.wrapping_add(layout.mp.value).wrapping_add(layout.mp_sbrk_base_offset as u64),
    )
}

/// The heaps of the main arena.
pub open spec fn main_heaps<M: MemReader>(
    mem: &M,
    layout: &DetectedLayout,
    libc_addr: u64,
    arena: Arena,
) -> std::result::Result<(Seq<Heap>, Seq<problem::ProblemView>), error::ErrorView> {
    match sbrk_base_of(mem, layout, libc_addr) {
        Err(e) => Err(e),
        Ok(sbrk_base) => match top_of(mem, layout, arena) {
            Err(e) => Err(e),
            Ok(top) => Ok(main_heap(mem, layout, arena, sbrk_base, top)),
        },
    }
}

#[derive(Debug, Clone, Copy)]
pub struct HeapInfo {
    pub size: u64,
    pub mprotect_size: u64,
    pub prev: u64,
}

/// The `_heap_info` at `addr`.
pub open spec fn heap_info_at<M: MemReader>(
    mem: &M,
    layout: &DetectedLayout,
    addr: u64,
) -> std::result::Result<HeapInfo, error::ErrorView> {
    match mem.word_at(addr.wrapping_add(layout.heap_info_size_offset as u64)) {
        Err(e) => Err(e),
        Ok(size) => match mem.word_at(
            addr.wrapping_add(layout.heap_info_mprotect_size_offset as u64),
        ) {
            Err(e) => Err(e),
            Ok(mprotect_size) => match mem.word_at(
                addr.wrapping_add(layout.heap_info_prev_offset as u64),
            ) {
                Err(e) => Err(e),
                Ok(prev) => Ok(HeapInfo { size, mprotect_size, prev }),
            },
        },
    }
}

/// `addr` masked down to the `heap_max_size` boundary.
pub open spec fn reservation_start(addr: u64, heap_max_size: u64) -> u64 {
    addr & !((heap_max_size - 1) as u64)
}

/// Where the chunks of the secondary heap at `addr` may begin: behind its
/// `_heap_info` and, in the arena's first heap, behind its `malloc_state`.
pub open spec fn secondary_start(layout: &DetectedLayout, addr: u64, info: HeapInfo) -> u64 {
    let behind = addr.wrapping_add(layout.heap_info_size as u64);
    if info.prev == 0 {
        behind.wrapping_add(layout.main_arena.size)
    } else {
        behind
    }
}

/// End of the secondary heap at `addr`: behind `top` in the heap that holds it,
/// otherwise as far as its size says, where that is an address.
pub open spec fn secondary_end(
    layout: &DetectedLayout,
    top: u64,
    addr: u64,
    info: HeapInfo,
) -> Option<u64> {
    if addr == reservation_start(top, layout.heap_max_size) {
        Some(top.wrapping_add(layout.word_size as u64))
    } else if addr + info.size <= u64::MAX {
        Some((addr + info.size) as u64)
    } else {
        None
    }
}

/// The secondary heap at `addr`.
pub open spec fn secondary_heap<M: MemReader>(
    mem: &M,
    layout: &DetectedLayout,
    addr: u64,
    info: HeapInfo,
    end: u64,
) -> Heap {
    Heap {
        address: addr,
        size: info.size,
        mprotect_size: info.mprotect_size,
        region_start: first_chunk(mem, layout, secondary_start(layout, addr, info), end),
        region_end: end,
    }
}

/// The heaps of a secondary arena from `addr` on, back along `prev`, with the
/// problem that broke the chain, if any. `visited` are the `count` heaps before.
pub open spec fn chain_from<M: MemReader>(
    mem: &M,
    layout: &DetectedLayout,
    arena_index: u32,
    top: u64,
    addr: u64,
    visited: Set<u64>,
    count: nat,
) -> (Seq<Heap>, Seq<problem::ProblemView>)
    decreases MAX_HEAPS - count,
{
    if count >= MAX_HEAPS {
        (Seq::empty(), walk::truncated(arena_index, "heap_info prev chain exceeded limit"@))
    } else if visited.contains(addr) {
        (Seq::empty(), walk::truncated(arena_index, "heap_info prev chain forms a cycle"@))
    } else {
        match heap_info_at(mem, layout, addr) {
            Err(_) => (Seq::empty(), walk::truncated(arena_index, "heap_info unreadable"@)),
            Ok(info) => match secondary_end(layout, top, addr, info) {
                None => (
                    Seq::empty(),
                    walk::truncated(arena_index, "heap_info size overflows its region"@),
                ),
                Some(end) => {
                    let heap = secondary_heap(mem, layout, addr, info, end);
                    if info.prev == 0 {
                        (seq![heap], Seq::empty())
                    } else {
                        let rest = chain_from(
                            mem,
                            layout,
                            arena_index,
                            top,
                            info.prev,
                            visited.insert(addr),
                            count + 1,
                        );
                        (seq![heap] + rest.0, rest.1)
                    }
                },
            },
        }
    }
}

/// The heaps of a secondary arena, newest first.
pub open spec fn secondary_heaps<M: MemReader>(
    mem: &M,
    layout: &DetectedLayout,
    arena: Arena,
) -> std::result::Result<(Seq<Heap>, Seq<problem::ProblemView>), error::ErrorView> {
    match top_of(mem, layout, arena) {
        Err(e) => Err(e),
        Ok(top) => if top == 0 {
            Ok((Seq::empty(), Seq::empty()))
        } else {
            let first = reservation_start(top, layout.heap_max_size);
            match heap_info_at(mem, layout, first) {
                Err(e) => Err(e),
                Ok(_) => Ok(chain_from(mem, layout, arena.index, top, first, Set::empty(), 0)),
            }
        },
    }
}

/// The heaps of an arena.
pub open spec fn heaps<M: MemReader>(
    mem: &M,
    layout: &DetectedLayout,
    libc_addr: u64,
    arena: Arena,
) -> std::result::Result<(Seq<Heap>, Seq<problem::ProblemView>), error::ErrorView> {
    if arena.index == 0 {
        main_heaps(mem, layout, libc_addr, arena)
    } else {
        secondary_heaps(mem, layout, arena)
    }
}

/// Whether a listing is what it should be.
pub open spec fn listing_is(
    r: Result<(Vec<Heap>, Vec<Problem>)>,
    want: std::result::Result<(Seq<Heap>, Seq<problem::ProblemView>), error::ErrorView>,
) -> bool {
    match r {
        Err(e) => want == Err::<(Seq<Heap>, Seq<problem::ProblemView>), error::ErrorView>(e@),
        Ok(v) => want == Ok::<(Seq<Heap>, Seq<problem::ProblemView>), error::ErrorView>(
            (v.0@, problem::views(v.1@)),
        ),
    }
}

/// List the heaps of an arena, each with the region to walk.
///
/// Fails only where the first words of the chain can't be read; a chain that
/// breaks later yields the heaps found so far plus a [`Problem`].
pub fn list<M: MemReader>(mem: &M, layout: &DetectedLayout, libc_addr: u64, arena: &Arena) -> (r:
    Result<(Vec<Heap>, Vec<Problem>)>)
    requires
        layout.word_size > 0,
        arena.index != 0 ==> layout.heap_max_size > 0,
    ensures
        listing_is(r, heaps(mem, layout, libc_addr, *arena)),
{
    if arena.is_main() {
        list_main(mem, layout, libc_addr, arena)
    } else {
        list_secondary(mem, layout, arena)
    }
}

/// The main arena's heap.
pub fn list_main<M: MemReader>(
    mem: &M,
    layout: &DetectedLayout,
    libc_addr: u64,
    arena: &Arena,
) -> (r: Result<(Vec<Heap>, Vec<Problem>)>)
    requires
        layout.word_size > 0,
    ensures
        listing_is(r, main_heaps(mem, layout, libc_addr, *arena)),
{
    let word: u64 = layout.word_size as u64;
    let mp_addr: u64 = libc_addr.wrapping_add(layout.mp.value);
    // These two reads are the starting point; if they fail the whole arena is
    // unusable (main arena is core to the report), so propagate.
    let sbrk_base: u64 = match mem.read_u64(
        mp_addr.wrapping_add(layout.mp_sbrk_base_offset as u64),
    ) {
        Ok(v) => v,
        Err(e) => return Err(e),
    };
    let top: u64 = match mem.read_u64(
        arena.malloc_state_addr.wrapping_add(layout.malloc_state_top_offset as u64),
    ) {
        Ok(v) => v,
        Err(e) => return Err(e),
    };
    let mut heaps: Vec<Heap> = Vec::new();
    // A brand-new process that hasn't grown its heap: legitimately empty.
    if sbrk_base == 0 || top == 0 {
        return Ok((heaps, problem::none()));
    }
    let last_address: u64 = top.wrapping_add(word);
    // Normally sbrk_base is the heap start. On aarch64 the main arena can be
    // mmap-backed and sbrk_base points elsewhere; fall back to the start of the
    // segment holding top, bounded so we don't scan a huge merged mapping.
    let heap_start: u64 = if mem.segment_start(sbrk_base).is_some() {
        sbrk_base
    } else {
        match mem.segment_start(top) {
            Some(seg_start) => {
                let max_scan: u64 = arith::saturating_mul(layout.heap_max_size, 4);
                let furthest: u64 = top.saturating_sub(max_scan);
                if seg_start >= furthest {
                    seg_start
                } else {
                    furthest
                }
            },
            // Can't determine where the heap starts: that's a diagnostic, not a
            // silent "no heap": the user needs to tell the two cases apart.
            None => {
                return Ok(
                    (
                        heaps,
                        walk::truncation(arena.index, "main arena heap start undeterminable"),
                    ),
                );
            },
        }
    };
    // `top` and `heap_start` are both core-read addresses; an inverted result is
    // corruption, not a valid empty extent.
    let (size, problems): (u64, Vec<Problem>) = match top.checked_sub(heap_start) {
        Some(s) => (s, problem::none()),
        None => (0, walk::truncation(arena.index, "top is below heap start")),
    };
    let region_start: u64 = skip_zero_padding(mem, heap_start, last_address, word);
    heaps.push(
        Heap {
            address: heap_start,
            size,
            mprotect_size: size,
            region_start,
            region_end: last_address,
        },
    );
    assert(heaps@ =~= main_heap(mem, layout, *arena, sbrk_base, top).0);
    Ok((heaps, problems))
}

/// The heaps of a secondary arena, from the one that holds `top` back to the
/// oldest.
pub fn list_secondary<M: MemReader>(mem: &M, layout: &DetectedLayout, arena: &Arena) -> (r: Result<
    (Vec<Heap>, Vec<Problem>),
>)
    requires
        layout.word_size > 0,
        layout.heap_max_size > 0,
    ensures
        listing_is(r, secondary_heaps(mem, layout, *arena)),
{
    broadcast use vstd::std_specs::hash::group_hash_axioms;

    let word: u64 = layout.word_size as u64;
    let top: u64 = match mem.read_u64(
        arena.malloc_state_addr.wrapping_add(layout.malloc_state_top_offset as u64),
    ) {
        Ok(v) => v,
        Err(e) => return Err(e),
    };
    let mut heaps: Vec<Heap> = Vec::new();
    if top == 0 {
        return Ok((heaps, problem::none()));
    }
    // The heap holding `top` is where the chain starts; walk `prev` back to the
    // oldest heap.
    let top_heap: u64 = to_heap_start(top, layout.heap_max_size);
    let mut current: u64 = top_heap;
    // A corrupt `prev` chain must not spin us or produce duplicate heaps; a
    // repeated `_heap_info` address is a cycle.
    let mut visited: HashSet<u64> = HashSet::new();
    let ghost whole = chain_from(mem, layout, arena.index, top, top_heap, Set::empty(), 0);
    assert(visited@ =~= Set::empty());
    assert(heaps@ + whole.0 =~= whole.0);
    loop
        invariant
            word > 0,
            word == layout.word_size,
            heaps@.len() <= MAX_HEAPS,
            heaps@.len() == 0 ==> current == top_heap,
            heaps@.len() > 0 ==> heap_info_at(mem, layout, top_heap) is Ok,
            top_heap == reservation_start(top, layout.heap_max_size),
            top != 0,
            top_of(mem, layout, *arena) == Ok::<u64, error::ErrorView>(top),
            whole == chain_from(mem, layout, arena.index, top, top_heap, Set::empty(), 0),
            heaps@.len() == 0 ==> visited@ == Set::<u64>::empty(),
            ({
                let rest = chain_from(
                    mem,
                    layout,
                    arena.index,
                    top,
                    current,
                    visited@,
                    heaps@.len(),
                );
                whole.0 == heaps@ + rest.0 && whole.1 == rest.1
            }),
        decreases MAX_HEAPS - heaps@.len(),
    {
        broadcast use vstd::std_specs::hash::group_hash_axioms;

        let ghost here = chain_from(
            mem,
            layout,
            arena.index,
            top,
            current,
            visited@,
            heaps@.len(),
        );
        if heaps.len() >= MAX_HEAPS as usize {
            return Ok((heaps, walk::truncation(arena.index, "heap_info prev chain exceeded limit")));
        }
        if !visited.insert(current) {
            return Ok((heaps, walk::truncation(arena.index, "heap_info prev chain forms a cycle")));
        }
        let info: HeapInfo = match read_heap_info(mem, layout, current) {
            Ok(info) => info,
            Err(e) => {
                if heaps.is_empty() {
                    return Err(e);  // no starting point at all
                }
                return Ok((heaps, walk::truncation(arena.index, "heap_info unreadable")));
            },
        };
        // region_end mixes in a core-read size, so the add is checked; an
        // overflow means the size is garbage.
        let is_top_heap: bool = current == top_heap;
        let region_end: u64 = if is_top_heap {
            top.wrapping_add(word)
        } else {
            match current.checked_add(info.size) {
                Some(end) => end,
                None => {
                    return Ok(
                        (
                            heaps,
                            walk::truncation(arena.index, "heap_info size overflows its region"),
                        ),
                    );
                },
            }
        };
        // First heap (prev == 0) has the arena's malloc_state embedded right
        // after its _heap_info, so the first chunk starts further in.
        let mut heap_start: u64 = current.wrapping_add(layout.heap_info_size as u64);
        if info.prev == 0 {
            heap_start = heap_start.wrapping_add(layout.main_arena.size);
        }
        let region_start: u64 = skip_zero_padding(mem, heap_start, region_end, word);
        let ghost before = heaps@;
        heaps.push(
            Heap {
                address: current,
                size: info.size,
                mprotect_size: info.mprotect_size,
                region_start,
                region_end,
            },
        );
        if info.prev == 0 {
            assert(before + seq![heaps@.last()] =~= heaps@);
            return Ok((heaps, problem::none()));
        }
        current = info.prev;
        proof {
            let rest = chain_from(
                mem,
                layout,
                arena.index,
                top,
                current,
                visited@,
                heaps@.len(),
            );
            assert(here.0 == seq![heaps@.last()] + rest.0);
            assert(before + here.0 =~= heaps@ + rest.0);
        }
    }
}

/// Read the `_heap_info` at `addr`.
pub fn read_heap_info<M: MemReader>(mem: &M, layout: &DetectedLayout, addr: u64) -> (r: Result<
    HeapInfo,
>)
    ensures
        error::outcome(r) == heap_info_at(mem, layout, addr),
{
    let size: u64 = match mem.read_u64(addr.wrapping_add(layout.heap_info_size_offset as u64)) {
        Ok(v) => v,
        Err(e) => return Err(e),
    };
    let mprotect_size: u64 = match mem.read_u64(
        addr.wrapping_add(layout.heap_info_mprotect_size_offset as u64),
    ) {
        Ok(v) => v,
        Err(e) => return Err(e),
    };
    let prev: u64 = match mem.read_u64(addr.wrapping_add(layout.heap_info_prev_offset as u64)) {
        Ok(v) => v,
        Err(e) => return Err(e),
    };
    Ok(HeapInfo { size, mprotect_size, prev })
}

/// Mask an address down to the `heap_max_size` boundary: the `_heap_info` for a
/// secondary heap sits at the start of its aligned region.
pub fn to_heap_start(addr: u64, heap_max_size: u64) -> (r: u64)
    requires
        heap_max_size > 0,
    ensures
        r == reservation_start(addr, heap_max_size),
{
    addr & !(heap_max_size - 1)
}

/// In either of the two sizes that glibc reserves heaps in, masking an address gives
/// the last multiple of the size that is not past it.
pub proof fn law_reservation_is_aligned(addr: u64, heap_max_size: u64)
    requires
        heap_max_size == 0x400_0000 || heap_max_size == 0x10_0000,
    ensures
        reservation_start(addr, heap_max_size) == addr - addr % heap_max_size,
{
    assert(addr & !0x3ff_ffffu64 == addr - addr % 0x400_0000) by (bit_vector);
    assert(addr & !0xf_ffffu64 == addr - addr % 0x10_0000) by (bit_vector);
}

/// Advance past the zero words (the unused `prev_size` slot) to the first real
/// size field. Stops at `end` if the whole region is zero. A read failure also
/// stops the scan; the walker will re-hit and report it.
pub fn skip_zero_padding<M: MemReader>(mem: &M, start: u64, end: u64, word: u64) -> (r: u64)
    requires
        word > 0,
    ensures
        r == padding_end(mem, start, end, word, word),
{
    let mut at: u64 = start;
    let mut wraps: u64 = word;
    while at < end
        invariant
            word > 0,
            padding_end(mem, at, end, word, wraps) == padding_end(mem, start, end, word, word),
        decreases wraps, u64::MAX - at,
    {
        match mem.read_u64(at) {
            Ok(v) => if v != 0 {
                return at;
            },
            Err(_) => return at,
        }
        if at > u64::MAX - word {
            if wraps == 0 {
                return at.wrapping_add(word);
            }
            wraps = wraps - 1;
        }
        at = at.wrapping_add(word);
    }
    at
}

/// Whether the words from `start` up to `at`, a whole number of steps on, are zero.
pub open spec fn zeros_up_to<M: MemReader>(mem: &M, start: u64, at: u64, word: u64) -> bool {
    &&& start <= at
    &&& (at - start) % word as int == 0
    &&& forall|x: u64|
        start <= x < at && (x - start) % word as int == 0 ==> #[trigger] mem.word_at(x) == Ok::<
            u64,
            error::ErrorView,
        >(0)
}

/// Skipping padding passes zero words only and stops at the first other one: in a
/// region of whole words it ends in the region, behind zeros, at the region's end or
/// where no zero can be read.
pub proof fn law_only_zero_words_are_skipped<M: MemReader>(
    mem: &M,
    start: u64,
    end: u64,
    word: u64,
    wraps: u64,
)
    requires
        word > 0,
        start <= end,
        (end - start) % word as int == 0,
    ensures
        ({
            let r = padding_end(mem, start, end, word, wraps);
            &&& r <= end
            &&& zeros_up_to(mem, start, r, word)
            &&& r == end || mem.word_at(r) != Ok::<u64, error::ErrorView>(0)
        }),
    decreases end - start,
{
    let w = word as int;
    assert(0int % w == 0) by (nonlinear_arith)
        requires
            w > 0,
    ;
    if start < end && mem.word_at(start) == Ok::<u64, error::ErrorView>(0) {
        let gap = end - start;
        vstd::arithmetic::div_mod::lemma_fundamental_div_mod(gap, w);
        assert(gap >= w) by (nonlinear_arith)
            requires
                gap == w * (gap / w) + gap % w,
                gap % w == 0,
                gap > 0,
                w > 0,
        ;
        vstd::arithmetic::div_mod::lemma_mod_sub_multiples_vanish(gap, w);
        let next = (start + word) as u64;
        assert((end - next) % w == 0);
        law_only_zero_words_are_skipped(mem, next, end, word, wraps);
        let r = padding_end(mem, next, end, word, wraps);
        vstd::arithmetic::div_mod::lemma_mod_add_multiples_vanish(r - next, w);
        assert((r - start) % w == 0);
        assert forall|x: u64| start <= x < r && (x - start) % w == 0 implies #[trigger] mem.word_at(
            x,
        ) == Ok::<u64, error::ErrorView>(0) by {
            let d = x - start;
            if x >= next {
                vstd::arithmetic::div_mod::lemma_mod_sub_multiples_vanish(d, w);
                assert((x - next) % w == 0);
            } else if x > start {
                vstd::arithmetic::div_mod::lemma_small_mod(d as nat, w as nat);
            }
        }
    }
}

/// The heaps of a secondary arena have distinct addresses and number at most
/// [`MAX_HEAPS`], however the `prev` chain runs.
pub proof fn law_heaps_are_distinct<M: MemReader>(
    mem: &M,
    layout: &DetectedLayout,
    arena_index: u32,
    top: u64,
    addr: u64,
    visited: Set<u64>,
    count: nat,
)
    requires
        count <= MAX_HEAPS,
    ensures
        ({
            let r = chain_from(mem, layout, arena_index, top, addr, visited, count);
            &&& r.0.len() + count <= MAX_HEAPS
            &&& r.1.len() <= 1
            &&& forall|i: int|
                0 <= i < r.0.len() ==> !visited.contains((#[trigger] r.0[i]).address)
            &&& forall|i: int, j: int|
                0 <= i < j < r.0.len() ==> (#[trigger] r.0[i]).address != (
                #[trigger] r.0[j]).address
        }),
    decreases MAX_HEAPS - count,
{
    if count < MAX_HEAPS && !visited.contains(addr) {
        if let Ok(info) = heap_info_at(mem, layout, addr) {
            if let Some(end) = secondary_end(layout, top, addr, info) {
                if info.prev != 0 {
                    let more = visited.insert(addr);
                    law_heaps_are_distinct(
                        mem,
                        layout,
                        arena_index,
                        top,
                        info.prev,
                        more,
                        count + 1,
                    );
                    let rest = chain_from(
                        mem,
                        layout,
                        arena_index,
                        top,
                        info.prev,
                        more,
                        count + 1,
                    ).0;
                    let all = seq![secondary_heap(mem, layout, addr, info, end)] + rest;
                    assert forall|i: int| 0 <= i < all.len() implies !visited.contains(
                        (#[trigger] all[i]).address,
                    ) by {
                        if i > 0 {
                            assert(rest[i - 1] == all[i]);
                        }
                    }
                    assert forall|i: int, j: int| 0 <= i < j < all.len() implies (
                    #[trigger] all[i]).address != (#[trigger] all[j]).address by {
                        assert(rest[j - 1] == all[j]);
                        if i > 0 {
                            assert(rest[i - 1] == all[i]);
                        }
                    }
                }
            }
        }
    }
}

/// The main arena has at most one heap, and all of that is committed.
pub proof fn law_main_heap_is_committed<M: MemReader>(
    mem: &M,
    layout: &DetectedLayout,
    libc_addr: u64,
    arena: Arena,
)
    requires
        arena.index == 0,
    ensures
        heaps(mem, layout, libc_addr, arena) matches Ok(listed) ==> (listed.0.len() <= 1 && (
        forall|i: int|
            0 <= i < listed.0.len() ==> (#[trigger] listed.0[i]).mprotect_size
                == listed.0[i].size)),
{
}

} // verus!
