//! Fastbin free-list traversal.
//!
//! Each fastbin is a singly-linked LIFO of same-size chunks. The head comes from
//! `malloc_state.fastbinsY[i]` (read by the caller); each chunk's `fd` sits at
//! `chunk + 2*word`. On glibc ≥ 2.32 `fd` is safe-linked and must be revealed
//! with the *storage location*: this is gated on the detected capability, since
//! XOR-ing an already-plain pointer on older glibc would corrupt it.

use std::collections::HashSet;

use vstd::prelude::*;

use crate::elf::MemReader;
use crate::glibc::DetectedLayout;
use crate::problem;
use crate::problem::Problem;
use crate::text;

verus! {

/// Traversal cap; the visited set already bounds cyclic chains.
pub const MAX_CHAIN: usize = 10_000;

/// How a free list ends.
pub enum ChainEnd {
    /// With a null link.
    Clean,
    /// A node came up again, or there were more than [`MAX_CHAIN`].
    Cycle,
    /// The link stored at this address could not be read.
    Unreadable(u64),
}

/// The pointer that a link stored at `location` stands for.
pub open spec fn revealed(safe_linking: bool, location: u64, stored: u64) -> u64 {
    if safe_linking {
        (location >> 12) ^ stored
    } else {
        stored
    }
}

/// The nodes of the free list from `node` on, in order, and how it ends. The
/// link of a node is stored `link_off` behind it; `visited` are the `count`
/// nodes before.
pub open spec fn chain_from<M: MemReader>(
    mem: &M,
    safe_linking: bool,
    link_off: u64,
    node: u64,
    visited: Set<u64>,
    count: nat,
) -> (Seq<u64>, ChainEnd)
    decreases MAX_CHAIN - count,
{
    if count >= MAX_CHAIN || visited.contains(node) {
        (Seq::empty(), ChainEnd::Cycle)
    } else {
        let slot = node.wrapping_add(link_off);
        match mem.word_at(slot) {
            Err(_) => (seq![node], ChainEnd::Unreadable(slot)),
            Ok(stored) => {
                let next = revealed(safe_linking, slot, stored);
                if next == 0 {
                    (seq![node], ChainEnd::Clean)
                } else {
                    let rest = chain_from(
                        mem,
                        safe_linking,
                        link_off,
                        next,
                        visited.insert(node),
                        count + 1,
                    );
                    (seq![node] + rest.0, rest.1)
                }
            },
        }
    }
}

/// The free list that starts with the pointer `head`; a null head is an empty
/// list.
pub open spec fn chain<M: MemReader>(mem: &M, safe_linking: bool, link_off: u64, head: u64) -> (
    Seq<u64>,
    ChainEnd,
) {
    if head == 0 {
        (Seq::empty(), ChainEnd::Clean)
    } else {
        chain_from(mem, safe_linking, link_off, head, Set::empty(), 0)
    }
}

/// The chunks of a fastbin.
pub open spec fn fastbin_chain<M: MemReader>(mem: &M, layout: &DetectedLayout, head: u64) -> (
    Seq<u64>,
    ChainEnd,
) {
    chain(mem, layout.capabilities.has_safe_linking, (2 * layout.word_size) as u64, head)
}

/// Payload size of the chunks that bin `i` is for.
pub open spec fn bin_size(layout: &DetectedLayout, i: u32) -> u64 {
    (layout.minsize - layout.header_size + i * layout.malloc_alignment) as u64
}

/// What a fastbin walk reports of a chain's end.
pub open spec fn end_problems(end: ChainEnd, arena: u32, bin_index: u32) -> Seq<
    problem::ProblemView,
> {
    match end {
        ChainEnd::Clean => Seq::empty(),
        ChainEnd::Cycle => seq![problem::ProblemView::FastbinCycleDetected { arena, bin_index }],
        ChainEnd::Unreadable(slot) => seq![
            problem::ProblemView::FastbinChunkReadFailed {
                arena,
                bin_index,
                address: text::hex(slot as nat),
            },
        ],
    }
}

/// Nominal payload size of chunks in fastbin `i`.
pub fn fastbin_index_to_size(layout: &DetectedLayout, i: u32) -> (size: u64)
    requires
        layout.header_size <= layout.minsize,
    ensures
        size == bin_size(layout, i),
{
    assert(i * layout.malloc_alignment <= 0xffff_ffff * 0xffff_ffff) by (nonlinear_arith)
        requires
            i <= 0xffff_ffff,
            layout.malloc_alignment <= 0xffff_ffff,
    ;
    layout.minsize as u64 - layout.header_size as u64 + (i as u64) * (
    layout.malloc_alignment as u64)
}

#[derive(Debug, Clone, Copy)]
pub struct FastbinBinResult {
    pub index: u32,
    pub size: u64,
    pub count: u64,
}

/// Walk one fastbin from `head` (a chunk pointer). `head == 0` is an empty bin.
pub fn walk_fastbin<M: MemReader>(
    mem: &M,
    layout: &DetectedLayout,
    head: u64,
    arena_index: u32,
    bin_index: u32,
) -> (r: (FastbinBinResult, Vec<Problem>))
    requires
        layout.header_size <= layout.minsize,
    ensures
        r.0.index == bin_index,
        r.0.size == bin_size(layout, bin_index),
        r.0.count == fastbin_chain(mem, layout, head).0.len(),
        problem::views(r.1@) == end_problems(
            fastbin_chain(mem, layout, head).1,
            arena_index,
            bin_index,
        ),
{
    broadcast use vstd::std_specs::hash::group_hash_axioms;

    let mut result = FastbinBinResult {
        index: bin_index,
        size: fastbin_index_to_size(layout, bin_index),
        count: 0,
    };
    if head == 0 {
        return (result, problem::none());
    }
    let fd_offset: u64 = 2 * (layout.word_size as u64);
    let safe: bool = layout.capabilities.has_safe_linking;
    let mut visited: HashSet<u64> = HashSet::new();
    let mut current: u64 = head;
    let ghost whole = fastbin_chain(mem, layout, head);
    assert(visited@ =~= Set::empty());
    loop
        invariant
            result.index == bin_index,
            result.size == bin_size(layout, bin_index),
            result.count <= MAX_CHAIN,
            fd_offset == 2 * layout.word_size,
            safe == layout.capabilities.has_safe_linking,
            whole == fastbin_chain(mem, layout, head),
            ({
                let rest = chain_from(
                    mem,
                    safe,
                    fd_offset,
                    current,
                    visited@,
                    result.count as nat,
                );
                whole.0.len() == result.count + rest.0.len() && whole.1 == rest.1
            }),
        decreases MAX_CHAIN - result.count,
    {
        broadcast use vstd::std_specs::hash::group_hash_axioms;

        if result.count >= MAX_CHAIN as u64 || !visited.insert(current) {
            let cycle = Problem::FastbinCycleDetected { arena: arena_index, bin_index };
            return (result, problem::one(cycle));
        }
        result.count = result.count + 1;
        let fd_slot: u64 = current.wrapping_add(fd_offset);
        let stored: u64 = match mem.read_u64(fd_slot) {
            Ok(v) => v,
            Err(_) => {
                let failed = Problem::FastbinChunkReadFailed {
                    arena: arena_index,
                    bin_index,
                    address: text::hex_string(fd_slot),
                };
                return (result, problem::one(failed));
            },
        };
        let next: u64 = reveal_link(layout, fd_slot, stored);
        if next == 0 {
            return (result, problem::none());
        }
        current = next;
    }
}

/// Undo safe-linking for a pointer stored at `location`, when the target glibc
/// uses it. The location, not the value, is the XOR key.
pub fn reveal_link(layout: &DetectedLayout, location: u64, stored: u64) -> (pointer: u64)
    ensures
        pointer == revealed(layout.capabilities.has_safe_linking, location, stored),
{
    if layout.capabilities.has_safe_linking {
        (location >> 12) ^ stored
    } else {
        stored
    }
}

/// Revealing a link undoes protecting it: the same key takes a pointer to what
/// is stored and back.
pub proof fn law_revealing_is_an_involution(safe_linking: bool, location: u64, pointer: u64)
    ensures
        revealed(safe_linking, location, revealed(safe_linking, location, pointer)) == pointer,
{
    let key: u64 = location >> 12;
    assert(key ^ (key ^ pointer) == pointer) by (bit_vector);
}

proof fn lemma_chain_from_shape<M: MemReader>(
    mem: &M,
    safe_linking: bool,
    link_off: u64,
    node: u64,
    visited: Set<u64>,
    count: nat,
)
    requires
        count <= MAX_CHAIN,
        node != 0,
    ensures
        ({
            let r = chain_from(mem, safe_linking, link_off, node, visited, count);
            &&& r.0.no_duplicates()
            &&& forall|i: int|
                0 <= i < r.0.len() ==> (#[trigger] r.0[i]) != 0 && !visited.contains(r.0[i])
            &&& r.0.len() + count <= MAX_CHAIN
        }),
    decreases MAX_CHAIN - count,
{
    if count < MAX_CHAIN && !visited.contains(node) {
        let slot = node.wrapping_add(link_off);
        if let Ok(stored) = mem.word_at(slot) {
            let next = revealed(safe_linking, slot, stored);
            if next != 0 {
                let more = visited.insert(node);
                lemma_chain_from_shape(mem, safe_linking, link_off, next, more, count + 1);
                let rest = chain_from(mem, safe_linking, link_off, next, more, count + 1).0;
                let all = seq![node] + rest;
                assert forall|i: int, j: int|
                    0 <= i < all.len() && 0 <= j < all.len() && i != j implies all[i] != all[j] by {
                    if i > 0 {
                        assert(rest[i - 1] == all[i]);
                    }
                    if j > 0 {
                        assert(rest[j - 1] == all[j]);
                    }
                }
                assert forall|i: int| 0 <= i < all.len() implies (#[trigger] all[i]) != 0
                    && !visited.contains(all[i]) by {
                    if i > 0 {
                        assert(rest[i - 1] == all[i]);
                    }
                }
            }
        }
    }
}

/// However a free list is linked, its walk meets no node twice, no null node,
/// and at most [`MAX_CHAIN`] nodes.
pub proof fn law_chain_nodes_are_distinct<M: MemReader>(
    mem: &M,
    safe_linking: bool,
    link_off: u64,
    head: u64,
)
    ensures
        ({
            let nodes = chain(mem, safe_linking, link_off, head).0;
            &&& nodes.no_duplicates()
            &&& nodes.len() <= MAX_CHAIN
            &&& forall|i: int| 0 <= i < nodes.len() ==> (#[trigger] nodes[i]) != 0
        }),
{
    if head != 0 {
        lemma_chain_from_shape(mem, safe_linking, link_off, head, Set::empty(), 0);
    }
}

} // verus!
