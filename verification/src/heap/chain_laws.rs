//! What the nodes of a free list are, in terms of the words in memory.

use vstd::prelude::*;

use crate::elf::MemReader;
use crate::error;
use crate::glibc::DetectedLayout;

use super::fastbin;
use super::fastbin::ChainEnd;
use super::tcache;

verus! {

/// The link of a node leads to `next`: the word stored `link_off` behind the node is
/// that pointer or, where links are protected, that pointer with the number of the
/// page that the word is in mixed in.
pub open spec fn links_to<M: MemReader>(
    mem: &M,
    safe_linking: bool,
    link_off: u64,
    node: u64,
    next: u64,
) -> bool {
    let slot = node.wrapping_add(link_off);
    mem.word_at(slot) == Ok::<u64, error::ErrorView>(
        if safe_linking {
            next ^ (slot / 4096)
        } else {
            next
        },
    )
}

/// How the list behind the last of its `nodes` goes on, where it ends this way.
/// `before` are nodes that were met earlier, `count` of them.
pub open spec fn ends_with<M: MemReader>(
    mem: &M,
    safe_linking: bool,
    link_off: u64,
    nodes: Seq<u64>,
    end: ChainEnd,
    before: Set<u64>,
    count: nat,
) -> bool {
    match end {
        ChainEnd::Clean => links_to(mem, safe_linking, link_off, nodes.last(), 0),
        ChainEnd::Unreadable(slot) => slot == nodes.last().wrapping_add(link_off) && mem.word_at(
            slot,
        ) is Err,
        ChainEnd::Cycle => exists|next: u64|
            {
                &&& #[trigger] links_to(mem, safe_linking, link_off, nodes.last(), next)
                &&& next != 0
                &&& count + nodes.len() == 10_000 || before.contains(next) || nodes.contains(
                    next,
                )
            },
    }
}

/// These are the nodes that links lead to from `head` on, each once, as far as they
/// can be followed, and this is how they end.
pub open spec fn is_free_list<M: MemReader>(
    mem: &M,
    safe_linking: bool,
    link_off: u64,
    head: u64,
    nodes: Seq<u64>,
    end: ChainEnd,
) -> bool {
    if head == 0 {
        nodes.len() == 0 && end is Clean
    } else {
        &&& 0 < nodes.len() <= 10_000
        &&& nodes[0] == head
        &&& forall|i: int|
            0 < i < nodes.len() ==> links_to(
                mem,
                safe_linking,
                link_off,
                nodes[i - 1],
                #[trigger] nodes[i],
            )
        &&& forall|i: int| 0 <= i < nodes.len() ==> #[trigger] nodes[i] != 0
        &&& nodes.no_duplicates()
        &&& ends_with(mem, safe_linking, link_off, nodes, end, Set::empty(), 0)
    }
}

proof fn lemma_revealed(safe_linking: bool, location: u64, stored: u64)
    ensures
        stored == if safe_linking {
            fastbin::revealed(safe_linking, location, stored) ^ (location / 4096)
        } else {
            fastbin::revealed(safe_linking, location, stored)
        },
{
    assert(((location >> 12) ^ stored) ^ (location / 4096) == stored) by (bit_vector);
}

proof fn lemma_followed<M: MemReader>(
    mem: &M,
    safe_linking: bool,
    link_off: u64,
    node: u64,
    visited: Set<u64>,
    count: nat,
)
    requires
        count <= 10_000,
        node != 0,
    ensures
        ({
            let r = fastbin::chain_from(mem, safe_linking, link_off, node, visited, count);
            if r.0.len() == 0 {
                r.1 is Cycle && (count == 10_000 || visited.contains(node))
            } else {
                &&& r.0[0] == node
                &&& forall|i: int|
                    0 < i < r.0.len() ==> links_to(
                        mem,
                        safe_linking,
                        link_off,
                        r.0[i - 1],
                        #[trigger] r.0[i],
                    )
                &&& ends_with(mem, safe_linking, link_off, r.0, r.1, visited, count)
            }
        }),
    decreases 10_000 - count,
{
    let r = fastbin::chain_from(mem, safe_linking, link_off, node, visited, count);
    if count < 10_000 && !visited.contains(node) {
        let slot = node.wrapping_add(link_off);
        if let Ok(stored) = mem.word_at(slot) {
            let next = fastbin::revealed(safe_linking, slot, stored);
            lemma_revealed(safe_linking, slot, stored);
            assert(links_to(mem, safe_linking, link_off, node, next));
            if next != 0 {
                let more = visited.insert(node);
                lemma_followed(mem, safe_linking, link_off, next, more, count + 1);
                let rest = fastbin::chain_from(
                    mem,
                    safe_linking,
                    link_off,
                    next,
                    more,
                    count + 1,
                );
                assert(r.0 == seq![node] + rest.0);
                assert(r.0[0] == node);
                if rest.0.len() == 0 {
                    assert(r.0.last() == node);
                } else {
                    assert(r.0.last() == rest.0.last());
                    assert forall|i: int| 0 < i < r.0.len() implies links_to(
                        mem,
                        safe_linking,
                        link_off,
                        r.0[i - 1],
                        #[trigger] r.0[i],
                    ) by {
                        assert(r.0[i] == rest.0[i - 1]);
                        if i > 1 {
                            assert(r.0[i - 1] == rest.0[i - 2]);
                            assert(links_to(
                                mem,
                                safe_linking,
                                link_off,
                                rest.0[i - 2],
                                rest.0[i - 1],
                            ));
                        }
                    }
                    if rest.1 is Cycle {
                        let to = choose|to: u64|
                            {
                                &&& #[trigger] links_to(
                                    mem,
                                    safe_linking,
                                    link_off,
                                    rest.0.last(),
                                    to,
                                )
                                &&& to != 0
                                &&& count + 1 + rest.0.len() == 10_000 || more.contains(to)
                                    || rest.0.contains(to)
                            };
                        assert(links_to(mem, safe_linking, link_off, r.0.last(), to));
                        if rest.0.contains(to) {
                            let k = choose|k: int| 0 <= k < rest.0.len() && rest.0[k] == to;
                            assert(r.0[k + 1] == to);
                        }
                    }
                }
            }
        }
    }
}

/// A free list is followed as it is linked in memory: from its head, by each node's
/// link to the next, until a null link, a link that cannot be read, a node that came
/// up before or the limit.
pub proof fn law_links_are_followed<M: MemReader>(
    mem: &M,
    safe_linking: bool,
    link_off: u64,
    head: u64,
)
    ensures
        ({
            let r = fastbin::chain(mem, safe_linking, link_off, head);
            is_free_list(mem, safe_linking, link_off, head, r.0, r.1)
        }),
{
    fastbin::law_chain_nodes_are_distinct(mem, safe_linking, link_off, head);
    if head != 0 {
        lemma_followed(mem, safe_linking, link_off, head, Set::empty(), 0);
    }
}

/// Chunks in a fastbin are linked two words behind where they start, entries of a
/// tcache bin where their payload starts; links are protected where the libc does so.
pub proof fn law_bins_are_linked<M: MemReader>(mem: &M, layout: &DetectedLayout, head: u64)
    ensures
        is_free_list(
            mem,
            layout.capabilities.has_safe_linking,
            (layout.word_size + layout.word_size) as u64,
            head,
            fastbin::fastbin_chain(mem, layout, head).0,
            fastbin::fastbin_chain(mem, layout, head).1,
        ),
        is_free_list(
            mem,
            layout.capabilities.has_safe_linking,
            0,
            head,
            tcache::tcache_chain(mem, layout, head).0,
            tcache::tcache_chain(mem, layout, head).1,
        ),
{
    law_links_are_followed(
        mem,
        layout.capabilities.has_safe_linking,
        (2 * layout.word_size) as u64,
        head,
    );
    law_links_are_followed(mem, layout.capabilities.has_safe_linking, 0, head);
}

/// The bins of a 64-bit libc hold payloads of 24 bytes and up in steps of 16, those
/// of a 32-bit libc of 12 bytes and up in steps of 8. Of any layout, the payload of a
/// bin and a header make up a chunk that is a step larger than those of the bin
/// before.
pub proof fn law_bin_sizes(layout: &DetectedLayout, i: u32)
    requires
        layout.header_size <= layout.minsize,
    ensures
        fastbin::bin_size(layout, i) + layout.header_size == layout.minsize + i
            * layout.malloc_alignment,
        layout.wf() && layout.word_size == 8 ==> fastbin::bin_size(layout, i) == 24 + 16 * i,
        layout.wf() && layout.word_size == 4 ==> fastbin::bin_size(layout, i) == 12 + 8 * i,
        i < u32::MAX ==> fastbin::bin_size(layout, (i + 1) as u32) == fastbin::bin_size(layout, i)
            + layout.malloc_alignment,
{
    let step = layout.malloc_alignment;
    assert(0 <= i * step <= 0xffff_ffff * 0xffff_ffff) by (nonlinear_arith)
        requires
            0 <= i <= 0xffff_ffff,
            0 <= step <= 0xffff_ffff,
    ;
    if i < u32::MAX {
        let j = i + 1;
        assert(j * step == i * step + step && j * step <= 0xffff_ffff * 0xffff_ffff)
            by (nonlinear_arith)
            requires
                j == i + 1,
                0 <= j <= 0xffff_ffff,
                0 <= step <= 0xffff_ffff,
        ;
    }
}

/// A value of thread-local storage is read by two words: the one at the target of the
/// relocation in the libc is the offset of its block from the thread pointer, and the
/// variable stands its own offset behind that. Nothing is read without a relocation.
pub proof fn law_thread_local_is_read_through_the_relocation<M: MemReader>(
    mem: &M,
    layout: &DetectedLayout,
    libc_addr: u64,
    thread_tp: u64,
    var_offset: u64,
)
    ensures
        ({
            let r = tcache::tls_var(mem, layout, libc_addr, thread_tp, var_offset);
            match layout.tp_off_reloc_addr {
                None => r == Ok::<u64, error::ErrorView>(0),
                Some(reloc) => {
                    let block = mem.word_at(libc_addr.wrapping_add(reloc));
                    if block is Err {
                        r == block
                    } else {
                        r == mem.word_at(
                            ((thread_tp + block->Ok_0 + var_offset) % 0x1_0000_0000_0000_0000) as u64,
                        )
                    }
                },
            }
        }),
{
    if let Some(reloc) = layout.tp_off_reloc_addr {
        if let Ok(block) = mem.word_at(libc_addr.wrapping_add(reloc)) {
            let a = thread_tp.wrapping_add(block);
            assert(a.wrapping_add(var_offset) == (thread_tp + block + var_offset)
                % 0x1_0000_0000_0000_0000);
        }
    }
}

} // verus!
