//! Per-thread tcache traversal.
//!
//! tcache is thread-local: the `tcache_perthread_struct` is reached through the
//! thread's TLS block, and its `entries[i]` point at *user* addresses (a
//! tcache_entry's `next` is at offset 0 of the payload). Like fastbins the chain
//! is safe-linked on glibc ≥ 2.32, revealed with the storage location as key.

use std::collections::HashSet;

use vstd::prelude::*;

use crate::elf::MemReader;
use crate::error;
use crate::error::Result;
use crate::glibc::DetectedLayout;
use crate::problem;
use crate::problem::Problem;
use crate::text;

use super::fastbin;
use super::fastbin::{fastbin_index_to_size, reveal_link, ChainEnd, MAX_CHAIN};

verus! {

/// Nominal payload size of chunks in tcache bin `i`.
pub fn tcache_index_to_size(layout: &DetectedLayout, i: u32) -> (size: u64)
    requires
        layout.header_size <= layout.minsize,
    ensures
        size == fastbin::bin_size(layout, i),
{
    fastbin_index_to_size(layout, i)
}

/// The value of the TLS variable at `var_offset` of a thread: the word at
/// `thread_tp + libc_tp_offset + var_offset`, where `libc_tp_offset` is stored at
/// the target of the TP-offset relocation; zero without such a relocation.
pub open spec fn tls_var<M: MemReader>(
    mem: &M,
    layout: &DetectedLayout,
    libc_addr: u64,
    thread_tp: u64,
    var_offset: u64,
) -> std::result::Result<u64, error::ErrorView> {
    match layout.tp_off_reloc_addr {
        None => Ok(0),
        Some(reloc) => match mem.word_at(libc_addr.wrapping_add(reloc)) {
            Err(e) => Err(e),
            Ok(tp_offset) => mem.word_at(
                thread_tp.wrapping_add(tp_offset).wrapping_add(var_offset),
            ),
        },
    }
}

/// Resolve a thread's `tcache_perthread_struct` address.
///
/// `Ok(0)` means the thread has no tcache yet (not an error); `Err` is a read
/// failure the caller turns into `ThreadTlsResolutionFailed`. The `Ok(0)` on a
/// missing relocation avoids reading a bogus offset.
pub fn tcache_ptr<M: MemReader>(
    mem: &M,
    layout: &DetectedLayout,
    libc_addr: u64,
    thread_tp: u64,
) -> (r: Result<u64>)
    ensures
        error::outcome(r) == tls_var(mem, layout, libc_addr, thread_tp, layout.tcache.value),
{
    read_tls_var(mem, layout, libc_addr, thread_tp, layout.tcache.value)
}

/// Resolve a thread's current `thread_arena` (a `malloc_state` address). Same
/// shape as [`tcache_ptr`], reaching a different TLS variable.
pub fn read_thread_arena<M: MemReader>(
    mem: &M,
    layout: &DetectedLayout,
    libc_addr: u64,
    thread_tp: u64,
) -> (r: Result<u64>)
    ensures
        error::outcome(r) == tls_var(mem, layout, libc_addr, thread_tp, layout.thread_arena.value),
{
    read_tls_var(mem, layout, libc_addr, thread_tp, layout.thread_arena.value)
}

fn read_tls_var<M: MemReader>(
    mem: &M,
    layout: &DetectedLayout,
    libc_addr: u64,
    thread_tp: u64,
    var_offset: u64,
) -> (r: Result<u64>)
    ensures
        error::outcome(r) == tls_var(mem, layout, libc_addr, thread_tp, var_offset),
{
    let reloc: u64 = match layout.tp_off_reloc_addr {
        Some(reloc) => reloc,
        None => return Ok(0),
    };
    let libc_tp_offset: u64 = match mem.read_u64(libc_addr.wrapping_add(reloc)) {
        Ok(v) => v,
        Err(e) => return Err(e),
    };
    // Adding real runtime addresses/offsets read from the core; the sum was a
    // live virtual address, and the read that follows validates the mapping.
    let addr: u64 = thread_tp.wrapping_add(libc_tp_offset).wrapping_add(var_offset);
    mem.read_u64(addr)
}

#[derive(Debug)]
pub struct TcacheBinResult {
    pub index: u32,
    pub size: u64,
    pub user_addrs: Vec<u64>,
}

/// The entries of a tcache bin.
pub open spec fn tcache_chain<M: MemReader>(mem: &M, layout: &DetectedLayout, head: u64) -> (
    Seq<u64>,
    ChainEnd,
) {
    fastbin::chain(mem, layout.capabilities.has_safe_linking, 0, head)
}

/// What a tcache walk reports of a chain's end.
pub open spec fn end_problems(end: ChainEnd, thread_id: i32, bin_index: u32) -> Seq<
    problem::ProblemView,
> {
    match end {
        ChainEnd::Clean => Seq::empty(),
        ChainEnd::Cycle => seq![problem::ProblemView::TcacheCycleDetected { thread_id, bin_index }],
        ChainEnd::Unreadable(slot) => seq![
            problem::ProblemView::TcacheChunkReadFailed {
                thread_id,
                bin_index,
                address: text::hex(slot as nat),
            },
        ],
    }
}

/// Walk one tcache bin from `head` (a user address). `head == 0` is empty.
pub fn walk_tcache_bin<M: MemReader>(
    mem: &M,
    layout: &DetectedLayout,
    head: u64,
    thread_id: i32,
    bin_index: u32,
) -> (r: (TcacheBinResult, Vec<Problem>))
    requires
        layout.header_size <= layout.minsize,
    ensures
        r.0.index == bin_index,
        r.0.size == fastbin::bin_size(layout, bin_index),
        r.0.user_addrs@ == tcache_chain(mem, layout, head).0,
        problem::views(r.1@) == end_problems(
            tcache_chain(mem, layout, head).1,
            thread_id,
            bin_index,
        ),
{
    broadcast use vstd::std_specs::hash::group_hash_axioms;

    let size: u64 = tcache_index_to_size(layout, bin_index);
    let mut user_addrs: Vec<u64> = Vec::new();
    if head == 0 {
        return (TcacheBinResult { index: bin_index, size, user_addrs }, problem::none());
    }
    let safe: bool = layout.capabilities.has_safe_linking;
    let mut visited: HashSet<u64> = HashSet::new();
    let mut cur: u64 = head;
    let ghost whole = tcache_chain(mem, layout, head);
    assert(visited@ =~= Set::empty());
    assert(user_addrs@ + whole.0 =~= whole.0);
    loop
        invariant
            size == fastbin::bin_size(layout, bin_index),
            user_addrs@.len() <= MAX_CHAIN,
            safe == layout.capabilities.has_safe_linking,
            whole == tcache_chain(mem, layout, head),
            ({
                let rest = fastbin::chain_from(
                    mem,
                    safe,
                    0,
                    cur,
                    visited@,
                    user_addrs@.len(),
                );
                whole.0 == user_addrs@ + rest.0 && whole.1 == rest.1
            }),
        decreases MAX_CHAIN - user_addrs@.len(),
    {
        broadcast use vstd::std_specs::hash::group_hash_axioms;

        let ghost here = fastbin::chain_from(mem, safe, 0, cur, visited@, user_addrs@.len());
        let ghost before = user_addrs@;
        if user_addrs.len() >= MAX_CHAIN || !visited.insert(cur) {
            let cycle = Problem::TcacheCycleDetected { thread_id, bin_index };
            assert(user_addrs@ + here.0 =~= user_addrs@);
            return (
                TcacheBinResult { index: bin_index, size, user_addrs },
                problem::one(cycle),
            );
        }
        user_addrs.push(cur);
        assert(before + seq![cur] =~= user_addrs@);
        assert(cur.wrapping_add(0) == cur);
        let stored: u64 = match mem.read_u64(cur) {
            Ok(v) => v,
            Err(_) => {
                let failed = Problem::TcacheChunkReadFailed {
                    thread_id,
                    bin_index,
                    address: text::hex_string(cur),
                };
                return (
                    TcacheBinResult { index: bin_index, size, user_addrs },
                    problem::one(failed),
                );
            },
        };
        // The next pointer is stored *at* the current entry, so `cur` is the key.
        let next: u64 = reveal_link(layout, cur, stored);
        if next == 0 {
            return (TcacheBinResult { index: bin_index, size, user_addrs }, problem::none());
        }
        let ghost node = cur;
        cur = next;
        proof {
            let rest = fastbin::chain_from(mem, safe, 0, cur, visited@, user_addrs@.len());
            assert(here.0 == seq![node] + rest.0);
            assert(before + here.0 =~= user_addrs@ + rest.0);
        }
    }
}

} // verus!
