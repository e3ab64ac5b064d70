//! `struct malloc_state` field offsets.
//!
//! These assume the glibc ≥ 2.27 layout (`malloc/malloc.c`), where
//! `have_fastchunks` sits between `flags` and `fastbinsY`. On 64-bit that puts
//! `fastbinsY` at 16, `top` right after the 10-entry fastbin array at 96, and
//! `next` after `bins[254]` + `binmap[4]` at 2160.

use vstd::prelude::*;

verus! {

pub struct MallocStateOffsets {
    pub top: u32,
    pub next: u32,
    pub fastbin_array: u32,
    pub fastbin_count: u32,
}

/// The offsets for a word size.
pub open spec fn offsets(word_size: u32) -> MallocStateOffsets {
    if word_size == 8 {
        MallocStateOffsets { top: 96, next: 2160, fastbin_array: 16, fastbin_count: 10 }
    } else {
        MallocStateOffsets { top: 56, next: 1096, fastbin_array: 12, fastbin_count: 11 }
    }
}

impl MallocStateOffsets {
    pub fn new(word_size: u32) -> (o: Self)
        ensures
            o == offsets(word_size),
    {
        if word_size == 8 {
            MallocStateOffsets { top: 96, next: 2160, fastbin_array: 16, fastbin_count: 10 }
        } else {
            MallocStateOffsets { top: 56, next: 1096, fastbin_array: 12, fastbin_count: 11 }
        }
    }
}

} // verus!
