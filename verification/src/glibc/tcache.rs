//! `struct tcache_perthread_struct` layout.
//!
//! ```c
//! typedef struct tcache_perthread_struct {
//!     uint16_t counts[TCACHE_MAX_BINS];
//!     tcache_entry *entries[TCACHE_MAX_BINS];
//! } tcache_perthread_struct;
//! ```

use vstd::prelude::*;

verus! {

/// `TCACHE_MAX_BINS`, the length of the `entries[]` array. This is the number
/// of bins we iterate. glibc's runtime `mp_.tcache_bins` may be smaller, but
/// unused bins have a null `entries[]` slot and are skipped as empty, so walking
/// the full array gives the same result without an extra read.
pub const TCACHE_MAX_BINS: u32 = 64;

pub struct TcacheOffsets {
    /// Offset of `entries[]`, i.e. `sizeof(counts)` = `TCACHE_MAX_BINS * 2`.
    pub entries: u32,
    pub max_bins: u32,
}

impl TcacheOffsets {
    pub fn new() -> (o: Self)
        ensures
            o.entries == 128,
            o.max_bins == 64,
    {
        TcacheOffsets { entries: TCACHE_MAX_BINS * 2, max_bins: TCACHE_MAX_BINS }
    }
}

} // verus!
