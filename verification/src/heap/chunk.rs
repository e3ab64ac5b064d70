//! Chunk header bits.
//!
//! A glibc chunk's size field packs three flags into its low bits; the size
//! itself is always a multiple of `2 * word` so those bits are free.

use vstd::prelude::*;

verus! {

pub const PREV_INUSE: u64 = 1;

pub const IS_MMAPPED: u64 = 2;

pub const NON_MAIN_ARENA: u64 = 4;

/// The size in a raw size field: what is left without the low three bits.
pub open spec fn size_of(raw_size_field: u64) -> u64 {
    (raw_size_field - raw_size_field % 8) as u64
}

/// The chunk size with the three flag bits masked off.
pub fn chunk_size(raw_size_field: u64) -> (size: u64)
    ensures
        size == size_of(raw_size_field),
        size % 8 == 0,
        size <= raw_size_field < size + 8,
{
    let size: u64 = raw_size_field & !0x7;
    assert(size == raw_size_field - raw_size_field % 8 && size % 8 == 0) by (bit_vector)
        requires
            size == raw_size_field & !0x7,
    ;
    size
}

/// Whatever the three flags say, the size is read back as it was packed.
pub proof fn law_flags_do_not_reach_size(size: u64, flags: u64)
    requires
        size % 8 == 0,
        flags < 8,
    ensures
        size_of(size | flags) == size,
{
    let raw: u64 = size | flags;
    assert(raw - raw % 8 == size) by (bit_vector)
        requires
            raw == size | flags,
            size % 8 == 0,
            flags < 8,
    ;
}

} // verus!
