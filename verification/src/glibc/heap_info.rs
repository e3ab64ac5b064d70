//! `struct _heap_info` layout, the per-heap header of a non-main arena.
//!
//! ```c
//! typedef struct _heap_info {
//!     mstate ar_ptr;               // 0
//!     struct _heap_info *prev;     // 1 word
//!     size_t size;                 // 2 words
//!     size_t mprotect_size;        // 3 words
//!     // padding to MALLOC_ALIGNMENT; +1 word when THP support is compiled in
//! } heap_info;
//! ```

use vstd::prelude::*;

verus! {

pub struct HeapInfoOffsets {
    pub ar_ptr: u32,
    pub prev: u32,
    pub size: u32,
    pub mprotect_size: u32,
    /// `sizeof(_heap_info)` after alignment padding: the first chunk of a heap
    /// starts this many bytes in.
    pub sizeof: u32,
    /// Alignment/size a secondary heap is reserved and masked to.
    pub heap_max_size: u64,
}

/// The least multiple of `align` that is not below `value`.
pub open spec fn aligned_up(value: int, align: int) -> int
    recommends
        align > 0,
{
    ((value + align - 1) / align) * align
}

/// The offsets for a word size. Words follow one another; the size covers the
/// four (with THP support, five) words and is padded to two words on a 64-bit
/// target, otherwise to eight bytes.
pub open spec fn offsets(word_size: u32, has_hugepage: bool) -> HeapInfoOffsets {
    let fields: int = if has_hugepage {
        5
    } else {
        4
    };
    HeapInfoOffsets {
        ar_ptr: 0,
        prev: word_size,
        size: (2 * word_size) as u32,
        mprotect_size: (3 * word_size) as u32,
        sizeof: aligned_up(
            fields * word_size,
            if word_size == 8 {
                16
            } else {
                8
            },
        ) as u32,
        heap_max_size: if word_size == 8 {
            0x400_0000
        } else {
            0x10_0000
        },
    }
}

impl HeapInfoOffsets {
    pub fn new(word_size: u32, has_hugepage: bool) -> (o: Self)
        requires
            5 * word_size + 15 <= u32::MAX,
        ensures
            o == offsets(word_size, has_hugepage),
    {
        let w: u32 = word_size;
        let malloc_alignment: u32 = if w == 8 {
            16
        } else {
            8
        };
        // THP builds carry one extra field before the tail padding.
        let base: u32 = if has_hugepage {
            5 * w
        } else {
            4 * w
        };
        HeapInfoOffsets {
            ar_ptr: 0,
            prev: w,
            size: 2 * w,
            mprotect_size: 3 * w,
            sizeof: align_up(base, malloc_alignment),
            heap_max_size: if w == 8 {
                64u64 * 0x10_0000
            } else {
                0x10_0000
            },
        }
    }
}

/// Round `value` up by masking with `align`, a power of two. An alignment of
/// zero leaves the value as it is. For the two malloc alignments the result is
/// the least multiple not below the value.
pub fn align_up(value: u32, align: u32) -> (r: u32)
    requires
        align == 0 || value + (align - 1) <= u32::MAX,
    ensures
        align == 0 ==> r == value,
        align > 0 ==> r == ((value + (align - 1)) as u32) & !((align - 1) as u32),
        align == 8 || align == 16 ==> r == aligned_up(value as int, align as int),
{
    if align == 0 {
        value
    } else {
        let sum: u32 = value + (align - 1);
        assert(sum & !7u32 == (sum / 8) * 8) by (bit_vector);
        assert(sum & !15u32 == (sum / 16) * 16) by (bit_vector);
        sum & !(align - 1)
    }
}

} // verus!
