//! ELF and core-dump parsing.
//!
//! All addresses resolved through [`MemReader::read_u64`] go via the `PT_LOAD`
//! table, so a value that lived at a virtual address in the crashed process can
//! be read straight out of the core.

use vstd::prelude::*;

use crate::error::Result;

pub mod core_laws;
pub mod coredump;
pub mod image;
pub mod image_laws;
pub mod note_laws;
pub mod notes;

pub use image::{Elf, Image};

verus! {

/// Read access to process memory by virtual address.
///
/// The heap walkers only ever need to read a word at an address, so they take
/// this rather than a concrete ELF view. In production it's backed by the
/// core's `PT_LOAD` segments; in tests a synthetic address→word map stands in,
/// which is how the chunk/fastbin/tcache traversals are exercised without a real
/// dump.
pub trait MemReader {
    /// The word at `addr`, or why there is none.
    spec fn word_at(&self, addr: u64) -> std::result::Result<u64, crate::error::ErrorView>;

    /// Start address of the mapped segment containing `addr`.
    spec fn segment_at(&self, addr: u64) -> Option<u64>;

    fn read_u64(&self, addr: u64) -> (r: Result<u64>)
        ensures
            crate::error::outcome(r) == self.word_at(addr),
    ;

    /// Start address of the mapped segment containing `addr`, or `None`. Used by
    /// the main-arena heap walk to tell whether `sbrk_base` is mapped and, on
    /// aarch64, to fall back to the segment holding `top`.
    fn segment_start(&self, addr: u64) -> (r: Option<u64>)
        ensures
            r == self.segment_at(addr),
    ;
}

/// The number that the `n` bytes from `off` on spell, least significant first.
pub open spec fn le_at(s: Seq<u8>, off: int, n: nat) -> int
    decreases n,
{
    if n == 0 {
        0
    } else {
        s[off] + 256 * le_at(s, off + 1, (n - 1) as nat)
    }
}

/// The little-endian `u16` at `off`, where the bytes reach that far.
pub open spec fn u16_le_at(s: Seq<u8>, off: int) -> Option<u16> {
    if 0 <= off && off + 2 <= s.len() {
        Some(le_at(s, off, 2) as u16)
    } else {
        None
    }
}

/// The little-endian `u32` at `off`, where the bytes reach that far.
pub open spec fn u32_le_at(s: Seq<u8>, off: int) -> Option<u32> {
    if 0 <= off && off + 4 <= s.len() {
        Some(le_at(s, off, 4) as u32)
    } else {
        None
    }
}

/// The little-endian `u64` at `off`, where the bytes reach that far.
pub open spec fn u64_le_at(s: Seq<u8>, off: int) -> Option<u64> {
    if 0 <= off && off + 8 <= s.len() {
        Some(le_at(s, off, 8) as u64)
    } else {
        None
    }
}

/// The machine word at `off`: eight bytes on a 64-bit target, otherwise four.
pub open spec fn word_le_at(s: Seq<u8>, off: int, is_64bit: bool) -> Option<u64> {
    if is_64bit {
        u64_le_at(s, off)
    } else {
        match u32_le_at(s, off) {
            Some(v) => Some(v as u64),
            None => None,
        }
    }
}

/// Four bytes spell a 32-bit number.
pub proof fn lemma_u32_range(s: Seq<u8>, off: int)
    ensures
        0 <= le_at(s, off, 4) <= u32::MAX,
{
    reveal_with_fuel(le_at, 5);
}

/// Little-endian `u32` at `off`, bounds-checked. Our targets (x86-64, aarch64)
/// are little-endian, and core dumps store data in target byte order.
pub fn read_u32_le(buf: &[u8], off: usize) -> (r: Option<u32>)
    ensures
        r == u32_le_at(buf@, off as int),
{
    if off > buf.len() || buf.len() - off < 4 {
        return None;
    }
    proof {
        reveal_with_fuel(le_at, 5);
    }
    let v: u32 = buf[off] as u32 + 0x100 * (buf[off + 1] as u32) + 0x1_0000 * (buf[off + 2] as u32)
        + 0x100_0000 * (buf[off + 3] as u32);
    Some(v)
}

/// Little-endian `u64` at `off`, bounds-checked.
pub fn read_u64_le(buf: &[u8], off: usize) -> (r: Option<u64>)
    ensures
        r == u64_le_at(buf@, off as int),
{
    if off > buf.len() || buf.len() - off < 8 {
        return None;
    }
    proof {
        reveal_with_fuel(le_at, 9);
    }
    let low: u64 = buf[off] as u64 + 0x100 * (buf[off + 1] as u64) + 0x1_0000 * (buf[off
        + 2] as u64) + 0x100_0000 * (buf[off + 3] as u64);
    let high: u64 = buf[off + 4] as u64 + 0x100 * (buf[off + 5] as u64) + 0x1_0000 * (buf[off
        + 6] as u64) + 0x100_0000 * (buf[off + 7] as u64);
    Some(low + 0x1_0000_0000 * high)
}

/// Little-endian `u16` at `off`, bounds-checked.
pub fn read_u16_le(buf: &[u8], off: usize) -> (r: Option<u16>)
    ensures
        r == u16_le_at(buf@, off as int),
{
    if off > buf.len() || buf.len() - off < 2 {
        return None;
    }
    proof {
        reveal_with_fuel(le_at, 3);
    }
    Some(buf[off] as u16 + 0x100 * (buf[off + 1] as u16))
}

/// A machine word, 8 bytes on 64-bit, 4 on 32-bit, zero-extended to `u64`.
pub fn read_word(buf: &[u8], off: usize, is_64bit: bool) -> (r: Option<u64>)
    ensures
        r == word_le_at(buf@, off as int, is_64bit),
{
    if is_64bit {
        read_u64_le(buf, off)
    } else {
        match read_u32_le(buf, off) {
            Some(v) => Some(v as u64),
            None => None,
        }
    }
}

/// Index of the first zero byte at or behind `i`, or the length where there is
/// none.
pub open spec fn nul_from(s: Seq<u8>, i: int) -> int
    decreases s.len() - i,
{
    if i < 0 || i >= s.len() {
        s.len() as int
    } else if s[i] == 0 {
        i
    } else {
        nul_from(s, i + 1)
    }
}

/// [`nul_from`] is what its name says: a zero, with none before it.
pub proof fn lemma_nul_from(s: Seq<u8>, i: int)
    requires
        0 <= i <= s.len(),
    ensures
        i <= nul_from(s, i) <= s.len(),
        nul_from(s, i) < s.len() ==> s[nul_from(s, i)] == 0,
        forall|k: int| i <= k < nul_from(s, i) ==> s[k] != 0,
    decreases s.len() - i,
{
    if i < s.len() && s[i] != 0 {
        lemma_nul_from(s, i + 1);
    }
}

/// Index of the first zero byte at or behind `start`, if there is one.
pub fn find_nul(buf: &[u8], start: usize) -> (r: Option<usize>)
    requires
        start <= buf@.len(),
    ensures
        r matches Some(nul) ==> nul == nul_from(buf@, start as int) && nul < buf@.len(),
        r is None ==> nul_from(buf@, start as int) == buf@.len(),
{
    let mut i: usize = start;
    while i < buf.len()
        invariant
            start <= i <= buf@.len(),
            nul_from(buf@, i as int) == nul_from(buf@, start as int),
        decreases buf@.len() - i,
    {
        if buf[i] == 0 {
            return Some(i);
        }
        i = i + 1;
    }
    None
}

} // verus!
