//! What is read at an address of an image, in terms of its program headers and the
//! bytes of the file.

use vstd::prelude::*;

use crate::error;

use super::image;
use super::image::{Elf, ProgramHeader};
use super::MemReader;

verus! {

/// The number that eight bytes spell, the first being the least significant.
pub open spec fn spelled(b: Seq<u8>, off: int) -> int {
    b[off] + 0x100 * b[off + 1] + 0x1_0000 * b[off + 2] + 0x100_0000 * b[off + 3] + 0x1_0000_0000
        * (b[off + 4] + 0x100 * b[off + 5] + 0x1_0000 * b[off + 6] + 0x100_0000 * b[off + 7])
}

/// Numbers are read least significant byte first, where all their bytes are there.
pub proof fn law_numbers_are_little_endian(b: Seq<u8>, off: int)
    ensures
        super::u16_le_at(b, off) is Some <==> 0 <= off <= b.len() - 2,
        super::u32_le_at(b, off) is Some <==> 0 <= off <= b.len() - 4,
        super::u64_le_at(b, off) is Some <==> 0 <= off <= b.len() - 8,
        super::u16_le_at(b, off) matches Some(v) ==> v == b[off] + 0x100 * b[off + 1],
        super::u32_le_at(b, off) matches Some(v) ==> v == b[off] + 0x100 * b[off + 1] + 0x1_0000
            * b[off + 2] + 0x100_0000 * b[off + 3],
        super::u64_le_at(b, off) matches Some(v) ==> v == spelled(b, off),
        super::word_le_at(b, off, true) == super::u64_le_at(b, off),
        super::word_le_at(b, off, false) is Some <==> super::u32_le_at(b, off) is Some,
        super::word_le_at(b, off, false) matches Some(v) ==> v == super::u32_le_at(b, off)->0,
{
    reveal_with_fuel(super::le_at, 9);
}

/// A loaded segment has the `len` bytes at `addr` in the file.
pub open spec fn loads(ph: ProgramHeader, elf: Elf<'_>, addr: u64, len: nat) -> bool {
    &&& ph.p_type == 1
    &&& ph.p_vaddr <= addr
    &&& addr + len <= ph.p_vaddr + ph.p_filesz
    &&& ph.p_offset + (addr - ph.p_vaddr) + len <= elf.data@.len()
}

/// Segment `k` is the first that has the `len` bytes at `addr`.
pub open spec fn loads_first(elf: Elf<'_>, addr: u64, len: nat, k: int) -> bool {
    let headers = elf.tables.program_headers@;
    &&& 0 <= k < headers.len()
    &&& loads(headers[k], elf, addr, len)
    &&& forall|j: int| 0 <= j < k ==> !loads(#[trigger] headers[j], elf, addr, len)
}

proof fn lemma_offset(elf: Elf<'_>, addr: u64, len: nat, i: int, k: int)
    requires
        0 <= i <= k,
        loads_first(elf, addr, len, k),
    ensures
        image::offset_from(elf.tables.program_headers@, i, elf.data@.len(), addr, len) == Some(
            elf.tables.program_headers@[k].p_offset + (addr
                - elf.tables.program_headers@[k].p_vaddr),
        ),
    decreases k - i,
{
    let headers = elf.tables.program_headers@;
    if i < k {
        assert(!loads(headers[i], elf, addr, len));
        lemma_offset(elf, addr, len, i + 1, k);
    }
}

proof fn lemma_no_offset(elf: Elf<'_>, addr: u64, len: nat, i: int)
    requires
        0 <= i,
        forall|j: int|
            i <= j < elf.tables.program_headers@.len() ==> !loads(
                #[trigger] elf.tables.program_headers@[j],
                elf,
                addr,
                len,
            ),
    ensures
        image::offset_from(elf.tables.program_headers@, i, elf.data@.len(), addr, len) is None,
    decreases elf.tables.program_headers@.len() - i,
{
    if i < elf.tables.program_headers@.len() {
        assert(!loads(elf.tables.program_headers@[i], elf, addr, len));
        lemma_no_offset(elf, addr, len, i + 1);
    }
}

/// What is read at an address is what the file holds for it in the first loaded
/// segment that has all the bytes; where none has, the address is called unmapped.
pub proof fn law_reads_are_the_bytes_of_the_file(elf: Elf<'_>, addr: u64, len: nat, k: int)
    ensures
        (forall|j: int|
            0 <= j < elf.tables.program_headers@.len() ==> !loads(
                #[trigger] elf.tables.program_headers@[j],
                elf,
                addr,
                len,
            )) ==> {
            &&& elf.bytes_at(addr, len) == Err::<Seq<u8>, error::ErrorView>(
                error::ErrorView::AddressNotMapped { addr },
            )
            &&& len == 8 ==> elf.word_at(addr) == Err::<u64, error::ErrorView>(
                error::ErrorView::AddressNotMapped { addr },
            )
        },
        loads_first(elf, addr, len, k) ==> ({
            let ph = elf.tables.program_headers@[k];
            let from = ph.p_offset + addr - ph.p_vaddr;
            &&& elf.bytes_at(addr, len) is Ok
            &&& elf.bytes_at(addr, len)->Ok_0.len() == len
            &&& forall|j: int|
                0 <= j < len ==> elf.bytes_at(addr, len)->Ok_0[j] == #[trigger] elf.data@[from + j]
            &&& len == 8 ==> elf.word_at(addr) is Ok && elf.word_at(addr)->Ok_0 == spelled(
                elf.data@,
                from,
            )
        }),
{
    if loads_first(elf, addr, len, k) {
        lemma_offset(elf, addr, len, 0, k);
        let ph = elf.tables.program_headers@[k];
        let from = ph.p_offset + addr - ph.p_vaddr;
        law_numbers_are_little_endian(elf.data@, from);
        let b = elf.data@.subrange(from, from + len);
        assert forall|j: int| 0 <= j < len implies b[j] == #[trigger] elf.data@[from + j] by {}
    }
    if forall|j: int|
        0 <= j < elf.tables.program_headers@.len() ==> !loads(
            #[trigger] elf.tables.program_headers@[j],
            elf,
            addr,
            len,
        ) {
        lemma_no_offset(elf, addr, len, 0);
    }
}

/// The bytes of a loaded segment that are in the file reach `addr`.
pub open spec fn reaches(ph: ProgramHeader, addr: u64) -> bool {
    &&& ph.p_type == 1
    &&& ph.p_vaddr <= addr < ph.p_vaddr + ph.p_filesz
    &&& ph.p_vaddr + ph.p_filesz <= u64::MAX
}

proof fn lemma_segment(headers: Seq<ProgramHeader>, addr: u64, i: int, k: int)
    requires
        0 <= i <= k < headers.len(),
        reaches(headers[k], addr),
        forall|j: int| 0 <= j < k ==> !reaches(#[trigger] headers[j], addr),
    ensures
        image::segment_from(headers, i, addr) == Some(
            (headers[k].p_vaddr, (headers[k].p_vaddr + headers[k].p_filesz) as u64),
        ),
    decreases k - i,
{
    if i < k {
        assert(!reaches(headers[i], addr));
        lemma_segment(headers, addr, i + 1, k);
    }
}

proof fn lemma_no_segment(headers: Seq<ProgramHeader>, addr: u64, i: int)
    requires
        0 <= i,
        forall|j: int| i <= j < headers.len() ==> !reaches(#[trigger] headers[j], addr),
    ensures
        image::segment_from(headers, i, addr) is None,
    decreases headers.len() - i,
{
    if i < headers.len() {
        assert(!reaches(headers[i], addr));
        lemma_no_segment(headers, addr, i + 1);
    }
}

/// The segment around an address is the first whose bytes in the file reach it, from its
/// address up to where those bytes end; its start is the start of that segment.
pub proof fn law_segment_is_the_first_around(elf: Elf<'_>, addr: u64, k: int)
    ensures
        (forall|j: int|
            0 <= j < elf.tables.program_headers@.len() ==> !reaches(
                #[trigger] elf.tables.program_headers@[j],
                addr,
            )) ==> elf.bounds_at(addr) is None && elf.segment_at(addr) is None,
        0 <= k < elf.tables.program_headers@.len() && reaches(
            elf.tables.program_headers@[k],
            addr,
        ) && (forall|j: int|
            0 <= j < k ==> !reaches(#[trigger] elf.tables.program_headers@[j], addr)) ==> ({
            let ph = elf.tables.program_headers@[k];
            &&& elf.bounds_at(addr) matches Some((start, end)) && start == ph.p_vaddr && end
                == ph.p_vaddr + ph.p_filesz
            &&& elf.segment_at(addr) == Some(ph.p_vaddr)
        }),
{
    let headers = elf.tables.program_headers@;
    if 0 <= k < headers.len() && reaches(headers[k], addr) && (forall|j: int|
        0 <= j < k ==> !reaches(#[trigger] headers[j], addr)) {
        lemma_segment(headers, addr, 0, k);
    }
    if forall|j: int| 0 <= j < headers.len() ==> !reaches(#[trigger] headers[j], addr) {
        lemma_no_segment(headers, addr, 0);
    }
}

/// A file is taken for an ELF file exactly where it starts with a byte 127 and the
/// letters E, L, F.
pub proof fn law_magic_is_four_bytes(data: Seq<u8>)
    ensures
        image::has_magic(data) <==> data.len() >= 4 && data.take(4) == seq![
            127u8,
            'E' as u8,
            'L' as u8,
            'F' as u8,
        ],
{
    if data.len() >= 4 {
        let magic = seq![127u8, 'E' as u8, 'L' as u8, 'F' as u8];
        if data.take(4) == magic {
            assert(data[0] == data.take(4)[0] && data[1] == data.take(4)[1]);
            assert(data[2] == data.take(4)[2] && data[3] == data.take(4)[3]);
        }
        if image::has_magic(data) {
            assert(data.take(4) =~= magic);
        }
    }
}

} // verus!
