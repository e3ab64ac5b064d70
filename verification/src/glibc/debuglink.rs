//! Pairing a separate debug file with the libc it belongs to.
//!
//! Two files with build-ids belong together when the ids are equal. Without them
//! the checksum in the runtime file's `.gnu_debuglink` section decides.

use vstd::prelude::*;

use crate::elf;
use crate::elf::image;
use crate::elf::image::Section;
use crate::elf::notes;
use crate::elf::{find_nul, read_u32_le, Elf};
use crate::text;

verus! {

/// A result with its error as a character sequence.
pub open spec fn outcome<T>(r: std::result::Result<T, String>) -> std::result::Result<T, Seq<char>> {
    match r {
        Ok(v) => Ok(v),
        Err(e) => Err(e@),
    }
}

/// The build-id of a file: that of its note segments, else that of its note
/// sections. An empty one counts for nothing.
pub open spec fn build_id_of(elf: Elf<'_>) -> Option<Seq<u8>> {
    let in_segments = notes::build_id_from(
        notes::all_notes(elf.tables.program_headers@, elf.data@),
        0,
    );
    let found = if in_segments is Some {
        in_segments
    } else {
        notes::section_build_id_from(elf.tables@.sections, elf.data@, 0)
    };
    match found {
        Some(id) if id.len() > 0 => found,
        _ => None,
    }
}

/// The build-id of a file.
pub fn elf_build_id(elf: &Elf<'_>) -> (r: Option<Vec<u8>>)
    ensures
        notes::id_bytes(r) == build_id_of(*elf),
{
    let found = match notes::build_id(&elf.notes()) {
        Some(id) => Some(id),
        None => notes::build_id_from_note_sections(elf.inner(), elf.bytes()),
    };
    match found {
        Some(id) => if id.len() > 0 {
            Some(id)
        } else {
            None
        },
        None => None,
    }
}

/// The big-endian 32-bit number at `off`.
pub open spec fn be_at(s: Seq<u8>, off: int) -> int {
    s[off] * 0x100_0000 + s[off + 1] * 0x1_0000 + s[off + 2] * 0x100 + s[off + 3]
}

/// The checksum in the data of a `.gnu_debuglink` section: a file name, a zero,
/// padding to a multiple of four, then four bytes in target byte order.
pub open spec fn link_crc(data: Seq<u8>, little_endian: bool) -> std::result::Result<
    u32,
    Seq<char>,
> {
    let nul = elf::nul_from(data, 0);
    let off = notes::padded(nul + 1);
    if nul == 0 || nul >= data.len() || off + 4 > data.len() {
        Err("runtime libc has malformed .gnu_debuglink data"@)
    } else if little_endian {
        Ok(elf::le_at(data, off, 4) as u32)
    } else {
        Ok(be_at(data, off) as u32)
    }
}

fn malformed() -> (r: std::result::Result<u32, String>)
    ensures
        outcome(r) == Err::<u32, Seq<char>>("runtime libc has malformed .gnu_debuglink data"@),
{
    Err("runtime libc has malformed .gnu_debuglink data".to_owned())
}

pub fn parse_debuglink_crc(data: &[u8], little_endian: bool) -> (r: std::result::Result<
    u32,
    String,
>)
    ensures
        outcome(r) == link_crc(data@, little_endian),
{
    let len: usize = data.len();
    let nul: usize = match find_nul(data, 0) {
        Some(nul) => nul,
        None => return malformed(),
    };
    if nul == 0 {
        return malformed();
    }
    let off: usize = match notes::align4(nul + 1) {
        Some(off) => off,
        None => return malformed(),
    };
    if little_endian {
        match read_u32_le(data, off) {
            Some(crc) => Ok(crc),
            None => malformed(),
        }
    } else if off > len || len - off < 4 {
        malformed()
    } else {
        Ok(
            data[off] as u32 * 0x100_0000 + data[off + 1] as u32 * 0x1_0000 + data[off + 2] as u32
                * 0x100 + data[off + 3] as u32,
        )
    }
}

/// The bytes of a `.gnu_debuglink` section.
pub open spec fn link_data(section: image::SectionView, data: Seq<u8>) -> std::result::Result<
    Seq<u8>,
    Seq<char>,
> {
    let end = section.sh_offset + section.sh_size;
    if section.sh_offset > usize::MAX {
        Err("runtime libc has invalid .gnu_debuglink offset"@)
    } else if section.sh_size > usize::MAX {
        Err("runtime libc has invalid .gnu_debuglink size"@)
    } else if end > usize::MAX {
        Err("runtime libc has invalid .gnu_debuglink range"@)
    } else if end > data.len() {
        Err("runtime libc has truncated .gnu_debuglink data"@)
    } else {
        Ok(data.subrange(section.sh_offset as int, end))
    }
}

fn read_link_data<'a>(section: &Section, data: &'a [u8]) -> (r: std::result::Result<
    &'a [u8],
    String,
>)
    ensures
        match r {
            Ok(part) => link_data(section@, data@) == Ok::<Seq<u8>, Seq<char>>(part@),
            Err(e) => link_data(section@, data@) == Err::<Seq<u8>, Seq<char>>(e@),
        },
{
    let max: u64 = usize::MAX as u64;
    if section.sh_offset > max {
        return Err("runtime libc has invalid .gnu_debuglink offset".to_owned());
    }
    if section.sh_size > max {
        return Err("runtime libc has invalid .gnu_debuglink size".to_owned());
    }
    let start: usize = section.sh_offset as usize;
    let end: usize = match start.checked_add(section.sh_size as usize) {
        Some(end) => end,
        None => return Err("runtime libc has invalid .gnu_debuglink range".to_owned()),
    };
    if end > data.len() {
        return Err("runtime libc has truncated .gnu_debuglink data".to_owned());
    }
    Ok(&data[start..end])
}

/// The checksum of the one `.gnu_debuglink` section from index `i` on, after
/// what was found before.
pub open spec fn link_crc_from(
    sections: Seq<image::SectionView>,
    data: Seq<u8>,
    little_endian: bool,
    i: int,
    found: Option<u32>,
) -> std::result::Result<Option<u32>, Seq<char>>
    decreases sections.len() - i,
{
    if i < 0 || i >= sections.len() {
        Ok(found)
    } else if sections[i].name != Some(".gnu_debuglink"@) {
        link_crc_from(sections, data, little_endian, i + 1, found)
    } else if found is Some {
        Err("runtime libc has duplicate .gnu_debuglink sections"@)
    } else {
        match link_data(sections[i], data) {
            Err(e) => Err(e),
            Ok(part) => match link_crc(part, little_endian) {
                Err(e) => Err(e),
                Ok(crc) => link_crc_from(sections, data, little_endian, i + 1, Some(crc)),
            },
        }
    }
}

/// The checksum of a file's `.gnu_debuglink` section.
pub open spec fn link_crc_of(elf: Elf<'_>) -> std::result::Result<Option<u32>, Seq<char>> {
    link_crc_from(elf.tables@.sections, elf.data@, elf.tables.little_endian, 0, None)
}

fn has_name(section: &Section, name: &str) -> (r: bool)
    ensures
        r == (section@.name == Some(name@)),
{
    match &section.name {
        Some(text) => text::str_equal(text, name),
        None => false,
    }
}

pub fn debuglink_crc(elf: &Elf<'_>) -> (r: std::result::Result<Option<u32>, String>)
    ensures
        outcome(r) == link_crc_of(*elf),
{
    let mut result: Option<u32> = None;
    let tables = elf.inner();
    let ghost all = elf.tables@.sections;
    let mut i: usize = 0;
    while i < tables.sections.len()
        invariant
            i <= tables.sections@.len(),
            *tables == elf.tables,
            all == elf.tables@.sections,
            link_crc_from(all, elf.data@, elf.tables.little_endian, i as int, result)
                == link_crc_of(*elf),
        decreases tables.sections@.len() - i,
    {
        let section: &Section = &tables.sections[i];
        assert(all[i as int] == section@);
        i = i + 1;
        if !has_name(section, ".gnu_debuglink") {
            continue;
        }
        if result.is_some() {
            return Err("runtime libc has duplicate .gnu_debuglink sections".to_owned());
        }
        let data: &[u8] = match read_link_data(section, elf.bytes()) {
            Ok(data) => data,
            Err(e) => return Err(e),
        };
        match parse_debuglink_crc(data, tables.little_endian) {
            Ok(crc) => result = Some(crc),
            Err(e) => return Err(e),
        }
    }
    Ok(result)
}

/// `n` steps of dividing by the CRC-32 polynomial, least significant bit first.
pub open spec fn crc_steps(state: u32, n: nat) -> u32
    decreases n,
{
    if n == 0 {
        state
    } else {
        let next = if state & 1 == 1 {
            (state >> 1) ^ 0xedb8_8320
        } else {
            state >> 1
        };
        crc_steps(next, (n - 1) as nat)
    }
}

/// The remainder after bytes, from all ones on.
pub open spec fn crc_state(data: Seq<u8>) -> u32
    decreases data.len(),
{
    if data.len() == 0 {
        0xffff_ffff
    } else {
        crc_steps(crc_state(data.drop_last()) ^ data.last() as u32, 8)
    }
}

/// The CRC-32 of bytes, as IEEE 802.3 has it.
pub open spec fn crc32(data: Seq<u8>) -> u32 {
    crc_state(data) ^ 0xffff_ffff
}

/// The CRC-32 of bytes, by `crc32fast::hash`, which is documented to be that of
/// IEEE.
#[verifier::external_body]
fn crc32_of(data: &[u8]) -> (r: u32)
    ensures
        r == crc32(data@),
{
    crc32fast::hash(data)
}

/// Whether checksums agree, and the complaint where they do not.
pub open spec fn crc_check(expected: u32, actual: u32) -> std::result::Result<(), Seq<char>> {
    if actual == expected {
        Ok(())
    } else {
        Err("debuginfo .gnu_debuglink CRC does not match the runtime libc"@)
    }
}

/// Compare the checksum of a debug file with the one expected of it.
pub fn check_crc(expected: u32, actual: u32) -> (r: std::result::Result<(), String>)
    ensures
        outcome(r) == crc_check(expected, actual),
{
    if actual == expected {
        Ok(())
    } else {
        Err("debuginfo .gnu_debuglink CRC does not match the runtime libc".to_owned())
    }
}

/// Check the complete debug file against the checksum expected of it.
pub fn verify_debuglink_crc(expected: u32, debug: &[u8]) -> (r: std::result::Result<(), String>)
    ensures
        outcome(r) == crc_check(expected, crc32(debug@)),
{
    check_crc(expected, crc32_of(debug))
}

/// Whether a debug file belongs to a runtime libc, and the complaint where it
/// does not.
pub open spec fn pairing(runtime: Elf<'_>, debug: Elf<'_>) -> std::result::Result<(), Seq<char>> {
    if runtime.tables.machine != debug.tables.machine || runtime.tables.is_64
        != debug.tables.is_64 {
        Err("debuginfo ABI does not match the runtime libc"@)
    } else {
        match (build_id_of(runtime), build_id_of(debug)) {
            (Some(a), Some(b)) => if a == b {
                Ok(())
            } else {
                Err("debuginfo build-id does not match the runtime libc"@)
            },
            _ => match link_crc_of(runtime) {
                Err(e) => Err(e),
                Ok(None) => Err(
                    "runtime libc and debuginfo have no matching build-id or .gnu_debuglink CRC"@,
                ),
                Ok(Some(crc)) => crc_check(crc, crc32(debug.data@)),
            },
        }
    }
}

/// Check that a separate debug ELF belongs to the runtime libc.
pub fn verify_debug_matches_runtime(runtime: &Elf<'_>, debug: &Elf<'_>) -> (r: std::result::Result<
    (),
    String,
>)
    ensures
        outcome(r) == pairing(*runtime, *debug),
{
    if runtime.machine() != debug.machine() || runtime.is_64bit() != debug.is_64bit() {
        return Err("debuginfo ABI does not match the runtime libc".to_owned());
    }
    let runtime_build_id = elf_build_id(runtime);
    let debug_build_id = elf_build_id(debug);
    if let (Some(runtime_id), Some(debug_id)) = (&runtime_build_id, &debug_build_id) {
        return if text::bytes_equal(runtime_id, debug_id) {
            Ok(())
        } else {
            Err("debuginfo build-id does not match the runtime libc".to_owned())
        };
    }
    match debuglink_crc(runtime) {
        Err(e) => Err(e),
        Ok(None) => Err(
            "runtime libc and debuginfo have no matching build-id or .gnu_debuglink CRC".to_owned(),
        ),
        Ok(Some(crc)) => verify_debuglink_crc(crc, debug.bytes()),
    }
}

/// Without build-ids the checksum of the whole debug file decides: the files belong
/// together exactly when the target agrees and the runtime file's `.gnu_debuglink`
/// has that checksum.
pub proof fn law_checksum_decides_without_build_ids(runtime: Elf<'_>, debug: Elf<'_>)
    requires
        build_id_of(runtime) is None || build_id_of(debug) is None,
    ensures
        pairing(runtime, debug) is Ok <==> link_crc_of(runtime) == Ok::<Option<u32>, Seq<char>>(
            Some(crc32(debug.data@)),
        ) && runtime.tables.machine == debug.tables.machine && runtime.tables.is_64
            == debug.tables.is_64,
{
}

/// Build-ids decide over checksums: where both files have one, they belong
/// together exactly when the ids and the target agree, whatever the runtime
/// file's `.gnu_debuglink` says.
pub proof fn law_build_ids_decide(runtime: Elf<'_>, debug: Elf<'_>)
    requires
        build_id_of(runtime) is Some,
        build_id_of(debug) is Some,
    ensures
        pairing(runtime, debug) is Ok <==> build_id_of(runtime) == build_id_of(debug)
            && runtime.tables.machine == debug.tables.machine && runtime.tables.is_64
            == debug.tables.is_64,
{
}

} // verus!
