//! The DWARF sections of an ELF file, decompressed where needed.

use std::io::{ErrorKind, Read};

use vstd::prelude::*;

use crate::elf;
use crate::elf::image::{Section, SectionView};
use crate::elf::Elf;
use crate::text;

use super::assemble;
use super::{DwarfError, DwarfLayoutError, Outcome};

verus! {

pub const MAX_SECTION_BYTES: u64 = 64 * 1024 * 1024;

pub const MAX_TOTAL_DWARF_BYTES: u64 = 256 * 1024 * 1024;

/// `SHF_COMPRESSED`.
pub const SHF_COMPRESSED: u64 = 0x800;

/// The bytes of a section, in the file or decompressed from it.
#[derive(Debug)]
pub enum SectionData<'a> {
    Borrowed(&'a [u8]),
    Owned(Vec<u8>),
}

impl<'a> SectionData<'a> {
    /// The bytes.
    pub open spec fn contents(self) -> Seq<u8> {
        match self {
            SectionData::Borrowed(bytes) => bytes@,
            SectionData::Owned(bytes) => bytes@,
        }
    }

    pub fn bytes(&self) -> (r: &[u8])
        ensures
            r@ == self.contents(),
    {
        match self {
            SectionData::Borrowed(bytes) => bytes,
            SectionData::Owned(bytes) => bytes.as_slice(),
        }
    }
}

/// A section under its canonical name.
#[derive(Debug)]
pub struct NamedSection<'a> {
    pub name: String,
    pub data: SectionData<'a>,
}

/// The sections that the layout is read from.
#[derive(Debug)]
pub struct SectionStore<'a> {
    pub sections: Vec<NamedSection<'a>>,
}

/// Names and bytes of sections, in order.
pub type Sections = Seq<(Seq<char>, Seq<u8>)>;

impl<'a> View for SectionStore<'a> {
    type V = Seq<(Seq<char>, Seq<u8>)>;

    open spec fn view(&self) -> Seq<(Seq<char>, Seq<u8>)> {
        self.sections@.map_values(|s: NamedSection<'a>| (s.name@, s.data.contents()))
    }
}

/// The bytes of the first section of a name, from index `i` on.
pub open spec fn section_from(
    sections: Seq<(Seq<char>, Seq<u8>)>,
    name: Seq<char>,
    i: int,
) -> Option<Seq<u8>>
    decreases sections.len() - i,
{
    if i < 0 || i >= sections.len() {
        None
    } else if sections[i].0 == name {
        Some(sections[i].1)
    } else {
        section_from(sections, name, i + 1)
    }
}

/// The bytes of a section, none where there is no such section.
pub open spec fn bytes_of(sections: Seq<(Seq<char>, Seq<u8>)>, name: Seq<char>) -> Seq<u8> {
    match section_from(sections, name, 0) {
        Some(bytes) => bytes,
        None => Seq::empty(),
    }
}

impl<'a> SectionStore<'a> {
    pub fn get(&self, name: &str) -> (r: Option<&[u8]>)
        ensures
            r matches Some(bytes) ==> section_from(self@, name@, 0) == Some(bytes@),
            r is None ==> section_from(self@, name@, 0) is None,
    {
        let mut i: usize = 0;
        while i < self.sections.len()
            invariant
                i <= self.sections@.len(),
                section_from(self@, name@, i as int) == section_from(self@, name@, 0),
            decreases self.sections@.len() - i,
        {
            let section: &NamedSection<'a> = &self.sections[i];
            assert(self@[i as int] == (section.name@, section.data.contents()));
            if text::str_equal(&section.name, name) {
                return Some(section.data.bytes());
            }
            i = i + 1;
        }
        None
    }

    /// The bytes of a section, none where there is no such section.
    pub fn bytes(&self, name: &str) -> (r: &[u8])
        ensures
            r@ == bytes_of(self@, name@),
    {
        match self.get(name) {
            Some(bytes) => bytes,
            None => {
                let none: &[u8] = &[];
                assert(none@ =~= Seq::empty());
                none
            },
        }
    }
}

/// Sections needed for type, name and member decoding.
pub open spec fn is_needed(name: Seq<char>) -> bool {
    ||| name == ".debug_abbrev"@
    ||| name == ".debug_addr"@
    ||| name == ".debug_info"@
    ||| name == ".debug_line"@
    ||| name == ".debug_line_str"@
    ||| name == ".debug_str"@
    ||| name == ".debug_str_offsets"@
    ||| name == ".debug_types"@
}

/// Only load sections needed for type/name/member decoding. The parser consults
/// `.debug_line` while constructing a unit, but macro/range/location data must
/// not consume the layout reader's byte budget when this module never uses it.
pub fn is_layout_section(name: &str) -> (r: bool)
    ensures
        r == is_needed(name@),
{
    text::str_equal(name, ".debug_abbrev") || text::str_equal(name, ".debug_addr")
        || text::str_equal(name, ".debug_info") || text::str_equal(name, ".debug_line")
        || text::str_equal(name, ".debug_line_str") || text::str_equal(name, ".debug_str")
        || text::str_equal(name, ".debug_str_offsets") || text::str_equal(name, ".debug_types")
}

/// The total with one more section, where both stay within their limits.
pub open spec fn reserved(total: u64, size: u64) -> std::result::Result<u64, DwarfError> {
    if size > MAX_SECTION_BYTES {
        Err(DwarfError::Limit("DWARF section bytes"@))
    } else if total + size > MAX_TOTAL_DWARF_BYTES {
        Err(DwarfError::Limit("total DWARF bytes"@))
    } else {
        Ok((total + size) as u64)
    }
}

pub fn reserve_section(total: &mut u64, size: u64) -> (r: Outcome<()>)
    ensures
        r is Ok ==> reserved(*old(total), size) == Ok::<u64, DwarfError>(*final(total)),
        r matches Err(e) ==> reserved(*old(total), size) == Err::<u64, DwarfError>(e@),
        *final(total) == if size > MAX_SECTION_BYTES || *old(total) + size > u64::MAX {
            *old(total) as int
        } else {
            *old(total) + size
        },
{
    if size > MAX_SECTION_BYTES {
        return Err(DwarfLayoutError::Limit("DWARF section bytes"));
    }
    *total = match total.checked_add(size) {
        Some(sum) => sum,
        None => return Err(DwarfLayoutError::Limit("total DWARF bytes")),
    };
    if *total > MAX_TOTAL_DWARF_BYTES {
        return Err(DwarfLayoutError::Limit("total DWARF bytes"));
    }
    Ok(())
}

/// The number that the `n` bytes from `off` on spell, most significant first.
pub open spec fn be_at(s: Seq<u8>, off: int, n: nat) -> int
    decreases n,
{
    if n == 0 {
        0
    } else {
        256 * be_at(s, off, (n - 1) as nat) + s[off + n - 1]
    }
}

fn read_u64_be(buf: &[u8], off: usize) -> (r: u64)
    requires
        off + 8 <= buf@.len(),
    ensures
        r == be_at(buf@, off as int, 8),
{
    let len: usize = buf.len();
    proof {
        reveal_with_fuel(be_at, 9);
    }
    let high: u64 = 0x100_0000 * (buf[off] as u64) + 0x1_0000 * (buf[off + 1] as u64) + 0x100 * (
    buf[off + 2] as u64) + buf[off + 3] as u64;
    let low: u64 = 0x100_0000 * (buf[off + 4] as u64) + 0x1_0000 * (buf[off + 5] as u64) + 0x100 * (
    buf[off + 6] as u64) + buf[off + 7] as u64;
    0x1_0000_0000 * high + low
}

/// The declared size and the compressed bytes of a section: behind a `ZLIB` mark
/// and a big-endian size in the legacy form, otherwise behind an ELF compression
/// header.
pub open spec fn payload_in(input: Seq<u8>, is_64: bool, legacy: bool) -> std::result::Result<
    (u64, Seq<u8>),
    DwarfError,
> {
    if legacy {
        if input.len() < 12 || !(input[0] == 0x5a && input[1] == 0x4c && input[2] == 0x49
            && input[3] == 0x42) {
            assemble::invalid_because("invalid legacy compressed section header"@)
        } else {
            Ok((be_at(input, 4, 8) as u64, input.skip(12)))
        }
    } else {
        let header: int = if is_64 {
            24
        } else {
            12
        };
        if input.len() < header {
            if is_64 {
                assemble::invalid_because("short ELF64 compression header"@)
            } else {
                assemble::invalid_because("short ELF32 compression header"@)
            }
        } else if elf::u32_le_at(input, 0) != Some(1u32) {
            Err(DwarfError::Unsupported("non-zlib compression"@))
        } else {
            Ok(
                (
                    elf::word_le_at(
                        input,
                        if is_64 {
                            8
                        } else {
                            4
                        },
                        is_64,
                    )->0,
                    input.skip(header),
                ),
            )
        }
    }
}

pub fn compressed_payload<'a>(elf: &Elf<'_>, input: &'a [u8], legacy: bool) -> (r: Outcome<
    (u64, &'a [u8]),
>)
    ensures
        r matches Ok(v) ==> payload_in(input@, elf.tables.is_64, legacy) == Ok::<
            (u64, Seq<u8>),
            DwarfError,
        >((v.0, v.1@)),
        r matches Err(e) ==> payload_in(input@, elf.tables.is_64, legacy) == Err::<
            (u64, Seq<u8>),
            DwarfError,
        >(e@),
{
    let len: usize = input.len();
    if legacy {
        if len < 12 || !(input[0] == 0x5a && input[1] == 0x4c && input[2] == 0x49 && input[3]
            == 0x42) {
            return Err(
                DwarfLayoutError::Invalid("invalid legacy compressed section header".to_owned()),
            );
        }
        let size: u64 = read_u64_be(input, 4);
        let payload: &'a [u8] = &input[12..len];
        assert(payload@ =~= input@.skip(12));
        return Ok((size, payload));
    }
    let is_64: bool = elf.is_64bit();
    let header_size: usize = if is_64 {
        24
    } else {
        12
    };
    if len < header_size {
        return Err(
            DwarfLayoutError::Invalid(
                (if is_64 {
                    "short ELF64 compression header"
                } else {
                    "short ELF32 compression header"
                }).to_owned(),
            ),
        );
    }
    let size_off: usize = if is_64 {
        8
    } else {
        4
    };
    match (elf::read_u32_le(input, 0), elf::read_word(input, size_off, is_64)) {
        (Some(1), Some(size)) => {
            let payload: &'a [u8] = &input[header_size..len];
            assert(payload@ =~= input@.skip(header_size as int));
            Ok((size, payload))
        },
        _ => Err(DwarfLayoutError::Unsupported("non-zlib compression")),
    }
}

/// All that `flate2::read::ZlibDecoder` gives over a payload that is read to its
/// end, where no read fails: the bytes of a complete stream.
pub uninterp spec fn inflated(payload: Seq<u8>) -> Option<Seq<u8>>;

/// How reading a zlib stream ended, with what was said of a failure.
#[derive(Debug)]
pub enum Inflation {
    /// The stream ended, or as many bytes were read as were asked for.
    Read,
    /// The stream is cut or corrupt.
    Broken(String),
    /// Something other than the stream stopped the reading, such as a lack of
    /// memory for more bytes.
    Stopped(String),
}

/// Decode a zlib stream with `flate2::read::ZlibDecoder`, at most `limit` bytes of
/// it, into an empty buffer. A complete stream gives its first bytes, and all of
/// them where it has no more than were asked for. Fewer bytes than were asked for
/// come only from a complete stream. The decoder fails with one of two kinds of
/// error, and on broken streams alone.
///
/// Whether a broken stream fails before `limit` bytes are read is not said: it
/// depends on the room that the buffer has. Nor is it said when the reading stops
/// for another reason.
#[verifier::external_body]
fn inflate(payload: &[u8], limit: u64, output: &mut Vec<u8>) -> (r: Inflation)
    requires
        old(output)@.len() == 0,
    ensures
        r is Read ==> final(output)@.len() <= limit,
        r is Read && final(output)@.len() < limit ==> inflated(payload@) == Some(final(output)@),
        r is Read ==> (inflated(payload@) matches Some(all) ==> final(output)@ == all.take(
            if all.len() < limit {
                all.len() as int
            } else {
                limit as int
            },
        )),
        r is Broken ==> inflated(payload@) is None,
{
    match flate2::read::ZlibDecoder::new(payload).take(limit).read_to_end(output) {
        Ok(_) => Inflation::Read,
        Err(error) => match error.kind() {
            ErrorKind::UnexpectedEof | ErrorKind::InvalidInput => {
                Inflation::Broken(error.to_string())
            },
            _ => Inflation::Stopped(error.to_string()),
        },
    }
}

/// The failure of a section that has not its declared size.
pub open spec fn size_differs() -> DwarfError {
    DwarfError::Invalid("decompressed size differs from section header"@)
}

/// The bytes of a section of a declared size, or `broken` where they are no
/// complete stream.
pub open spec fn decompressed(
    payload: Seq<u8>,
    declared: u64,
    broken: DwarfError,
) -> std::result::Result<Seq<u8>, DwarfError> {
    if declared > usize::MAX || declared == u64::MAX {
        Err(DwarfError::Limit("section bytes"@))
    } else {
        match inflated(payload) {
            None => Err(broken),
            Some(output) => sized(output, declared),
        }
    }
}

/// A section that has its declared size.
pub open spec fn sized(output: Seq<u8>, declared: u64) -> std::result::Result<
    Seq<u8>,
    DwarfError,
> {
    if output.len() != declared {
        Err(size_differs())
    } else {
        Ok(output)
    }
}

/// The failures of a section for which the machine lacks memory: it is not
/// reserved, or reading stops.
pub open spec fn is_lack_of_memory<T>(r: std::result::Result<T, DwarfError>) -> bool {
    ||| r == Err::<T, DwarfError>(DwarfError::Limit("section allocation"@))
    ||| r == Err::<T, DwarfError>(DwarfError::Parse)
}

/// The bytes that a section came to.
pub open spec fn bytes_outcome(r: Outcome<Vec<u8>>) -> std::result::Result<Seq<u8>, DwarfError> {
    match r {
        Ok(v) => Ok(v@),
        Err(e) => Err(e@),
    }
}

/// Refuse a decompressed section that has not its declared size.
pub fn check_size(output: Vec<u8>, declared: u64) -> (r: Outcome<Vec<u8>>)
    ensures
        bytes_outcome(r) == sized(output@, declared),
{
    if output.len() as u64 != declared {
        return Err(
            DwarfLayoutError::Invalid(
                "decompressed size differs from section header".to_owned(),
            ),
        );
    }
    Ok(output)
}

/// The section that reading its stream came to: one byte more than its size was
/// asked for, so that a wrong header cannot silently truncate the section.
pub fn section_read(read: Inflation, output: Vec<u8>, declared: u64) -> (r: Outcome<Vec<u8>>)
    ensures
        read is Read ==> bytes_outcome(r) == sized(output@, declared),
        read matches Inflation::Broken(text) ==> r matches Err(DwarfLayoutError::Parse(what))
            && what@ == "zlib: "@ + text@,
        read matches Inflation::Stopped(text) ==> r matches Err(DwarfLayoutError::Parse(what))
            && what@ == "zlib: "@ + text@,
{
    match read {
        Inflation::Read => check_size(output, declared),
        Inflation::Broken(text) | Inflation::Stopped(text) => Err(
            DwarfLayoutError::Parse(text::concat2("zlib: ", &text)),
        ),
    }
}

/// Decompress a section. Memory for it is reserved first; whether there is enough
/// is up to the machine. A broken stream fails to decode or has another size than
/// was declared. A size that is no length is refused before any of this.
pub fn decompress(payload: &[u8], declared: u64) -> (r: Outcome<Vec<u8>>)
    ensures
        declared > usize::MAX ==> bytes_outcome(r) == Err::<Seq<u8>, DwarfError>(
            DwarfError::Limit("section bytes"@),
        ),
        ({
            ||| bytes_outcome(r) == decompressed(payload@, declared, DwarfError::Parse)
            ||| bytes_outcome(r) == decompressed(payload@, declared, size_differs())
            ||| is_lack_of_memory(bytes_outcome(r))
        }),
        r matches Err(DwarfLayoutError::Parse(what)) ==> text::starts_with(what@, "zlib: "@),
{
    if declared > usize::MAX as u64 {
        return Err(DwarfLayoutError::Limit("section bytes"));
    }
    let size: usize = declared as usize;
    let mut output: Vec<u8> = Vec::new();
    if output.try_reserve(size).is_err() {
        return Err(DwarfLayoutError::Limit("section allocation"));
    }
    let limit: u64 = match declared.checked_add(1) {
        Some(limit) => limit,
        None => return Err(DwarfLayoutError::Limit("section bytes")),
    };
    let read = inflate(payload, limit, &mut output);
    proof {
        if let Some(all) = inflated(payload@) {
            if all.len() < limit {
                assert(all.take(all.len() as int) =~= all);
            }
        }
    }
    let r = section_read(read, output, declared);
    assert(r matches Err(DwarfLayoutError::Parse(what)) ==> what@.take("zlib: "@.len() as int)
        =~= "zlib: "@);
    r
}

/// The sections met so far and the bytes they take.
pub struct Loading {
    pub total: u64,
    pub sections: Seq<(Seq<char>, Seq<u8>)>,
}

/// A legacy compressed section is known by its name.
pub open spec fn is_legacy(name: Seq<char>) -> bool {
    text::starts_with(name, ".zdebug_"@)
}

/// The name that a section goes by.
pub open spec fn canonical(name: Seq<char>) -> Seq<char> {
    if is_legacy(name) {
        ".debug_"@ + name.skip(8)
    } else {
        name
    }
}

/// The part of the file that a section covers.
pub open spec fn section_input(section: SectionView, data: Seq<u8>) -> std::result::Result<
    Seq<u8>,
    DwarfError,
> {
    if section.sh_offset > usize::MAX {
        assemble::invalid_because("section offset overflow"@)
    } else if section.sh_size > usize::MAX {
        assemble::invalid_because("section size overflow"@)
    } else if section.sh_offset + section.sh_size > usize::MAX {
        Err(DwarfError::Limit("section range"@))
    } else if section.sh_offset + section.sh_size > data.len() {
        assemble::invalid_because("section is outside ELF"@)
    } else {
        Ok(data.subrange(section.sh_offset as int, section.sh_offset + section.sh_size))
    }
}

/// Whether the bytes of a section are compressed.
pub open spec fn is_compressed(section: SectionView) -> bool {
    section.name is Some && is_needed(canonical(section.name->0)) && (is_legacy(section.name->0)
        || section.sh_flags & SHF_COMPRESSED != 0)
}

/// The new total and the bytes of a section. A broken stream fails with `broken`.
pub open spec fn section_bytes(
    total: u64,
    section: SectionView,
    input: Seq<u8>,
    is_64: bool,
    broken: DwarfError,
) -> std::result::Result<(u64, Seq<u8>), DwarfError> {
    if is_compressed(section) {
        match payload_in(input, is_64, is_legacy(section.name->0)) {
            Err(e) => Err(e),
            Ok((declared, payload)) => match reserved(total, declared) {
                Err(e) => Err(e),
                Ok(total) => match decompressed(payload, declared, broken) {
                    Err(e) => Err(e),
                    Ok(bytes) => Ok((total, bytes)),
                },
            },
        }
    } else {
        match reserved(total, section.sh_size) {
            Err(e) => Err(e),
            Ok(total) => Ok((total, input)),
        }
    }
}

impl Loading {
    /// With one more section, where it is needed.
    pub open spec fn with(
        self,
        section: SectionView,
        data: Seq<u8>,
        is_64: bool,
        broken: DwarfError,
    ) -> std::result::Result<Loading, DwarfError> {
        if section.name is None || !is_needed(canonical(section.name->0)) {
            Ok(self)
        } else {
            match section_input(section, data) {
                Err(e) => Err(e),
                Ok(input) => match section_bytes(self.total, section, input, is_64, broken) {
                    Err(e) => Err(e),
                    Ok((total, bytes)) => {
                        let name = canonical(section.name->0);
                        if section_from(self.sections, name, 0) is Some {
                            assemble::invalid_because("duplicate canonical DWARF section"@)
                        } else {
                            Ok(Loading { total, sections: self.sections.push((name, bytes)) })
                        }
                    },
                },
            }
        }
    }
}

/// The needed sections from index `i` on, added to those met so far.
pub open spec fn loaded_from(
    loading: Loading,
    sections: Seq<SectionView>,
    data: Seq<u8>,
    is_64: bool,
    broken: DwarfError,
    i: int,
) -> std::result::Result<Seq<(Seq<char>, Seq<u8>)>, DwarfError>
    decreases sections.len() - i,
{
    if i < 0 || i >= sections.len() {
        Ok(loading.sections)
    } else {
        match loading.with(sections[i], data, is_64, broken) {
            Err(e) => Err(e),
            Ok(next) => loaded_from(next, sections, data, is_64, broken, i + 1),
        }
    }
}

/// The needed sections of a file, or `broken` where the first of them that cannot
/// be had is a broken stream.
pub open spec fn loaded(
    sections: Seq<SectionView>,
    data: Seq<u8>,
    is_64: bool,
    broken: DwarfError,
) -> std::result::Result<Seq<(Seq<char>, Seq<u8>)>, DwarfError> {
    loaded_from(Loading { total: 0, sections: Seq::empty() }, sections, data, is_64, broken, 0)
}

/// The bytes that sections take together.
pub open spec fn total_bytes(sections: Seq<(Seq<char>, Seq<u8>)>) -> nat
    decreases sections.len(),
{
    if sections.len() == 0 {
        0
    } else {
        total_bytes(sections.drop_last()) + sections.last().1.len()
    }
}

proof fn lemma_section_absent(sections: Seq<(Seq<char>, Seq<u8>)>, name: Seq<char>, i: int)
    requires
        0 <= i,
        section_from(sections, name, i) is None,
    ensures
        forall|k: int| i <= k < sections.len() ==> (#[trigger] sections[k]).0 != name,
    decreases sections.len() - i,
{
    if i < sections.len() {
        lemma_section_absent(sections, name, i + 1);
    }
}

/// What holds of the sections met so far.
spec fn within_budget(sections: Seq<(Seq<char>, Seq<u8>)>) -> bool {
    &&& forall|i: int|
        0 <= i < sections.len() ==> is_needed((#[trigger] sections[i]).0) && sections[i].1.len()
            <= MAX_SECTION_BYTES
    &&& forall|i: int, j: int|
        0 <= i < j < sections.len() ==> (#[trigger] sections[i]).0 != (#[trigger] sections[j]).0
}

proof fn lemma_loaded_within_budget(
    loading: Loading,
    sections: Seq<SectionView>,
    data: Seq<u8>,
    is_64: bool,
    broken: DwarfError,
    i: int,
)
    requires
        within_budget(loading.sections),
        total_bytes(loading.sections) == loading.total <= MAX_TOTAL_DWARF_BYTES,
    ensures
        loaded_from(loading, sections, data, is_64, broken, i) matches Ok(found) ==> within_budget(found)
            && total_bytes(found) <= MAX_TOTAL_DWARF_BYTES,
    decreases sections.len() - i,
{
    if 0 <= i < sections.len() {
        if let Ok(next) = loading.with(sections[i], data, is_64, broken) {
            if next != loading {
                let name = canonical(sections[i].name->0);
                lemma_section_absent(loading.sections, name, 0);
                assert(next.sections.drop_last() =~= loading.sections);
            }
            lemma_loaded_within_budget(next, sections, data, is_64, broken, i + 1);
        }
    }
}

/// Loading keeps within its budget: no section is over the limit of one, together
/// they are not over the limit of all, only needed sections are kept, and none of
/// them stands twice.
pub proof fn law_sections_keep_within_budget(
    sections: Seq<SectionView>,
    data: Seq<u8>,
    is_64: bool,
    broken: DwarfError,
    found: Seq<(Seq<char>, Seq<u8>)>,
)
    requires
        loaded(sections, data, is_64, broken) == Ok::<Seq<(Seq<char>, Seq<u8>)>, DwarfError>(found),
    ensures
        total_bytes(found) <= MAX_TOTAL_DWARF_BYTES,
        forall|i: int|
            0 <= i < found.len() ==> is_needed((#[trigger] found[i]).0) && found[i].1.len()
                <= MAX_SECTION_BYTES,
        forall|i: int, j: int|
            0 <= i < j < found.len() ==> (#[trigger] found[i]).0 != (#[trigger] found[j]).0,
{
    lemma_loaded_within_budget(
        Loading { total: 0, sections: Seq::empty() },
        sections,
        data,
        is_64,
        broken,
        0,
    );
}

proof fn lemma_loading_ignores_failure(
    loading: Loading,
    sections: Seq<SectionView>,
    data: Seq<u8>,
    is_64: bool,
    broken: DwarfError,
    other: DwarfError,
    i: int,
)
    requires
        loaded_from(loading, sections, data, is_64, broken, i) is Ok,
    ensures
        loaded_from(loading, sections, data, is_64, other, i) == loaded_from(
            loading,
            sections,
            data,
            is_64,
            broken,
            i,
        ),
    decreases sections.len() - i,
{
    if 0 <= i < sections.len() {
        let next = loading.with(sections[i], data, is_64, broken)->Ok_0;
        lemma_loading_ignores_failure(next, sections, data, is_64, broken, other, i + 1);
    }
}

/// What is loaded does not depend on how a broken stream fails: sections are only
/// had of a file whose compressed ones are complete streams.
pub proof fn law_loaded_sections_are_complete(
    sections: Seq<SectionView>,
    data: Seq<u8>,
    is_64: bool,
    broken: DwarfError,
    other: DwarfError,
)
    requires
        loaded(sections, data, is_64, broken) is Ok,
    ensures
        loaded(sections, data, is_64, other) == loaded(sections, data, is_64, broken),
{
    lemma_loading_ignores_failure(
        Loading { total: 0, sections: Seq::empty() },
        sections,
        data,
        is_64,
        broken,
        other,
        0,
    );
}

/// Whether a compressed section is come to whose stream is then read: it lies in the
/// file, its header is in order, and its declared size is within the budget.
pub open spec fn reads_stream(
    total: u64,
    section: SectionView,
    data: Seq<u8>,
    is_64: bool,
) -> bool {
    is_compressed(section) && match section_input(section, data) {
        Err(_) => false,
        Ok(input) => match payload_in(input, is_64, is_legacy(section.name->0)) {
            Err(_) => false,
            Ok((declared, _)) => reserved(total, declared) is Ok,
        },
    }
}

/// Whether loading comes to a stream that is read, from index `i` on. Up to there no
/// memory is needed for sections.
pub open spec fn inflates_from(
    loading: Loading,
    sections: Seq<SectionView>,
    data: Seq<u8>,
    is_64: bool,
    i: int,
) -> bool
    decreases sections.len() - i,
{
    if i < 0 || i >= sections.len() {
        false
    } else if reads_stream(loading.total, sections[i], data, is_64) {
        true
    } else {
        match loading.with(sections[i], data, is_64, DwarfError::Parse) {
            Err(_) => false,
            Ok(next) => inflates_from(next, sections, data, is_64, i + 1),
        }
    }
}

/// Whether loading the needed sections of a file comes to a stream that is read.
pub open spec fn inflates(elf: Elf<'_>) -> bool {
    inflates_from(
        Loading { total: 0, sections: Seq::empty() },
        elf.tables@.sections,
        elf.data@,
        elf.tables.is_64,
        0,
    )
}

proof fn lemma_loading_without_streams(
    loading: Loading,
    sections: Seq<SectionView>,
    data: Seq<u8>,
    is_64: bool,
    broken: DwarfError,
    other: DwarfError,
    i: int,
)
    requires
        !inflates_from(loading, sections, data, is_64, i),
    ensures
        loaded_from(loading, sections, data, is_64, broken, i) == loaded_from(
            loading,
            sections,
            data,
            is_64,
            other,
            i,
        ),
    decreases sections.len() - i,
{
    if 0 <= i < sections.len() {
        let here = loading.with(sections[i], data, is_64, DwarfError::Parse);
        assert(loading.with(sections[i], data, is_64, broken) == here);
        assert(loading.with(sections[i], data, is_64, other) == here);
        if let Ok(next) = here {
            lemma_loading_without_streams(next, sections, data, is_64, broken, other, i + 1);
        }
    }
}

/// Where no stream is read, it does not matter how a broken one would fail.
pub proof fn lemma_no_stream_no_failure(elf: Elf<'_>, broken: DwarfError, other: DwarfError)
    requires
        !inflates(elf),
    ensures
        loaded_of(elf, broken) == loaded_of(elf, other),
{
    lemma_loading_without_streams(
        Loading { total: 0, sections: Seq::empty() },
        elf.tables@.sections,
        elf.data@,
        elf.tables.is_64,
        broken,
        other,
        0,
    );
}

proof fn lemma_plain_sections_read_no_stream(
    loading: Loading,
    sections: Seq<SectionView>,
    data: Seq<u8>,
    is_64: bool,
    i: int,
)
    requires
        forall|k: int| 0 <= k < sections.len() ==> !is_compressed(#[trigger] sections[k]),
    ensures
        !inflates_from(loading, sections, data, is_64, i),
    decreases sections.len() - i,
{
    if 0 <= i < sections.len() {
        assert(!is_compressed(sections[i]));
        if let Ok(next) = loading.with(sections[i], data, is_64, DwarfError::Parse) {
            lemma_plain_sections_read_no_stream(next, sections, data, is_64, i + 1);
        }
    }
}

/// A file none of whose needed sections is compressed has no stream to read.
pub proof fn law_plain_sections_read_no_stream(elf: Elf<'_>)
    requires
        forall|k: int|
            0 <= k < elf.tables@.sections.len() ==> !is_compressed(
                #[trigger] elf.tables@.sections[k],
            ),
    ensures
        !inflates(elf),
{
    lemma_plain_sections_read_no_stream(
        Loading { total: 0, sections: Seq::empty() },
        elf.tables@.sections,
        elf.data@,
        elf.tables.is_64,
        0,
    );
}

/// The needed sections of a file, with a broken stream that fails as `broken`.
pub open spec fn loaded_of(elf: Elf<'_>, broken: DwarfError) -> std::result::Result<
    Seq<(Seq<char>, Seq<u8>)>,
    DwarfError,
> {
    loaded(elf.tables@.sections, elf.data@, elf.tables.is_64, broken)
}

/// The sections that a file came to.
pub open spec fn store_outcome(r: Outcome<SectionStore<'_>>) -> std::result::Result<
    Seq<(Seq<char>, Seq<u8>)>,
    DwarfError,
> {
    match r {
        Ok(store) => Ok(store@),
        Err(e) => Err(e@),
    }
}

/// Whether `r` is the sections of a file or, where a stream is read, the lack of
/// memory for it. A broken stream fails to decode or has another size than was
/// declared.
pub open spec fn loading_is(elf: Elf<'_>, r: Outcome<SectionStore<'_>>) -> bool {
    ||| store_outcome(r) == loaded_of(elf, DwarfError::Parse)
    ||| store_outcome(r) == loaded_of(elf, size_differs())
    ||| inflates(elf) && is_lack_of_memory(store_outcome(r))
}

fn canonical_name(name: &str) -> (r: (bool, String))
    ensures
        r.0 == is_legacy(name@),
        r.1@ == canonical(name@),
{
    let chars: Vec<char> = text::chars_of(name);
    if text::has_prefix(&chars, ".zdebug_") {
        proof {
            reveal_strlit(".zdebug_");
        }
        (true, text::concat2(".debug_", text::tail(name, 8)))
    } else {
        (false, name.to_owned())
    }
}

fn input_of<'a>(section: &Section, data: &'a [u8]) -> (r: Outcome<&'a [u8]>)
    ensures
        r matches Ok(input) ==> section_input(section@, data@) == Ok::<Seq<u8>, DwarfError>(
            input@,
        ),
        r matches Err(e) ==> section_input(section@, data@) == Err::<Seq<u8>, DwarfError>(e@),
{
    if section.sh_offset > usize::MAX as u64 {
        return Err(DwarfLayoutError::Invalid("section offset overflow".to_owned()));
    }
    if section.sh_size > usize::MAX as u64 {
        return Err(DwarfLayoutError::Invalid("section size overflow".to_owned()));
    }
    let start: usize = section.sh_offset as usize;
    let size: usize = section.sh_size as usize;
    let end: usize = match start.checked_add(size) {
        Some(end) => end,
        None => return Err(DwarfLayoutError::Limit("section range")),
    };
    if end > data.len() {
        return Err(DwarfLayoutError::Invalid("section is outside ELF".to_owned()));
    }
    Ok(&data[start..end])
}

/// Load the sections that the layout is read from, within a budget of bytes.
pub fn load_sections<'a>(elf: &Elf<'a>) -> (r: Outcome<SectionStore<'a>>)
    ensures
        loading_is(*elf, r),
        !inflates(*elf) ==> store_outcome(r) == loaded_of(*elf, DwarfError::Parse),
        r matches Err(DwarfLayoutError::Parse(what)) ==> text::starts_with(what@, "zlib: "@),
{
    let mut total: u64 = 0;
    let mut store: SectionStore<'a> = SectionStore { sections: Vec::new() };
    let data: &'a [u8] = elf.data;
    let is_64: bool = elf.is_64bit();
    let ghost all = elf.tables@.sections;
    let mut i: usize = 0;
    assert(store@ =~= Seq::empty());
    while i < elf.tables.sections.len()
        invariant
            i <= elf.tables.sections@.len(),
            all == elf.tables@.sections,
            data@ == elf.data@,
            is_64 == elf.tables.is_64,
            forall|broken: DwarfError|
                loaded_from(
                    Loading { total, sections: store@ },
                    all,
                    data@,
                    is_64,
                    broken,
                    i as int,
                ) == #[trigger] loaded_of(*elf, broken),
            inflates_from(Loading { total, sections: store@ }, all, data@, is_64, i as int)
                ==> inflates(*elf),
        decreases elf.tables.sections@.len() - i,
    {
        let section: &Section = &elf.tables.sections[i];
        assert(all[i as int] == section@);
        i = i + 1;
        let name: &String = match &section.name {
            Some(name) => name,
            None => continue,
        };
        let (legacy, canonical_name): (bool, String) = canonical_name(name);
        if !is_layout_section(&canonical_name) {
            continue;
        }
        let input: &'a [u8] = match input_of(section, data) {
            Ok(input) => input,
            Err(e) => return Err(e),
        };
        let compressed: bool = legacy || section.sh_flags & SHF_COMPRESSED != 0;
        let bytes: SectionData<'a> = if compressed {
            assert(is_compressed(all[i - 1]));
            let ghost before = total;
            let (declared, payload): (u64, &'a [u8]) = match compressed_payload(
                elf,
                input,
                legacy,
            ) {
                Ok(v) => v,
                Err(e) => return Err(e),
            };
            // The expanded size is what determines memory use.
            if let Err(e) = reserve_section(&mut total, declared) {
                return Err(e);
            }
            assert(reads_stream(before, all[i - 1], data@, is_64));
            match decompress(payload, declared) {
                Ok(bytes) => SectionData::Owned(bytes),
                Err(e) => return Err(e),
            }
        } else {
            if let Err(e) = reserve_section(&mut total, section.sh_size) {
                return Err(e);
            }
            SectionData::Borrowed(input)
        };
        if store.get(&canonical_name).is_some() {
            return Err(DwarfLayoutError::Invalid("duplicate canonical DWARF section".to_owned()));
        }
        let ghost before = store@;
        store.sections.push(NamedSection { name: canonical_name, data: bytes });
        assert(store@ =~= before.push((canonical_name@, bytes.contents())));
    }
    Ok(store)
}

} // verus!
