//! Which sections are loaded, and what bytes they have.

use vstd::prelude::*;

use crate::elf;
use crate::elf::image::SectionView;
use crate::elf::image_laws;
use crate::elf::Elf;

use super::sections;
use super::sections::{Loading, SectionStore, Sections};
use super::{DwarfError, Outcome};

verus! {

/// The sections that a layout is read from.
pub open spec fn is_layout_section(name: Seq<char>) -> bool {
    ||| name == ".debug_abbrev"@
    ||| name == ".debug_addr"@
    ||| name == ".debug_info"@
    ||| name == ".debug_line"@
    ||| name == ".debug_line_str"@
    ||| name == ".debug_str"@
    ||| name == ".debug_str_offsets"@
    ||| name == ".debug_types"@
}

/// The beginning of the names of sections that are compressed in the old way.
pub open spec fn old_prefix() -> Seq<char> {
    seq!['.', 'z', 'd', 'e', 'b', 'u', 'g', '_']
}

/// The beginning of the names of other debug sections.
pub open spec fn prefix() -> Seq<char> {
    seq!['.', 'd', 'e', 'b', 'u', 'g', '_']
}

/// A name has the old beginning.
pub open spec fn is_old(name: Seq<char>) -> bool {
    name.len() >= 8 && name.take(8) == old_prefix()
}

proof fn lemma_prefixes()
    ensures
        ".zdebug_"@ == old_prefix(),
        ".debug_"@ == prefix(),
{
    reveal_strlit(".zdebug_");
    reveal_strlit(".debug_");
    assert(".zdebug_"@ =~= old_prefix());
    assert(".debug_"@ =~= prefix());
}

/// A section goes by its name; where that has the old beginning, by the same name without
/// the `z`.
pub proof fn law_old_names_lose_their_z(rest: Seq<char>, name: Seq<char>)
    ensures
        sections::canonical(old_prefix() + rest) == prefix() + rest,
        sections::is_legacy(old_prefix() + rest),
        !is_old(name) ==> sections::canonical(name) == name && !sections::is_legacy(name),
{
    lemma_prefixes();
    let old = old_prefix() + rest;
    assert(old.take(8) =~= old_prefix());
    assert(old.skip(8) =~= rest);
}

/// The number that eight bytes spell, the first being the most significant.
pub open spec fn spelled_big(b: Seq<u8>, off: int) -> int {
    0x1_0000_0000 * (0x100_0000 * b[off] + 0x1_0000 * b[off + 1] + 0x100 * b[off + 2] + b[off + 3])
        + 0x100_0000 * b[off + 4] + 0x1_0000 * b[off + 5] + 0x100 * b[off + 6] + b[off + 7]
}

/// The bytes of a section compressed in the old way: the letters `ZLIB`, the size in eight
/// bytes, most significant first, and a stream that inflates to as many.
pub open spec fn is_old_stream(input: Seq<u8>, bytes: Seq<u8>) -> bool {
    &&& input.len() >= 12
    &&& input.take(4) == seq!['Z' as u8, 'L' as u8, 'I' as u8, 'B' as u8]
    &&& spelled_big(input, 4) == bytes.len()
    &&& sections::inflated(input.skip(12)) == Some(bytes)
}

/// The bytes of a section that is flagged as compressed: a header with the number 1 for the
/// kind of stream and with the size, then a stream that inflates to as many. The header has
/// 24 bytes in a 64-bit file, with the size in eight from byte 8 on; 12 in a 32-bit file,
/// with the size in four from byte 4 on.
pub open spec fn is_stream(input: Seq<u8>, wide: bool, bytes: Seq<u8>) -> bool {
    &&& elf::u32_le_at(input, 0) == Some(1u32)
    &&& wide ==> {
        &&& input.len() >= 24
        &&& image_laws::spelled(input, 8) == bytes.len()
        &&& sections::inflated(input.skip(24)) == Some(bytes)
    }
    &&& !wide ==> {
        &&& input.len() >= 12
        &&& elf::u32_le_at(input, 4) is Some && elf::u32_le_at(input, 4)->0 == bytes.len()
        &&& sections::inflated(input.skip(12)) == Some(bytes)
    }
}

/// A section of a file is the source of these bytes under this name.
pub open spec fn is_source(
    section: SectionView,
    data: Seq<u8>,
    wide: bool,
    name: Seq<char>,
    bytes: Seq<u8>,
) -> bool {
    let end = section.sh_offset + section.sh_size;
    let input = data.subrange(section.sh_offset as int, end);
    let old = is_old(section.name->0);
    let flagged = section.sh_flags & 0x800 != 0;
    &&& section.name is Some
    &&& old ==> name == prefix() + section.name->0.skip(8)
    &&& !old ==> name == section.name->0
    &&& is_layout_section(name)
    &&& end <= data.len()
    &&& old ==> is_old_stream(input, bytes)
    &&& !old && flagged ==> is_stream(input, wide, bytes)
    &&& !old && !flagged ==> bytes == input
}

proof fn lemma_canonical(name: Seq<char>)
    ensures
        sections::is_legacy(name) == is_old(name),
        is_old(name) ==> sections::canonical(name) == prefix() + name.skip(8),
        !is_old(name) ==> sections::canonical(name) == name,
{
    lemma_prefixes();
    if is_old(name) {
        assert(name =~= old_prefix() + name.skip(8));
    }
}

proof fn lemma_big(b: Seq<u8>, off: int)
    ensures
        sections::be_at(b, off, 8) == spelled_big(b, off),
        0 <= spelled_big(b, off) <= u64::MAX,
{
    reveal_with_fuel(sections::be_at, 9);
}

proof fn lemma_old_stream(input: Seq<u8>, wide: bool, bytes: Seq<u8>)
    requires
        sections::payload_in(input, wide, true) matches Ok((declared, payload)) && declared
            == bytes.len() && sections::inflated(payload) == Some(bytes),
    ensures
        is_old_stream(input, bytes),
{
    lemma_big(input, 4);
    assert(input.take(4) =~= seq!['Z' as u8, 'L' as u8, 'I' as u8, 'B' as u8]);
}

proof fn lemma_stream(input: Seq<u8>, wide: bool, bytes: Seq<u8>)
    requires
        sections::payload_in(input, wide, false) matches Ok((declared, payload)) && declared
            == bytes.len() && sections::inflated(payload) == Some(bytes),
    ensures
        is_stream(input, wide, bytes),
{
    image_laws::law_numbers_are_little_endian(input, 8);
    image_laws::law_numbers_are_little_endian(input, 4);
}

/// What one section adds.
proof fn lemma_added(
    loading: Loading,
    section: SectionView,
    data: Seq<u8>,
    wide: bool,
    broken: DwarfError,
)
    ensures
        loading.with(section, data, wide, broken) matches Ok(next) ==> {
            ||| next == loading && (section.name is None || !is_layout_section(
                sections::canonical(section.name->0),
            ))
            ||| exists|name: Seq<char>, bytes: Seq<u8>| #[trigger]
                is_source(section, data, wide, name, bytes) && next.sections
                    == loading.sections.push((name, bytes))
        },
{
    if let Ok(next) = loading.with(section, data, wide, broken) {
        if section.name is Some && sections::is_needed(sections::canonical(section.name->0)) {
            let own = section.name->0;
            lemma_canonical(own);
            let name = sections::canonical(own);
            let input = sections::section_input(section, data)->Ok_0;
            let bytes = (sections::section_bytes(
                loading.total,
                section,
                input,
                wide,
                broken,
            )->Ok_0).1;
            if sections::is_compressed(section) {
                let legacy = sections::is_legacy(own);
                let (declared, payload) = sections::payload_in(input, wide, legacy)->Ok_0;
                assert(sections::decompressed(payload, declared, broken) == Ok::<
                    Seq<u8>,
                    DwarfError,
                >(bytes));
                if legacy {
                    lemma_old_stream(input, wide, bytes);
                } else {
                    lemma_stream(input, wide, bytes);
                }
            }
            assert(is_source(section, data, wide, name, bytes));
            assert(next.sections == loading.sections.push((name, bytes)));
        }
    }
}

proof fn lemma_one_source(
    section: SectionView,
    data: Seq<u8>,
    wide: bool,
    a: (Seq<char>, Seq<u8>),
    b: (Seq<char>, Seq<u8>),
)
    requires
        is_source(section, data, wide, a.0, a.1),
        is_source(section, data, wide, b.0, b.1),
    ensures
        a == b,
{
}

proof fn lemma_loaded(
    loading: Loading,
    list: Seq<SectionView>,
    data: Seq<u8>,
    wide: bool,
    broken: DwarfError,
    i: int,
    name: Seq<char>,
    bytes: Seq<u8>,
)
    requires
        0 <= i <= list.len(),
    ensures
        sections::loaded_from(loading, list, data, wide, broken, i) matches Ok(found) ==> (
        found.contains((name, bytes)) <==> loading.sections.contains((name, bytes)) || exists|k: int|
            i <= k < list.len() && is_source(#[trigger] list[k], data, wide, name, bytes)),
    decreases list.len() - i,
{
    if i < list.len() {
        if let Ok(next) = loading.with(list[i], data, wide, broken) {
            lemma_added(loading, list[i], data, wide, broken);
            lemma_loaded(next, list, data, wide, broken, i + 1, name, bytes);
            let x = (name, bytes);
            let before = loading.sections;
            if list[i].name is Some {
                lemma_canonical(list[i].name->0);
            }
            assert(next.sections.contains(x) <==> before.contains(x) || is_source(
                list[i],
                data,
                wide,
                name,
                bytes,
            )) by {
                if exists|n: Seq<char>, b: Seq<u8>| #[trigger]
                    is_source(list[i], data, wide, n, b) && next.sections == before.push((n, b)) {
                    let (n, b) = choose|n: Seq<char>, b: Seq<u8>| #[trigger]
                        is_source(list[i], data, wide, n, b) && next.sections == before.push(
                            (n, b),
                        );
                    assert(next.sections[before.len() as int] == (n, b));
                    if before.contains(x) {
                        let k = choose|k: int| 0 <= k < before.len() && before[k] == x;
                        assert(next.sections[k] == x);
                    }
                    if is_source(list[i], data, wide, name, bytes) {
                        lemma_one_source(list[i], data, wide, x, (n, b));
                    }
                    if next.sections.contains(x) {
                        let k = choose|k: int| 0 <= k < next.sections.len() && next.sections[k]
                            == x;
                        if k < before.len() {
                            assert(before[k] == x);
                        }
                    }
                }
            }
        }
    }
}

/// The sections that are loaded are those of the file that a layout is read from, all of
/// them: each under its name, with the bytes that the file holds or, where these are
/// compressed, that they inflate to.
pub proof fn law_loaded_sections_are_those_of_the_file(
    list: Seq<SectionView>,
    data: Seq<u8>,
    wide: bool,
    broken: DwarfError,
    found: Sections,
    name: Seq<char>,
    bytes: Seq<u8>,
)
    requires
        sections::loaded(list, data, wide, broken) == Ok::<Sections, DwarfError>(found),
    ensures
        found.contains((name, bytes)) <==> exists|k: int|
            0 <= k < list.len() && is_source(#[trigger] list[k], data, wide, name, bytes),
{
    lemma_loaded(
        Loading { total: 0, sections: Seq::empty() },
        list,
        data,
        wide,
        broken,
        0,
        name,
        bytes,
    );
}

proof fn lemma_bytes(found: Sections, name: Seq<char>, i: int, k: int)
    requires
        0 <= i <= k < found.len(),
        found[k].0 == name,
        forall|j: int| 0 <= j < k ==> (#[trigger] found[j]).0 != name,
    ensures
        sections::section_from(found, name, i) == Some(found[k].1),
    decreases k - i,
{
    if i < k {
        assert(found[i].0 != name);
        lemma_bytes(found, name, i + 1, k);
    }
}

proof fn lemma_no_bytes(found: Sections, name: Seq<char>, i: int)
    requires
        0 <= i,
        forall|j: int| i <= j < found.len() ==> (#[trigger] found[j]).0 != name,
    ensures
        sections::section_from(found, name, i) is None,
    decreases found.len() - i,
{
    if i < found.len() {
        assert(found[i].0 != name);
        lemma_no_bytes(found, name, i + 1);
    }
}

/// The bytes of a name are those of the first section by that name; there are none where
/// no section has it.
pub proof fn law_bytes_are_those_of_the_first(found: Sections, name: Seq<char>, k: int)
    ensures
        0 <= k < found.len() && found[k].0 == name && (forall|j: int|
            0 <= j < k ==> (#[trigger] found[j]).0 != name) ==> sections::bytes_of(found, name)
            == found[k].1,
        (forall|j: int| 0 <= j < found.len() ==> (#[trigger] found[j]).0 != name)
            ==> sections::bytes_of(found, name).len() == 0,
{
    if 0 <= k < found.len() && found[k].0 == name && (forall|j: int|
        0 <= j < k ==> (#[trigger] found[j]).0 != name) {
        lemma_bytes(found, name, 0, k);
    }
    if forall|j: int| 0 <= j < found.len() ==> (#[trigger] found[j]).0 != name {
        lemma_no_bytes(found, name, 0);
    }
}

/// A section is within the budget exactly where it has 64 mebibytes at most and all
/// together have 256 at most; it is then counted.
pub proof fn law_budget(total: u64, size: u64)
    ensures
        sections::reserved(total, size) is Ok <==> size <= 0x400_0000 && total + size
            <= 0x1000_0000,
        sections::reserved(total, size) matches Ok(sum) ==> sum == total + size,
        size > 0x400_0000 ==> sections::reserved(total, size) == Err::<u64, DwarfError>(
            DwarfError::Limit("DWARF section bytes"@),
        ),
        size <= 0x400_0000 && total + size > 0x1000_0000 ==> sections::reserved(total, size)
            == Err::<u64, DwarfError>(DwarfError::Limit("total DWARF bytes"@)),
{
}

/// The bytes of a section are those of the file from its offset on, as many as it has,
/// where the file has them all.
pub proof fn law_section_bytes_are_those_of_the_file(section: SectionView, data: Seq<u8>)
    requires
        data.len() <= usize::MAX,
    ensures
        sections::section_input(section, data) is Ok <==> section.sh_offset + section.sh_size
            <= data.len(),
        sections::section_input(section, data) matches Ok(bytes) ==> {
            &&& bytes.len() == section.sh_size
            &&& forall|i: int|
                0 <= i < bytes.len() ==> #[trigger] bytes[i] == data[section.sh_offset + i]
        },
{
}

/// A compressed section is had exactly where its stream inflates to as many bytes as were
/// declared; where it inflates to another number, that is said.
pub proof fn law_declared_size_is_held(
    payload: Seq<u8>,
    declared: u64,
    broken: DwarfError,
    bytes: Seq<u8>,
)
    requires
        declared < usize::MAX,
    ensures
        sections::decompressed(payload, declared, broken) == Ok::<Seq<u8>, DwarfError>(bytes)
            <==> sections::inflated(payload) == Some(bytes) && bytes.len() == declared,
        sections::inflated(payload) is None ==> sections::decompressed(payload, declared, broken)
            == Err::<Seq<u8>, DwarfError>(broken),
        sections::inflated(payload) == Some(bytes) && bytes.len() != declared
            ==> sections::decompressed(payload, declared, broken) == Err::<Seq<u8>, DwarfError>(
            DwarfError::Invalid("decompressed size differs from section header"@),
        ),
{
}

/// Loading gives the sections of the file, or what is wrong with them. Only where a stream
/// is inflated can a lack of memory end it, and only there can a broken stream be told in
/// one of two ways.
pub proof fn law_only_streams_need_memory(elf: Elf<'_>, r: Outcome<SectionStore<'_>>)
    requires
        sections::loading_is(elf, r),
    ensures
        ({
            let found = sections::store_outcome(r);
            &&& !sections::inflates(elf) ==> found == sections::loaded(
                elf.tables@.sections,
                elf.data@,
                elf.tables.is_64,
                DwarfError::Parse,
            )
            &&& found is Ok ==> found == sections::loaded(
                elf.tables@.sections,
                elf.data@,
                elf.tables.is_64,
                DwarfError::Parse,
            )
            &&& found == sections::loaded(
                elf.tables@.sections,
                elf.data@,
                elf.tables.is_64,
                DwarfError::Parse,
            ) || found == sections::loaded(
                elf.tables@.sections,
                elf.data@,
                elf.tables.is_64,
                DwarfError::Invalid("decompressed size differs from section header"@),
            ) || found == Err::<Sections, DwarfError>(DwarfError::Limit("section allocation"@))
                || found == Err::<Sections, DwarfError>(DwarfError::Parse)
        }),
{
    let differs = sections::size_differs();
    if !sections::inflates(elf) {
        sections::lemma_no_stream_no_failure(elf, DwarfError::Parse, differs);
    }
    if sections::loaded_of(elf, differs) is Ok {
        sections::law_loaded_sections_are_complete(
            elf.tables@.sections,
            elf.data@,
            elf.tables.is_64,
            differs,
            DwarfError::Parse,
        );
    }
}

} // verus!
