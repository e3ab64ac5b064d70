//! How a debug link is stored, and what ties a debug file to its libc.

use vstd::prelude::*;

use crate::elf;
use crate::elf::image::SectionView;
use crate::elf::note_laws;
use crate::elf::notes;
use crate::elf::Elf;

use super::debuglink;

verus! {

/// A number in four bytes, the most significant first.
pub open spec fn four_bytes_big(v: u32) -> Seq<u8> {
    note_laws::four_bytes(v).reverse()
}

/// The data of a link: the name of the debug file, a zero byte, filled up to a multiple
/// of four bytes, then a checksum in four bytes.
pub open spec fn stored(name: Seq<u8>, fill: Seq<u8>, crc: Seq<u8>, behind: Seq<u8>) -> Seq<u8> {
    name + seq![0u8] + fill + crc + behind
}

proof fn lemma_stored(name: Seq<u8>, fill: Seq<u8>, crc: Seq<u8>, behind: Seq<u8>)
    requires
        forall|k: int| 0 <= k < name.len() ==> name[k] != 0,
        fill.len() < 4,
        (name.len() + 1 + fill.len()) % 4 == 0,
        crc.len() == 4,
    ensures
        ({
            let data = stored(name, fill, crc, behind);
            let at: int = name.len() + 1 + fill.len() as int;
            &&& elf::nul_from(data, 0) == name.len()
            &&& notes::padded(name.len() as int + 1) == at
            &&& at + 4 <= data.len()
            &&& data.subrange(at, at + 4) == crc
            &&& data[at] == crc[0] && data[at + 1] == crc[1]
            &&& data[at + 2] == crc[2] && data[at + 3] == crc[3]
        }),
{
    let data = stored(name, fill, crc, behind);
    let at: int = name.len() + 1 + fill.len() as int;
    let n: int = name.len() as int;
    elf::lemma_nul_from(data, 0);
    assert(data[n] == 0);
    let nul = elf::nul_from(data, 0);
    if nul < n {
        assert(data[nul] == name[nul]);
    }
    assert(nul == n);
    assert(data.subrange(at, at + 4) =~= crc);
}

/// A stored checksum is read back in either byte order, whatever stands behind it.
pub proof fn law_stored_checksums_are_read_back(
    name: Seq<u8>,
    fill: Seq<u8>,
    crc: u32,
    behind: Seq<u8>,
)
    requires
        name.len() > 0,
        forall|k: int| 0 <= k < name.len() ==> name[k] != 0,
        fill.len() < 4,
        (name.len() + 1 + fill.len()) % 4 == 0,
    ensures
        debuglink::link_crc(stored(name, fill, note_laws::four_bytes(crc), behind), true) == Ok::<
            u32,
            Seq<char>,
        >(crc),
        debuglink::link_crc(stored(name, fill, four_bytes_big(crc), behind), false) == Ok::<
            u32,
            Seq<char>,
        >(crc),
{
    reveal(note_laws::four_bytes);
    let little = note_laws::four_bytes(crc);
    let big = four_bytes_big(crc);
    let at: int = name.len() + 1 + fill.len() as int;
    lemma_stored(name, fill, little, behind);
    lemma_stored(name, fill, big, behind);
    note_laws::lemma_four_bytes(crc, stored(name, fill, little, behind), at);
}

/// A link without a name, without the zero byte behind its name or without all four bytes
/// of its checksum is malformed.
pub proof fn law_cut_links_are_malformed(
    name: Seq<u8>,
    fill: Seq<u8>,
    crc: Seq<u8>,
    cut: int,
    little_endian: bool,
)
    requires
        forall|k: int| 0 <= k < name.len() ==> name[k] != 0,
        fill.len() < 4,
        (name.len() + 1 + fill.len()) % 4 == 0,
        crc.len() == 4,
        0 <= cut <= stored(name, fill, crc, Seq::empty()).len(),
        name.len() == 0 || cut < stored(name, fill, crc, Seq::empty()).len(),
    ensures
        debuglink::link_crc(stored(name, fill, crc, Seq::empty()).take(cut), little_endian) == Err::<
            u32,
            Seq<char>,
        >("runtime libc has malformed .gnu_debuglink data"@),
{
    let whole = stored(name, fill, crc, Seq::empty());
    let data = whole.take(cut);
    lemma_stored(name, fill, crc, Seq::empty());
    elf::lemma_nul_from(data, 0);
    let n: int = name.len() as int;
    let nul = elf::nul_from(data, 0);
    if cut > n {
        assert(data[n] == whole[n] && whole[n] == 0);
        if nul < n {
            assert(data[nul] == name[nul]);
        }
        assert(nul == n);
    } else {
        if nul < cut {
            assert(data[nul] == name[nul]);
        }
        assert(nul == cut);
    }
}

/// A section that holds a debug link.
pub open spec fn is_link(section: SectionView) -> bool {
    section.name == Some(".gnu_debuglink"@)
}

proof fn lemma_no_more_links(
    sections: Seq<SectionView>,
    data: Seq<u8>,
    little_endian: bool,
    i: int,
    found: Option<u32>,
)
    requires
        0 <= i,
        forall|k: int| i <= k < sections.len() ==> !is_link(#[trigger] sections[k]),
    ensures
        debuglink::link_crc_from(sections, data, little_endian, i, found) == Ok::<
            Option<u32>,
            Seq<char>,
        >(found),
    decreases sections.len() - i,
{
    if i < sections.len() {
        assert(!is_link(sections[i]));
        lemma_no_more_links(sections, data, little_endian, i + 1, found);
    }
}

proof fn lemma_skip_to(
    sections: Seq<SectionView>,
    data: Seq<u8>,
    little_endian: bool,
    i: int,
    k: int,
    found: Option<u32>,
)
    requires
        0 <= i <= k <= sections.len(),
        forall|j: int| i <= j < k ==> !is_link(#[trigger] sections[j]),
    ensures
        debuglink::link_crc_from(sections, data, little_endian, i, found)
            == debuglink::link_crc_from(sections, data, little_endian, k, found),
    decreases k - i,
{
    if i < k {
        assert(!is_link(sections[i]));
        lemma_skip_to(sections, data, little_endian, i + 1, k, found);
    }
}

/// The checksum of a file is that of its only debug link, as the file holds it. A file
/// without a link has none; one with two is refused.
pub proof fn law_a_file_has_one_link(elf: Elf<'_>, k: int, part: Seq<u8>)
    requires
        elf.data@.len() <= usize::MAX,
        0 <= k <= elf.tables@.sections.len(),
        forall|j: int| 0 <= j < k ==> !is_link(#[trigger] elf.tables@.sections[j]),
        k < elf.tables@.sections.len() ==> ({
            let link = elf.tables@.sections[k];
            &&& is_link(link)
            &&& link.sh_offset + link.sh_size <= elf.data@.len() ==> part == elf.data@.subrange(
                link.sh_offset as int,
                link.sh_offset + link.sh_size,
            )
        }),
    ensures
        k == elf.tables@.sections.len() ==> debuglink::link_crc_of(elf) == Ok::<
            Option<u32>,
            Seq<char>,
        >(None),
        k < elf.tables@.sections.len() ==> ({
            let link = elf.tables@.sections[k];
            let crc = debuglink::link_crc(part, elf.tables.little_endian);
            let another = exists|j: int|
                k < j < elf.tables@.sections.len() && is_link(#[trigger] elf.tables@.sections[j]);
            &&& link.sh_offset + link.sh_size > elf.data@.len() ==> debuglink::link_crc_of(elf)
                is Err
            &&& link.sh_offset + link.sh_size <= elf.data@.len() ==> match crc {
                Err(e) => debuglink::link_crc_of(elf) == Err::<Option<u32>, Seq<char>>(e),
                Ok(c) => debuglink::link_crc_of(elf) == if another {
                    Err::<Option<u32>, Seq<char>>(
                        "runtime libc has duplicate .gnu_debuglink sections"@,
                    )
                } else {
                    Ok(Some(c))
                },
            }
        }),
{
    let sections = elf.tables@.sections;
    let little = elf.tables.little_endian;
    lemma_skip_to(sections, elf.data@, little, 0, k, None);
    if k < sections.len() {
        let crc = debuglink::link_crc(part, little);
        if let Ok(c) = crc {
            if exists|j: int| k < j < sections.len() && is_link(#[trigger] sections[j]) {
                lemma_another(sections, elf.data@, little, k + 1, c);
            } else {
                assert forall|j: int| k + 1 <= j < sections.len() implies !is_link(
                    #[trigger] sections[j],
                ) by {}
                lemma_no_more_links(sections, elf.data@, little, k + 1, Some(c));
            }
        }
    }
}

proof fn lemma_another(
    sections: Seq<SectionView>,
    data: Seq<u8>,
    little_endian: bool,
    i: int,
    crc: u32,
)
    requires
        0 <= i,
        exists|j: int| i <= j < sections.len() && is_link(#[trigger] sections[j]),
    ensures
        debuglink::link_crc_from(sections, data, little_endian, i, Some(crc)) == Err::<
            Option<u32>,
            Seq<char>,
        >("runtime libc has duplicate .gnu_debuglink sections"@),
    decreases sections.len() - i,
{
    if !is_link(sections[i]) {
        let j = choose|j: int| i <= j < sections.len() && is_link(#[trigger] sections[j]);
        assert(i + 1 <= j && is_link(sections[j]));
        lemma_another(sections, data, little_endian, i + 1, crc);
    }
}

/// The build-id of a file is never empty. It is that of its note segments; only where
/// these have none, that of its note sections.
pub proof fn law_build_id_is_sought_in_segments_first(elf: Elf<'_>, id: Seq<u8>)
    ensures
        ({
            let in_segments = notes::build_id_from(
                notes::all_notes(elf.tables.program_headers@, elf.data@),
                0,
            );
            let in_sections = notes::section_build_id_from(
                elf.tables@.sections,
                elf.data@,
                0,
            );
            &&& debuglink::build_id_of(elf) == Some(id) <==> id.len() > 0 && (in_segments == Some(
                id,
            ) || (in_segments is None && in_sections == Some(id)))
        }),
{
}

/// A debug file for another target is refused, whatever else it holds; of one for the same
/// target, it is said whether build-ids, checksums or the lack of both speak against it.
pub proof fn law_refusals_say_why(runtime: Elf<'_>, debug: Elf<'_>)
    ensures
        ({
            let same_target = runtime.tables.machine == debug.tables.machine && (
            runtime.tables.is_64 <==> debug.tables.is_64);
            let ids = (debuglink::build_id_of(runtime), debuglink::build_id_of(debug));
            let both = ids.0 is Some && ids.1 is Some;
            let r = debuglink::pairing(runtime, debug);
            &&& !same_target ==> r == Err::<(), Seq<char>>(
                "debuginfo ABI does not match the runtime libc"@,
            )
            &&& same_target && both && ids.0 != ids.1 ==> r == Err::<(), Seq<char>>(
                "debuginfo build-id does not match the runtime libc"@,
            )
            &&& same_target && both && ids.0 == ids.1 ==> r is Ok
            &&& same_target && !both ==> match debuglink::link_crc_of(runtime) {
                Err(e) => r == Err::<(), Seq<char>>(e),
                Ok(None) => r == Err::<(), Seq<char>>(
                    "runtime libc and debuginfo have no matching build-id or .gnu_debuglink CRC"@,
                ),
                Ok(Some(crc)) => {
                    &&& crc == debuglink::crc32(debug.data@) ==> r is Ok
                    &&& crc != debuglink::crc32(debug.data@) ==> r == Err::<(), Seq<char>>(
                        "debuginfo .gnu_debuglink CRC does not match the runtime libc"@,
                    )
                },
            }
        }),
{
}

} // verus!
