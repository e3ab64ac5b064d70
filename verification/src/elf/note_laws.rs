//! How notes are laid out in bytes, and which of them carry a build-id.

use vstd::prelude::*;

use super::image;
use super::image::{ProgramHeader, SectionView};
use super::image_laws;
use super::notes;
use super::notes::NoteView;

verus! {

/// A number in four bytes, the least significant first.
#[verifier::opaque]
pub open spec fn four_bytes(v: u32) -> Seq<u8> {
    seq![
        (v % 0x100) as u8,
        (v / 0x100 % 0x100) as u8,
        (v / 0x1_0000 % 0x100) as u8,
        (v / 0x100_0000) as u8,
    ]
}

/// A note as it is stored: the lengths of name and descriptor, the type, then the name
/// and the descriptor, each filled up to a multiple of four bytes.
pub open spec fn stored(
    note_type: u32,
    name: Seq<u8>,
    name_fill: Seq<u8>,
    desc: Seq<u8>,
    desc_fill: Seq<u8>,
) -> Seq<u8> {
    four_bytes(name.len() as u32) + four_bytes(desc.len() as u32) + four_bytes(note_type) + name
        + name_fill + desc + desc_fill
}

proof fn lemma_four_bytes_len(v: u32)
    ensures
        four_bytes(v).len() == 4,
{
    reveal(four_bytes);
}

/// Where the parts of a stored note stand.
proof fn lemma_parts(
    a: Seq<u8>,
    b: Seq<u8>,
    c: Seq<u8>,
    name: Seq<u8>,
    name_fill: Seq<u8>,
    desc: Seq<u8>,
    desc_fill: Seq<u8>,
)
    requires
        a.len() == 4,
        b.len() == 4,
        c.len() == 4,
    ensures
        ({
            let data = a + b + c + name + name_fill + desc + desc_fill;
            let at: int = 12 + name.len() as int + name_fill.len();
            &&& data.len() == at + desc.len() + desc_fill.len()
            &&& data.subrange(0, 4) == a
            &&& data.subrange(4, 8) == b
            &&& data.subrange(8, 12) == c
            &&& data.subrange(12, 12 + name.len() as int) == name
            &&& data.subrange(at, at + desc.len()) == desc
        }),
{
    let data = a + b + c + name + name_fill + desc + desc_fill;
    let at: int = 12 + name.len() as int + name_fill.len();
    assert(data.subrange(0, 4) =~= a);
    assert(data.subrange(4, 8) =~= b);
    assert(data.subrange(8, 12) =~= c);
    assert(data.subrange(12, 12 + name.len() as int) =~= name);
    assert(data.subrange(at, at + desc.len()) =~= desc);
}

/// A number reads back from its four bytes.
pub proof fn lemma_four_bytes(v: u32, data: Seq<u8>, off: int)
    requires
        0 <= off,
        off + 4 <= data.len(),
        data.subrange(off, off + 4) == four_bytes(v),
    ensures
        super::le_at(data, off, 4) == v,
{
    reveal(four_bytes);
    let part = data.subrange(off, off + 4);
    assert(part[0] == data[off] && part[1] == data[off + 1]);
    assert(part[2] == data[off + 2] && part[3] == data[off + 3]);
    image_laws::law_numbers_are_little_endian(data, off);
    super::lemma_u32_range(data, off);
}

proof fn lemma_stored(
    note_type: u32,
    name: Seq<u8>,
    name_fill: Seq<u8>,
    desc: Seq<u8>,
    desc_fill: Seq<u8>,
)
    requires
        name.len() <= u32::MAX,
        desc.len() <= u32::MAX,
        name_fill.len() < 4,
        desc_fill.len() < 4,
        (name.len() + name_fill.len()) % 4 == 0,
        (desc.len() + desc_fill.len()) % 4 == 0,
    ensures
        ({
            let data = stored(note_type, name, name_fill, desc, desc_fill);
            let at: int = 12 + name.len() as int + name_fill.len();
            &&& notes::sizes_at(data, 0) == (name.len() as int, desc.len() as int)
            &&& super::le_at(data, 8, 4) == note_type
            &&& data.subrange(12, 12 + name.len() as int) == name
            &&& notes::padded(12 + name.len() as int) == at
            &&& data.subrange(at, at + desc.len()) == desc
            &&& notes::record_end(data, 0) == at + desc.len()
            &&& notes::padded(at + desc.len()) == data.len()
            &&& data.len() % 4 == 0
        }),
{
    let data = stored(note_type, name, name_fill, desc, desc_fill);
    let at: int = 12 + name.len() as int + name_fill.len();
    lemma_four_bytes_len(name.len() as u32);
    lemma_four_bytes_len(desc.len() as u32);
    lemma_four_bytes_len(note_type);
    lemma_parts(
        four_bytes(name.len() as u32),
        four_bytes(desc.len() as u32),
        four_bytes(note_type),
        name,
        name_fill,
        desc,
        desc_fill,
    );
    lemma_four_bytes(name.len() as u32, data, 0);
    lemma_four_bytes(desc.len() as u32, data, 4);
    lemma_four_bytes(note_type, data, 8);
}

/// A stored note is read back: its type, its descriptor byte for byte and its name up to
/// the first zero byte, where that is text; a note whose name is no text is passed over.
/// What is stored behind it is read as if it stood alone.
pub proof fn law_stored_notes_are_read_back(
    note_type: u32,
    label: Seq<u8>,
    ending: Seq<u8>,
    name_fill: Seq<u8>,
    desc: Seq<u8>,
    desc_fill: Seq<u8>,
    behind: Seq<u8>,
)
    requires
        label.len() + ending.len() <= u32::MAX,
        desc.len() <= u32::MAX,
        name_fill.len() < 4,
        desc_fill.len() < 4,
        (label.len() + ending.len() + name_fill.len()) % 4 == 0,
        (desc.len() + desc_fill.len()) % 4 == 0,
        forall|k: int| 0 <= k < label.len() ==> label[k] != 0,
        ending.len() > 0 ==> ending[0] == 0,
    ensures
        notes::notes_from(
            stored(note_type, label + ending, name_fill, desc, desc_fill) + behind,
            0,
        ) == if vstd::utf8::valid_utf8(label) {
            seq![NoteView { name: vstd::utf8::decode_utf8(label), note_type, desc }]
                + notes::notes_from(behind, 0)
        } else {
            notes::notes_from(behind, 0)
        },
{
    let name = label + ending;
    let data = stored(note_type, name, name_fill, desc, desc_fill);
    lemma_stored(note_type, name, name_fill, desc, desc_fill);
    let len: int = data.len() as int;
    super::lemma_nul_from(name, 0);
    let nul = super::nul_from(name, 0);
    if nul < label.len() {
        assert(name[nul] == label[nul]);
    }
    if nul > label.len() {
        assert(name[label.len() as int] == ending[0]);
    }
    assert(name.take(nul) =~= label);
    notes::lemma_record_advances(data, 0);
    assert(notes::record_fits(data, 0));
    assert(notes::padded(notes::record_end(data, 0)) == len);
    assert(notes::whole_records(data, len));
    assert(notes::whole_records(data, 0));
    assert(!notes::record_fits(data, len));
    assert(notes::notes_from(data, len) =~= Seq::empty());
    notes::law_walk_goes_on_behind_whole_records(data, behind);
    let rest = notes::notes_from(behind, 0);
    if vstd::utf8::valid_utf8(label) {
        let note = NoteView { name: vstd::utf8::decode_utf8(label), note_type, desc };
        assert(notes::record_at(data, 0) == note);
        assert(notes::notes_from(data, 0) =~= seq![note]);
    } else {
        assert(notes::notes_from(data, 0) =~= Seq::empty());
        assert(Seq::<NoteView>::empty() + rest =~= rest);
    }
}

/// A note that is cut off, in its header or behind it, is none, and nothing is read
/// behind it.
pub proof fn law_cut_notes_are_not_read(
    note_type: u32,
    name: Seq<u8>,
    name_fill: Seq<u8>,
    desc: Seq<u8>,
    cut: int,
)
    requires
        name.len() <= u32::MAX,
        desc.len() <= u32::MAX,
        name_fill.len() < 4,
        (name.len() + name_fill.len()) % 4 == 0,
        0 <= cut < 12 + name.len() + name_fill.len() + desc.len(),
    ensures
        notes::notes_from(
            stored(note_type, name, name_fill, desc, Seq::empty()).take(cut),
            0,
        ).len() == 0,
{
    let whole = stored(note_type, name, name_fill, desc, Seq::empty());
    let data = whole.take(cut);
    lemma_four_bytes_len(name.len() as u32);
    lemma_four_bytes_len(desc.len() as u32);
    lemma_four_bytes_len(note_type);
    lemma_parts(
        four_bytes(name.len() as u32),
        four_bytes(desc.len() as u32),
        four_bytes(note_type),
        name,
        name_fill,
        desc,
        Seq::empty(),
    );
    if cut >= 12 {
        assert(data.subrange(0, 4) =~= whole.subrange(0, 4));
        assert(data.subrange(4, 8) =~= whole.subrange(4, 8));
        lemma_four_bytes(name.len() as u32, data, 0);
        lemma_four_bytes(desc.len() as u32, data, 4);
        assert(notes::padded(12 + name.len() as int) == 12 + name.len() + name_fill.len());
        assert(!notes::record_fits(data, 0));
    }
}

proof fn lemma_segments_skip(headers: Seq<ProgramHeader>, data: Seq<u8>, i: int)
    requires
        0 <= i <= headers.len(),
    ensures
        notes::notes_of_segments(headers, data, i) == notes::notes_of_segments(
            headers.skip(i),
            data,
            0,
        ),
    decreases headers.len() - i,
{
    if i < headers.len() {
        lemma_segments_skip(headers, data, i + 1);
        lemma_segments_skip(headers.skip(i), data, 1);
        assert(headers.skip(i).skip(1) =~= headers.skip(i + 1));
    }
}

/// The notes of a file are those of its note segments, one after the other; a segment of
/// another type, or one that is not all in the file, has none.
pub proof fn law_notes_are_those_of_the_note_segments(
    header: ProgramHeader,
    headers: Seq<ProgramHeader>,
    data: Seq<u8>,
    before: Seq<u8>,
    here: Seq<u8>,
    behind: Seq<u8>,
)
    requires
        data == before + here + behind,
        header.p_offset == before.len(),
        header.p_filesz == here.len(),
    ensures
        notes::all_notes(Seq::empty(), data).len() == 0,
        notes::all_notes(seq![header] + headers, data) == if header.p_type == 4 {
            notes::notes_from(here, 0) + notes::all_notes(headers, data)
        } else {
            notes::all_notes(headers, data)
        },
        notes::all_notes(seq![header] + headers, before) == notes::all_notes(headers, before)
            || here.len() == 0,
{
    let all = seq![header] + headers;
    lemma_segments_skip(all, data, 1);
    lemma_segments_skip(all, before, 1);
    assert(all.skip(1) =~= headers);
    assert(data.subrange(before.len() as int, (before.len() + here.len()) as int) =~= here);
    let rest = notes::all_notes(headers, data);
    assert(Seq::<NoteView>::empty() + rest =~= rest);
    let shorter = notes::all_notes(headers, before);
    assert(Seq::<NoteView>::empty() + shorter =~= shorter);
}

/// Note `k` is the first that carries a build-id.
pub open spec fn carries_first(list: Seq<NoteView>, k: int) -> bool {
    &&& 0 <= k < list.len()
    &&& list[k].note_type == 3 && list[k].name == "GNU"@
    &&& forall|j: int|
        0 <= j < k ==> (#[trigger] list[j]).note_type != 3 || list[j].name != "GNU"@
}

proof fn lemma_build_id(list: Seq<NoteView>, i: int, k: int)
    requires
        0 <= i <= k,
        carries_first(list, k),
    ensures
        notes::build_id_from(list, i) == Some(list[k].desc),
    decreases k - i,
{
    if i < k {
        assert(list[i].note_type != 3 || list[i].name != "GNU"@);
        lemma_build_id(list, i + 1, k);
    }
}

proof fn lemma_no_build_id(list: Seq<NoteView>, i: int)
    requires
        0 <= i,
        forall|j: int|
            i <= j < list.len() ==> (#[trigger] list[j]).note_type != 3 || list[j].name != "GNU"@,
    ensures
        notes::build_id_from(list, i) is None,
    decreases list.len() - i,
{
    if i < list.len() {
        assert(list[i].note_type != 3 || list[i].name != "GNU"@);
        lemma_no_build_id(list, i + 1);
    }
}

/// The build-id among notes is the descriptor of the first GNU note of type three, and
/// there is none where no such note is.
pub proof fn law_build_id_is_that_of_the_first_note(list: Seq<NoteView>, k: int)
    ensures
        carries_first(list, k) ==> notes::build_id_from(list, 0) == Some(list[k].desc),
        (forall|j: int|
            0 <= j < list.len() ==> (#[trigger] list[j]).note_type != 3 || list[j].name
                != "GNU"@) ==> notes::build_id_from(list, 0) is None,
{
    if carries_first(list, k) {
        lemma_build_id(list, 0, k);
    }
    if forall|j: int|
        0 <= j < list.len() ==> (#[trigger] list[j]).note_type != 3 || list[j].name != "GNU"@ {
        lemma_no_build_id(list, 0);
    }
}

/// The build-id in a section, where it is a note section that is all in the file.
pub open spec fn id_in_section(section: SectionView, data: Seq<u8>, id: Seq<u8>) -> bool {
    &&& section.sh_type == 7
    &&& section.sh_offset + section.sh_size <= data.len()
    &&& notes::build_id_from(
        notes::notes_from(
            data.subrange(
                section.sh_offset as int,
                section.sh_offset + section.sh_size,
            ),
            0,
        ),
        0,
    ) == Some(id)
}

proof fn lemma_section_id(sections: Seq<SectionView>, data: Seq<u8>, i: int)
    requires
        0 <= i,
    ensures
        match notes::section_build_id_from(sections, data, i) {
            Some(id) => exists|k: int|
                i <= k < sections.len() && id_in_section(#[trigger] sections[k], data, id) && (
                forall|j: int, other: Seq<u8>|
                    i <= j < k ==> !#[trigger] id_in_section(sections[j], data, other)),
            None => forall|j: int, other: Seq<u8>|
                i <= j < sections.len() ==> !#[trigger] id_in_section(sections[j], data, other),
        },
    decreases sections.len() - i,
{
    if i < sections.len() {
        lemma_section_id(sections, data, i + 1);
        let r = notes::section_build_id_from(sections, data, i);
        if exists|id: Seq<u8>| id_in_section(sections[i], data, id) {
            let id = choose|id: Seq<u8>| id_in_section(sections[i], data, id);
            assert(r == Some(id));
            assert(id_in_section(sections[i], data, id));
        } else {
            assert forall|other: Seq<u8>| !id_in_section(sections[i], data, other) by {}
            let rest = notes::section_build_id_from(sections, data, i + 1);
            assert(r == rest) by {
                let s = sections[i];
                if s.sh_type == 7 && s.sh_offset + s.sh_size <= data.len() {
                    let here = notes::build_id_from(
                        notes::notes_from(
                            data.subrange(s.sh_offset as int, s.sh_offset + s.sh_size),
                            0,
                        ),
                        0,
                    );
                    if here is Some {
                        assert(id_in_section(s, data, here->0));
                    }
                }
            }
            if let Some(id) = r {
                let k = choose|k: int|
                    i + 1 <= k < sections.len() && id_in_section(#[trigger] sections[k], data, id)
                        && (forall|j: int, other: Seq<u8>|
                        i + 1 <= j < k ==> !#[trigger] id_in_section(sections[j], data, other));
                assert forall|j: int, other: Seq<u8>| i <= j < k implies !#[trigger] id_in_section(
                    sections[j],
                    data,
                    other,
                ) by {
                    if j == i {
                        assert(!id_in_section(sections[i], data, other));
                    }
                }
                assert(id_in_section(sections[k], data, id));
            }
        }
    }
}

/// The build-id of the note sections is that of the first such section which has one.
pub proof fn law_section_build_id_is_the_first(sections: Seq<SectionView>, data: Seq<u8>)
    ensures
        match notes::section_build_id_from(sections, data, 0) {
            Some(id) => exists|k: int|
                0 <= k < sections.len() && id_in_section(#[trigger] sections[k], data, id) && (
                forall|j: int, other: Seq<u8>|
                    0 <= j < k ==> !#[trigger] id_in_section(sections[j], data, other)),
            None => forall|j: int, other: Seq<u8>|
                0 <= j < sections.len() ==> !#[trigger] id_in_section(sections[j], data, other),
        },
{
    lemma_section_id(sections, data, 0);
}

/// Where program header `i` of a memory image is: by the offset of the first and the size
/// of each, as the header of a 64-bit or a 32-bit file says.
pub open spec fn header_at(buf: Seq<u8>, wide: bool, i: int) -> int {
    if wide {
        super::u64_le_at(buf, 32)->0 + i * super::u16_le_at(buf, 54)->0
    } else {
        super::u32_le_at(buf, 28)->0 + i * super::u16_le_at(buf, 42)->0
    }
}

/// The number of program headers of a memory image.
pub open spec fn header_count(buf: Seq<u8>, wide: bool) -> int {
    if wide {
        super::u16_le_at(buf, 56)->0 as int
    } else {
        super::u16_le_at(buf, 44)->0 as int
    }
}

/// The file header of a memory image can be read that far, and says whether it is wide.
pub open spec fn is_image(buf: Seq<u8>, wide: bool) -> bool {
    &&& buf.len() >= 5 && buf.take(4) == seq![127u8, 'E' as u8, 'L' as u8, 'F' as u8]
    &&& wide ==> buf[4] == 2 && buf.len() >= 58
    &&& !wide ==> buf[4] == 1 && buf.len() >= 46
}

/// Program header `i` of a memory image can be read, and is not of a note segment.
pub open spec fn is_other_header(buf: Seq<u8>, wide: bool, i: int) -> bool {
    super::u32_le_at(buf, header_at(buf, wide, i)) matches Some(p_type) && p_type != 4
}

/// Program header `i` of a memory image is of a note segment `[from, to)` that is all in
/// the image.
pub open spec fn is_note_header(buf: Seq<u8>, wide: bool, i: int, from: int, to: int) -> bool {
    let at = header_at(buf, wide, i);
    &&& super::u32_le_at(buf, at) == Some(4u32)
    &&& 0 <= from <= to <= buf.len()
    &&& wide ==> (super::u64_le_at(buf, at + 8) matches Some(offset) && offset == from)
    &&& wide ==> (super::u64_le_at(buf, at + 32) matches Some(size) && size == to - from)
    &&& !wide ==> (super::u32_le_at(buf, at + 4) matches Some(offset) && offset == from)
    &&& !wide ==> (super::u32_le_at(buf, at + 16) matches Some(size) && size == to - from)
}

/// The build-id among the notes in a part of a memory image.
pub open spec fn id_in(buf: Seq<u8>, from: int, to: int) -> Option<Seq<u8>> {
    notes::build_id_from(notes::notes_from(buf.subrange(from, to), 0), 0)
}

/// Program header `i` of a memory image leads to no build-id and lets the search go on.
pub open spec fn is_passed(buf: Seq<u8>, wide: bool, i: int) -> bool {
    ||| is_other_header(buf, wide, i)
    ||| exists|from: int, to: int| #[trigger]
        is_note_header(buf, wide, i, from, to) && id_in(buf, from, to) is None
}

proof fn lemma_raw_table(buf: Seq<u8>, wide: bool)
    requires
        is_image(buf, wide),
    ensures
        notes::raw_class(buf) == Some(wide),
        notes::raw_table(buf, wide) is Some,
        ({
            let table = notes::raw_table(buf, wide)->0;
            &&& table.2 == header_count(buf, wide)
            &&& forall|i: int| #[trigger] header_at(buf, wide, i) == table.0 + i * table.1
        }),
{
    image_laws::law_magic_is_four_bytes(buf);
}

proof fn lemma_raw_passed(buf: Seq<u8>, wide: bool, i: int)
    requires
        is_image(buf, wide),
        0 <= i < header_count(buf, wide),
        is_passed(buf, wide, i),
    ensures
        ({
            let table = notes::raw_table(buf, wide)->0;
            notes::raw_build_id_from(buf, wide, table, i) == notes::raw_build_id_from(
                buf,
                wide,
                table,
                i + 1,
            )
        }),
{
    lemma_raw_table(buf, wide);
    let table = notes::raw_table(buf, wide)->0;
    let at = header_at(buf, wide, i);
    assert(at == table.0 + i * table.1);
    if !is_other_header(buf, wide, i) {
        let (from, to) = choose|from: int, to: int| #[trigger]
            is_note_header(buf, wide, i, from, to) && id_in(buf, from, to) is None;
        assert(notes::raw_range(buf, wide, at) == Some((from as u64, (to - from) as u64)));
    }
}

proof fn lemma_raw_found(buf: Seq<u8>, wide: bool, i: int, k: int, from: int, to: int)
    requires
        is_image(buf, wide),
        0 <= i <= k < header_count(buf, wide),
        forall|j: int| 0 <= j < k ==> #[trigger] is_passed(buf, wide, j),
        is_note_header(buf, wide, k, from, to),
        id_in(buf, from, to) is Some,
    ensures
        notes::raw_build_id_from(buf, wide, notes::raw_table(buf, wide)->0, i) == id_in(
            buf,
            from,
            to,
        ),
    decreases k - i,
{
    lemma_raw_table(buf, wide);
    if i < k {
        assert(is_passed(buf, wide, i));
        lemma_raw_passed(buf, wide, i);
        lemma_raw_found(buf, wide, i + 1, k, from, to);
    } else {
        let table = notes::raw_table(buf, wide)->0;
        let at = header_at(buf, wide, i);
        assert(at == table.0 + i * table.1);
        assert(notes::raw_range(buf, wide, at) == Some((from as u64, (to - from) as u64)));
    }
}

proof fn lemma_raw_stops(buf: Seq<u8>, wide: bool, i: int, k: int)
    requires
        is_image(buf, wide),
        0 <= i <= k <= header_count(buf, wide),
        forall|j: int| 0 <= j < k ==> #[trigger] is_passed(buf, wide, j),
        k < header_count(buf, wide) ==> !is_other_header(buf, wide, k) && forall|
            from: int,
            to: int,
        |
            !#[trigger] is_note_header(buf, wide, k, from, to),
    ensures
        notes::raw_build_id_from(buf, wide, notes::raw_table(buf, wide)->0, i) is None,
    decreases k - i,
{
    lemma_raw_table(buf, wide);
    if i < k {
        assert(is_passed(buf, wide, i));
        lemma_raw_passed(buf, wide, i);
        lemma_raw_stops(buf, wide, i + 1, k);
    } else if k < header_count(buf, wide) {
        let table = notes::raw_table(buf, wide)->0;
        let at = header_at(buf, wide, i);
        assert(at == table.0 + i * table.1);
        if let Some(range) = notes::raw_range(buf, wide, at) {
            let from: int = range.0 as int;
            let to: int = range.0 + range.1;
            assert(!is_note_header(buf, wide, k, from, to));
        }
    }
}

/// The build-id in a memory image is that of the first note segment which has one, found
/// by the program headers that its file header tells of. A header that cannot be read,
/// and a note segment that is not all in the image, end the search; so do the headers.
/// What does not start as an image has none.
pub proof fn law_image_build_id_is_the_first(buf: Seq<u8>, wide: bool, k: int, from: int, to: int)
    ensures
        !is_image(buf, true) && !is_image(buf, false) ==> notes::raw_build_id(buf) is None,
        is_image(buf, wide) && 0 <= k < header_count(buf, wide) && (forall|j: int|
            0 <= j < k ==> #[trigger] is_passed(buf, wide, j)) && is_note_header(
            buf,
            wide,
            k,
            from,
            to,
        ) && id_in(buf, from, to) is Some ==> notes::raw_build_id(buf) == id_in(buf, from, to),
        is_image(buf, wide) && 0 <= k <= header_count(buf, wide) && (forall|j: int|
            0 <= j < k ==> #[trigger] is_passed(buf, wide, j)) && (k < header_count(buf, wide) ==> (
        !is_other_header(buf, wide, k) && forall|f: int, t: int|
            !#[trigger] is_note_header(buf, wide, k, f, t))) ==> notes::raw_build_id(buf) is None,
{
    image_laws::law_magic_is_four_bytes(buf);
    if is_image(buf, wide) {
        lemma_raw_table(buf, wide);
        if 0 <= k <= header_count(buf, wide) && (forall|j: int|
            0 <= j < k ==> #[trigger] is_passed(buf, wide, j)) {
            if k < header_count(buf, wide) && is_note_header(buf, wide, k, from, to) && id_in(
                buf,
                from,
                to,
            ) is Some {
                lemma_raw_found(buf, wide, 0, k, from, to);
            }
            if k < header_count(buf, wide) ==> !is_other_header(buf, wide, k) && forall|
                f: int,
                t: int,
            |
                !#[trigger] is_note_header(buf, wide, k, f, t) {
                lemma_raw_stops(buf, wide, 0, k);
            }
        }
    }
}

} // verus!
