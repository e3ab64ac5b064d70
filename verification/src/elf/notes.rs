//! ELF note parsing.
//!
//! Two callers: [`walk_all_notes`] over a fully-parsed ELF (core-dump notes,
//! reference-libc build-id), and [`build_id_from_raw_buffer`] over a bare chunk
//! of memory read out of a core at a library's load address, which is *not* a
//! complete, section-header-bearing ELF. Everything here is truncation-tolerant:
//! a short or malformed buffer yields fewer notes (or `None`), never a panic.

use vstd::prelude::*;

use crate::text;

use super::image;
use super::image::{starts_with_magic, ElfTables, ProgramHeader, Section, PT_NOTE, SHT_NOTE};
use super::{find_nul, read_u16_le, read_u32_le, read_word};

verus! {

pub const NT_GNU_BUILD_ID: u32 = 3;

#[derive(Debug)]
pub struct Note<'a> {
    /// Note name with its trailing NUL stripped. Callers compare this directly
    /// against `"CORE"`, `"GNU"`, etc.; the raw record stores e.g. `b"CORE\0"`
    /// and a missed trim would break every one of those comparisons.
    pub name: &'a str,
    pub note_type: u32,
    pub desc: &'a [u8],
}

/// A [`Note`] with its name and descriptor as sequences.
#[verifier::ext_equal]
pub struct NoteView {
    pub name: Seq<char>,
    pub note_type: u32,
    pub desc: Seq<u8>,
}

impl<'a> View for Note<'a> {
    type V = NoteView;

    open spec fn view(&self) -> NoteView {
        NoteView { name: self.name@, note_type: self.note_type, desc: self.desc@ }
    }
}

/// The views of notes, in order.
pub open spec fn views(notes: Seq<Note<'_>>) -> Seq<NoteView> {
    notes.map_values(|n: Note<'_>| n@)
}

/// The least multiple of four not below `n`.
pub open spec fn padded(n: int) -> int {
    (n + 3) / 4 * 4
}

/// Sizes of the name and the descriptor of the record at `off`.
pub open spec fn sizes_at(data: Seq<u8>, off: int) -> (int, int) {
    (super::le_at(data, off, 4), super::le_at(data, off + 4, 4))
}

/// The note record at `off`: a header of three words (name size, descriptor size,
/// type), the name padded to four bytes, the descriptor.
pub open spec fn record_at(data: Seq<u8>, off: int) -> NoteView {
    let (namesz, descsz) = sizes_at(data, off);
    let name = data.subrange(off + 12, off + 12 + namesz);
    let desc_start = padded(off + 12 + namesz);
    NoteView {
        name: vstd::utf8::decode_utf8(name.take(super::nul_from(name, 0))),
        note_type: super::le_at(data, off + 8, 4) as u32,
        desc: data.subrange(desc_start, desc_start + descsz),
    }
}

/// Where the descriptor of the record at `off` ends.
pub open spec fn record_end(data: Seq<u8>, off: int) -> int {
    let (namesz, descsz) = sizes_at(data, off);
    padded(off + 12 + namesz) + descsz
}

/// Whether the name of the record at `off`, up to its first zero byte, is text.
pub open spec fn name_is_text(data: Seq<u8>, off: int) -> bool {
    let name = data.subrange(off + 12, off + 12 + sizes_at(data, off).0);
    vstd::utf8::valid_utf8(name.take(super::nul_from(name, 0)))
}

/// Whether a whole record starts at `off`.
pub open spec fn record_fits(data: Seq<u8>, off: int) -> bool {
    &&& 0 <= off
    &&& off + 12 <= data.len()
    &&& record_end(data, off) <= data.len()
}

/// The notes of a segment from `off` on. A record whose name is no text is passed
/// over; the first that does not fit ends the list.
pub open spec fn notes_from(data: Seq<u8>, off: int) -> Seq<NoteView>
    decreases data.len() + 4 - off,
{
    if !record_fits(data, off) {
        Seq::empty()
    } else {
        proof {
            lemma_record_advances(data, off);
        }
        let rest = notes_from(data, padded(record_end(data, off)));
        if name_is_text(data, off) {
            seq![record_at(data, off)] + rest
        } else {
            rest
        }
    }
}

/// A record is at least as long as its header.
pub proof fn lemma_record_advances(data: Seq<u8>, off: int)
    requires
        0 <= off,
        off + 12 <= data.len(),
    ensures
        sizes_at(data, off).0 >= 0,
        sizes_at(data, off).1 >= 0,
        off + 12 <= record_end(data, off) <= padded(record_end(data, off)),
        padded(record_end(data, off)) <= record_end(data, off) + 3,
{
    super::lemma_u32_range(data, off);
    super::lemma_u32_range(data, off + 4);
}

/// Round up to the next multiple of 4, or `None` on overflow.
pub fn align4(n: usize) -> (r: Option<usize>)
    ensures
        r matches Some(v) ==> v == padded(n as int),
        r is None <==> n + 3 > usize::MAX,
{
    match n.checked_add(3) {
        Some(x) => Some(x / 4 * 4),
        None => None,
    }
}

/// Appending a note appends its view.
proof fn lemma_views_push(notes: Seq<Note<'_>>, n: Note<'_>)
    ensures
        views(notes.push(n)) == views(notes).push(n@),
{
    assert(views(notes.push(n)) =~= views(notes).push(n@));
}

/// Walk one note segment: a sequence of `namesz(4) descsz(4) type(4)` headers,
/// each followed by the name (padded to 4 bytes) and descriptor (padded to 4).
pub fn walk_note_segment<'a>(data: &'a [u8]) -> (r: Vec<Note<'a>>)
    ensures
        views(r@) == notes_from(data@, 0),
{
    let mut notes: Vec<Note<'a>> = Vec::new();
    let mut off: usize = 0;
    let len: usize = data.len();
    assert(views(notes@) =~= Seq::empty());
    assert(Seq::<NoteView>::empty() + notes_from(data@, 0) =~= notes_from(data@, 0));
    // Each iteration consumes at least the 12-byte header, so this terminates.
    while off <= len && len - off >= 12
        invariant_except_break
            views(notes@) + notes_from(data@, off as int) == notes_from(data@, 0),
        invariant
            len == data@.len(),
        ensures
            views(notes@) == notes_from(data@, 0),
        decreases data@.len() + 4 - off,
    {
        let ghost before = notes@;
        proof {
            lemma_record_advances(data@, off as int);
            super::lemma_u32_range(data@, off as int);
            super::lemma_u32_range(data@, off + 4);
            assert(views(notes@) + Seq::<NoteView>::empty() =~= views(notes@));
        }
        let (namesz, descsz, ntype): (usize, usize, u32) = match (
            read_u32_le(data, off),
            read_u32_le(data, off + 4),
            read_u32_le(data, off + 8),
        ) {
            (Some(namesz), Some(descsz), Some(ntype)) => (namesz as usize, descsz as usize, ntype),
            _ => break,
        };
        let name_start: usize = off + 12;
        let name_end: usize = match name_start.checked_add(namesz) {
            Some(v) => v,
            None => break,
        };
        if name_end > len {
            break;
        }
        let desc_start: usize = match align4(name_end) {
            Some(v) => v,
            None => break,
        };
        let desc_end: usize = match desc_start.checked_add(descsz) {
            Some(v) => v,
            None => break,
        };
        if desc_end > len {
            break;
        }
        let name_bytes: &'a [u8] = &data[name_start..name_end];
        let desc: &'a [u8] = &data[desc_start..desc_end];
        // No record starts behind one whose padding no index reaches.
        let next: usize = match align4(desc_end) {
            Some(v) => v,
            None => len,
        };
        assert(notes_from(data@, next as int) == notes_from(data@, padded(desc_end as int)));
        // Keep the note only if its name is valid UTF-8 (note names are ASCII in
        // practice); either way advance past it so a weird name doesn't desync
        // the walk.
        let trimmed: &'a [u8] = match find_nul(name_bytes, 0) {
            Some(nul) => &name_bytes[0..nul],
            None => name_bytes,
        };
        proof {
            let name = data@.subrange(name_start as int, name_end as int);
            super::lemma_nul_from(name, 0);
            assert(trimmed@ =~= name.take(super::nul_from(name, 0)));
        }
        if let Some(name) = text::utf8_text(trimmed) {
            notes.push(Note { name, note_type: ntype, desc });
            proof {
                lemma_views_push(before, notes@.last());
                assert(notes@ =~= before.push(notes@.last()));
                assert(notes@.last()@ == record_at(data@, off as int));
                let rest = notes_from(data@, padded(desc_end as int));
                assert(views(before) + (seq![record_at(data@, off as int)] + rest) =~= views(notes@)
                    + rest);
            }
        }
        off = next;
    }
    notes
}

/// Whether the bytes from `off` on are whole records, each padded to four bytes.
pub open spec fn whole_records(data: Seq<u8>, off: int) -> bool
    decreases data.len() - off,
{
    if off == data.len() {
        true
    } else {
        proof {
            if record_fits(data, off) {
                lemma_record_advances(data, off);
            }
        }
        record_fits(data, off) && padded(record_end(data, off)) <= data.len() && whole_records(
            data,
            padded(record_end(data, off)),
        )
    }
}

/// A record reads the same in a part of the bytes that holds it and starts at a
/// multiple of four.
proof fn lemma_record_in_part(data: Seq<u8>, start: int, end: int, off: int)
    requires
        0 <= start <= end <= data.len(),
        start % 4 == 0,
        0 <= off,
        off + 12 <= end - start,
    ensures
        sizes_at(data.subrange(start, end), off) == sizes_at(data, start + off),
        record_end(data, start + off) == start + record_end(data.subrange(start, end), off),
        padded(record_end(data, start + off)) == start + padded(
            record_end(data.subrange(start, end), off),
        ),
        record_end(data.subrange(start, end), off) <= end - start ==> {
            &&& record_at(data.subrange(start, end), off) == record_at(data, start + off)
            &&& name_is_text(data.subrange(start, end), off) == name_is_text(data, start + off)
        },
{
    let part = data.subrange(start, end);
    image::lemma_le_at_subrange(data, start, end, off, 4);
    image::lemma_le_at_subrange(data, start, end, off + 4, 4);
    image::lemma_le_at_subrange(data, start, end, off + 8, 4);
    lemma_record_advances(part, off);
    let (namesz, descsz) = sizes_at(part, off);
    let name_end = off + 12 + namesz;
    assert(padded(start + name_end) == start + padded(name_end));
    assert(padded(start + record_end(part, off)) == start + padded(record_end(part, off)));
    if record_end(part, off) <= end - start {
        assert(name_end <= padded(name_end));
        assert(part.subrange(off + 12, name_end) =~= data.subrange(
            start + off + 12,
            start + name_end,
        ));
        let desc_start = padded(name_end);
        assert(part.subrange(desc_start, desc_start + descsz) =~= data.subrange(
            start + desc_start,
            start + desc_start + descsz,
        ));
    }
}

/// The notes behind whole records are those of the bytes there.
proof fn lemma_notes_behind(a: Seq<u8>, b: Seq<u8>, off: int)
    requires
        a.len() % 4 == 0,
        0 <= off,
    ensures
        notes_from(a + b, a.len() + off) == notes_from(b, off),
    decreases b.len() + 4 - off,
{
    let all = a + b;
    let start: int = a.len() as int;
    if off + 12 <= b.len() {
        assert(all.subrange(start, all.len() as int) =~= b);
        lemma_record_in_part(all, start, all.len() as int, off);
        lemma_record_advances(b, off);
        if record_fits(b, off) {
            lemma_notes_behind(a, b, padded(record_end(b, off)));
        }
    }
}

proof fn lemma_notes_before(a: Seq<u8>, b: Seq<u8>, off: int)
    requires
        0 <= off <= a.len(),
        off % 4 == 0,
        whole_records(a, off),
    ensures
        a.len() % 4 == 0,
        notes_from(a + b, off) == notes_from(a, off) + notes_from(b, 0),
    decreases a.len() - off,
{
    let all = a + b;
    if off == a.len() {
        lemma_notes_behind(a, b, 0);
        assert(notes_from(a, off) =~= Seq::empty());
        assert(Seq::<NoteView>::empty() + notes_from(b, 0) =~= notes_from(b, 0));
    } else {
        let next = padded(record_end(a, off));
        assert(all.subrange(0, a.len() as int) =~= a);
        lemma_record_in_part(all, 0, a.len() as int, off);
        lemma_record_advances(a, off);
        lemma_notes_before(a, b, next);
        let rest = notes_from(a, next);
        if name_is_text(a, off) {
            let here = seq![record_at(a, off)];
            assert(here + (rest + notes_from(b, 0)) =~= here + rest + notes_from(b, 0));
        }
    }
}

/// Records are walked one by one: behind whole padded records, whatever their names
/// are, the walk goes on as if it started there.
pub proof fn law_walk_goes_on_behind_whole_records(a: Seq<u8>, b: Seq<u8>)
    requires
        whole_records(a, 0),
    ensures
        notes_from(a + b, 0) == notes_from(a, 0) + notes_from(b, 0),
{
    lemma_notes_before(a, b, 0);
}

/// The notes of the `PT_NOTE` segments from header `i` on. A segment outside the
/// file has none.
pub open spec fn notes_of_segments(
    headers: Seq<ProgramHeader>,
    data: Seq<u8>,
    i: int,
) -> Seq<NoteView>
    decreases headers.len() - i,
{
    if i < 0 || i >= headers.len() {
        Seq::empty()
    } else {
        let ph = headers[i];
        let end = ph.p_offset + ph.p_filesz;
        let here = if ph.p_type == PT_NOTE && end <= data.len() {
            notes_from(data.subrange(ph.p_offset as int, end), 0)
        } else {
            Seq::empty()
        };
        here + notes_of_segments(headers, data, i + 1)
    }
}

/// The notes of every `PT_NOTE` segment of a file, in order.
pub open spec fn all_notes(headers: Seq<ProgramHeader>, data: Seq<u8>) -> Seq<NoteView> {
    notes_of_segments(headers, data, 0)
}

/// The bytes `[offset, offset + size)` of a file, where it has them all.
pub fn file_range<'a>(data: &'a [u8], offset: u64, size: u64) -> (r: Option<&'a [u8]>)
    ensures
        r is Some <==> offset + size <= data@.len(),
        r matches Some(part) ==> part@ == data@.subrange(offset as int, offset + size),
{
    let len: usize = data.len();
    match offset.checked_add(size) {
        Some(end) => if end <= len as u64 {
            Some(&data[offset as usize..end as usize])
        } else {
            None
        },
        None => None,
    }
}

/// Collect the notes from every `PT_NOTE` segment of a parsed ELF.
pub fn walk_all_notes<'a>(elf: &ElfTables, data: &'a [u8]) -> (r: Vec<Note<'a>>)
    ensures
        views(r@) == all_notes(elf.program_headers@, data@),
{
    let mut notes: Vec<Note<'a>> = Vec::new();
    let mut i: usize = 0;
    assert(views(notes@) + all_notes(elf.program_headers@, data@) =~= all_notes(
        elf.program_headers@,
        data@,
    ));
    while i < elf.program_headers.len()
        invariant
            i <= elf.program_headers@.len(),
            views(notes@) + notes_of_segments(elf.program_headers@, data@, i as int) == all_notes(
                elf.program_headers@,
                data@,
            ),
        decreases elf.program_headers@.len() - i,
    {
        let ph: ProgramHeader = elf.program_headers[i];
        let ghost before = notes@;
        let ghost rest = notes_of_segments(elf.program_headers@, data@, i + 1);
        if ph.p_type == PT_NOTE {
            if let Some(segment) = file_range(data, ph.p_offset, ph.p_filesz) {
                let mut found = walk_note_segment(segment);
                let ghost here = found@;
                notes.append(&mut found);
                proof {
                    assert(views(notes@) =~= views(before) + views(here));
                }
            }
        }
        i = i + 1;
        proof {
            let here = if ph.p_type == PT_NOTE && ph.p_offset + ph.p_filesz <= data@.len() {
                notes_from(
                    data@.subrange(ph.p_offset as int, ph.p_offset + ph.p_filesz),
                    0,
                )
            } else {
                Seq::<NoteView>::empty()
            };
            assert(views(notes@) =~= views(before) + here);
            assert(views(before) + (here + rest) =~= views(notes@) + rest);
        }
    }
    assert(views(notes@) + Seq::<NoteView>::empty() =~= views(notes@));
    notes
}

/// A GNU build-id note.
pub open spec fn is_build_id(note: NoteView) -> bool {
    note.note_type == NT_GNU_BUILD_ID && note.name == "GNU"@
}

/// The descriptor of the first build-id note, from index `i` on.
pub open spec fn build_id_from(notes: Seq<NoteView>, i: int) -> Option<Seq<u8>>
    decreases notes.len() - i,
{
    if i < 0 || i >= notes.len() {
        None
    } else if is_build_id(notes[i]) {
        Some(notes[i].desc)
    } else {
        build_id_from(notes, i + 1)
    }
}

/// The bytes of a build-id that may be absent.
pub open spec fn id_bytes(id: Option<Vec<u8>>) -> Option<Seq<u8>> {
    match id {
        Some(v) => Some(v@),
        None => None,
    }
}

/// The GNU build-id bytes, if present.
pub fn build_id(notes: &[Note<'_>]) -> (r: Option<Vec<u8>>)
    ensures
        id_bytes(r) == build_id_from(views(notes@), 0),
{
    let mut i: usize = 0;
    while i < notes.len()
        invariant
            i <= notes@.len(),
            build_id_from(views(notes@), i as int) == build_id_from(views(notes@), 0),
        decreases notes@.len() - i,
    {
        let note: &Note<'_> = &notes[i];
        assert(views(notes@)[i as int] == note@);
        if note.note_type == NT_GNU_BUILD_ID && text::str_equal(note.name, "GNU") {
            return Some(vstd::slice::slice_to_vec(note.desc));
        }
        i = i + 1;
    }
    None
}

/// The build-id in the `SHT_NOTE` sections from index `i` on.
pub open spec fn section_build_id_from(
    sections: Seq<image::SectionView>,
    data: Seq<u8>,
    i: int,
) -> Option<Seq<u8>>
    decreases sections.len() - i,
{
    if i < 0 || i >= sections.len() {
        None
    } else {
        let section = sections[i];
        let end = section.sh_offset + section.sh_size;
        let here = if section.sh_type == SHT_NOTE && end <= data.len() {
            build_id_from(notes_from(data.subrange(section.sh_offset as int, end), 0), 0)
        } else {
            None
        };
        if here is Some {
            here
        } else {
            section_build_id_from(sections, data, i + 1)
        }
    }
}

/// Read a build-id from `SHT_NOTE` sections. Separate debug files may retain
/// the note section without a corresponding `PT_NOTE` program header.
pub fn build_id_from_note_sections(elf: &ElfTables, data: &[u8]) -> (r: Option<Vec<u8>>)
    ensures
        id_bytes(r) == section_build_id_from(elf@.sections, data@, 0),
{
    let ghost all = elf@.sections;
    let mut i: usize = 0;
    while i < elf.sections.len()
        invariant
            i <= elf.sections@.len(),
            all == elf@.sections,
            section_build_id_from(all, data@, i as int) == section_build_id_from(all, data@, 0),
        decreases elf.sections@.len() - i,
    {
        let section: &Section = &elf.sections[i];
        assert(all[i as int] == section@);
        i = i + 1;
        if section.sh_type != SHT_NOTE {
            continue;
        }
        if let Some(part) = file_range(data, section.sh_offset, section.sh_size) {
            let notes = walk_note_segment(part);
            if let Some(id) = build_id(&notes) {
                return Some(id);
            }
        }
    }
    None
}

/// The program-header table of a raw image: offset, entry size and entry count.
pub open spec fn raw_table(buf: Seq<u8>, is_64: bool) -> Option<(u64, u16, u16)> {
    match (
        super::word_le_at(
            buf,
            if is_64 {
                0x20
            } else {
                0x1c
            },
            is_64,
        ),
        super::u16_le_at(
            buf,
            if is_64 {
                0x36
            } else {
                0x2a
            },
        ),
        super::u16_le_at(
            buf,
            if is_64 {
                0x38
            } else {
                0x2c
            },
        ),
    ) {
        (Some(phoff), Some(phentsize), Some(phnum)) => Some((phoff, phentsize, phnum)),
        _ => None,
    }
}

/// File range of the note segment whose program header stands at `ph`.
pub open spec fn raw_range(buf: Seq<u8>, is_64: bool, ph: int) -> Option<(u64, u64)> {
    match (
        super::word_le_at(
            buf,
            if is_64 {
                ph + 8
            } else {
                ph + 4
            },
            is_64,
        ),
        super::word_le_at(
            buf,
            if is_64 {
                ph + 32
            } else {
                ph + 16
            },
            is_64,
        ),
    ) {
        (Some(offset), Some(filesz)) => Some((offset, filesz)),
        _ => None,
    }
}

/// The build-id in the note segments of a raw image from program header `i` on.
/// A header or a segment that is cut off ends the search.
pub open spec fn raw_build_id_from(
    buf: Seq<u8>,
    is_64: bool,
    table: (u64, u16, u16),
    i: int,
) -> Option<Seq<u8>>
    decreases table.2 - i,
{
    if i >= table.2 {
        None
    } else {
        let ph = table.0 + i * table.1;
        match super::u32_le_at(buf, ph) {
            None => None,
            Some(p_type) => if p_type != PT_NOTE {
                raw_build_id_from(buf, is_64, table, i + 1)
            } else {
                match raw_range(buf, is_64, ph) {
                    None => None,
                    Some(range) => if range.0 + range.1 > buf.len() {
                        None
                    } else {
                        let here = build_id_from(
                            notes_from(buf.subrange(range.0 as int, range.0 + range.1), 0),
                            0,
                        );
                        if here is Some {
                            here
                        } else {
                            raw_build_id_from(buf, is_64, table, i + 1)
                        }
                    },
                }
            },
        }
    }
}

/// The class of a raw image: 64-bit or not, where it says.
pub open spec fn raw_class(buf: Seq<u8>) -> Option<bool> {
    if !image::has_magic(buf) || buf.len() <= 4 {
        None
    } else if buf[4] == 1 {
        Some(false)
    } else if buf[4] == 2 {
        Some(true)
    } else {
        None
    }
}

/// The build-id of a memory image that starts with an ELF header.
pub open spec fn raw_build_id(buf: Seq<u8>) -> Option<Seq<u8>> {
    match raw_class(buf) {
        None => None,
        Some(is_64) => match raw_table(buf, is_64) {
            None => None,
            Some(table) => raw_build_id_from(buf, is_64, table, 0),
        },
    }
}

fn read_raw_table(buf: &[u8], is_64: bool) -> (r: Option<(u64, u16, u16)>)
    ensures
        r == raw_table(buf@, is_64),
{
    // Program-header table location, laid out differently for the two classes.
    let (phoff_off, phentsize_off, phnum_off): (usize, usize, usize) = if is_64 {
        (0x20, 0x36, 0x38)
    } else {
        (0x1c, 0x2a, 0x2c)
    };
    match (
        read_word(buf, phoff_off, is_64),
        read_u16_le(buf, phentsize_off),
        read_u16_le(buf, phnum_off),
    ) {
        (Some(phoff), Some(phentsize), Some(phnum)) => Some((phoff, phentsize, phnum)),
        _ => None,
    }
}

fn read_raw_range(buf: &[u8], is_64: bool, ph: usize) -> (r: Option<(u64, u64)>)
    ensures
        r == raw_range(buf@, is_64, ph as int),
{
    let len: usize = buf.len();
    let needed: usize = if is_64 {
        40
    } else {
        20
    };
    if ph > len || len - ph < needed {
        return None;
    }
    let (offset_off, filesz_off): (usize, usize) = if is_64 {
        (ph + 8, ph + 32)
    } else {
        (ph + 4, ph + 16)
    };
    match (read_word(buf, offset_off, is_64), read_word(buf, filesz_off, is_64)) {
        (Some(offset), Some(filesz)) => Some((offset, filesz)),
        _ => None,
    }
}

/// Extract a build-id straight from a raw memory buffer that starts with an ELF
/// header but isn't a full parseable file.
///
/// We read only what we need from the header (`e_phoff`, `e_phentsize`,
/// `e_phnum`), locate the `PT_NOTE` program header, and reuse
/// [`walk_note_segment`]. Assumes buffer offset 0 maps to file offset 0, which
/// holds for the `NT_FILE` mappings whose `file_offset` is 0.
pub fn build_id_from_raw_buffer(buf: &[u8]) -> (r: Option<Vec<u8>>)
    ensures
        id_bytes(r) == raw_build_id(buf@),
{
    if !starts_with_magic(buf) || buf.len() <= 4 {
        return None;
    }
    let is_64: bool = match buf[4] {
        1 => false,
        2 => true,
        _ => return None,
    };
    let table: (u64, u16, u16) = match read_raw_table(buf, is_64) {
        Some(table) => table,
        None => return None,
    };
    let phnum: usize = table.2 as usize;
    let len: usize = buf.len();
    let mut i: usize = 0;
    while i < phnum
        invariant
            i <= phnum,
            phnum == table.2,
            len == buf@.len(),
            raw_build_id(buf@) == raw_build_id_from(buf@, is_64, table, i as int),
        decreases phnum - i,
    {
        let step: u64 = table.1 as u64;
        assert(0 <= i * step <= 0xffff * 0xffff) by (nonlinear_arith)
            requires
                0 <= i <= 0xffff,
                0 <= step <= 0xffff,
        ;
        let ph: u64 = match table.0.checked_add((i as u64) * step) {
            Some(ph) => ph,
            None => return None,
        };
        if ph > len as u64 {
            return None;
        }
        let ph: usize = ph as usize;
        let p_type: u32 = match read_u32_le(buf, ph) {
            Some(p_type) => p_type,
            None => return None,
        };
        i = i + 1;
        if p_type != PT_NOTE {
            continue;
        }
        let range: (u64, u64) = match read_raw_range(buf, is_64, ph) {
            Some(range) => range,
            None => return None,
        };
        let segment: &[u8] = match file_range(buf, range.0, range.1) {
            Some(segment) => segment,
            None => return None,
        };
        let notes = walk_note_segment(segment);
        if let Some(id) = build_id(&notes) {
            return Some(id);
        }
    }
    None
}

} // verus!
