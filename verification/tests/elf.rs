//! ELF files, notes and core dumps.

use heap_analyser::arch::{by_elf_machine, Arch, EM_X86_64};
use heap_analyser::elf::coredump::{mapped_files, threads, NT_FILE, NT_PRSTATUS};
use heap_analyser::elf::image::{check_magic, ElfTables, ProgramHeader, PT_LOAD};
use heap_analyser::elf::notes::{
    build_id, build_id_from_note_sections, build_id_from_raw_buffer, walk_note_segment, Note,
    NT_GNU_BUILD_ID,
};
use heap_analyser::elf::{Elf, Image, MemReader};
use heap_analyser::error::Error;

fn x86_64() -> &'static dyn Arch {
    by_elf_machine(EM_X86_64).unwrap()
}

#[test]
fn no_nt_file_yields_empty() {
    assert!(mapped_files(&[], true).unwrap().is_empty());
}

#[test]
fn parses_nt_file_entries() {
    // count=2, page_size=0x1000, two ranges, two paths.
    let mut desc = Vec::new();
    desc.extend_from_slice(&2u64.to_le_bytes());
    desc.extend_from_slice(&0x1000u64.to_le_bytes());
    for (s, e, o) in [
        (0x400000u64, 0x401000u64, 0u64),
        (0x7ffff7a00000u64, 0x7ffff7c00000u64, 0u64),
    ] {
        desc.extend_from_slice(&s.to_le_bytes());
        desc.extend_from_slice(&e.to_le_bytes());
        desc.extend_from_slice(&o.to_le_bytes());
    }
    desc.extend_from_slice(b"/bin/victim\0");
    desc.extend_from_slice(b"/lib/libc.so.6\0");

    let note = Note {
        name: "CORE",
        note_type: NT_FILE,
        desc: &desc,
    };
    let files = mapped_files(&[note], true).unwrap();
    assert_eq!(files.len(), 2);
    assert_eq!(files[0].path, "/bin/victim");
    assert_eq!(files[1].start, 0x7ffff7a00000);
    assert_eq!(files[1].path, "/lib/libc.so.6");
}

#[test]
fn nt_file_cut_among_the_triples_lists_nothing() {
    let words = |words: &[u64]| -> Vec<u8> {
        words.iter().flat_map(|w| w.to_le_bytes()).collect()
    };
    let listed = |desc: &[u8]| {
        let note = Note {
            name: "CORE",
            note_type: NT_FILE,
            desc,
        };
        mapped_files(&[note], true).unwrap()
    };
    let mut desc = words(&[2, 0x1000, 0x400000, 0x401000, 0, 0x500000]);
    assert!(listed(&desc).is_empty());
    desc.extend_from_slice(b"/bin/victim\0");
    assert!(listed(&desc).is_empty());
    assert!(listed(&words(&[u64::MAX, 0x1000, 1, 2, 3])).is_empty());

    // A cut among the paths leaves those before it.
    let mut desc = words(&[2, 0x1000, 0x400000, 0x401000, 0, 0x500000, 0x501000, 1]);
    desc.extend_from_slice(b"/bin/victim\0/lib/li");
    let files = listed(&desc);
    assert_eq!(files.len(), 1);
    assert_eq!((files[0].start, files[0].path.as_str()), (0x400000, "/bin/victim"));
}

#[test]
fn paths_stand_behind_all_triples() {
    let count = 100_001u64;
    let mut desc = Vec::new();
    desc.extend_from_slice(&count.to_le_bytes());
    desc.extend_from_slice(&0x1000u64.to_le_bytes());
    for i in 0..count {
        for word in [i, i + 1, 0] {
            desc.extend_from_slice(&word.to_le_bytes());
        }
    }
    desc.extend_from_slice(b"/a\0/b\0");
    let note = Note {
        name: "CORE",
        note_type: NT_FILE,
        desc: &desc,
    };
    let files = mapped_files(&[note], true).unwrap();
    let paths: Vec<&str> = files.iter().map(|f| f.path.as_str()).collect();
    assert_eq!(paths, vec!["/a", "/b"]);
}

#[test]
fn truncated_nt_file_keeps_what_parsed() {
    let mut desc = Vec::new();
    desc.extend_from_slice(&3u32.to_le_bytes());
    desc.extend_from_slice(&0x1000u32.to_le_bytes());
    for n in [0x10u32, 0x20, 0, 0x30, 0x40, 1] {
        desc.extend_from_slice(&n.to_le_bytes());
    }
    let note = Note {
        name: "CORE",
        note_type: NT_FILE,
        desc: &desc,
    };
    // Two of three triples fit, and no path.
    assert!(mapped_files(&[note], false).unwrap().is_empty());

    // A path that is not UTF-8 is taken with replacements.
    let mut desc = Vec::new();
    desc.extend_from_slice(&1u32.to_le_bytes());
    desc.extend_from_slice(&0x1000u32.to_le_bytes());
    for n in [0x10u32, 0x20, 2] {
        desc.extend_from_slice(&n.to_le_bytes());
    }
    desc.extend_from_slice(b"/tmp/\xff\0");
    let note = Note {
        name: "CORE",
        note_type: NT_FILE,
        desc: &desc,
    };
    let files = mapped_files(&[note], false).unwrap();
    assert_eq!(files.len(), 1);
    assert_eq!((files[0].start, files[0].end, files[0].file_offset), (0x10, 0x20, 2));
    assert_eq!(files[0].path, "/tmp/\u{fffd}");
}

#[test]
fn malformed_prstatus_is_hard_failure() {
    // A too-short prstatus aborts thread extraction rather than yielding a
    // half-known thread set.
    let note = Note {
        name: "CORE",
        note_type: NT_PRSTATUS,
        desc: &[0u8; 8],
    };
    assert!(threads(&[note], x86_64()).is_err());
}

fn prstatus(len: usize, pid: i32) -> Vec<u8> {
    let mut desc = vec![0u8; len];
    desc[32..36].copy_from_slice(&pid.to_le_bytes());
    desc
}

#[test]
fn aarch64_thread_pointer_comes_from_its_own_note() {
    let arch = by_elf_machine(183).unwrap();
    let (one, two) = (prstatus(392, 11), prstatus(392, 12));
    let (tp_one, tp_two) = (0x1111u64.to_le_bytes(), 0x2222u64.to_le_bytes());
    let note = |note_type: u32, desc| Note {
        name: "CORE",
        note_type,
        desc,
    };
    let found = threads(
        &[
            note(NT_PRSTATUS, one.as_slice()),
            note(0x401, tp_one.as_slice()),
            note(NT_PRSTATUS, two.as_slice()),
            note(0x401, tp_two.as_slice()),
        ],
        arch,
    )
    .unwrap();
    let pairs: Vec<(i32, u64)> = found.iter().map(|t| (t.thread_id, t.tp)).collect();
    assert_eq!(pairs, vec![(11, 0x1111), (12, 0x2222)]);
}

#[test]
fn the_order_of_a_threads_notes_does_not_matter() {
    let arch = by_elf_machine(183).unwrap();
    let (one, two, other) = (prstatus(392, 11), prstatus(392, 12), [7u8; 16]);
    let (tp_one, tp_two) = (0x1111u64.to_le_bytes(), 0x2222u64.to_le_bytes());
    for reversed in [false, true] {
        let note = |note_type: u32, desc| Note {
            name: "CORE",
            note_type,
            desc,
        };
        let mut notes = vec![
            note(NT_PRSTATUS, one.as_slice()),
            note(0x401, tp_one.as_slice()),
            note(NT_PRSTATUS, two.as_slice()),
            note(2, other.as_slice()),
            note(0x401, tp_two.as_slice()),
        ];
        if reversed {
            notes.swap(0, 1);
            notes.swap(2, 4);
        }
        let found = threads(&notes, arch).unwrap();
        let pairs: Vec<(i32, u64)> = found.iter().map(|t| (t.thread_id, t.tp)).collect();
        assert_eq!(pairs, vec![(11, 0x1111), (12, 0x2222)]);
    }
}

#[test]
fn one_thread_per_prstatus_note() {
    let descs: Vec<Vec<u8>> = (1..=4).map(|pid| prstatus(336, pid)).collect();
    let notes: Vec<Note<'_>> = descs
        .iter()
        .map(|desc| Note {
            name: "CORE",
            note_type: NT_PRSTATUS,
            desc,
        })
        .collect();
    let found = threads(&notes, x86_64()).unwrap();
    assert_eq!(
        found.iter().map(|t| t.thread_id).collect::<Vec<_>>(),
        vec![1, 2, 3, 4]
    );
}

#[test]
fn rejects_non_elf() {
    match Image::from_bytes(b"not an elf".to_vec()) {
        Err(Error::NotElf { .. }) => {}
        Err(e) => panic!("expected NotElf, got {e:?}"),
        Ok(_) => panic!("expected NotElf, got Ok"),
    }
}

#[test]
fn magic_is_checked_under_the_file_name() {
    assert!(check_magic(b"\x7fELF and more", "x").is_ok());
    match check_magic(b"\x7fEL", "/tmp/x") {
        Err(e) => assert_eq!(e.message(), "/tmp/x is not a valid ELF file"),
        Ok(()) => panic!("expected NotElf, got Ok"),
    }
}

#[test]
fn broken_elf_header_is_a_parse_error() {
    let image = Image::from_bytes(b"\x7fELF\x02\x01\x01".to_vec()).unwrap();
    assert_eq!(image.bytes().len(), 7);
    match image.parse() {
        Err(Error::ElfParse(text)) => assert!(!text.is_empty()),
        _ => panic!("expected ElfParse"),
    };
}

/// Build one note record: namesz, descsz, type, padded name, padded desc.
fn note_record(name: &[u8], ntype: u32, desc: &[u8]) -> Vec<u8> {
    let mut v = Vec::new();
    v.extend_from_slice(&(name.len() as u32).to_le_bytes());
    v.extend_from_slice(&(desc.len() as u32).to_le_bytes());
    v.extend_from_slice(&ntype.to_le_bytes());
    v.extend_from_slice(name);
    while v.len() % 4 != 0 {
        v.push(0);
    }
    v.extend_from_slice(desc);
    while v.len() % 4 != 0 {
        v.push(0);
    }
    v
}

#[test]
fn trims_trailing_nul_from_name() {
    let seg = note_record(b"CORE\0", 1, &[0xaa; 4]);
    let notes = walk_note_segment(&seg);
    assert_eq!(notes.len(), 1);
    assert_eq!(notes[0].name, "CORE", "trailing NUL must be stripped");
    assert_eq!(notes[0].note_type, 1);
    assert_eq!(notes[0].desc, &[0xaa; 4]);
}

#[test]
fn walks_multiple_records() {
    let mut seg = note_record(b"CORE\0", 1, &[1, 2, 3, 4, 5, 6, 7, 8]);
    seg.extend(note_record(
        b"GNU\0",
        NT_GNU_BUILD_ID,
        &[0xde, 0xad, 0xbe, 0xef],
    ));
    let notes = walk_note_segment(&seg);
    assert_eq!(notes.len(), 2);
    assert_eq!(build_id(&notes), Some(vec![0xde, 0xad, 0xbe, 0xef]));
}

#[test]
fn truncated_record_stops_cleanly() {
    let mut seg = note_record(b"GNU\0", NT_GNU_BUILD_ID, &[0xde, 0xad, 0xbe, 0xef]);
    seg.truncate(seg.len() - 2); // chop the descriptor
                                 // No panic, and the incomplete record is dropped.
    assert!(walk_note_segment(&seg).is_empty());
}

#[test]
fn no_build_id_when_absent() {
    let seg = note_record(b"CORE\0", 1, &[0; 8]);
    assert_eq!(build_id(&walk_note_segment(&seg)), None);
}

fn put(data: &mut [u8], at: usize, bytes: &[u8]) {
    data[at..at + bytes.len()].copy_from_slice(bytes);
}

/// An ELF64 with one `PT_LOAD` at file offset 0x100, virtual address 0x5000, and
/// one `PT_NOTE` right behind the program headers.
fn loadable_elf() -> Vec<u8> {
    let note = note_record(b"GNU\0", NT_GNU_BUILD_ID, &[1, 2, 3, 4]);
    let mut data = vec![0u8; 0x200];
    put(&mut data, 0, b"\x7fELF\x02\x01\x01");
    put(&mut data, 16, &4u16.to_le_bytes());
    put(&mut data, 18, &62u16.to_le_bytes());
    put(&mut data, 20, &1u32.to_le_bytes());
    put(&mut data, 32, &64u64.to_le_bytes());
    put(&mut data, 52, &64u16.to_le_bytes());
    put(&mut data, 54, &56u16.to_le_bytes());
    put(&mut data, 56, &2u16.to_le_bytes());
    let headers = [
        (1u32, 0x100u64, 0x5000u64, 0x100u64),
        (4, 176, 0, note.len() as u64),
    ];
    for (i, (kind, offset, vaddr, size)) in headers.into_iter().enumerate() {
        let at = 64 + 56 * i;
        put(&mut data, at, &kind.to_le_bytes());
        put(&mut data, at + 8, &offset.to_le_bytes());
        put(&mut data, at + 16, &vaddr.to_le_bytes());
        put(&mut data, at + 32, &size.to_le_bytes());
        put(&mut data, at + 40, &size.to_le_bytes());
        put(&mut data, at + 48, &4u64.to_le_bytes());
    }
    put(&mut data, 176, &note);
    put(&mut data, 0x180, &0x1122_3344_5566_7788u64.to_le_bytes());
    data
}

#[test]
fn words_are_read_through_the_segment_table() {
    let image = Image::from_bytes(loadable_elf()).unwrap();
    let elf = image.parse().unwrap();
    assert!(elf.is_64bit());
    assert_eq!(elf.machine(), 62);
    assert_eq!(elf.read_u64(0x5080).unwrap(), 0x1122_3344_5566_7788);
    assert_eq!(elf.read_bytes(0x5080, 2).unwrap(), &[0x88, 0x77]);
    assert_eq!(elf.segment_bounds(0x50ff), Some((0x5000, 0x5100)));
    assert_eq!(elf.segment_start(0x5000), Some(0x5000));
    assert_eq!(elf.segment_start(0x5100), None);
    for addr in [0x4fff, 0x50f9, 0x5100, u64::MAX] {
        assert!(matches!(
            elf.read_u64(addr),
            Err(Error::AddressNotMapped { addr: at }) if at == addr
        ));
    }
    assert_eq!(elf.inner().program_headers.len(), 2);
}

#[test]
fn build_ids_are_found_in_segments_and_raw_images() {
    let data = loadable_elf();
    let image = Image::from_bytes(data.clone()).unwrap();
    let elf = image.parse().unwrap();
    assert_eq!(build_id(&elf.notes()), Some(vec![1, 2, 3, 4]));
    assert_eq!(build_id_from_raw_buffer(&data), Some(vec![1, 2, 3, 4]));
    assert_eq!(build_id_from_raw_buffer(&data[..100]), None);
    assert_eq!(build_id_from_raw_buffer(b"no elf at all"), None);
    assert_eq!(build_id_from_note_sections(elf.inner(), elf.bytes()), None);
}

#[test]
fn a_segment_past_the_top_hides_no_other() {
    let load = |p_vaddr: u64, p_filesz: u64| ProgramHeader {
        p_type: PT_LOAD,
        p_offset: 0,
        p_vaddr,
        p_filesz,
    };
    let elf = Elf {
        tables: ElfTables {
            is_64: true,
            little_endian: true,
            machine: 62,
            program_headers: vec![load(0xffff_ffff_ffff_f000, 0x2000), load(0x1000, 0x1000)],
            sections: Vec::new(),
            symbols: Vec::new(),
            relocations: Vec::new(),
            versions: Vec::new(),
        },
        data: &[],
    };
    assert_eq!(elf.segment_bounds(0x1800), Some((0x1000, 0x2000)));
    assert_eq!(elf.segment_start(0x1800), Some(0x1000));
    assert_eq!(elf.segment_bounds(0x2000), None);
}

#[test]
fn the_walk_goes_on_behind_whole_records() {
    let mut first = note_record(b"CORE\0", 1, &[1, 2, 3]);
    first.extend(note_record(b"\xff\xfe", 2, &[9; 5]));
    let second = note_record(b"GNU", 7, &[4, 5]);
    let together: Vec<u8> = first.iter().chain(&second).copied().collect();
    let told = |data: &[u8]| -> Vec<(String, u32, Vec<u8>)> {
        walk_note_segment(data)
            .iter()
            .map(|n| (n.name.to_string(), n.note_type, n.desc.to_vec()))
            .collect()
    };
    let mut parts = told(&first);
    assert_eq!(parts.len(), 1);
    parts.extend(told(&second));
    assert_eq!(told(&together), parts);
}
