//! Malloc structure layouts out of DWARF.

use std::io::Write;

use gimli::write::{
    AttributeValue, DwarfUnit, EndianVec, Expression, Sections, UnitEntryId,
};
use gimli::{DwTag, Encoding, Format, LittleEndian};

use heap_analyser::elf::image::{ElfTables, Section};
use heap_analyser::elf::Elf;
use heap_analyser::glibc::dwarf::assemble::{assemble_layout, checked_u32};
use heap_analyser::glibc::dwarf::limits::{check_operation, check_string};
use heap_analyser::glibc::dwarf::reader::{Attr, AttrKind, Op, DW_ATE_UNSIGNED};
use heap_analyser::glibc::dwarf::scan::{extract_layout, MAX_TARGET_CANDIDATES};
use heap_analyser::glibc::dwarf::sections::{
    check_size, compressed_payload, decompress, is_layout_section, load_sections,
    reserve_section, section_read, Inflation, MAX_SECTION_BYTES, SHF_COMPRESSED,
};
use heap_analyser::glibc::dwarf::structures::{
    insert_member, is_declaration, target_name, validate_struct_size,
};
use heap_analyser::glibc::dwarf::types::{
    array_type as array_info, attr_i128, base_kind, checked_name, constant_location, dimension,
};
use heap_analyser::glibc::dwarf::{
    DwarfLayout, DwarfLayoutError, Findings, Member, Structure, Target, TypeIndex, TypeInfo,
    TypeKind,
};

#[test]
fn target_names_are_exact() {
    assert_eq!(
        target_name("struct _malloc_state"),
        Some(Target::MallocState)
    );
    assert_eq!(target_name("not_malloc_state"), None);
    assert_eq!(target_name("malloc_state_extra"), None);
}

#[test]
fn accepts_glibc_228_signed_byte_tcache_counts() {
    let index = valid_index(TypeKind::Signed, 1, 64);
    let layout = assemble_layout(&index, 8, true).unwrap();
    assert_eq!(layout.tcache_entries_offset, Some(64));
    assert_eq!(layout.tcache_max_bins, Some(64));
}

#[test]
fn rejects_tcache_arrays_with_different_dimensions() {
    let index = valid_index(TypeKind::Unsigned, 2, 63);
    assert!(matches!(
        assemble_layout(&index, 8, true),
        Err(DwarfLayoutError::Invalid(reason))
            if reason.contains("dimensions differ")
    ));
}

#[test]
fn rejects_fastbin_count_over_semantic_limit() {
    let mut index = valid_index(TypeKind::Unsigned, 2, 64);
    let state = &mut index.malloc_state.candidates.as_mut().unwrap()[0];
    state.byte_size = 4096;
    let fastbins = state
        .members
        .iter_mut()
        .find(|member| member.name == "fastbinsY")
        .unwrap();
    fastbins.ty.byte_size = Some(257 * 8);
    fastbins.ty.element_count = Some(257);
    assert!(matches!(
        assemble_layout(&index, 8, true),
        Err(DwarfLayoutError::Invalid(reason))
            if reason.contains("fastbinsY element count")
    ));
}

#[test]
fn rejects_two_distinct_valid_layouts_for_one_target() {
    let mut index = valid_index(TypeKind::Unsigned, 2, 64);
    let first = &index.malloc_state.candidates.as_ref().unwrap()[0];
    let mut alternate = Structure {
        byte_size: first.byte_size,
        members: first.members.clone(),
    };
    alternate.byte_size = 120;
    alternate
        .members
        .iter_mut()
        .find(|member| member.name == "top")
        .unwrap()
        .offset = 104;
    alternate
        .members
        .iter_mut()
        .find(|member| member.name == "next")
        .unwrap()
        .offset = 112;
    index
        .malloc_state
        .candidates
        .as_mut()
        .unwrap()
        .push(alternate);
    assert!(matches!(
        assemble_layout(&index, 8, true),
        Err(DwarfLayoutError::Invalid(reason))
            if reason.contains("ambiguous malloc_state")
    ));
}

#[test]
fn old_glibc_does_not_require_a_tcache_type() {
    let mut index = valid_index(TypeKind::Unsigned, 2, 64);
    index.tcache = Findings::default();
    let layout = assemble_layout(&index, 8, false).unwrap();
    assert_eq!(layout.tcache_entries_offset, None);
    assert_eq!(layout.tcache_max_bins, None);
}

#[test]
fn decompresses_legacy_zlib_section() {
    let data = b"small DWARF section";
    let mut encoder =
        flate2::write::ZlibEncoder::new(Vec::new(), flate2::Compression::default());
    encoder.write_all(data).unwrap();
    let compressed = encoder.finish().unwrap();

    let mut section = b"ZLIB".to_vec();
    section.extend_from_slice(&(data.len() as u64).to_be_bytes());
    section.extend_from_slice(&compressed);

    let elf = elf_with(Vec::new(), &[]);
    let (declared, payload) = compressed_payload(&elf, &section, true).unwrap();
    assert_eq!(decompress(payload, declared).unwrap(), data);
}

#[test]
fn rejects_decompressed_size_mismatch() {
    let data = b"DWARF";
    let mut encoder =
        flate2::write::ZlibEncoder::new(Vec::new(), flate2::Compression::default());
    encoder.write_all(data).unwrap();
    let compressed = encoder.finish().unwrap();

    assert!(matches!(
        decompress(&compressed, data.len() as u64 + 1),
        Err(DwarfLayoutError::Invalid(reason))
            if reason.contains("decompressed size")
    ));
}

#[test]
fn ignores_dwarf_sections_not_used_for_layout() {
    assert!(is_layout_section(".debug_info"));
    assert!(is_layout_section(".debug_str"));
    assert!(!is_layout_section(".debug_macro"));
    assert!(!is_layout_section(".debug_loclists"));
}

fn valid_index(count_kind: TypeKind, count_width: u64, entry_bins: u64) -> TypeIndex {
    let mut index = TypeIndex::default();
    index.malloc_state.candidates = Some(vec![Structure {
        byte_size: 112,
        members: vec![
            member("fastbinsY", 16, array_type(TypeKind::Pointer, 8, 10)),
            member("top", 96, scalar_type(TypeKind::Pointer, 8)),
            member("next", 104, scalar_type(TypeKind::Pointer, 8)),
        ],
    }]);
    index.malloc_par.candidates = Some(vec![Structure {
        byte_size: 24,
        members: vec![
            member("arena_max", 0, scalar_type(TypeKind::Unsigned, 8)),
            member("sbrk_base", 8, scalar_type(TypeKind::Pointer, 8)),
            member("tcache_bins", 16, scalar_type(TypeKind::Unsigned, 8)),
        ],
    }]);
    index.heap_info.candidates = Some(vec![Structure {
        byte_size: 32,
        members: vec![
            member("ar_ptr", 0, scalar_type(TypeKind::Pointer, 8)),
            member("prev", 8, scalar_type(TypeKind::Pointer, 8)),
            member("size", 16, scalar_type(TypeKind::Unsigned, 8)),
            member("mprotect_size", 24, scalar_type(TypeKind::Unsigned, 8)),
        ],
    }]);
    let entries_offset = count_width * 64;
    index.tcache.candidates = Some(vec![Structure {
        byte_size: entries_offset + entry_bins * 8,
        members: vec![
            member("counts", 0, array_type(count_kind, count_width, 64)),
            member(
                "entries",
                entries_offset,
                array_type(TypeKind::Pointer, 8, entry_bins),
            ),
        ],
    }]);
    index
}

fn member(name: &str, offset: u64, ty: TypeInfo) -> Member {
    Member {
        name: name.to_string(),
        offset,
        ty,
    }
}

fn scalar_type(kind: TypeKind, byte_size: u64) -> TypeInfo {
    TypeInfo {
        kind,
        byte_size: Some(byte_size),
        element_kind: None,
        element_size: None,
        element_count: None,
    }
}

fn array_type(element_kind: TypeKind, element_size: u64, count: u64) -> TypeInfo {
    TypeInfo {
        kind: TypeKind::Array,
        byte_size: Some(element_size * count),
        element_kind: Some(element_kind),
        element_size: Some(element_size),
        element_count: Some(count),
    }
}

// Assembly.

#[test]
fn assembled_layout_has_the_offsets_of_its_structures() {
    let layout = assemble_layout(&valid_index(TypeKind::Unsigned, 2, 64), 8, true).unwrap();
    assert_eq!(
        layout,
        DwarfLayout {
            malloc_state_size: 112,
            fastbin_array_offset: 16,
            fastbin_count: 10,
            malloc_state_top_offset: 96,
            malloc_state_next_offset: 104,
            mp_arena_max_offset: Some(0),
            mp_sbrk_base_offset: 8,
            mp_tcache_bins_offset: Some(16),
            heap_info_size: 32,
            heap_info_ar_ptr_offset: 0,
            heap_info_prev_offset: 8,
            heap_info_size_offset: 16,
            heap_info_mprotect_size_offset: 24,
            tcache_entries_offset: Some(128),
            tcache_max_bins: Some(64),
        }
    );
}

#[test]
fn equal_definitions_are_not_ambiguous() {
    let mut index = valid_index(TypeKind::Unsigned, 2, 64);
    let twin = Structure {
        byte_size: 32,
        members: index.heap_info.candidates.as_ref().unwrap()[0].members.clone(),
    };
    index.heap_info.candidates.as_mut().unwrap().push(twin);
    assert!(assemble_layout(&index, 8, true).is_ok());
}

#[test]
fn missing_target_is_reported() {
    let mut index = valid_index(TypeKind::Unsigned, 2, 64);
    index.heap_info = Findings::default();
    assert!(matches!(
        assemble_layout(&index, 8, true),
        Err(DwarfLayoutError::Invalid(reason)) if reason.contains("heap_info")
    ));
    index.heap_info.error = Some(DwarfLayoutError::Limit("type resolution depth"));
    assert!(matches!(
        assemble_layout(&index, 8, true),
        Err(DwarfLayoutError::Limit("type resolution depth"))
    ));
}

#[test]
fn offsets_must_fit_in_32_bits() {
    assert_eq!(checked_u32(0xffff_ffff, "x").unwrap(), u32::MAX);
    assert!(checked_u32(0x1_0000_0000, "x").is_err());
}

#[test]
fn error_messages_name_the_kind() {
    assert_eq!(
        DwarfLayoutError::Invalid("x".to_string()).message(),
        "invalid DWARF malloc layout: x"
    );
    assert_eq!(
        DwarfLayoutError::Unsupported("split DWARF").clone().message(),
        "unsupported DWARF feature: split DWARF"
    );
    assert_eq!(
        DwarfLayoutError::Parse("y".to_string()).message(),
        "failed to parse DWARF: y"
    );
}

// Pieces of type resolution.

fn number(value: u64) -> Option<Attr> {
    Some(Attr {
        kind: AttrKind::Other,
        udata: Some(value),
    })
}

#[test]
fn array_dimensions_come_from_counts_or_bounds() {
    assert!(matches!(dimension(number(10), None, None), Ok(Some(10))));
    assert!(matches!(dimension(None, None, number(9)), Ok(Some(10))));
    assert!(matches!(dimension(None, number(3), number(9)), Ok(Some(7))));
    assert!(matches!(dimension(number(10), None, number(9)), Ok(Some(10))));
    assert!(matches!(
        dimension(number(11), None, number(9)),
        Err(DwarfLayoutError::Invalid(reason)) if reason == "array count conflicts with bounds"
    ));
    assert!(matches!(
        dimension(None, number(9), number(3)),
        Err(DwarfLayoutError::Invalid(reason)) if reason == "invalid array bounds"
    ));
}

#[test]
fn signed_attributes_keep_their_sign() {
    let sdata = Some(Attr {
        kind: AttrKind::Sdata(-1),
        udata: None,
    });
    assert_eq!(attr_i128(sdata), Some(-1));
    assert_eq!(attr_i128(number(u64::MAX)), Some(u64::MAX as i128));
    assert_eq!(attr_i128(None), None);
}

#[test]
fn encodings_tell_unsigned_from_signed() {
    let encoding = |ate| {
        Some(Attr {
            kind: AttrKind::Encoding(ate),
            udata: None,
        })
    };
    assert_eq!(base_kind(encoding(DW_ATE_UNSIGNED)), TypeKind::Unsigned);
    assert_eq!(base_kind(encoding(0x05)), TypeKind::Signed);
}

#[test]
fn only_one_constant_operation_is_a_location() {
    assert!(matches!(constant_location(Some(Op::PlusConstant(40)), None), Ok(40)));
    assert!(matches!(
        constant_location(Some(Op::PlusConstant(40)), Some(Op::Other)),
        Err(DwarfLayoutError::Unsupported("member location expression"))
    ));
    assert!(constant_location(None, None).is_err());
}

#[test]
fn names_are_text_of_bounded_length() {
    assert_eq!(checked_name(b"top").unwrap(), "top");
    assert!(matches!(
        checked_name(b"\xff"),
        Err(DwarfLayoutError::Invalid(_))
    ));
    assert!(matches!(
        checked_name(&vec![b'a'; 1024 * 1024 + 1]),
        Err(DwarfLayoutError::Limit("DWARF string length"))
    ));
}

#[test]
fn array_sizes_multiply_dimensions() {
    let element = scalar_type(TypeKind::Pointer, 8);
    let info = array_info(None, element, Some(vec![2, 5]));
    assert_eq!(info.element_count, Some(10));
    assert_eq!(info.element_size, Some(8));
    assert_eq!(info.kind, TypeKind::Array);
}

#[test]
fn structure_sizes_are_aligned_and_bounded() {
    assert!(validate_struct_size(112, 8).is_ok());
    for size in [0, 113, 1024 * 1024 + 8] {
        assert!(validate_struct_size(size, 8).is_err());
    }
    let flag = |f| {
        Some(Attr {
            kind: AttrKind::Flag(f),
            udata: None,
        })
    };
    assert!(is_declaration(flag(true)) && !is_declaration(flag(false)) && !is_declaration(None));
}

#[test]
fn members_are_kept_in_order_without_repeats() {
    let mut members = Vec::new();
    for (name, offset) in [("top", 96), ("next", 104), ("fastbinsY", 16), ("top", 96)] {
        insert_member(&mut members, member(name, offset, scalar_type(TypeKind::Pointer, 8)));
    }
    let names: Vec<&str> = members.iter().map(|m| m.name.as_str()).collect();
    assert_eq!(names, vec!["fastbinsY", "next", "top"]);
}

// Sections.

fn elf_with<'a>(sections: Vec<Section>, data: &'a [u8]) -> Elf<'a> {
    Elf {
        tables: ElfTables {
            is_64: true,
            little_endian: true,
            machine: 62,
            program_headers: Vec::new(),
            sections,
            symbols: Vec::new(),
            relocations: Vec::new(),
            versions: Vec::new(),
        },
        data,
    }
}

fn section(name: &str, offset: usize, size: usize, flags: u64) -> Section {
    Section {
        name: Some(name.to_string()),
        sh_type: 1,
        sh_flags: flags,
        sh_offset: offset as u64,
        sh_size: size as u64,
    }
}

#[test]
fn section_budget_is_enforced() {
    let mut total = 0;
    assert!(reserve_section(&mut total, MAX_SECTION_BYTES).is_ok());
    assert_eq!(total, MAX_SECTION_BYTES);
    assert!(reserve_section(&mut total, MAX_SECTION_BYTES + 1).is_err());
    for _ in 0..3 {
        assert!(reserve_section(&mut total, MAX_SECTION_BYTES).is_ok());
    }
    assert!(matches!(
        reserve_section(&mut total, 1),
        Err(DwarfLayoutError::Limit(_))
    ));
    assert_eq!(check_size(vec![1, 2], 2).unwrap(), vec![1, 2]);
}

#[test]
fn broken_zlib_data_is_a_parse_error() {
    assert!(matches!(
        decompress(b"not zlib", 8),
        Err(DwarfLayoutError::Parse(text)) if text.starts_with("zlib: ")
    ));
    let elf = elf_with(Vec::new(), &[]);
    assert!(compressed_payload(&elf, b"ZLIB", true).is_err());
    assert!(compressed_payload(&elf, &[0; 8], false).is_err());
}

#[test]
fn complete_streams_have_one_size() {
    let data: Vec<u8> = (0..200_000u32).map(|i| (i / 7 % 251) as u8).collect();
    let mut encoder = flate2::write::ZlibEncoder::new(Vec::new(), flate2::Compression::default());
    encoder.write_all(&data).unwrap();
    let mut stream = encoder.finish().unwrap();
    let size = data.len() as u64;
    for tail in [0usize, 5] {
        // What stands behind the stream is not read.
        stream.resize(stream.len() + tail, 0xff);
        assert_eq!(decompress(&stream, size).unwrap(), data);
        for declared in [0, 1, 32_768, size - 1, size + 1, 2 * size] {
            assert!(matches!(
                decompress(&stream, declared),
                Err(DwarfLayoutError::Invalid(reason))
                    if reason == "decompressed size differs from section header"
            ));
        }
    }
}

#[test]
fn broken_streams_give_no_section() {
    let data: Vec<u8> = (0..100_000u32).map(|i| (i / 300) as u8).collect();
    let mut encoder = flate2::write::ZlibEncoder::new(Vec::new(), flate2::Compression::default());
    encoder.write_all(&data).unwrap();
    let stream = encoder.finish().unwrap();
    for cut in 0..stream.len() {
        for declared in [0, 1, 32_767, 32_768, 65_536, 99_999, 100_000] {
            match decompress(&stream[..cut], declared) {
                Err(DwarfLayoutError::Parse(text)) => assert!(text.starts_with("zlib: ")),
                Err(DwarfLayoutError::Invalid(reason)) => {
                    assert_eq!(reason, "decompressed size differs from section header");
                }
                other => panic!("{other:?}"),
            }
        }
    }
    let mut corrupt = stream.clone();
    let last = corrupt.len() - 1;
    corrupt[last] ^= 1;
    assert!(matches!(
        decompress(&corrupt, 100_000),
        Err(DwarfLayoutError::Parse(text)) if text == "zlib: corrupt deflate stream"
    ));
    assert!(matches!(
        decompress(&[], 0),
        Err(DwarfLayoutError::Parse(text)) if text == "zlib: incomplete deflate stream"
    ));
}

#[test]
fn headers_and_budget_come_before_streams() {
    // A stream that would be refused, behind each kind of refusal that needs none.
    let mut data = vec![0u8; 64];
    data[..4].copy_from_slice(b"ZLIB");
    data[4..12].copy_from_slice(&(MAX_SECTION_BYTES + 1).to_be_bytes());
    let over = elf_with(vec![section(".zdebug_info", 0, 64, 0)], &data);
    assert!(matches!(
        load_sections(&over),
        Err(DwarfLayoutError::Limit("DWARF section bytes"))
    ));
    let outside = elf_with(vec![section(".zdebug_info", 60, 64, 0)], &data);
    assert!(matches!(
        load_sections(&outside),
        Err(DwarfLayoutError::Invalid(reason)) if reason == "section is outside ELF"
    ));
    let unmarked = elf_with(vec![section(".zdebug_info", 1, 32, 0)], &data);
    assert!(matches!(
        load_sections(&unmarked),
        Err(DwarfLayoutError::Invalid(reason))
            if reason == "invalid legacy compressed section header"
    ));
    let short = elf_with(vec![section(".debug_info", 0, 8, SHF_COMPRESSED)], &data);
    assert!(matches!(
        load_sections(&short),
        Err(DwarfLayoutError::Invalid(reason)) if reason.starts_with("short ELF")
    ));
    let foreign = elf_with(vec![section(".debug_info", 0, 32, SHF_COMPRESSED)], &data);
    assert!(matches!(
        load_sections(&foreign),
        Err(DwarfLayoutError::Unsupported("non-zlib compression"))
    ));
}

#[test]
fn every_end_of_a_stream_has_its_outcome() {
    assert_eq!(section_read(Inflation::Read, vec![1, 2], 2).unwrap(), vec![1, 2]);
    assert!(matches!(
        section_read(Inflation::Read, vec![1, 2], 3),
        Err(DwarfLayoutError::Invalid(reason)) if reason.contains("decompressed size")
    ));
    for read in [
        Inflation::Broken("cut".to_string()),
        Inflation::Stopped("cut".to_string()),
    ] {
        assert!(matches!(
            section_read(read, vec![1, 2], 2),
            Err(DwarfLayoutError::Parse(text)) if text == "zlib: cut"
        ));
    }
}

#[test]
fn duplicate_and_stray_sections_are_rejected() {
    let data = [0u8; 16];
    let elf = elf_with(
        vec![
            section(".debug_str", 0, 4, 0),
            section(".debug_macro", 900, 4, 0),
            section(".debug_str", 4, 4, 0),
        ],
        &data,
    );
    assert!(matches!(
        load_sections(&elf),
        Err(DwarfLayoutError::Invalid(reason)) if reason == "duplicate canonical DWARF section"
    ));
    let elf = elf_with(vec![section(".debug_info", 10, 10, 0)], &data);
    assert!(matches!(
        load_sections(&elf),
        Err(DwarfLayoutError::Invalid(reason)) if reason == "section is outside ELF"
    ));
}

// Whole extraction, from DWARF that gimli wrote.

struct Types {
    dwarf: DwarfUnit,
    word: UnitEntryId,
    half: UnitEntryId,
    pointer: UnitEntryId,
}

impl Types {
    fn new(version: u16) -> Self {
        let mut dwarf = DwarfUnit::new(Encoding {
            format: Format::Dwarf32,
            version,
            address_size: 8,
        });
        let root = dwarf.unit.root();
        let word = dwarf.unit.add(root, gimli::DW_TAG_base_type);
        let half = dwarf.unit.add(root, gimli::DW_TAG_base_type);
        let pointer = dwarf.unit.add(root, gimli::DW_TAG_pointer_type);
        let mut types = Types {
            dwarf,
            word,
            half,
            pointer,
        };
        for (id, size) in [(word, 8), (half, 2)] {
            types.set(id, gimli::DW_AT_byte_size, AttributeValue::Udata(size));
            types.set(
                id,
                gimli::DW_AT_encoding,
                AttributeValue::Encoding(gimli::DW_ATE_unsigned),
            );
        }
        types.set(pointer, gimli::DW_AT_byte_size, AttributeValue::Udata(8));
        types
    }

    fn set(&mut self, id: UnitEntryId, at: gimli::DwAt, value: AttributeValue) {
        self.dwarf.unit.get_mut(id).set(at, value);
    }

    fn add(&mut self, tag: DwTag) -> UnitEntryId {
        let root = self.dwarf.unit.root();
        self.dwarf.unit.add(root, tag)
    }

    fn alias(&mut self, tag: DwTag, of: UnitEntryId) -> UnitEntryId {
        let id = self.add(tag);
        self.set(id, gimli::DW_AT_type, AttributeValue::UnitRef(of));
        id
    }

    fn array(&mut self, element: UnitEntryId, count: u64) -> UnitEntryId {
        let id = self.alias(gimli::DW_TAG_array_type, element);
        let range = self.dwarf.unit.add(id, gimli::DW_TAG_subrange_type);
        self.set(range, gimli::DW_AT_upper_bound, AttributeValue::Udata(count - 1));
        id
    }

    fn name(&mut self, id: UnitEntryId, name: &str) {
        self.set(
            id,
            gimli::DW_AT_name,
            AttributeValue::String(name.as_bytes().to_vec()),
        );
    }

    fn structure(
        &mut self,
        name: &str,
        size: u64,
        members: &[(&str, u64, UnitEntryId)],
    ) -> UnitEntryId {
        let id = self.add(gimli::DW_TAG_structure_type);
        if !name.is_empty() {
            self.name(id, name);
        }
        self.set(id, gimli::DW_AT_byte_size, AttributeValue::Udata(size));
        for (name, offset, ty) in members {
            let member = self.dwarf.unit.add(id, gimli::DW_TAG_member);
            self.name(member, name);
            self.set(member, gimli::DW_AT_type, AttributeValue::UnitRef(*ty));
            self.set(
                member,
                gimli::DW_AT_data_member_location,
                AttributeValue::Udata(*offset),
            );
        }
        id
    }

    fn malloc_state(&mut self) -> UnitEntryId {
        let pointer = self.pointer;
        let fastbins = self.array(pointer, 10);
        self.structure(
            "malloc_state",
            2200,
            &[
                ("mutex", 0, self.half),
                ("fastbinsY", 16, fastbins),
                ("top", 96, pointer),
                ("next", 2160, pointer),
            ],
        )
    }

    fn malloc_par(&mut self) -> UnitEntryId {
        let (word, pointer) = (self.word, self.pointer);
        self.structure(
            "malloc_par",
            128,
            &[("arena_max", 32, word), ("sbrk_base", 72, pointer), ("tcache_bins", 80, word)],
        )
    }

    fn heap_info(&mut self) {
        let (word, pointer) = (self.word, self.pointer);
        // An anonymous structure behind a typedef, as in glibc.
        let id = self.structure(
            "",
            32,
            &[
                ("ar_ptr", 0, pointer),
                ("prev", 8, pointer),
                ("size", 16, word),
                ("mprotect_size", 24, word),
            ],
        );
        let constant = self.alias(gimli::DW_TAG_const_type, id);
        let typedef = self.alias(gimli::DW_TAG_typedef, constant);
        self.name(typedef, "heap_info");
    }

    fn tcache(&mut self) {
        let (half, pointer) = (self.half, self.pointer);
        let counts = self.array(half, 64);
        let entries = self.array(pointer, 64);
        self.structure(
            "tcache_perthread_struct",
            640,
            &[("counts", 0, counts), ("entries", 128, entries)],
        );
    }

    fn complete(version: u16) -> Self {
        let mut types = Types::new(version);
        types.malloc_state();
        types.malloc_par();
        types.heap_info();
        types.tcache();
        types
    }

    /// Section names and bytes.
    fn write(mut self) -> Vec<(&'static str, Vec<u8>)> {
        let mut sections = Sections::new(EndianVec::new(LittleEndian));
        self.dwarf.write(&mut sections).unwrap();
        let mut out = Vec::new();
        sections
            .for_each(|id, data| {
                if !data.slice().is_empty() {
                    out.push((id.name(), data.slice().to_vec()));
                }
                Ok::<(), gimli::write::Error>(())
            })
            .unwrap();
        out
    }
}

fn extract(
    sections: &[(&'static str, Vec<u8>)],
    require_tcache: bool,
) -> Result<DwarfLayout, DwarfLayoutError> {
    let mut data = Vec::new();
    let mut table = Vec::new();
    for (name, bytes) in sections {
        table.push(section(name, data.len(), bytes.len(), 0));
        data.extend_from_slice(bytes);
    }
    extract_layout(&elf_with(table, &data), require_tcache)
}

#[test]
fn extracts_the_required_layout_from_written_dwarf() {
    for version in [2, 4, 5] {
        let layout = extract(&Types::complete(version).write(), true).unwrap();
        assert_eq!(layout.malloc_state_size, 2200);
        assert_eq!(layout.fastbin_array_offset, 16);
        assert_eq!(layout.fastbin_count, 10);
        assert_eq!(layout.malloc_state_next_offset, 2160);
        assert_eq!(layout.mp_sbrk_base_offset, 72);
        assert_eq!(layout.heap_info_mprotect_size_offset, 24);
        assert_eq!(layout.tcache_max_bins, Some(64));
        assert_eq!(layout.tcache_entries_offset, Some(128));
    }
}

#[test]
fn compressed_sections_give_the_same_layout() {
    let mut data = Vec::new();
    let mut table = Vec::new();
    for (name, bytes) in Types::complete(4).write() {
        let mut encoder =
            flate2::write::ZlibEncoder::new(Vec::new(), flate2::Compression::default());
        encoder.write_all(&bytes).unwrap();
        let compressed = encoder.finish().unwrap();
        let start = data.len();
        // Elf64_Chdr: type 1 (zlib), reserved, size, alignment.
        data.extend_from_slice(&1u32.to_le_bytes());
        data.extend_from_slice(&0u32.to_le_bytes());
        data.extend_from_slice(&(bytes.len() as u64).to_le_bytes());
        data.extend_from_slice(&1u64.to_le_bytes());
        data.extend_from_slice(&compressed);
        table.push(section(name, start, data.len() - start, SHF_COMPRESSED));
    }
    let layout = extract_layout(&elf_with(table, &data), true).unwrap();
    assert_eq!(layout.fastbin_count, 10);
    assert_eq!(layout.tcache_entries_offset, Some(128));
}

#[test]
fn members_may_be_placed_by_an_expression() {
    let mut types = Types::new(3);
    let pointer = types.pointer;
    let fastbins = types.array(pointer, 10);
    let id = types.structure("malloc_state", 112, &[("fastbinsY", 16, fastbins)]);
    for (name, offset) in [("top", 96u64), ("next", 104)] {
        let member = types.dwarf.unit.add(id, gimli::DW_TAG_member);
        types.name(member, name);
        types.set(member, gimli::DW_AT_type, AttributeValue::UnitRef(pointer));
        let mut place = Expression::new();
        place.op_plus_uconst(offset);
        types.set(
            member,
            gimli::DW_AT_data_member_location,
            AttributeValue::Exprloc(place),
        );
    }
    types.malloc_par();
    types.heap_info();
    let layout = extract(&types.write(), false).unwrap();
    assert_eq!(layout.malloc_state_top_offset, 96);
    assert_eq!(layout.malloc_state_next_offset, 104);
}

#[test]
fn missing_tcache_type_matters_only_where_tcache_is_used() {
    let mut types = Types::new(4);
    types.malloc_state();
    types.malloc_par();
    types.heap_info();
    let sections = types.write();
    assert!(extract(&sections, false).is_ok());
    assert!(matches!(
        extract(&sections, true),
        Err(DwarfLayoutError::Invalid(reason)) if reason.contains("tcache_perthread_struct")
    ));
}

#[test]
fn a_second_different_definition_is_ambiguous() {
    let mut types = Types::complete(4);
    let pointer = types.pointer;
    let fastbins = types.array(pointer, 10);
    types.structure(
        "malloc_state",
        2208,
        &[("fastbinsY", 16, fastbins), ("top", 96, pointer), ("next", 2168, pointer)],
    );
    assert!(matches!(
        extract(&types.write(), true),
        Err(DwarfLayoutError::Invalid(reason)) if reason.contains("ambiguous malloc_state")
    ));
}

#[test]
fn declarations_alone_define_nothing() {
    let mut types = Types::new(4);
    let id = types.add(gimli::DW_TAG_structure_type);
    types.name(id, "malloc_state");
    types.set(id, gimli::DW_AT_declaration, AttributeValue::Flag(true));
    types.malloc_par();
    types.heap_info();
    assert!(matches!(
        extract(&types.write(), false),
        Err(DwarfLayoutError::Invalid(reason)) if reason == "target is only a declaration"
    ));
}

#[test]
fn reference_cycles_are_found() {
    let mut types = Types::new(4);
    types.malloc_state();
    types.malloc_par();
    let a = types.add(gimli::DW_TAG_typedef);
    let b = types.alias(gimli::DW_TAG_typedef, a);
    types.set(a, gimli::DW_AT_type, AttributeValue::UnitRef(b));
    types.name(a, "heap_info");
    assert!(matches!(
        extract(&types.write(), false),
        Err(DwarfLayoutError::Invalid(reason)) if reason == "type reference cycle"
    ));
}

#[test]
fn absent_and_broken_debug_info_differ() {
    assert!(matches!(
        extract(&[(".debug_str", vec![0])], false),
        Err(DwarfLayoutError::Unavailable)
    ));
    assert!(matches!(
        extract(&[(".debug_info", vec![0xff; 7])], false),
        Err(DwarfLayoutError::Parse(_))
    ));
    let mut sections = Types::complete(4).write();
    sections.push((".debug_types", vec![1]));
    assert!(matches!(
        extract(&sections, false),
        Err(DwarfLayoutError::Unsupported("DWARF4 type units"))
    ));
}

#[test]
fn split_dwarf_is_not_supported() {
    let mut types = Types::complete(4);
    let root = types.dwarf.unit.root();
    types.set(
        root,
        gimli::DW_AT_GNU_dwo_name,
        AttributeValue::String(b"x.dwo".to_vec()),
    );
    assert!(matches!(
        extract(&types.write(), false),
        Err(DwarfLayoutError::Unsupported("split DWARF"))
    ));
}

#[test]
fn truncated_units_are_parse_errors() {
    let mut sections = Types::complete(4).write();
    for (name, bytes) in &mut sections {
        if *name == ".debug_info" {
            bytes.truncate(40);
        }
    }
    assert!(matches!(
        extract(&sections, false),
        Err(DwarfLayoutError::Parse(_))
    ));
}

#[test]
fn too_many_candidates_are_refused() {
    let with_candidates = |count: usize| {
        let mut types = Types::new(4);
        types.malloc_state();
        types.malloc_par();
        types.heap_info();
        let pointer = types.pointer;
        for _ in 0..count {
            let id = types.alias(gimli::DW_TAG_typedef, pointer);
            types.name(id, "tcache_perthread_struct");
        }
        extract(&types.write(), false)
    };
    assert!(with_candidates(MAX_TARGET_CANDIDATES / 2).is_ok());
    assert!(matches!(
        with_candidates(MAX_TARGET_CANDIDATES + 1),
        Err(DwarfLayoutError::Limit("target type candidates"))
    ));
}

#[test]
fn declaration_order_of_members_does_not_matter() {
    let layout_of = |order: [usize; 3], repeats: usize| {
        let mut types = Types::new(5);
        let pointer = types.pointer;
        let fastbins = types.array(pointer, 10);
        let members = [
            ("fastbinsY", 16, fastbins),
            ("top", 96, pointer),
            ("next", 104, pointer),
        ];
        let mut listed: Vec<(&str, u64, UnitEntryId)> =
            order.iter().map(|i| members[*i]).collect();
        for _ in 0..repeats {
            listed.push(members[1]);
        }
        types.structure("malloc_state", 112, &listed);
        types.malloc_par();
        types.heap_info();
        extract(&types.write(), false).unwrap()
    };
    let first = layout_of([0, 1, 2], 0);
    assert_eq!(first.malloc_state_top_offset, 96);
    assert_eq!(layout_of([2, 0, 1], 0), first);
    assert_eq!(layout_of([1, 2, 0], 2), first);
}

fn leb128(mut value: u64) -> Vec<u8> {
    let mut out = Vec::new();
    while value >= 128 {
        out.push((value % 128) as u8 | 128);
        value /= 128;
    }
    out.push(value as u8);
    out
}

/// A version 5 unit whose root has one attribute, with one structure in it, whose
/// name is a string index.
fn indexed_unit(attribute: u8, form: u8, root: u64, name: u64) -> Vec<(&'static str, Vec<u8>)> {
    let abbrev = vec![
        1, 0x11, 1, attribute, form, 0, 0, // compilation unit
        2, 0x13, 0, 0x03, 0x1a, 0, 0, // structure, named by strx
        0,
    ];
    let mut unit = vec![5, 0, 1, 8, 0, 0, 0, 0];
    unit.push(1);
    unit.extend(leb128(root));
    unit.push(2);
    unit.extend(leb128(name));
    unit.push(0);
    let mut info = (unit.len() as u32).to_le_bytes().to_vec();
    info.extend(unit);
    // Two words of header, then the offset of the text at 1.
    let offsets = vec![8, 0, 0, 0, 5, 0, 0, 0, 1, 0, 0, 0];
    vec![
        (".debug_abbrev", abbrev),
        (".debug_info", info),
        (".debug_str_offsets", offsets),
        (".debug_str", b"\0other\0".to_vec()),
    ]
}

fn parse_text(sections: &[(&'static str, Vec<u8>)]) -> Option<String> {
    match extract(sections, false) {
        Err(DwarfLayoutError::Parse(text)) => Some(text),
        _ => None,
    }
}

#[test]
fn string_indices_out_of_range_are_refused() {
    // In range: the structure has another name.
    assert!(matches!(
        extract(&indexed_unit(0x03, 0x1a, 2, 2), false),
        Err(DwarfLayoutError::Invalid(reason)) if reason.starts_with("missing DWARF type")
    ));
    // Offsets of this unit are four bytes.
    let far = indexed_unit(0x03, 0x1a, 2, u64::MAX / 4 + 1);
    assert_eq!(parse_text(&far).unwrap(), "string index is out of range");
    // In range of the product, but not of the section.
    for index in [u64::MAX / 8, u64::MAX / 8 + 1, u64::MAX / 4] {
        let near = indexed_unit(0x03, 0x1a, 2, index);
        assert_ne!(parse_text(&near).unwrap(), "string index is out of range");
    }
    let attr = |kind| Attr { kind, udata: None };
    for size in [4u8, 8] {
        let last = usize::MAX / usize::from(size);
        assert!(check_string(attr(AttrKind::StrIndex(last)), size));
        assert!(!check_string(attr(AttrKind::StrIndex(last + 1)), size));
        assert!(check_string(attr(AttrKind::Other), size));
    }
}

#[test]
fn root_indices_out_of_range_are_refused() {
    let refused = "index in a root entry is out of range";
    for (attribute, form, index) in [
        (0x03, 0x1a, 1u64 << 62),
        (0x1b, 0x1a, u64::MAX),
        (0x11, 0x1b, 1 << 61),
    ] {
        let unit = indexed_unit(attribute, form, index, 2);
        assert_eq!(parse_text(&unit).unwrap(), refused);
    }
    // An entry of four bytes at this index is in range, and a unit needs no name.
    assert!(parse_text(&indexed_unit(0x03, 0x1a, 1 << 61, 2)).is_none());
    // Nothing looks a producer up.
    assert!(parse_text(&indexed_unit(0x25, 0x1a, u64::MAX, 2)).is_none());
}

#[test]
fn sizes_of_pieces_out_of_range_are_refused() {
    let piece = |size: u64| {
        let mut bytes = vec![0x93];
        bytes.extend(leb128(size));
        bytes
    };
    assert!(check_operation(&piece(0)));
    assert!(check_operation(&piece(u64::MAX / 8)));
    assert!(!check_operation(&piece(u64::MAX / 8 + 1)));
    assert!(!check_operation(&piece(u64::MAX)));
    assert!(check_operation(&[]));
    assert!(check_operation(&[0x93]));
    assert!(check_operation(&[0x23, 0xff, 0xff, 0xff, 0xff, 0xff, 0xff, 0xff, 0xff, 0xff, 1]));

    let placed_by = |bytes: Vec<u8>| {
        let mut types = Types::new(4);
        let pointer = types.pointer;
        let id = types.structure("malloc_state", 112, &[]);
        let member = types.dwarf.unit.add(id, gimli::DW_TAG_member);
        types.name(member, "top");
        types.set(member, gimli::DW_AT_type, AttributeValue::UnitRef(pointer));
        types.set(
            member,
            gimli::DW_AT_data_member_location,
            AttributeValue::Exprloc(Expression::raw(bytes)),
        );
        extract(&types.write(), false)
    };
    let mut far = vec![0x23, 8];
    far.extend(piece(1 << 61));
    assert!(matches!(
        placed_by(far),
        Err(DwarfLayoutError::Parse(text)) if text == "size of a piece is out of range"
    ));
    let mut near = vec![0x23, 8];
    near.extend(piece(8));
    assert!(matches!(
        placed_by(near),
        Err(DwarfLayoutError::Unsupported("member location expression"))
    ));
    assert!(matches!(
        placed_by(Vec::new()),
        Err(DwarfLayoutError::Unsupported("member location expression"))
    ));
    assert!(matches!(placed_by(vec![0x23]), Err(DwarfLayoutError::Parse(_))));
}

#[test]
fn aliases_are_transparent_up_to_the_limit() {
    let through = |aliases: usize| {
        let mut types = Types::new(4);
        types.malloc_state();
        types.malloc_par();
        let pointer = types.pointer;
        let mut word = types.word;
        for i in 0..aliases {
            let tag = if i % 2 == 0 {
                gimli::DW_TAG_typedef
            } else {
                gimli::DW_TAG_volatile_type
            };
            word = types.alias(tag, word);
        }
        types.structure(
            "heap_info",
            32,
            &[
                ("ar_ptr", 0, pointer),
                ("prev", 8, pointer),
                ("size", 16, word),
                ("mprotect_size", 24, word),
            ],
        );
        extract(&types.write(), false)
    };
    let plain = through(0).unwrap();
    assert_eq!(through(1).unwrap(), plain);
    assert_eq!(through(63).unwrap(), plain);
    assert!(matches!(
        through(64),
        Err(DwarfLayoutError::Limit("type reference depth"))
    ));
}
