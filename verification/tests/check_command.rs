//! The `check` command on small ELF files.

use heap_analyser::commands::check::{run, CheckReport};
use heap_analyser::elf::Image;
use heap_analyser::error::{Error, Result};
use heap_analyser::problem::Problem;
use heap_analyser::report::model::IdentityJson;

const EM_X86_64: u16 = 62;
const EM_AARCH64: u16 = 183;

struct Part {
    name: u32,
    section_type: u32,
    offset: u64,
    size: u64,
    alignment: u64,
}

/// Build a minimal ELF64 with section headers but no program headers. This
/// keeps the fixture independent of a host compiler and lets tests exercise
/// build-id discovery from `SHT_NOTE` specifically.
fn minimal_elf(machine: u16, build_id: Option<&[u8]>, debuglink_crcs: &[u32]) -> Vec<u8> {
    const ELF_HEADER_SIZE: usize = 64;
    const SECTION_HEADER_SIZE: usize = 64;
    const SHT_STRTAB: u32 = 3;
    const SHT_NOTE: u32 = 7;
    const SHT_PROGBITS: u32 = 1;

    let mut shstrtab = vec![0];
    let shstrtab_name = add_string(&mut shstrtab, b".shstrtab");
    let note_name = add_string(&mut shstrtab, b".note.gnu.build-id");
    let debuglink_name = add_string(&mut shstrtab, b".gnu_debuglink");

    let mut data = vec![0; ELF_HEADER_SIZE];
    let mut parts = Vec::new();
    append_section(
        &mut data,
        &mut parts,
        shstrtab_name,
        SHT_STRTAB,
        1,
        &shstrtab,
    );

    if let Some(build_id) = build_id {
        let mut note = Vec::new();
        note.extend_from_slice(&4u32.to_le_bytes());
        note.extend_from_slice(&(build_id.len() as u32).to_le_bytes());
        note.extend_from_slice(&3u32.to_le_bytes());
        note.extend_from_slice(b"GNU\0");
        note.extend_from_slice(build_id);
        align(&mut note, 4);
        append_section(&mut data, &mut parts, note_name, SHT_NOTE, 4, &note);
    }

    for crc in debuglink_crcs {
        let mut debuglink = b"fixture.debug\0".to_vec();
        align(&mut debuglink, 4);
        debuglink.extend_from_slice(&crc.to_le_bytes());
        append_section(
            &mut data,
            &mut parts,
            debuglink_name,
            SHT_PROGBITS,
            4,
            &debuglink,
        );
    }

    align(&mut data, 8);
    let section_table_offset = data.len();
    data.resize(
        section_table_offset + (parts.len() + 1) * SECTION_HEADER_SIZE,
        0,
    );
    for (index, part) in parts.iter().enumerate() {
        let offset = section_table_offset + (index + 1) * SECTION_HEADER_SIZE;
        write_u32(&mut data, offset, part.name);
        write_u32(&mut data, offset + 4, part.section_type);
        write_u64(&mut data, offset + 24, part.offset);
        write_u64(&mut data, offset + 32, part.size);
        write_u64(&mut data, offset + 48, part.alignment);
    }

    data[..4].copy_from_slice(b"\x7fELF");
    data[4] = 2;
    data[5] = 1;
    data[6] = 1;
    write_u16(&mut data, 16, 3);
    write_u16(&mut data, 18, machine);
    write_u32(&mut data, 20, 1);
    write_u64(&mut data, 40, section_table_offset as u64);
    write_u16(&mut data, 52, ELF_HEADER_SIZE as u16);
    write_u16(&mut data, 54, 56);
    write_u16(&mut data, 58, SECTION_HEADER_SIZE as u16);
    write_u16(&mut data, 60, (parts.len() + 1) as u16);
    write_u16(&mut data, 62, 1);
    data
}

fn append_section(
    data: &mut Vec<u8>,
    parts: &mut Vec<Part>,
    name: u32,
    section_type: u32,
    alignment: u64,
    contents: &[u8],
) {
    align(data, alignment as usize);
    let offset = data.len();
    data.extend_from_slice(contents);
    parts.push(Part {
        name,
        section_type,
        offset: offset as u64,
        size: contents.len() as u64,
        alignment,
    });
}

fn add_string(table: &mut Vec<u8>, value: &[u8]) -> u32 {
    let offset = table.len() as u32;
    table.extend_from_slice(value);
    table.push(0);
    offset
}

fn align(data: &mut Vec<u8>, alignment: usize) {
    while data.len() % alignment != 0 {
        data.push(0);
    }
}

fn write_u16(data: &mut [u8], offset: usize, value: u16) {
    data[offset..offset + 2].copy_from_slice(&value.to_le_bytes());
}

fn write_u32(data: &mut [u8], offset: usize, value: u32) {
    data[offset..offset + 4].copy_from_slice(&value.to_le_bytes());
}

fn write_u64(data: &mut [u8], offset: usize, value: u64) {
    data[offset..offset + 8].copy_from_slice(&value.to_le_bytes());
}

fn check_elf_pair(runtime: &[u8], debug: &[u8]) -> Result<(i32, CheckReport)> {
    let runtime = Image::from_bytes(runtime.to_vec())?;
    let debug = Image::from_bytes(debug.to_vec())?;
    let debug = debug.parse()?;
    run(&runtime.parse()?, Some(&debug), "libc.so.6")
}

fn check_elf(runtime: &[u8]) -> Result<(i32, CheckReport)> {
    let runtime = Image::from_bytes(runtime.to_vec())?;
    run(&runtime.parse()?, None, "libc.so.6")
}

fn complaint(r: Result<(i32, CheckReport)>) -> String {
    match r {
        Err(e) => e.message(),
        Ok(_) => panic!("expected a failure"),
    }
}

/// `check` on a valid ELF that isn't a libc: it parses, detects the arch, finds
/// no glibc symbols, and says so with a report and a non-zero exit.
#[test]
fn check_on_non_libc_elf_reports_unsupported() {
    let (code, report) = check_elf(&minimal_elf(EM_X86_64, Some(b"id"), &[])).unwrap();
    assert_eq!(code, 1);
    assert_eq!(report.schema_version, 1);
    assert!(!report.supported);
    assert_eq!(report.glibc_capabilities.unwrap().layout_source, "builtin");
    assert_eq!(report.symbols[0].0, "main_arena");
    assert!(!report.symbols[0].1.present);

    let problems = report.problems;
    assert!(
        problems.iter().any(
            |p| matches!(p, Problem::MissingSymbol { symbol } if symbol == "main_arena")
        ),
        "expected a missing_symbol problem for main_arena, got {problems:?}"
    );
}

#[test]
fn matching_debug_file_is_accepted_and_reports_layout_fallback() {
    let elf = minimal_elf(EM_X86_64, Some(b"some build id"), &[]);
    let (code, report) = check_elf_pair(&elf, &elf).unwrap();
    assert_eq!(code, 1);
    assert_eq!(report.glibc_capabilities.unwrap().layout_source, "builtin");
    assert!(report
        .problems
        .iter()
        .any(|problem| matches!(problem, Problem::DwarfLayoutFallback { .. })));
}

#[test]
fn mismatched_debug_file_fails_before_json_output() {
    let runtime = minimal_elf(EM_X86_64, Some(b"one"), &[]);
    let debug = minimal_elf(EM_X86_64, Some(b"two"), &[]);
    assert!(complaint(check_elf_pair(&runtime, &debug))
        .contains("debuginfo build-id does not match the runtime libc"));
}

#[test]
fn matching_section_build_ids_are_accepted() {
    let build_id = b"matching build id";
    let runtime = minimal_elf(EM_X86_64, Some(build_id), &[]);
    let debug = minimal_elf(EM_X86_64, Some(build_id), &[]);

    // Pairing succeeded; the minimal ELF is not a libc, so `check` then emits
    // its normal unsupported report with status 1.
    let (code, _) = check_elf_pair(&runtime, &debug).unwrap();
    assert_eq!(code, 1);
}

#[test]
fn mismatched_build_ids_are_rejected_even_when_debuglink_matches() {
    let debug = minimal_elf(EM_X86_64, Some(b"debug build id"), &[]);
    let runtime = minimal_elf(
        EM_X86_64,
        Some(b"runtime build id"),
        &[crc32fast::hash(&debug)],
    );
    assert!(complaint(check_elf_pair(&runtime, &debug))
        .contains("debuginfo build-id does not match the runtime libc"));
}

#[test]
fn matching_debuglink_crc_is_accepted_without_shared_build_id() {
    let debug = minimal_elf(EM_X86_64, None, &[]);
    let runtime = minimal_elf(
        EM_X86_64,
        Some(b"runtime build id"),
        &[crc32fast::hash(&debug)],
    );

    // Pairing succeeded; the minimal ELF is not a libc, so `check` then emits
    // its normal unsupported report with status 1.
    let (code, _) = check_elf_pair(&runtime, &debug).unwrap();
    assert_eq!(code, 1);
}

#[test]
fn mismatched_debuglink_crc_is_rejected() {
    let debug = minimal_elf(EM_X86_64, None, &[]);
    let runtime = minimal_elf(EM_X86_64, None, &[crc32fast::hash(&debug) ^ 1]);
    assert!(complaint(check_elf_pair(&runtime, &debug))
        .contains("debuginfo .gnu_debuglink CRC does not match the runtime libc"));
}

#[test]
fn missing_build_id_and_debuglink_are_rejected() {
    let runtime = minimal_elf(EM_X86_64, None, &[]);
    let debug = minimal_elf(EM_X86_64, None, &[]);
    assert!(complaint(check_elf_pair(&runtime, &debug))
        .contains("no matching build-id or .gnu_debuglink CRC"));
}

#[test]
fn duplicate_debuglink_sections_are_rejected() {
    let debug = minimal_elf(EM_X86_64, None, &[]);
    let crc = crc32fast::hash(&debug);
    let runtime = minimal_elf(EM_X86_64, None, &[crc, crc]);
    assert!(complaint(check_elf_pair(&runtime, &debug))
        .contains("runtime libc has duplicate .gnu_debuglink sections"));
}

#[test]
fn mismatched_debug_machine_is_rejected() {
    let build_id = b"matching build id";
    let runtime = minimal_elf(EM_X86_64, Some(build_id), &[]);
    let debug = minimal_elf(EM_AARCH64, Some(build_id), &[]);
    let text = complaint(check_elf_pair(&runtime, &debug));
    assert!(text.contains("debuginfo ABI does not match the runtime libc"));
    assert!(text.starts_with("reference libc is unusable: "));
}

#[test]
fn check_on_non_elf_fails_hard() {
    // A source file is not an ELF.
    assert!(matches!(
        check_elf(b"//! The `check` command on small ELF files."),
        Err(Error::NotElf { .. })
    ));
}

#[test]
fn unknown_machine_still_gets_a_report() {
    let (code, report) = check_elf(&minimal_elf(0x28, None, &[])).unwrap();
    assert_eq!(code, 1);
    assert_eq!(report.arch, "unknown(0x28)");
    assert_eq!(report.word_size, 8);
    assert_eq!(report.libc_path, "libc.so.6");
    assert_eq!(report.tool_version, "0.1.0");
    assert!(report.glibc_capabilities.is_none());
    assert!(report.symbols.is_empty());
    assert!(matches!(
        report.problems.as_slice(),
        [Problem::UnsupportedArch { machine: 0x28 }, Problem::MissingBuildId]
    ));
    assert!(matches!(report.identity, IdentityJson::ContentHash { value } if value.len() == 64));
}
