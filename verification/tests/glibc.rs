//! glibc versions, symbols, debug links and layout detection.

use heap_analyser::arch::{by_elf_machine, EM_X86_64};
use heap_analyser::elf::image::{ElfTables, Relocation, Symbol};
use heap_analyser::elf::Elf;
use heap_analyser::glibc::debuglink::{check_crc, parse_debuglink_crc, verify_debuglink_crc};
use heap_analyser::glibc::dwarf::{DwarfLayout, DwarfLayoutError};
use heap_analyser::glibc::heap_info::HeapInfoOffsets;
use heap_analyser::glibc::malloc_state::MallocStateOffsets;
use heap_analyser::glibc::tcache::TcacheOffsets;
use heap_analyser::glibc::version::{parse_glibc_version, GlibcVersion};
use heap_analyser::glibc::{test_layout, DetectedLayout, LayoutSource, VersionSource};
use heap_analyser::problem::Problem;

#[test]
fn parses_debuglink_crc_in_target_byte_order() {
    let crc = 0x1234_5678u32;
    let mut little = b"libc.so.6.debug\0".to_vec();
    little.resize((little.len() + 3) & !3, 0);
    little.extend_from_slice(&crc.to_le_bytes());
    assert_eq!(parse_debuglink_crc(&little, true).unwrap(), crc);

    let mut big = b"libc.so.6.debug\0".to_vec();
    big.resize((big.len() + 3) & !3, 0);
    big.extend_from_slice(&crc.to_be_bytes());
    assert_eq!(parse_debuglink_crc(&big, false).unwrap(), crc);
}

#[test]
fn rejects_malformed_debuglink_data() {
    assert!(parse_debuglink_crc(b"libc.so.6.debug", true).is_err());
    assert!(parse_debuglink_crc(b"\0\0\0\0", true).is_err());
    assert!(parse_debuglink_crc(b"libc.so.6.debug\0", true).is_err());
}

#[test]
fn verifies_crc_over_the_complete_debug_file() {
    let debug = b"complete debug file contents";
    let expected = crc32fast::hash(debug);
    assert!(verify_debuglink_crc(expected, debug).is_ok());

    let mut changed = debug.to_vec();
    changed[20] ^= 1;
    assert!(verify_debuglink_crc(expected, &changed).is_err());
}

#[test]
fn crc_is_the_usual_one() {
    assert!(verify_debuglink_crc(0xcbf4_3926, b"123456789").is_ok());
    assert_eq!(
        check_crc(1, 2).unwrap_err(),
        "debuginfo .gnu_debuglink CRC does not match the runtime libc"
    );
}

#[test]
fn parses_numeric_versions() {
    assert_eq!(
        parse_glibc_version("GLIBC_2.34"),
        Some(GlibcVersion {
            major: 2,
            minor: 34
        })
    );
}

#[test]
fn rejects_non_version_tags() {
    assert_eq!(parse_glibc_version("GLIBC_PRIVATE"), None);
    assert_eq!(parse_glibc_version("memcpy"), None);
    assert_eq!(parse_glibc_version("GLIBC_2"), None);
}

#[test]
fn ordering_picks_higher() {
    let a = GlibcVersion {
        major: 2,
        minor: 31,
    };
    let b = GlibcVersion {
        major: 2,
        minor: 32,
    };
    assert!(b > a);
    assert_eq!(a.max(b), b);
    assert!(b.is_at_least(a) && b.is_at_least(b) && !a.is_at_least(b));
}

#[test]
fn versions_with_extra_parts_are_rejected() {
    assert_eq!(parse_glibc_version("GLIBC_2.2.5"), None);
    assert_eq!(parse_glibc_version("GLIBC_2."), None);
    assert_eq!(parse_glibc_version("GLIBC_4294967296.1"), None);
    assert_eq!(
        parse_glibc_version("GLIBC_+2.034"),
        Some(GlibcVersion {
            major: 2,
            minor: 34
        })
    );
}

#[test]
fn builtin_offsets_of_both_word_sizes() {
    let ms = MallocStateOffsets::new(8);
    assert_eq!((ms.fastbin_array, ms.fastbin_count, ms.top, ms.next), (16, 10, 96, 2160));
    let ms = MallocStateOffsets::new(4);
    assert_eq!((ms.fastbin_array, ms.fastbin_count, ms.top, ms.next), (12, 11, 56, 1096));
    let hi = HeapInfoOffsets::new(8, true);
    assert_eq!((hi.sizeof, hi.prev, hi.size, hi.mprotect_size), (48, 8, 16, 24));
    assert_eq!(hi.heap_max_size, 64 << 20);
    let hi = HeapInfoOffsets::new(4, false);
    assert_eq!((hi.sizeof, hi.heap_max_size), (16, 1 << 20));
    let tc = TcacheOffsets::new();
    assert_eq!((tc.max_bins, tc.entries), (64, 128));
}

fn symbol(name: &str, shndx: usize, value: u64) -> Symbol {
    Symbol {
        name: Some(name.to_string()),
        shndx,
        value,
        size: 8,
    }
}

fn elf(symbols: Vec<Symbol>, relocations: Vec<Relocation>, version: Option<&str>) -> Elf<'static> {
    Elf {
        tables: ElfTables {
            is_64: true,
            little_endian: true,
            machine: EM_X86_64,
            program_headers: Vec::new(),
            sections: Vec::new(),
            symbols,
            relocations,
            versions: vec![vec![version.map(str::to_string), None]],
        },
        data: &[],
    }
}

fn tp_off(offset: u64, addend: Option<i64>) -> Relocation {
    Relocation {
        r_offset: offset,
        r_addend: addend,
        r_type: 18,
    }
}

fn detect(runtime: &Elf<'static>, debug: Option<&Elf<'static>>) -> DetectedLayout {
    DetectedLayout::detect_with_debug(runtime, debug, by_elf_machine(EM_X86_64).unwrap())
}

#[test]
fn complete_libc_is_detected_without_problems() {
    let libc = elf(
        vec![
            symbol("main_arena", 1, 0x100),
            symbol("mp_", 1, 0x200),
            symbol("__tcache", 1, 0x30),
            symbol("narenas_limit.lto_priv.0", 1, 0x40),
            symbol("narenas_limits_are_prefixes", 1, 0x40),
            symbol("thread_arena", 0, 0x50), // undefined: not a definition
        ],
        vec![tp_off(0x10, Some(4)), tp_off(0x20, Some(0)), tp_off(0x30, None)],
        Some("GLIBC_2.38"),
    );
    let layout = detect(&libc, None);
    assert!(layout.problems.is_empty(), "{:?}", layout.problems);
    assert_eq!(layout.layout_source, LayoutSource::Builtin);
    assert_eq!(layout.layout_source.as_str(), "builtin");
    assert_eq!(layout.main_arena.value, 0x100);
    assert_eq!(layout.tcache.value, 0x30);
    assert_eq!(layout.narenas_limit.value, 0x40);
    assert!(!layout.thread_arena.present);
    assert_eq!(layout.tp_off_reloc_addr, Some(0x20));
    assert!(layout.capabilities.has_tcache && layout.capabilities.has_safe_linking);
    assert_eq!(layout.capabilities.version_source.as_str(), "gnu_version_d");
    assert_eq!((layout.word_size, layout.minsize, layout.malloc_alignment), (8, 32, 16));
    assert_eq!((layout.mp_sbrk_base_offset, layout.mp_tcache_bins_offset), (72, 80));
}

#[test]
fn safe_linking_starts_with_its_release() {
    let old = elf(Vec::new(), Vec::new(), Some("GLIBC_2.31"));
    assert!(!detect(&old, None).capabilities.has_safe_linking);
    let new = elf(Vec::new(), Vec::new(), Some("GLIBC_2.32"));
    assert!(detect(&new, None).capabilities.has_safe_linking);
}

#[test]
fn stripped_libc_collects_every_gap() {
    let layout = detect(&elf(Vec::new(), Vec::new(), None), None);
    assert!(matches!(
        layout.problems.as_slice(),
        [
            Problem::MissingSymbol { symbol: first },
            Problem::MissingSymbol { symbol: second },
            Problem::MissingRelocation,
            Problem::UnknownGlibcVersion,
        ] if first == "main_arena" && second == "mp_"
    ));
    assert!(layout.capabilities.has_safe_linking);
    assert!(matches!(
        layout.capabilities.version_source,
        VersionSource::AssumedDefault
    ));
    let fatal: Vec<bool> = layout.problems.iter().map(Problem::is_fatal).collect();
    assert_eq!(fatal, vec![true, true, false, false]);
}

#[test]
fn runtime_symbols_win_over_debug_symbols() {
    let runtime = elf(vec![symbol("main_arena", 1, 0x100)], Vec::new(), None);
    let debug = elf(
        vec![
            symbol("main_arena", 1, 0x999),
            symbol("mp_", 1, 0x200),
            symbol("__malloc_hugepage_config", 1, 0x300),
        ],
        Vec::new(),
        None,
    );
    let layout = detect(&runtime, Some(&debug));
    assert_eq!(layout.main_arena.value, 0x100);
    assert_eq!(layout.mp.value, 0x200);
    assert_eq!(layout.mp_sbrk_base_offset, 96);
    assert!(matches!(
        &layout.problems[0],
        Problem::DuplicateSymbol { symbol } if symbol == "main_arena"
    ));
    // A debug file without DWARF is a reason to fall back.
    assert!(matches!(
        layout.problems.last(),
        Some(Problem::DwarfLayoutFallback { reason })
            if reason == "DWARF debug_info is unavailable"
    ));
}

fn dwarf_layout() -> DwarfLayout {
    DwarfLayout {
        malloc_state_size: 2200,
        fastbin_array_offset: 24,
        fastbin_count: 9,
        malloc_state_top_offset: 100,
        malloc_state_next_offset: 2168,
        mp_arena_max_offset: None,
        mp_sbrk_base_offset: 104,
        mp_tcache_bins_offset: Some(112),
        heap_info_size: 64,
        heap_info_ar_ptr_offset: 8,
        heap_info_prev_offset: 16,
        heap_info_size_offset: 24,
        heap_info_mprotect_size_offset: 32,
        tcache_entries_offset: Some(152),
        tcache_max_bins: None,
    }
}

#[test]
fn offsets_switch_as_one_set() {
    let mut layout = test_layout(8);
    layout.adopt(Ok(dwarf_layout()), false);
    assert_eq!(layout.layout_source.as_str(), "dwarf");
    assert_eq!(layout.main_arena.size, 2200);
    assert_eq!(layout.fastbin_array_offset, 24);
    assert_eq!(layout.mp_arena_max_offset, 32); // not given: stays
    assert_eq!(layout.mp_tcache_bins_offset, 112);
    assert_eq!(layout.heap_info_size, 64);
    // Only one of the pair was given: both stay.
    assert_eq!((layout.tcache_entries_offset, layout.tcache_max_bins), (128, 64));
    assert!(layout.problems.is_empty());
}

#[test]
fn failed_extraction_leaves_the_builtin_layout() {
    let mut layout = test_layout(8);
    layout.adopt(Err(DwarfLayoutError::Unavailable), false);
    assert!(layout.problems.is_empty());
    layout.adopt(Err(DwarfLayoutError::Unavailable), true);
    layout.adopt(Err(DwarfLayoutError::Limit("DIE count")), false);
    assert!(matches!(
        layout.problems.as_slice(),
        [
            Problem::DwarfLayoutFallback { reason: first },
            Problem::DwarfLayoutFallback { reason: second },
        ] if first == "DWARF debug_info is unavailable"
            && second == "DWARF resource limit exceeded: DIE count"
    ));
    assert_eq!(layout.layout_source, LayoutSource::Builtin);
    assert_eq!(layout.fastbin_array_offset, 16);
}
