//! Whole analyses, on a core dump and a libc that are put together here.

use std::collections::HashMap;

use heap_analyser::analyze::arenas::{attached_threads, walk_arena_fastbins};
use heap_analyser::analyze::tls::resolve_tls;
use heap_analyser::analyze::{
    analyze_core, analyze_core_with_debug, default_libc, describe, read_core, unopened_libc,
};
use heap_analyser::commands::check::run;
use heap_analyser::elf::coredump::Thread;
use heap_analyser::elf::{Image, MemReader};
use heap_analyser::error::{Error, ErrorView, Result};
use heap_analyser::glibc::test_layout;
use heap_analyser::glibc::version::{detect, GlibcVersion};
use heap_analyser::heap::arena::Arena;
use heap_analyser::locate::{compute_identity, Identity, LibcLocator, NtFileLocator};
use heap_analyser::problem::Problem;
use heap_analyser::report::model::IdentityJson;

fn put(data: &mut [u8], at: usize, bytes: &[u8]) {
    data[at..at + bytes.len()].copy_from_slice(bytes);
}

fn put64(data: &mut [u8], at: usize, value: u64) {
    put(data, at, &value.to_le_bytes());
}

fn elf_header(data: &mut [u8], kind: u16, phnum: u16, shoff: u64, shnum: u16) {
    put(data, 0, b"\x7fELF\x02\x01\x01");
    put(data, 16, &kind.to_le_bytes());
    put(data, 18, &62u16.to_le_bytes());
    put(data, 20, &1u32.to_le_bytes());
    put64(data, 32, 64);
    put64(data, 40, shoff);
    put(data, 52, &64u16.to_le_bytes());
    put(data, 54, &56u16.to_le_bytes());
    put(data, 56, &phnum.to_le_bytes());
    put(data, 58, &64u16.to_le_bytes());
    put(data, 60, &shnum.to_le_bytes());
    put(data, 62, &1u16.to_le_bytes());
}

fn program_header(data: &mut [u8], i: usize, kind: u32, offset: u64, vaddr: u64, size: u64) {
    let at = 64 + 56 * i;
    put(data, at, &kind.to_le_bytes());
    put64(data, at + 8, offset);
    put64(data, at + 16, vaddr);
    put64(data, at + 32, size);
    put64(data, at + 40, size);
    put64(data, at + 48, 8);
}

fn note(name: &[u8], kind: u32, desc: &[u8]) -> Vec<u8> {
    let mut v = Vec::new();
    v.extend_from_slice(&(name.len() as u32).to_le_bytes());
    v.extend_from_slice(&(desc.len() as u32).to_le_bytes());
    v.extend_from_slice(&kind.to_le_bytes());
    v.extend_from_slice(name);
    v.resize((v.len() + 3) & !3, 0);
    v.extend_from_slice(desc);
    v.resize((v.len() + 3) & !3, 0);
    v
}

// Offsets of the libc's variables from its load address.
const MAIN_ARENA: u64 = 0x1000;
const MP: u64 = 0x2000;
const TLS_RELOC: u64 = 0x2800;
const TCACHE: u64 = 0x10;
const THREAD_ARENA: u64 = 0x18;

struct LibcParts {
    symbols: Vec<(&'static str, u64)>,
    version: &'static str,
    build_id: Vec<u8>,
}

fn libc_parts() -> LibcParts {
    LibcParts {
        symbols: vec![
            ("main_arena", MAIN_ARENA),
            ("mp_", MP),
            ("tcache", TCACHE),
            ("thread_arena", THREAD_ARENA),
        ],
        version: "GLIBC_2.38",
        build_id: vec![0xab, 0xcd, 0xef],
    }
}

/// A shared object with a build-id, a symbol table, one TP-offset relocation and
/// one version definition.
fn libc(parts: &LibcParts) -> Vec<u8> {
    let mut data = vec![0u8; 0xc00];
    // Program headers: load, dynamic, note.
    let id = note(b"GNU\0", 3, &parts.build_id);
    put(&mut data, 0x100, &id);
    program_header(&mut data, 0, 1, 0, 0, 0xc00);
    program_header(&mut data, 1, 2, 0x180, 0x180, 16 * 6);
    program_header(&mut data, 2, 4, 0x100, 0x100, id.len() as u64);
    // Dynamic section: string table, relocations.
    let entries = [(5u64, 0x280u64), (10, 0x40), (7, 0x300), (8, 48), (9, 24), (0, 0)];
    for (i, (tag, value)) in entries.into_iter().enumerate() {
        put64(&mut data, 0x180 + 16 * i, tag);
        put64(&mut data, 0x188 + 16 * i, value);
    }
    put(&mut data, 0x281, parts.version.as_bytes());
    // Two relocations: one with an addend, one without.
    put64(&mut data, 0x300, 0x9999);
    put64(&mut data, 0x308, 18);
    put64(&mut data, 0x310, 8);
    put64(&mut data, 0x318, TLS_RELOC);
    put64(&mut data, 0x320, 18);
    // One version definition with one name.
    put(&mut data, 0x380, &1u16.to_le_bytes());
    put(&mut data, 0x386, &1u16.to_le_bytes());
    put(&mut data, 0x38c, &20u32.to_le_bytes());
    put(&mut data, 0x394, &1u32.to_le_bytes());
    // Names of sections and symbols.
    put(&mut data, 0x401, b".shstrtab\0.symtab\0.strtab\0.gnu.version_d\0");
    let mut name = 1usize;
    for (i, (symbol, value)) in parts.symbols.iter().enumerate() {
        put(&mut data, 0x600 + name, symbol.as_bytes());
        let at = 0x500 + 24 * (i + 1);
        put(&mut data, at, &(name as u32).to_le_bytes());
        put(&mut data, at + 6, &1u16.to_le_bytes());
        put64(&mut data, at + 8, *value);
        put64(&mut data, at + 16, 0x898);
        name += symbol.len() + 1;
    }
    let symtab_size = 24 * (parts.symbols.len() + 1);
    // Section headers: name, type, offset, size, link, info, entry size.
    let sections = [
        (1u32, 3u32, 0x400u64, 0x80u64, 0u32, 0u32, 0u64),
        (11, 2, 0x500, symtab_size as u64, 3, 1, 24),
        (19, 3, 0x600, 0x100, 0, 0, 0),
        (27, 0x6fff_fffd, 0x380, 28, 3, 1, 0),
    ];
    for (i, (name, kind, offset, size, link, info, entsize)) in sections.into_iter().enumerate() {
        let at = 0x800 + 64 * (i + 1);
        put(&mut data, at, &name.to_le_bytes());
        put(&mut data, at + 4, &kind.to_le_bytes());
        put64(&mut data, at + 24, offset);
        put64(&mut data, at + 32, size);
        put(&mut data, at + 40, &link.to_le_bytes());
        put(&mut data, at + 44, &info.to_le_bytes());
        put64(&mut data, at + 56, entsize);
    }
    elf_header(&mut data, 3, 3, 0x800, 5);
    data
}

const LIBC_BASE: u64 = 0x7f00_0000_0000;
const HEAP_BASE: u64 = 0x5555_0000_0000;
const TLS_BASE: u64 = 0x7f10_0000_0000;
const TP: u64 = TLS_BASE + 0x100;
const TCACHE_BASE: u64 = 0x7f20_0000_0000;
const PID: i32 = 1234;

/// A core of a process with one thread and one heap: a chunk in use, one in the
/// tcache, one free, one in a fastbin, then top.
struct Core {
    libc: Vec<u8>,
    heap: Vec<u8>,
    tls: Vec<u8>,
    tcache: Vec<u8>,
    path: &'static str,
    pid_len: usize,
}

impl Core {
    fn new() -> Self {
        let mut libc_memory = libc(&libc_parts());
        libc_memory.resize(0x3000, 0);
        let arena = MAIN_ARENA as usize;
        let top = HEAP_BASE + 0xc0;
        put64(&mut libc_memory, arena + 96, top);
        put64(&mut libc_memory, arena + 2160, LIBC_BASE + MAIN_ARENA);
        put64(&mut libc_memory, MP as usize + 72, HEAP_BASE);
        put64(&mut libc_memory, TLS_RELOC as usize, 0u64.wrapping_sub(0x80));

        let mut heap = vec![0u8; 0x100];
        // Size fields: in use 0x20, tcache 0x20, free 0x60, fastbin 0x20, top.
        put64(&mut heap, 0x08, 0x21);
        put64(&mut heap, 0x28, 0x21);
        put64(&mut heap, 0x48, 0x61);
        put64(&mut heap, 0xa8, 0x20);
        put64(&mut heap, 0xc8, 0x1001);
        // Safe-linked ends of the two lists.
        let cached = HEAP_BASE + 0x30;
        put64(&mut heap, 0x30, cached >> 12);
        let fast = HEAP_BASE + 0xa0;
        put64(&mut heap, 0xb0, (fast + 16) >> 12);
        put64(&mut libc_memory, arena + 16, fast);

        // tp + offset + variable: 0x100 - 0x80 + 0x10.
        let mut tls = vec![0u8; 0x200];
        put64(&mut tls, 0x90, TCACHE_BASE);
        let mut tcache = vec![0u8; 0x300];
        put64(&mut tcache, 128, cached);
        Core {
            libc: libc_memory,
            heap,
            tls,
            tcache,
            path: "/usr/lib64/libc.so.6 (deleted)",
            pid_len: 336,
        }
    }

    fn bytes(&self) -> Vec<u8> {
        let mut prstatus = vec![0u8; self.pid_len];
        if self.pid_len > 300 {
            put(&mut prstatus, 32, &PID.to_le_bytes());
            put64(&mut prstatus, 112 + 21 * 8, TP);
        }
        let mut files = Vec::new();
        files.extend_from_slice(&1u64.to_le_bytes());
        files.extend_from_slice(&0x1000u64.to_le_bytes());
        for word in [LIBC_BASE, LIBC_BASE + 0x3000, 0] {
            files.extend_from_slice(&word.to_le_bytes());
        }
        files.extend_from_slice(self.path.as_bytes());
        files.push(0);
        let mut notes = note(b"CORE\0", 1, &prstatus);
        notes.extend(note(b"CORE\0", 0x4649_4c45, &files));

        let parts = [
            (4u32, 0u64, &notes),
            (1, LIBC_BASE, &self.libc),
            (1, HEAP_BASE, &self.heap),
            (1, TLS_BASE, &self.tls),
            (1, TCACHE_BASE, &self.tcache),
        ];
        let mut data = vec![0u8; 64 + 56 * parts.len()];
        for (i, (kind, vaddr, bytes)) in parts.into_iter().enumerate() {
            let offset = data.len() as u64;
            program_header(&mut data, i, kind, offset, vaddr, bytes.len() as u64);
            data.extend_from_slice(bytes);
        }
        elf_header(&mut data, 4, 5, 0, 0);
        data
    }
}

fn image(bytes: Vec<u8>) -> Image {
    Image::from_bytes(bytes).unwrap()
}

#[test]
fn core_with_one_heap_gives_its_report() {
    let core = image(Core::new().bytes());
    let libc = image(libc(&libc_parts()));
    let core = core.parse().unwrap();
    let libc = libc.parse().unwrap();
    let report = analyze_core(&core, "./core.1234", &libc, None).unwrap();
    assert_eq!(report.schema_version, 1);
    assert_eq!(report.core_path, "./core.1234");
    assert_eq!(report.tool_version, "0.1.0");
    assert!(report.problems.is_empty(), "{:?}", report.problems);
    assert!(report.libc.verified);
    assert_eq!(report.libc.path, "/usr/lib64/libc.so.6 (deleted)");
    assert!(matches!(
        &report.libc.identity,
        IdentityJson::BuildId { value } if value == "abcdef"
    ));
    assert_eq!(report.glibc_capabilities.layout_source, "builtin");
    assert_eq!(report.glibc_capabilities.version_source, "gnu_version_d");
    assert!(report.glibc_capabilities.has_safe_linking);

    assert_eq!(report.arenas.len(), 1);
    let main = &report.arenas[0];
    assert!(main.is_main);
    assert_eq!(main.attached_threads, vec![PID]);
    assert_eq!(main.heaps.count, 1);
    assert_eq!(main.heaps.total_bytes, 0xc0);
    assert_eq!((main.allocated.count, main.allocated.bytes), (1, 24));
    assert_eq!(main.allocated.size_histogram.len(), 1);
    assert_eq!((main.free.count, main.free.bytes), (3, 24 + 88 + 24));
    assert_eq!(main.free.fastbins.len(), 1);
    assert_eq!((main.free.fastbins[0].index, main.free.fastbins[0].count), (0, 1));
    assert_eq!(main.free.tcache.tcache_threads, vec![PID]);
    assert_eq!(main.free.tcache.bins.len(), 1);
    assert_eq!(main.free.tcache.bins[0].size, 24);
    let sizes: Vec<(u64, u64)> = main
        .free
        .size_histogram
        .iter()
        .map(|b| (b.size, b.count))
        .collect();
    assert_eq!(sizes, vec![(24, 2), (88, 1)]);
    assert_eq!((main.overhead.count, main.overhead.bytes), (4, 32));
    assert_eq!(main.allocated.count + main.free.count, main.overhead.count);
}

#[test]
fn check_accepts_the_libc() {
    let libc = image(libc(&libc_parts()));
    let libc = libc.parse().unwrap();
    assert_eq!(
        detect(&libc),
        Some(GlibcVersion {
            major: 2,
            minor: 38
        })
    );
    let (code, report) = run(&libc, None, "libc.so.6").unwrap();
    assert_eq!(code, 0);
    assert!(report.supported);
    assert_eq!(report.arch, "x86_64");
    assert!(report.problems.is_empty(), "{:?}", report.problems);
    let names: Vec<&str> = report.symbols.iter().map(|(name, _)| name.as_str()).collect();
    assert_eq!(
        names,
        vec!["main_arena", "mp_", "narenas", "narenas_limit", "tcache", "tcache_key", "thread_arena"]
    );
    assert_eq!(report.symbols[0].1.value, Some(MAIN_ARENA));
    assert_eq!(report.symbols[0].1.size, Some(0x898));
    assert_eq!(report.symbols[2].1.value, None);
}

#[test]
fn forced_libc_is_not_verified() {
    let core = image(Core::new().bytes());
    let mut parts = libc_parts();
    parts.build_id = vec![1, 1];
    let other = image(libc(&parts));
    let core = core.parse().unwrap();
    let other = other.parse().unwrap();
    assert!(matches!(
        analyze_core(&core, "core", &other, None),
        Err(Error::LibcNotFound(text))
            if text == "tried 1 libc mapping(s), none matched the reference identity"
    ));
    let report = analyze_core(&core, "core", &other, Some("/usr/lib64/libc.so.6")).unwrap();
    assert!(!report.libc.verified);
    assert!(matches!(
        analyze_core(&core, "core", &other, Some("/lib/x.so")),
        Err(Error::LibcNotFound(text)) if text == "no mapping matches forced path '/lib/x.so'"
    ));
}

#[test]
fn libc_without_build_id_is_found_by_content() {
    let mut parts = libc_parts();
    parts.build_id = vec![];
    let mut bytes = libc(&parts);
    // Turn the build-id note into one of another type.
    put(&mut bytes, 0x108, &9u32.to_le_bytes());
    let mut core = Core::new();
    put(&mut core.libc, 0, &bytes);
    // The mapping is hashed over its first page, the file over what it has.
    bytes.resize(0x1000, 0);
    let core = image(core.bytes());
    let libc = image(bytes);
    let core = core.parse().unwrap();
    let libc = libc.parse().unwrap();
    let identity = compute_identity(&libc);
    assert!(matches!(identity, Identity::ContentHash(_)));
    let located = NtFileLocator.locate(&core, &identity).unwrap();
    assert_eq!(located.load_addr, LIBC_BASE);
    let report = analyze_core(&core, "core", &libc, None).unwrap();
    assert!(matches!(
        report.problems.as_slice(),
        [Problem::MissingBuildId]
    ));
}

#[test]
fn stripped_libc_is_unusable() {
    let core = image(Core::new().bytes());
    let mut parts = libc_parts();
    parts.symbols.remove(0);
    let libc = image(libc(&parts));
    let core = core.parse().unwrap();
    let libc = libc.parse().unwrap();
    match analyze_core(&core, "core", &libc, None) {
        Err(e) => assert_eq!(
            e.message(),
            "reference libc is unusable: missing required symbol 'main_arena'"
        ),
        Ok(_) => panic!("expected a failure"),
    }
}

#[test]
fn foreign_debug_file_is_rejected() {
    let core = image(Core::new().bytes());
    let runtime = image(libc(&libc_parts()));
    let mut parts = libc_parts();
    parts.build_id = vec![9];
    let debug = image(libc(&parts));
    let core = core.parse().unwrap();
    let runtime = runtime.parse().unwrap();
    let debug = debug.parse().unwrap();
    assert!(matches!(
        analyze_core_with_debug(&core, "core", &runtime, Some(&debug), None),
        Err(Error::UnusableLibc(text))
            if text == "debuginfo build-id does not match the runtime libc"
    ));
    // The libc itself is its own debug file, without DWARF.
    let report = analyze_core_with_debug(&core, "core", &runtime, Some(&runtime), None).unwrap();
    assert!(matches!(
        report.problems.as_slice(),
        [Problem::DwarfLayoutFallback { .. }]
    ));
}

#[test]
fn broken_core_fails_before_any_libc() {
    let mut broken = Core::new();
    broken.pid_len = 8;
    let core = image(broken.bytes());
    assert!(matches!(
        read_core(&core.parse().unwrap()),
        Err(Error::NoteTooShort { expected: 288, actual: 8 })
    ));
    let mut bytes = Core::new().bytes();
    put(&mut bytes, 18, &40u16.to_le_bytes());
    let core = image(bytes);
    match read_core(&core.parse().unwrap()) {
        Err(e) => assert_eq!(e.message(), "unsupported architecture: e_machine=0x28"),
        Ok(_) => panic!("expected a failure"),
    };
}

#[test]
fn mapped_libc_is_the_default() {
    let core = image(Core::new().bytes());
    let info = read_core(&core.parse().unwrap()).unwrap();
    assert_eq!(info.threads.len(), 1);
    assert_eq!(default_libc(&info.mapped).unwrap(), "/usr/lib64/libc.so.6");
    assert!(matches!(
        default_libc(&[]),
        Err(Error::LibcNotFound(text)) if text == "no libc mapping in core; pass --libc"
    ));
    assert_eq!(
        unopened_libc("/x").message(),
        "could not locate libc in the core dump: could not open /x; pass --libc"
    );
}

#[test]
fn damaged_heap_still_gives_a_report() {
    let mut core = Core::new();
    put64(&mut core.heap, 0x48, 0x18);
    let core = image(core.bytes());
    let libc = image(libc(&libc_parts()));
    let core = core.parse().unwrap();
    let libc = libc.parse().unwrap();
    let report = analyze_core(&core, "core", &libc, None).unwrap();
    assert!(report
        .problems
        .iter()
        .any(|p| matches!(p, Problem::HeapWalkTruncated { arena: 0, .. })));
    assert!(!report.problems.iter().any(Problem::is_fatal));
}

#[test]
fn fatal_problems_are_described() {
    let missing = Problem::MissingSymbol {
        symbol: "mp_".to_string(),
    };
    assert_eq!(describe(&missing), "missing required symbol 'mp_'");
    assert_eq!(
        describe(&Problem::UnsupportedArch { machine: 0xf3 }),
        "unsupported architecture e_machine=0xf3"
    );
    assert_eq!(describe(&Problem::MissingBuildId), "reference libc unusable");
}

struct Words(HashMap<u64, u64>);

impl MemReader for Words {
    fn read_u64(&self, addr: u64) -> Result<u64> {
        self.0
            .get(&addr)
            .copied()
            .ok_or(Error::AddressNotMapped { addr })
    }

    fn segment_start(&self, _addr: u64) -> Option<u64> {
        None
    }

    // Ghost: only contracts speak of these.
    fn word_at(&self, _addr: u64) -> std::result::Result<u64, ErrorView> {
        unreachable!()
    }

    fn segment_at(&self, _addr: u64) -> Option<u64> {
        unreachable!()
    }
}

fn thread(thread_id: i32, tp: u64) -> Thread {
    Thread {
        pc: 0,
        sp: 0,
        tp,
        thread_id,
    }
}

#[test]
fn first_owner_of_a_cached_chunk_wins() {
    let mut layout = test_layout(8);
    layout.tcache_max_bins = 2;
    layout.thread_arena.value = 0x20;
    let mut words = HashMap::new();
    words.insert(0x1000, 0); // offset of the TLS block
    for (tp, base) in [(0x100u64, 0x5000u64), (0x200, 0x6000)] {
        words.insert(tp, base);
        words.insert(tp + 0x20, 0);
        words.insert(base + 128, 0x9000); // both claim one chunk
        words.insert(base + 136, 0);
    }
    words.insert(0x9000, 0);
    words.insert(0x220, 0xbeef);
    words.remove(&0x6088);
    let arenas = [Arena {
        malloc_state_addr: 0xaaaa,
        index: 0,
    }];
    let threads = [thread(1, 0x100), thread(2, 0x200), thread(3, 0), thread(4, 0x300)];
    let (info, problems) = resolve_tls(&Words(words), &layout, 0x1000, &arenas, &threads);
    assert_eq!(info.tcache_membership.get(&0x9000), Some(&(1, 0)));
    assert_eq!(info.tcache_membership.len(), 1);
    assert_eq!(info.thread_arena_map.get(&1), Some(&0xaaaa));
    assert_eq!(info.thread_arena_map.get(&2), Some(&0xbeef));
    assert!(matches!(
        problems.as_slice(),
        [
            Problem::DuplicateTcacheEntry { thread_id: 2, bin_index: 0, address: chunk },
            Problem::TcacheChunkReadFailed { thread_id: 2, bin_index: 1, address: head },
            Problem::ThreadTlsResolutionFailed { thread_id: 3 },
            Problem::ThreadTlsResolutionFailed { thread_id: 4 },
        ] if chunk == "0x9000" && head == "0x6088"
    ));
    assert_eq!(attached_threads(&arenas[0], &threads, &info.thread_arena_map), vec![1]);

    layout.tp_off_reloc_addr = None;
    let (info, problems) = resolve_tls(&Words(HashMap::new()), &layout, 0, &arenas, &threads);
    assert!(info.thread_arena_map.is_empty() && problems.is_empty());
}

#[test]
fn unreadable_fastbin_heads_are_skipped() {
    let mut layout = test_layout(8);
    layout.fastbin_count = 2;
    let arena = Arena {
        malloc_state_addr: 0x1000,
        index: 3,
    };
    let words = Words(HashMap::from([(0x1018, 0x2000), (0x2010, 0)]));
    let (bins, problems) = walk_arena_fastbins(&words, &layout, &arena);
    assert_eq!(bins.len(), 1);
    assert_eq!((bins[0].index, bins[0].size, bins[0].count), (1, 40, 1));
    assert!(matches!(
        problems.as_slice(),
        [Problem::FastbinChunkReadFailed { arena: 3, bin_index: 0, address }]
            if address == "0x1010"
    ));
}
