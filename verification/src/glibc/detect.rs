//! Detecting the layout of a libc.

use vstd::prelude::*;

use crate::arch::Arch;
use crate::elf::image::Relocation;
use crate::elf::Elf;
use crate::problem;
use crate::problem::Problem;

use super::dwarf;
use super::dwarf::scan;
use super::dwarf::scan::extract_layout;
use super::dwarf::sections;
use super::dwarf::{DwarfError, DwarfLayout, DwarfLayoutError, Outcome};
use super::heap_info;
use super::heap_info::HeapInfoOffsets;
use super::malloc_state::MallocStateOffsets;
use super::symbols;
use super::symbols::{scan_symbols, Symbols};
use super::tcache::TcacheOffsets;
use super::version;
use super::version::GlibcVersion;
use super::{DetectedLayout, GlibcCapabilities, LayoutSource, Offsets, SymbolInfo, VersionSource};

verus! {

/// Whether free lists are safe-linked in a version: glibc gained that in 2.32.
pub open spec fn safe_linking_in(v: GlibcVersion) -> bool {
    v.reaches(GlibcVersion { major: 2, minor: 32 })
}

/// What a libc can do. Of an unknown version safe-linking is assumed.
pub open spec fn capabilities_of(elf: Elf<'_>, has_tcache: bool) -> GlibcCapabilities {
    match version::newest(elf.tables@.versions) {
        Some(v) => GlibcCapabilities {
            has_tcache,
            has_safe_linking: safe_linking_in(v),
            version_source: VersionSource::Detected(v),
        },
        None => GlibcCapabilities {
            has_tcache,
            has_safe_linking: true,
            version_source: VersionSource::AssumedDefault,
        },
    }
}

/// Detect what a libc can do; an unknown version is a problem.
pub fn detect_capabilities(elf: &Elf<'_>, has_tcache: bool, problems: &mut Vec<Problem>) -> (r:
    GlibcCapabilities)
    ensures
        r == capabilities_of(*elf, has_tcache),
        problem::views(final(problems)@) == problem::views(old(problems)@) + if version::newest(
            elf.tables@.versions,
        ) is None {
            seq![problem::ProblemView::UnknownGlibcVersion]
        } else {
            Seq::empty()
        },
{
    match version::detect(elf) {
        Some(v) => GlibcCapabilities {
            has_tcache,
            has_safe_linking: v.is_at_least(GlibcVersion { major: 2, minor: 32 }),
            version_source: VersionSource::Detected(v),
        },
        None => {
            // Unknown version: assume safe-linking on. Applying the XOR to
            // already-plain pointers would corrupt them, but assuming it *off*
            // on a new glibc corrupts every read: the safer default is on.
            let ghost before = problems@;
            problems.push(Problem::UnknownGlibcVersion);
            proof {
                problem::lemma_views_push(before, Problem::UnknownGlibcVersion);
            }
            GlibcCapabilities {
                has_tcache,
                has_safe_linking: true,
                version_source: VersionSource::AssumedDefault,
            }
        },
    }
}

/// The offset of the first zero-addend relocation of a type, from index `i` on.
pub open spec fn reloc_from(relocations: Seq<Relocation>, want: u32, i: int) -> Option<u64>
    decreases relocations.len() - i,
{
    if i < 0 || i >= relocations.len() {
        None
    } else if relocations[i].r_type == want && (relocations[i].r_addend is None
        || relocations[i].r_addend == Some(0i64)) {
        Some(relocations[i].r_offset)
    } else {
        reloc_from(relocations, want, i + 1)
    }
}

/// The address the TLS block offset lives at.
pub open spec fn tp_off_reloc_of<A: Arch + ?Sized>(elf: Elf<'_>, arch: &A) -> Option<u64> {
    reloc_from(elf.tables.relocations@, arch.tp_off_reloc(), 0)
}

/// The address the TLS block offset lives at: `r_offset` of the first
/// zero-addend TP-offset relocation.
pub fn find_tp_off_reloc<A: Arch + ?Sized>(elf: &Elf<'_>, arch: &A) -> (r: Option<u64>)
    ensures
        r == tp_off_reloc_of(*elf, arch),
{
    let want: u32 = arch.tp_off_reloc_type();
    let relocations: &Vec<Relocation> = &elf.inner().relocations;
    let mut i: usize = 0;
    while i < relocations.len()
        invariant
            i <= relocations@.len(),
            relocations@ == elf.tables.relocations@,
            want == arch.tp_off_reloc(),
            reloc_from(relocations@, want, i as int) == reloc_from(relocations@, want, 0),
        decreases relocations@.len() - i,
    {
        let r: Relocation = relocations[i];
        let addend: i64 = match r.r_addend {
            Some(addend) => addend,
            None => 0,
        };
        if r.r_type == want && addend == 0 {
            return Some(r.r_offset);
        }
        i = i + 1;
    }
    None
}

impl Offsets {
    /// With the offsets that DWARF gives. An optional one that is missing stays;
    /// those of the tcache go together.
    pub open spec fn with(self, dwarf: DwarfLayout) -> Offsets {
        let tcache = dwarf.tcache_entries_offset is Some && dwarf.tcache_max_bins is Some;
        Offsets {
            fastbin_array: dwarf.fastbin_array_offset,
            fastbin_count: dwarf.fastbin_count,
            malloc_state_top: dwarf.malloc_state_top_offset,
            malloc_state_next: dwarf.malloc_state_next_offset,
            mp_arena_max: match dwarf.mp_arena_max_offset {
                Some(offset) => offset,
                None => self.mp_arena_max,
            },
            mp_sbrk_base: dwarf.mp_sbrk_base_offset,
            mp_tcache_bins: match dwarf.mp_tcache_bins_offset {
                Some(offset) => offset,
                None => self.mp_tcache_bins,
            },
            heap_info_size: dwarf.heap_info_size,
            heap_info_ar_ptr: dwarf.heap_info_ar_ptr_offset,
            heap_info_prev: dwarf.heap_info_prev_offset,
            heap_info_heap_size: dwarf.heap_info_size_offset,
            heap_info_mprotect_size: dwarf.heap_info_mprotect_size_offset,
            tcache_max_bins: if tcache {
                dwarf.tcache_max_bins->0
            } else {
                self.tcache_max_bins
            },
            tcache_entries: if tcache {
                dwarf.tcache_entries_offset->0
            } else {
                self.tcache_entries
            },
        }
    }
}

/// A missing required symbol, where it is missing.
pub open spec fn missing(info: SymbolInfo, name: Seq<char>) -> Seq<problem::ProblemView> {
    if info.present {
        Seq::empty()
    } else {
        seq![problem::ProblemView::MissingSymbol { symbol: name }]
    }
}

/// The problems met before DWARF is read: those of the symbol tables, missing
/// symbols, a missing relocation, an unknown version.
pub open spec fn found_problems<A: Arch + ?Sized>(
    elf: Elf<'_>,
    debug: Option<&Elf<'_>>,
    arch: &A,
) -> Seq<problem::ProblemView> {
    let scan = symbols::symbols_of(elf, debug);
    scan.problems + missing(scan.symbols.main_arena, "main_arena"@) + missing(
        scan.symbols.mp,
        "mp_"@,
    ) + if tp_off_reloc_of(elf, arch) is None {
        seq![problem::ProblemView::MissingRelocation]
    } else {
        Seq::empty()
    } + if version::newest(elf.tables@.versions) is None {
        seq![problem::ProblemView::UnknownGlibcVersion]
    } else {
        Seq::empty()
    }
}

/// The word size of a file's target.
pub open spec fn word_size_of(elf: Elf<'_>) -> u32 {
    if elf.tables.is_64 {
        8
    } else {
        4
    }
}

/// What is known of a libc before DWARF is read: word size, built-in figures,
/// symbols, relocation and capabilities.
pub open spec fn read_without_dwarf<A: Arch + ?Sized>(
    layout: DetectedLayout,
    elf: Elf<'_>,
    debug: Option<&Elf<'_>>,
    arch: &A,
) -> bool {
    let symbols = symbols::symbols_of(elf, debug).symbols;
    let word_size = word_size_of(elf);
    &&& super::chunk_figures(layout, word_size)
    &&& layout.heap_max_size == heap_info::offsets(
        word_size,
        symbols.hugepage_config.present,
    ).heap_max_size
    &&& layout.mp == symbols.mp
    &&& layout.narenas == symbols.narenas
    &&& layout.narenas_limit == symbols.narenas_limit
    &&& layout.tcache == symbols.tcache
    &&& layout.tcache_key == symbols.tcache_key
    &&& layout.thread_arena == symbols.thread_arena
    &&& layout.tp_off_reloc_addr == tp_off_reloc_of(elf, arch)
    &&& layout.capabilities == capabilities_of(elf, symbols.tcache.present)
}

/// A list of problems with the fallback from broken DWARF behind it.
pub open spec fn fell_back(
    after: Seq<problem::ProblemView>,
    before: Seq<problem::ProblemView>,
    error: DwarfError,
) -> bool {
    &&& after.len() == before.len() + 1
    &&& after.drop_last() == before
    &&& after.last() is DwarfLayoutFallback
    &&& error.explained_by(after.last()->DwarfLayoutFallback_reason)
}

/// Whether `layout` is that of a libc of which DWARF gave `outcome`. The offsets
/// switch as one set: a failed extraction leaves the built-in ones untouched, and
/// is a problem unless there was no DWARF to expect.
pub open spec fn detected_is<A: Arch + ?Sized>(
    layout: DetectedLayout,
    elf: Elf<'_>,
    debug: Option<&Elf<'_>>,
    arch: &A,
    outcome: std::result::Result<DwarfLayout, DwarfError>,
) -> bool {
    let symbols = symbols::symbols_of(elf, debug).symbols;
    let builtin = super::builtin_offsets(word_size_of(elf), symbols.hugepage_config.present);
    let before = found_problems(elf, debug, arch);
    let after = problem::views(layout.problems@);
    &&& read_without_dwarf(layout, elf, debug, arch)
    &&& match outcome {
        Ok(dwarf) => {
            &&& layout.layout_source == LayoutSource::Dwarf
            &&& layout.offsets() == builtin.with(dwarf)
            &&& layout.main_arena == (SymbolInfo {
                size: dwarf.malloc_state_size as u64,
                ..symbols.main_arena
            })
            &&& after == before
        },
        Err(e) => {
            &&& layout.layout_source == LayoutSource::Builtin
            &&& layout.offsets() == builtin
            &&& layout.main_arena == symbols.main_arena
            &&& if e is Unavailable && debug is None {
                after == before
            } else {
                fell_back(after, before, e)
            }
        },
    }
}

/// The file whose DWARF is read.
pub open spec fn dwarf_file<'a>(elf: Elf<'a>, debug: Option<&Elf<'a>>) -> Elf<'a> {
    match debug {
        Some(debug) => *debug,
        None => elf,
    }
}

/// Whether `layout` is that of a libc and its debug file.
pub open spec fn detection_is<'a, A: Arch + ?Sized>(
    layout: DetectedLayout,
    elf: Elf<'a>,
    debug: Option<&Elf<'a>>,
    arch: &A,
) -> bool {
    let has_tcache = symbols::symbols_of(elf, debug).symbols.tcache.present;
    exists|outcome: std::result::Result<DwarfLayout, DwarfError>| #[trigger]
        scan::extraction_is(dwarf_file(elf, debug), has_tcache, outcome) && detected_is(
            layout,
            elf,
            debug,
            arch,
            outcome,
        )
}

fn push_missing(info: SymbolInfo, name: &str, problems: &mut Vec<Problem>)
    ensures
        problem::views(final(problems)@) == problem::views(old(problems)@) + missing(info, name@),
{
    if !info.present {
        let ghost before = problems@;
        let problem = Problem::MissingSymbol { symbol: name.to_owned() };
        problems.push(problem);
        proof {
            problem::lemma_views_push(before, problem);
        }
    }
}

impl DetectedLayout {
    /// Never fails: anything wrong (missing symbol, missing relocation, unknown
    /// version) is recorded in `problems`. Callers decide whether to abort by
    /// looking for a fatal problem: `check` still wants to report a stripped
    /// libc rather than error out.
    pub fn detect<A: Arch + ?Sized>(elf: &Elf<'_>, arch: &A) -> (layout: DetectedLayout)
        ensures
            detection_is(layout, *elf, None, arch),
            layout.wf(),
    {
        Self::detect_with_debug(elf, None, arch)
    }

    /// As [`Self::detect`], with a separate debug file for symbols and layout.
    pub fn detect_with_debug<'a, A: Arch + ?Sized>(
        elf: &Elf<'a>,
        debug: Option<&Elf<'a>>,
        arch: &A,
    ) -> (layout: DetectedLayout)
        ensures
            detection_is(layout, *elf, debug, arch),
            layout.wf(),
    {
        let mut layout = Self::without_dwarf(elf, debug, arch);
        // Required offsets switch as one set. A failed extraction leaves the
        // built-in layout untouched.
        let dwarf_elf: &Elf<'a> = match debug {
            Some(debug) => debug,
            None => elf,
        };
        let outcome = extract_layout(dwarf_elf, layout.capabilities.has_tcache);
        let ghost seen = dwarf::outcome(outcome);
        assert(scan::extraction_is(
            dwarf_file(*elf, debug),
            symbols::symbols_of(*elf, debug).symbols.tcache.present,
            seen,
        ));
        layout.adopt(outcome, debug.is_some());
        assert(detected_is(layout, *elf, debug, arch, seen));
        layout
    }

    /// The layout of a libc with the built-in offsets.
    fn without_dwarf<A: Arch + ?Sized>(elf: &Elf<'_>, debug: Option<&Elf<'_>>, arch: &A) -> (layout:
        DetectedLayout)
        ensures
            layout.wf(),
            read_without_dwarf(layout, *elf, debug, arch),
            layout.layout_source == LayoutSource::Builtin,
            layout.offsets() == super::builtin_offsets(
                word_size_of(*elf),
                symbols::symbols_of(*elf, debug).symbols.hugepage_config.present,
            ),
            layout.main_arena == symbols::symbols_of(*elf, debug).symbols.main_arena,
            problem::views(layout.problems@) == found_problems(*elf, debug, arch),
    {
        let word_size: u32 = if elf.is_64bit() {
            8
        } else {
            4
        };
        let (symbols, mut problems): (Symbols, Vec<Problem>) = scan_symbols(elf, debug);
        push_missing(symbols.main_arena, "main_arena", &mut problems);
        push_missing(symbols.mp, "mp_", &mut problems);

        let has_hugepage: bool = symbols.hugepage_config.present;
        let ms = MallocStateOffsets::new(word_size);
        let hi = HeapInfoOffsets::new(word_size, has_hugepage);
        let tc = TcacheOffsets::new();

        // mp_ (malloc_par) offsets. sbrk_base shifts when the THP fields are
        // compiled in; tcache_bins immediately follows it.
        let mp_sbrk_base_offset: u32 = if word_size == 8 {
            if has_hugepage {
                96
            } else {
                72
            }
        } else if has_hugepage {
            44
        } else {
            56
        };

        let tp_off_reloc_addr: Option<u64> = find_tp_off_reloc(elf, arch);
        if tp_off_reloc_addr.is_none() {
            let ghost before = problems@;
            problems.push(Problem::MissingRelocation);
            proof {
                problem::lemma_views_push(before, Problem::MissingRelocation);
            }
        }
        let capabilities = detect_capabilities(elf, symbols.tcache.present, &mut problems);
        DetectedLayout {
            layout_source: LayoutSource::Builtin,
            word_size,
            header_size: word_size,
            minsize: if word_size == 8 {
                32
            } else {
                16
            },
            malloc_alignment: if word_size == 8 {
                16
            } else {
                8
            },
            fastbin_array_offset: ms.fastbin_array,
            fastbin_count: ms.fastbin_count,
            malloc_state_top_offset: ms.top,
            malloc_state_next_offset: ms.next,
            mp_arena_max_offset: 4 * word_size,
            mp_sbrk_base_offset,
            mp_tcache_bins_offset: mp_sbrk_base_offset + word_size,
            heap_info_size: hi.sizeof,
            heap_info_ar_ptr_offset: hi.ar_ptr,
            heap_info_prev_offset: hi.prev,
            heap_info_size_offset: hi.size,
            heap_info_mprotect_size_offset: hi.mprotect_size,
            heap_max_size: hi.heap_max_size,
            tcache_max_bins: tc.max_bins,
            tcache_entries_offset: tc.entries,
            main_arena: symbols.main_arena,
            mp: symbols.mp,
            narenas: symbols.narenas,
            narenas_limit: symbols.narenas_limit,
            tcache: symbols.tcache,
            tcache_key: symbols.tcache_key,
            thread_arena: symbols.thread_arena,
            tp_off_reloc_addr,
            capabilities,
            problems,
        }
    }

    /// Take over what DWARF gave, or note that it gave nothing usable.
    pub fn adopt(&mut self, outcome: Outcome<DwarfLayout>, has_debug: bool)
        ensures
            match dwarf::outcome(outcome) {
                Ok(dwarf) => *final(self) == with_dwarf(*old(self), dwarf),
                Err(e) => {
                    &&& *final(self) == (DetectedLayout {
                        problems: final(self).problems,
                        ..*old(self)
                    })
                    &&& if e is Unavailable && !has_debug {
                        final(self).problems == old(self).problems
                    } else {
                        fell_back(
                            problem::views(final(self).problems@),
                            problem::views(old(self).problems@),
                            e,
                        )
                    }
                },
            },
    {
        match outcome {
            Ok(dwarf) => self.apply_dwarf(dwarf),
            Err(error) => {
                if let DwarfLayoutError::Unavailable = error {
                    if !has_debug {
                        return;
                    }
                }
                let ghost before = self.problems@;
                let problem = Problem::DwarfLayoutFallback { reason: error.message() };
                self.problems.push(problem);
                proof {
                    problem::lemma_views_push(before, problem);
                    assert(problem::views(self.problems@).drop_last() =~= problem::views(before));
                }
            },
        }
    }

    /// Replace the built-in offsets by those of DWARF.
    pub fn apply_dwarf(&mut self, layout: DwarfLayout)
        ensures
            *final(self) == with_dwarf(*old(self), layout),
    {
        self.layout_source = LayoutSource::Dwarf;
        self.main_arena.size = layout.malloc_state_size as u64;
        self.fastbin_array_offset = layout.fastbin_array_offset;
        self.fastbin_count = layout.fastbin_count;
        self.malloc_state_top_offset = layout.malloc_state_top_offset;
        self.malloc_state_next_offset = layout.malloc_state_next_offset;
        self.mp_sbrk_base_offset = layout.mp_sbrk_base_offset;
        if let Some(offset) = layout.mp_arena_max_offset {
            self.mp_arena_max_offset = offset;
        }
        if let Some(offset) = layout.mp_tcache_bins_offset {
            self.mp_tcache_bins_offset = offset;
        }
        self.heap_info_size = layout.heap_info_size;
        self.heap_info_ar_ptr_offset = layout.heap_info_ar_ptr_offset;
        self.heap_info_prev_offset = layout.heap_info_prev_offset;
        self.heap_info_size_offset = layout.heap_info_size_offset;
        self.heap_info_mprotect_size_offset = layout.heap_info_mprotect_size_offset;
        if let (Some(entries), Some(bins)) = (layout.tcache_entries_offset, layout.tcache_max_bins) {
            self.tcache_entries_offset = entries;
            self.tcache_max_bins = bins;
        }
    }
}

/// A layout with the offsets that DWARF gives.
pub open spec fn with_dwarf(layout: DetectedLayout, dwarf: DwarfLayout) -> DetectedLayout {
    let offsets = layout.offsets().with(dwarf);
    DetectedLayout {
        layout_source: LayoutSource::Dwarf,
        main_arena: SymbolInfo { size: dwarf.malloc_state_size as u64, ..layout.main_arena },
        fastbin_array_offset: offsets.fastbin_array,
        fastbin_count: offsets.fastbin_count,
        malloc_state_top_offset: offsets.malloc_state_top,
        malloc_state_next_offset: offsets.malloc_state_next,
        mp_arena_max_offset: offsets.mp_arena_max,
        mp_sbrk_base_offset: offsets.mp_sbrk_base,
        mp_tcache_bins_offset: offsets.mp_tcache_bins,
        heap_info_size: offsets.heap_info_size,
        heap_info_ar_ptr_offset: offsets.heap_info_ar_ptr,
        heap_info_prev_offset: offsets.heap_info_prev,
        heap_info_size_offset: offsets.heap_info_heap_size,
        heap_info_mprotect_size_offset: offsets.heap_info_mprotect_size,
        tcache_max_bins: offsets.tcache_max_bins,
        tcache_entries_offset: offsets.tcache_entries,
        ..layout
    }
}

/// The offsets switch as one set: a detected layout that is not called DWARF's
/// has every built-in offset, one that is has those of a layout that DWARF gave.
pub proof fn law_offsets_switch_as_one_set<'a, A: Arch + ?Sized>(
    layout: DetectedLayout,
    elf: Elf<'a>,
    debug: Option<&Elf<'a>>,
    arch: &A,
)
    requires
        detection_is(layout, elf, debug, arch),
    ensures
        ({
            let symbols = symbols::symbols_of(elf, debug).symbols;
            let builtin = super::builtin_offsets(
                word_size_of(elf),
                symbols.hugepage_config.present,
            );
            let given = scan::layout_from(
                dwarf_file(elf, debug),
                symbols.tcache.present,
                DwarfError::Parse,
            );
            match layout.layout_source {
                LayoutSource::Builtin => layout.offsets() == builtin,
                LayoutSource::Dwarf => given is Ok && layout.offsets() == builtin.with(given->Ok_0),
            }
        }),
{
    let file = dwarf_file(elf, debug);
    let tables = file.tables@.sections;
    let is_64 = file.tables.is_64;
    if sections::loaded_of(file, sections::size_differs()) is Ok {
        sections::law_loaded_sections_are_complete(
            tables,
            file.data@,
            is_64,
            sections::size_differs(),
            DwarfError::Parse,
        );
    }
}

/// A list of problems has a fatal one.
pub open spec fn any_fatal(problems: Seq<problem::ProblemView>) -> bool {
    exists|i: int| 0 <= i < problems.len() && (#[trigger] problems[i]).fatal()
}

/// Reading a symbol table meets no fatal problem.
proof fn lemma_symbols_are_never_fatal(
    table: Seq<crate::elf::image::SymbolView>,
    i: int,
    scan: symbols::SymbolScan,
)
    requires
        !any_fatal(scan.problems),
    ensures
        !any_fatal(symbols::filled_from(table, i, scan).problems),
    decreases table.len() - i,
{
    if 0 <= i < table.len() {
        let next = scan.with(table[i]);
        assert forall|k: int| 0 <= k < next.problems.len() implies !(
        #[trigger] next.problems[k]).fatal() by {
            if k < scan.problems.len() {
                assert(next.problems[k] == scan.problems[k]);
            }
        }
        lemma_symbols_are_never_fatal(table, i + 1, next);
    }
}

/// A libc is unusable exactly where a required symbol is missing: of a detected
/// layout, some problem is fatal if and only if `main_arena` or `mp_` was not
/// found. No other gap, and no trouble with DWARF, makes it so.
pub proof fn law_fatal_iff_required_symbol_missing<'a, A: Arch + ?Sized>(
    layout: DetectedLayout,
    elf: Elf<'a>,
    debug: Option<&Elf<'a>>,
    arch: &A,
)
    requires
        detection_is(layout, elf, debug, arch),
    ensures
        any_fatal(problem::views(layout.problems@)) <==> !layout.main_arena.present
            || !layout.mp.present,
{
    let before = found_problems(elf, debug, arch);
    let after = problem::views(layout.problems@);
    let start = symbols::SymbolScan { symbols: Symbols::none(), problems: Seq::empty() };
    lemma_symbols_are_never_fatal(elf.tables@.symbols, 0, start);
    let own = symbols::filled_from(elf.tables@.symbols, 0, start);
    match debug {
        Some(debug) => {
            lemma_symbols_are_never_fatal(debug.tables@.symbols, 0, own);
        },
        None => {},
    }
    let scan = symbols::symbols_of(elf, debug);
    let n = scan.problems.len() as int;
    assert(before.take(n) =~= scan.problems);
    if !layout.main_arena.present {
        assert(before[n].fatal());
        assert(after[n] == before[n]);
    }
    if !layout.mp.present {
        let k = n + missing(scan.symbols.main_arena, "main_arena"@).len();
        assert(before[k].fatal());
        assert(after[k] == before[k]);
    }
    if layout.main_arena.present && layout.mp.present {
        assert forall|k: int| 0 <= k < after.len() implies !(#[trigger] after[k]).fatal() by {
            if k < before.len() {
                assert(after[k] == before[k]);
                if k < n {
                    assert(before[k] == scan.problems[k]);
                }
            }
        }
    }
}

} // verus!
