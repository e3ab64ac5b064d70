//! What a detected layout takes from the libc, its debug file and DWARF.

use vstd::prelude::*;

use crate::arch::Arch;
use crate::elf::image::{Relocation, SymbolView};
use crate::elf::Elf;
use crate::problem;
use crate::problem::ProblemView;
use crate::text;

use super::detect;
use super::dwarf::scan;
use super::dwarf::sections;
use super::dwarf::{DwarfError, DwarfLayout};
use super::symbols;
use super::symbols::{Slot, SymbolScan, Symbols};
use super::version;
use super::version::GlibcVersion;
use super::{DetectedLayout, LayoutSource, SymbolInfo, VersionSource};

verus! {

/// Each required offset of a layout is the one that DWARF gives for the member of the
/// same name.
pub open spec fn has_required_of(layout: DetectedLayout, d: DwarfLayout) -> bool {
    &&& layout.fastbin_array_offset == d.fastbin_array_offset
    &&& layout.fastbin_count == d.fastbin_count
    &&& layout.malloc_state_top_offset == d.malloc_state_top_offset
    &&& layout.malloc_state_next_offset == d.malloc_state_next_offset
    &&& layout.mp_sbrk_base_offset == d.mp_sbrk_base_offset
    &&& layout.heap_info_size == d.heap_info_size
    &&& layout.heap_info_ar_ptr_offset == d.heap_info_ar_ptr_offset
    &&& layout.heap_info_prev_offset == d.heap_info_prev_offset
    &&& layout.heap_info_size_offset == d.heap_info_size_offset
    &&& layout.heap_info_mprotect_size_offset == d.heap_info_mprotect_size_offset
    &&& layout.main_arena.size == d.malloc_state_size
}

/// What DWARF gives is taken over name by name: each required offset is that of the
/// member of the same name, an optional one too where there is one, and the two of the
/// tcache go together. Everything else stays as it was.
pub proof fn law_dwarf_offsets_keep_their_names(before: DetectedLayout, d: DwarfLayout)
    ensures
        ({
            let after = detect::with_dwarf(before, d);
            &&& after.fastbin_array_offset == d.fastbin_array_offset
            &&& after.fastbin_count == d.fastbin_count
            &&& after.malloc_state_top_offset == d.malloc_state_top_offset
            &&& after.malloc_state_next_offset == d.malloc_state_next_offset
            &&& after.mp_sbrk_base_offset == d.mp_sbrk_base_offset
            &&& after.heap_info_size == d.heap_info_size
            &&& after.heap_info_ar_ptr_offset == d.heap_info_ar_ptr_offset
            &&& after.heap_info_prev_offset == d.heap_info_prev_offset
            &&& after.heap_info_size_offset == d.heap_info_size_offset
            &&& after.heap_info_mprotect_size_offset == d.heap_info_mprotect_size_offset
            &&& d.mp_arena_max_offset matches Some(offset) ==> after.mp_arena_max_offset == offset
            &&& d.mp_arena_max_offset is None ==> after.mp_arena_max_offset
                == before.mp_arena_max_offset
            &&& d.mp_tcache_bins_offset matches Some(offset) ==> after.mp_tcache_bins_offset
                == offset
            &&& d.mp_tcache_bins_offset is None ==> after.mp_tcache_bins_offset
                == before.mp_tcache_bins_offset
            &&& d.tcache_entries_offset is Some && d.tcache_max_bins is Some ==> {
                &&& after.tcache_entries_offset == d.tcache_entries_offset->0
                &&& after.tcache_max_bins == d.tcache_max_bins->0
            }
            &&& d.tcache_entries_offset is None || d.tcache_max_bins is None ==> {
                &&& after.tcache_entries_offset == before.tcache_entries_offset
                &&& after.tcache_max_bins == before.tcache_max_bins
            }
            &&& after.layout_source == LayoutSource::Dwarf
            &&& after.main_arena.size == d.malloc_state_size
            &&& after.main_arena.value == before.main_arena.value
            &&& after.main_arena.present == before.main_arena.present
            &&& after.word_size == before.word_size
            &&& after.header_size == before.header_size
            &&& after.minsize == before.minsize
            &&& after.malloc_alignment == before.malloc_alignment
            &&& after.heap_max_size == before.heap_max_size
            &&& after.mp == before.mp
            &&& after.narenas == before.narenas
            &&& after.narenas_limit == before.narenas_limit
            &&& after.tcache == before.tcache
            &&& after.tcache_key == before.tcache_key
            &&& after.thread_arena == before.thread_arena
            &&& after.tp_off_reloc_addr == before.tp_off_reloc_addr
            &&& after.capabilities == before.capabilities
            &&& after.problems == before.problems
        }),
{
}

/// The offsets that are built in are those of structures of words: the fastbins of a
/// `malloc_state` end where `top` is, behind `top` come 255 more words and 16 bytes up
/// to `next`; the four words of a `_heap_info` follow one another; the counts of a
/// tcache take two bytes each and its entries stand behind them.
pub open spec fn has_builtin_offsets(layout: DetectedLayout, huge_pages: bool) -> bool {
    let word = layout.word_size;
    &&& layout.fastbin_array_offset == if word == 8 {
        16int
    } else {
        12
    }
    &&& layout.fastbin_count == if word == 8 {
        10int
    } else {
        11
    }
    &&& layout.malloc_state_top_offset == layout.fastbin_array_offset + layout.fastbin_count * word
    &&& layout.malloc_state_next_offset == layout.malloc_state_top_offset + 256 * word + 16
    &&& layout.mp_arena_max_offset == 4 * word
    &&& layout.mp_sbrk_base_offset == if word == 8 {
        if huge_pages {
            96int
        } else {
            72
        }
    } else {
        if huge_pages {
            44
        } else {
            56
        }
    }
    &&& layout.mp_tcache_bins_offset == layout.mp_sbrk_base_offset + word
    &&& layout.heap_info_ar_ptr_offset == 0
    &&& layout.heap_info_prev_offset == word
    &&& layout.heap_info_size_offset == 2 * word
    &&& layout.heap_info_mprotect_size_offset == 3 * word
    &&& layout.heap_info_size % layout.malloc_alignment == 0
    &&& (if huge_pages {
        5int
    } else {
        4
    }) * word <= layout.heap_info_size < (if huge_pages {
        5int
    } else {
        4
    }) * word + layout.malloc_alignment
    &&& layout.tcache_max_bins == 64
    &&& layout.tcache_entries_offset == 2 * layout.tcache_max_bins
}

/// A detected layout has either every offset that is built in or, name by name, those
/// of a layout that the DWARF of the libc or its debug file gives; which one it says.
/// Where the libc's own word is eight bytes, so are those of the layout.
pub proof fn law_detected_offsets<'a, A: Arch + ?Sized>(
    layout: DetectedLayout,
    elf: Elf<'a>,
    debug: Option<&Elf<'a>>,
    arch: &A,
)
    requires
        detect::detection_is(layout, elf, debug, arch),
    ensures
        ({
            let file = if debug is Some {
                *debug->0
            } else {
                elf
            };
            let found = symbols::symbols_of(elf, debug).symbols;
            let given = scan::layout_from(file, found.tcache.present, DwarfError::Parse);
            &&& layout.word_size == if elf.tables.is_64 {
                8int
            } else {
                4
            }
            &&& layout.header_size == layout.word_size
            &&& layout.malloc_alignment == 2 * layout.word_size
            &&& layout.minsize == 4 * layout.word_size
            &&& layout.heap_max_size == if elf.tables.is_64 {
                0x400_0000int
            } else {
                0x10_0000
            }
            &&& match layout.layout_source {
                LayoutSource::Builtin => has_builtin_offsets(layout, found.hugepage_config.present)
                    && layout.main_arena.size == found.main_arena.size,
                LayoutSource::Dwarf => {
                    &&& given is Ok
                    &&& has_required_of(layout, given->Ok_0)
                    &&& given->Ok_0.mp_arena_max_offset is Some ==> layout.mp_arena_max_offset
                        == given->Ok_0.mp_arena_max_offset->0
                    &&& given->Ok_0.mp_tcache_bins_offset is Some ==> layout.mp_tcache_bins_offset
                        == given->Ok_0.mp_tcache_bins_offset->0
                    &&& given->Ok_0.tcache_entries_offset is Some
                        && given->Ok_0.tcache_max_bins is Some ==> layout.tcache_entries_offset
                        == given->Ok_0.tcache_entries_offset->0 && layout.tcache_max_bins
                        == given->Ok_0.tcache_max_bins->0
                    &&& given->Ok_0.mp_arena_max_offset is None ==> layout.mp_arena_max_offset == 4
                        * layout.word_size
                    &&& given->Ok_0.tcache_entries_offset is None
                        || given->Ok_0.tcache_max_bins is None ==> layout.tcache_entries_offset
                        == 128 && layout.tcache_max_bins == 64
                },
            }
            &&& layout.main_arena.present == found.main_arena.present
            &&& layout.main_arena.value == found.main_arena.value
            &&& layout.mp == found.mp
            &&& layout.narenas == found.narenas
            &&& layout.narenas_limit == found.narenas_limit
            &&& layout.tcache == found.tcache
            &&& layout.tcache_key == found.tcache_key
            &&& layout.thread_arena == found.thread_arena
            &&& layout.capabilities.has_tcache == found.tcache.present
        }),
{
    detect::law_offsets_switch_as_one_set(layout, elf, debug, arch);
    let file = detect::dwarf_file(elf, debug);
    if sections::loaded_of(file, sections::size_differs()) is Ok {
        sections::law_loaded_sections_are_complete(
            file.tables@.sections,
            file.data@,
            file.tables.is_64,
            sections::size_differs(),
            DwarfError::Parse,
        );
    }
}

/// A file whose DWARF gives a layout has it taken: where no memory is needed for a
/// compressed section, the layout is DWARF's exactly where DWARF gives one.
pub proof fn law_usable_dwarf_is_used<'a, A: Arch + ?Sized>(
    layout: DetectedLayout,
    elf: Elf<'a>,
    debug: Option<&Elf<'a>>,
    arch: &A,
)
    requires
        detect::detection_is(layout, elf, debug, arch),
        !sections::inflates(
            if debug is Some {
                *debug->0
            } else {
                elf
            },
        ),
    ensures
        layout.layout_source == LayoutSource::Dwarf <==> scan::layout_from(
            if debug is Some {
                *debug->0
            } else {
                elf
            },
            symbols::symbols_of(elf, debug).symbols.tcache.present,
            DwarfError::Parse,
        ) is Ok,
{
    let file = detect::dwarf_file(elf, debug);
    sections::lemma_no_stream_no_failure(file, DwarfError::Parse, sections::size_differs());
}

/// A table entry defines a symbol of a wanted name.
pub open spec fn names(symbol: SymbolView, wanted: spec_fn(Seq<char>) -> bool) -> bool {
    symbol.shndx != 0 && symbol.name is Some && wanted(symbol.name->0)
}

/// What is known of a symbol is its first definition in a table.
pub open spec fn is_first_definition(
    table: Seq<SymbolView>,
    wanted: spec_fn(Seq<char>) -> bool,
    info: SymbolInfo,
) -> bool {
    if exists|k: int| 0 <= k < table.len() && names(#[trigger] table[k], wanted) {
        exists|k: int|
            {
                &&& 0 <= k < table.len()
                &&& names(#[trigger] table[k], wanted)
                &&& info.present
                &&& info.value == table[k].value
                &&& info.size == table[k].size
                &&& forall|j: int| 0 <= j < k ==> !names(#[trigger] table[j], wanted)
            }
    } else {
        !info.present && info.value == 0 && info.size == 0
    }
}

/// The symbols of the runtime file, then those of the debug file.
pub open spec fn both_tables(elf: Elf<'_>, debug: Option<&Elf<'_>>) -> Seq<SymbolView> {
    match debug {
        None => elf.tables@.symbols,
        Some(debug) => elf.tables@.symbols + debug.tables@.symbols,
    }
}

proof fn lemma_filled_in_parts(
    a: Seq<SymbolView>,
    b: Seq<SymbolView>,
    i: int,
    scan: SymbolScan,
)
    requires
        0 <= i <= a.len(),
    ensures
        symbols::filled_from(a + b, i, scan) == symbols::filled_from(
            b,
            0,
            symbols::filled_from(a, i, scan),
        ),
    decreases a.len() - i,
{
    if i < a.len() {
        lemma_filled_in_parts(a, b, i + 1, scan.with(a[i]));
    } else {
        lemma_filled_behind(a, b, 0, scan);
    }
}

proof fn lemma_filled_behind(a: Seq<SymbolView>, b: Seq<SymbolView>, i: int, scan: SymbolScan)
    requires
        0 <= i <= b.len(),
    ensures
        symbols::filled_from(a + b, a.len() + i, scan) == symbols::filled_from(b, i, scan),
    decreases b.len() - i,
{
    if i < b.len() {
        assert((a + b)[a.len() + i] == b[i]);
        lemma_filled_behind(a, b, i + 1, scan.with(b[i]));
    }
}

proof fn lemma_first_found(
    table: Seq<SymbolView>,
    i: int,
    scan: SymbolScan,
    slot: Slot,
)
    requires
        0 <= i <= table.len(),
        !scan.symbols.at(slot).present,
    ensures
        ({
            let info = symbols::filled_from(table, i, scan).symbols.at(slot);
            if exists|k: int|
                i <= k < table.len() && symbols::defines(#[trigger] table[k]) == Some(slot) {
                exists|k: int|
                    {
                        &&& i <= k < table.len()
                        &&& symbols::defines(#[trigger] table[k]) == Some(slot)
                        &&& info == (SymbolInfo {
                            present: true,
                            value: table[k].value,
                            size: table[k].size,
                        })
                        &&& forall|j: int|
                            i <= j < k ==> symbols::defines(#[trigger] table[j]) != Some(slot)
                    }
            } else {
                info == scan.symbols.at(slot)
            }
        }),
    decreases table.len() - i,
{
    if i < table.len() {
        let next = scan.with(table[i]);
        if symbols::defines(table[i]) == Some(slot) {
            symbols::law_first_definition_wins(table, i + 1, next, slot);
            let info = symbols::filled_from(table, i, scan).symbols.at(slot);
            assert(symbols::defines(table[i]) == Some(slot));
            assert(info == next.symbols.at(slot));
        } else {
            assert(next.symbols.at(slot) == scan.symbols.at(slot));
            lemma_first_found(table, i + 1, next, slot);
            let info = symbols::filled_from(table, i, scan).symbols.at(slot);
            if exists|k: int|
                i + 1 <= k < table.len() && symbols::defines(#[trigger] table[k]) == Some(slot) {
                let k = choose|k: int|
                    {
                        &&& i + 1 <= k < table.len()
                        &&& symbols::defines(#[trigger] table[k]) == Some(slot)
                        &&& info == (SymbolInfo {
                            present: true,
                            value: table[k].value,
                            size: table[k].size,
                        })
                        &&& forall|j: int|
                            i + 1 <= j < k ==> symbols::defines(#[trigger] table[j]) != Some(slot)
                    };
                assert(symbols::defines(table[k]) == Some(slot));
            }
        }
    }
}

proof fn lemma_slot_is_first(
    elf: Elf<'_>,
    debug: Option<&Elf<'_>>,
    slot: Slot,
    wanted: spec_fn(Seq<char>) -> bool,
)
    requires
        forall|name: Seq<char>| #[trigger] wanted(name) <==> symbols::slot_of(name) == Some(slot),
    ensures
        is_first_definition(
            both_tables(elf, debug),
            wanted,
            symbols::symbols_of(elf, debug).symbols.at(slot),
        ),
{
    let none = SymbolScan { symbols: Symbols::none(), problems: Seq::empty() };
    let table = both_tables(elf, debug);
    if let Some(debug) = debug {
        lemma_filled_in_parts(elf.tables@.symbols, debug.tables@.symbols, 0, none);
    }
    lemma_first_found(table, 0, none, slot);
    let info = symbols::symbols_of(elf, debug).symbols.at(slot);
    assert(info == symbols::filled_from(table, 0, none).symbols.at(slot));
    assert forall|k: int| 0 <= k < table.len() implies (names(#[trigger] table[k], wanted)
        <==> symbols::defines(table[k]) == Some(slot)) by {
        if table[k].name is Some {
            assert(wanted(table[k].name->0) <==> symbols::slot_of(table[k].name->0) == Some(slot));
        }
    }
    if exists|k: int| 0 <= k < table.len() && symbols::defines(#[trigger] table[k]) == Some(slot) {
        let k = choose|k: int|
            {
                &&& 0 <= k < table.len()
                &&& symbols::defines(#[trigger] table[k]) == Some(slot)
                &&& info == (SymbolInfo {
                    present: true,
                    value: table[k].value,
                    size: table[k].size,
                })
                &&& forall|j: int|
                    0 <= j < k ==> symbols::defines(#[trigger] table[j]) != Some(slot)
            };
        assert(names(table[k], wanted));
        assert forall|j: int| 0 <= j < k implies !names(#[trigger] table[j], wanted) by {
            assert(symbols::defines(table[j]) != Some(slot));
        }
    } else {
        assert forall|k: int| 0 <= k < table.len() implies !names(#[trigger] table[k], wanted) by {
            assert(symbols::defines(table[k]) != Some(slot));
        }
    }
}

/// The symbols are found by their names: each is the first definition of its name in
/// the runtime file or, where that has none, in the debug file. The tcache variable has
/// two names, and what starts with `narenas_limit` is that symbol.
pub proof fn law_symbols_are_found_by_name(elf: Elf<'_>, debug: Option<&Elf<'_>>)
    ensures
        ({
            let found = symbols::symbols_of(elf, debug).symbols;
            let table = both_tables(elf, debug);
            &&& is_first_definition(
                table,
                |name: Seq<char>| name == "main_arena"@,
                found.main_arena,
            )
            &&& is_first_definition(table, |name: Seq<char>| name == "mp_"@, found.mp)
            &&& is_first_definition(table, |name: Seq<char>| name == "narenas"@, found.narenas)
            &&& is_first_definition(
                table,
                |name: Seq<char>| text::starts_with(name, "narenas_limit"@),
                found.narenas_limit,
            )
            &&& is_first_definition(
                table,
                |name: Seq<char>| name == "tcache"@ || name == "__tcache"@,
                found.tcache,
            )
            &&& is_first_definition(
                table,
                |name: Seq<char>| name == "tcache_key"@,
                found.tcache_key,
            )
            &&& is_first_definition(
                table,
                |name: Seq<char>| name == "thread_arena"@,
                found.thread_arena,
            )
            &&& is_first_definition(
                table,
                |name: Seq<char>| name == "__malloc_hugepage_config"@,
                found.hugepage_config,
            )
        }),
{
    lemma_names_differ();
    let found = symbols::symbols_of(elf, debug).symbols;
    lemma_slot_is_first(elf, debug, Slot::MainArena, |name: Seq<char>| name == "main_arena"@);
    lemma_slot_is_first(elf, debug, Slot::Mp, |name: Seq<char>| name == "mp_"@);
    lemma_slot_is_first(elf, debug, Slot::Narenas, |name: Seq<char>| name == "narenas"@);
    lemma_slot_is_first(
        elf,
        debug,
        Slot::NarenasLimit,
        |name: Seq<char>| text::starts_with(name, "narenas_limit"@),
    );
    lemma_slot_is_first(
        elf,
        debug,
        Slot::Tcache,
        |name: Seq<char>| name == "tcache"@ || name == "__tcache"@,
    );
    lemma_slot_is_first(elf, debug, Slot::TcacheKey, |name: Seq<char>| name == "tcache_key"@);
    lemma_slot_is_first(elf, debug, Slot::ThreadArena, |name: Seq<char>| name == "thread_arena"@);
    lemma_slot_is_first(
        elf,
        debug,
        Slot::HugepageConfig,
        |name: Seq<char>| name == "__malloc_hugepage_config"@,
    );
}

proof fn lemma_names_differ()
    ensures
        "main_arena"@ != "mp_"@,
        "main_arena"@ != "narenas"@,
        "main_arena"@ != "tcache"@,
        "main_arena"@ != "__tcache"@,
        "main_arena"@ != "tcache_key"@,
        "main_arena"@ != "thread_arena"@,
        "main_arena"@ != "__malloc_hugepage_config"@,
        "mp_"@ != "narenas"@,
        "mp_"@ != "tcache"@,
        "mp_"@ != "__tcache"@,
        "mp_"@ != "tcache_key"@,
        "mp_"@ != "thread_arena"@,
        "mp_"@ != "__malloc_hugepage_config"@,
        "narenas"@ != "tcache"@,
        "narenas"@ != "__tcache"@,
        "narenas"@ != "tcache_key"@,
        "narenas"@ != "thread_arena"@,
        "narenas"@ != "__malloc_hugepage_config"@,
        "tcache"@ != "tcache_key"@,
        "tcache"@ != "thread_arena"@,
        "tcache"@ != "__malloc_hugepage_config"@,
        "__tcache"@ != "tcache_key"@,
        "__tcache"@ != "thread_arena"@,
        "__tcache"@ != "__malloc_hugepage_config"@,
        "tcache_key"@ != "thread_arena"@,
        "tcache_key"@ != "__malloc_hugepage_config"@,
        "thread_arena"@ != "__malloc_hugepage_config"@,
        !text::starts_with("main_arena"@, "narenas_limit"@),
        !text::starts_with("mp_"@, "narenas_limit"@),
        !text::starts_with("narenas"@, "narenas_limit"@),
        !text::starts_with("tcache"@, "narenas_limit"@),
        !text::starts_with("__tcache"@, "narenas_limit"@),
        !text::starts_with("tcache_key"@, "narenas_limit"@),
        !text::starts_with("thread_arena"@, "narenas_limit"@),
        !text::starts_with("__malloc_hugepage_config"@, "narenas_limit"@),
{
    reveal_strlit("main_arena");
    reveal_strlit("mp_");
    reveal_strlit("narenas");
    reveal_strlit("tcache");
    reveal_strlit("__tcache");
    reveal_strlit("tcache_key");
    reveal_strlit("thread_arena");
    reveal_strlit("__malloc_hugepage_config");
    reveal_strlit("narenas_limit");
    assert("main_arena"@.len() == 10 && "mp_"@.len() == 3 && "narenas"@.len() == 7);
    assert("tcache"@.len() == 6 && "__tcache"@.len() == 8 && "tcache_key"@.len() == 10);
    assert("thread_arena"@.len() == 12 && "__malloc_hugepage_config"@.len() == 24);
    assert("narenas_limit"@.len() == 13);
    assert("main_arena"@[0] == 'm' && "tcache_key"@[0] == 't');
    assert("__malloc_hugepage_config"@[0] == '_');
    assert("__malloc_hugepage_config"@.take("narenas_limit"@.len() as int)[0] == '_');
    assert("narenas_limit"@[0] == 'n');
}

/// The TP-offset relocation is the first one of the architecture's type that adds
/// nothing; there is none exactly where no relocation is such.
pub proof fn law_relocation_is_the_first_of_its_type<'a, A: Arch + ?Sized>(
    layout: DetectedLayout,
    elf: Elf<'a>,
    debug: Option<&Elf<'a>>,
    arch: &A,
)
    requires
        detect::detection_is(layout, elf, debug, arch),
    ensures
        ({
            let table = elf.tables.relocations@;
            let fits = |r: Relocation|
                r.r_type == arch.tp_off_reloc() && (r.r_addend matches Some(addend) ==> addend
                    == 0);
            match layout.tp_off_reloc_addr {
                None => forall|k: int| 0 <= k < table.len() ==> !fits(#[trigger] table[k]),
                Some(addr) => exists|k: int|
                    {
                        &&& 0 <= k < table.len()
                        &&& fits(#[trigger] table[k])
                        &&& table[k].r_offset == addr
                        &&& forall|j: int| 0 <= j < k ==> !fits(#[trigger] table[j])
                    },
            }
        }),
{
    lemma_first_relocation(elf.tables.relocations@, arch.tp_off_reloc(), 0);
}

proof fn lemma_first_relocation(table: Seq<Relocation>, want: u32, i: int)
    requires
        0 <= i <= table.len(),
    ensures
        ({
            let fits = |r: Relocation|
                r.r_type == want && (r.r_addend matches Some(addend) ==> addend == 0);
            match detect::reloc_from(table, want, i) {
                None => forall|k: int| i <= k < table.len() ==> !fits(#[trigger] table[k]),
                Some(addr) => exists|k: int|
                    {
                        &&& i <= k < table.len()
                        &&& fits(#[trigger] table[k])
                        &&& table[k].r_offset == addr
                        &&& forall|j: int| i <= j < k ==> !fits(#[trigger] table[j])
                    },
            }
        }),
    decreases table.len() - i,
{
    let fits = |r: Relocation|
        r.r_type == want && (r.r_addend matches Some(addend) ==> addend == 0);
    if i < table.len() {
        if fits(table[i]) {
            assert(fits(table[i]));
        } else {
            lemma_first_relocation(table, want, i + 1);
            if let Some(addr) = detect::reloc_from(table, want, i + 1) {
                let k = choose|k: int|
                    {
                        &&& i + 1 <= k < table.len()
                        &&& fits(#[trigger] table[k])
                        &&& table[k].r_offset == addr
                        &&& forall|j: int| i + 1 <= j < k ==> !fits(#[trigger] table[j])
                    };
                assert(fits(table[k]));
            }
        }
    }
}

/// Some label of a library names a version.
pub open spec fn labelled(versions: Seq<Seq<Option<Seq<char>>>>, v: GlibcVersion) -> bool {
    exists|n: int, k: int|
        #![trigger versions[n][k]]
        0 <= n < versions.len() && 0 <= k < versions[n].len() && version::label_version(
            versions[n][k],
        ) == Some(v)
}

proof fn lemma_newest_label_named(
    best: Option<GlibcVersion>,
    labels: Seq<Option<Seq<char>>>,
    j: int,
)
    requires
        0 <= j <= labels.len(),
    ensures
        version::newest_label(best, labels, j) == best || (version::newest_label(best, labels, j)
            is Some && exists|k: int|
            j <= k < labels.len() && version::label_version(#[trigger] labels[k])
                == version::newest_label(best, labels, j)),
    decreases labels.len() - j,
{
    if j < labels.len() {
        let next = version::newer(best, labels[j]);
        lemma_newest_label_named(next, labels, j + 1);
        if next != best {
            assert(version::label_version(labels[j]) == next);
        }
    }
}

proof fn lemma_newest_from_named(
    best: Option<GlibcVersion>,
    versions: Seq<Seq<Option<Seq<char>>>>,
    i: int,
)
    requires
        0 <= i <= versions.len(),
    ensures
        version::newest_from(best, versions, i) == best || (version::newest_from(best, versions, i)
            is Some && labelled(versions, version::newest_from(best, versions, i)->0)),
    decreases versions.len() - i,
{
    if i < versions.len() {
        let next = version::newest_label(best, versions[i], 0);
        lemma_newest_label_named(best, versions[i], 0);
        lemma_newest_from_named(next, versions, i + 1);
        if next != best {
            let k = choose|k: int|
                0 <= k < versions[i].len() && version::label_version(
                    #[trigger] versions[i][k],
                ) == next;
            assert(version::label_version(versions[i][k]) == Some(next->0));
            assert(labelled(versions, next->0));
        }
    }
}

/// The version of a libc is the newest that any of its labels names. Free lists are
/// safe-linked from 2.32 on, and where no label names a version.
pub proof fn law_version_is_the_newest_label<'a, A: Arch + ?Sized>(
    layout: DetectedLayout,
    elf: Elf<'a>,
    debug: Option<&Elf<'a>>,
    arch: &A,
)
    requires
        detect::detection_is(layout, elf, debug, arch),
    ensures
        ({
            let versions = elf.tables@.versions;
            match layout.capabilities.version_source {
                VersionSource::Detected(v) => {
                    &&& labelled(versions, v)
                    &&& forall|w: GlibcVersion| #[trigger]
                        labelled(versions, w) ==> w.major < v.major || (w.major == v.major
                            && w.minor <= v.minor)
                    &&& layout.capabilities.has_safe_linking <==> v.major > 2 || (v.major == 2
                        && v.minor >= 32)
                },
                VersionSource::AssumedDefault => {
                    &&& forall|w: GlibcVersion| !#[trigger] labelled(versions, w)
                    &&& layout.capabilities.has_safe_linking
                },
            }
        }),
{
    let versions = elf.tables@.versions;
    lemma_newest_from_named(None, versions, 0);
    assert forall|w: GlibcVersion| #[trigger] labelled(versions, w) implies version::found_at_least(
        version::newest(versions),
        w,
    ) by {
        let (n, k) = choose|n: int, k: int|
            #![trigger versions[n][k]]
            0 <= n < versions.len() && 0 <= k < versions[n].len() && version::label_version(
                versions[n][k],
            ) == Some(w);
        version::law_newest_is_newest(versions, n, k);
    }
}

proof fn lemma_value_of_digits(n: nat)
    ensures
        text::all_digits(text::decimal(n)),
        text::decimal_value(text::decimal(n)) == n,
        text::decimal(n).len() > 0,
    decreases n,
{
    reveal_strlit("0123456789abcdef");
    let s = text::decimal(n);
    if n < 10 {
        assert(s =~= seq![text::digit(n)]);
        assert(s.drop_last() =~= Seq::empty());
        reveal_with_fuel(text::decimal_value, 2);
    } else {
        lemma_value_of_digits(n / 10);
        let before = text::decimal(n / 10);
        assert(s == before.push(text::digit(n % 10)));
        assert(s.drop_last() =~= before);
        assert forall|i: int| 0 <= i < s.len() implies '0' <= #[trigger] s[i] <= '9' by {
            if i < before.len() {
                assert(s[i] == before[i]);
            }
        }
    }
}

proof fn lemma_number_of_digits(s: Seq<char>, n: u32)
    requires
        text::all_digits(s),
        s.len() > 0,
        text::decimal_value(s) == n,
    ensures
        text::u32_of(s) == Some(n),
        forall|k: int| 0 <= k < s.len() ==> #[trigger] s[k] != '.',
{
    assert('0' <= s[0] <= '9');
}

proof fn lemma_spelled(a: Seq<char>, b: Seq<char>, v: GlibcVersion)
    requires
        text::u32_of(a) == Some(v.major),
        text::u32_of(b) == Some(v.minor),
        forall|k: int| 0 <= k < a.len() ==> #[trigger] a[k] != '.',
    ensures
        version::version_in("GLIBC_"@ + a + "."@ + b) == Some(v),
{
    reveal_strlit("GLIBC_");
    reveal_strlit(".");
    let label = "GLIBC_"@ + a + "."@ + b;
    let rest = label.skip(6);
    let n = a.len() as int;
    assert(rest =~= a + "."@ + b);
    assert(label.take(6) =~= "GLIBC_"@);
    assert(rest[n] == '.');
    assert forall|k: int| 0 <= k < n implies #[trigger] rest[k] != '.' by {
        assert(rest[k] == a[k]);
    }
    lemma_char_at(rest, '.', 0, n);
    assert(rest.take(n) =~= a);
    assert(rest.skip(n + 1) =~= b);
}

/// A label that spells a version in decimal, behind `GLIBC_` and with a dot, names that
/// version.
pub proof fn law_labels_spell_versions(major: u32, minor: u32)
    ensures
        version::version_in(
            "GLIBC_"@ + text::decimal(major as nat) + "."@ + text::decimal(minor as nat),
        ) == Some(GlibcVersion { major, minor }),
{
    let a = text::decimal(major as nat);
    let b = text::decimal(minor as nat);
    lemma_value_of_digits(major as nat);
    lemma_value_of_digits(minor as nat);
    lemma_number_of_digits(a, major);
    lemma_number_of_digits(b, minor);
    lemma_spelled(a, b, GlibcVersion { major, minor });
}

proof fn lemma_char_at(s: Seq<char>, c: char, i: int, at: int)
    requires
        0 <= i <= at < s.len(),
        s[at] == c,
        forall|k: int| i <= k < at ==> s[k] != c,
    ensures
        text::char_from(s, c, i) == at,
    decreases at - i,
{
    if i < at {
        lemma_char_at(s, c, i + 1, at);
    }
}

/// What a label names is spelled in it: `GLIBC_`, digits that make up the first number,
/// a dot, digits that make up the second.
pub proof fn law_versions_are_spelled(label: Seq<char>)
    requires
        version::version_in(label) is Some,
    ensures
        exists|a: Seq<char>, b: Seq<char>|
            {
                &&& label == #[trigger] ("GLIBC_"@ + a + "."@ + b)
                &&& text::u32_of(a) == Some(version::version_in(label)->0.major)
                &&& text::u32_of(b) == Some(version::version_in(label)->0.minor)
            },
{
    reveal_strlit("GLIBC_");
    reveal_strlit(".");
    let rest = label.skip(6);
    let dot = text::char_from(rest, '.', 0);
    lemma_char_found(rest, '.', 0);
    let a = rest.take(dot);
    let b = rest.skip(dot + 1);
    assert(label =~= "GLIBC_"@ + a + "."@ + b) by {
        assert(label.take(6) == "GLIBC_"@);
        assert(label =~= label.take(6) + rest);
        assert(rest =~= a + "."@ + b);
    }
}

proof fn lemma_char_found(s: Seq<char>, c: char, i: int)
    requires
        0 <= i <= s.len(),
    ensures
        i <= text::char_from(s, c, i) <= s.len(),
        text::char_from(s, c, i) < s.len() ==> s[text::char_from(s, c, i)] == c,
    decreases s.len() - i,
{
    if i < s.len() && s[i] != c {
        lemma_char_found(s, c, i + 1);
    }
}

/// What is told of a libc: that a required symbol is missing, that the relocation is,
/// that the version is unknown, each exactly where it is so.
pub proof fn law_gaps_are_told<'a, A: Arch + ?Sized>(
    layout: DetectedLayout,
    elf: Elf<'a>,
    debug: Option<&Elf<'a>>,
    arch: &A,
)
    requires
        detect::detection_is(layout, elf, debug, arch),
    ensures
        ({
            let told = problem::views(layout.problems@);
            &&& told.contains(ProblemView::MissingSymbol { symbol: "main_arena"@ })
                <==> !layout.main_arena.present
            &&& told.contains(ProblemView::MissingSymbol { symbol: "mp_"@ }) <==> !layout.mp.present
            &&& told.contains(ProblemView::MissingRelocation) <==> layout.tp_off_reloc_addr is None
            &&& told.contains(ProblemView::UnknownGlibcVersion)
                <==> layout.capabilities.version_source is AssumedDefault
            &&& layout.layout_source == LayoutSource::Dwarf ==> forall|i: int|
                0 <= i < told.len() ==> !(#[trigger] told[i] is DwarfLayoutFallback)
        }),
{
    lemma_names_differ();
    let found = symbols::symbols_of(elf, debug);
    let none = SymbolScan { symbols: Symbols::none(), problems: Seq::empty() };
    lemma_only_duplicates(elf.tables@.symbols, 0, none);
    let own = symbols::filled_from(elf.tables@.symbols, 0, none);
    if let Some(debug) = debug {
        lemma_only_duplicates(debug.tables@.symbols, 0, own);
    }
    let a = found.problems;
    let b = detect::missing(found.symbols.main_arena, "main_arena"@);
    let c = detect::missing(found.symbols.mp, "mp_"@);
    let d = if detect::tp_off_reloc_of(elf, arch) is None {
        seq![ProblemView::MissingRelocation]
    } else {
        Seq::empty()
    };
    let e = if version::newest(elf.tables@.versions) is None {
        seq![ProblemView::UnknownGlibcVersion]
    } else {
        Seq::empty()
    };
    let before = detect::found_problems(elf, debug, arch);
    let told = problem::views(layout.problems@);
    assert(before == a + b + c + d + e);
    lemma_told_gap(a, b, c, d, e, told, ProblemView::MissingSymbol { symbol: "main_arena"@ });
    lemma_told_gap(a, b, c, d, e, told, ProblemView::MissingSymbol { symbol: "mp_"@ });
    lemma_told_gap(a, b, c, d, e, told, ProblemView::MissingRelocation);
    lemma_told_gap(a, b, c, d, e, told, ProblemView::UnknownGlibcVersion);
    if layout.layout_source == LayoutSource::Dwarf {
        assert forall|i: int| 0 <= i < told.len() implies !(#[trigger] told[i]
            is DwarfLayoutFallback) by {
            lemma_told_gap(a, b, c, d, e, told, told[i]);
            assert(told.contains(told[i]));
            if a.contains(told[i]) {
                let k = choose|k: int| 0 <= k < a.len() && a[k] == told[i];
                assert(a[k] is DuplicateSymbol);
            }
        }
    }
}

proof fn lemma_add_contains<T>(s: Seq<T>, t: Seq<T>, x: T)
    ensures
        (s + t).contains(x) <==> s.contains(x) || t.contains(x),
{
    if s.contains(x) {
        let k = choose|k: int| 0 <= k < s.len() && s[k] == x;
        assert((s + t)[k] == x);
    }
    if t.contains(x) {
        let k = choose|k: int| 0 <= k < t.len() && t[k] == x;
        assert((s + t)[s.len() + k] == x);
    }
    if (s + t).contains(x) {
        let k = choose|k: int| 0 <= k < (s + t).len() && (s + t)[k] == x;
        if k < s.len() {
            assert(s[k] == x);
        } else {
            assert(t[k - s.len()] == x);
        }
    }
}

proof fn lemma_told_gap(
    a: Seq<ProblemView>,
    b: Seq<ProblemView>,
    c: Seq<ProblemView>,
    d: Seq<ProblemView>,
    e: Seq<ProblemView>,
    told: Seq<ProblemView>,
    x: ProblemView,
)
    requires
        b.len() <= 1 && c.len() <= 1 && d.len() <= 1 && e.len() <= 1,
        forall|k: int| 0 <= k < a.len() ==> (#[trigger] a[k]) is DuplicateSymbol,
        told == a + b + c + d + e || (told.len() > 0 && told.drop_last() == a + b + c + d + e
            && told.last() is DwarfLayoutFallback),
    ensures
        told == a + b + c + d + e || !(x is DwarfLayoutFallback) ==> (told.contains(x)
            <==> a.contains(x) || (b.len() > 0 && b[0] == x) || (c.len() > 0 && c[0] == x) || (
        d.len() > 0 && d[0] == x) || (e.len() > 0 && e[0] == x)),
        !(x is DuplicateSymbol) ==> !a.contains(x),
{
    let before = a + b + c + d + e;
    lemma_add_contains(a + b + c + d, e, x);
    lemma_add_contains(a + b + c, d, x);
    lemma_add_contains(a + b, c, x);
    lemma_add_contains(a, b, x);
    if a.contains(x) {
        let k = choose|k: int| 0 <= k < a.len() && a[k] == x;
        assert(a[k] is DuplicateSymbol);
    }
    if told != before {
        assert(told =~= before + seq![told.last()]);
        lemma_add_contains(before, seq![told.last()], x);
        if seq![told.last()].contains(x) {
            assert(x == told.last());
        }
    }
    assert(b.contains(x) <==> b.len() > 0 && b[0] == x);
    assert(c.contains(x) <==> c.len() > 0 && c[0] == x);
    assert(d.contains(x) <==> d.len() > 0 && d[0] == x);
    assert(e.contains(x) <==> e.len() > 0 && e[0] == x);
}

proof fn lemma_only_duplicates(table: Seq<SymbolView>, i: int, scan: SymbolScan)
    requires
        0 <= i,
        forall|k: int| 0 <= k < scan.problems.len() ==> (#[trigger] scan.problems[k])
            is DuplicateSymbol,
    ensures
        ({
            let told = symbols::filled_from(table, i, scan).problems;
            forall|k: int| 0 <= k < told.len() ==> (#[trigger] told[k]) is DuplicateSymbol
        }),
    decreases table.len() - i,
{
    if i < table.len() {
        let next = scan.with(table[i]);
        assert forall|k: int| 0 <= k < next.problems.len() implies (#[trigger] next.problems[k])
            is DuplicateSymbol by {
            if k < scan.problems.len() {
                assert(next.problems[k] == scan.problems[k]);
            }
        }
        lemma_only_duplicates(table, i + 1, next);
    }
}

/// Entry `k` of a table defines, by this name, a symbol that entry `j` defines first, with
/// another value.
pub open spec fn differs_from_first(
    table: Seq<SymbolView>,
    name: Seq<char>,
    j: int,
    k: int,
) -> bool {
    &&& 0 <= j < k < table.len()
    &&& table[k].name == Some(name)
    &&& symbols::defines(table[k]) is Some
    &&& symbols::defines(table[j]) == symbols::defines(table[k])
    &&& forall|i: int|
        0 <= i < j ==> symbols::defines(#[trigger] table[i]) != symbols::defines(table[k])
    &&& table[j].value != table[k].value
}

proof fn lemma_duplicates(table: Seq<SymbolView>, name: Seq<char>)
    ensures
        ({
            let none = SymbolScan { symbols: Symbols::none(), problems: Seq::empty() };
            symbols::filled_from(table, 0, none).problems.contains(
                ProblemView::DuplicateSymbol { symbol: name },
            ) <==> exists|j: int, k: int| #[trigger] differs_from_first(table, name, j, k)
        }),
    decreases table.len(),
{
    let none = SymbolScan { symbols: Symbols::none(), problems: Seq::empty() };
    let told = ProblemView::DuplicateSymbol { symbol: name };
    if table.len() > 0 {
        let front = table.drop_last();
        let last = table.last();
        let n = table.len() - 1;
        lemma_duplicates(front, name);
        lemma_filled_in_parts(front, seq![last], 0, none);
        assert(front + seq![last] =~= table);
        let before = symbols::filled_from(front, 0, none);
        let after = symbols::filled_from(table, 0, none);
        reveal_with_fuel(symbols::filled_from, 3);
        assert(after == before.with(last));
        if before.problems.contains(told) {
            let (j, k) = choose|j: int, k: int| #[trigger] differs_from_first(front, name, j, k);
            assert(differs_from_first(table, name, j, k)) by {
                assert forall|i: int| 0 <= i < j implies symbols::defines(#[trigger] table[i])
                    != symbols::defines(table[k]) by {
                    assert(symbols::defines(front[i]) != symbols::defines(front[k]));
                }
            }
            let m = choose|m: int| 0 <= m < before.problems.len() && before.problems[m] == told;
            assert(after.problems[m] == told);
        }
        if let Some(slot) = symbols::defines(last) {
            lemma_first_found(front, 0, none, slot);
            let info = before.symbols.at(slot);
            if exists|k: int|
                0 <= k < front.len() && symbols::defines(#[trigger] front[k]) == Some(slot) {
                let j = choose|k: int|
                    {
                        &&& 0 <= k < front.len()
                        &&& symbols::defines(#[trigger] front[k]) == Some(slot)
                        &&& info == (SymbolInfo {
                            present: true,
                            value: front[k].value,
                            size: front[k].size,
                        })
                        &&& forall|i: int|
                            0 <= i < k ==> symbols::defines(#[trigger] front[i]) != Some(slot)
                    };
                assert(table[j] == front[j]);
                if info.value != last.value {
                    assert(after.problems == before.problems.push(
                        ProblemView::DuplicateSymbol { symbol: last.name->0 },
                    ));
                    assert(after.problems[before.problems.len() as int]
                        == (ProblemView::DuplicateSymbol { symbol: last.name->0 }));
                    if last.name == Some(name) {
                        assert forall|i: int| 0 <= i < j implies symbols::defines(
                            #[trigger] table[i],
                        ) != symbols::defines(table[n]) by {
                            assert(symbols::defines(front[i]) != Some(slot));
                        }
                        assert(differs_from_first(table, name, j, n));
                    }
                } else {
                    assert(after.problems == before.problems);
                }
                assert forall|i: int| #[trigger] differs_from_first(
                    table,
                    name,
                    i,
                    n,
                ) implies info.value != last.value && last.name == Some(name) by {
                    if i < j {
                        assert(symbols::defines(front[i]) != Some(slot));
                    }
                    if j < i {
                        assert(symbols::defines(table[j]) != symbols::defines(table[n]));
                    }
                }
            } else {
                assert(after.problems == before.problems);
                assert forall|i: int| !#[trigger] differs_from_first(table, name, i, n) by {
                    if differs_from_first(table, name, i, n) {
                        assert(symbols::defines(front[i]) == Some(slot));
                    }
                }
            }
        } else {
            assert(after == before);
        }
        if exists|j: int, k: int| #[trigger] differs_from_first(table, name, j, k) {
            let (j, k) = choose|j: int, k: int| #[trigger] differs_from_first(table, name, j, k);
            if k < n {
                assert(differs_from_first(front, name, j, k)) by {
                    assert forall|i: int| 0 <= i < j implies symbols::defines(
                        #[trigger] front[i],
                    ) != symbols::defines(front[k]) by {
                        assert(symbols::defines(table[i]) != symbols::defines(table[k]));
                    }
                }
                let m = choose|m: int| 0 <= m < before.problems.len() && before.problems[m] == told;
                assert(after.problems[m] == told);
            } else {
                assert(differs_from_first(table, name, j, n));
            }
        }
        if after.problems.contains(told) && !before.problems.contains(told) {
            let m = choose|m: int| 0 <= m < after.problems.len() && after.problems[m] == told;
            if m < before.problems.len() {
                assert(before.problems[m] == told);
            }
        }
    }
}

/// A symbol is told to be defined twice exactly where some entry defines it with another
/// value than the first that does; entries that agree are not told of.
pub proof fn law_differing_definitions_are_told(
    elf: Elf<'_>,
    debug: Option<&Elf<'_>>,
    name: Seq<char>,
)
    ensures
        symbols::symbols_of(elf, debug).problems.contains(
            ProblemView::DuplicateSymbol { symbol: name },
        ) <==> exists|j: int, k: int| #[trigger]
            differs_from_first(both_tables(elf, debug), name, j, k),
{
    let none = SymbolScan { symbols: Symbols::none(), problems: Seq::empty() };
    if let Some(debug) = debug {
        lemma_filled_in_parts(elf.tables@.symbols, debug.tables@.symbols, 0, none);
    }
    lemma_duplicates(both_tables(elf, debug), name);
}

/// A fallback from DWARF is among the problems.
pub open spec fn tells_fallback(layout: DetectedLayout) -> bool {
    exists|i: int|
        0 <= i < layout.problems@.len() && (#[trigger] layout.problems@[i])@ is DwarfLayoutFallback
}

proof fn lemma_no_fallback_before<A: Arch + ?Sized>(
    elf: Elf<'_>,
    debug: Option<&Elf<'_>>,
    arch: &A,
    i: int,
)
    requires
        0 <= i < detect::found_problems(elf, debug, arch).len(),
    ensures
        !(detect::found_problems(elf, debug, arch)[i] is DwarfLayoutFallback),
{
    let found = symbols::symbols_of(elf, debug);
    let none = SymbolScan { symbols: Symbols::none(), problems: Seq::empty() };
    lemma_only_duplicates(elf.tables@.symbols, 0, none);
    let own = symbols::filled_from(elf.tables@.symbols, 0, none);
    if let Some(debug) = debug {
        lemma_only_duplicates(debug.tables@.symbols, 0, own);
    }
    let a = found.problems;
    let b = detect::missing(found.symbols.main_arena, "main_arena"@);
    let c = detect::missing(found.symbols.mp, "mp_"@);
    let d = if detect::tp_off_reloc_of(elf, arch) is None {
        seq![ProblemView::MissingRelocation]
    } else {
        Seq::empty()
    };
    let e = if version::newest(elf.tables@.versions) is None {
        seq![ProblemView::UnknownGlibcVersion]
    } else {
        Seq::empty()
    };
    let before = detect::found_problems(elf, debug, arch);
    assert(before == a + b + c + d + e);
    lemma_told_gap(a, b, c, d, e, before, before[i]);
    assert(before.contains(before[i]));
}

/// A libc whose built-in offsets are kept is told to have fallen back from DWARF, unless
/// there was none to expect: it has no debug information and no debug file was given.
pub proof fn law_fallback_is_told<'a, A: Arch + ?Sized>(
    layout: DetectedLayout,
    elf: Elf<'a>,
    debug: Option<&Elf<'a>>,
    arch: &A,
)
    requires
        detect::detection_is(layout, elf, debug, arch),
        !sections::inflates(
            if debug is Some {
                *debug->0
            } else {
                elf
            },
        ),
    ensures
        ({
            let file = if debug is Some {
                *debug->0
            } else {
                elf
            };
            let required = symbols::symbols_of(elf, debug).symbols.tcache.present;
            let given = scan::layout_from(file, required, DwarfError::Parse);
            tells_fallback(layout) <==> given is Err && (debug is Some
                || !(given->Err_0 is Unavailable))
        }),
{
    let file = detect::dwarf_file(elf, debug);
    sections::lemma_no_stream_no_failure(file, DwarfError::Parse, sections::size_differs());
    let before = detect::found_problems(elf, debug, arch);
    let after = problem::views(layout.problems@);
    assert(after.len() == layout.problems@.len());
    assert forall|i: int| 0 <= i < after.len() implies after[i] == (
    #[trigger] layout.problems@[i])@ by {}
    if after == before {
        assert forall|i: int| 0 <= i < layout.problems@.len() implies !((
        #[trigger] layout.problems@[i])@ is DwarfLayoutFallback) by {
            lemma_no_fallback_before(elf, debug, arch, i);
        }
    } else {
        let n = after.len() - 1;
        assert(layout.problems@[n]@ == after.last());
    }
}

} // verus!
