//! The symbols that the analysis needs of a libc.

use vstd::prelude::*;

use crate::elf::image::{Symbol, SymbolView};
use crate::elf::Elf;
use crate::problem;
use crate::problem::Problem;
use crate::text;

use super::SymbolInfo;

verus! {

/// The wanted symbols.
#[derive(Debug, Clone, Copy)]
pub struct Symbols {
    pub main_arena: SymbolInfo,
    pub mp: SymbolInfo,
    pub narenas: SymbolInfo,
    pub narenas_limit: SymbolInfo,
    pub tcache: SymbolInfo,
    pub tcache_key: SymbolInfo,
    pub thread_arena: SymbolInfo,
    pub hugepage_config: SymbolInfo,
}

/// One of the wanted symbols.
#[derive(Debug, Clone, Copy, PartialEq, Eq, Structural)]
pub enum Slot {
    MainArena,
    Mp,
    Narenas,
    NarenasLimit,
    Tcache,
    TcacheKey,
    ThreadArena,
    HugepageConfig,
}

/// The wanted symbol that a name stands for.
pub open spec fn slot_of(name: Seq<char>) -> Option<Slot> {
    if name == "main_arena"@ {
        Some(Slot::MainArena)
    } else if name == "mp_"@ {
        Some(Slot::Mp)
    } else if name == "narenas"@ {
        Some(Slot::Narenas)
    } else if name == "tcache"@ || name == "__tcache"@ {
        Some(Slot::Tcache)
    } else if name == "tcache_key"@ {
        Some(Slot::TcacheKey)
    } else if name == "thread_arena"@ {
        Some(Slot::ThreadArena)
    } else if name == "__malloc_hugepage_config"@ {
        Some(Slot::HugepageConfig)
    } else if text::starts_with(name, "narenas_limit"@) {
        Some(Slot::NarenasLimit)
    } else {
        None
    }
}

/// The wanted symbol that a name stands for.
fn slot_named(name: &str) -> (r: Option<Slot>)
    ensures
        r == slot_of(name@),
{
    if text::str_equal(name, "main_arena") {
        Some(Slot::MainArena)
    } else if text::str_equal(name, "mp_") {
        Some(Slot::Mp)
    } else if text::str_equal(name, "narenas") {
        Some(Slot::Narenas)
    } else if text::str_equal(name, "tcache") || text::str_equal(name, "__tcache") {
        Some(Slot::Tcache)
    } else if text::str_equal(name, "tcache_key") {
        Some(Slot::TcacheKey)
    } else if text::str_equal(name, "thread_arena") {
        Some(Slot::ThreadArena)
    } else if text::str_equal(name, "__malloc_hugepage_config") {
        Some(Slot::HugepageConfig)
    } else if text::has_prefix(&text::chars_of(name), "narenas_limit") {
        // Prefix match: LTO builds localise this as `narenas_limit.lto_priv.N`.
        Some(Slot::NarenasLimit)
    } else {
        None
    }
}

impl Default for Symbols {
    fn default() -> (s: Symbols)
        ensures
            s == Symbols::none(),
    {
        Symbols {
            main_arena: SymbolInfo::default(),
            mp: SymbolInfo::default(),
            narenas: SymbolInfo::default(),
            narenas_limit: SymbolInfo::default(),
            tcache: SymbolInfo::default(),
            tcache_key: SymbolInfo::default(),
            thread_arena: SymbolInfo::default(),
            hugepage_config: SymbolInfo::default(),
        }
    }
}

impl Symbols {
    /// No symbol found.
    pub open spec fn none() -> Symbols {
        Symbols {
            main_arena: SymbolInfo::absent(),
            mp: SymbolInfo::absent(),
            narenas: SymbolInfo::absent(),
            narenas_limit: SymbolInfo::absent(),
            tcache: SymbolInfo::absent(),
            tcache_key: SymbolInfo::absent(),
            thread_arena: SymbolInfo::absent(),
            hugepage_config: SymbolInfo::absent(),
        }
    }

    /// What was found of a symbol.
    pub open spec fn at(self, slot: Slot) -> SymbolInfo {
        match slot {
            Slot::MainArena => self.main_arena,
            Slot::Mp => self.mp,
            Slot::Narenas => self.narenas,
            Slot::NarenasLimit => self.narenas_limit,
            Slot::Tcache => self.tcache,
            Slot::TcacheKey => self.tcache_key,
            Slot::ThreadArena => self.thread_arena,
            Slot::HugepageConfig => self.hugepage_config,
        }
    }

    /// With another finding of a symbol.
    pub open spec fn with(self, slot: Slot, info: SymbolInfo) -> Symbols {
        match slot {
            Slot::MainArena => Symbols { main_arena: info, ..self },
            Slot::Mp => Symbols { mp: info, ..self },
            Slot::Narenas => Symbols { narenas: info, ..self },
            Slot::NarenasLimit => Symbols { narenas_limit: info, ..self },
            Slot::Tcache => Symbols { tcache: info, ..self },
            Slot::TcacheKey => Symbols { tcache_key: info, ..self },
            Slot::ThreadArena => Symbols { thread_arena: info, ..self },
            Slot::HugepageConfig => Symbols { hugepage_config: info, ..self },
        }
    }

    /// What was found of a symbol.
    pub fn get(&self, slot: Slot) -> (info: SymbolInfo)
        ensures
            info == self.at(slot),
    {
        match slot {
            Slot::MainArena => self.main_arena,
            Slot::Mp => self.mp,
            Slot::Narenas => self.narenas,
            Slot::NarenasLimit => self.narenas_limit,
            Slot::Tcache => self.tcache,
            Slot::TcacheKey => self.tcache_key,
            Slot::ThreadArena => self.thread_arena,
            Slot::HugepageConfig => self.hugepage_config,
        }
    }

    /// Keep a finding of a symbol.
    pub fn set(&mut self, slot: Slot, info: SymbolInfo)
        ensures
            *final(self) == old(self).with(slot, info),
    {
        match slot {
            Slot::MainArena => self.main_arena = info,
            Slot::Mp => self.mp = info,
            Slot::Narenas => self.narenas = info,
            Slot::NarenasLimit => self.narenas_limit = info,
            Slot::Tcache => self.tcache = info,
            Slot::TcacheKey => self.tcache_key = info,
            Slot::ThreadArena => self.thread_arena = info,
            Slot::HugepageConfig => self.hugepage_config = info,
        }
    }
}

/// What a symbol table gave so far.
#[verifier::ext_equal]
pub struct SymbolScan {
    pub symbols: Symbols,
    pub problems: Seq<problem::ProblemView>,
}

/// The wanted symbol that a table entry defines.
pub open spec fn defines(symbol: SymbolView) -> Option<Slot> {
    if symbol.shndx == 0 {
        None
    } else {
        match symbol.name {
            Some(name) => slot_of(name),
            None => None,
        }
    }
}

impl SymbolScan {
    /// With one more table entry: the first definition wins, a differing one is
    /// reported.
    pub open spec fn with(self, symbol: SymbolView) -> SymbolScan {
        match defines(symbol) {
            None => self,
            Some(slot) => if !self.symbols.at(slot).present {
                SymbolScan {
                    symbols: self.symbols.with(
                        slot,
                        SymbolInfo { present: true, value: symbol.value, size: symbol.size },
                    ),
                    ..self
                }
            } else if self.symbols.at(slot).value != symbol.value {
                SymbolScan {
                    problems: self.problems.push(
                        problem::ProblemView::DuplicateSymbol { symbol: symbol.name->0 },
                    ),
                    ..self
                }
            } else {
                self
            },
        }
    }
}

/// The scan of a symbol table from entry `i` on.
pub open spec fn filled_from(table: Seq<SymbolView>, i: int, scan: SymbolScan) -> SymbolScan
    decreases table.len() - i,
{
    if i < 0 || i >= table.len() {
        scan
    } else {
        filled_from(table, i + 1, scan.with(table[i]))
    }
}

/// The wanted symbols of a libc and of its debug file: those of the runtime file
/// come first, the debug file fills stripped entries.
pub open spec fn symbols_of(runtime: Elf<'_>, debug: Option<&Elf<'_>>) -> SymbolScan {
    let own = filled_from(
        runtime.tables@.symbols,
        0,
        SymbolScan { symbols: Symbols::none(), problems: Seq::empty() },
    );
    match debug {
        None => own,
        Some(debug) => filled_from(debug.tables@.symbols, 0, own),
    }
}

pub fn scan_symbols(runtime: &Elf<'_>, debug: Option<&Elf<'_>>) -> (r: (Symbols, Vec<Problem>))
    ensures
        (SymbolScan { symbols: r.0, problems: problem::views(r.1@) }) == symbols_of(
            *runtime,
            debug,
        ),
{
    let mut symbols = Symbols::default();
    let mut problems: Vec<Problem> = problem::none();
    // Prefer runtime symbols when present; debuginfo fills stripped entries.
    fill_symbols(runtime, &mut symbols, &mut problems);
    if let Some(debug) = debug {
        fill_symbols(debug, &mut symbols, &mut problems);
    }
    (symbols, problems)
}

pub fn fill_symbols(elf: &Elf<'_>, symbols: &mut Symbols, problems: &mut Vec<Problem>)
    ensures
        (SymbolScan {
            symbols: *final(symbols),
            problems: problem::views(final(problems)@),
        }) == filled_from(
            elf.tables@.symbols,
            0,
            SymbolScan { symbols: *old(symbols), problems: problem::views(old(problems)@) },
        ),
{
    let tables = elf.inner();
    let ghost all = elf.tables@.symbols;
    let ghost whole = filled_from(
        all,
        0,
        SymbolScan { symbols: *symbols, problems: problem::views(problems@) },
    );
    let mut i: usize = 0;
    while i < tables.symbols.len()
        invariant
            i <= tables.symbols@.len(),
            *tables == elf.tables,
            all == elf.tables@.symbols,
            filled_from(
                all,
                i as int,
                SymbolScan { symbols: *symbols, problems: problem::views(problems@) },
            ) == whole,
        decreases tables.symbols@.len() - i,
    {
        let symbol: &Symbol = &tables.symbols[i];
        assert(all[i as int] == symbol@);
        i = i + 1;
        if symbol.shndx == 0 {
            continue;
        }
        let name: &String = match &symbol.name {
            Some(name) => name,
            None => continue,
        };
        let slot: Slot = match slot_named(name) {
            Some(slot) => slot,
            None => continue,
        };
        let known: SymbolInfo = symbols.get(slot);
        if known.present {
            // First definition wins; a differing duplicate is worth flagging but
            // not fatal.
            if known.value != symbol.value {
                let ghost before = problems@;
                let duplicate = Problem::DuplicateSymbol { symbol: name.clone() };
                problems.push(duplicate);
                proof {
                    problem::lemma_views_push(before, duplicate);
                }
            }
            continue;
        }
        symbols.set(
            slot,
            SymbolInfo { present: true, value: symbol.value, size: symbol.size },
        );
    }
}

/// The first definition wins: what was found of a symbol stays, whatever the
/// rest of the table holds. So a runtime symbol is never replaced by one of the
/// debug file.
pub proof fn law_first_definition_wins(table: Seq<SymbolView>, i: int, scan: SymbolScan, slot: Slot)
    requires
        scan.symbols.at(slot).present,
    ensures
        filled_from(table, i, scan).symbols.at(slot) == scan.symbols.at(slot),
    decreases table.len() - i,
{
    if 0 <= i < table.len() {
        law_first_definition_wins(table, i + 1, scan.with(table[i]), slot);
    }
}

/// A symbol is found exactly where it was found before or some entry of the table
/// defines it.
pub proof fn law_found_iff_defined(table: Seq<SymbolView>, i: int, scan: SymbolScan, slot: Slot)
    requires
        0 <= i,
    ensures
        filled_from(table, i, scan).symbols.at(slot).present <==> scan.symbols.at(slot).present || (
        exists|k: int| i <= k < table.len() && defines(#[trigger] table[k]) == Some(slot)),
    decreases table.len() - i,
{
    if i < table.len() {
        law_found_iff_defined(table, i + 1, scan.with(table[i]), slot);
        if defines(table[i]) == Some(slot) {
            assert(scan.with(table[i]).symbols.at(slot).present);
        } else {
            assert(scan.with(table[i]).symbols.at(slot) == scan.symbols.at(slot));
        }
    }
}

} // verus!
