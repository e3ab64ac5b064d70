//! `check`: inspect a reference libc and report whether it has the symbols and
//! layout the analyser needs. Its output schema is its own, so it lives here
//! rather than in `report/`.

use vstd::prelude::*;

use crate::arch;
use crate::arch::{by_elf_machine, Arch};
use crate::elf::Elf;
use crate::error;
use crate::error::{Error, Result};
use crate::glibc::debuglink;
use crate::glibc::debuglink::verify_debug_matches_runtime;
use crate::glibc::detect;
use crate::glibc::{DetectedLayout, SymbolInfo};
use crate::locate;
use crate::locate::{compute_identity, Identity, IdentityView};
use crate::problem;
use crate::problem::Problem;
use crate::report::model;
use crate::report::model::{GlibcCapabilitiesJson, IdentityJson, SCHEMA_VERSION, TOOL_VERSION};
use crate::text;

verus! {

pub struct CheckReport {
    pub schema_version: u32,
    pub tool_version: String,
    pub libc_path: String,
    pub arch: String,
    pub word_size: u32,
    pub identity: IdentityJson,
    /// `null` for an unsupported architecture; the field is always present so
    /// consumers only handle "maybe null", never "maybe absent".
    pub glibc_capabilities: Option<GlibcCapabilitiesJson>,
    /// Basic arena/heap/chunk analysis will work. Non-fatal problems (e.g. a
    /// missing relocation) leave this `true` while silently disabling tcache /
    /// thread data: check `problems` too.
    pub supported: bool,
    /// By ascending name.
    pub symbols: Vec<(String, SymbolJson)>,
    pub problems: Vec<Problem>,
}

#[derive(Debug, Clone, Copy)]
pub struct SymbolJson {
    pub present: bool,
    pub value: Option<u64>,
    pub size: Option<u64>,
}

/// A symbol as reports show it: value and size only where it was found.
pub open spec fn symbol_json(s: SymbolInfo) -> SymbolJson {
    SymbolJson {
        present: s.present,
        value: if s.present {
            Some(s.value)
        } else {
            None
        },
        size: if s.present {
            Some(s.size)
        } else {
            None
        },
    }
}

impl From<&SymbolInfo> for SymbolJson {
    fn from(s: &SymbolInfo) -> (json: SymbolJson) {
        SymbolJson {
            present: s.present,
            value: if s.present {
                Some(s.value)
            } else {
                None
            },
            size: if s.present {
                Some(s.size)
            } else {
                None
            },
        }
    }
}

impl vstd::std_specs::convert::FromSpecImpl<&SymbolInfo> for SymbolJson {
    open spec fn obeys_from_spec() -> bool {
        true
    }

    open spec fn from_spec(s: &SymbolInfo) -> SymbolJson {
        symbol_json(*s)
    }
}

/// Named symbols with their names as character sequences.
pub open spec fn named(symbols: Seq<(String, SymbolJson)>) -> Seq<(Seq<char>, SymbolJson)> {
    symbols.map_values(|s: (String, SymbolJson)| (s.0@, s.1))
}

/// The symbols of a layout, by ascending name.
pub open spec fn symbols_of(layout: DetectedLayout) -> Seq<(Seq<char>, SymbolJson)> {
    seq![
        ("main_arena"@, symbol_json(layout.main_arena)),
        ("mp_"@, symbol_json(layout.mp)),
        ("narenas"@, symbol_json(layout.narenas)),
        ("narenas_limit"@, symbol_json(layout.narenas_limit)),
        ("tcache"@, symbol_json(layout.tcache)),
        ("tcache_key"@, symbol_json(layout.tcache_key)),
        ("thread_arena"@, symbol_json(layout.thread_arena)),
    ]
}

/// An identity without a build-id is a problem.
pub open spec fn identity_problems(identity: IdentityView) -> Seq<problem::ProblemView> {
    if identity is ContentHash {
        seq![problem::ProblemView::MissingBuildId]
    } else {
        Seq::empty()
    }
}

impl CheckReport {
    /// What every report on a libc says.
    pub open spec fn is_on(self, libc_path: Seq<char>, identity: IdentityView) -> bool {
        &&& self.schema_version == SCHEMA_VERSION
        &&& self.tool_version@ == TOOL_VERSION@
        &&& self.libc_path@ == libc_path
        &&& self.identity@ == model::identity_json(identity)
    }

    /// The report on a libc of an architecture that is not implemented.
    pub open spec fn says_unsupported(self, elf: Elf<'_>, identity: IdentityView) -> bool {
        &&& self.arch@ == "unknown("@ + text::hex(elf.tables.machine as nat) + ")"@
        &&& self.word_size == detect::word_size_of(elf)
        &&& self.glibc_capabilities is None
        &&& !self.supported
        &&& self.symbols@.len() == 0
        &&& problem::views(self.problems@) == seq![
            problem::ProblemView::UnsupportedArch { machine: elf.tables.machine },
        ] + identity_problems(identity)
    }

    /// The report on a libc with a layout.
    pub open spec fn says_of(
        self,
        layout: DetectedLayout,
        arch: Seq<char>,
        identity: IdentityView,
    ) -> bool {
        let problems = problem::views(layout.problems@) + identity_problems(identity);
        &&& self.arch@ == arch
        &&& self.word_size == layout.word_size
        &&& self.glibc_capabilities matches Some(json) && json.describes(layout)
        &&& self.supported == !detect::any_fatal(problems)
        &&& named(self.symbols@) == symbols_of(layout)
        &&& problem::views(self.problems@) == problems
    }
}

/// Note an identity without a build-id.
pub fn push_identity_problem(identity: &Identity, problems: &mut Vec<Problem>)
    ensures
        problem::views(final(problems)@) == problem::views(old(problems)@) + identity_problems(
            identity@,
        ),
{
    if let Identity::ContentHash(_) = identity {
        let ghost before = problems@;
        problems.push(Problem::MissingBuildId);
        proof {
            problem::lemma_views_push(before, Problem::MissingBuildId);
        }
    }
}

/// Whether `r` is what checking a libc gives.
pub open spec fn check_is<'a>(
    elf: Elf<'a>,
    debug: Option<&Elf<'a>>,
    libc_path: Seq<char>,
    r: Result<(i32, CheckReport)>,
) -> bool {
    let identity = locate::identity_of(elf);
    let paired = match debug {
        Some(debug) => debuglink::pairing(elf, *debug),
        None => Ok(()),
    };
    match (paired, r) {
        (Err(reason), Err(e)) => e@ == error::ErrorView::UnusableLibc(reason),
        (Ok(_), Ok((code, report))) => {
            &&& report.is_on(libc_path, identity)
            &&& code == if report.supported {
                0int
            } else {
                1int
            }
            &&& match arch::handler(elf.tables.machine) {
                None => report.says_unsupported(elf, identity),
                Some(arch) => says_of_libc(report, elf, debug, arch, identity),
            }
        },
        _ => false,
    }
}

/// Whether a report speaks of the layout detected in a libc.
pub open spec fn says_of_libc<'a, A: Arch + ?Sized>(
    report: CheckReport,
    elf: Elf<'a>,
    debug: Option<&Elf<'a>>,
    arch: &A,
    identity: IdentityView,
) -> bool {
    exists|layout: DetectedLayout| #[trigger]
        detect::detection_is(layout, elf, debug, arch) && report.says_of(
            layout,
            arch.label(),
            identity,
        )
}

/// Check a libc, and its separate debug file where there is one: the exit code
/// and the report. A debug file that does not belong to the libc is an error.
pub fn run<'a>(elf: &Elf<'a>, debug: Option<&Elf<'a>>, libc_path: &str) -> (r: Result<
    (i32, CheckReport),
>)
    ensures
        check_is(*elf, debug, libc_path@, r),
{
    if let Some(debug) = debug {
        if let Err(reason) = verify_debug_matches_runtime(elf, debug) {
            return Err(Error::UnusableLibc(reason));
        }
    }
    let identity = compute_identity(elf);
    match by_elf_machine(elf.machine()) {
        // An unsupported arch still gets a full diagnostic (telling the user *why*
        // it's unsupported is check's whole job), not a stderr abort.
        None => Ok((1, unsupported_report(elf, libc_path, identity))),
        Some(arch) => {
            let report = supported_report(elf, debug, arch, libc_path, identity);
            let code: i32 = if report.supported {
                0
            } else {
                1
            };
            Ok((code, report))
        },
    }
}

pub fn unsupported_report(elf: &Elf<'_>, libc_path: &str, identity: Identity) -> (report:
    CheckReport)
    ensures
        report.is_on(libc_path@, identity@),
        report.says_unsupported(*elf, identity@),
{
    let machine: u16 = elf.machine();
    let mut problems = problem::one(Problem::UnsupportedArch { machine });
    push_identity_problem(&identity, &mut problems);
    CheckReport {
        schema_version: SCHEMA_VERSION,
        tool_version: TOOL_VERSION.to_owned(),
        libc_path: libc_path.to_owned(),
        arch: text::concat3("unknown(", &text::hex_string(machine as u64), ")"),
        word_size: if elf.is_64bit() {
            8
        } else {
            4
        },
        identity: IdentityJson::from(identity),
        glibc_capabilities: None,
        supported: false,
        symbols: Vec::new(),
        problems,
    }
}

pub fn supported_report<'a, A: Arch + ?Sized>(
    elf: &Elf<'a>,
    debug: Option<&Elf<'a>>,
    arch: &A,
    libc_path: &str,
    identity: Identity,
) -> (report: CheckReport)
    ensures
        report.is_on(libc_path@, identity@),
        says_of_libc(report, *elf, debug, arch, identity@),
{
    let layout = DetectedLayout::detect_with_debug(elf, debug, arch);
    layout_report(&layout, arch.name(), libc_path, identity)
}

/// The report on a libc whose layout was detected.
pub fn layout_report(
    layout: &DetectedLayout,
    arch: &str,
    libc_path: &str,
    identity: Identity,
) -> (report: CheckReport)
    ensures
        report.is_on(libc_path@, identity@),
        report.says_of(*layout, arch@, identity@),
{
    let mut problems = problem::clone_all(&layout.problems);
    push_identity_problem(&identity, &mut problems);
    CheckReport {
        schema_version: SCHEMA_VERSION,
        tool_version: TOOL_VERSION.to_owned(),
        libc_path: libc_path.to_owned(),
        arch: arch.to_owned(),
        word_size: layout.word_size,
        identity: IdentityJson::from(identity),
        glibc_capabilities: Some(GlibcCapabilitiesJson::from_layout(layout)),
        supported: first_fatal(&problems).is_none(),
        symbols: symbol_map(layout),
        problems,
    }
}

/// Index of the first fatal problem, from `i` on.
pub open spec fn fatal_from(problems: Seq<problem::ProblemView>, i: int) -> Option<int>
    decreases problems.len() - i,
{
    if i < 0 || i >= problems.len() {
        None
    } else if problems[i].fatal() {
        Some(i)
    } else {
        fatal_from(problems, i + 1)
    }
}

/// The first fatal problem of a list.
pub fn first_fatal(problems: &Vec<Problem>) -> (r: Option<usize>)
    ensures
        r is Some <==> detect::any_fatal(problem::views(problems@)),
        match r {
            Some(i) => fatal_from(problem::views(problems@), 0) == Some(i as int) && i
                < problems@.len(),
            None => fatal_from(problem::views(problems@), 0) is None,
        },
{
    let ghost all = problem::views(problems@);
    let mut i: usize = 0;
    while i < problems.len()
        invariant
            i <= problems@.len(),
            all == problem::views(problems@),
            forall|k: int| 0 <= k < i ==> !(#[trigger] all[k]).fatal(),
            fatal_from(all, i as int) == fatal_from(all, 0),
        decreases problems@.len() - i,
    {
        assert(all[i as int] == problems@[i as int]@);
        if problems[i].is_fatal() {
            return Some(i);
        }
        i = i + 1;
    }
    None
}

pub fn symbol_map(layout: &DetectedLayout) -> (symbols: Vec<(String, SymbolJson)>)
    ensures
        named(symbols@) == symbols_of(*layout),
{
    let symbols = vec![
        ("main_arena".to_owned(), SymbolJson::from(&layout.main_arena)),
        ("mp_".to_owned(), SymbolJson::from(&layout.mp)),
        ("narenas".to_owned(), SymbolJson::from(&layout.narenas)),
        ("narenas_limit".to_owned(), SymbolJson::from(&layout.narenas_limit)),
        ("tcache".to_owned(), SymbolJson::from(&layout.tcache)),
        ("tcache_key".to_owned(), SymbolJson::from(&layout.tcache_key)),
        ("thread_arena".to_owned(), SymbolJson::from(&layout.thread_arena)),
    ];
    assert(named(symbols@) =~= symbols_of(*layout));
    symbols
}

/// A libc is supported exactly where its architecture is implemented and its
/// `main_arena` and `mp_` were found. Other gaps leave it supported.
pub proof fn law_supported_iff_required_symbols_found<'a>(
    elf: Elf<'a>,
    debug: Option<&Elf<'a>>,
    libc_path: Seq<char>,
    r: Result<(i32, CheckReport)>,
)
    requires
        check_is(elf, debug, libc_path, r),
        r is Ok,
    ensures
        ({
            let symbols = crate::glibc::symbols::symbols_of(elf, debug).symbols;
            let (code, report) = r->Ok_0;
            &&& report.supported <==> arch::handler(elf.tables.machine) is Some
                && symbols.main_arena.present && symbols.mp.present
            &&& code == 0 <==> report.supported
        }),
{
    let report = (r->Ok_0).1;
    let identity = locate::identity_of(elf);
    match arch::handler(elf.tables.machine) {
        None => {},
        Some(arch) => {
            let layout = choose|layout: DetectedLayout| #[trigger]
                detect::detection_is(layout, elf, debug, arch) && report.says_of(
                    layout,
                    arch.label(),
                    identity,
                );
            detect::law_fatal_iff_required_symbol_missing(layout, elf, debug, arch);
            let found = problem::views(layout.problems@);
            let all = found + identity_problems(identity);
            if detect::any_fatal(all) {
                let i = choose|i: int| 0 <= i < all.len() && (#[trigger] all[i]).fatal();
                assert(found[i].fatal());
            }
            if detect::any_fatal(found) {
                let i = choose|i: int| 0 <= i < found.len() && (#[trigger] found[i]).fatal();
                assert(all[i].fatal());
            }
        },
    }
}

} // verus!
