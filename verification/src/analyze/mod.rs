//! The orchestration layer.
//!
//! [`analyze_core`] ties the whole pipeline together and returns a finished
//! [`Report`]. It takes parsed files, not paths or command-line types, so it can
//! be driven from a test as easily as from the program. The two-tier rule is
//! applied here: only "can't even start" conditions return `Err`; everything
//! degraded becomes a `Problem` in the report.

use vstd::prelude::*;

use crate::arch;
use crate::arch::{by_elf_machine, Arch};
use crate::commands::check;
use crate::commands::check::{first_fatal, push_identity_problem};
use crate::elf::coredump;
use crate::elf::coredump::{MappedFile, MappedFileView, Thread};
use crate::elf::notes;
use crate::elf::Elf;
use crate::error;
use crate::error::{Error, Result};
use crate::glibc::debuglink;
use crate::glibc::debuglink::verify_debug_matches_runtime;
use crate::glibc::detect;
use crate::glibc::DetectedLayout;
use crate::heap::arena;
use crate::locate;
use crate::locate::{
    compute_identity, looks_like_libc, strip_deleted, ForcePathLocator, Identity, IdentityView,
    LibcLocator, LocatedLibc, LocatedLibcView, NtFileLocator,
};
use crate::problem;
use crate::problem::Problem;
use crate::report::model::{
    GlibcCapabilitiesJson, LibcInfo, Report, SCHEMA_VERSION, TOOL_VERSION,
};
use crate::text;

pub mod arena_laws;
pub mod arenas;
pub mod laws;
pub mod report_laws;
pub mod tls;
pub mod tls_laws;

verus! {

/// The notes of a core.
pub open spec fn core_notes(core: Elf<'_>) -> Seq<notes::NoteView> {
    notes::all_notes(core.tables.program_headers@, core.data@)
}

/// What is read of a core before a libc is looked at.
pub struct CoreInfo {
    pub threads: Vec<Thread>,
    pub mapped: Vec<MappedFile>,
}

/// Why a core cannot be analysed at all: its architecture is not implemented, or
/// the registers of a thread are broken.
pub open spec fn core_failure(core: Elf<'_>) -> Option<error::ErrorView> {
    match arch::handler(core.tables.machine) {
        None => Some(error::ErrorView::UnsupportedArch(core.tables.machine)),
        Some(arch) => match coredump::threads_of(core_notes(core), arch) {
            Err(e) => Some(e),
            Ok(_) => None,
        },
    }
}

/// Read the threads and the mappings of a core.
pub fn read_core(core: &Elf<'_>) -> (r: Result<CoreInfo>)
    ensures
        match r {
            Err(e) => core_failure(*core) == Some(e@),
            Ok(info) => {
                &&& core_failure(*core) is None
                &&& coredump::threads_of(
                    core_notes(*core),
                    arch::handler(core.tables.machine)->0,
                ) == Ok::<Seq<Thread>, error::ErrorView>(info.threads@)
                &&& coredump::views(info.mapped@) == locate::mappings(*core)
            },
        },
{
    let arch = match by_elf_machine(core.machine()) {
        Some(arch) => arch,
        None => return Err(Error::UnsupportedArch(core.machine())),
    };
    let notes = core.notes();
    let threads = match coredump::threads(&notes, arch) {
        Ok(threads) => threads,
        Err(e) => return Err(e),
    };
    let mapped = match coredump::mapped_files(&notes, core.is_64bit()) {
        Ok(mapped) => mapped,
        Err(e) => return Err(e),
    };
    Ok(CoreInfo { threads, mapped })
}

/// The path of the first mapping, from index `i` on, that starts with a libc.
pub open spec fn libc_path_from(mapped: Seq<MappedFileView>, i: int) -> Option<Seq<char>>
    decreases mapped.len() - i,
{
    if i < 0 || i >= mapped.len() {
        None
    } else if locate::is_candidate(mapped[i]) {
        Some(locate::stripped(mapped[i].path))
    } else {
        libc_path_from(mapped, i + 1)
    }
}

/// The libc to read where none is named: the one mapped in the core (only useful
/// when the local file still has symbols).
pub fn default_libc(mapped: &[MappedFile]) -> (r: Result<String>)
    ensures
        match (libc_path_from(coredump::views(mapped@), 0), r) {
            (Some(path), Ok(s)) => s@ == path,
            (None, Err(e)) => e@ == error::ErrorView::LibcNotFound(
                "no libc mapping in core; pass --libc"@,
            ),
            _ => false,
        },
{
    let ghost all = coredump::views(mapped@);
    let mut i: usize = 0;
    while i < mapped.len()
        invariant
            i <= mapped@.len(),
            all == coredump::views(mapped@),
            libc_path_from(all, i as int) == libc_path_from(all, 0),
        decreases mapped@.len() - i,
    {
        let m: &MappedFile = &mapped[i];
        assert(all[i as int] == m@);
        if m.file_offset == 0 && looks_like_libc(&m.path) {
            return Ok(strip_deleted(&m.path).to_owned());
        }
        i = i + 1;
    }
    Err(Error::LibcNotFound("no libc mapping in core; pass --libc".to_owned()))
}

/// The failure to open the libc mapped in the core.
pub fn unopened_libc(path: &str) -> (e: Error)
    ensures
        e@ == error::ErrorView::LibcNotFound("could not open "@ + path@ + "; pass --libc"@),
{
    Error::LibcNotFound(text::concat3("could not open ", path, "; pass --libc"))
}

/// A human-readable reason for a fatal libc problem.
pub open spec fn description(problem: problem::ProblemView) -> Seq<char> {
    match problem {
        problem::ProblemView::MissingSymbol { symbol } => {
            "missing required symbol '"@ + symbol + "'"@
        },
        problem::ProblemView::UnsupportedArch { machine } => {
            "unsupported architecture e_machine="@ + text::hex(machine as nat)
        },
        _ => "reference libc unusable"@,
    }
}

/// A human-readable reason for a fatal libc problem, for the stderr message.
/// Only the two fatal kinds reach here; both are spelled out rather than
/// Debug-formatted so the message stays a stable, readable string.
pub fn describe(problem: &Problem) -> (s: String)
    ensures
        s@ == description(problem@),
{
    match problem {
        Problem::MissingSymbol { symbol } => {
            text::concat3("missing required symbol '", symbol, "'")
        },
        Problem::UnsupportedArch { machine } => text::concat2(
            "unsupported architecture e_machine=",
            &text::hex_string(*machine as u64),
        ),
        _ => "reference libc unusable".to_owned(),
    }
}

/// Where a libc is in a core: at the mapping of a forced path, else at the one
/// with its identity.
pub open spec fn location(
    core: Elf<'_>,
    identity: IdentityView,
    force_libc: Option<&str>,
) -> std::result::Result<LocatedLibcView, error::ErrorView> {
    match force_libc {
        Some(path) => locate::found_by_path(core, path@),
        None => locate::found_by_identity(core, identity),
    }
}

fn find_libc(core: &Elf<'_>, identity: &Identity, force_libc: Option<&str>) -> (r: Result<
    LocatedLibc,
>)
    ensures
        locate::located(r) == location(*core, identity@, force_libc),
{
    match force_libc {
        Some(path) => ForcePathLocator(path.to_owned()).locate(core, identity),
        None => NtFileLocator.locate(core, identity),
    }
}

/// Whether a report is that on a core whose libc has a layout and a location.
pub open spec fn reports_core(
    report: Report,
    core: Elf<'_>,
    core_path: Seq<char>,
    threads: Seq<Thread>,
    layout: DetectedLayout,
    identity: IdentityView,
    libc: LocatedLibcView,
) -> bool {
    let all = arena::arenas(&core, &layout, libc.load_addr);
    let tls = tls::tls_of(&core, &layout, libc.load_addr, all, threads);
    &&& report.schema_version == SCHEMA_VERSION
    &&& report.tool_version@ == TOOL_VERSION@
    &&& report.core_path@ == core_path
    &&& report.libc.describes(libc, identity)
    &&& report.glibc_capabilities.describes(layout)
    &&& problem::views(report.problems@) == problem::views(layout.problems@)
        + check::identity_problems(identity) + arena::ring(&core, &layout, libc.load_addr).1
        + tls.cached.problems + arenas::problems_from(
        &core,
        &layout,
        libc.load_addr,
        all,
        tls.cached.owners,
        0,
    )
    &&& arenas::report_all(
        report.arenas@,
        &core,
        &layout,
        libc.load_addr,
        all,
        threads,
        tls,
    )
}

/// Whether `r` is what a core gives whose libc has a layout.
pub open spec fn conclusion_is(
    core: Elf<'_>,
    core_path: Seq<char>,
    threads: Seq<Thread>,
    layout: DetectedLayout,
    identity: IdentityView,
    force_libc: Option<&str>,
    r: Result<Report>,
) -> bool {
    let told = problem::views(layout.problems@);
    match check::fatal_from(told, 0) {
        Some(i) => fails_with(r, error::ErrorView::UnusableLibc(description(told[i]))),
        None => match location(core, identity, force_libc) {
            Err(e) => fails_with(r, e),
            Ok(libc) => match arena::probe(&core, &layout, libc.load_addr) {
                Err(e) => fails_with(r, e),
                Ok(_) => match arenas::failure_from(
                    &core,
                    &layout,
                    libc.load_addr,
                    arena::arenas(&core, &layout, libc.load_addr),
                    0,
                ) {
                    Some(e) => fails_with(r, e),
                    None => r matches Ok(report) && reports_core(
                        report,
                        core,
                        core_path,
                        threads,
                        layout,
                        identity,
                        libc,
                    ),
                },
            },
        },
    }
}

/// Whether `r` is a certain failure.
pub open spec fn fails_with(r: Result<Report>, e: error::ErrorView) -> bool {
    r matches Err(failure) && failure@ == e
}

/// Analyse a core whose threads were read, with the layout and the identity of a
/// libc.
pub fn analyze_with_layout(
    core: &Elf<'_>,
    core_path: &str,
    threads: &Vec<Thread>,
    layout: &DetectedLayout,
    identity: Identity,
    force_libc: Option<&str>,
) -> (r: Result<Report>)
    requires
        layout.is_usable(),
    ensures
        conclusion_is(*core, core_path@, threads@, *layout, identity@, force_libc, r),
{
    // Start the global problem list from detection so MissingRelocation /
    // UnknownGlibcVersion / DuplicateSymbol reach the final report.
    let mut problems = problem::clone_all(&layout.problems);
    if let Some(i) = first_fatal(&problems) {
        assert(problem::views(problems@)[i as int] == problems@[i as int]@);
        return Err(Error::UnusableLibc(describe(&problems[i])));
    }
    push_identity_problem(&identity, &mut problems);
    let located = match find_libc(core, &identity, force_libc) {
        Ok(located) => located,
        Err(e) => return Err(e),
    };
    let libc_addr: u64 = located.load_addr;
    let (all, arena_problems) = match arena::list(core, layout, libc_addr) {
        Ok(v) => v,
        Err(e) => return Err(e),
    };
    problem::extend(&mut problems, arena_problems);
    let (info, tls_problems) = tls::resolve_tls(core, layout, libc_addr, &all, threads);
    problem::extend(&mut problems, tls_problems);
    let reports = match arenas::report_arenas(
        core,
        layout,
        libc_addr,
        &all,
        threads,
        &info,
        &mut problems,
    ) {
        Ok(reports) => reports,
        Err(e) => return Err(e),
    };
    Ok(
        Report {
            schema_version: SCHEMA_VERSION,
            tool_version: TOOL_VERSION.to_owned(),
            core_path: core_path.to_owned(),
            libc: LibcInfo::new(&located, identity),
            glibc_capabilities: GlibcCapabilitiesJson::from_layout(layout),
            problems,
            arenas: reports,
        },
    )
}

/// Whether `r` is what analysing a core with a libc, and its debug file where
/// there is one, gives.
pub open spec fn analysis_is<'a>(
    core: Elf<'_>,
    core_path: Seq<char>,
    reference: Elf<'a>,
    debug: Option<&Elf<'a>>,
    force_libc: Option<&str>,
    r: Result<Report>,
) -> bool {
    let paired = match debug {
        Some(debug) => debuglink::pairing(reference, *debug),
        None => Ok(()),
    };
    match (core_failure(core), paired) {
        (Some(e), _) => fails_with(r, e),
        (None, Err(reason)) => fails_with(r, error::ErrorView::UnusableLibc(reason)),
        (None, Ok(_)) => follows_from_libc(
            core,
            core_path,
            reference,
            debug,
            arch::handler(core.tables.machine)->0,
            force_libc,
            r,
        ),
    }
}

/// Whether `r` is what a core gives with the layout detected in a libc.
pub open spec fn follows_from_libc<'a, A: Arch + ?Sized>(
    core: Elf<'_>,
    core_path: Seq<char>,
    reference: Elf<'a>,
    debug: Option<&Elf<'a>>,
    arch: &A,
    force_libc: Option<&str>,
    r: Result<Report>,
) -> bool {
    let threads = coredump::threads_of(core_notes(core), arch)->Ok_0;
    exists|layout: DetectedLayout| #[trigger]
        detect::detection_is(layout, reference, debug, arch) && conclusion_is(
            core,
            core_path,
            threads,
            layout,
            locate::identity_of(reference),
            force_libc,
            r,
        )
}

/// Analyse a core with the libc that it used.
pub fn analyze_core(
    core: &Elf<'_>,
    core_path: &str,
    reference: &Elf<'_>,
    force_libc: Option<&str>,
) -> (r: Result<Report>)
    ensures
        analysis_is(*core, core_path@, *reference, None, force_libc, r),
{
    analyze_core_with_debug(core, core_path, reference, None, force_libc)
}

/// Analyse a core with the libc that it used, and the separate debug file of that
/// libc where there is one. A debug file that does not belong to the libc is an
/// error.
pub fn analyze_core_with_debug<'a>(
    core: &Elf<'_>,
    core_path: &str,
    reference: &Elf<'a>,
    debug: Option<&Elf<'a>>,
    force_libc: Option<&str>,
) -> (r: Result<Report>)
    ensures
        analysis_is(*core, core_path@, *reference, debug, force_libc, r),
{
    let info = match read_core(core) {
        Ok(info) => info,
        Err(e) => return Err(e),
    };
    if let Some(debug) = debug {
        if let Err(reason) = verify_debug_matches_runtime(reference, debug) {
            return Err(Error::UnusableLibc(reason));
        }
    }
    let arch = match by_elf_machine(core.machine()) {
        Some(arch) => arch,
        None => return Err(Error::UnsupportedArch(core.machine())),
    };
    let layout = DetectedLayout::detect_with_debug(reference, debug, arch);
    let identity = compute_identity(reference);
    let r = analyze_with_layout(core, core_path, &info.threads, &layout, identity, force_libc);
    assert(detect::detection_is(layout, *reference, debug, arch));
    r
}

} // verus!
