//! The views of the types keep what the values hold, each under its own name.

use vstd::prelude::*;

use crate::elf::coredump::MappedFile;
use crate::elf::image::{ElfTables, Section, Symbol};
use crate::elf::notes::Note;
use crate::error::{Error, ErrorView};
use crate::glibc::dwarf::{
    DwarfError, DwarfLayoutError, Findings, Member, Structure, Target, TypeIndex,
};
use crate::locate::{Identity, IdentityView, LocatedLibc};
use crate::problem::{Problem, ProblemView};
use crate::report::model::{IdentityJson, IdentityText};
use crate::text;

verus! {

/// A problem is seen as what it is, with everything that it tells.
pub proof fn law_problems_are_seen_as_they_are(p: Problem)
    ensures
        match p {
            Problem::MissingSymbol { symbol } => p@ == (ProblemView::MissingSymbol {
                symbol: symbol@,
            }),
            Problem::DuplicateSymbol { symbol } => p@ == (ProblemView::DuplicateSymbol {
                symbol: symbol@,
            }),
            Problem::MissingRelocation => p@ is MissingRelocation,
            Problem::UnsupportedArch { machine } => p@ == (ProblemView::UnsupportedArch {
                machine,
            }),
            Problem::MissingBuildId => p@ is MissingBuildId,
            Problem::UnknownGlibcVersion => p@ is UnknownGlibcVersion,
            Problem::DwarfLayoutFallback { reason } => p@ == (ProblemView::DwarfLayoutFallback {
                reason: reason@,
            }),
            Problem::FastbinCycleDetected { arena, bin_index } => p@ == (
            ProblemView::FastbinCycleDetected { arena, bin_index }),
            Problem::FastbinChunkReadFailed { arena, bin_index, address } => p@ == (
            ProblemView::FastbinChunkReadFailed { arena, bin_index, address: address@ }),
            Problem::TcacheCycleDetected { thread_id, bin_index } => p@ == (
            ProblemView::TcacheCycleDetected { thread_id, bin_index }),
            Problem::TcacheChunkReadFailed { thread_id, bin_index, address } => p@ == (
            ProblemView::TcacheChunkReadFailed { thread_id, bin_index, address: address@ }),
            Problem::DuplicateTcacheEntry { thread_id, bin_index, address } => p@ == (
            ProblemView::DuplicateTcacheEntry { thread_id, bin_index, address: address@ }),
            Problem::ChunkReadFailed { arena, address } => p@ == (ProblemView::ChunkReadFailed {
                arena,
                address: address@,
            }),
            Problem::HeapWalkTruncated { arena, reason } => p@ == (
            ProblemView::HeapWalkTruncated { arena, reason: reason@ }),
            Problem::StatsInconsistent { arena, size, reason } => p@ == (
            ProblemView::StatsInconsistent { arena, size, reason: reason@ }),
            Problem::ThreadTlsResolutionFailed { thread_id } => p@ == (
            ProblemView::ThreadTlsResolutionFailed { thread_id }),
        },
        p@.fatal() <==> p is MissingSymbol || p is UnsupportedArch,
{
}

/// An error is seen as what it is, with everything that it tells.
pub proof fn law_errors_are_seen_as_they_are(e: Error)
    ensures
        match e {
            Error::Io { path, source } => e@ == (ErrorView::Io { path: path@, source: source@ }),
            Error::NotElf { path } => e@ == (ErrorView::NotElf { path: path@ }),
            Error::ElfParse(text) => e@ == ErrorView::ElfParse(text@),
            Error::UnsupportedArch(machine) => e@ == ErrorView::UnsupportedArch(machine),
            Error::NoteTooShort { expected, actual } => e@ == (ErrorView::NoteTooShort {
                expected: expected as nat,
                actual: actual as nat,
            }),
            Error::LibcNotFound(text) => e@ == ErrorView::LibcNotFound(text@),
            Error::AddressNotMapped { addr } => e@ == (ErrorView::AddressNotMapped { addr }),
            Error::MissingSymbol(name) => e@ == ErrorView::MissingSymbol(name@),
            Error::UnusableLibc(text) => e@ == ErrorView::UnusableLibc(text@),
            Error::Json(text) => e@ == ErrorView::Json(text@),
        },
{
}

/// Every error is worded for its kind, with what it is about.
pub proof fn law_errors_are_worded(
    path: Seq<char>,
    what: Seq<char>,
    machine: u16,
    addr: u64,
    expected: nat,
    actual: nat,
)
    ensures
        (ErrorView::Io { path, source: what }).message() == "failed to read "@ + path + ": "@
            + what,
        (ErrorView::NotElf { path }).message() == path + " is not a valid ELF file"@,
        ErrorView::ElfParse(what).message() == "failed to parse ELF data: "@ + what,
        ErrorView::UnsupportedArch(machine).message() == "unsupported architecture: e_machine="@
            + text::hex(machine as nat),
        (ErrorView::NoteTooShort { expected, actual }).message()
            == "note data too short: expected at least "@ + text::decimal(expected)
            + " bytes, got "@ + text::decimal(actual),
        ErrorView::LibcNotFound(what).message() == "could not locate libc in the core dump: "@
            + what,
        (ErrorView::AddressNotMapped { addr }).message() == "address "@ + text::hex(addr as nat)
            + " is not backed by file content in any loaded segment"@,
        ErrorView::MissingSymbol(what).message() == "required glibc symbol '"@ + what
            + "' not found in reference libc"@,
        ErrorView::UnusableLibc(what).message() == "reference libc is unusable: "@ + what,
        ErrorView::Json(what).message() == "failed to serialize JSON: "@ + what,
{
}

/// An error of the debug information is seen as what it is and worded for its kind.
pub proof fn law_debug_errors_are_worded(e: DwarfLayoutError, s: Seq<char>, what: Seq<char>)
    ensures
        match e {
            DwarfLayoutError::Unavailable => e@ is Unavailable,
            DwarfLayoutError::Unsupported(text) => e@ == DwarfError::Unsupported(text@),
            DwarfLayoutError::Limit(text) => e@ == DwarfError::Limit(text@),
            DwarfLayoutError::Invalid(text) => e@ == DwarfError::Invalid(text@),
            DwarfLayoutError::Parse(_) => e@ is Parse,
        },
        DwarfError::Unavailable.explained_by(s) <==> s == "DWARF debug_info is unavailable"@,
        DwarfError::Unsupported(what).explained_by(s) <==> s == "unsupported DWARF feature: "@
            + what,
        DwarfError::Limit(what).explained_by(s) <==> s == "DWARF resource limit exceeded: "@
            + what,
        DwarfError::Invalid(what).explained_by(s) <==> s == "invalid DWARF malloc layout: "@
            + what,
        DwarfError::Parse.explained_by("failed to parse DWARF: "@ + what),
{
    let parsed = "failed to parse DWARF: "@;
    assert((parsed + what).take(parsed.len() as int) =~= parsed);
}

/// Mapped files, notes and libcs are seen with their own fields.
pub proof fn law_mappings_are_seen_as_they_are(
    file: MappedFile,
    note: Note<'_>,
    libc: LocatedLibc,
    identity: Identity,
    shown: IdentityJson,
)
    ensures
        file@.start == file.start,
        file@.end == file.end,
        file@.file_offset == file.file_offset,
        file@.path == file.path@,
        note@.name == note.name@,
        note@.note_type == note.note_type,
        note@.desc == note.desc@,
        libc@.load_addr == libc.load_addr,
        libc@.path == libc.path@,
        libc@.verified == libc.verified,
        identity matches Identity::BuildId(id) ==> identity@ == IdentityView::BuildId(id@),
        identity matches Identity::ContentHash(hash) ==> identity@ == IdentityView::ContentHash(
            hash@,
        ),
        shown matches IdentityJson::BuildId { value } ==> shown@ == IdentityText::BuildId(value@),
        shown matches IdentityJson::ContentHash { value } ==> shown@ == IdentityText::ContentHash(
            value@,
        ),
{
}

/// The tables of a file are seen entry by entry, with their own fields.
pub proof fn law_tables_are_seen_as_they_are(
    tables: ElfTables,
    section: Section,
    symbol: Symbol,
    i: int,
    j: int,
)
    ensures
        section@.name is Some <==> section.name is Some,
        section.name matches Some(name) ==> section@.name == Some(name@),
        section@.sh_type == section.sh_type,
        section@.sh_flags == section.sh_flags,
        section@.sh_offset == section.sh_offset,
        section@.sh_size == section.sh_size,
        symbol@.name is Some <==> symbol.name is Some,
        symbol.name matches Some(name) ==> symbol@.name == Some(name@),
        symbol@.shndx == symbol.shndx,
        symbol@.value == symbol.value,
        symbol@.size == symbol.size,
        tables@.is_64 == tables.is_64,
        tables@.little_endian == tables.little_endian,
        tables@.machine == tables.machine,
        tables@.program_headers == tables.program_headers@,
        tables@.relocations == tables.relocations@,
        tables@.sections.len() == tables.sections@.len(),
        0 <= i < tables.sections@.len() ==> tables@.sections[i] == tables.sections@[i]@,
        tables@.symbols.len() == tables.symbols@.len(),
        0 <= i < tables.symbols@.len() ==> tables@.symbols[i] == tables.symbols@[i]@,
        tables@.versions.len() == tables.versions@.len(),
        0 <= i < tables.versions@.len() ==> tables@.versions[i].len()
            == tables.versions@[i]@.len(),
        0 <= i < tables.versions@.len() && 0 <= j < tables.versions@[i]@.len() ==> {
            &&& tables@.versions[i][j] is Some <==> tables.versions@[i]@[j] is Some
            &&& tables.versions@[i]@[j] matches Some(name) ==> tables@.versions[i][j] == Some(
                name@,
            )
        },
{
}

/// What is found of structures is seen with its own fields.
pub proof fn law_findings_are_seen_as_they_are(
    member: Member,
    structure: Structure,
    findings: Findings,
    index: TypeIndex,
    i: int,
)
    ensures
        member@.name == member.name@,
        member@.offset == member.offset,
        member@.ty == member.ty,
        structure@.byte_size == structure.byte_size,
        structure@.members.len() == structure.members@.len(),
        0 <= i < structure.members@.len() ==> structure@.members[i] == structure.members@[i]@,
        findings@.candidates is Some <==> findings.candidates is Some,
        findings.candidates matches Some(all) ==> {
            &&& findings@.candidates->0.len() == all@.len()
            &&& 0 <= i < all@.len() ==> findings@.candidates->0[i] == all@[i]@
        },
        findings@.error is Some <==> findings.error is Some,
        findings.error matches Some(e) ==> findings@.error == Some(e@),
        index@.of(Target::MallocState) == index.malloc_state@,
        index@.of(Target::MallocPar) == index.malloc_par@,
        index@.of(Target::HeapInfo) == index.heap_info@,
        index@.of(Target::Tcache) == index.tcache@,
        index@.malloc_state == index.malloc_state@,
        index@.malloc_par == index.malloc_par@,
        index@.heap_info == index.heap_info@,
        index@.tcache == index.tcache@,
{
}

} // verus!
