//! Searching the units for the malloc structures.

use vstd::prelude::*;

use crate::elf::Elf;

use super::assemble;
use super::assemble::assemble_layout;
use super::reader;
use super::reader::{
    entries, has_split_name, load_dwarf, next_die, parse_error, read_header, DieAt, DwarfInfo, UnitHeader,
    UnitKind, DW_TAG_CLASS_TYPE, DW_TAG_STRUCTURE_TYPE, DW_TAG_TYPEDEF,
};
use super::sections;
use super::sections::{load_sections, SectionStore, Sections};
use super::structures;
use super::structures::{parse_structure, target_name};
use super::types;
use super::types::{entry_name, load_unit, resolve_structure, Context, LoadedUnit};
use super::{
    DwarfError, DwarfLayout, DwarfLayoutError, Findings, FindingsView, Outcome, Structure,
    StructureView, Target, TypeIndex, TypeIndexView,
};

verus! {

// Debuginfo is outside input, so every walk and allocation has a fixed bound.
pub const MAX_DIES: u64 = 2_000_000;

pub const MAX_UNITS: usize = 200_000;

pub const MAX_TARGET_CANDIDATES: usize = 4_096;

impl FindingsView {
    /// With one more definition.
    pub open spec fn with_candidate(self, structure: StructureView) -> FindingsView {
        FindingsView {
            candidates: Some(
                match self.candidates {
                    Some(found) => found.push(structure),
                    None => seq![structure],
                },
            ),
            ..self
        }
    }

    /// With an error, unless there is one already.
    pub open spec fn with_error(self, error: DwarfError) -> FindingsView {
        FindingsView {
            error: if self.error is Some {
                self.error
            } else {
                Some(error)
            },
            ..self
        }
    }
}

impl TypeIndexView {
    /// With other findings of a target.
    pub open spec fn with(self, target: Target, findings: FindingsView) -> TypeIndexView {
        match target {
            Target::MallocState => TypeIndexView { malloc_state: findings, ..self },
            Target::MallocPar => TypeIndexView { malloc_par: findings, ..self },
            Target::HeapInfo => TypeIndexView { heap_info: findings, ..self },
            Target::Tcache => TypeIndexView { tcache: findings, ..self },
        }
    }
}

impl Findings {
    /// Keep one more definition.
    pub fn add_candidate(&mut self, structure: Structure)
        ensures
            final(self)@ == old(self)@.with_candidate(structure@),
    {
        let mut found: Vec<Structure> = match self.candidates.take() {
            Some(found) => found,
            None => Vec::new(),
        };
        let ghost before = found@;
        found.push(structure);
        proof {
            assert(super::structure_views(found@) =~= super::structure_views(before).push(
                structure@,
            ));
            assert(super::structure_views(Seq::empty()).push(structure@) =~= seq![structure@]);
        }
        self.candidates = Some(found);
    }

    /// Keep an error, unless there is one already.
    pub fn add_error(&mut self, error: DwarfLayoutError)
        ensures
            final(self)@ == old(self)@.with_error(error@),
    {
        if self.error.is_none() {
            self.error = Some(error);
        }
    }
}

impl TypeIndex {
    /// Keep one more definition of a target.
    pub fn add_candidate(&mut self, target: Target, structure: Structure)
        ensures
            final(self)@ == old(self)@.with(
                target,
                old(self)@.of(target).with_candidate(structure@),
            ),
    {
        match target {
            Target::MallocState => self.malloc_state.add_candidate(structure),
            Target::MallocPar => self.malloc_par.add_candidate(structure),
            Target::HeapInfo => self.heap_info.add_candidate(structure),
            Target::Tcache => self.tcache.add_candidate(structure),
        }
    }

    /// Keep an error of a target, unless there is one already.
    pub fn add_error(&mut self, target: Target, error: DwarfLayoutError)
        ensures
            final(self)@ == old(self)@.with(target, old(self)@.of(target).with_error(error@)),
    {
        match target {
            Target::MallocState => self.malloc_state.add_error(error),
            Target::MallocPar => self.malloc_par.add_error(error),
            Target::HeapInfo => self.heap_info.add_error(error),
            Target::Tcache => self.tcache.add_error(error),
        }
    }
}

/// Entries met so far, candidates among them, and those of the current unit.
#[verifier::ext_equal]
pub struct Hits {
    pub dies: u64,
    pub candidates: usize,
    pub found: Seq<(Target, usize)>,
}

/// Tags of the entries that may define a target.
pub open spec fn may_define(tag: u16) -> bool {
    tag == DW_TAG_STRUCTURE_TYPE || tag == DW_TAG_CLASS_TYPE || tag == DW_TAG_TYPEDEF
}

/// The target that an entry is named after, if any.
pub open spec fn target_at(sections: Sections, unit: UnitHeader, die: DieAt) -> std::result::Result<
    Option<Target>,
    DwarfError,
> {
    if !may_define(die.tag) {
        Ok(None)
    } else {
        match types::name_of(sections, unit, die.offset) {
            Err(e) => Err(e),
            Ok(None) => Ok(None),
            Ok(Some(name)) => Ok(structures::target_of(name)),
        }
    }
}

impl Hits {
    /// With one more entry of a unit.
    pub open spec fn with(
        self,
        sections: Sections,
        unit: UnitHeader,
        die: DieAt,
    ) -> std::result::Result<Hits, DwarfError> {
        if self.dies >= MAX_DIES {
            Err(DwarfError::Limit("DIE count"@))
        } else {
            match target_at(sections, unit, die) {
                Err(e) => Err(e),
                Ok(None) => Ok(Hits { dies: (self.dies + 1) as u64, ..self }),
                Ok(Some(target)) => if self.candidates >= MAX_TARGET_CANDIDATES {
                    Err(DwarfError::Limit("target type candidates"@))
                } else {
                    Ok(
                        Hits {
                            dies: (self.dies + 1) as u64,
                            candidates: (self.candidates + 1) as usize,
                            found: self.found.push((target, die.offset)),
                        },
                    )
                },
            }
        }
    }
}

/// The hits in a unit from entry `i` on, added to those met so far.
pub open spec fn hits_from(
    sections: Sections,
    unit: UnitHeader,
    dies: Seq<DieAt>,
    broken: bool,
    i: int,
    hits: Hits,
) -> std::result::Result<Hits, DwarfError>
    decreases dies.len() - i,
{
    if i < 0 || i >= dies.len() {
        if broken {
            Err(DwarfError::Parse)
        } else {
            Ok(hits)
        }
    } else {
        match hits.with(sections, unit, dies[i]) {
            Err(e) => Err(e),
            Ok(next) => hits_from(sections, unit, dies, broken, i + 1, next),
        }
    }
}

/// The hits in a unit, behind `dies` entries and `candidates` candidates before.
pub open spec fn hits_in(
    sections: Sections,
    unit: UnitHeader,
    dies: u64,
    candidates: usize,
) -> std::result::Result<Hits, DwarfError> {
    let walk = reader::dies_in(sections, unit.offset);
    hits_from(
        sections,
        unit,
        walk.0,
        walk.1,
        0,
        Hits { dies, candidates, found: Seq::empty() },
    )
}

/// The structure that a hit stands for, in a unit that can be loaded.
pub open spec fn definition_of(
    sections: Sections,
    headers: Seq<UnitHeader>,
    unit: UnitHeader,
    die: usize,
) -> std::result::Result<(UnitHeader, usize), DwarfError> {
    match types::structure_of(sections, headers, unit, die, 0, Seq::empty()) {
        Err(e) => Err(e),
        Ok(place) => if types::unit_at(sections, place.0.offset) is None {
            Err(DwarfError::Parse)
        } else {
            Ok(place)
        },
    }
}

/// What the hits from index `i` on add to an index. A definition that was `seen`
/// is not read again; a broken one leaves an error, but a limit ends the search.
pub open spec fn indexed_from(
    sections: Sections,
    headers: Seq<UnitHeader>,
    unit: UnitHeader,
    found: Seq<(Target, usize)>,
    i: int,
    seen: Seq<(Target, usize, usize)>,
    index: TypeIndexView,
) -> std::result::Result<TypeIndexView, DwarfError>
    decreases found.len() - i,
{
    if i < 0 || i >= found.len() {
        Ok(index)
    } else {
        let target = found[i].0;
        match definition_of(sections, headers, unit, found[i].1) {
            Err(e) => if e is Limit {
                Err(e)
            } else {
                indexed_from(
                    sections,
                    headers,
                    unit,
                    found,
                    i + 1,
                    seen,
                    index.with(target, index.of(target).with_error(e)),
                )
            },
            Ok((owner, die)) => {
                let id = (target, owner.offset, die);
                if seen.contains(id) {
                    indexed_from(sections, headers, unit, found, i + 1, seen, index)
                } else {
                    match structures::structure_at(sections, headers, owner, die, target) {
                        Err(e) => if e is Limit {
                            Err(e)
                        } else {
                            indexed_from(
                                sections,
                                headers,
                                unit,
                                found,
                                i + 1,
                                seen.push(id),
                                index.with(target, index.of(target).with_error(e)),
                            )
                        },
                        Ok(structure) => indexed_from(
                            sections,
                            headers,
                            unit,
                            found,
                            i + 1,
                            seen.push(id),
                            index.with(target, index.of(target).with_candidate(structure)),
                        ),
                    }
                }
            },
        }
    }
}

/// The running totals of a search.
#[verifier::ext_equal]
pub struct Progress {
    pub dies: u64,
    pub candidates: usize,
    pub index: TypeIndexView,
}

/// The search through one unit.
pub open spec fn scanned(
    sections: Sections,
    headers: Seq<UnitHeader>,
    unit: UnitHeader,
    progress: Progress,
) -> std::result::Result<Progress, DwarfError> {
    match hits_in(sections, unit, progress.dies, progress.candidates) {
        Err(e) => Err(e),
        Ok(hits) => match indexed_from(
            sections,
            headers,
            unit,
            hits.found,
            0,
            Seq::empty(),
            progress.index,
        ) {
            Err(e) => Err(e),
            Ok(index) => Ok(Progress { dies: hits.dies, candidates: hits.candidates, index }),
        },
    }
}

fn hit<'a>(context: &Context<'_, 'a>, unit: &LoadedUnit<'a>, die: DieAt) -> (r: Outcome<
    Option<Target>,
>)
    requires
        unit.wf(),
        unit.sections() == context.sections(),
    ensures
        super::outcome(r) == target_at(unit.sections(), unit.header, die),
{
    if die.tag != DW_TAG_STRUCTURE_TYPE && die.tag != DW_TAG_CLASS_TYPE && die.tag
        != DW_TAG_TYPEDEF {
        return Ok(None);
    }
    match entry_name(context.dwarf, unit, die.offset) {
        Ok(Some(name)) => Ok(target_name(&name)),
        Ok(None) => Ok(None),
        Err(e) => Err(e),
    }
}

fn find_hits<'a>(
    context: &Context<'_, 'a>,
    unit: &LoadedUnit<'a>,
    dies: &mut u64,
    candidate_count: &mut usize,
) -> (r: Outcome<Vec<(Target, usize)>>)
    requires
        unit.wf(),
        unit.sections() == context.sections(),
    ensures
        match r {
            Ok(found) => hits_in(
                unit.sections(),
                unit.header,
                *old(dies),
                *old(candidate_count),
            ) == Ok::<Hits, DwarfError>(
                Hits { dies: *final(dies), candidates: *final(candidate_count), found: found@ },
            ),
            Err(e) => hits_in(
                unit.sections(),
                unit.header,
                *old(dies),
                *old(candidate_count),
            ) == Err::<Hits, DwarfError>(e@),
        },
{
    let mut found: Vec<(Target, usize)> = Vec::new();
    let mut walk = entries(&unit.unit);
    let ghost (all, broken) = reader::cursor_rest(walk);
    let ghost whole = hits_in(unit.sections(), unit.header, *old(dies), *old(candidate_count));
    let ghost mut i: int = 0;
    assert(all.skip(0) =~= all);
    assert(found@ =~= Seq::empty());
    loop
        invariant
            unit.wf(),
            unit.sections() == context.sections(),
            0 <= i <= all.len(),
            reader::cursor_rest(walk) == (all.skip(i), broken),
            whole == hits_in(unit.sections(), unit.header, *old(dies), *old(candidate_count)),
            hits_from(
                unit.sections(),
                unit.header,
                all,
                broken,
                i,
                Hits { dies: *dies, candidates: *candidate_count, found: found@ },
            ) == whole,
        decreases all.len() - i,
    {
        let die: DieAt = match next_die(&mut walk) {
            Ok(Some(die)) => die,
            Ok(None) => return Ok(found),
            Err(e) => return Err(parse_error(e)),
        };
        proof {
            assert(die == all[i]);
            assert(all.skip(i).skip(1) =~= all.skip(i + 1));
            i = i + 1;
        }
        if *dies >= MAX_DIES {
            return Err(DwarfLayoutError::Limit("DIE count"));
        }
        *dies = *dies + 1;
        match hit(context, unit, die) {
            Ok(Some(target)) => {
                if *candidate_count >= MAX_TARGET_CANDIDATES {
                    return Err(DwarfLayoutError::Limit("target type candidates"));
                }
                *candidate_count = *candidate_count + 1;
                found.push((target, die.offset));
            },
            Ok(None) => {},
            Err(e) => return Err(e),
        }
    }
}

/// Whether a definition was met before; if not, it now was.
fn meet_definition(seen: &mut Vec<(Target, usize, usize)>, id: (Target, usize, usize)) -> (fresh:
    bool)
    ensures
        fresh == !old(seen)@.contains(id),
        fresh ==> final(seen)@ == old(seen)@.push(id),
        !fresh ==> final(seen)@ == old(seen)@,
{
    let mut i: usize = 0;
    while i < seen.len()
        invariant
            i <= seen@.len(),
            seen@ == old(seen)@,
            forall|k: int| 0 <= k < i ==> seen@[k] != id,
        decreases seen@.len() - i,
    {
        if seen[i].0 == id.0 && seen[i].1 == id.1 && seen[i].2 == id.2 {
            assert(seen@[i as int] == id);
            return false;
        }
        i = i + 1;
    }
    seen.push(id);
    true
}

/// Load the structure that a hit stands for.
fn find_definition<'a>(context: &Context<'_, 'a>, unit: &LoadedUnit<'a>, die: usize) -> (r: Outcome<
    (LoadedUnit<'a>, usize),
>)
    requires
        context.wf(),
        unit.wf(),
        unit.sections() == context.sections(),
    ensures
        match r {
            Ok(v) => {
                &&& v.0.wf()
                &&& v.0.sections() == context.sections()
                &&& definition_of(context.sections(), context.headers@, unit.header, die) == Ok::<
                    (UnitHeader, usize),
                    DwarfError,
                >((v.0.header, v.1))
            },
            Err(e) => definition_of(context.sections(), context.headers@, unit.header, die)
                == Err::<(UnitHeader, usize), DwarfError>(e@),
        },
{
    let mut visited: Vec<(usize, usize)> = Vec::new();
    let (header, structure): (UnitHeader, usize) = match resolve_structure(
        context,
        unit,
        die,
        0,
        &mut visited,
    ) {
        Ok(place) => place,
        Err(e) => return Err(e),
    };
    match load_unit(context.dwarf, header) {
        Ok((owner, _)) => Ok((owner, structure)),
        Err(e) => Err(e),
    }
}

/// Search one unit for definitions of the targets and add them to the index.
pub fn scan_unit<'a>(
    context: &Context<'_, 'a>,
    unit: &LoadedUnit<'a>,
    dies: &mut u64,
    candidate_count: &mut usize,
    index: &mut TypeIndex,
) -> (r: Outcome<()>)
    requires
        context.wf(),
        unit.wf(),
        unit.sections() == context.sections(),
    ensures
        ({
            let start = Progress {
                dies: *old(dies),
                candidates: *old(candidate_count),
                index: old(index)@,
            };
            let want = scanned(context.sections(), context.headers@, unit.header, start);
            match r {
                Ok(_) => want == Ok::<Progress, DwarfError>(
                    Progress {
                        dies: *final(dies),
                        candidates: *final(candidate_count),
                        index: final(index)@,
                    },
                ),
                Err(e) => want == Err::<Progress, DwarfError>(e@),
            }
        }),
{
    let found: Vec<(Target, usize)> = match find_hits(context, unit, dies, candidate_count) {
        Ok(found) => found,
        Err(e) => return Err(e),
    };
    let ghost whole = indexed_from(
        context.sections(),
        context.headers@,
        unit.header,
        found@,
        0,
        Seq::empty(),
        old(index)@,
    );
    let mut seen: Vec<(Target, usize, usize)> = Vec::new();
    let mut i: usize = 0;
    assert(seen@ =~= Seq::empty());
    while i < found.len()
        invariant
            i <= found@.len(),
            context.wf(),
            unit.wf(),
            unit.sections() == context.sections(),
            hits_in(unit.sections(), unit.header, *old(dies), *old(candidate_count)) == Ok::<
                Hits,
                DwarfError,
            >(Hits { dies: *dies, candidates: *candidate_count, found: found@ }),
            whole == indexed_from(
                context.sections(),
                context.headers@,
                unit.header,
                found@,
                0,
                Seq::empty(),
                old(index)@,
            ),
            indexed_from(
                context.sections(),
                context.headers@,
                unit.header,
                found@,
                i as int,
                seen@,
                index@,
            ) == whole,
        decreases found@.len() - i,
    {
        let (target, die): (Target, usize) = found[i];
        i = i + 1;
        match find_definition(context, unit, die) {
            Ok((owner, structure_die)) => {
                if meet_definition(&mut seen, (target, owner.header.offset, structure_die)) {
                    match parse_structure(context, &owner, structure_die, target) {
                        Ok(structure) => index.add_candidate(target, structure),
                        Err(DwarfLayoutError::Limit(what)) => {
                            return Err(DwarfLayoutError::Limit(what));
                        },
                        Err(error) => index.add_error(target, error),
                    }
                }
            },
            Err(DwarfLayoutError::Limit(what)) => return Err(DwarfLayoutError::Limit(what)),
            Err(error) => index.add_error(target, error),
        }
    }
    Ok(())
}

/// The headers of the units from an offset on, behind those met so far.
pub open spec fn headers_from(sections: Sections, offset: int, met: Seq<UnitHeader>) -> std::result::Result<
    Seq<UnitHeader>,
    DwarfError,
>
    decreases MAX_UNITS + 1 - met.len(),
{
    if offset >= sections::bytes_of(sections, ".debug_info"@).len() {
        Ok(met)
    } else {
        match reader::header_in(sections, offset as usize) {
            None => Err(DwarfError::Parse),
            Some(header) => if met.len() >= MAX_UNITS {
                Err(DwarfError::Limit("unit count"@))
            } else {
                match header.kind {
                    UnitKind::Type => Err(DwarfError::Unsupported("type unit"@)),
                    UnitKind::SplitType => Err(DwarfError::Unsupported("type unit"@)),
                    UnitKind::Skeleton => Err(DwarfError::Unsupported("split DWARF"@)),
                    UnitKind::SplitCompilation => Err(DwarfError::Unsupported("split DWARF"@)),
                    _ => headers_from(sections, offset + header.length, met.push(header)),
                }
            },
        }
    }
}

fn read_headers(dwarf: &DwarfInfo<'_>, info_len: usize) -> (r: Outcome<Vec<UnitHeader>>)
    requires
        info_len == sections::bytes_of(reader::sections_in(*dwarf), ".debug_info"@).len(),
    ensures
        match r {
            Ok(headers) => types::ascending(headers@) && headers_from(
                reader::sections_in(*dwarf),
                0,
                Seq::empty(),
            ) == Ok::<Seq<UnitHeader>, DwarfError>(headers@),
            Err(e) => headers_from(reader::sections_in(*dwarf), 0, Seq::empty()) == Err::<
                Seq<UnitHeader>,
                DwarfError,
            >(e@),
        },
{
    let mut headers: Vec<UnitHeader> = Vec::new();
    let mut offset: usize = 0;
    assert(headers@ =~= Seq::empty());
    while offset < info_len
        invariant
            offset <= info_len,
            info_len == sections::bytes_of(reader::sections_in(*dwarf), ".debug_info"@).len(),
            headers@.len() <= MAX_UNITS,
            types::ascending(headers@),
            forall|k: int| 0 <= k < headers@.len() ==> (#[trigger] headers@[k]).offset < offset,
            headers_from(reader::sections_in(*dwarf), offset as int, headers@) == headers_from(
                reader::sections_in(*dwarf),
                0,
                Seq::empty(),
            ),
        decreases info_len - offset,
    {
        let header: UnitHeader = match read_header(dwarf, offset) {
            Ok(header) => header,
            Err(e) => return Err(parse_error(e)),
        };
        if headers.len() >= MAX_UNITS {
            return Err(DwarfLayoutError::Limit("unit count"));
        }
        match header.kind {
            UnitKind::Compilation | UnitKind::Partial => {},
            UnitKind::Type | UnitKind::SplitType => {
                return Err(DwarfLayoutError::Unsupported("type unit"));
            },
            UnitKind::Skeleton | UnitKind::SplitCompilation => {
                return Err(DwarfLayoutError::Unsupported("split DWARF"));
            },
        }
        offset = offset + header.length;
        headers.push(header);
    }
    Ok(headers)
}

/// The search through the units from index `i` on.
pub open spec fn searched_from(
    sections: Sections,
    headers: Seq<UnitHeader>,
    i: int,
    progress: Progress,
) -> std::result::Result<TypeIndexView, DwarfError>
    decreases headers.len() - i,
{
    if i < 0 || i >= headers.len() {
        Ok(progress.index)
    } else {
        match (
            types::unit_at(sections, headers[i].offset),
            reader::split_name_in(sections, headers[i].offset),
        ) {
            (None, _) => Err(DwarfError::Parse),
            (Some(true), _) => Err(DwarfError::Unsupported("split DWARF"@)),
            (Some(false), None) => Err(DwarfError::Parse),
            (Some(false), Some(true)) => Err(DwarfError::Unsupported("split DWARF"@)),
            (Some(false), Some(false)) => match scanned(sections, headers, headers[i], progress) {
                Err(e) => Err(e),
                Ok(next) => searched_from(sections, headers, i + 1, next),
            },
        }
    }
}

/// An index with nothing found.
pub open spec fn empty_index() -> TypeIndexView {
    TypeIndexView {
        malloc_state: FindingsView::nothing(),
        malloc_par: FindingsView::nothing(),
        heap_info: FindingsView::nothing(),
        tcache: FindingsView::nothing(),
    }
}

/// Everything that units define of the targets.
pub open spec fn searched(sections: Sections, headers: Seq<UnitHeader>) -> std::result::Result<
    TypeIndexView,
    DwarfError,
> {
    searched_from(sections, headers, 0, Progress { dies: 0, candidates: 0, index: empty_index() })
}

/// Entries in the first `n` units.
pub open spec fn entry_count(sections: Sections, headers: Seq<UnitHeader>, n: int) -> nat
    decreases n,
{
    if n <= 0 {
        0
    } else {
        entry_count(sections, headers, n - 1) + reader::dies_in(
            sections,
            headers[n - 1].offset,
        ).0.len()
    }
}

impl FindingsView {
    /// Definitions that were found.
    pub open spec fn count(self) -> nat {
        match self.candidates {
            Some(found) => found.len(),
            None => 0,
        }
    }
}

impl TypeIndexView {
    /// Definitions that were found, of all targets.
    pub open spec fn count(self) -> nat {
        self.malloc_state.count() + self.malloc_par.count() + self.heap_info.count()
            + self.tcache.count()
    }
}

proof fn lemma_hits_are_bounded(
    sections: Sections,
    unit: UnitHeader,
    dies: Seq<DieAt>,
    broken: bool,
    i: int,
    hits: Hits,
)
    requires
        0 <= i <= dies.len(),
        hits.dies <= MAX_DIES,
        hits.candidates <= MAX_TARGET_CANDIDATES,
    ensures
        hits_from(sections, unit, dies, broken, i, hits) matches Ok(all) ==> {
            &&& all.dies == hits.dies + dies.len() - i
            &&& all.dies <= MAX_DIES
            &&& all.candidates <= MAX_TARGET_CANDIDATES
            &&& all.candidates - hits.candidates == all.found.len() - hits.found.len()
        },
    decreases dies.len() - i,
{
    if i < dies.len() {
        if let Ok(next) = hits.with(sections, unit, dies[i]) {
            lemma_hits_are_bounded(sections, unit, dies, broken, i + 1, next);
        }
    }
}

proof fn lemma_index_grows_by_hits(
    sections: Sections,
    headers: Seq<UnitHeader>,
    unit: UnitHeader,
    found: Seq<(Target, usize)>,
    i: int,
    seen: Seq<(Target, usize, usize)>,
    index: TypeIndexView,
)
    requires
        0 <= i <= found.len(),
    ensures
        indexed_from(sections, headers, unit, found, i, seen, index) matches Ok(all)
            ==> all.count() <= index.count() + found.len() - i,
    decreases found.len() - i,
{
    if i < found.len() {
        let target = found[i].0;
        match definition_of(sections, headers, unit, found[i].1) {
            Err(e) => {
                lemma_index_grows_by_hits(
                    sections,
                    headers,
                    unit,
                    found,
                    i + 1,
                    seen,
                    index.with(target, index.of(target).with_error(e)),
                );
            },
            Ok((owner, die)) => {
                let id = (target, owner.offset, die);
                lemma_index_grows_by_hits(sections, headers, unit, found, i + 1, seen, index);
                match structures::structure_at(sections, headers, owner, die, target) {
                    Err(e) => lemma_index_grows_by_hits(
                        sections,
                        headers,
                        unit,
                        found,
                        i + 1,
                        seen.push(id),
                        index.with(target, index.of(target).with_error(e)),
                    ),
                    Ok(structure) => lemma_index_grows_by_hits(
                        sections,
                        headers,
                        unit,
                        found,
                        i + 1,
                        seen.push(id),
                        index.with(target, index.of(target).with_candidate(structure)),
                    ),
                }
            },
        }
    }
}

proof fn lemma_search_is_bounded(
    sections: Sections,
    headers: Seq<UnitHeader>,
    i: int,
    progress: Progress,
)
    requires
        0 <= i <= headers.len(),
        progress.dies == entry_count(sections, headers, i) <= MAX_DIES,
        progress.index.count() <= progress.candidates <= MAX_TARGET_CANDIDATES,
    ensures
        searched_from(sections, headers, i, progress) matches Ok(index) ==> {
            &&& entry_count(sections, headers, headers.len() as int) <= MAX_DIES
            &&& index.count() <= MAX_TARGET_CANDIDATES
        },
    decreases headers.len() - i,
{
    if i < headers.len() {
        let unit = headers[i];
        let walk = reader::dies_in(sections, unit.offset);
        let start = Hits {
            dies: progress.dies,
            candidates: progress.candidates,
            found: Seq::empty(),
        };
        lemma_hits_are_bounded(sections, unit, walk.0, walk.1, 0, start);
        if let Ok(hits) = hits_in(sections, unit, progress.dies, progress.candidates) {
            lemma_index_grows_by_hits(
                sections,
                headers,
                unit,
                hits.found,
                0,
                Seq::empty(),
                progress.index,
            );
        }
        if let Ok(next) = scanned(sections, headers, unit, progress) {
            lemma_search_is_bounded(sections, headers, i + 1, next);
        }
    }
}

proof fn lemma_headers_are_bounded(sections: Sections, offset: int, met: Seq<UnitHeader>)
    requires
        met.len() <= MAX_UNITS,
    ensures
        headers_from(sections, offset, met) matches Ok(headers) ==> headers.len() <= MAX_UNITS,
    decreases MAX_UNITS + 1 - met.len(),
{
    if offset < sections::bytes_of(sections, ".debug_info"@).len() {
        if let Some(header) = reader::header_in(sections, offset as usize) {
            if met.len() < MAX_UNITS {
                lemma_headers_are_bounded(sections, offset + header.length, met.push(header));
            }
        }
    }
}

/// Debuginfo of any size is searched within fixed bounds: a search that succeeds
/// went through a bounded number of units and of entries, and kept a bounded
/// number of definitions.
pub proof fn law_search_is_bounded(
    sections: Sections,
    headers: Seq<UnitHeader>,
    index: TypeIndexView,
)
    requires
        headers_from(sections, 0, Seq::empty()) == Ok::<Seq<UnitHeader>, DwarfError>(headers),
        searched(sections, headers) == Ok::<TypeIndexView, DwarfError>(index),
    ensures
        headers.len() <= MAX_UNITS,
        entry_count(sections, headers, headers.len() as int) <= MAX_DIES,
        index.count() <= MAX_TARGET_CANDIDATES,
{
    lemma_headers_are_bounded(sections, 0, Seq::empty());
    lemma_search_is_bounded(
        sections,
        headers,
        0,
        Progress { dies: 0, candidates: 0, index: empty_index() },
    );
}

fn search(context: &Context<'_, '_>) -> (r: Outcome<TypeIndex>)
    requires
        context.wf(),
    ensures
        match r {
            Ok(index) => searched(context.sections(), context.headers@) == Ok::<
                TypeIndexView,
                DwarfError,
            >(index@),
            Err(e) => searched(context.sections(), context.headers@) == Err::<
                TypeIndexView,
                DwarfError,
            >(e@),
        },
{
    let mut index = TypeIndex::default();
    let mut dies: u64 = 0;
    let mut candidate_count: usize = 0;
    let mut i: usize = 0;
    proof {
        assert(index@.of(Target::MallocState) == FindingsView::nothing());
        assert(index@.of(Target::MallocPar) == FindingsView::nothing());
        assert(index@.of(Target::HeapInfo) == FindingsView::nothing());
        assert(index@.of(Target::Tcache) == FindingsView::nothing());
    }
    while i < context.headers.len()
        invariant
            i <= context.headers@.len(),
            context.wf(),
            searched_from(
                context.sections(),
                context.headers@,
                i as int,
                Progress { dies, candidates: candidate_count, index: index@ },
            ) == searched(context.sections(), context.headers@),
        decreases context.headers@.len() - i,
    {
        let header: UnitHeader = context.headers[i];
        let (unit, split): (LoadedUnit<'_>, bool) = match load_unit(context.dwarf, header) {
            Ok(v) => v,
            Err(e) => return Err(e),
        };
        if split {
            return Err(DwarfLayoutError::Unsupported("split DWARF"));
        }
        match has_split_name(&unit.unit) {
            Ok(true) => return Err(DwarfLayoutError::Unsupported("split DWARF")),
            Ok(false) => {},
            Err(e) => return Err(parse_error(e)),
        }
        if let Err(e) = scan_unit(context, &unit, &mut dies, &mut candidate_count, &mut index) {
            return Err(e);
        }
        i = i + 1;
    }
    Ok(index)
}

/// The layout that DWARF sections give.
pub open spec fn layout_of(
    sections: Sections,
    word_size: u64,
    require_tcache: bool,
) -> std::result::Result<DwarfLayout, DwarfError> {
    if sections::bytes_of(sections, ".debug_info"@).len() == 0 {
        Err(DwarfError::Unavailable)
    } else if sections::bytes_of(sections, ".debug_types"@).len() > 0 {
        Err(DwarfError::Unsupported("DWARF4 type units"@))
    } else {
        match headers_from(sections, 0, Seq::empty()) {
            Err(e) => Err(e),
            Ok(headers) => match searched(sections, headers) {
                Err(e) => Err(e),
                Ok(index) => assemble::assembled(index, word_size, require_tcache),
            },
        }
    }
}

/// Extract the offsets from loaded sections.
pub fn layout_in(store: &SectionStore<'_>, word_size: u64, require_tcache: bool) -> (r: Outcome<
    DwarfLayout,
>)
    ensures
        super::outcome(r) == layout_of(store@, word_size, require_tcache),
{
    let info_len: usize = store.bytes(".debug_info").len();
    if info_len == 0 {
        return Err(DwarfLayoutError::Unavailable);
    }
    if store.bytes(".debug_types").len() > 0 {
        return Err(DwarfLayoutError::Unsupported("DWARF4 type units"));
    }
    let dwarf = load_dwarf(store);
    let headers: Vec<UnitHeader> = match read_headers(&dwarf, info_len) {
        Ok(headers) => headers,
        Err(e) => return Err(e),
    };
    let context = Context { dwarf: &dwarf, headers: &headers };
    match search(&context) {
        Ok(index) => assemble_layout(&index, word_size, require_tcache),
        Err(e) => Err(e),
    }
}

/// Bytes of a word of a file's target.
pub open spec fn word_size_of(elf: Elf<'_>) -> u64 {
    if elf.tables.is_64 {
        8
    } else {
        4
    }
}

/// The layout that the DWARF sections of a file give, with a broken stream that
/// fails as `broken`.
pub open spec fn layout_from(
    elf: Elf<'_>,
    require_tcache: bool,
    broken: DwarfError,
) -> std::result::Result<DwarfLayout, DwarfError> {
    match sections::loaded_of(elf, broken) {
        Err(e) => Err(e),
        Ok(sections) => layout_of(sections, word_size_of(elf), require_tcache),
    }
}

/// Whether `r` is the layout of a file or, where a compressed section is read, the
/// lack of memory for it. A broken stream fails to decode or has another size than
/// was declared.
pub open spec fn extraction_is(
    elf: Elf<'_>,
    require_tcache: bool,
    r: std::result::Result<DwarfLayout, DwarfError>,
) -> bool {
    ||| r == layout_from(elf, require_tcache, DwarfError::Parse)
    ||| r == layout_from(elf, require_tcache, sections::size_differs())
    ||| sections::inflates(elf) && sections::is_lack_of_memory(r)
}

/// Extract the complete set of offsets used by heap analysis.
pub fn extract_layout(elf: &Elf<'_>, require_tcache: bool) -> (r: Outcome<DwarfLayout>)
    ensures
        extraction_is(*elf, require_tcache, super::outcome(r)),
        !sections::inflates(*elf) ==> super::outcome(r) == layout_from(
            *elf,
            require_tcache,
            DwarfError::Parse,
        ),
{
    let store = match load_sections(elf) {
        Ok(store) => store,
        Err(e) => return Err(e),
    };
    let word_size: u64 = if elf.is_64bit() {
        8
    } else {
        4
    };
    layout_in(&store, word_size, require_tcache)
}

} // verus!
