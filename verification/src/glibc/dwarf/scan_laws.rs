//! Which definitions a search of the debug information finds.

use vstd::prelude::*;

use crate::elf::Elf;

use super::assemble;
use super::reader;
use super::reader::{DieAt, UnitHeader, UnitKind};
use super::scan;
use super::scan::{Hits, Progress};
use super::sections;
use super::sections::Sections;
use super::structures;
use super::types;
use super::{DwarfError, DwarfLayout, FindingsView, StructureView, Target, TypeIndexView};

verus! {

/// An entry is a name for a structure: a structure (`0x13`), a class (`0x02`) or a typedef
/// (`0x16`) by one of its names.
pub open spec fn names_target(
    sections: Sections,
    unit: UnitHeader,
    die: DieAt,
    target: Target,
) -> bool {
    &&& die.tag == 0x13 || die.tag == 0x02 || die.tag == 0x16
    &&& types::name_of(sections, unit, die.offset) matches Ok(Some(name))
        && structures::target_of(name) == Some(target)
}

/// What was found is what was found before, and the names among the first `i` entries.
spec fn are_hits(
    sections: Sections,
    unit: UnitHeader,
    dies: Seq<DieAt>,
    i: int,
    found: Seq<(Target, usize)>,
) -> bool {
    &&& forall|k: int|
        0 <= k < found.len() ==> is_hit_of(sections, unit, dies.take(i), #[trigger] found[k])
    &&& forall|k: int, target: Target|
        0 <= k < i && #[trigger] names_target(sections, unit, dies[k], target) ==> found.contains(
            (target, dies[k].offset),
        )
}

/// Some entry is this name for a structure.
pub open spec fn is_hit_of(
    sections: Sections,
    unit: UnitHeader,
    dies: Seq<DieAt>,
    hit: (Target, usize),
) -> bool {
    exists|k: int|
        0 <= k < dies.len() && #[trigger] dies[k].offset == hit.1 && names_target(
            sections,
            unit,
            dies[k],
            hit.0,
        )
}

proof fn lemma_hits(
    sections: Sections,
    unit: UnitHeader,
    dies: Seq<DieAt>,
    broken: bool,
    i: int,
    hits: Hits,
)
    requires
        0 <= i <= dies.len(),
        are_hits(sections, unit, dies, i, hits.found),
    ensures
        scan::hits_from(sections, unit, dies, broken, i, hits) matches Ok(all) ==> {
            &&& !broken
            &&& are_hits(sections, unit, dies, dies.len() as int, all.found)
            &&& all.dies == hits.dies + (dies.len() - i)
            &&& all.candidates - hits.candidates == all.found.len() - hits.found.len()
        },
    decreases dies.len() - i,
{
    if i < dies.len() {
        if let Ok(next) = hits.with(sections, unit, dies[i]) {
            let shorter = dies.take(i);
            let longer = dies.take(i + 1);
            assert forall|k: int| 0 <= k < next.found.len() implies is_hit_of(
                sections,
                unit,
                longer,
                #[trigger] next.found[k],
            ) by {
                if k < hits.found.len() {
                    assert(next.found[k] == hits.found[k]);
                    assert(is_hit_of(sections, unit, shorter, hits.found[k]));
                    let hit = hits.found[k];
                    let n = choose|n: int|
                        0 <= n < shorter.len() && #[trigger] shorter[n].offset == hit.1
                            && names_target(sections, unit, shorter[n], hit.0);
                    assert(longer[n] == shorter[n]);
                    assert(longer[n].offset == hit.1);
                } else {
                    assert(longer[i] == dies[i]);
                    assert(longer[i].offset == next.found[k].1);
                }
            }
            assert forall|k: int, target: Target|
                0 <= k < i + 1 && #[trigger] names_target(
                    sections,
                    unit,
                    dies[k],
                    target,
                ) implies next.found.contains((target, dies[k].offset)) by {
                if k < i {
                    let hit = (target, dies[k].offset);
                    assert(hits.found.contains(hit));
                    let n = choose|n: int| 0 <= n < hits.found.len() && hits.found[n] == hit;
                    assert(next.found[n] == hit);
                } else {
                    assert(next.found[hits.found.len() as int] == (target, dies[k].offset));
                }
            }
            lemma_hits(sections, unit, dies, broken, i + 1, next);
        }
    } else {
        assert(dies.take(i) =~= dies);
    }
}

/// The names that are found in a unit are those among its entries, and every entry is
/// counted.
pub proof fn law_names_are_found(
    sections: Sections,
    unit: UnitHeader,
    dies: u64,
    candidates: usize,
    hits: Hits,
    hit: (Target, usize),
)
    requires
        scan::hits_in(sections, unit, dies, candidates) == Ok::<Hits, DwarfError>(hits),
    ensures
        ({
            let entries = reader::dies_in(sections, unit.offset).0;
            &&& hits.found.contains(hit) <==> is_hit_of(sections, unit, entries, hit)
            &&& hits.dies == dies + entries.len()
            &&& hits.candidates == candidates + hits.found.len()
        }),
{
    let (entries, broken) = reader::dies_in(sections, unit.offset);
    let start = Hits { dies, candidates, found: Seq::empty() };
    lemma_hits(sections, unit, entries, broken, 0, start);
    assert(entries.take(entries.len() as int) =~= entries);
    if hits.found.contains(hit) {
        let k = choose|k: int| 0 <= k < hits.found.len() && hits.found[k] == hit;
        assert(is_hit_of(sections, unit, entries, hits.found[k]));
    }
    if is_hit_of(sections, unit, entries, hit) {
        let k = choose|k: int|
            0 <= k < entries.len() && #[trigger] entries[k].offset == hit.1 && names_target(
                sections,
                unit,
                entries[k],
                hit.0,
            );
        assert(names_target(sections, unit, entries[k], hit.0));
    }
}

/// A name leads to a definition that reads as this structure.
pub open spec fn leads_to(
    sections: Sections,
    headers: Seq<UnitHeader>,
    unit: UnitHeader,
    hit: (Target, usize),
    s: StructureView,
) -> bool {
    scan::definition_of(sections, headers, unit, hit.1) matches Ok((owner, die))
        && structures::structure_at(sections, headers, owner, die, hit.0) == Ok::<
        StructureView,
        DwarfError,
    >(s)
}

/// A structure is among the findings.
pub open spec fn has(findings: FindingsView, s: StructureView) -> bool {
    findings.candidates matches Some(all) && all.contains(s)
}

/// The unit of a definition is that of the name, or one of the headers.
proof fn lemma_owner_is_known(
    sections: Sections,
    headers: Seq<UnitHeader>,
    unit: UnitHeader,
    die: usize,
    depth: u32,
    visited: Seq<(usize, usize)>,
)
    requires
        headers.contains(unit),
    ensures
        types::structure_of(sections, headers, unit, die, depth, visited) matches Ok((owner, _))
            ==> headers.contains(owner),
    decreases 64 - depth,
{
    if types::structure_of(sections, headers, unit, die, depth, visited) is Ok {
        let tag = reader::tag_in(sections, unit.offset, die)->0;
        if !types::is_structure(tag) {
            let next = types::type_of(
                sections,
                headers,
                unit,
                die,
                "type reference is missing"@,
            )->Ok_0;
            lemma_referent_is_known(sections, headers, unit, die);
            lemma_owner_is_known(
                sections,
                headers,
                next.0,
                next.1,
                (depth + 1) as u32,
                visited.push((unit.offset, die)),
            );
        }
    }
}

proof fn lemma_referent_is_known(
    sections: Sections,
    headers: Seq<UnitHeader>,
    unit: UnitHeader,
    die: usize,
)
    requires
        headers.contains(unit),
    ensures
        forall|missing: Seq<char>|
            (#[trigger] types::type_of(sections, headers, unit, die, missing)) matches Ok((owner, _))
                ==> headers.contains(owner),
{
    if let Ok(Some(attr)) = types::attr_of(sections, unit, die, reader::DW_AT_TYPE) {
        if let reader::AttrKind::DebugInfoRef(absolute) = attr.kind {
            lemma_last_is_header(headers, headers.len() as int, absolute);
        }
    }
}

proof fn lemma_last_is_header(headers: Seq<UnitHeader>, n: int, absolute: usize)
    requires
        0 <= n <= headers.len(),
    ensures
        types::last_before(headers, n, absolute) matches Some(h) ==> headers.contains(h),
    decreases n,
{
    if n > 0 && headers[n - 1].offset > absolute {
        lemma_last_is_header(headers, n - 1, absolute);
    }
}

/// No two headers stand at one offset.
proof fn lemma_same_header(headers: Seq<UnitHeader>, a: UnitHeader, b: UnitHeader)
    requires
        types::ascending(headers),
        headers.contains(a),
        headers.contains(b),
        a.offset == b.offset,
    ensures
        a == b,
{
    let i = choose|i: int| 0 <= i < headers.len() && headers[i] == a;
    let j = choose|j: int| 0 <= j < headers.len() && headers[j] == b;
    if i < j {
        assert(headers[i].offset < headers[j].offset);
    } else if j < i {
        assert(headers[j].offset < headers[i].offset);
    }
}

/// A definition that was met is that of some name among the first `i`.
spec fn is_met(
    sections: Sections,
    headers: Seq<UnitHeader>,
    unit: UnitHeader,
    found: Seq<(Target, usize)>,
    i: int,
    id: (Target, usize, usize),
) -> bool {
    exists|k: int| #[trigger] is_met_at(sections, headers, unit, found, i, id, k)
}

spec fn is_met_at(
    sections: Sections,
    headers: Seq<UnitHeader>,
    unit: UnitHeader,
    found: Seq<(Target, usize)>,
    i: int,
    id: (Target, usize, usize),
    k: int,
) -> bool {
    &&& 0 <= k < i
    &&& found[k].0 == id.0
    &&& scan::definition_of(sections, headers, unit, found[k].1) matches Ok((owner, die))
        && owner.offset == id.1 && die == id.2
}

/// Some of the names from `i` to `j` is one for a structure and leads to this definition.
pub open spec fn some_leads_to(
    sections: Sections,
    headers: Seq<UnitHeader>,
    unit: UnitHeader,
    found: Seq<(Target, usize)>,
    i: int,
    j: int,
    target: Target,
    s: StructureView,
) -> bool {
    exists|k: int|
        i <= k < j && (#[trigger] found[k]).0 == target && leads_to(
            sections,
            headers,
            unit,
            found[k],
            s,
        )
}

/// Every name among the first `i` that leads to a definition has it in the findings.
spec fn is_complete(
    sections: Sections,
    headers: Seq<UnitHeader>,
    unit: UnitHeader,
    found: Seq<(Target, usize)>,
    i: int,
    index: TypeIndexView,
) -> bool {
    forall|k: int, s: StructureView|
        0 <= k < i && #[trigger] leads_to(sections, headers, unit, found[k], s) ==> has(
            index.of(found[k].0),
            s,
        )
}

proof fn lemma_index_with(index: TypeIndexView, target: Target, findings: FindingsView)
    ensures
        forall|other: Target| #[trigger]
            index.with(target, findings).of(other) == if other == target {
                findings
            } else {
                index.of(other)
            },
{
}

proof fn lemma_with_candidate(findings: FindingsView, added: StructureView)
    ensures
        forall|s: StructureView| #[trigger]
            has(findings.with_candidate(added), s) <==> has(findings, s) || s == added,
        forall|s: StructureView, e: DwarfError| #[trigger]
            has(findings.with_error(e), s) <==> has(findings, s),
{
    let after = findings.with_candidate(added);
    assert forall|s: StructureView| #[trigger] has(after, s) == (has(findings, s) || s == added) by {
        let all = after.candidates->0;
        match findings.candidates {
            Some(before) => {
                assert(all == before.push(added));
                if before.contains(s) {
                    let k = choose|k: int| 0 <= k < before.len() && before[k] == s;
                    assert(all[k] == s);
                }
                assert(all[before.len() as int] == added);
                if all.contains(s) {
                    let k = choose|k: int| 0 <= k < all.len() && all[k] == s;
                    if k < before.len() {
                        assert(before[k] == s);
                    }
                }
            },
            None => {
                assert(all[0] == added);
            },
        }
    }
}

proof fn lemma_indexed(
    sections: Sections,
    headers: Seq<UnitHeader>,
    unit: UnitHeader,
    found: Seq<(Target, usize)>,
    i: int,
    seen: Seq<(Target, usize, usize)>,
    index: TypeIndexView,
    target: Target,
    s: StructureView,
)
    requires
        0 <= i <= found.len(),
        types::ascending(headers),
        headers.contains(unit),
        is_complete(sections, headers, unit, found, i, index),
        forall|k: int|
            0 <= k < seen.len() ==> is_met(
                sections,
                headers,
                unit,
                found,
                i,
                #[trigger] seen[k],
            ),
    ensures
        scan::indexed_from(sections, headers, unit, found, i, seen, index) matches Ok(all) ==> {
            &&& has(all.of(target), s) <==> has(index.of(target), s) || some_leads_to(
                sections,
                headers,
                unit,
                found,
                i,
                found.len() as int,
                target,
                s,
            )
        },
    decreases found.len() - i,
{
    let len: int = found.len() as int;
    if i < len && scan::indexed_from(sections, headers, unit, found, i, seen, index) is Ok {
        let (own, at) = found[i];
        let place = scan::definition_of(sections, headers, unit, at);
        let mut next_seen = seen;
        let mut next = index;
        match place {
            Err(e) => {
                next = index.with(own, index.of(own).with_error(e));
            },
            Ok((owner, die)) => {
                let id = (own, owner.offset, die);
                lemma_owner_is_known(sections, headers, unit, at, 0, Seq::empty());
                if !seen.contains(id) {
                    next_seen = seen.push(id);
                    match structures::structure_at(sections, headers, owner, die, own) {
                        Err(e) => {
                            next = index.with(own, index.of(own).with_error(e));
                        },
                        Ok(added) => {
                            next = index.with(own, index.of(own).with_candidate(added));
                        },
                    }
                }
                assert(is_met_at(sections, headers, unit, found, i + 1, id, i));
            },
        }
        lemma_step(sections, headers, unit, found, i, seen, index, next);
        assert forall|k: int| 0 <= k < next_seen.len() implies is_met(
            sections,
            headers,
            unit,
            found,
            i + 1,
            #[trigger] next_seen[k],
        ) by {
            if k < seen.len() {
                assert(is_met(sections, headers, unit, found, i, seen[k]));
                let n = choose|n: int| #[trigger]
                    is_met_at(sections, headers, unit, found, i, seen[k], n);
                assert(is_met_at(sections, headers, unit, found, i + 1, seen[k], n));
            }
        }
        lemma_indexed(sections, headers, unit, found, i + 1, next_seen, next, target, s);
        let whole = some_leads_to(sections, headers, unit, found, i, len, target, s);
        let rest = some_leads_to(sections, headers, unit, found, i + 1, len, target, s);
        let here = own == target && leads_to(sections, headers, unit, found[i], s);
        assert(whole <==> here || rest) by {
            if whole {
                let k = choose|k: int|
                    i <= k < len && (#[trigger] found[k]).0 == target && leads_to(
                        sections,
                        headers,
                        unit,
                        found[k],
                        s,
                    );
                assert(found[k].0 == target);
            }
            if rest {
                let k = choose|k: int|
                    i + 1 <= k < len && (#[trigger] found[k]).0 == target && leads_to(
                        sections,
                        headers,
                        unit,
                        found[k],
                        s,
                    );
                assert(found[k].0 == target);
            }
            if here {
                assert(found[i].0 == target);
            }
        }
        assert(has(next.of(target), s) ==> has(index.of(target), s) || here);
        assert(has(index.of(target), s) ==> has(next.of(target), s));
        if here {
            assert(has(next.of(target), s));
        }
    }
}

/// One step of the search adds the definition that the name leads to, and no other.
proof fn lemma_step(
    sections: Sections,
    headers: Seq<UnitHeader>,
    unit: UnitHeader,
    found: Seq<(Target, usize)>,
    i: int,
    seen: Seq<(Target, usize, usize)>,
    index: TypeIndexView,
    next: TypeIndexView,
)
    requires
        0 <= i < found.len(),
        types::ascending(headers),
        headers.contains(unit),
        is_complete(sections, headers, unit, found, i, index),
        forall|k: int|
            0 <= k < seen.len() ==> is_met(
                sections,
                headers,
                unit,
                found,
                i,
                #[trigger] seen[k],
            ),
        match scan::definition_of(sections, headers, unit, found[i].1) {
            Err(e) => next == index.with(
                found[i].0,
                index.of(found[i].0).with_error(e),
            ),
            Ok((owner, die)) => if seen.contains((found[i].0, owner.offset, die)) {
                next == index
            } else {
                match structures::structure_at(sections, headers, owner, die, found[i].0) {
                    Err(e) => next == index.with(
                        found[i].0,
                        index.of(found[i].0).with_error(e),
                    ),
                    Ok(added) => next == index.with(
                        found[i].0,
                        index.of(found[i].0).with_candidate(added),
                    ),
                }
            },
        },
    ensures
        is_complete(sections, headers, unit, found, i + 1, next),
        forall|target: Target, s: StructureView|
            has(index.of(target), s) ==> #[trigger] has(next.of(target), s),
        forall|target: Target, s: StructureView| #[trigger]
            has(next.of(target), s) ==> has(index.of(target), s) || (found[i].0 == target
                && leads_to(sections, headers, unit, found[i], s)),
{
    let (own, at) = found[i];
    let findings = index.of(own);
    match scan::definition_of(sections, headers, unit, at) {
        Err(e) => {
            lemma_index_with(index, own, findings.with_error(e));
            lemma_with_candidate(findings, StructureView { byte_size: 0, members: Seq::empty() });
            assert forall|s: StructureView| #[trigger] has(findings.with_error(e), s) == has(
                findings,
                s,
            ) by {}
        },
        Ok((owner, die)) => {
            let id = (own, owner.offset, die);
            lemma_owner_is_known(sections, headers, unit, at, 0, Seq::empty());
            if seen.contains(id) {
                let n = choose|n: int| 0 <= n < seen.len() && seen[n] == id;
                assert(is_met(sections, headers, unit, found, i, seen[n]));
                let k = choose|k: int| #[trigger]
                    is_met_at(sections, headers, unit, found, i, id, k);
                let (other, _) = scan::definition_of(sections, headers, unit, found[k].1)->Ok_0;
                lemma_owner_is_known(sections, headers, unit, found[k].1, 0, Seq::empty());
                lemma_same_header(headers, owner, other);
                assert forall|s: StructureView| #[trigger] leads_to(
                    sections,
                    headers,
                    unit,
                    found[i],
                    s,
                ) implies has(index.of(own), s) by {
                    assert(leads_to(sections, headers, unit, found[k], s));
                }
            } else {
                match structures::structure_at(sections, headers, owner, die, own) {
                    Err(e) => {
                        lemma_index_with(index, own, findings.with_error(e));
                        lemma_with_candidate(
                            findings,
                            StructureView { byte_size: 0, members: Seq::empty() },
                        );
                        assert forall|s: StructureView| #[trigger] has(
                            findings.with_error(e),
                            s,
                        ) == has(findings, s) by {}
                    },
                    Ok(added) => {
                        lemma_index_with(index, own, findings.with_candidate(added));
                        lemma_with_candidate(findings, added);
                    },
                }
            }
        },
    }
    assert forall|k: int, s: StructureView|
        0 <= k < i + 1 && #[trigger] leads_to(
            sections,
            headers,
            unit,
            found[k],
            s,
        ) implies has(next.of(found[k].0), s) by {
        if k < i {
            assert(has(index.of(found[k].0), s));
        }
    }
}

/// A unit names a structure that leads to this definition.
pub open spec fn unit_defines(
    sections: Sections,
    headers: Seq<UnitHeader>,
    unit: UnitHeader,
    target: Target,
    s: StructureView,
) -> bool {
    exists|die: usize| #[trigger]
        is_hit_of(sections, unit, reader::dies_in(sections, unit.offset).0, (target, die))
            && leads_to(sections, headers, unit, (target, die), s)
}

proof fn lemma_scanned(
    sections: Sections,
    headers: Seq<UnitHeader>,
    unit: UnitHeader,
    progress: Progress,
    target: Target,
    s: StructureView,
)
    requires
        types::ascending(headers),
        headers.contains(unit),
    ensures
        scan::scanned(sections, headers, unit, progress) matches Ok(next) ==> (has(
            next.index.of(target),
            s,
        ) <==> has(progress.index.of(target), s) || unit_defines(
            sections,
            headers,
            unit,
            target,
            s,
        )),
{
    if scan::scanned(sections, headers, unit, progress) is Ok {
        let hits = scan::hits_in(sections, unit, progress.dies, progress.candidates)->Ok_0;
        let found = hits.found;
        lemma_indexed(
            sections,
            headers,
            unit,
            found,
            0,
            Seq::empty(),
            progress.index,
            target,
            s,
        );
        let len: int = found.len() as int;
        let entries = reader::dies_in(sections, unit.offset).0;
        if some_leads_to(sections, headers, unit, found, 0, len, target, s) {
            let k = choose|k: int|
                0 <= k < len && (#[trigger] found[k]).0 == target && leads_to(
                    sections,
                    headers,
                    unit,
                    found[k],
                    s,
                );
            law_names_are_found(
                sections,
                unit,
                progress.dies,
                progress.candidates,
                hits,
                found[k],
            );
            assert(found.contains(found[k]));
            assert(is_hit_of(sections, unit, entries, (target, found[k].1)));
        }
        if unit_defines(sections, headers, unit, target, s) {
            let die = choose|die: usize| #[trigger]
                is_hit_of(sections, unit, entries, (target, die)) && leads_to(
                    sections,
                    headers,
                    unit,
                    (target, die),
                    s,
                );
            law_names_are_found(
                sections,
                unit,
                progress.dies,
                progress.candidates,
                hits,
                (target, die),
            );
            let k = choose|k: int| 0 <= k < found.len() && found[k] == (target, die);
            assert(found[k].0 == target);
        }
    }
}

proof fn lemma_searched(
    sections: Sections,
    headers: Seq<UnitHeader>,
    i: int,
    progress: Progress,
    target: Target,
    s: StructureView,
)
    requires
        0 <= i <= headers.len(),
        types::ascending(headers),
    ensures
        scan::searched_from(sections, headers, i, progress) matches Ok(index) ==> (has(
            index.of(target),
            s,
        ) <==> has(progress.index.of(target), s) || exists|u: int|
            i <= u < headers.len() && unit_defines(
                sections,
                headers,
                #[trigger] headers[u],
                target,
                s,
            )),
    decreases headers.len() - i,
{
    if i < headers.len() {
        if let Ok(next) = scan::scanned(sections, headers, headers[i], progress) {
            assert(headers.contains(headers[i]));
            lemma_scanned(sections, headers, headers[i], progress, target, s);
            lemma_searched(sections, headers, i + 1, next, target, s);
        }
    }
}

/// A search finds a definition of a structure exactly where some unit has a name of it that
/// leads there.
pub proof fn law_every_definition_is_found(
    sections: Sections,
    headers: Seq<UnitHeader>,
    index: TypeIndexView,
    target: Target,
    s: StructureView,
)
    requires
        types::ascending(headers),
        scan::searched(sections, headers) == Ok::<TypeIndexView, DwarfError>(index),
    ensures
        has(index.of(target), s) <==> exists|u: int|
            0 <= u < headers.len() && unit_defines(
                sections,
                headers,
                #[trigger] headers[u],
                target,
                s,
            ),
{
    let start = Progress { dies: 0, candidates: 0, index: scan::empty_index() };
    lemma_searched(sections, headers, 0, start, target, s);
}

/// Where unit `k` starts: behind those before it.
pub open spec fn start_of(headers: Seq<UnitHeader>, k: int) -> int
    decreases k,
{
    if k <= 0 {
        0
    } else {
        start_of(headers, k - 1) + headers[k - 1].length
    }
}

/// The units stand one behind the other, each read where the one before it ends, and none
/// is split or only a type.
spec fn are_units(sections: Sections, headers: Seq<UnitHeader>, n: int) -> bool {
    forall|k: int|
        0 <= k < n ==> {
            &&& reader::header_in(sections, start_of(headers, k) as usize) == Some(
                #[trigger] headers[k],
            )
            &&& start_of(headers, k) < sections::bytes_of(sections, ".debug_info"@).len()
            &&& headers[k].kind == UnitKind::Compilation || headers[k].kind == UnitKind::Partial
        }
}

proof fn lemma_start_of(a: Seq<UnitHeader>, b: Seq<UnitHeader>, k: int)
    requires
        0 <= k <= a.len(),
        k <= b.len(),
        forall|j: int| 0 <= j < k ==> a[j] == b[j],
    ensures
        start_of(a, k) == start_of(b, k),
    decreases k,
{
    if k > 0 {
        lemma_start_of(a, b, k - 1);
    }
}

proof fn lemma_units(sections: Sections, offset: int, met: Seq<UnitHeader>)
    requires
        offset == start_of(met, met.len() as int),
        are_units(sections, met, met.len() as int),
        met.len() <= 200_000,
    ensures
        scan::headers_from(sections, offset, met) matches Ok(all) ==> {
            &&& are_units(sections, all, all.len() as int)
            &&& start_of(all, all.len() as int) >= sections::bytes_of(
                sections,
                ".debug_info"@,
            ).len()
            &&& all.len() <= 200_000
        },
    decreases 200_001 - met.len(),
{
    if scan::headers_from(sections, offset, met) is Ok && offset < sections::bytes_of(
        sections,
        ".debug_info"@,
    ).len() {
        let header = reader::header_in(sections, offset as usize)->0;
        let next = met.push(header);
        lemma_start_of(met, next, met.len() as int);
        assert forall|k: int| 0 <= k < next.len() implies {
            &&& reader::header_in(sections, start_of(next, k) as usize) == Some(#[trigger] next[k])
            &&& start_of(next, k) < sections::bytes_of(sections, ".debug_info"@).len()
            &&& next[k].kind == UnitKind::Compilation || next[k].kind == UnitKind::Partial
        } by {
            lemma_start_of(met, next, k);
            if k < met.len() {
                assert(next[k] == met[k]);
            }
        }
        lemma_units(sections, offset + header.length, next);
    }
}

/// The units that are searched stand one behind the other from the start of the debug
/// information to its end, each with the header read there; there are 200000 at most, and
/// none is split or only a type.
pub proof fn law_units_follow_each_other(sections: Sections, headers: Seq<UnitHeader>)
    requires
        scan::headers_from(sections, 0, Seq::empty()) == Ok::<Seq<UnitHeader>, DwarfError>(headers),
    ensures
        forall|k: int|
            0 <= k < headers.len() ==> {
                &&& reader::header_in(sections, start_of(headers, k) as usize) == Some(
                    #[trigger] headers[k],
                )
                &&& start_of(headers, k) < sections::bytes_of(sections, ".debug_info"@).len()
                &&& headers[k].kind == UnitKind::Compilation || headers[k].kind
                    == UnitKind::Partial
            },
        start_of(headers, headers.len() as int) >= sections::bytes_of(
            sections,
            ".debug_info"@,
        ).len(),
        headers.len() <= 200_000,
{
    lemma_units(sections, 0, Seq::empty());
}

/// A layout is that of the definitions in the debug information, which must be there
/// without units of another form, for the words of the target.
pub proof fn law_layout_is_that_of_the_definitions(
    sections: Sections,
    word_size: u64,
    require_tcache: bool,
    layout: DwarfLayout,
)
    requires
        scan::layout_of(sections, word_size, require_tcache) == Ok::<DwarfLayout, DwarfError>(
            layout,
        ),
    ensures
        sections::bytes_of(sections, ".debug_info"@).len() > 0,
        sections::bytes_of(sections, ".debug_types"@).len() == 0,
        scan::headers_from(sections, 0, Seq::empty()) matches Ok(headers) && (scan::searched(
            sections,
            headers,
        ) matches Ok(index) && assemble::assembled(index, word_size, require_tcache) == Ok::<
            DwarfLayout,
            DwarfError,
        >(layout)),
{
}

/// A layout of a file is read from its own sections, for words of eight bytes in a 64-bit
/// file and of four in another.
pub proof fn law_layout_is_read_for_the_words_of_the_file(
    elf: Elf<'_>,
    require_tcache: bool,
    broken: DwarfError,
    layout: DwarfLayout,
)
    requires
        scan::layout_from(elf, require_tcache, broken) == Ok::<DwarfLayout, DwarfError>(layout),
    ensures
        sections::loaded(
            elf.tables@.sections,
            elf.data@,
            elf.tables.is_64,
            broken,
        ) matches Ok(found) && {
            &&& elf.tables.is_64 ==> scan::layout_of(found, 8, require_tcache) == Ok::<
                DwarfLayout,
                DwarfError,
            >(layout)
            &&& !elf.tables.is_64 ==> scan::layout_of(found, 4, require_tcache) == Ok::<
                DwarfLayout,
                DwarfError,
            >(layout)
        },
{
}

/// Debug information that is not there is told as such; type units apart from it are
/// refused.
pub proof fn law_missing_information_is_told(
    sections: Sections,
    word_size: u64,
    require_tcache: bool,
)
    ensures
        sections::bytes_of(sections, ".debug_info"@).len() == 0 ==> scan::layout_of(
            sections,
            word_size,
            require_tcache,
        ) == Err::<DwarfLayout, DwarfError>(DwarfError::Unavailable),
        sections::bytes_of(sections, ".debug_info"@).len() > 0 && sections::bytes_of(
            sections,
            ".debug_types"@,
        ).len() > 0 ==> scan::layout_of(sections, word_size, require_tcache) == Err::<
            DwarfLayout,
            DwarfError,
        >(DwarfError::Unsupported("DWARF4 type units"@)),
{
}

/// Of what goes wrong with the definitions of a structure the first is kept, and neither
/// errors nor definitions displace what was found.
pub proof fn law_first_error_is_kept(
    findings: FindingsView,
    e: DwarfError,
    other: DwarfError,
    s: StructureView,
)
    ensures
        findings.error is None ==> findings.with_error(e).error == Some(e),
        findings.with_error(e).with_error(other) == findings.with_error(e),
        findings.error is Some ==> findings.with_error(e).error == findings.error,
        findings.with_error(e).candidates == findings.candidates,
        findings.with_candidate(s).error == findings.error,
{
}

/// A limit ends the search, as its error; anything else that is wrong with one definition
/// does not, whatever comes behind it.
pub proof fn law_only_limits_end_the_search(
    sections: Sections,
    headers: Seq<UnitHeader>,
    unit: UnitHeader,
    hit: (Target, usize),
    index: TypeIndexView,
)
    ensures
        ({
            let r = scan::indexed_from(
                sections,
                headers,
                unit,
                seq![hit],
                0,
                Seq::empty(),
                index,
            );
            let place = scan::definition_of(sections, headers, unit, hit.1);
            let e = match place {
                Err(e) => Some(e),
                Ok((owner, die)) => match structures::structure_at(
                    sections,
                    headers,
                    owner,
                    die,
                    hit.0,
                ) {
                    Err(e) => Some(e),
                    Ok(_) => None,
                },
            };
            &&& e is Some && e->0 is Limit ==> r == Err::<TypeIndexView, DwarfError>(e->0)
            &&& e is Some && !(e->0 is Limit) ==> (r matches Ok(all) && all.of(hit.0)
                == index.of(hit.0).with_error(e->0) && forall|other: Target|
                other != hit.0 ==> #[trigger] all.of(other) == index.of(other))
            &&& e is None ==> r is Ok
        }),
{
    reveal_with_fuel(scan::indexed_from, 2);
}

/// What is extracted from a file is its layout, or why it has none. Only where a stream is
/// inflated can a lack of memory end it.
pub proof fn law_extraction_gives_the_layout(
    elf: Elf<'_>,
    require_tcache: bool,
    r: std::result::Result<DwarfLayout, DwarfError>,
)
    requires
        scan::extraction_is(elf, require_tcache, r),
    ensures
        !sections::inflates(elf) || r is Ok ==> r == scan::layout_from(
            elf,
            require_tcache,
            DwarfError::Parse,
        ),
{
    let differs = sections::size_differs();
    if !sections::inflates(elf) {
        sections::lemma_no_stream_no_failure(elf, DwarfError::Parse, differs);
    }
    if sections::loaded_of(elf, differs) is Ok {
        sections::law_loaded_sections_are_complete(
            elf.tables@.sections,
            elf.data@,
            elf.tables.is_64,
            differs,
            DwarfError::Parse,
        );
    }
}

} // verus!
