//! Reading the malloc structures from their entries.

use vstd::prelude::*;

use crate::text;

use super::assemble;
use super::reader;
use super::reader::{
    children, next_child, open_tree, parse_error, read_attr, read_tag, Attr, AttrKind, DieAt, UnitHeader,
    DW_AT_BYTE_SIZE, DW_AT_DECLARATION, DW_TAG_MEMBER,
};
use super::sections::Sections;
use super::types;
use super::types::{entry_name, member_location, resolve_type, type_ref, Context, LoadedUnit, Place};
use super::{
    DwarfError, DwarfLayoutError, Member, MemberView, Outcome, Structure, StructureView, Target,
    TypeInfo, TypeKind,
};

verus! {

pub const MAX_STRUCT_SIZE: u64 = 1024 * 1024;

/// A type name without white space around it and without the keyword of its kind.
pub open spec fn bare_name(name: Seq<char>) -> Seq<char> {
    let inner = text::trimmed(name);
    if text::starts_with(inner, "struct "@) {
        inner.skip(7)
    } else if text::starts_with(inner, "class "@) {
        inner.skip(6)
    } else {
        inner
    }
}

/// The target that a type name is for.
pub open spec fn target_of(name: Seq<char>) -> Option<Target> {
    let bare = bare_name(name);
    if bare == "malloc_state"@ || bare == "_malloc_state"@ {
        Some(Target::MallocState)
    } else if bare == "malloc_par"@ {
        Some(Target::MallocPar)
    } else if bare == "heap_info"@ || bare == "_heap_info"@ {
        Some(Target::HeapInfo)
    } else if bare == "tcache_perthread_struct"@ {
        Some(Target::Tcache)
    } else {
        None
    }
}

/// The target that a type name is for.
pub fn target_name(name: &str) -> (r: Option<Target>)
    ensures
        r == target_of(name@),
{
    let chars: Vec<char> = text::chars_of(name);
    let inner: &[char] = text::trim(&chars);
    let len: usize = inner.len();
    proof {
        reveal_strlit("struct ");
        reveal_strlit("class ");
    }
    let bare: &[char] = if text::has_prefix(inner, "struct ") {
        &inner[7..len]
    } else if text::has_prefix(inner, "class ") {
        &inner[6..len]
    } else {
        inner
    };
    assert(bare@ =~= bare_name(name@));
    if text::chars_equal(bare, "malloc_state") || text::chars_equal(bare, "_malloc_state") {
        Some(Target::MallocState)
    } else if text::chars_equal(bare, "malloc_par") {
        Some(Target::MallocPar)
    } else if text::chars_equal(bare, "heap_info") || text::chars_equal(bare, "_heap_info") {
        Some(Target::HeapInfo)
    } else if text::chars_equal(bare, "tcache_perthread_struct") {
        Some(Target::Tcache)
    } else {
        None
    }
}

/// A structure size: not zero, not too large, and whole words.
pub open spec fn size_check(size: u64, word: u8) -> std::result::Result<(), DwarfError> {
    if size == 0 || size > MAX_STRUCT_SIZE || (word != 4 && word != 8) || size as int % word as int
        != 0 {
        assemble::invalid_because("structure size is zero, unaligned, or over the limit"@)
    } else {
        Ok(())
    }
}

pub fn validate_struct_size(size: u64, word: u8) -> (r: Outcome<()>)
    ensures
        super::outcome(r) == size_check(size, word),
{
    if size == 0 || size > MAX_STRUCT_SIZE || (word != 4 && word != 8) || size % (word as u64)
        != 0 {
        return Err(
            DwarfLayoutError::Invalid(
                "structure size is zero, unaligned, or over the limit".to_owned(),
            ),
        );
    }
    Ok(())
}

/// Whether an attribute says that an entry is only a declaration.
pub open spec fn says_declaration(attr: Option<Attr>) -> bool {
    match attr {
        None => false,
        Some(attr) => match attr.kind {
            AttrKind::Flag(flag) => flag,
            _ => attr.udata is Some && attr.udata->0 != 0,
        },
    }
}

pub fn is_declaration(attr: Option<Attr>) -> (r: bool)
    ensures
        r == says_declaration(attr),
{
    match attr {
        None => false,
        Some(attr) => match attr.kind {
            AttrKind::Flag(flag) => flag,
            _ => match attr.udata {
                Some(value) => value != 0,
                None => false,
            },
        },
    }
}

/// The place of a kind among the kinds.
pub open spec fn kind_rank(kind: TypeKind) -> int {
    match kind {
        TypeKind::Pointer => 0,
        TypeKind::Unsigned => 1,
        TypeKind::Signed => 2,
        TypeKind::Array => 3,
        TypeKind::Structure => 4,
        TypeKind::Other => 5,
    }
}

/// An optional number, absent before every number.
pub open spec fn option_rank(value: Option<u64>) -> int {
    match value {
        None => -1,
        Some(value) => value as int,
    }
}

/// An optional kind, absent before every kind.
pub open spec fn option_kind_rank(kind: Option<TypeKind>) -> int {
    match kind {
        None => -1,
        Some(kind) => kind_rank(kind),
    }
}

/// What members are ordered by: their names character by character, where a name
/// comes before those it is a start of, then offset and type.
pub open spec fn sort_key(m: MemberView) -> Seq<int> {
    Seq::new(m.name.len(), |i: int| m.name[i] as int) + seq![
        -1,
        m.offset as int,
        kind_rank(m.ty.kind),
        option_rank(m.ty.byte_size),
        option_kind_rank(m.ty.element_kind),
        option_rank(m.ty.element_size),
        option_rank(m.ty.element_count),
    ]
}

/// Lexicographic order from index `i` on.
pub open spec fn below_from(a: Seq<int>, b: Seq<int>, i: int) -> bool
    decreases a.len() - i,
{
    if i < 0 || i >= b.len() {
        false
    } else if i >= a.len() {
        true
    } else if a[i] != b[i] {
        a[i] < b[i]
    } else {
        below_from(a, b, i + 1)
    }
}

/// The order of members.
pub open spec fn before(a: MemberView, b: MemberView) -> bool {
    below_from(sort_key(a), sort_key(b), 0)
}

/// An ordered list with a member put in its place, unless it is there already.
pub open spec fn placed(list: Seq<MemberView>, m: MemberView, i: int) -> Seq<MemberView>
    decreases list.len() - i,
{
    if i < 0 || i >= list.len() {
        list.push(m)
    } else if list[i] == m {
        list
    } else if before(m, list[i]) {
        list.insert(i, m)
    } else {
        placed(list, m, i + 1)
    }
}

fn rank_of_kind(kind: TypeKind) -> (r: i128)
    ensures
        r == kind_rank(kind),
{
    match kind {
        TypeKind::Pointer => 0,
        TypeKind::Unsigned => 1,
        TypeKind::Signed => 2,
        TypeKind::Array => 3,
        TypeKind::Structure => 4,
        TypeKind::Other => 5,
    }
}

fn rank_of_option(value: Option<u64>) -> (r: i128)
    ensures
        r == option_rank(value),
{
    match value {
        None => -1,
        Some(value) => value as i128,
    }
}

fn key_of(m: &Member) -> (key: Vec<i128>)
    ensures
        key@.map_values(|k: i128| k as int) == sort_key(m@),
{
    let name: Vec<char> = text::chars_of(&m.name);
    let mut key: Vec<i128> = Vec::new();
    let mut i: usize = 0;
    while i < name.len()
        invariant
            i <= name@.len(),
            key@.len() == i,
            forall|k: int| 0 <= k < i ==> #[trigger] key@[k] == name@[k] as int,
        decreases name@.len() - i,
    {
        let c: char = name[i];
        let code: u32 = c as u32;
        proof {
            vstd::utf8::char_u32_cast(c, code);
        }
        key.push(code as i128);
        i = i + 1;
    }
    key.push(-1);
    key.push(m.offset as i128);
    key.push(rank_of_kind(m.ty.kind));
    key.push(rank_of_option(m.ty.byte_size));
    key.push(
        match m.ty.element_kind {
            None => -1,
            Some(kind) => rank_of_kind(kind),
        },
    );
    key.push(rank_of_option(m.ty.element_size));
    key.push(rank_of_option(m.ty.element_count));
    assert(key@.map_values(|k: i128| k as int) =~= sort_key(m@));
    key
}

fn comes_before(a: &Member, b: &Member) -> (r: bool)
    ensures
        r == before(a@, b@),
{
    let left: Vec<i128> = key_of(a);
    let right: Vec<i128> = key_of(b);
    let ghost x = left@.map_values(|k: i128| k as int);
    let ghost y = right@.map_values(|k: i128| k as int);
    let mut i: usize = 0;
    while i < right.len()
        invariant
            i <= right@.len(),
            i <= left@.len(),
            x == left@.map_values(|k: i128| k as int),
            y == right@.map_values(|k: i128| k as int),
            x == sort_key(a@),
            y == sort_key(b@),
            below_from(x, y, i as int) == below_from(x, y, 0),
        decreases right@.len() - i,
    {
        if i >= left.len() {
            return true;
        }
        assert(x[i as int] == left@[i as int] && y[i as int] == right@[i as int]);
        if left[i] != right[i] {
            return left[i] < right[i];
        }
        i = i + 1;
    }
    false
}

fn same_member(a: &Member, b: &Member) -> (r: bool)
    ensures
        r == (a@ == b@),
{
    text::str_equal(&a.name, &b.name) && a.offset == b.offset && a.ty == b.ty
}

/// Put a member in its place of an ordered list, unless it is there already.
pub fn insert_member(members: &mut Vec<Member>, member: Member)
    ensures
        super::member_views(final(members)@) == placed(
            super::member_views(old(members)@),
            member@,
            0,
        ),
{
    let ghost list = super::member_views(members@);
    let mut i: usize = 0;
    while i < members.len()
        invariant
            i <= members@.len(),
            members@ == old(members)@,
            list == super::member_views(members@),
            placed(list, member@, i as int) == placed(list, member@, 0),
        decreases members@.len() - i,
    {
        assert(list[i as int] == members@[i as int]@);
        if same_member(&members[i], &member) {
            return;
        }
        if comes_before(&member, &members[i]) {
            members.insert(i, member);
            assert(super::member_views(members@) =~= list.insert(i as int, member@));
            return;
        }
        i = i + 1;
    }
    members.push(member);
    assert(super::member_views(members@) =~= list.push(member@));
}

proof fn lemma_below_is_total(a: Seq<int>, b: Seq<int>, i: int)
    requires
        0 <= i <= a.len(),
        i <= b.len(),
        forall|k: int| 0 <= k < i ==> a[k] == b[k],
        a != b,
    ensures
        below_from(a, b, i) || below_from(b, a, i),
    decreases a.len() - i,
{
    if i < a.len() && i < b.len() {
        if a[i] == b[i] {
            lemma_below_is_total(a, b, i + 1);
        }
    } else if a.len() == b.len() {
        assert(a =~= b);
    }
}

proof fn lemma_below_is_transitive(a: Seq<int>, b: Seq<int>, c: Seq<int>, i: int)
    requires
        below_from(a, b, i),
        below_from(b, c, i),
    ensures
        below_from(a, c, i),
    decreases a.len() - i,
{
    if i < a.len() && i < b.len() && i < c.len() && a[i] == b[i] && b[i] == c[i] {
        lemma_below_is_transitive(a, b, c, i + 1);
    }
}

proof fn lemma_below_is_irreflexive(a: Seq<int>, i: int)
    ensures
        !below_from(a, a, i),
    decreases a.len() - i,
{
    if 0 <= i < a.len() {
        lemma_below_is_irreflexive(a, i + 1);
    }
}

/// Members of one key are one member.
proof fn lemma_key_tells_apart(a: MemberView, b: MemberView)
    requires
        sort_key(a) == sort_key(b),
    ensures
        a == b,
{
    let x = sort_key(a);
    let y = sort_key(b);
    let n: int = a.name.len() as int;
    assert(x.len() == n + 7);
    assert(y.len() == b.name.len() + 7);
    assert(n == b.name.len());
    assert forall|k: int| 0 <= k < n implies a.name[k] == b.name[k] by {
        assert(x[k] == a.name[k] as int);
        assert(y[k] == b.name[k] as int);
        assert(x[k] == y[k]);
    }
    assert(a.name =~= b.name);
    assert(x[n + 1] == a.offset && y[n + 1] == b.offset);
    assert(x[n + 2] == kind_rank(a.ty.kind) && y[n + 2] == kind_rank(b.ty.kind));
    assert(x[n + 3] == option_rank(a.ty.byte_size) && y[n + 3] == option_rank(b.ty.byte_size));
    assert(x[n + 4] == option_kind_rank(a.ty.element_kind) && y[n + 4] == option_kind_rank(
        b.ty.element_kind,
    ));
    assert(x[n + 5] == option_rank(a.ty.element_size) && y[n + 5] == option_rank(
        b.ty.element_size,
    ));
    assert(x[n + 6] == option_rank(a.ty.element_count) && y[n + 6] == option_rank(
        b.ty.element_count,
    ));
}

/// Each member of a list comes before those behind it.
pub open spec fn in_order(list: Seq<MemberView>) -> bool {
    forall|i: int, j: int|
        0 <= i < j < list.len() ==> before(#[trigger] list[i], #[trigger] list[j])
}

/// Placing a member keeps a list in order and adds that member alone.
proof fn lemma_placed(list: Seq<MemberView>, m: MemberView, i: int)
    requires
        in_order(list),
        0 <= i <= list.len(),
        forall|k: int| 0 <= k < i ==> before(#[trigger] list[k], m),
    ensures
        in_order(placed(list, m, i)),
        forall|x: MemberView|
            #[trigger] placed(list, m, i).contains(x) <==> list.contains(x) || x == m,
    decreases list.len() - i,
{
    let after = placed(list, m, i);
    if i == list.len() {
        assert(after == list.push(m));
        assert forall|x: MemberView| #[trigger] after.contains(x) == (list.contains(x) || x
            == m) by {
            assert(after[list.len() as int] == m);
            if list.contains(x) {
                let k = choose|k: int| 0 <= k < list.len() && list[k] == x;
                assert(after[k] == x);
            }
        }
    } else if list[i] == m {
        assert(list.contains(m));
    } else if before(m, list[i]) {
        assert(after == list.insert(i, m));
        assert forall|a: int, b: int| 0 <= a < b < after.len() implies before(
            #[trigger] after[a],
            #[trigger] after[b],
        ) by {
            if a == i && b > i + 1 {
                assert(before(list[i], list[b - 1]));
                lemma_below_is_transitive(
                    sort_key(m),
                    sort_key(list[i]),
                    sort_key(list[b - 1]),
                    0,
                );
            }
        }
        assert forall|x: MemberView| #[trigger] after.contains(x) == (list.contains(x) || x
            == m) by {
            assert(after[i] == m);
            if list.contains(x) {
                let k = choose|k: int| 0 <= k < list.len() && list[k] == x;
                assert(after[if k < i {
                    k
                } else {
                    k + 1
                }] == x);
            }
            if after.contains(x) && x != m {
                let k = choose|k: int| 0 <= k < after.len() && after[k] == x;
                assert(list[if k < i {
                    k
                } else {
                    k - 1
                }] == x);
            }
        }
    } else {
        if sort_key(list[i]) == sort_key(m) {
            lemma_key_tells_apart(list[i], m);
        }
        lemma_below_is_total(sort_key(list[i]), sort_key(m), 0);
        lemma_placed(list, m, i + 1);
    }
}

/// The member at an entry, where it is one that is read.
pub open spec fn member_at(
    sections: Sections,
    headers: Seq<UnitHeader>,
    unit: UnitHeader,
    child: DieAt,
    target: Target,
) -> std::result::Result<Option<MemberView>, DwarfError> {
    if child.tag != DW_TAG_MEMBER {
        Ok(None)
    } else {
        match types::name_of(sections, unit, child.offset) {
            Err(e) => Err(e),
            Ok(None) => Ok(None),
            Ok(Some(name)) => if !target.wanted().contains(name) {
                Ok(None)
            } else {
                match types::location_of(sections, unit, child.offset) {
                    Err(e) => Err(e),
                    Ok(offset) => match types::type_of(
                        sections,
                        headers,
                        unit,
                        child.offset,
                        name + " has no type"@,
                    ) {
                        Err(e) => Err(e),
                        Ok((type_unit, type_die)) => match types::type_at(
                            sections,
                            headers,
                            type_unit,
                            type_die,
                            0,
                            Seq::empty(),
                        ) {
                            Err(e) => Err(e),
                            Ok(ty) => Ok(Some(MemberView { name, offset, ty })),
                        },
                    },
                }
            },
        }
    }
}

fn read_member<'a>(
    context: &Context<'_, 'a>,
    unit: &LoadedUnit<'a>,
    child: DieAt,
    target: Target,
) -> (r: Outcome<Option<Member>>)
    requires
        context.wf(),
        unit.wf(),
        unit.sections() == context.sections(),
    ensures
        match r {
            Ok(Some(m)) => member_at(
                context.sections(),
                context.headers@,
                unit.header,
                child,
                target,
            ) == Ok::<Option<MemberView>, DwarfError>(Some(m@)),
            Ok(None) => member_at(
                context.sections(),
                context.headers@,
                unit.header,
                child,
                target,
            ) == Ok::<Option<MemberView>, DwarfError>(None),
            Err(e) => member_at(
                context.sections(),
                context.headers@,
                unit.header,
                child,
                target,
            ) == Err::<Option<MemberView>, DwarfError>(e@),
        },
{
    if child.tag != DW_TAG_MEMBER {
        return Ok(None);
    }
    let name: String = match entry_name(context.dwarf, unit, child.offset) {
        Ok(Some(name)) => name,
        Ok(None) => return Ok(None),
        Err(e) => return Err(e),
    };
    if !target.wants(&name) {
        return Ok(None);
    }
    let offset: u64 = match member_location(unit, child.offset) {
        Ok(offset) => offset,
        Err(e) => return Err(e),
    };
    let missing: String = text::concat2(&name, " has no type");
    let mut visited: Vec<(usize, usize)> = Vec::new();
    let resolved: Outcome<TypeInfo> = match type_ref(context, unit, child.offset, &missing) {
        Ok(Place::Here(die)) => resolve_type(context, unit, die, 0, &mut visited),
        Ok(Place::There(other, die)) => resolve_type(context, &other, die, 0, &mut visited),
        Err(e) => return Err(e),
    };
    match resolved {
        Ok(ty) => Ok(Some(Member { name, offset, ty })),
        Err(e) => Err(e),
    }
}

/// The members that are read from child `i` on, put among those met so far.
pub open spec fn members_from(
    sections: Sections,
    headers: Seq<UnitHeader>,
    unit: UnitHeader,
    target: Target,
    children: Seq<DieAt>,
    broken: bool,
    i: int,
    met: Seq<MemberView>,
) -> std::result::Result<Seq<MemberView>, DwarfError>
    decreases children.len() - i,
{
    if i < 0 || i >= children.len() {
        if broken {
            Err(DwarfError::Parse)
        } else {
            Ok(met)
        }
    } else {
        match member_at(sections, headers, unit, children[i], target) {
            Err(e) => Err(e),
            Ok(None) => members_from(
                sections,
                headers,
                unit,
                target,
                children,
                broken,
                i + 1,
                met,
            ),
            Ok(Some(m)) => members_from(
                sections,
                headers,
                unit,
                target,
                children,
                broken,
                i + 1,
                placed(met, m, 0),
            ),
        }
    }
}

/// The structure at an entry: its size and the members that are read, in order and
/// each once.
pub open spec fn structure_at(
    sections: Sections,
    headers: Seq<UnitHeader>,
    unit: UnitHeader,
    die: usize,
    target: Target,
) -> std::result::Result<StructureView, DwarfError> {
    if reader::tag_in(sections, unit.offset, die) is None {
        Err(DwarfError::Parse)
    } else {
        match types::attr_of(sections, unit, die, DW_AT_DECLARATION) {
            Err(e) => Err(e),
            Ok(declaration) => if says_declaration(declaration) {
                assemble::invalid_because("target is only a declaration"@)
            } else {
                match types::attr_of(sections, unit, die, DW_AT_BYTE_SIZE) {
                    Err(e) => Err(e),
                    Ok(size) => match types::number(size) {
                        None => assemble::invalid_because("structure has no byte size"@),
                        Some(byte_size) => match size_check(byte_size, unit.address_size) {
                            Err(e) => Err(e),
                            Ok(_) => match reader::children_in(sections, unit.offset, die) {
                                None => Err(DwarfError::Parse),
                                Some((children, broken)) => match members_from(
                                    sections,
                                    headers,
                                    unit,
                                    target,
                                    children,
                                    broken,
                                    0,
                                    Seq::empty(),
                                ) {
                                    Err(e) => Err(e),
                                    Ok(members) => Ok(StructureView { byte_size, members }),
                                },
                            },
                        },
                    },
                }
            },
        }
    }
}

proof fn lemma_members(
    sections: Sections,
    headers: Seq<UnitHeader>,
    unit: UnitHeader,
    target: Target,
    children: Seq<DieAt>,
    broken: bool,
    i: int,
    met: Seq<MemberView>,
)
    requires
        0 <= i <= children.len(),
        in_order(met),
    ensures
        members_from(sections, headers, unit, target, children, broken, i, met) matches Ok(members)
            ==> in_order(members) && (forall|m: MemberView|
            #[trigger] members.contains(m) <==> met.contains(m) || exists|k: int|
                i <= k < children.len() && #[trigger] member_at(
                    sections,
                    headers,
                    unit,
                    children[k],
                    target,
                ) == Ok::<Option<MemberView>, DwarfError>(Some(m))),
    decreases children.len() - i,
{
    if i < children.len() {
        match member_at(sections, headers, unit, children[i], target) {
            Ok(Some(m)) => {
                lemma_placed(met, m, 0);
                lemma_members(
                    sections,
                    headers,
                    unit,
                    target,
                    children,
                    broken,
                    i + 1,
                    placed(met, m, 0),
                );
            },
            _ => lemma_members(sections, headers, unit, target, children, broken, i + 1, met),
        }
        if let Ok(members) = members_from(
            sections,
            headers,
            unit,
            target,
            children,
            broken,
            i,
            met,
        ) {
            assert forall|m: MemberView| #[trigger] members.contains(m) == (met.contains(m)
                || exists|k: int|
                i <= k < children.len() && #[trigger] member_at(
                    sections,
                    headers,
                    unit,
                    children[k],
                    target,
                ) == Ok::<Option<MemberView>, DwarfError>(Some(m))) by {
                if let Ok(Some(first)) = member_at(sections, headers, unit, children[i], target) {
                    assert(placed(met, first, 0).contains(m) == (met.contains(m) || m == first));
                }
            }
        }
    }
}

/// The members of a structure stand in one order whatever order they are declared
/// in, no member stands twice, and they are the wanted members among the children.
pub proof fn law_members_are_ordered_and_distinct(
    sections: Sections,
    headers: Seq<UnitHeader>,
    unit: UnitHeader,
    die: usize,
    target: Target,
    structure: StructureView,
)
    requires
        structure_at(sections, headers, unit, die, target) == Ok::<StructureView, DwarfError>(
            structure,
        ),
    ensures
        in_order(structure.members),
        structure.members.no_duplicates(),
        forall|m: MemberView| #[trigger]
            structure.members.contains(m) <==> exists|k: int|
                0 <= k < (reader::children_in(sections, unit.offset, die)->0).0.len()
                    && #[trigger] member_at(
                    sections,
                    headers,
                    unit,
                    (reader::children_in(sections, unit.offset, die)->0).0[k],
                    target,
                ) == Ok::<Option<MemberView>, DwarfError>(Some(m)),
{
    let (children, broken) = reader::children_in(sections, unit.offset, die)->0;
    lemma_members(sections, headers, unit, target, children, broken, 0, Seq::empty());
    assert forall|i: int, j: int|
        0 <= i < structure.members.len() && 0 <= j < structure.members.len() && i
            != j implies structure.members[i] != structure.members[j] by {
        lemma_below_is_irreflexive(sort_key(structure.members[i]), 0);
        if i < j {
            assert(before(structure.members[i], structure.members[j]));
        } else {
            assert(before(structure.members[j], structure.members[i]));
        }
    }
}

fn read_members<'a>(
    context: &Context<'_, 'a>,
    unit: &LoadedUnit<'a>,
    die: usize,
    target: Target,
) -> (r: Outcome<Vec<Member>>)
    requires
        context.wf(),
        unit.wf(),
        unit.sections() == context.sections(),
    ensures
        ({
            let found = reader::children_in(context.sections(), unit.header.offset, die);
            let want = if found is None {
                Err::<Seq<MemberView>, DwarfError>(DwarfError::Parse)
            } else {
                members_from(
                    context.sections(),
                    context.headers@,
                    unit.header,
                    target,
                    (found->0).0,
                    (found->0).1,
                    0,
                    Seq::empty(),
                )
            };
            match r {
                Ok(members) => want == Ok::<Seq<MemberView>, DwarfError>(
                    super::member_views(members@),
                ),
                Err(e) => want == Err::<Seq<MemberView>, DwarfError>(e@),
            }
        }),
{
    let mut tree = match open_tree(&unit.unit, die) {
        Ok(tree) => tree,
        Err(e) => return Err(parse_error(e)),
    };
    let mut walk = match children(&mut tree) {
        Ok(walk) => walk,
        Err(e) => return Err(parse_error(e)),
    };
    let ghost (all, broken) = reader::children_rest(walk);
    let ghost mut i: int = 0;
    let mut members: Vec<Member> = Vec::new();
    let ghost whole = members_from(
        context.sections(),
        context.headers@,
        unit.header,
        target,
        all,
        broken,
        0,
        Seq::empty(),
    );
    assert(all.skip(0) =~= all);
    assert(super::member_views(members@) =~= Seq::empty());
    loop
        invariant
            context.wf(),
            unit.wf(),
            unit.sections() == context.sections(),
            0 <= i <= all.len(),
            reader::children_in(context.sections(), unit.header.offset, die) == Some((all, broken)),
            whole == members_from(
                context.sections(),
                context.headers@,
                unit.header,
                target,
                all,
                broken,
                0,
                Seq::empty(),
            ),
            reader::children_rest(walk) == (all.skip(i), broken),
            members_from(
                context.sections(),
                context.headers@,
                unit.header,
                target,
                all,
                broken,
                i,
                super::member_views(members@),
            ) == whole,
        decreases all.len() - i,
    {
        let child: DieAt = match next_child(&mut walk) {
            Ok(Some(child)) => child,
            Ok(None) => return Ok(members),
            Err(e) => return Err(parse_error(e)),
        };
        proof {
            assert(child == all[i]);
            assert(all.skip(i).skip(1) =~= all.skip(i + 1));
            i = i + 1;
        }
        match read_member(context, unit, child, target) {
            Ok(Some(member)) => insert_member(&mut members, member),
            Ok(None) => {},
            Err(e) => return Err(e),
        }
    }
}

/// Read the structure at an entry.
pub fn parse_structure<'a>(
    context: &Context<'_, 'a>,
    unit: &LoadedUnit<'a>,
    die: usize,
    target: Target,
) -> (r: Outcome<Structure>)
    requires
        context.wf(),
        unit.wf(),
        unit.sections() == context.sections(),
    ensures
        match r {
            Ok(structure) => structure_at(
                context.sections(),
                context.headers@,
                unit.header,
                die,
                target,
            ) == Ok::<StructureView, DwarfError>(structure@),
            Err(e) => structure_at(
                context.sections(),
                context.headers@,
                unit.header,
                die,
                target,
            ) == Err::<StructureView, DwarfError>(e@),
        },
{
    if let Err(e) = read_tag(&unit.unit, die) {
        return Err(parse_error(e));
    }
    let declaration: Option<Attr> = match read_attr(&unit.unit, die, DW_AT_DECLARATION) {
        Ok(attr) => attr,
        Err(e) => return Err(parse_error(e)),
    };
    if is_declaration(declaration) {
        return Err(DwarfLayoutError::Invalid("target is only a declaration".to_owned()));
    }
    let byte_size: u64 = match read_attr(&unit.unit, die, DW_AT_BYTE_SIZE) {
        Ok(Some(Attr { udata: Some(size), .. })) => size,
        Ok(_) => {
            return Err(DwarfLayoutError::Invalid("structure has no byte size".to_owned()));
        },
        Err(e) => return Err(parse_error(e)),
    };
    if let Err(e) = validate_struct_size(byte_size, unit.header.address_size) {
        return Err(e);
    }
    match read_members(context, unit, die, target) {
        Ok(members) => Ok(Structure { byte_size, members }),
        Err(e) => Err(e),
    }
}

} // verus!
