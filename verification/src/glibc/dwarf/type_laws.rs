//! What the type of a member is, in terms of its entries and their attributes.

use vstd::prelude::*;

use super::reader;
use super::reader::{Attr, AttrKind, DieAt, Op, UnitHeader};
use super::types;
use super::sections::Sections;
use super::{DwarfError, TypeInfo, TypeKind};

verus! {

/// An entry has a tag, and its byte size can be read.
pub open spec fn is_entry(
    sections: Sections,
    unit: UnitHeader,
    die: usize,
    tag: u16,
    size: Option<Attr>,
) -> bool {
    &&& reader::tag_in(sections, unit.offset, die) == Some(tag)
    &&& reader::attr_in(sections, unit.offset, die, 0x0b) == Some(size)
}

/// The number that an attribute holds.
pub open spec fn held(attr: Option<Attr>) -> Option<u64> {
    if attr is Some {
        (attr->0).udata
    } else {
        None
    }
}

/// A pointer and a reference take the bytes that they say, else an address of their unit.
pub proof fn law_pointers(
    sections: Sections,
    headers: Seq<UnitHeader>,
    unit: UnitHeader,
    die: usize,
    tag: u16,
    size: Option<Attr>,
)
    requires
        is_entry(sections, unit, die, tag, size),
        tag == 0x0f || tag == 0x10,
    ensures
        types::type_at(sections, headers, unit, die, 0, Seq::empty()) matches Ok(ty) && {
            &&& ty.kind == TypeKind::Pointer
            &&& held(size) is Some ==> ty.byte_size == held(size)
            &&& held(size) is None ==> ty.byte_size == Some(unit.address_size as u64)
            &&& ty.element_kind is None && ty.element_size is None && ty.element_count is None
        },
{
}

/// A base type and an enumeration are unsigned exactly where their encoding is boolean (2),
/// unsigned (7) or an unsigned character (8).
pub proof fn law_integers(
    sections: Sections,
    headers: Seq<UnitHeader>,
    unit: UnitHeader,
    die: usize,
    tag: u16,
    size: Option<Attr>,
    encoding: Option<Attr>,
)
    requires
        is_entry(sections, unit, die, tag, size),
        reader::attr_in(sections, unit.offset, die, 0x3e) == Some(encoding),
        tag == 0x24 || tag == 0x04,
    ensures
        types::type_at(sections, headers, unit, die, 0, Seq::empty()) matches Ok(ty) && {
            let code = match encoding {
                Some(attr) => match attr.kind {
                    AttrKind::Encoding(code) => code as int,
                    _ => -1,
                },
                None => -1,
            };
            &&& ty.byte_size == held(size)
            &&& code == 2 || code == 7 || code == 8 ==> ty.kind == TypeKind::Unsigned
            &&& code != 2 && code != 7 && code != 8 ==> ty.kind == TypeKind::Signed
            &&& ty.element_kind is None && ty.element_size is None && ty.element_count is None
        },
{
}

/// A structure and a class are told as such; every entry that is no alias, pointer, array,
/// number or structure is of another kind. Both have the size that they say.
pub proof fn law_other_types(
    sections: Sections,
    headers: Seq<UnitHeader>,
    unit: UnitHeader,
    die: usize,
    tag: u16,
    size: Option<Attr>,
)
    requires
        is_entry(sections, unit, die, tag, size),
        !seq![
            0x16u16,
            0x26,
            0x35,
            0x37,
            0x47,
            0x0f,
            0x10,
            0x01,
            0x24,
            0x04,
        ].contains(tag),
    ensures
        types::type_at(sections, headers, unit, die, 0, Seq::empty()) matches Ok(ty) && {
            &&& ty.byte_size == held(size)
            &&& tag == 0x13 || tag == 0x02 ==> ty.kind == TypeKind::Structure
            &&& tag != 0x13 && tag != 0x02 ==> ty.kind == TypeKind::Other
            &&& ty.element_kind is None && ty.element_size is None && ty.element_count is None
        },
{
    let all = seq![0x16u16, 0x26, 0x35, 0x37, 0x47, 0x0f, 0x10, 0x01, 0x24, 0x04];
    assert(all[0] == 0x16 && all[1] == 0x26 && all[2] == 0x35 && all[3] == 0x37 && all[4] == 0x47);
    assert(all[5] == 0x0f && all[6] == 0x10 && all[7] == 0x01 && all[8] == 0x24 && all[9] == 0x04);
}

/// The product of the first `n` numbers.
pub open spec fn product(lengths: Seq<u64>, n: int) -> int
    decreases n,
{
    if n <= 0 {
        1
    } else {
        product(lengths, n - 1) * lengths[n - 1]
    }
}

proof fn lemma_product(lengths: Seq<u64>, i: int)
    requires
        0 <= i <= lengths.len(),
        0 <= product(lengths, i) <= u64::MAX,
    ensures
        match types::product_from(product(lengths, i) as u64, lengths, i) {
            Some(p) => p == product(lengths, lengths.len() as int) && forall|k: int|
                i <= k <= lengths.len() ==> #[trigger] product(lengths, k) <= u64::MAX,
            None => exists|k: int|
                i <= k <= lengths.len() && #[trigger] product(lengths, k) > u64::MAX,
        },
    decreases lengths.len() - i,
{
    if i < lengths.len() {
        let next = product(lengths, i + 1);
        assert(next == product(lengths, i) * lengths[i]);
        assert(next >= 0) by (nonlinear_arith)
            requires
                next == product(lengths, i) * lengths[i],
                product(lengths, i) >= 0,
                lengths[i] >= 0,
        ;
        if next <= u64::MAX {
            lemma_product(lengths, i + 1);
            assert(types::product_from(product(lengths, i) as u64, lengths, i)
                == types::product_from(next as u64, lengths, i + 1));
        }
    }
}

/// An array has the elements of its type: their kind and size, and as many as the product
/// of its lengths, where that fits at every step. Its size is the one that it says, else
/// that of all elements together.
pub proof fn law_arrays(
    sections: Sections,
    headers: Seq<UnitHeader>,
    unit: UnitHeader,
    die: usize,
    size: Option<Attr>,
    attr: Attr,
    element: TypeInfo,
    lengths: Seq<u64>,
)
    requires
        is_entry(sections, unit, die, 0x01, size),
        reader::attr_in(sections, unit.offset, die, 0x49) == Some(Some(attr)),
        types::referent(sections, headers, unit, attr) matches Ok((other, at))
            && types::type_at(sections, headers, other, at, 1, seq![(unit.offset, die)])
            == Ok::<TypeInfo, DwarfError>(element),
        types::dimensions_of(sections, unit, die) == Ok::<Option<Seq<u64>>, DwarfError>(
            Some(lengths),
        ),
        forall|k: int| 0 <= k <= lengths.len() ==> #[trigger] product(lengths, k) <= u64::MAX,
    ensures
        types::type_at(sections, headers, unit, die, 0, Seq::empty()) matches Ok(ty) && {
            let count = product(lengths, lengths.len() as int);
            &&& ty.kind == TypeKind::Array
            &&& ty.element_kind == Some(element.kind)
            &&& ty.element_size == element.byte_size
            &&& ty.element_count is Some && ty.element_count->0 == count
            &&& held(size) is Some ==> ty.byte_size == held(size)
            &&& held(size) is None && element.byte_size is Some && element.byte_size->0 * count
                <= u64::MAX ==> (ty.byte_size is Some && ty.byte_size->0 == element.byte_size->0
                * count)
            &&& held(size) is None && (element.byte_size is None || element.byte_size->0 * count
                > u64::MAX) ==> ty.byte_size is None
        },
{
    assert(product(lengths, 0) == 1);
    lemma_product(lengths, 0);
    assert(Seq::<(usize, usize)>::empty().push((unit.offset, die)) =~= seq![(unit.offset, die)]);
}

/// An array whose lengths are not all known, or too large together, has no count, and a
/// size only where it says one.
pub proof fn law_open_arrays(byte_size: Option<u64>, element: TypeInfo, lengths: Option<Seq<u64>>)
    requires
        lengths is None || exists|k: int|
            0 <= k <= lengths->0.len() && #[trigger] product(lengths->0, k) > u64::MAX,
    ensures
        types::array_of(byte_size, element, lengths).kind == TypeKind::Array,
        types::array_of(byte_size, element, lengths).element_count is None,
        types::array_of(byte_size, element, lengths).byte_size == byte_size,
        types::array_of(byte_size, element, lengths).element_kind == Some(element.kind),
        types::array_of(byte_size, element, lengths).element_size == element.byte_size,
{
    if let Some(all) = lengths {
        assert(product(all, 0) == 1);
        lemma_product(all, 0);
    }
}

/// A length of an array is its count, or one more than what its upper bound is above its
/// lower, which is zero where it is not given. Given both ways, the two must agree; given
/// neither way, it is open.
pub proof fn law_lengths(count: Option<u64>, lower: Option<int>, upper: Option<int>, n: u64)
    ensures
        ({
            let low = if lower is Some {
                lower->0
            } else {
                0
            };
            let r = types::subrange_length(count, lower, upper);
            &&& r == Ok::<Option<u64>, DwarfError>(None) <==> count is None && upper is None
            &&& r == Ok::<Option<u64>, DwarfError>(Some(n)) <==> {
                &&& count is Some || upper is Some
                &&& count is Some ==> count->0 == n
                &&& upper is Some ==> n == upper->0 - low + 1
            }
        }),
{
}

/// The bounds of a length are signed where they are stored so.
pub proof fn law_bounds_are_signed(attr: Attr)
    ensures
        attr.kind matches AttrKind::Sdata(v) ==> types::signed_number(Some(attr)) == Some(v as int),
        !(attr.kind is Sdata) && attr.udata is Some ==> types::signed_number(Some(attr)) == Some(
            attr.udata->0 as int,
        ),
        !(attr.kind is Sdata) && attr.udata is None ==> types::signed_number(Some(attr)) is None,
        types::signed_number(None) is None,
        types::number(Some(attr)) == attr.udata,
        types::number(None) is None,
{
}

/// The lengths met are those of the first `i` children that are lengths.
spec fn are_lengths(
    sections: Sections,
    unit: UnitHeader,
    children: Seq<DieAt>,
    met: Seq<u64>,
) -> bool {
    let given = children.filter(|c: DieAt| c.tag == 0x21);
    &&& met.len() == given.len()
    &&& forall|k: int|
        0 <= k < met.len() ==> types::subrange_of(sections, unit, (#[trigger] given[k]).offset)
            == Ok::<Option<u64>, DwarfError>(Some(met[k]))
}

proof fn lemma_dimensions(
    sections: Sections,
    unit: UnitHeader,
    children: Seq<DieAt>,
    broken: bool,
    i: int,
    met: Seq<u64>,
)
    requires
        0 <= i <= children.len(),
        are_lengths(sections, unit, children.take(i), met),
    ensures
        types::dimensions_from(sections, unit, children, broken, i, met) matches Ok(Some(all))
            ==> !broken && all.len() > 0 && are_lengths(sections, unit, children, all),
    decreases children.len() - i,
{
    if i < children.len() {
        reveal(Seq::filter);
        let is_length = |c: DieAt| c.tag == 0x21;
        let now = children.take(i + 1);
        assert(now.drop_last() =~= children.take(i));
        assert(now.last() == children[i]);
        let before = children.take(i).filter(is_length);
        if children[i].tag == 0x21 {
            if let Ok(Some(n)) = types::subrange_of(sections, unit, children[i].offset) {
                assert(now.filter(is_length) == before.push(children[i]));
                let after = met.push(n);
                let given = now.filter(is_length);
                assert forall|k: int| 0 <= k < after.len() implies types::subrange_of(
                    sections,
                    unit,
                    (#[trigger] given[k]).offset,
                ) == Ok::<Option<u64>, DwarfError>(Some(after[k])) by {
                    if k < met.len() {
                        assert(given[k] == before[k]);
                    }
                }
                lemma_dimensions(sections, unit, children, broken, i + 1, after);
            }
        } else {
            assert(now.filter(is_length) == before);
            lemma_dimensions(sections, unit, children, broken, i + 1, met);
        }
    } else {
        assert(children.take(i) =~= children);
    }
}

/// The lengths of an array are those of its children that are lengths (tag `0x21`), all of
/// them, in their order.
pub proof fn law_dimensions_are_the_lengths(
    sections: Sections,
    unit: UnitHeader,
    die: usize,
    children: Seq<DieAt>,
    lengths: Seq<u64>,
)
    requires
        reader::children_in(sections, unit.offset, die) matches Some((list, _)) && list
            == children,
        types::dimensions_of(sections, unit, die) == Ok::<Option<Seq<u64>>, DwarfError>(
            Some(lengths),
        ),
    ensures
        ({
            let given = children.filter(|c: DieAt| c.tag == 0x21);
            &&& lengths.len() > 0
            &&& lengths.len() == given.len()
            &&& forall|k: int|
                0 <= k < lengths.len() ==> types::subrange_of(
                    sections,
                    unit,
                    (#[trigger] given[k]).offset,
                ) == Ok::<Option<u64>, DwarfError>(Some(lengths[k]))
        }),
{
    reveal(Seq::filter);
    let (list, broken) = reader::children_in(sections, unit.offset, die)->0;
    assert(children.take(0).filter(|c: DieAt| c.tag == 0x21) =~= Seq::empty());
    lemma_dimensions(sections, unit, children, broken, 0, Seq::empty());
}

/// A length takes its count, lower and upper bound from the attributes `0x37`, `0x22` and
/// `0x2f`.
pub proof fn law_length_is_read_from_its_attributes(
    sections: Sections,
    unit: UnitHeader,
    die: usize,
    count: Option<Attr>,
    lower: Option<Attr>,
    upper: Option<Attr>,
)
    requires
        reader::attr_in(sections, unit.offset, die, 0x37) == Some(count),
        reader::attr_in(sections, unit.offset, die, 0x22) == Some(lower),
        reader::attr_in(sections, unit.offset, die, 0x2f) == Some(upper),
    ensures
        types::subrange_of(sections, unit, die) == types::subrange_length(
            held(count),
            types::signed_number(lower),
            types::signed_number(upper),
        ),
{
}

/// A place in the debug information belongs to the unit whose entries it lies among; it is
/// counted from that unit's start.
pub proof fn law_owner_holds_the_place(headers: Seq<UnitHeader>, absolute: usize, k: int)
    requires
        forall|i: int, j: int|
            0 <= i < j < headers.len() ==> (#[trigger] headers[i]).offset + headers[i].length <= (
            #[trigger] headers[j]).offset,
    ensures
        types::owner_of(headers, absolute) matches Some((unit, offset)) ==> {
            &&& headers.contains(unit)
            &&& unit.offset + offset == absolute
            &&& unit.header_size <= offset < unit.length
        },
        0 <= k < headers.len() && headers[k].offset + headers[k].header_size <= absolute
            < headers[k].offset + headers[k].length ==> types::owner_of(headers, absolute) == Some(
            (headers[k], (absolute - headers[k].offset) as usize),
        ),
{
    let n = lemma_last_before(headers, headers.len() as int, absolute);
    if n >= 0 {
        assert(headers.contains(headers[n]));
    }
    if 0 <= k < headers.len() && headers[k].offset + headers[k].header_size <= absolute
        < headers[k].offset + headers[k].length {
        if k < n {
            assert(headers[k].offset + headers[k].length <= headers[n].offset);
        }
        if n < k {
            assert(headers[k].offset > absolute);
        }
    }
}

proof fn lemma_last_before(headers: Seq<UnitHeader>, n: int, absolute: usize) -> (k: int)
    requires
        0 <= n <= headers.len(),
    ensures
        -1 <= k < n,
        k >= 0 ==> types::last_before(headers, n, absolute) == Some(headers[k])
            && headers[k].offset <= absolute,
        k < 0 ==> types::last_before(headers, n, absolute) is None,
        forall|j: int| k < j < n ==> (#[trigger] headers[j]).offset > absolute,
    decreases n,
{
    if n == 0 {
        -1
    } else if headers[n - 1].offset <= absolute {
        n - 1
    } else {
        lemma_last_before(headers, n - 1, absolute)
    }
}

/// A reference within a unit is taken as it stands; one across units leads to the unit
/// that holds the place. Others are refused.
pub proof fn law_references(
    sections: Sections,
    headers: Seq<UnitHeader>,
    unit: UnitHeader,
    attr: Attr,
)
    ensures
        attr.kind matches AttrKind::UnitRef(offset) ==> types::referent(
            sections,
            headers,
            unit,
            attr,
        ) == Ok::<(UnitHeader, usize), DwarfError>((unit, offset)),
        attr.kind matches AttrKind::DebugInfoRef(absolute) ==> {
            let r = types::referent(sections, headers, unit, attr);
            &&& r is Ok <==> types::owner_of(headers, absolute) is Some && types::unit_at(
                sections,
                (types::owner_of(headers, absolute)->0).0.offset,
            ) is Some
            &&& r matches Ok(place) ==> types::owner_of(headers, absolute) == Some(place)
        },
        !(attr.kind is UnitRef) && !(attr.kind is DebugInfoRef) ==> types::referent(
            sections,
            headers,
            unit,
            attr,
        ) is Err,
{
}

/// A member lies at the number that its location holds, else at the constant that its
/// location adds and does nothing more; any other location is refused.
pub proof fn law_locations(
    sections: Sections,
    unit: UnitHeader,
    die: usize,
    attr: Attr,
    bytes: Seq<u8>,
)
    requires
        reader::attr_in(sections, unit.offset, die, 0x38) == Some(Some(attr)),
        reader::expression_in(sections, unit.offset, die, 0x38) == Some(bytes),
    ensures
        attr.udata matches Some(offset) ==> types::location_of(sections, unit, die) == Ok::<
            u64,
            DwarfError,
        >(offset),
        attr.udata is None && attr.kind != AttrKind::Exprloc ==> types::location_of(
            sections,
            unit,
            die,
        ) == Err::<u64, DwarfError>(DwarfError::Unsupported("non-constant member location"@)),
        attr.udata is None && attr.kind == AttrKind::Exprloc ==> {
            let first = types::operation_of(sections, unit, bytes);
            &&& types::location_of(sections, unit, die) matches Ok(offset) ==> (first matches Ok(
                Some((op, rest)),
            ) && op == Op::PlusConstant(offset) && rest.len() == 0)
            &&& (first matches Ok(Some((Op::PlusConstant(offset), rest))) && rest.len() == 0)
                ==> types::location_of(sections, unit, die) is Ok
        },
{
}

/// An entry is an alias: a typedef, or its type is qualified as constant, volatile,
/// restrict or atomic.
pub open spec fn is_alias_tag(tag: u16) -> bool {
    tag == 0x16 || tag == 0x26 || tag == 0x35 || tag == 0x37 || tag == 0x47
}

/// An alias leads from one entry to the next.
pub open spec fn leads(
    sections: Sections,
    headers: Seq<UnitHeader>,
    from: (UnitHeader, usize),
    to: (UnitHeader, usize),
) -> bool {
    &&& reader::tag_in(sections, from.0.offset, from.1) matches Some(tag) && is_alias_tag(tag)
    &&& reader::attr_in(sections, from.0.offset, from.1, 0x49) matches Some(Some(attr))
        && types::referent(sections, headers, from.0, attr) == Ok::<
        (UnitHeader, usize),
        DwarfError,
    >(to)
}

/// Aliases lead over these entries.
pub open spec fn is_trail(
    sections: Sections,
    headers: Seq<UnitHeader>,
    trail: Seq<(UnitHeader, usize)>,
) -> bool {
    forall|i: int| 0 <= i < trail.len() - 1 ==> #[trigger] leads_on(sections, headers, trail, i)
}

/// An alias leads from entry `i` to the one behind it.
pub open spec fn leads_on(
    sections: Sections,
    headers: Seq<UnitHeader>,
    trail: Seq<(UnitHeader, usize)>,
    i: int,
) -> bool {
    leads(sections, headers, trail[i], trail[i + 1])
}

/// An entry of a structure or of a class.
pub open spec fn defines(sections: Sections, place: (UnitHeader, usize)) -> bool {
    reader::tag_in(sections, place.0.offset, place.1) == Some(0x13u16) || reader::tag_in(
        sections,
        place.0.offset,
        place.1,
    ) == Some(0x02u16)
}

proof fn lemma_resolved(
    sections: Sections,
    headers: Seq<UnitHeader>,
    unit: UnitHeader,
    die: usize,
    depth: u32,
    visited: Seq<(usize, usize)>,
) -> (trail: Seq<(UnitHeader, usize)>)
    requires
        types::structure_of(sections, headers, unit, die, depth, visited) is Ok,
    ensures
        trail.len() > 0,
        trail[0] == (unit, die),
        is_trail(sections, headers, trail),
        defines(sections, trail.last()),
        types::structure_of(sections, headers, unit, die, depth, visited) == Ok::<
            (UnitHeader, usize),
            DwarfError,
        >(trail.last()),
    decreases 64 - depth,
{
    let tag = reader::tag_in(sections, unit.offset, die)->0;
    if types::is_structure(tag) {
        seq![(unit, die)]
    } else {
        let next = types::type_of(sections, headers, unit, die, "type reference is missing"@)->Ok_0;
        let rest = lemma_resolved(
            sections,
            headers,
            next.0,
            next.1,
            (depth + 1) as u32,
            visited.push((unit.offset, die)),
        );
        let trail = seq![(unit, die)] + rest;
        assert forall|i: int| 0 <= i < trail.len() - 1 implies #[trigger] leads_on(
            sections,
            headers,
            trail,
            i,
        ) by {
            if i > 0 {
                assert(leads_on(sections, headers, rest, i - 1));
            }
        }
        assert(trail.last() == rest.last());
        trail
    }
}

/// A definition is found by following aliases: where one is found, they lead to it, and it
/// is a structure or a class.
pub proof fn law_aliases_lead_to_the_definition(
    sections: Sections,
    headers: Seq<UnitHeader>,
    unit: UnitHeader,
    die: usize,
)
    ensures
        types::structure_of(sections, headers, unit, die, 0, Seq::empty()) matches Ok(place)
            ==> exists|trail: Seq<(UnitHeader, usize)>| #[trigger]
            is_trail(sections, headers, trail) && trail.len() > 0 && trail[0] == (unit, die)
                && trail.last() == place && defines(sections, place),
{
    if types::structure_of(sections, headers, unit, die, 0, Seq::empty()) is Ok {
        let trail = lemma_resolved(sections, headers, unit, die, 0, Seq::empty());
        assert(is_trail(sections, headers, trail));
    }
}

proof fn lemma_followed(
    sections: Sections,
    headers: Seq<UnitHeader>,
    trail: Seq<(UnitHeader, usize)>,
    i: int,
    visited: Seq<(usize, usize)>,
)
    requires
        0 <= i < trail.len() <= 64,
        is_trail(sections, headers, trail),
        defines(sections, trail.last()),
        forall|j: int, k: int|
            0 <= j < k < trail.len() ==> types::entry_id(#[trigger] trail[j]) != types::entry_id(
                #[trigger] trail[k],
            ),
        visited == Seq::new(i as nat, |j: int| types::entry_id(trail[j])),
    ensures
        types::structure_of(sections, headers, trail[i].0, trail[i].1, i as u32, visited) == Ok::<
            (UnitHeader, usize),
            DwarfError,
        >(trail.last()),
    decreases trail.len() - i,
{
    let here = trail[i];
    assert(!visited.contains(types::entry_id(here))) by {
        if visited.contains(types::entry_id(here)) {
            let j = choose|j: int| 0 <= j < visited.len() && visited[j] == types::entry_id(here);
            assert(types::entry_id(trail[j]) != types::entry_id(trail[i]));
        }
    }
    if i < trail.len() - 1 {
        assert(leads_on(sections, headers, trail, i));
        let deeper = visited.push(types::entry_id(here));
        assert(deeper =~= Seq::new((i + 1) as nat, |j: int| types::entry_id(trail[j])));
        lemma_followed(sections, headers, trail, i + 1, deeper);
    }
}

/// Aliases are followed over up to 64 entries, each met once, to the structure or class
/// that they lead to.
pub proof fn law_aliases_are_followed(
    sections: Sections,
    headers: Seq<UnitHeader>,
    trail: Seq<(UnitHeader, usize)>,
)
    requires
        0 < trail.len() <= 64,
        is_trail(sections, headers, trail),
        defines(sections, trail.last()),
        forall|j: int, k: int|
            0 <= j < k < trail.len() ==> types::entry_id(#[trigger] trail[j]) != types::entry_id(
                #[trigger] trail[k],
            ),
    ensures
        types::structure_of(sections, headers, trail[0].0, trail[0].1, 0, Seq::empty()) == Ok::<
            (UnitHeader, usize),
            DwarfError,
        >(trail.last()),
{
    let none = Seq::<(usize, usize)>::empty();
    assert(none =~= Seq::new(0, |j: int| types::entry_id(trail[j])));
    lemma_followed(sections, headers, trail, 0, none);
}

/// A name is the text that its bytes spell, of a mebibyte at most.
pub proof fn law_names_are_text(bytes: Seq<u8>)
    ensures
        types::name_in(bytes) is Ok <==> bytes.len() <= 0x10_0000 && vstd::utf8::valid_utf8(bytes),
        types::name_in(bytes) matches Ok(name) ==> name == vstd::utf8::decode_utf8(bytes),
        bytes.len() > 0x10_0000 ==> types::name_in(bytes) == Err::<Seq<char>, DwarfError>(
            DwarfError::Limit("DWARF string length"@),
        ),
{
}

} // verus!
