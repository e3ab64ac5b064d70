//! Following type references between debugging information entries.

use vstd::prelude::*;

use crate::text;

use super::assemble;
use super::limits;
use super::limits::{check_operation, check_root, check_string};
use super::reader;
use super::reader::{
    children, next_child, open_tree, parse_error, read_attr, read_attr_string, read_expression,
    read_operation, read_tag, read_unit, Attr, AttrKind, DieAt, DwarfInfo, DwarfUnit, Op, UnitHeader, DW_ATE_BOOLEAN,
    DW_ATE_UNSIGNED, DW_ATE_UNSIGNED_CHAR, DW_AT_BYTE_SIZE, DW_AT_COUNT,
    DW_AT_DATA_MEMBER_LOCATION, DW_AT_ENCODING, DW_AT_LOWER_BOUND, DW_AT_NAME, DW_AT_TYPE,
    DW_AT_UPPER_BOUND, DW_TAG_ARRAY_TYPE, DW_TAG_ATOMIC_TYPE, DW_TAG_BASE_TYPE, DW_TAG_CLASS_TYPE,
    DW_TAG_CONST_TYPE, DW_TAG_ENUMERATION_TYPE, DW_TAG_POINTER_TYPE, DW_TAG_REFERENCE_TYPE,
    DW_TAG_RESTRICT_TYPE, DW_TAG_STRUCTURE_TYPE, DW_TAG_SUBRANGE_TYPE, DW_TAG_TYPEDEF,
    DW_TAG_VOLATILE_TYPE,
};
use super::sections::Sections;
use super::{DwarfError, DwarfLayoutError, Outcome, TypeInfo, TypeKind};

verus! {

pub const MAX_STRING_BYTES: usize = 1024 * 1024;

pub const MAX_REFERENCE_DEPTH: u32 = 64;

/// The sections being read and the headers of their units, in `.debug_info`
/// order. Absolute references contain a `.debug_info` offset; the ordered headers
/// let their owner be found without rescanning every unit.
pub struct Context<'d, 'a> {
    pub dwarf: &'d DwarfInfo<'a>,
    pub headers: &'d Vec<UnitHeader>,
}

/// Headers by ascending offset.
pub open spec fn ascending(headers: Seq<UnitHeader>) -> bool {
    forall|i: int, j: int|
        0 <= i < j < headers.len() ==> (#[trigger] headers[i]).offset < (
        #[trigger] headers[j]).offset
}

impl<'d, 'a> Context<'d, 'a> {
    pub open spec fn sections(self) -> Sections {
        reader::sections_in(*self.dwarf)
    }

    pub open spec fn wf(self) -> bool {
        ascending(self.headers@)
    }
}

/// A unit with its header and the size of offsets in it.
pub struct LoadedUnit<'a> {
    pub header: UnitHeader,
    pub offset_size: u8,
    pub unit: DwarfUnit<'a>,
}

impl<'a> LoadedUnit<'a> {
    /// The sections that the unit was read from.
    pub open spec fn sections(self) -> Sections {
        reader::unit_place(self.unit).0
    }

    /// The unit was read from where its header says, and its offsets have their size.
    pub open spec fn wf(self) -> bool {
        &&& reader::unit_place(self.unit).1 == self.header.offset
        &&& self.offset_size == reader::offset_size_in(self.sections(), self.header.offset)
    }
}

/// Tags of types that only stand for another.
pub open spec fn is_alias(tag: u16) -> bool {
    tag == DW_TAG_TYPEDEF || tag == DW_TAG_CONST_TYPE || tag == DW_TAG_VOLATILE_TYPE || tag
        == DW_TAG_RESTRICT_TYPE || tag == DW_TAG_ATOMIC_TYPE
}

fn alias_tag(tag: u16) -> (r: bool)
    ensures
        r == is_alias(tag),
{
    tag == DW_TAG_TYPEDEF || tag == DW_TAG_CONST_TYPE || tag == DW_TAG_VOLATILE_TYPE || tag
        == DW_TAG_RESTRICT_TYPE || tag == DW_TAG_ATOMIC_TYPE
}

/// Tags of structures.
pub open spec fn is_structure(tag: u16) -> bool {
    tag == DW_TAG_STRUCTURE_TYPE || tag == DW_TAG_CLASS_TYPE
}

/// An attribute of an entry.
pub open spec fn attr_of(
    sections: Sections,
    unit: UnitHeader,
    die: usize,
    at: u16,
) -> std::result::Result<Option<Attr>, DwarfError> {
    match reader::attr_in(sections, unit.offset, die, at) {
        Some(attr) => Ok(attr),
        None => Err(DwarfError::Parse),
    }
}

fn attr(unit: &LoadedUnit<'_>, die: usize, at: u16) -> (r: Outcome<Option<Attr>>)
    requires
        unit.wf(),
    ensures
        super::outcome(r) == attr_of(unit.sections(), unit.header, die, at),
{
    match read_attr(&unit.unit, die, at) {
        Ok(attr) => Ok(attr),
        Err(e) => Err(parse_error(e)),
    }
}

/// An attribute's value as an unsigned number, where it has one.
pub open spec fn number(attr: Option<Attr>) -> Option<u64> {
    match attr {
        Some(attr) => attr.udata,
        None => None,
    }
}

/// An attribute's value as a number of either sign, where it has one.
pub open spec fn signed_number(attr: Option<Attr>) -> Option<int> {
    match attr {
        None => None,
        Some(attr) => match attr.kind {
            AttrKind::Sdata(value) => Some(value as int),
            _ => match attr.udata {
                Some(value) => Some(value as int),
                None => None,
            },
        },
    }
}

fn number_of(attr: Option<Attr>) -> (r: Option<u64>)
    ensures
        r == number(attr),
{
    match attr {
        Some(attr) => attr.udata,
        None => None,
    }
}

/// An attribute's value as a number of either sign, where it has one.
pub fn attr_i128(attr: Option<Attr>) -> (r: Option<i128>)
    ensures
        r matches Some(v) ==> signed_number(attr) == Some(v as int) && i64::MIN <= v <= u64::MAX,
        r is None ==> signed_number(attr) is None,
{
    match attr {
        None => None,
        Some(attr) => match attr.kind {
            AttrKind::Sdata(value) => Some(value as i128),
            _ => match attr.udata {
                Some(value) => Some(value as i128),
                None => None,
            },
        },
    }
}

/// A name in a string section: not too long, and text.
pub open spec fn name_in(bytes: Seq<u8>) -> std::result::Result<Seq<char>, DwarfError> {
    if bytes.len() > MAX_STRING_BYTES {
        Err(DwarfError::Limit("DWARF string length"@))
    } else if !vstd::utf8::valid_utf8(bytes) {
        assemble::invalid_because("non-UTF-8 DWARF name"@)
    } else {
        Ok(vstd::utf8::decode_utf8(bytes))
    }
}

/// Take a name from the bytes of a string section.
pub fn checked_name(bytes: &[u8]) -> (r: Outcome<String>)
    ensures
        r matches Ok(name) ==> name_in(bytes@) == Ok::<Seq<char>, DwarfError>(name@),
        r matches Err(e) ==> name_in(bytes@) == Err::<Seq<char>, DwarfError>(e@),
{
    if bytes.len() > MAX_STRING_BYTES {
        return Err(DwarfLayoutError::Limit("DWARF string length"));
    }
    match text::utf8_text(bytes) {
        Some(name) => Ok(name.to_owned()),
        None => Err(DwarfLayoutError::Invalid("non-UTF-8 DWARF name".to_owned())),
    }
}

/// The name of an entry, where it has one.
pub open spec fn name_of(sections: Sections, unit: UnitHeader, die: usize) -> std::result::Result<
    Option<Seq<char>>,
    DwarfError,
> {
    match attr_of(sections, unit, die, DW_AT_NAME) {
        Err(e) => Err(e),
        Ok(None) => Ok(None),
        Ok(Some(attr)) => if attr.kind == AttrKind::DebugStrRefSup {
            Err(DwarfError::Unsupported("supplementary DWARF string"@))
        } else if !limits::string_fits(
            attr,
            reader::offset_size_in(sections, unit.offset),
        ) {
            Err(DwarfError::Parse)
        } else {
            match reader::attr_string_in(sections, unit.offset, die, DW_AT_NAME) {
                None => Err(DwarfError::Parse),
                Some(bytes) => match name_in(bytes) {
                    Err(e) => Err(e),
                    Ok(name) => Ok(Some(name)),
                },
            }
        },
    }
}

pub fn entry_name(dwarf: &DwarfInfo<'_>, unit: &LoadedUnit<'_>, die: usize) -> (r: Outcome<
    Option<String>,
>)
    requires
        unit.wf(),
        unit.sections() == reader::sections_in(*dwarf),
    ensures
        match r {
            Ok(Some(name)) => name_of(unit.sections(), unit.header, die) == Ok::<
                Option<Seq<char>>,
                DwarfError,
            >(Some(name@)),
            Ok(None) => name_of(unit.sections(), unit.header, die) == Ok::<
                Option<Seq<char>>,
                DwarfError,
            >(None),
            Err(e) => name_of(unit.sections(), unit.header, die) == Err::<
                Option<Seq<char>>,
                DwarfError,
            >(e@),
        },
{
    let value: Attr = match attr(unit, die, DW_AT_NAME) {
        Ok(Some(value)) => value,
        Ok(None) => return Ok(None),
        Err(e) => return Err(e),
    };
    if value.kind == AttrKind::DebugStrRefSup {
        return Err(DwarfLayoutError::Unsupported("supplementary DWARF string"));
    }
    if !check_string(value, unit.offset_size) {
        return Err(DwarfLayoutError::Parse("string index is out of range".to_owned()));
    }
    match read_attr_string(dwarf, &unit.unit, die, DW_AT_NAME) {
        Err(e) => Err(parse_error(e)),
        Ok(bytes) => match checked_name(&bytes) {
            Ok(name) => Ok(Some(name)),
            Err(e) => Err(e),
        },
    }
}

/// The last of the first `n` headers that starts at or before an offset.
pub open spec fn last_before(headers: Seq<UnitHeader>, n: int, absolute: usize) -> Option<
    UnitHeader,
>
    decreases n,
{
    if n <= 0 || n > headers.len() {
        None
    } else if headers[n - 1].offset <= absolute {
        Some(headers[n - 1])
    } else {
        last_before(headers, n - 1, absolute)
    }
}

/// The unit whose entries hold an offset of `.debug_info`, and the offset in that
/// unit.
pub open spec fn owner_of(headers: Seq<UnitHeader>, absolute: usize) -> Option<
    (UnitHeader, usize),
> {
    match last_before(headers, headers.len() as int, absolute) {
        None => None,
        Some(header) => {
            let offset = absolute - header.offset;
            if header.header_size <= offset < header.length {
                Some((header, offset as usize))
            } else {
                None
            }
        },
    }
}

proof fn lemma_last_before(headers: Seq<UnitHeader>, n: int, k: int, absolute: usize)
    requires
        0 <= k <= n <= headers.len(),
        forall|i: int| k <= i < n ==> (#[trigger] headers[i]).offset > absolute,
        k > 0 ==> headers[k - 1].offset <= absolute,
    ensures
        last_before(headers, n, absolute) == if k > 0 {
            Some(headers[k - 1])
        } else {
            None
        },
    decreases n,
{
    if n > k {
        lemma_last_before(headers, n - 1, k, absolute);
    }
}

/// Find the unit that holds an absolute offset. Unit headers are in `.debug_info`
/// order; the last that starts at or before the offset is the only one that can.
pub fn find_owner(headers: &Vec<UnitHeader>, absolute: usize) -> (r: Option<(UnitHeader, usize)>)
    requires
        ascending(headers@),
    ensures
        r == owner_of(headers@, absolute),
{
    let mut low: usize = 0;
    let mut high: usize = headers.len();
    while low < high
        invariant
            low <= high <= headers@.len(),
            ascending(headers@),
            forall|i: int| 0 <= i < low ==> (#[trigger] headers@[i]).offset <= absolute,
            forall|i: int| high <= i < headers@.len() ==> (#[trigger] headers@[i]).offset > absolute,
        decreases high - low,
    {
        let middle: usize = low + (high - low) / 2;
        if headers[middle].offset <= absolute {
            low = middle + 1;
        } else {
            high = middle;
        }
    }
    proof {
        lemma_last_before(headers@, headers@.len() as int, low as int, absolute);
    }
    if low == 0 {
        return None;
    }
    let header: UnitHeader = headers[low - 1];
    let offset: usize = absolute - header.offset;
    if header.header_size <= offset && offset < header.length {
        Some((header, offset))
    } else {
        None
    }
}

/// Whether the unit at an offset has a split DWARF identifier, where it can be
/// loaded. One whose root entry has an index out of range cannot.
pub open spec fn unit_at(sections: Sections, offset: usize) -> Option<bool> {
    if limits::root_fits(sections, offset) {
        reader::unit_in(sections, offset)
    } else {
        None
    }
}

/// The entry that a reference points to: its unit and its offset there.
pub open spec fn referent(
    sections: Sections,
    headers: Seq<UnitHeader>,
    unit: UnitHeader,
    attr: Attr,
) -> std::result::Result<(UnitHeader, usize), DwarfError> {
    match attr.kind {
        AttrKind::UnitRef(offset) => Ok((unit, offset)),
        AttrKind::DebugInfoRef(absolute) => match owner_of(headers, absolute) {
            None => assemble::invalid_because("cross-unit reference is outside debug_info"@),
            Some(place) => if unit_at(sections, place.0.offset) is None {
                Err(DwarfError::Parse)
            } else {
                Ok(place)
            },
        },
        AttrKind::DebugInfoRefSup => Err(DwarfError::Unsupported("supplementary type reference"@)),
        AttrKind::DebugTypesRef => Err(DwarfError::Unsupported("type signature reference"@)),
        _ => assemble::invalid_because("invalid type reference"@),
    }
}

/// Where a reference leads: into the same unit, or into another, which was then
/// loaded.
pub enum Place<'a> {
    Here(usize),
    There(LoadedUnit<'a>, usize),
}

impl<'a> Place<'a> {
    /// The unit and the offset that a reference out of `unit` leads to.
    pub open spec fn of(self, unit: UnitHeader) -> (UnitHeader, usize) {
        match self {
            Place::Here(offset) => (unit, offset),
            Place::There(other, offset) => (other.header, offset),
        }
    }

    /// A unit that was loaded is one of these sections.
    pub open spec fn wf(self, sections: Sections) -> bool {
        self matches Place::There(other, _) ==> other.wf() && other.sections() == sections
    }
}

/// Load a unit by its header.
pub fn load_unit<'a>(dwarf: &DwarfInfo<'a>, header: UnitHeader) -> (r: Outcome<
    (LoadedUnit<'a>, bool),
>)
    ensures
        r matches Ok(v) ==> {
            &&& v.0.wf()
            &&& v.0.header == header
            &&& v.0.sections() == reader::sections_in(*dwarf)
            &&& unit_at(reader::sections_in(*dwarf), header.offset) == Some(v.1)
        },
        r matches Err(e) ==> e@ == DwarfError::Parse && unit_at(
            reader::sections_in(*dwarf),
            header.offset,
        ) is None,
{
    if !check_root(dwarf, header.offset) {
        return Err(DwarfLayoutError::Parse("index in a root entry is out of range".to_owned()));
    }
    match read_unit(dwarf, header.offset) {
        Ok((unit, split, offset_size)) => Ok((LoadedUnit { header, offset_size, unit }, split)),
        Err(e) => Err(parse_error(e)),
    }
}

/// Follow a reference.
pub fn attribute_die_ref<'a>(
    context: &Context<'_, 'a>,
    unit: &LoadedUnit<'a>,
    value: Attr,
) -> (r: Outcome<Place<'a>>)
    requires
        context.wf(),
        unit.wf(),
        unit.sections() == context.sections(),
    ensures
        match r {
            Ok(place) => {
                &&& place.wf(context.sections())
                &&& referent(context.sections(), context.headers@, unit.header, value) == Ok::<
                    (UnitHeader, usize),
                    DwarfError,
                >(place.of(unit.header))
            },
            Err(e) => referent(context.sections(), context.headers@, unit.header, value) == Err::<
                (UnitHeader, usize),
                DwarfError,
            >(e@),
        },
{
    match value.kind {
        AttrKind::UnitRef(offset) => Ok(Place::Here(offset)),
        AttrKind::DebugInfoRef(absolute) => match find_owner(context.headers, absolute) {
            Some((header, offset)) => match load_unit(context.dwarf, header) {
                Ok((other, _)) => Ok(Place::There(other, offset)),
                Err(e) => Err(e),
            },
            None => Err(
                DwarfLayoutError::Invalid("cross-unit reference is outside debug_info".to_owned()),
            ),
        },
        AttrKind::DebugInfoRefSup => Err(
            DwarfLayoutError::Unsupported("supplementary type reference"),
        ),
        AttrKind::DebugTypesRef => Err(DwarfLayoutError::Unsupported("type signature reference")),
        _ => Err(DwarfLayoutError::Invalid("invalid type reference".to_owned())),
    }
}

/// The entry that `DW_AT_type` of an entry points to.
pub open spec fn type_of(
    sections: Sections,
    headers: Seq<UnitHeader>,
    unit: UnitHeader,
    die: usize,
    missing: Seq<char>,
) -> std::result::Result<(UnitHeader, usize), DwarfError> {
    match attr_of(sections, unit, die, DW_AT_TYPE) {
        Err(e) => Err(e),
        Ok(None) => assemble::invalid_because(missing),
        Ok(Some(attr)) => referent(sections, headers, unit, attr),
    }
}

pub fn type_ref<'a>(
    context: &Context<'_, 'a>,
    unit: &LoadedUnit<'a>,
    die: usize,
    missing: &str,
) -> (r: Outcome<Place<'a>>)
    requires
        context.wf(),
        unit.wf(),
        unit.sections() == context.sections(),
    ensures
        match r {
            Ok(place) => {
                &&& place.wf(context.sections())
                &&& type_of(
                    context.sections(),
                    context.headers@,
                    unit.header,
                    die,
                    missing@,
                ) == Ok::<(UnitHeader, usize), DwarfError>(place.of(unit.header))
            },
            Err(e) => type_of(
                context.sections(),
                context.headers@,
                unit.header,
                die,
                missing@,
            ) == Err::<(UnitHeader, usize), DwarfError>(e@),
        },
{
    match attr(unit, die, DW_AT_TYPE) {
        Ok(Some(value)) => attribute_die_ref(context, unit, value),
        Ok(None) => Err(DwarfLayoutError::Invalid(missing.to_owned())),
        Err(e) => Err(e),
    }
}

/// The structure that an entry stands for, along the references of typedefs and
/// qualifiers. `visited` are the entries met on the way.
pub open spec fn structure_of(
    sections: Sections,
    headers: Seq<UnitHeader>,
    unit: UnitHeader,
    die: usize,
    depth: u32,
    visited: Seq<(usize, usize)>,
) -> std::result::Result<(UnitHeader, usize), DwarfError>
    decreases MAX_REFERENCE_DEPTH - depth,
{
    if depth >= MAX_REFERENCE_DEPTH {
        Err(DwarfError::Limit("type reference depth"@))
    } else if visited.contains((unit.offset, die)) {
        assemble::invalid_because("type reference cycle"@)
    } else {
        match reader::tag_in(sections, unit.offset, die) {
            None => Err(DwarfError::Parse),
            Some(tag) => if is_structure(tag) {
                Ok((unit, die))
            } else if is_alias(tag) {
                match type_of(sections, headers, unit, die, "type reference is missing"@) {
                    Err(e) => Err(e),
                    Ok((next_unit, next)) => structure_of(
                        sections,
                        headers,
                        next_unit,
                        next,
                        (depth + 1) as u32,
                        visited.push((unit.offset, die)),
                    ),
                }
            } else {
                assemble::invalid_because("target does not resolve to a structure"@)
            },
        }
    }
}

/// Whether an entry was met before; if not, it now was.
fn meet(visited: &mut Vec<(usize, usize)>, id: (usize, usize)) -> (fresh: bool)
    ensures
        fresh == !old(visited)@.contains(id),
        fresh ==> final(visited)@ == old(visited)@.push(id),
        !fresh ==> final(visited)@ == old(visited)@,
{
    let mut i: usize = 0;
    while i < visited.len()
        invariant
            i <= visited@.len(),
            visited@ == old(visited)@,
            forall|k: int| 0 <= k < i ==> visited@[k] != id,
        decreases visited@.len() - i,
    {
        if visited[i].0 == id.0 && visited[i].1 == id.1 {
            assert(visited@[i as int] == id);
            return false;
        }
        i = i + 1;
    }
    visited.push(id);
    true
}

/// Find the structure that an entry stands for.
pub fn resolve_structure<'a>(
    context: &Context<'_, 'a>,
    unit: &LoadedUnit<'a>,
    die: usize,
    depth: u32,
    visited: &mut Vec<(usize, usize)>,
) -> (r: Outcome<(UnitHeader, usize)>)
    requires
        context.wf(),
        unit.wf(),
        unit.sections() == context.sections(),
    ensures
        super::outcome(r) == structure_of(
            context.sections(),
            context.headers@,
            unit.header,
            die,
            depth,
            old(visited)@,
        ),
    decreases MAX_REFERENCE_DEPTH - depth,
{
    if depth >= MAX_REFERENCE_DEPTH {
        return Err(DwarfLayoutError::Limit("type reference depth"));
    }
    if !meet(visited, (unit.header.offset, die)) {
        return Err(DwarfLayoutError::Invalid("type reference cycle".to_owned()));
    }
    let tag: u16 = match read_tag(&unit.unit, die) {
        Ok(tag) => tag,
        Err(e) => return Err(parse_error(e)),
    };
    if tag == DW_TAG_STRUCTURE_TYPE || tag == DW_TAG_CLASS_TYPE {
        return Ok((unit.header, die));
    }
    if alias_tag(tag) {
        return match type_ref(context, unit, die, "type reference is missing") {
            Ok(Place::Here(next)) => resolve_structure(context, unit, next, depth + 1, visited),
            Ok(Place::There(other, next)) => {
                resolve_structure(context, &other, next, depth + 1, visited)
            },
            Err(e) => Err(e),
        };
    }
    Err(DwarfLayoutError::Invalid("target does not resolve to a structure".to_owned()))
}

/// The length that the bounds of a subrange give, where there is an upper one.
pub open spec fn bounds_length(lower: Option<int>, upper: Option<int>) -> std::result::Result<
    Option<u64>,
    DwarfError,
> {
    match upper {
        None => Ok(None),
        Some(upper) => {
            let length = upper - (match lower {
                Some(lower) => lower,
                None => 0,
            }) + 1;
            if 0 <= length <= u64::MAX {
                Ok(Some(length as u64))
            } else {
                assemble::invalid_because("invalid array bounds"@)
            }
        },
    }
}

/// The length of a subrange: its count or what its bounds give, which have to
/// agree where both are there.
pub open spec fn subrange_length(
    count: Option<u64>,
    lower: Option<int>,
    upper: Option<int>,
) -> std::result::Result<Option<u64>, DwarfError> {
    match bounds_length(lower, upper) {
        Err(e) => Err(e),
        Ok(bounds) => match (count, bounds) {
            (Some(left), Some(right)) => if left != right {
                assemble::invalid_because("array count conflicts with bounds"@)
            } else {
                Ok(Some(left))
            },
            (Some(count), None) => Ok(Some(count)),
            (None, bounds) => Ok(bounds),
        },
    }
}

/// The length of a subrange from its attributes.
pub fn dimension(count: Option<Attr>, lower: Option<Attr>, upper: Option<Attr>) -> (r: Outcome<
    Option<u64>,
>)
    ensures
        super::outcome(r) == subrange_length(
            number(count),
            signed_number(lower),
            signed_number(upper),
        ),
{
    let low: i128 = match attr_i128(lower) {
        Some(low) => low,
        None => 0,
    };
    let bounds: Option<u64> = match attr_i128(upper) {
        Some(high) => {
            let length: i128 = high - low + 1;
            if length < 0 || length > u64::MAX as i128 {
                return Err(DwarfLayoutError::Invalid("invalid array bounds".to_owned()));
            }
            Some(length as u64)
        },
        None => None,
    };
    match (number_of(count), bounds) {
        (Some(left), Some(right)) => if left != right {
            Err(DwarfLayoutError::Invalid("array count conflicts with bounds".to_owned()))
        } else {
            Ok(Some(left))
        },
        (Some(count), None) => Ok(Some(count)),
        (None, bounds) => Ok(bounds),
    }
}

/// The length of a subrange entry.
pub open spec fn subrange_of(
    sections: Sections,
    unit: UnitHeader,
    die: usize,
) -> std::result::Result<Option<u64>, DwarfError> {
    match attr_of(sections, unit, die, DW_AT_COUNT) {
        Err(e) => Err(e),
        Ok(count) => match attr_of(sections, unit, die, DW_AT_LOWER_BOUND) {
            Err(e) => Err(e),
            Ok(lower) => match attr_of(sections, unit, die, DW_AT_UPPER_BOUND) {
                Err(e) => Err(e),
                Ok(upper) => subrange_length(
                    number(count),
                    signed_number(lower),
                    signed_number(upper),
                ),
            },
        },
    }
}

fn subrange(unit: &LoadedUnit<'_>, die: usize) -> (r: Outcome<Option<u64>>)
    requires
        unit.wf(),
    ensures
        super::outcome(r) == subrange_of(unit.sections(), unit.header, die),
{
    let count: Option<Attr> = match attr(unit, die, DW_AT_COUNT) {
        Ok(count) => count,
        Err(e) => return Err(e),
    };
    let lower: Option<Attr> = match attr(unit, die, DW_AT_LOWER_BOUND) {
        Ok(lower) => lower,
        Err(e) => return Err(e),
    };
    let upper: Option<Attr> = match attr(unit, die, DW_AT_UPPER_BOUND) {
        Ok(upper) => upper,
        Err(e) => return Err(e),
    };
    dimension(count, lower, upper)
}

/// The lengths of an array's dimensions from child `i` on, behind those met so far;
/// none where one is unknown or there is none at all.
pub open spec fn dimensions_from(
    sections: Sections,
    unit: UnitHeader,
    children: Seq<DieAt>,
    broken: bool,
    i: int,
    met: Seq<u64>,
) -> std::result::Result<Option<Seq<u64>>, DwarfError>
    decreases children.len() - i,
{
    if i < 0 || i >= children.len() {
        if broken {
            Err(DwarfError::Parse)
        } else if met.len() == 0 {
            Ok(None)
        } else {
            Ok(Some(met))
        }
    } else if children[i].tag != DW_TAG_SUBRANGE_TYPE {
        dimensions_from(sections, unit, children, broken, i + 1, met)
    } else {
        match subrange_of(sections, unit, children[i].offset) {
            Err(e) => Err(e),
            Ok(None) => Ok(None),
            Ok(Some(length)) => dimensions_from(
                sections,
                unit,
                children,
                broken,
                i + 1,
                met.push(length),
            ),
        }
    }
}

/// The lengths of an array's dimensions.
pub open spec fn dimensions_of(
    sections: Sections,
    unit: UnitHeader,
    die: usize,
) -> std::result::Result<Option<Seq<u64>>, DwarfError> {
    match reader::children_in(sections, unit.offset, die) {
        None => Err(DwarfError::Parse),
        Some((children, broken)) => dimensions_from(
            sections,
            unit,
            children,
            broken,
            0,
            Seq::empty(),
        ),
    }
}

/// Read the lengths of an array's dimensions.
pub fn array_dimensions(unit: &LoadedUnit<'_>, die: usize) -> (r: Outcome<Option<Vec<u64>>>)
    requires
        unit.wf(),
    ensures
        match r {
            Ok(Some(lengths)) => dimensions_of(unit.sections(), unit.header, die) == Ok::<
                Option<Seq<u64>>,
                DwarfError,
            >(Some(lengths@)),
            Ok(None) => dimensions_of(unit.sections(), unit.header, die) == Ok::<
                Option<Seq<u64>>,
                DwarfError,
            >(None),
            Err(e) => dimensions_of(unit.sections(), unit.header, die) == Err::<
                Option<Seq<u64>>,
                DwarfError,
            >(e@),
        },
{
    let mut tree = match open_tree(&unit.unit, die) {
        Ok(tree) => tree,
        Err(e) => return Err(parse_error(e)),
    };
    let mut walk = match children(&mut tree) {
        Ok(walk) => walk,
        Err(e) => return Err(parse_error(e)),
    };
    let ghost (all, broken) = reader::children_rest(walk);
    let ghost mut i: int = 0;
    let mut dimensions: Vec<u64> = Vec::new();
    assert(all.skip(0) =~= all);
    loop
        invariant
            unit.wf(),
            0 <= i <= all.len(),
            reader::children_rest(walk) == (all.skip(i), broken),
            dimensions_from(
                unit.sections(),
                unit.header,
                all,
                broken,
                i,
                dimensions@,
            ) == dimensions_of(unit.sections(), unit.header, die),
        decreases all.len() - i,
    {
        let child: DieAt = match next_child(&mut walk) {
            Ok(Some(child)) => child,
            Ok(None) => {
                return if dimensions.len() == 0 {
                    Ok(None)
                } else {
                    Ok(Some(dimensions))
                };
            },
            Err(e) => return Err(parse_error(e)),
        };
        proof {
            assert(child == all[i]);
            assert(all.skip(i).skip(1) =~= all.skip(i + 1));
            i = i + 1;
        }
        if child.tag != DW_TAG_SUBRANGE_TYPE {
            continue;
        }
        match subrange(unit, child.offset) {
            Ok(Some(length)) => dimensions.push(length),
            Ok(None) => return Ok(None),
            Err(e) => return Err(e),
        }
    }
}

/// The product of lengths from index `i` on, times `total`, where no step of it
/// is beyond 64 bits.
pub open spec fn product_from(total: u64, lengths: Seq<u64>, i: int) -> Option<u64>
    decreases lengths.len() - i,
{
    if i < 0 || i >= lengths.len() {
        Some(total)
    } else if total * lengths[i] > u64::MAX {
        None
    } else {
        product_from((total * lengths[i]) as u64, lengths, i + 1)
    }
}

fn product(lengths: &Vec<u64>) -> (r: Option<u64>)
    ensures
        r == product_from(1, lengths@, 0),
{
    let mut total: u64 = 1;
    let mut i: usize = 0;
    while i < lengths.len()
        invariant
            i <= lengths@.len(),
            product_from(total, lengths@, i as int) == product_from(1, lengths@, 0),
        decreases lengths@.len() - i,
    {
        total = match total.checked_mul(lengths[i]) {
            Some(total) => total,
            None => return None,
        };
        i = i + 1;
    }
    Some(total)
}

/// A type without elements.
pub open spec fn scalar(kind: TypeKind, byte_size: Option<u64>) -> TypeInfo {
    TypeInfo { kind, byte_size, element_kind: None, element_size: None, element_count: None }
}

fn scalar_type(kind: TypeKind, byte_size: Option<u64>) -> (r: TypeInfo)
    ensures
        r == scalar(kind, byte_size),
{
    TypeInfo { kind, byte_size, element_kind: None, element_size: None, element_count: None }
}

/// Elements in an array of these dimensions, where they are known.
pub open spec fn element_count(lengths: Option<Seq<u64>>) -> Option<u64> {
    match lengths {
        Some(lengths) => product_from(1, lengths, 0),
        None => None,
    }
}

/// Bytes that elements take, where both numbers are known and their product is
/// one of 64 bits.
pub open spec fn computed_size(size: Option<u64>, count: Option<u64>) -> Option<u64> {
    match (size, count) {
        (Some(size), Some(count)) => if size * count <= u64::MAX {
            Some((size * count) as u64)
        } else {
            None
        },
        _ => None,
    }
}

/// An array of elements: its size is the one it states, or else what its elements
/// take.
pub open spec fn array_of(
    byte_size: Option<u64>,
    element: TypeInfo,
    lengths: Option<Seq<u64>>,
) -> TypeInfo {
    let count = element_count(lengths);
    TypeInfo {
        kind: TypeKind::Array,
        byte_size: if byte_size is Some {
            byte_size
        } else {
            computed_size(element.byte_size, count)
        },
        element_kind: Some(element.kind),
        element_size: element.byte_size,
        element_count: count,
    }
}

/// The sequence of lengths that may be unknown.
pub open spec fn lengths_of(lengths: Option<Vec<u64>>) -> Option<Seq<u64>> {
    match lengths {
        Some(lengths) => Some(lengths@),
        None => None,
    }
}

/// Put an array type together.
pub fn array_type(byte_size: Option<u64>, element: TypeInfo, lengths: Option<Vec<u64>>) -> (r:
    TypeInfo)
    ensures
        r == array_of(byte_size, element, lengths_of(lengths)),
{
    let count: Option<u64> = match &lengths {
        Some(lengths) => product(lengths),
        None => None,
    };
    let computed: Option<u64> = match (element.byte_size, count) {
        (Some(size), Some(count)) => size.checked_mul(count),
        _ => None,
    };
    TypeInfo {
        kind: TypeKind::Array,
        byte_size: match byte_size {
            Some(size) => Some(size),
            None => computed,
        },
        element_kind: Some(element.kind),
        element_size: element.byte_size,
        element_count: count,
    }
}

/// Encodings of unsigned numbers.
pub open spec fn is_unsigned(encoding: Option<Attr>) -> bool {
    match encoding {
        Some(attr) => attr.kind == AttrKind::Encoding(DW_ATE_UNSIGNED) || attr.kind
            == AttrKind::Encoding(DW_ATE_UNSIGNED_CHAR) || attr.kind == AttrKind::Encoding(
            DW_ATE_BOOLEAN,
        ),
        None => false,
    }
}

/// A number type: unsigned or signed, by its encoding.
pub fn base_kind(encoding: Option<Attr>) -> (r: TypeKind)
    ensures
        r == if is_unsigned(encoding) {
            TypeKind::Unsigned
        } else {
            TypeKind::Signed
        },
{
    match encoding {
        Some(attr) => match attr.kind {
            AttrKind::Encoding(e) => if e == DW_ATE_UNSIGNED || e == DW_ATE_UNSIGNED_CHAR || e
                == DW_ATE_BOOLEAN {
                TypeKind::Unsigned
            } else {
                TypeKind::Signed
            },
            _ => TypeKind::Signed,
        },
        None => TypeKind::Signed,
    }
}

/// What a type entry says of its type. `visited` are the entries met on the way
/// from where the search started.
pub open spec fn type_at(
    sections: Sections,
    headers: Seq<UnitHeader>,
    unit: UnitHeader,
    die: usize,
    depth: u32,
    visited: Seq<(usize, usize)>,
) -> std::result::Result<TypeInfo, DwarfError>
    decreases MAX_REFERENCE_DEPTH - depth,
{
    if depth >= MAX_REFERENCE_DEPTH {
        Err(DwarfError::Limit("type reference depth"@))
    } else if visited.contains((unit.offset, die)) {
        assemble::invalid_because("type reference cycle"@)
    } else {
        let deeper = visited.push((unit.offset, die));
        match reader::tag_in(sections, unit.offset, die) {
            None => Err(DwarfError::Parse),
            Some(tag) => match attr_of(sections, unit, die, DW_AT_BYTE_SIZE) {
                Err(e) => Err(e),
                Ok(size) => {
                    let byte_size = number(size);
                    if is_alias(tag) {
                        match type_of(sections, headers, unit, die, "type reference is missing"@) {
                            Err(e) => Err(e),
                            Ok((next_unit, next)) => type_at(
                                sections,
                                headers,
                                next_unit,
                                next,
                                (depth + 1) as u32,
                                deeper,
                            ),
                        }
                    } else if tag == DW_TAG_POINTER_TYPE || tag == DW_TAG_REFERENCE_TYPE {
                        Ok(
                            scalar(
                                TypeKind::Pointer,
                                if byte_size is Some {
                                    byte_size
                                } else {
                                    Some(unit.address_size as u64)
                                },
                            ),
                        )
                    } else if tag == DW_TAG_ARRAY_TYPE {
                        match type_of(
                            sections,
                            headers,
                            unit,
                            die,
                            "array element type is missing"@,
                        ) {
                            Err(e) => Err(e),
                            Ok((element_unit, element_die)) => match type_at(
                                sections,
                                headers,
                                element_unit,
                                element_die,
                                (depth + 1) as u32,
                                deeper,
                            ) {
                                Err(e) => Err(e),
                                Ok(element) => match dimensions_of(sections, unit, die) {
                                    Err(e) => Err(e),
                                    Ok(lengths) => Ok(array_of(byte_size, element, lengths)),
                                },
                            },
                        }
                    } else if tag == DW_TAG_BASE_TYPE || tag == DW_TAG_ENUMERATION_TYPE {
                        match attr_of(sections, unit, die, DW_AT_ENCODING) {
                            Err(e) => Err(e),
                            Ok(encoding) => Ok(
                                scalar(
                                    if is_unsigned(encoding) {
                                        TypeKind::Unsigned
                                    } else {
                                        TypeKind::Signed
                                    },
                                    byte_size,
                                ),
                            ),
                        }
                    } else if is_structure(tag) {
                        Ok(scalar(TypeKind::Structure, byte_size))
                    } else {
                        Ok(scalar(TypeKind::Other, byte_size))
                    }
                },
            },
        }
    }
}

/// The entry whose type an entry's own rests on: what a typedef or a qualifier stands
/// for, or the element of an array, where it can be followed.
pub open spec fn followed(
    sections: Sections,
    headers: Seq<UnitHeader>,
    place: (UnitHeader, usize),
) -> Option<(UnitHeader, usize)> {
    match (
        reader::tag_in(sections, place.0.offset, place.1),
        attr_of(sections, place.0, place.1, DW_AT_BYTE_SIZE),
    ) {
        (Some(tag), Ok(_)) => if is_alias(tag) || tag == DW_TAG_ARRAY_TYPE {
            match type_of(sections, headers, place.0, place.1, Seq::empty()) {
                Ok(next) => Some(next),
                Err(_) => None,
            }
        } else {
            None
        },
        _ => None,
    }
}

/// What an entry is told apart by: the offset of its unit, and its own there.
pub open spec fn entry_id(place: (UnitHeader, usize)) -> (usize, usize) {
    (place.0.offset, place.1)
}

/// Each of the first `n` entries of a path rests on the next one, and no two of them
/// are the same.
pub open spec fn is_path(
    sections: Sections,
    headers: Seq<UnitHeader>,
    path: Seq<(UnitHeader, usize)>,
    n: int,
) -> bool {
    &&& forall|i: int|
        0 <= i < n ==> followed(sections, headers, #[trigger] path[i]) == Some(path[i + 1])
    &&& forall|i: int, j: int|
        0 <= i < j < n ==> entry_id(#[trigger] path[i]) != entry_id(#[trigger] path[j])
}

/// None of the entries of a path from `i` on was visited.
spec fn all_new(
    path: Seq<(UnitHeader, usize)>,
    i: int,
    n: int,
    visited: Seq<(usize, usize)>,
) -> bool {
    forall|k: int| i <= k < n ==> !visited.contains(entry_id(#[trigger] path[k]))
}

proof fn lemma_new_after(
    path: Seq<(UnitHeader, usize)>,
    i: int,
    n: int,
    visited: Seq<(usize, usize)>,
)
    requires
        0 <= i < n,
        all_new(path, i, n, visited),
        forall|a: int, b: int|
            0 <= a < b < n ==> entry_id(#[trigger] path[a]) != entry_id(#[trigger] path[b]),
    ensures
        all_new(path, i + 1, n, visited.push(entry_id(path[i]))),
{
    let more = visited.push(entry_id(path[i]));
    assert forall|k: int| i + 1 <= k < n implies !more.contains(entry_id(#[trigger] path[k])) by {
        assert(entry_id(path[i]) != entry_id(path[k]));
        if more.contains(entry_id(path[k])) {
            let j = choose|j: int| 0 <= j < more.len() && more[j] == entry_id(path[k]);
            if j < visited.len() {
                assert(visited[j] == entry_id(path[k]));
            }
        }
    }
}

/// What is said of a type does not depend on how it was come by, as long as the path
/// from it is short enough and comes by nothing that was visited.
proof fn lemma_type_is_steady(
    sections: Sections,
    headers: Seq<UnitHeader>,
    path: Seq<(UnitHeader, usize)>,
    i: int,
    depth: u32,
    visited: Seq<(usize, usize)>,
    other_depth: u32,
    other_visited: Seq<(usize, usize)>,
)
    requires
        0 <= i < path.len(),
        is_path(sections, headers, path, path.len() - 1),
        forall|a: int, b: int|
            0 <= a < b < path.len() ==> entry_id(#[trigger] path[a]) != entry_id(
                #[trigger] path[b],
            ),
        followed(sections, headers, path.last()) is None,
        all_new(path, i, path.len() as int, visited),
        all_new(path, i, path.len() as int, other_visited),
        depth + path.len() - i <= MAX_REFERENCE_DEPTH,
        other_depth + path.len() - i <= MAX_REFERENCE_DEPTH,
    ensures
        type_at(sections, headers, path[i].0, path[i].1, depth, visited) == type_at(
            sections,
            headers,
            path[i].0,
            path[i].1,
            other_depth,
            other_visited,
        ),
    decreases path.len() - i,
{
    let n = path.len() as int;
    assert(!visited.contains(entry_id(path[i])) && !other_visited.contains(entry_id(path[i])));
    if i < n - 1 {
        assert(followed(sections, headers, path[i]) == Some(path[i + 1]));
        lemma_new_after(path, i, n, visited);
        lemma_new_after(path, i, n, other_visited);
        lemma_type_is_steady(
            sections,
            headers,
            path,
            i + 1,
            (depth + 1) as u32,
            visited.push(entry_id(path[i])),
            (other_depth + 1) as u32,
            other_visited.push(entry_id(path[i])),
        );
    } else {
        assert(followed(sections, headers, path[i]) is None);
    }
}

/// Typedefs and qualifiers are transparent: such an entry has the type of the entry
/// it refers to, where the path of references from it meets no entry twice and is
/// shorter than the limit.
pub proof fn law_aliases_are_transparent(
    sections: Sections,
    headers: Seq<UnitHeader>,
    path: Seq<(UnitHeader, usize)>,
)
    requires
        2 <= path.len() <= MAX_REFERENCE_DEPTH,
        is_path(sections, headers, path, path.len() - 1),
        forall|i: int|
            0 <= i < path.len() - 1 ==> entry_id(#[trigger] path[i]) != entry_id(path.last()),
        followed(sections, headers, path.last()) is None,
        reader::tag_in(sections, path[0].0.offset, path[0].1) matches Some(tag) && is_alias(tag),
    ensures
        type_at(sections, headers, path[0].0, path[0].1, 0, Seq::empty()) == type_at(
            sections,
            headers,
            path[1].0,
            path[1].1,
            0,
            Seq::empty(),
        ),
{
    let n = path.len() as int;
    let none = Seq::<(usize, usize)>::empty();
    assert(followed(sections, headers, path[0]) == Some(path[1]));
    assert(all_new(path, 0, n, none));
    lemma_new_after(path, 0, n, none);
    lemma_type_is_steady(
        sections,
        headers,
        path,
        1,
        1,
        none.push(entry_id(path[0])),
        0,
        none,
    );
}

/// What the end of a path of references comes to, for each entry on the way.
proof fn lemma_failure_comes_back(
    sections: Sections,
    headers: Seq<UnitHeader>,
    path: Seq<(UnitHeader, usize)>,
    n: int,
    i: int,
    visited: Seq<(usize, usize)>,
    e: DwarfError,
)
    requires
        0 <= i <= n < path.len(),
        n <= MAX_REFERENCE_DEPTH,
        is_path(sections, headers, path, n),
        all_new(path, i, n, visited),
        visited == Seq::new(i as nat, |k: int| entry_id(path[k])),
        type_at(
            sections,
            headers,
            path[n].0,
            path[n].1,
            n as u32,
            Seq::new(n as nat, |k: int| entry_id(path[k])),
        ) == Err::<TypeInfo, DwarfError>(e),
    ensures
        type_at(sections, headers, path[i].0, path[i].1, i as u32, visited) == Err::<
            TypeInfo,
            DwarfError,
        >(e),
    decreases n - i,
{
    if i < n {
        assert(followed(sections, headers, path[i]) == Some(path[i + 1]));
        assert(!visited.contains(entry_id(path[i])));
        lemma_new_after(path, i, n, visited);
        let more = visited.push(entry_id(path[i]));
        assert(more =~= Seq::new((i + 1) as nat, |k: int| entry_id(path[k])));
        lemma_failure_comes_back(sections, headers, path, n, i + 1, more, e);
    }
}

/// A cycle is found: where the path of references from an entry comes to one that it
/// met before, within the limit, that is the error.
pub proof fn law_reference_cycle_is_found(
    sections: Sections,
    headers: Seq<UnitHeader>,
    path: Seq<(UnitHeader, usize)>,
    j: int,
)
    requires
        0 <= j < path.len() - 1 < MAX_REFERENCE_DEPTH,
        is_path(sections, headers, path, path.len() - 1),
        entry_id(path[j]) == entry_id(path.last()),
    ensures
        type_at(sections, headers, path[0].0, path[0].1, 0, Seq::empty()) == Err::<
            TypeInfo,
            DwarfError,
        >(DwarfError::Invalid("type reference cycle"@)),
{
    let n = path.len() - 1;
    let visited = Seq::new(n as nat, |k: int| entry_id(path[k]));
    assert(visited[j] == entry_id(path[n]));
    assert(Seq::<(usize, usize)>::empty() =~= Seq::new(0, |k: int| entry_id(path[k])));
    lemma_failure_comes_back(
        sections,
        headers,
        path,
        n,
        0,
        Seq::empty(),
        DwarfError::Invalid("type reference cycle"@),
    );
}

/// A path of references that reaches the limit is not followed further.
pub proof fn law_reference_depth_is_limited(
    sections: Sections,
    headers: Seq<UnitHeader>,
    path: Seq<(UnitHeader, usize)>,
)
    requires
        path.len() > MAX_REFERENCE_DEPTH,
        is_path(sections, headers, path, MAX_REFERENCE_DEPTH as int),
    ensures
        type_at(sections, headers, path[0].0, path[0].1, 0, Seq::empty()) == Err::<
            TypeInfo,
            DwarfError,
        >(DwarfError::Limit("type reference depth"@)),
{
    assert(Seq::<(usize, usize)>::empty() =~= Seq::new(0, |k: int| entry_id(path[k])));
    lemma_failure_comes_back(
        sections,
        headers,
        path,
        MAX_REFERENCE_DEPTH as int,
        0,
        Seq::empty(),
        DwarfError::Limit("type reference depth"@),
    );
}

/// Read what an entry says of its type, following typedefs, qualifiers and array
/// elements.
pub fn resolve_type<'a>(
    context: &Context<'_, 'a>,
    unit: &LoadedUnit<'a>,
    die: usize,
    depth: u32,
    visited: &mut Vec<(usize, usize)>,
) -> (r: Outcome<TypeInfo>)
    requires
        context.wf(),
        unit.wf(),
        unit.sections() == context.sections(),
    ensures
        super::outcome(r) == type_at(
            context.sections(),
            context.headers@,
            unit.header,
            die,
            depth,
            old(visited)@,
        ),
    decreases MAX_REFERENCE_DEPTH - depth,
{
    if depth >= MAX_REFERENCE_DEPTH {
        return Err(DwarfLayoutError::Limit("type reference depth"));
    }
    if !meet(visited, (unit.header.offset, die)) {
        return Err(DwarfLayoutError::Invalid("type reference cycle".to_owned()));
    }
    let tag: u16 = match read_tag(&unit.unit, die) {
        Ok(tag) => tag,
        Err(e) => return Err(parse_error(e)),
    };
    let byte_size: Option<u64> = match attr(unit, die, DW_AT_BYTE_SIZE) {
        Ok(size) => number_of(size),
        Err(e) => return Err(e),
    };
    if alias_tag(tag) {
        return match type_ref(context, unit, die, "type reference is missing") {
            Ok(Place::Here(next)) => resolve_type(context, unit, next, depth + 1, visited),
            Ok(Place::There(other, next)) => {
                resolve_type(context, &other, next, depth + 1, visited)
            },
            Err(e) => Err(e),
        };
    }
    if tag == DW_TAG_POINTER_TYPE || tag == DW_TAG_REFERENCE_TYPE {
        let size: Option<u64> = match byte_size {
            Some(size) => Some(size),
            None => Some(unit.header.address_size as u64),
        };
        return Ok(scalar_type(TypeKind::Pointer, size));
    }
    if tag == DW_TAG_ARRAY_TYPE {
        let element: TypeInfo = match type_ref(
            context,
            unit,
            die,
            "array element type is missing",
        ) {
            Ok(Place::Here(next)) => match resolve_type(context, unit, next, depth + 1, visited) {
                Ok(element) => element,
                Err(e) => return Err(e),
            },
            Ok(Place::There(other, next)) => match resolve_type(
                context,
                &other,
                next,
                depth + 1,
                visited,
            ) {
                Ok(element) => element,
                Err(e) => return Err(e),
            },
            Err(e) => return Err(e),
        };
        return match array_dimensions(unit, die) {
            Ok(lengths) => Ok(array_type(byte_size, element, lengths)),
            Err(e) => Err(e),
        };
    }
    if tag == DW_TAG_BASE_TYPE || tag == DW_TAG_ENUMERATION_TYPE {
        return match attr(unit, die, DW_AT_ENCODING) {
            Ok(encoding) => Ok(scalar_type(base_kind(encoding), byte_size)),
            Err(e) => Err(e),
        };
    }
    if tag == DW_TAG_STRUCTURE_TYPE || tag == DW_TAG_CLASS_TYPE {
        return Ok(scalar_type(TypeKind::Structure, byte_size));
    }
    Ok(scalar_type(TypeKind::Other, byte_size))
}

/// The offset that a location expression adds, where it is a single addition.
pub open spec fn constant_in(first: Option<Op>, second: Option<Op>) -> std::result::Result<
    u64,
    DwarfError,
> {
    match (first, second) {
        (Some(Op::PlusConstant(value)), None) => Ok(value),
        _ => Err(DwarfError::Unsupported("member location expression"@)),
    }
}

/// Take a member's offset from the first two operations of its location.
pub fn constant_location(first: Option<Op>, second: Option<Op>) -> (r: Outcome<u64>)
    ensures
        super::outcome(r) == constant_in(first, second),
{
    match (first, second) {
        (Some(Op::PlusConstant(value)), None) => Ok(value),
        _ => Err(DwarfLayoutError::Unsupported("member location expression")),
    }
}

/// The operation at the start of an expression and what is behind it, none at the
/// end of the expression.
pub open spec fn operation_of(sections: Sections, unit: UnitHeader, bytes: Seq<u8>) -> std::result::Result<
    Option<(Op, Seq<u8>)>,
    DwarfError,
> {
    if bytes.len() == 0 {
        Ok(None)
    } else if !limits::operation_fits(bytes) {
        Err(DwarfError::Parse)
    } else {
        match reader::operation_in(sections, unit.offset, bytes) {
            None => Err(DwarfError::Parse),
            Some((operation, left)) => Ok(Some((operation, bytes.skip(bytes.len() - left)))),
        }
    }
}

fn next_operation<'b>(unit: &LoadedUnit<'_>, bytes: &'b [u8]) -> (r: Outcome<
    Option<(Op, &'b [u8])>,
>)
    requires
        unit.wf(),
    ensures
        match r {
            Ok(Some(v)) => operation_of(unit.sections(), unit.header, bytes@) == Ok::<
                Option<(Op, Seq<u8>)>,
                DwarfError,
            >(Some((v.0, v.1@))),
            Ok(None) => operation_of(unit.sections(), unit.header, bytes@) == Ok::<
                Option<(Op, Seq<u8>)>,
                DwarfError,
            >(None),
            Err(e) => operation_of(unit.sections(), unit.header, bytes@) == Err::<
                Option<(Op, Seq<u8>)>,
                DwarfError,
            >(e@),
        },
{
    let len: usize = bytes.len();
    if len == 0 {
        return Ok(None);
    }
    if !check_operation(bytes) {
        return Err(DwarfLayoutError::Parse("size of a piece is out of range".to_owned()));
    }
    match read_operation(&unit.unit, bytes) {
        Ok((operation, left)) => {
            let rest: &'b [u8] = &bytes[len - left..len];
            assert(rest@ =~= bytes@.skip(len - left));
            Ok(Some((operation, rest)))
        },
        Err(e) => Err(parse_error(e)),
    }
}

/// The offset that a location expression gives.
pub open spec fn constant_of(sections: Sections, unit: UnitHeader, bytes: Seq<u8>) -> std::result::Result<
    u64,
    DwarfError,
> {
    match operation_of(sections, unit, bytes) {
        Err(e) => Err(e),
        Ok(None) => constant_in(None, None),
        Ok(Some((first, rest))) => match operation_of(sections, unit, rest) {
            Err(e) => Err(e),
            Ok(None) => constant_in(Some(first), None),
            Ok(Some((second, _))) => constant_in(Some(first), Some(second)),
        },
    }
}

/// Take a member's offset from its location expression.
pub fn expression_constant(unit: &LoadedUnit<'_>, bytes: &[u8]) -> (r: Outcome<u64>)
    requires
        unit.wf(),
    ensures
        super::outcome(r) == constant_of(unit.sections(), unit.header, bytes@),
{
    let (first, rest): (Op, &[u8]) = match next_operation(unit, bytes) {
        Ok(Some(v)) => v,
        Ok(None) => return constant_location(None, None),
        Err(e) => return Err(e),
    };
    match next_operation(unit, rest) {
        Ok(Some((second, _))) => constant_location(Some(first), Some(second)),
        Ok(None) => constant_location(Some(first), None),
        Err(e) => Err(e),
    }
}

/// The offset of a member in its structure.
pub open spec fn location_of(sections: Sections, unit: UnitHeader, die: usize) -> std::result::Result<
    u64,
    DwarfError,
> {
    match attr_of(sections, unit, die, DW_AT_DATA_MEMBER_LOCATION) {
        Err(e) => Err(e),
        Ok(None) => assemble::invalid_because("member has no location"@),
        Ok(Some(attr)) => match attr.udata {
            Some(value) => Ok(value),
            None => if attr.kind != AttrKind::Exprloc {
                Err(DwarfError::Unsupported("non-constant member location"@))
            } else {
                match reader::expression_in(
                    sections,
                    unit.offset,
                    die,
                    DW_AT_DATA_MEMBER_LOCATION,
                ) {
                    None => Err(DwarfError::Parse),
                    Some(bytes) => constant_of(sections, unit, bytes),
                }
            },
        },
    }
}

/// Read the offset of a member in its structure.
pub fn member_location(unit: &LoadedUnit<'_>, die: usize) -> (r: Outcome<u64>)
    requires
        unit.wf(),
    ensures
        super::outcome(r) == location_of(unit.sections(), unit.header, die),
{
    let value: Attr = match attr(unit, die, DW_AT_DATA_MEMBER_LOCATION) {
        Ok(Some(value)) => value,
        Ok(None) => return Err(DwarfLayoutError::Invalid("member has no location".to_owned())),
        Err(e) => return Err(e),
    };
    if let Some(offset) = value.udata {
        return Ok(offset);
    }
    if value.kind != AttrKind::Exprloc {
        return Err(DwarfLayoutError::Unsupported("non-constant member location"));
    }
    match read_expression(&unit.unit, die, DW_AT_DATA_MEMBER_LOCATION) {
        Ok(bytes) => expression_constant(unit, &bytes),
        Err(e) => Err(parse_error(e)),
    }
}

} // verus!
