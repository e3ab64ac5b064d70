//! Reading debugging information entries.
//!
//! Units and entries are read with gimli. What it reads depends on the bytes of
//! the sections alone, so every result is named by them and by where in
//! `.debug_info` it was read. Entries are handed on as plain values. Whether data
//! is broken is part of a name, what gimli says of it is not: its errors carry
//! addresses of the process.

use vstd::prelude::*;

use gimli::{AttributeValue, DwAt, Error as GimliError, UnitOffset};

use super::limits;
use super::sections;
use super::sections::SectionStore;
use super::{DwarfError, DwarfLayoutError};

verus! {

/// `DW_AT_name`.
pub const DW_AT_NAME: u16 = 0x03;

/// `DW_AT_byte_size`.
pub const DW_AT_BYTE_SIZE: u16 = 0x0b;

/// `DW_AT_low_pc`.
pub const DW_AT_LOW_PC: u16 = 0x11;

/// `DW_AT_comp_dir`.
pub const DW_AT_COMP_DIR: u16 = 0x1b;

/// `DW_AT_lower_bound`.
pub const DW_AT_LOWER_BOUND: u16 = 0x22;

/// `DW_AT_upper_bound`.
pub const DW_AT_UPPER_BOUND: u16 = 0x2f;

/// `DW_AT_count`.
pub const DW_AT_COUNT: u16 = 0x37;

/// `DW_AT_data_member_location`.
pub const DW_AT_DATA_MEMBER_LOCATION: u16 = 0x38;

/// `DW_AT_declaration`.
pub const DW_AT_DECLARATION: u16 = 0x3c;

/// `DW_AT_encoding`.
pub const DW_AT_ENCODING: u16 = 0x3e;

/// `DW_AT_type`.
pub const DW_AT_TYPE: u16 = 0x49;

pub const DW_TAG_ARRAY_TYPE: u16 = 0x01;

pub const DW_TAG_CLASS_TYPE: u16 = 0x02;

pub const DW_TAG_ENUMERATION_TYPE: u16 = 0x04;

pub const DW_TAG_MEMBER: u16 = 0x0d;

pub const DW_TAG_POINTER_TYPE: u16 = 0x0f;

pub const DW_TAG_REFERENCE_TYPE: u16 = 0x10;

pub const DW_TAG_STRUCTURE_TYPE: u16 = 0x13;

pub const DW_TAG_TYPEDEF: u16 = 0x16;

pub const DW_TAG_SUBRANGE_TYPE: u16 = 0x21;

pub const DW_TAG_BASE_TYPE: u16 = 0x24;

pub const DW_TAG_CONST_TYPE: u16 = 0x26;

pub const DW_TAG_VOLATILE_TYPE: u16 = 0x35;

pub const DW_TAG_RESTRICT_TYPE: u16 = 0x37;

pub const DW_TAG_ATOMIC_TYPE: u16 = 0x47;

pub const DW_ATE_BOOLEAN: u8 = 0x02;

pub const DW_ATE_UNSIGNED: u8 = 0x07;

pub const DW_ATE_UNSIGNED_CHAR: u8 = 0x08;

/// `DW_OP_piece`.
pub const DW_OP_PIECE: u8 = 0x93;

/// The kinds of units.
#[derive(Debug, Clone, Copy, PartialEq, Eq, Structural)]
pub enum UnitKind {
    Compilation,
    Partial,
    Type,
    SplitType,
    Skeleton,
    SplitCompilation,
}

/// A unit header: the unit's extent in `.debug_info`, the part of it that is
/// header, and the size of addresses in the unit.
#[derive(Debug, Clone, Copy, PartialEq, Eq, Structural)]
pub struct UnitHeader {
    pub offset: usize,
    pub header_size: usize,
    pub length: usize,
    pub kind: UnitKind,
    pub address_size: u8,
}

/// Where an entry stands in its unit, and its tag.
#[derive(Debug, Clone, Copy, PartialEq, Eq, Structural)]
pub struct DieAt {
    pub offset: usize,
    pub tag: u16,
}

/// The forms of attribute values that are told apart.
#[derive(Debug, Clone, Copy, PartialEq, Eq, Structural)]
pub enum AttrKind {
    Flag(bool),
    Sdata(i64),
    UnitRef(usize),
    DebugInfoRef(usize),
    DebugInfoRefSup,
    DebugTypesRef,
    DebugStrRefSup,
    StrIndex(usize),
    Exprloc,
    Encoding(u8),
    Other,
}

/// An attribute value: its form, and its value as an unsigned number where it has
/// one.
#[derive(Debug, Clone, Copy, PartialEq, Eq, Structural)]
pub struct Attr {
    pub kind: AttrKind,
    pub udata: Option<u64>,
}

/// An attribute value that is an index into another section: of strings, or of
/// addresses.
#[derive(Debug, Clone, Copy, PartialEq, Eq, Structural)]
pub enum Index {
    Str(usize),
    Addr(usize),
    Other,
}

/// The operations of location expressions that are told apart.
#[derive(Debug, Clone, Copy, PartialEq, Eq, Structural)]
pub enum Op {
    PlusConstant(u64),
    Other,
}

#[verifier::external_type_specification]
#[verifier::external_body]
pub struct ExGimliError(GimliError);

/// What gimli's `Debug` form says of broken data.
#[verifier::external_body]
fn error_text(error: GimliError) -> (r: String) {
    format!("{error:?}")
}

/// The error of broken data.
pub(crate) fn parse_error(error: GimliError) -> (e: DwarfLayoutError)
    ensures
        e@ == DwarfError::Parse,
{
    DwarfLayoutError::Parse(error_text(error))
}

/// The DWARF sections of a file, as gimli holds them.
#[verifier::external_body]
pub struct DwarfInfo<'a> {
    dwarf: gimli::Dwarf<gimli::EndianSlice<'a, gimli::LittleEndian>>,
}

/// A unit, as gimli holds it.
#[verifier::external_body]
pub struct DwarfUnit<'a> {
    unit: gimli::Unit<gimli::EndianSlice<'a, gimli::LittleEndian>, usize>,
}

/// A walk over the entries of a unit.
#[verifier::external_body]
pub struct DieCursor<'u, 'a> {
    cursor: gimli::EntriesCursor<'u, 'u, gimli::EndianSlice<'a, gimli::LittleEndian>>,
}

/// An entry with those below it.
#[verifier::external_body]
pub struct DieTree<'u, 'a> {
    tree: gimli::EntriesTree<'u, 'u, gimli::EndianSlice<'a, gimli::LittleEndian>>,
}

/// A walk over the children of an entry.
#[verifier::external_body]
pub struct DieChildren<'t, 'u, 'a> {
    children: gimli::EntriesTreeIter<'u, 'u, 't, gimli::EndianSlice<'a, gimli::LittleEndian>>,
}

/// The header of a unit and its abbreviations, as gimli holds them.
#[verifier::external_body]
pub struct UnitRoot<'a> {
    header: gimli::UnitHeader<gimli::EndianSlice<'a, gimli::LittleEndian>, usize>,
    abbreviations: std::sync::Arc<gimli::Abbreviations>,
}

/// The first entry of a unit, as gimli holds it.
#[verifier::external_body]
pub struct RootEntry<'u, 'a> {
    entry: gimli::DebuggingInformationEntry<
        'u,
        'u,
        gimli::EndianSlice<'a, gimli::LittleEndian>,
        usize,
    >,
}

/// A walk over the attributes of an entry.
#[verifier::external_body]
pub struct RootAttrs<'e, 'u, 'a> {
    attrs: gimli::AttrsIter<'u, 'e, 'u, gimli::EndianSlice<'a, gimli::LittleEndian>>,
}

/// Names and bytes of the sections that were loaded.
pub uninterp spec fn sections_in(dwarf: DwarfInfo<'_>) -> Seq<(Seq<char>, Seq<u8>)>;

/// The sections and the offset in `.debug_info` that a unit was read from.
pub uninterp spec fn unit_place(unit: DwarfUnit<'_>) -> (Seq<(Seq<char>, Seq<u8>)>, usize);

/// The entries that a walk has still to yield, and whether it then fails.
pub uninterp spec fn cursor_rest(cursor: DieCursor<'_, '_>) -> (Seq<DieAt>, bool);

/// The sections, the unit offset and the entry offset of a tree's root.
pub uninterp spec fn tree_place(tree: DieTree<'_, '_>) -> (
    Seq<(Seq<char>, Seq<u8>)>,
    usize,
    usize,
);

/// The children that a walk has still to yield, and whether it then fails.
pub uninterp spec fn children_rest(children: DieChildren<'_, '_, '_>) -> (Seq<DieAt>, bool);

/// What `gimli::DebugInfo::header_from_offset` reads, where that does not fail.
pub uninterp spec fn header_in(sections: Seq<(Seq<char>, Seq<u8>)>, offset: usize) -> Option<
    UnitHeader,
>;

/// Whether the unit that `gimli::Dwarf::unit` makes of a header has a split DWARF
/// identifier, where that does not fail.
pub uninterp spec fn unit_in(sections: Seq<(Seq<char>, Seq<u8>)>, offset: usize) -> Option<bool>;

/// Whether `gimli::Unit::dwo_name` finds a name, where that does not fail.
pub uninterp spec fn split_name_in(sections: Seq<(Seq<char>, Seq<u8>)>, unit: usize) -> Option<
    bool,
>;

/// The entries that `gimli::EntriesCursor::next_dfs` yields over a unit, and
/// whether it then fails.
pub uninterp spec fn dies_in(sections: Seq<(Seq<char>, Seq<u8>)>, unit: usize) -> (
    Seq<DieAt>,
    bool,
);

/// The tag of the entry that `gimli::Unit::entry` reads, where that does not fail.
pub uninterp spec fn tag_in(
    sections: Seq<(Seq<char>, Seq<u8>)>,
    unit: usize,
    die: usize,
) -> Option<u16>;

/// What `attr_value` of a gimli entry gives: a value or none, where that does not
/// fail.
pub uninterp spec fn attr_in(
    sections: Seq<(Seq<char>, Seq<u8>)>,
    unit: usize,
    die: usize,
    at: u16,
) -> Option<Option<Attr>>;

/// The string that `gimli::Dwarf::attr_string` finds for an attribute, where that
/// does not fail.
pub uninterp spec fn attr_string_in(
    sections: Seq<(Seq<char>, Seq<u8>)>,
    unit: usize,
    die: usize,
    at: u16,
) -> Option<Seq<u8>>;

/// The children that `gimli::EntriesTreeIter::next` yields of an entry, and whether
/// it then fails; none where there is no tree to walk.
pub uninterp spec fn children_in(
    sections: Seq<(Seq<char>, Seq<u8>)>,
    unit: usize,
    die: usize,
) -> Option<(Seq<DieAt>, bool)>;

/// The bytes of an attribute's expression, none where it is no expression, where
/// reading the attribute does not fail.
pub uninterp spec fn expression_in(
    sections: Seq<(Seq<char>, Seq<u8>)>,
    unit: usize,
    die: usize,
    at: u16,
) -> Option<Seq<u8>>;

/// The operation that `gimli::Operation::parse` reads at the start of bytes with the
/// encoding of a unit, and how many bytes it leaves, where that does not fail.
pub uninterp spec fn operation_in(
    sections: Seq<(Seq<char>, Seq<u8>)>,
    unit: usize,
    bytes: Seq<u8>,
) -> Option<(Op, usize)>;

/// The sections and the offset in `.debug_info` of a unit's header.
pub uninterp spec fn root_place(root: UnitRoot<'_>) -> (Seq<(Seq<char>, Seq<u8>)>, usize);

/// The sections and the offset in `.debug_info` of the unit of a root entry.
pub uninterp spec fn entry_place(entry: RootEntry<'_, '_>) -> (Seq<(Seq<char>, Seq<u8>)>, usize);

/// The attributes that a walk has still to yield, and whether it then fails.
pub uninterp spec fn attrs_rest(attrs: RootAttrs<'_, '_, '_>) -> (Seq<(u16, Index)>, bool);

/// The names and values that `gimli::AttrsIter::next` yields of the first entry of
/// the unit at an offset, and whether it then fails; none where there is no such
/// entry to read.
pub uninterp spec fn root_attrs_in(sections: Seq<(Seq<char>, Seq<u8>)>, unit: usize) -> Option<
    (Seq<(u16, Index)>, bool),
>;

/// What `gimli::Format::word_size` gives for the unit at an offset.
pub uninterp spec fn offset_size_in(sections: Seq<(Seq<char>, Seq<u8>)>, unit: usize) -> u8;

/// Hand the sections to `gimli::Dwarf::load`, which asks for each by its name and
/// takes an absent one as empty.
#[verifier::external_body]
pub(crate) fn load_dwarf<'a>(store: &'a SectionStore<'_>) -> (r: DwarfInfo<'a>)
    ensures
        sections_in(r) == store@,
{
    let load = |id: gimli::SectionId| -> std::result::Result<_, std::convert::Infallible> {
        Ok(gimli::EndianSlice::new(store.bytes(id.name()), gimli::LittleEndian))
    };
    match gimli::Dwarf::load(load) {
        Ok(dwarf) => DwarfInfo { dwarf },
        Err(never) => match never {},
    }
}

/// Read the unit header at an offset with `gimli::DebugInfo::header_from_offset`.
/// A unit starts with its length and lies in its section.
#[verifier::external_body]
pub(crate) fn read_header(dwarf: &DwarfInfo<'_>, offset: usize) -> (r: std::result::Result<
    UnitHeader,
    GimliError,
>)
    ensures
        r is Ok ==> header_in(sections_in(*dwarf), offset) == Some(r->Ok_0),
        r is Ok ==> r->Ok_0.offset == offset && r->Ok_0.length > 0,
        r is Ok ==> offset + r->Ok_0.length <= sections::bytes_of(
            sections_in(*dwarf),
            ".debug_info"@,
        ).len(),
        r is Err ==> header_in(sections_in(*dwarf), offset) is None,
{
    let at = gimli::DebugInfoOffset(offset);
    let header = dwarf.dwarf.debug_info.header_from_offset(at)?;
    let kind = match header.type_() {
        gimli::UnitType::Compilation => UnitKind::Compilation,
        gimli::UnitType::Partial => UnitKind::Partial,
        gimli::UnitType::Type { .. } => UnitKind::Type,
        gimli::UnitType::SplitType { .. } => UnitKind::SplitType,
        gimli::UnitType::Skeleton(_) => UnitKind::Skeleton,
        gimli::UnitType::SplitCompilation(_) => UnitKind::SplitCompilation,
    };
    let (length, address_size) = (header.length_including_self(), header.encoding().address_size);
    Ok(UnitHeader { offset, header_size: header.header_size(), length, kind, address_size })
}

/// Read the unit whose header stands at an offset with
/// `gimli::DebugInfo::header_from_offset` and `gimli::Dwarf::unit`, and tell whether
/// it has a split DWARF identifier, and its `gimli::Format::word_size`. The name, the
/// directory and the address of its root entry are looked up, so where they are
/// indices, those have to be in range.
#[verifier::external_body]
pub(crate) fn read_unit<'a>(dwarf: &DwarfInfo<'a>, offset: usize) -> (r: std::result::Result<
    (DwarfUnit<'a>, bool, u8),
    GimliError,
>)
    requires
        limits::root_fits(sections_in(*dwarf), offset),
    ensures
        r is Ok ==> unit_place((r->Ok_0).0) == (sections_in(*dwarf), offset),
        r is Ok ==> unit_in(sections_in(*dwarf), offset) == Some((r->Ok_0).1),
        r is Ok ==> offset_size_in(sections_in(*dwarf), offset) == (r->Ok_0).2,
        r is Err ==> unit_in(sections_in(*dwarf), offset) is None,
{
    let at = gimli::DebugInfoOffset(offset);
    let header = dwarf.dwarf.debug_info.header_from_offset(at)?;
    let unit = dwarf.dwarf.unit(header)?;
    let (split, offset_size) = (unit.dwo_id.is_some(), unit.encoding().format.word_size());
    Ok((DwarfUnit { unit }, split, offset_size))
}

/// Whether a unit names a split DWARF file, by `gimli::Unit::dwo_name`.
#[verifier::external_body]
pub(crate) fn has_split_name(unit: &DwarfUnit<'_>) -> (r: std::result::Result<bool, GimliError>)
    ensures
        r is Ok ==> split_name_in(unit_place(*unit).0, unit_place(*unit).1) == Some(r->Ok_0),
        r is Err ==> split_name_in(unit_place(*unit).0, unit_place(*unit).1) is None,
{
    let name = unit.unit.dwo_name()?;
    Ok(name.is_some())
}

/// Start a walk over all entries of a unit with `gimli::Unit::entries`.
#[verifier::external_body]
pub(crate) fn entries<'u, 'a>(unit: &'u DwarfUnit<'a>) -> (r: DieCursor<'u, 'a>)
    ensures
        cursor_rest(r) == dies_in(unit_place(*unit).0, unit_place(*unit).1),
{
    DieCursor { cursor: unit.unit.entries() }
}

/// Take the next entry of a walk with `gimli::EntriesCursor::next_dfs`.
#[verifier::external_body]
pub(crate) fn next_die(cursor: &mut DieCursor<'_, '_>) -> (r: std::result::Result<
    Option<DieAt>,
    GimliError,
>)
    ensures
        r is Err <==> cursor_rest(*old(cursor)).0.len() == 0 && cursor_rest(*old(cursor)).1,
        r is Ok ==> (r->Ok_0 is Some <==> cursor_rest(*old(cursor)).0.len() > 0),
        r is Ok && r->Ok_0 is Some ==> r->Ok_0->0 == cursor_rest(*old(cursor)).0[0],
        r is Ok && r->Ok_0 is Some ==> cursor_rest(*final(cursor)) == (
            cursor_rest(*old(cursor)).0.skip(1),
            cursor_rest(*old(cursor)).1,
        ),
{
    match cursor.cursor.next_dfs()? {
        Some((_, entry)) => Ok(Some(DieAt { offset: entry.offset().0, tag: entry.tag().0 })),
        None => Ok(None),
    }
}

/// The tag of the entry at an offset of a unit, read with `gimli::Unit::entry`.
#[verifier::external_body]
pub(crate) fn read_tag(unit: &DwarfUnit<'_>, die: usize) -> (r: std::result::Result<u16, GimliError>)
    ensures
        r is Ok ==> tag_in(unit_place(*unit).0, unit_place(*unit).1, die) == Some(r->Ok_0),
        r is Err ==> tag_in(unit_place(*unit).0, unit_place(*unit).1, die) is None,
{
    let entry = unit.unit.entry(UnitOffset(die))?;
    Ok(entry.tag().0)
}

/// An attribute of the entry at an offset of a unit, read with `gimli::Unit::entry`
/// and `attr_value`, its number with `gimli::AttributeValue::udata_value`.
#[verifier::external_body]
pub(crate) fn read_attr(unit: &DwarfUnit<'_>, die: usize, at: u16) -> (r: std::result::Result<
    Option<Attr>,
    GimliError,
>)
    ensures
        r is Ok ==> attr_in(unit_place(*unit).0, unit_place(*unit).1, die, at) == Some(r->Ok_0),
        r is Err ==> attr_in(unit_place(*unit).0, unit_place(*unit).1, die, at) is None,
{
    let Some(value) = unit.unit.entry(UnitOffset(die))?.attr_value(DwAt(at))? else { return Ok(None) };
    Ok(Some(Attr { udata: value.udata_value(), kind: match value {
        AttributeValue::Flag(flag) => AttrKind::Flag(flag),
        AttributeValue::Sdata(number) => AttrKind::Sdata(number),
        AttributeValue::UnitRef(offset) => AttrKind::UnitRef(offset.0),
        AttributeValue::DebugInfoRef(offset) => AttrKind::DebugInfoRef(offset.0),
        AttributeValue::DebugInfoRefSup(_) => AttrKind::DebugInfoRefSup,
        AttributeValue::DebugTypesRef(_) => AttrKind::DebugTypesRef,
        AttributeValue::DebugStrRefSup(_) => AttrKind::DebugStrRefSup,
        AttributeValue::DebugStrOffsetsIndex(index) => AttrKind::StrIndex(index.0),
        AttributeValue::Exprloc(_) => AttrKind::Exprloc,
        AttributeValue::Encoding(encoding) => AttrKind::Encoding(encoding.0),
        _ => AttrKind::Other
    } }))
}

/// The string of an attribute of the entry at an offset of a unit, found with
/// `gimli::Dwarf::attr_string`; empty where the entry lacks the attribute. Where the
/// attribute is a string index, that has to be in range.
#[verifier::external_body]
pub(crate) fn read_attr_string(
    dwarf: &DwarfInfo<'_>,
    unit: &DwarfUnit<'_>,
    die: usize,
    at: u16,
) -> (r: std::result::Result<Vec<u8>, GimliError>)
    requires
        unit_place(*unit).0 == sections_in(*dwarf),
        attr_in(unit_place(*unit).0, unit_place(*unit).1, die, at) matches Some(Some(attr))
            ==> limits::string_fits(
            attr,
            offset_size_in(unit_place(*unit).0, unit_place(*unit).1),
        ),
    ensures
        r is Ok ==> attr_string_in(unit_place(*unit).0, unit_place(*unit).1, die, at) == Some(
            (r->Ok_0)@,
        ),
        r is Err ==> attr_string_in(unit_place(*unit).0, unit_place(*unit).1, die, at) is None,
{
    let found = unit.unit.entry(UnitOffset(die))?.attr_value(DwAt(at))?;
    let Some(value) = found else { return Ok(Vec::new()) };
    let string = dwarf.dwarf.attr_string(&unit.unit, value)?;
    Ok(string.slice().to_vec())
}

/// The entry at an offset of a unit with those below it, by
/// `gimli::Unit::entries_tree`.
#[verifier::external_body]
pub(crate) fn open_tree<'u, 'a>(unit: &'u DwarfUnit<'a>, die: usize) -> (r: std::result::Result<
    DieTree<'u, 'a>,
    GimliError,
>)
    ensures
        r is Ok ==> tree_place(r->Ok_0) == (unit_place(*unit).0, unit_place(*unit).1, die),
        r is Err ==> children_in(unit_place(*unit).0, unit_place(*unit).1, die) is None,
{
    let at = Some(UnitOffset(die));
    let tree = unit.unit.entries_tree(at)?;
    Ok(DieTree { tree })
}

/// Start a walk over the children of a tree's root with `gimli::EntriesTree::root`
/// and `gimli::EntriesTreeNode::children`.
#[verifier::external_body]
pub(crate) fn children<'t, 'u, 'a>(tree: &'t mut DieTree<'u, 'a>) -> (r: std::result::Result<
    DieChildren<'t, 'u, 'a>,
    GimliError,
>)
    ensures
        r is Ok ==> children_in(
            tree_place(*old(tree)).0,
            tree_place(*old(tree)).1,
            tree_place(*old(tree)).2,
        ) == Some(children_rest(r->Ok_0)),
        r is Err ==> children_in(
            tree_place(*old(tree)).0,
            tree_place(*old(tree)).1,
            tree_place(*old(tree)).2,
        ) is None,
{
    let root = tree.tree.root()?;
    Ok(DieChildren { children: root.children() })
}

/// Take the next child of a walk with `gimli::EntriesTreeIter::next`.
#[verifier::external_body]
pub(crate) fn next_child(children: &mut DieChildren<'_, '_, '_>) -> (r: std::result::Result<
    Option<DieAt>,
    GimliError,
>)
    ensures
        r is Err <==> children_rest(*old(children)).0.len() == 0 && children_rest(*old(children)).1,
        r is Ok ==> (r->Ok_0 is Some <==> children_rest(*old(children)).0.len() > 0),
        r is Ok && r->Ok_0 is Some ==> r->Ok_0->0 == children_rest(*old(children)).0[0],
        r is Ok && r->Ok_0 is Some ==> children_rest(*final(children)) == (
            children_rest(*old(children)).0.skip(1),
            children_rest(*old(children)).1,
        ),
{
    match children.children.next()? {
        Some(node) => Ok(
            Some(DieAt { offset: node.entry().offset().0, tag: node.entry().tag().0 }),
        ),
        None => Ok(None),
    }
}

/// The bytes of an attribute's expression of the entry at an offset of a unit, read
/// with `gimli::Unit::entry` and `attr_value`; none where the attribute is no
/// expression.
#[verifier::external_body]
pub(crate) fn read_expression(unit: &DwarfUnit<'_>, die: usize, at: u16) -> (r: std::result::Result<
    Vec<u8>,
    GimliError,
>)
    ensures
        r is Ok ==> expression_in(unit_place(*unit).0, unit_place(*unit).1, die, at) == Some(
            (r->Ok_0)@,
        ),
        r is Err ==> expression_in(unit_place(*unit).0, unit_place(*unit).1, die, at) is None,
{
    let found = unit.unit.entry(UnitOffset(die))?.attr_value(DwAt(at))?;
    let Some(AttributeValue::Exprloc(expression)) = found else { return Ok(Vec::new()) };
    Ok(expression.0.slice().to_vec())
}

/// The operation at the start of bytes, read with `gimli::Operation::parse`, and how
/// many bytes it leaves. It multiplies the size of a piece by eight, so that has to
/// be in range. An operation is a byte at least.
#[verifier::external_body]
pub(crate) fn read_operation(unit: &DwarfUnit<'_>, bytes: &[u8]) -> (r: std::result::Result<
    (Op, usize),
    GimliError,
>)
    requires
        limits::operation_fits(bytes@),
    ensures
        r is Ok ==> operation_in(unit_place(*unit).0, unit_place(*unit).1, bytes@) == Some(
            r->Ok_0,
        ),
        r is Ok ==> (r->Ok_0).1 < bytes@.len(),
        r is Err ==> operation_in(unit_place(*unit).0, unit_place(*unit).1, bytes@) is None,
{
    let mut input = gimli::EndianSlice::new(bytes, gimli::LittleEndian);
    let operation = match gimli::Operation::parse(&mut input, unit.unit.encoding())? {
        gimli::Operation::PlusConstant { value } => Op::PlusConstant(value),
        _ => Op::Other,
    };
    Ok((operation, input.slice().len()))
}

/// The header of the unit at an offset, read with
/// `gimli::DebugInfo::header_from_offset`, with its abbreviations, read with
/// `gimli::Dwarf::abbreviations`, its `gimli::Format::word_size` and the size of its
/// addresses.
#[verifier::external_body]
pub(crate) fn open_root<'a>(dwarf: &DwarfInfo<'a>, offset: usize) -> (r: std::result::Result<
    (UnitRoot<'a>, u8, u8),
    GimliError,
>)
    ensures
        r is Ok ==> root_place((r->Ok_0).0) == (sections_in(*dwarf), offset),
        r is Ok ==> offset_size_in(sections_in(*dwarf), offset) == (r->Ok_0).1,
        r is Ok ==> header_in(sections_in(*dwarf), offset) is Some && header_in(
            sections_in(*dwarf),
            offset,
        )->0.address_size == (r->Ok_0).2,
        r is Err ==> root_attrs_in(sections_in(*dwarf), offset) is None,
{
    let at = gimli::DebugInfoOffset(offset);
    let header = dwarf.dwarf.debug_info.header_from_offset(at)?;
    let abbreviations = dwarf.dwarf.abbreviations(&header)?;
    let (offset_size, address_size) = (header.format().word_size(), header.encoding().address_size);
    Ok((UnitRoot { header, abbreviations }, offset_size, address_size))
}

/// The first entry of a unit, found with `gimli::EntriesCursor::next_dfs` and
/// `current`.
#[verifier::external_body]
pub(crate) fn root_entry<'u, 'a>(root: &'u UnitRoot<'a>) -> (r: std::result::Result<
    RootEntry<'u, 'a>,
    GimliError,
>)
    ensures
        r is Ok ==> entry_place(r->Ok_0) == root_place(*root),
        r is Ok ==> root_attrs_in(root_place(*root).0, root_place(*root).1) is Some,
        r is Err ==> root_attrs_in(root_place(*root).0, root_place(*root).1) is None,
{
    let mut cursor = root.header.entries(&root.abbreviations);
    cursor.next_dfs()?;
    let entry = cursor.current().cloned().ok_or(GimliError::MissingUnitDie)?;
    Ok(RootEntry { entry })
}

/// Start a walk over the attributes of a root entry with
/// `gimli::DebuggingInformationEntry::attrs`.
#[verifier::external_body]
pub(crate) fn root_attrs<'e, 'u, 'a>(entry: &'e RootEntry<'u, 'a>) -> (r: RootAttrs<'e, 'u, 'a>)
    ensures
        root_attrs_in(entry_place(*entry).0, entry_place(*entry).1) == Some(attrs_rest(r)),
{
    RootAttrs { attrs: entry.entry.attrs() }
}

/// Take the next attribute of a walk with `gimli::AttrsIter::next`: its name, and
/// its value where it is an index.
#[verifier::external_body]
pub(crate) fn next_attr(attrs: &mut RootAttrs<'_, '_, '_>) -> (r: std::result::Result<
    Option<(u16, Index)>,
    GimliError,
>)
    ensures
        r is Err <==> attrs_rest(*old(attrs)).0.len() == 0 && attrs_rest(*old(attrs)).1,
        r is Ok ==> (r->Ok_0 is Some <==> attrs_rest(*old(attrs)).0.len() > 0),
        r is Ok && r->Ok_0 is Some ==> r->Ok_0->0 == attrs_rest(*old(attrs)).0[0],
        r is Ok && r->Ok_0 is Some ==> attrs_rest(*final(attrs)) == (
            attrs_rest(*old(attrs)).0.skip(1),
            attrs_rest(*old(attrs)).1,
        ),
{
    let Some(attr) = attrs.attrs.next()? else { return Ok(None) };
    let index = match attr.value() {
        AttributeValue::DebugStrOffsetsIndex(index) => Index::Str(index.0),
        AttributeValue::DebugAddrIndex(index) => Index::Addr(index.0),
        _ => Index::Other,
    };
    Ok(Some((attr.name().0, index)))
}

} // verus!
