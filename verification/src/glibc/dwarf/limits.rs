//! Numbers in debugging information that are out of range for its reader.
//!
//! An index is multiplied by the size of what it counts, the size of a piece by
//! eight. The products have to be numbers of 64 bits.

use vstd::prelude::*;

use super::reader;
use super::reader::{
    next_attr, open_root, root_attrs, root_entry, Attr, AttrKind, DwarfInfo, Index, DW_AT_COMP_DIR,
    DW_AT_LOW_PC, DW_AT_NAME, DW_OP_PIECE,
};

verus! {

/// An index is in range for entries of `size` bytes.
pub open spec fn index_fits(i: usize, size: u8) -> bool {
    i * size <= u64::MAX
}

fn check_index(i: usize, size: u8) -> (r: bool)
    ensures
        r == index_fits(i, size),
{
    assert(0 <= i * size <= u64::MAX * 255) by (nonlinear_arith)
        requires
            0 <= i <= u64::MAX,
            0 <= size <= 255,
    ;
    (i as u128) * (size as u128) <= u64::MAX as u128
}

/// An attribute that is a string index is in range for entries of `size` bytes.
pub open spec fn string_fits(attr: Attr, size: u8) -> bool {
    attr.kind matches AttrKind::StrIndex(i) ==> index_fits(i, size)
}

/// Whether an attribute that is a string index is in range for entries of `size`
/// bytes.
pub fn check_string(attr: Attr, size: u8) -> (r: bool)
    ensures
        r == string_fits(attr, size),
{
    match attr.kind {
        AttrKind::StrIndex(i) => check_index(i, size),
        _ => true,
    }
}

/// The last of the first `n` attributes that has a name.
pub open spec fn last_index(attrs: Seq<(u16, Index)>, at: u16, n: int) -> Option<Index>
    decreases n,
{
    if n <= 0 {
        None
    } else if attrs[n - 1].0 == at {
        Some(attrs[n - 1].1)
    } else {
        last_index(attrs, at, n - 1)
    }
}

/// A string index is in range for entries of `size` bytes.
pub open spec fn str_index_fits(index: Option<Index>, size: u8) -> bool {
    index matches Some(Index::Str(i)) ==> index_fits(i, size)
}

/// An address index is in range for addresses of `size` bytes.
pub open spec fn addr_index_fits(index: Option<Index>, size: u8) -> bool {
    index matches Some(Index::Addr(i)) ==> index_fits(i, size)
}

/// The attributes of a root entry that loading a unit looks up are in range: the
/// last name, the last directory and the last address. Where the attributes cannot
/// all be read, nothing is looked up.
pub open spec fn attrs_fit(
    found: Option<(Seq<(u16, Index)>, bool)>,
    offset_size: u8,
    address_size: u8,
) -> bool {
    match found {
        Some((attrs, false)) => {
            let n = attrs.len() as int;
            &&& str_index_fits(last_index(attrs, DW_AT_NAME, n), offset_size)
            &&& str_index_fits(last_index(attrs, DW_AT_COMP_DIR, n), offset_size)
            &&& addr_index_fits(last_index(attrs, DW_AT_LOW_PC, n), address_size)
        },
        _ => true,
    }
}

/// The size of addresses in the unit at an offset.
pub open spec fn address_size_at(sections: Seq<(Seq<char>, Seq<u8>)>, offset: usize) -> u8 {
    match reader::header_in(sections, offset) {
        Some(header) => header.address_size,
        None => 0,
    }
}

/// The root entry of the unit at an offset has its indices in range.
pub open spec fn root_fits(sections: Seq<(Seq<char>, Seq<u8>)>, offset: usize) -> bool {
    attrs_fit(
        reader::root_attrs_in(sections, offset),
        reader::offset_size_in(sections, offset),
        address_size_at(sections, offset),
    )
}

fn check_str_index(index: Option<Index>, size: u8) -> (r: bool)
    ensures
        r == str_index_fits(index, size),
{
    match index {
        Some(Index::Str(i)) => check_index(i, size),
        _ => true,
    }
}

fn check_addr_index(index: Option<Index>, size: u8) -> (r: bool)
    ensures
        r == addr_index_fits(index, size),
{
    match index {
        Some(Index::Addr(i)) => check_index(i, size),
        _ => true,
    }
}

/// Whether the root entry of the unit at an offset has its indices in range.
pub fn check_root(dwarf: &DwarfInfo<'_>, offset: usize) -> (r: bool)
    ensures
        r == root_fits(reader::sections_in(*dwarf), offset),
{
    let (root, offset_size, address_size) = match open_root(dwarf, offset) {
        Ok(v) => v,
        Err(_) => return true,
    };
    let entry = match root_entry(&root) {
        Ok(entry) => entry,
        Err(_) => return true,
    };
    let mut attrs = root_attrs(&entry);
    let ghost (all, broken) = reader::attrs_rest(attrs);
    let ghost mut n: int = 0;
    let mut name: Option<Index> = None;
    let mut comp_dir: Option<Index> = None;
    let mut low_pc: Option<Index> = None;
    assert(all.skip(0) =~= all);
    loop
        invariant
            0 <= n <= all.len(),
            reader::root_attrs_in(reader::sections_in(*dwarf), offset) == Some((all, broken)),
            reader::offset_size_in(reader::sections_in(*dwarf), offset) == offset_size,
            address_size_at(reader::sections_in(*dwarf), offset) == address_size,
            reader::attrs_rest(attrs) == (all.skip(n), broken),
            name == last_index(all, DW_AT_NAME, n),
            comp_dir == last_index(all, DW_AT_COMP_DIR, n),
            low_pc == last_index(all, DW_AT_LOW_PC, n),
        decreases all.len() - n,
    {
        let (at, index): (u16, Index) = match next_attr(&mut attrs) {
            Ok(Some(attr)) => attr,
            Ok(None) => {
                return check_str_index(name, offset_size) && check_str_index(comp_dir, offset_size)
                    && check_addr_index(low_pc, address_size);
            },
            Err(_) => return true,
        };
        proof {
            assert((at, index) == all[n]);
            assert(all.skip(n).skip(1) =~= all.skip(n + 1));
            n = n + 1;
        }
        if at == DW_AT_NAME {
            name = Some(index);
        }
        if at == DW_AT_COMP_DIR {
            comp_dir = Some(index);
        }
        if at == DW_AT_LOW_PC {
            low_pc = Some(index);
        }
    }
}

/// The number that the bytes from `i` on spell in LEB128: seven bits a byte, least
/// significant first, up to the first byte without the top bit.
pub open spec fn leb_from(bytes: Seq<u8>, i: int) -> int
    decreases bytes.len() - i,
{
    if i < 0 || i >= bytes.len() {
        0
    } else {
        bytes[i] as int % 128 + if bytes[i] >= 128 {
            128 * leb_from(bytes, i + 1)
        } else {
            0
        }
    }
}

/// The operation at the start of an expression is in range: a piece has a size in
/// bits of 64 bits.
pub open spec fn operation_fits(bytes: Seq<u8>) -> bool {
    bytes.len() > 0 && bytes[0] == DW_OP_PIECE ==> 8 * leb_from(bytes, 1) <= u64::MAX
}

proof fn lemma_leb_grows(bytes: Seq<u8>, i: int, k: int)
    requires
        0 <= i <= k <= bytes.len(),
        forall|j: int| i <= j < k ==> (#[trigger] bytes[j]) >= 128,
    ensures
        0 <= leb_from(bytes, k) <= leb_from(bytes, i),
    decreases bytes.len() - i,
{
    if i < k {
        lemma_leb_grows(bytes, i + 1, k);
    } else if i < bytes.len() {
        lemma_leb_grows(bytes, i + 1, i + 1);
    }
}

/// Whether the operation at the start of an expression is in range.
pub fn check_operation(bytes: &[u8]) -> (r: bool)
    ensures
        r == operation_fits(bytes@),
{
    if bytes.len() == 0 || bytes[0] != DW_OP_PIECE {
        return true;
    }
    let mut end: usize = 1;
    while end < bytes.len() && bytes[end] >= 128
        invariant
            1 <= end <= bytes@.len(),
            forall|j: int| 1 <= j < end ==> (#[trigger] bytes@[j]) >= 128,
        decreases bytes@.len() - end,
    {
        end = end + 1;
    }
    let mut value: u64 = if end < bytes.len() {
        bytes[end] as u64
    } else {
        0
    };
    let mut at: usize = end;
    while at > 1
        invariant
            1 <= at <= end <= bytes@.len(),
            bytes@[0] == DW_OP_PIECE,
            forall|j: int| 1 <= j < end ==> (#[trigger] bytes@[j]) >= 128,
            value == leb_from(bytes@, at as int),
            value <= u64::MAX / 8,
        decreases at,
    {
        at = at - 1;
        proof {
            lemma_leb_grows(bytes@, 1, at as int);
        }
        if value > u64::MAX / 8 / 128 {
            return false;
        }
        value = 128 * value + (bytes[at] % 128) as u64;
        if value > u64::MAX / 8 {
            return false;
        }
    }
    true
}

} // verus!
