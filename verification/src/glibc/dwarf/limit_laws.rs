//! Which numbers of the debug information are in range.

use vstd::prelude::*;

use super::limits;
use super::reader::{Attr, AttrKind, DieAt, Index, UnitHeader};
use super::scan;
use super::scan::Hits;
use super::sections::Sections;
use super::DwarfError;

verus! {

/// An index is in range where what it counts ends within 64 bits; attributes that hold no
/// index are in range.
pub proof fn law_indices_in_range(attr: Attr, i: usize, size: u8)
    ensures
        limits::index_fits(i, size) <==> i * size < 0x1_0000_0000_0000_0000,
        attr.kind == AttrKind::StrIndex(i) ==> (limits::string_fits(attr, size) <==> i * size
            < 0x1_0000_0000_0000_0000),
        !(attr.kind is StrIndex) ==> limits::string_fits(attr, size),
{
}

proof fn lemma_last_index(attrs: Seq<(u16, Index)>, at: u16, n: int) -> (k: int)
    requires
        0 <= n <= attrs.len(),
    ensures
        -1 <= k < n,
        k >= 0 ==> attrs[k].0 == at && limits::last_index(attrs, at, n) == Some(attrs[k].1),
        k < 0 ==> limits::last_index(attrs, at, n) is None,
        forall|j: int| k < j < n ==> (#[trigger] attrs[j]).0 != at,
    decreases n,
{
    if n == 0 {
        -1
    } else if attrs[n - 1].0 == at {
        n - 1
    } else {
        lemma_last_index(attrs, at, n - 1)
    }
}

/// Attribute `k` is the last of a number.
pub open spec fn is_last(attrs: Seq<(u16, Index)>, at: u16, k: int) -> bool {
    &&& 0 <= k < attrs.len()
    &&& attrs[k].0 == at
    &&& forall|j: int| k < j < attrs.len() ==> (#[trigger] attrs[j]).0 != at
}

/// The entry of a unit is in range where the last of its names (`0x03`) and of its
/// directories (`0x1b`) are in range as indices of strings, and the last of its lowest
/// addresses (`0x11`) as an index of addresses.
pub proof fn law_root_in_range(
    attrs: Seq<(u16, Index)>,
    offset_size: u8,
    address_size: u8,
)
    ensures
        limits::attrs_fit(Some((attrs, false)), offset_size, address_size) <==> {
            &&& forall|k: int, i: usize|
                (#[trigger] is_last(attrs, 0x03, k)) && #[trigger] is_str(attrs, k, i) ==> i
                    * offset_size < 0x1_0000_0000_0000_0000
            &&& forall|k: int, i: usize|
                (#[trigger] is_last(attrs, 0x1b, k)) && #[trigger] is_str(attrs, k, i) ==> i
                    * offset_size < 0x1_0000_0000_0000_0000
            &&& forall|k: int, i: usize|
                (#[trigger] is_last(attrs, 0x11, k)) && #[trigger] is_addr(attrs, k, i) ==> i
                    * address_size < 0x1_0000_0000_0000_0000
        },
        limits::attrs_fit(Some((attrs, true)), offset_size, address_size),
        limits::attrs_fit(None, offset_size, address_size),
{
    let n: int = attrs.len() as int;
    let name = lemma_last_index(attrs, 0x03, n);
    let dir = lemma_last_index(attrs, 0x1b, n);
    let low = lemma_last_index(attrs, 0x11, n);
    lemma_last_is_one(attrs, 0x03, name);
    lemma_last_is_one(attrs, 0x1b, dir);
    lemma_last_is_one(attrs, 0x11, low);
    if name >= 0 {
        if let Index::Str(i) = attrs[name].1 {
            assert(is_last(attrs, 0x03, name) && is_str(attrs, name, i));
        }
    }
    if dir >= 0 {
        if let Index::Str(i) = attrs[dir].1 {
            assert(is_last(attrs, 0x1b, dir) && is_str(attrs, dir, i));
        }
    }
    if low >= 0 {
        if let Index::Addr(i) = attrs[low].1 {
            assert(is_last(attrs, 0x11, low) && is_addr(attrs, low, i));
        }
    }
}

proof fn lemma_last_is_one(attrs: Seq<(u16, Index)>, at: u16, n: int)
    requires
        -1 <= n < attrs.len(),
        n >= 0 ==> attrs[n].0 == at,
        forall|j: int| n < j < attrs.len() ==> (#[trigger] attrs[j]).0 != at,
    ensures
        forall|k: int| #[trigger] is_last(attrs, at, k) <==> k == n && n >= 0,
{
    assert forall|k: int| #[trigger] is_last(attrs, at, k) == (k == n && n >= 0) by {
        if is_last(attrs, at, k) {
            if k > n {
                assert(attrs[k].0 != at);
            }
            if k < n {
                assert(attrs[n].0 != at);
            }
        }
    }
}

/// Attribute `k` holds an index of strings.
pub open spec fn is_str(attrs: Seq<(u16, Index)>, k: int, i: usize) -> bool {
    attrs[k].1 == Index::Str(i)
}

/// Attribute `k` holds an index of addresses.
pub open spec fn is_addr(attrs: Seq<(u16, Index)>, k: int, i: usize) -> bool {
    attrs[k].1 == Index::Addr(i)
}

/// Seven bits of a number in each byte, the lowest first; all but the last have the high
/// bit set.
pub open spec fn packed(n: nat) -> Seq<u8>
    decreases n,
{
    if n < 128 {
        seq![n as u8]
    } else {
        seq![(128 + n % 128) as u8] + packed(n / 128)
    }
}

/// A number reads back from the bytes that it is packed in, whatever stands before and
/// behind.
pub proof fn law_packed_numbers_are_read_back(before: Seq<u8>, n: nat, behind: Seq<u8>)
    ensures
        limits::leb_from(before + packed(n) + behind, before.len() as int) == n,
    decreases n,
{
    let data = before + packed(n) + behind;
    let at: int = before.len() as int;
    if n < 128 {
        assert(data[at] == n as u8);
    } else {
        let first = (128 + n % 128) as u8;
        assert(data[at] == first);
        let next = before.push(first);
        law_packed_numbers_are_read_back(next, n / 128, behind);
        assert(next + packed(n / 128) + behind =~= data);
    }
}

/// An operation is in range unless it is a piece (`0x93`) whose size in bits is not within
/// 64 bits.
pub proof fn law_operations_in_range(bytes: Seq<u8>, n: nat, behind: Seq<u8>)
    ensures
        bytes.len() == 0 || bytes[0] != 0x93 ==> limits::operation_fits(bytes),
        limits::operation_fits(seq![0x93u8] + packed(n) + behind) <==> 8 * n
            < 0x1_0000_0000_0000_0000,
{
    law_packed_numbers_are_read_back(seq![0x93u8], n, behind);
    let data = seq![0x93u8] + packed(n) + behind;
    assert(data[0] == 0x93);
}

/// A search goes over two million entries at most and takes up 4096 names at most; what is
/// beyond is told.
pub proof fn law_search_is_limited(sections: Sections, unit: UnitHeader, die: DieAt, hits: Hits)
    requires
        scan::target_at(sections, unit, die) is Ok,
    ensures
        ({
            let named = scan::target_at(sections, unit, die)->Ok_0;
            let r = hits.with(sections, unit, die);
            &&& r is Ok <==> hits.dies < 2_000_000 && (named is None || hits.candidates < 4096)
            &&& hits.dies >= 2_000_000 ==> r == Err::<Hits, DwarfError>(
                DwarfError::Limit("DIE count"@),
            )
            &&& hits.dies < 2_000_000 && r is Err ==> r == Err::<Hits, DwarfError>(
                DwarfError::Limit("target type candidates"@),
            )
        }),
{
}

} // verus!
