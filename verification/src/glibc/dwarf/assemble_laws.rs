//! Which definitions of the malloc structures are taken, and what is taken from them.

use vstd::prelude::*;

use super::assemble;
use super::assemble::{
    HeapInfoLayout, MallocParLayout, MallocStateLayout, TargetLayout, TcacheLayout,
};
use super::{
    DwarfError, DwarfLayout, FindingsView, MemberView, StructureView, Target, TypeIndexView,
    TypeKind,
};

verus! {

/// Member `k` is the only one of a structure by a name.
pub open spec fn is_only(s: StructureView, name: Seq<char>, k: int) -> bool {
    &&& 0 <= k < s.members.len()
    &&& s.members[k].name == name
    &&& forall|j: int|
        0 <= j < s.members.len() && (#[trigger] s.members[j]).name == name ==> j == k
}

/// A structure has no member by a name.
pub open spec fn has_none(s: StructureView, name: Seq<char>) -> bool {
    forall|j: int| 0 <= j < s.members.len() ==> (#[trigger] s.members[j]).name != name
}

proof fn lemma_named(s: StructureView, name: Seq<char>)
    ensures
        ({
            let found = assemble::named(s.members, name);
            &&& found.len() == 0 <==> has_none(s, name)
            &&& found.len() == 1 <==> exists|k: int| #[trigger] is_only(s, name, k)
            &&& forall|k: int| #[trigger] is_only(s, name, k) ==> found[0] == s.members[k]
        }),
{
    let found = assemble::named(s.members, name);
    let members = s.members;
    lemma_ranked(members, name);
    if found.len() >= 1 {
        assert(has_rank(members, name, 0));
        let k = choose|k: int| #[trigger] is_ranked(members, name, k, 0);
        assert(members[k].name == name);
        assert(!has_none(s, name));
        if found.len() >= 2 {
            assert(has_rank(members, name, 1));
            let l = choose|l: int| #[trigger] is_ranked(members, name, l, 1);
            assert(members[l].name == name && k != l);
            assert forall|j: int| !#[trigger] is_only(s, name, j) by {
                if is_only(s, name, j) {
                    assert(members[k].name == name && members[l].name == name);
                }
            }
        } else {
            assert forall|j: int|
                0 <= j < members.len() && (#[trigger] members[j]).name == name implies j == k by {
                assert(is_ranked(members, name, j, rank(members, name, j)));
                lemma_ranks_differ(members, name, j, k);
            }
            assert(is_only(s, name, k));
            assert forall|j: int| #[trigger] is_only(s, name, j) implies found[0]
                == s.members[j] by {
                assert(members[k].name == name);
            }
        }
    } else {
        assert forall|j: int| 0 <= j < members.len() implies (#[trigger] members[j]).name
            != name by {
            if members[j].name == name {
                assert(is_ranked(members, name, j, rank(members, name, j)));
            }
        }
        assert(has_none(s, name));
    }
}

/// How many members before `k` have a name.
spec fn rank(members: Seq<MemberView>, name: Seq<char>, k: int) -> int {
    assemble::named(members.take(k), name).len() as int
}

/// Member `k` has a name and is entry `i` of those that have it.
spec fn is_ranked(members: Seq<MemberView>, name: Seq<char>, k: int, i: int) -> bool {
    let found = assemble::named(members, name);
    &&& 0 <= k < members.len()
    &&& members[k].name == name
    &&& rank(members, name, k) == i
    &&& 0 <= i < found.len()
    &&& found[i] == members[k]
}

/// Some member is entry `i` of those that have a name.
spec fn has_rank(members: Seq<MemberView>, name: Seq<char>, i: int) -> bool {
    exists|k: int| #[trigger] is_ranked(members, name, k, i)
}

proof fn lemma_ranked(members: Seq<MemberView>, name: Seq<char>)
    ensures
        forall|i: int|
            0 <= i < assemble::named(members, name).len() ==> #[trigger] has_rank(
                members,
                name,
                i,
            ),
        forall|k: int|
            0 <= k < members.len() && (#[trigger] members[k]).name == name ==> is_ranked(
                members,
                name,
                k,
                rank(members, name, k),
            ),
    decreases members.len(),
{
    if members.len() > 0 {
        let front = members.drop_last();
        lemma_ranked(front, name);
        let before = assemble::named(front, name);
        let found = assemble::named(members, name);
        let last = members.len() - 1;
        assert(members.take(last) =~= front);
        assert forall|k: int| 0 <= k < last implies #[trigger] rank(members, name, k) == rank(
            front,
            name,
            k,
        ) by {
            assert(members.take(k) =~= front.take(k));
        }
        assert forall|i: int| 0 <= i < found.len() implies #[trigger] has_rank(
            members,
            name,
            i,
        ) by {
            if i < before.len() {
                assert(has_rank(front, name, i));
                let k = choose|k: int| #[trigger] is_ranked(front, name, k, i);
                assert(rank(members, name, k) == rank(front, name, k));
                assert(is_ranked(members, name, k, i));
            } else {
                assert(is_ranked(members, name, last, i));
            }
        }
        assert forall|k: int|
            0 <= k < members.len() && (#[trigger] members[k]).name == name implies is_ranked(
            members,
            name,
            k,
            rank(members, name, k),
        ) by {
            if k < last {
                assert(front[k].name == name);
                assert(is_ranked(front, name, k, rank(front, name, k)));
                assert(rank(members, name, k) == rank(front, name, k));
            }
        }
    }
}

proof fn lemma_ranks_differ(members: Seq<MemberView>, name: Seq<char>, j: int, k: int)
    requires
        0 <= j < members.len(),
        0 <= k < members.len(),
        members[j].name == name,
        members[k].name == name,
        rank(members, name, j) == rank(members, name, k),
    ensures
        j == k,
    decreases if j > k {
        1int
    } else {
        0int
    },
{
    if j < k {
        lemma_ranked(members.take(k), name);
        assert(members.take(k)[j].name == name);
        assert(is_ranked(members.take(k), name, j, rank(members.take(k), name, j)));
        assert(members.take(k).take(j) =~= members.take(j));
    } else if k < j {
        lemma_ranks_differ(members, name, k, j);
    }
}

proof fn lemma_required(s: StructureView, name: Seq<char>)
    ensures
        match assemble::required(s, name) {
            Ok(m) => exists|k: int| #[trigger] is_only(s, name, k) && s.members[k] == m,
            Err(_) => forall|k: int| !#[trigger] is_only(s, name, k),
        },
        forall|k: int| #[trigger]
            is_only(s, name, k) ==> assemble::required(s, name) == Ok::<MemberView, DwarfError>(
                s.members[k],
            ),
{
    lemma_named(s, name);
    let found = assemble::named(s.members, name);
    assert forall|k: int| #[trigger] is_only(s, name, k) implies assemble::required(s, name)
        == Ok::<MemberView, DwarfError>(s.members[k]) by {
        assert(found.len() == 1);
    }
}

/// A required member is the only one of its name. Where there is none it is said to be
/// missing, where there are more the name is said to be ambiguous.
pub proof fn law_required_members_are_unique(s: StructureView, name: Seq<char>, k: int)
    ensures
        is_only(s, name, k) ==> assemble::required(s, name) == Ok::<MemberView, DwarfError>(
            s.members[k],
        ),
        has_none(s, name) ==> assemble::required(s, name) == Err::<MemberView, DwarfError>(
            DwarfError::Invalid("missing required member "@ + name),
        ),
        !has_none(s, name) && (forall|j: int| !#[trigger] is_only(s, name, j))
            ==> assemble::required(s, name) == Err::<MemberView, DwarfError>(
            DwarfError::Invalid("member "@ + name + " is ambiguous"@),
        ),
{
    lemma_named(s, name);
    lemma_required(s, name);
    let found = assemble::named(s.members, name);
}

/// A member lies in its structure, at an offset of a mebibyte at most.
pub open spec fn lies_in(m: MemberView, s: StructureView) -> bool {
    &&& m.ty.byte_size is Some
    &&& m.ty.byte_size->0 > 0
    &&& m.offset <= 0x10_0000
    &&& m.offset + m.ty.byte_size->0 <= s.byte_size
}

/// Where a member ends.
pub open spec fn end_of(m: MemberView) -> int {
    m.offset + m.ty.byte_size->0
}

/// Two members share no byte.
pub open spec fn clear_of(a: MemberView, b: MemberView) -> bool {
    end_of(a) <= b.offset || end_of(b) <= a.offset
}

/// Member `k` is the only one of a name, lies in the structure, is aligned to a word and
/// takes one word of a kind.
pub open spec fn is_word_member(
    s: StructureView,
    name: Seq<char>,
    k: int,
    word: u64,
    kind: TypeKind,
) -> bool {
    let m = s.members[k];
    &&& is_only(s, name, k)
    &&& lies_in(m, s)
    &&& m.ty.kind == kind
    &&& m.ty.byte_size->0 == word
    &&& m.offset % word == 0
}

/// Member `k` is the only one of a name, lies in the structure and is an array of `count`
/// elements of a kind, each of `width` bytes, a mebibyte in all at most.
pub open spec fn is_array_member(
    s: StructureView,
    name: Seq<char>,
    k: int,
    kind: TypeKind,
    width: u64,
    count: u64,
) -> bool {
    let m = s.members[k];
    &&& is_only(s, name, k)
    &&& lies_in(m, s)
    &&& m.ty.kind == TypeKind::Array
    &&& m.ty.element_kind == Some(kind)
    &&& m.ty.element_size == Some(width)
    &&& m.ty.element_count == Some(count)
    &&& m.ty.byte_size->0 == width * count
    &&& width * count <= 0x10_0000
}

proof fn lemma_in_range(s: StructureView, k: int)
    requires
        0 <= k < s.members.len(),
    ensures
        assemble::in_range(s.members[k], s.byte_size) is Ok <==> lies_in(s.members[k], s),
{
}

proof fn lemma_word_member(s: StructureView, name: Seq<char>, k: int, word: u64, kind: TypeKind)
    requires
        word > 0,
        is_only(s, name, k),
    ensures
        forall|complaint: Seq<char>|
            (#[trigger] assemble::is_word(s.members[k], s.byte_size, word, kind, complaint)) is Ok
                <==> is_word_member(s, name, k, word, kind),
{
    lemma_in_range(s, k);
}

proof fn lemma_array_member(
    s: StructureView,
    name: Seq<char>,
    k: int,
    kind: TypeKind,
    expected: Option<u64>,
)
    requires
        is_only(s, name, k),
    ensures
        match assemble::array_shape(s.members[k], s.byte_size, kind, expected) {
            Ok((width, count)) => {
                &&& is_array_member(s, name, k, kind, width, count)
                &&& expected is Some ==> expected->0 == width
            },
            Err(_) => forall|width: u64, count: u64|
                (expected is Some ==> expected->0 == width) ==> !#[trigger] is_array_member(
                    s,
                    name,
                    k,
                    kind,
                    width,
                    count,
                ),
        },
{
    lemma_in_range(s, k);
    let m = s.members[k];
    if assemble::array_shape(m, s.byte_size, kind, expected) is Err {
        assert forall|width: u64, count: u64|
            (expected is Some ==> expected->0
                == width) implies !#[trigger] is_array_member(s, name, k, kind, width, count) by {
            if is_array_member(s, name, k, kind, width, count) {
                assert(width > 0 && count > 0) by (nonlinear_arith)
                    requires
                        width * count > 0,
                        width >= 0,
                        count >= 0,
                ;
            }
        }
    }
}

/// Whether members are clear of each other, as far as they lie in a structure.
proof fn lemma_clear(a: MemberView, b: MemberView, s: StructureView)
    requires
        lies_in(a, s),
        lies_in(b, s),
    ensures
        assemble::overlap(a, b) <==> !clear_of(a, b),
{
}

proof fn lemma_two_apart(a: MemberView, b: MemberView, s: StructureView)
    requires
        lies_in(a, s),
        lies_in(b, s),
    ensures
        assemble::apart(seq![a, b]) is Ok <==> clear_of(a, b),
{
    lemma_clear(a, b, s);
    reveal_with_fuel(assemble::overlap_from, 5);
}

proof fn lemma_three_apart(a: MemberView, b: MemberView, c: MemberView, s: StructureView)
    requires
        lies_in(a, s),
        lies_in(b, s),
        lies_in(c, s),
    ensures
        assemble::apart(seq![a, b, c]) is Ok <==> clear_of(a, b) && clear_of(a, c) && clear_of(
            b,
            c,
        ),
{
    lemma_clear(a, b, s);
    lemma_clear(a, c, s);
    lemma_clear(b, c, s);
    reveal_with_fuel(assemble::overlap_from, 8);
}

proof fn lemma_four_apart(
    a: MemberView,
    b: MemberView,
    c: MemberView,
    d: MemberView,
    s: StructureView,
)
    requires
        lies_in(a, s),
        lies_in(b, s),
        lies_in(c, s),
        lies_in(d, s),
    ensures
        assemble::apart(seq![a, b, c, d]) is Ok <==> {
            &&& clear_of(a, b) && clear_of(a, c) && clear_of(a, d)
            &&& clear_of(b, c) && clear_of(b, d)
            &&& clear_of(c, d)
        },
{
    lemma_clear(a, b, s);
    lemma_clear(a, c, s);
    lemma_clear(a, d, s);
    lemma_clear(b, c, s);
    lemma_clear(b, d, s);
    lemma_clear(c, d, s);
    reveal_with_fuel(assemble::overlap_from, 12);
}

/// Members `f`, `t` and `n` make a structure a `malloc_state` with this layout: the array
/// of fastbins, 1 to 256 pointers, the pointer to the top chunk and the one to the next
/// arena.
pub open spec fn is_malloc_state(
    s: StructureView,
    word: u64,
    v: MallocStateLayout,
    f: int,
    t: int,
    n: int,
) -> bool {
    &&& is_array_member(s, "fastbinsY"@, f, TypeKind::Pointer, word, v.fastbin_count)
    &&& is_word_member(s, "top"@, t, word, TypeKind::Pointer)
    &&& is_word_member(s, "next"@, n, word, TypeKind::Pointer)
    &&& 1 <= v.fastbin_count <= 256
    &&& clear_of(s.members[f], s.members[t])
    &&& clear_of(s.members[f], s.members[n])
    &&& clear_of(s.members[t], s.members[n])
    &&& v.size == s.byte_size
    &&& v.fastbins == s.members[f].offset
    &&& v.top == s.members[t].offset
    &&& v.next == s.members[n].offset
}

/// A structure is taken for a `malloc_state` exactly where it has its three members, each
/// of the right shape and clear of the others; the layout has their offsets.
pub proof fn law_malloc_state_is_read_by_name(
    s: StructureView,
    word: u64,
    v: MallocStateLayout,
)
    requires
        word > 0,
    ensures
        assemble::malloc_state_in(s, word) == Ok::<MallocStateLayout, DwarfError>(v)
            <==> exists|f: int, t: int, n: int| #[trigger] is_malloc_state(s, word, v, f, t, n),
{
    lemma_required(s, "fastbinsY"@);
    lemma_required(s, "top"@);
    lemma_required(s, "next"@);
    if assemble::malloc_state_in(s, word) == Ok::<MallocStateLayout, DwarfError>(v) {
        let f = choose|k: int| #[trigger]
            is_only(s, "fastbinsY"@, k) && s.members[k] == assemble::required(
                s,
                "fastbinsY"@,
            )->Ok_0;
        let t = choose|k: int| #[trigger]
            is_only(s, "top"@, k) && s.members[k] == assemble::required(s, "top"@)->Ok_0;
        let n = choose|k: int| #[trigger]
            is_only(s, "next"@, k) && s.members[k] == assemble::required(s, "next"@)->Ok_0;
        lemma_array_member(s, "fastbinsY"@, f, TypeKind::Pointer, Some(word));
        lemma_word_member(s, "top"@, t, word, TypeKind::Pointer);
        lemma_word_member(s, "next"@, n, word, TypeKind::Pointer);
        lemma_three_apart(s.members[f], s.members[t], s.members[n], s);
        assert(is_malloc_state(s, word, v, f, t, n));
    }
    if exists|f: int, t: int, n: int| #[trigger] is_malloc_state(s, word, v, f, t, n) {
        let (f, t, n) = choose|f: int, t: int, n: int| #[trigger]
            is_malloc_state(s, word, v, f, t, n);
        lemma_array_member(s, "fastbinsY"@, f, TypeKind::Pointer, Some(word));
        lemma_word_member(s, "top"@, t, word, TypeKind::Pointer);
        lemma_word_member(s, "next"@, n, word, TypeKind::Pointer);
        lemma_three_apart(s.members[f], s.members[t], s.members[n], s);
    }
}

/// An optional member of a name: there is none, or its only one is an unsigned word at
/// this offset.
pub open spec fn is_optional_word(
    s: StructureView,
    name: Seq<char>,
    word: u64,
    at: Option<u64>,
) -> bool {
    match at {
        None => has_none(s, name),
        Some(offset) => exists|k: int| #[trigger]
            is_word_member(s, name, k, word, TypeKind::Unsigned) && s.members[k].offset == offset,
    }
}

proof fn lemma_optional(s: StructureView, name: Seq<char>, word: u64, at: Option<u64>)
    requires
        word > 0,
    ensures
        assemble::optional_word(s, name, word) == Ok::<Option<u64>, DwarfError>(at)
            <==> is_optional_word(s, name, word, at),
{
    lemma_named(s, name);
    lemma_required(s, name);
    let found = assemble::named(s.members, name);
    if found.len() == 1 {
        let k = choose|k: int| #[trigger]
            is_only(s, name, k) && s.members[k] == assemble::required(s, name)->Ok_0;
        lemma_word_member(s, name, k, word, TypeKind::Unsigned);
        assert(s.members[k].name == name);
        assert(!has_none(s, name));
        if let Some(offset) = at {
            if is_optional_word(s, name, word, at) {
                let j = choose|j: int| #[trigger]
                    is_word_member(s, name, j, word, TypeKind::Unsigned) && s.members[j].offset
                        == offset;
                assert(j == k);
            }
            if is_word_member(s, name, k, word, TypeKind::Unsigned) {
                assert(s.members[k].offset == found[0].offset);
            }
        }
    } else if let Some(offset) = at {
        if is_optional_word(s, name, word, at) {
            let j = choose|j: int| #[trigger]
                is_word_member(s, name, j, word, TypeKind::Unsigned) && s.members[j].offset
                    == offset;
            assert(is_only(s, name, j));
        }
    }
}

/// Member `k` makes a structure a `malloc_par` with this layout: the pointer to the first
/// heap, and the limits on arenas and tcache bins where there are such members.
pub open spec fn is_malloc_par(s: StructureView, word: u64, v: MallocParLayout, k: int) -> bool {
    &&& is_word_member(s, "sbrk_base"@, k, word, TypeKind::Pointer)
    &&& v.sbrk_base == s.members[k].offset
    &&& is_optional_word(s, "arena_max"@, word, v.arena_max)
    &&& is_optional_word(s, "tcache_bins"@, word, v.tcache_bins)
}

/// A structure is taken for a `malloc_par` exactly where it has the pointer to the first
/// heap and its limits are words, as far as they are there.
pub proof fn law_malloc_par_is_read_by_name(s: StructureView, word: u64, v: MallocParLayout)
    requires
        word > 0,
    ensures
        assemble::malloc_par_in(s, word) == Ok::<MallocParLayout, DwarfError>(v) <==> exists|k: int|
            #[trigger] is_malloc_par(s, word, v, k),
{
    lemma_required(s, "sbrk_base"@);
    lemma_optional(s, "arena_max"@, word, v.arena_max);
    lemma_optional(s, "tcache_bins"@, word, v.tcache_bins);
    if assemble::malloc_par_in(s, word) == Ok::<MallocParLayout, DwarfError>(v) {
        let k = choose|k: int| #[trigger]
            is_only(s, "sbrk_base"@, k) && s.members[k] == assemble::required(
                s,
                "sbrk_base"@,
            )->Ok_0;
        lemma_word_member(s, "sbrk_base"@, k, word, TypeKind::Pointer);
        assert(is_malloc_par(s, word, v, k));
    }
    if exists|k: int| #[trigger] is_malloc_par(s, word, v, k) {
        let k = choose|k: int| #[trigger] is_malloc_par(s, word, v, k);
        lemma_word_member(s, "sbrk_base"@, k, word, TypeKind::Pointer);
    }
}

/// Members `a`, `p`, `z` and `c` make a structure a `heap_info` with this layout: the
/// pointers to the arena and to the heap before, the size and the committed size.
pub open spec fn is_heap_info(
    s: StructureView,
    word: u64,
    v: HeapInfoLayout,
    a: int,
    p: int,
    z: int,
    c: int,
) -> bool {
    &&& is_word_member(s, "ar_ptr"@, a, word, TypeKind::Pointer)
    &&& is_word_member(s, "prev"@, p, word, TypeKind::Pointer)
    &&& is_word_member(s, "size"@, z, word, TypeKind::Unsigned)
    &&& is_word_member(s, "mprotect_size"@, c, word, TypeKind::Unsigned)
    &&& clear_of(s.members[a], s.members[p])
    &&& clear_of(s.members[a], s.members[z])
    &&& clear_of(s.members[a], s.members[c])
    &&& clear_of(s.members[p], s.members[z])
    &&& clear_of(s.members[p], s.members[c])
    &&& clear_of(s.members[z], s.members[c])
    &&& v.size == s.byte_size
    &&& v.ar_ptr == s.members[a].offset
    &&& v.prev == s.members[p].offset
    &&& v.current_size == s.members[z].offset
    &&& v.mprotect_size == s.members[c].offset
}

/// A structure is taken for a `heap_info` exactly where it has its four members, each of
/// the right shape and clear of the others; the layout has their offsets.
pub proof fn law_heap_info_is_read_by_name(s: StructureView, word: u64, v: HeapInfoLayout)
    requires
        word > 0,
    ensures
        assemble::heap_info_in(s, word) == Ok::<HeapInfoLayout, DwarfError>(v) <==> exists|
            a: int,
            p: int,
            z: int,
            c: int,
        | #[trigger] is_heap_info(s, word, v, a, p, z, c),
{
    lemma_required(s, "ar_ptr"@);
    lemma_required(s, "prev"@);
    lemma_required(s, "size"@);
    lemma_required(s, "mprotect_size"@);
    if assemble::heap_info_in(s, word) == Ok::<HeapInfoLayout, DwarfError>(v) {
        let a = choose|k: int| #[trigger]
            is_only(s, "ar_ptr"@, k) && s.members[k] == assemble::required(s, "ar_ptr"@)->Ok_0;
        let p = choose|k: int| #[trigger]
            is_only(s, "prev"@, k) && s.members[k] == assemble::required(s, "prev"@)->Ok_0;
        let z = choose|k: int| #[trigger]
            is_only(s, "size"@, k) && s.members[k] == assemble::required(s, "size"@)->Ok_0;
        let c = choose|k: int| #[trigger]
            is_only(s, "mprotect_size"@, k) && s.members[k] == assemble::required(
                s,
                "mprotect_size"@,
            )->Ok_0;
        lemma_word_member(s, "ar_ptr"@, a, word, TypeKind::Pointer);
        lemma_word_member(s, "prev"@, p, word, TypeKind::Pointer);
        lemma_word_member(s, "size"@, z, word, TypeKind::Unsigned);
        lemma_word_member(s, "mprotect_size"@, c, word, TypeKind::Unsigned);
        lemma_four_apart(s.members[a], s.members[p], s.members[z], s.members[c], s);
        assert(is_heap_info(s, word, v, a, p, z, c));
    }
    if exists|a: int, p: int, z: int, c: int| #[trigger] is_heap_info(s, word, v, a, p, z, c) {
        let (a, p, z, c) = choose|a: int, p: int, z: int, c: int| #[trigger]
            is_heap_info(s, word, v, a, p, z, c);
        lemma_word_member(s, "ar_ptr"@, a, word, TypeKind::Pointer);
        lemma_word_member(s, "prev"@, p, word, TypeKind::Pointer);
        lemma_word_member(s, "size"@, z, word, TypeKind::Unsigned);
        lemma_word_member(s, "mprotect_size"@, c, word, TypeKind::Unsigned);
        lemma_four_apart(s.members[a], s.members[p], s.members[z], s.members[c], s);
    }
}

/// Members `c` and `e` make a structure a `tcache_perthread_struct` with this layout: an
/// array of counts, integers of 1, 2, 4 or 8 bytes, and an array of as many pointers, 1 to
/// 1024.
pub open spec fn is_tcache(
    s: StructureView,
    word: u64,
    v: TcacheLayout,
    c: int,
    e: int,
    kind: TypeKind,
    width: u64,
) -> bool {
    &&& kind == TypeKind::Unsigned || kind == TypeKind::Signed
    &&& width == 1 || width == 2 || width == 4 || width == 8
    &&& is_array_member(s, "counts"@, c, kind, width, v.bins)
    &&& is_array_member(s, "entries"@, e, TypeKind::Pointer, word, v.bins)
    &&& 1 <= v.bins <= 1024
    &&& clear_of(s.members[c], s.members[e])
    &&& v.entries == s.members[e].offset
}

/// A structure is taken for a `tcache_perthread_struct` exactly where its counts and its
/// entries are arrays of the same length, clear of each other; the layout has the offset
/// of the entries and their number.
pub proof fn law_tcache_is_read_by_name(s: StructureView, word: u64, v: TcacheLayout)
    requires
        word > 0,
    ensures
        assemble::tcache_in(s, word) == Ok::<TcacheLayout, DwarfError>(v) <==> exists|
            c: int,
            e: int,
            kind: TypeKind,
            width: u64,
        | #[trigger] is_tcache(s, word, v, c, e, kind, width),
{
    lemma_required(s, "counts"@);
    lemma_required(s, "entries"@);
    if assemble::tcache_in(s, word) == Ok::<TcacheLayout, DwarfError>(v) {
        let c = choose|k: int| #[trigger]
            is_only(s, "counts"@, k) && s.members[k] == assemble::required(s, "counts"@)->Ok_0;
        let e = choose|k: int| #[trigger]
            is_only(s, "entries"@, k) && s.members[k] == assemble::required(s, "entries"@)->Ok_0;
        let kind = s.members[c].ty.element_kind->0;
        lemma_array_member(s, "counts"@, c, kind, None);
        lemma_array_member(s, "entries"@, e, TypeKind::Pointer, Some(word));
        let width = s.members[c].ty.element_size->0;
        lemma_two_apart(s.members[c], s.members[e], s);
        assert(is_tcache(s, word, v, c, e, kind, width));
    }
    if exists|c: int, e: int, kind: TypeKind, width: u64| #[trigger]
        is_tcache(s, word, v, c, e, kind, width) {
        let (c, e, kind, width) = choose|c: int, e: int, kind: TypeKind, width: u64| #[trigger]
            is_tcache(s, word, v, c, e, kind, width);
        lemma_array_member(s, "counts"@, c, kind, None);
        lemma_array_member(s, "entries"@, e, TypeKind::Pointer, Some(word));
        lemma_two_apart(s.members[c], s.members[e], s);
    }
}

/// A layout is taken from what was found of a structure: some definition has it, and none
/// has another.
pub open spec fn is_taken(found: FindingsView, target: Target, word: u64, v: TargetLayout) -> bool {
    &&& found.candidates is Some
    &&& exists|i: int|
        0 <= i < found.candidates->0.len() && has_layout(
            #[trigger] found.candidates->0[i],
            target,
            word,
            v,
        )
    &&& forall|i: int, w: TargetLayout|
        0 <= i < found.candidates->0.len() && #[trigger] has_layout(
            found.candidates->0[i],
            target,
            word,
            w,
        ) ==> w == v
}

/// A definition has a layout: its members make it one.
pub open spec fn has_layout(s: StructureView, target: Target, word: u64, v: TargetLayout) -> bool {
    match (target, v) {
        (Target::MallocState, TargetLayout::MallocState(l)) => exists|f: int, t: int, n: int|
            #[trigger] is_malloc_state(s, word, l, f, t, n),
        (Target::MallocPar, TargetLayout::MallocPar(l)) => exists|k: int| #[trigger]
            is_malloc_par(s, word, l, k),
        (Target::HeapInfo, TargetLayout::HeapInfo(l)) => exists|a: int, p: int, z: int, c: int|
            #[trigger] is_heap_info(s, word, l, a, p, z, c),
        (Target::Tcache, TargetLayout::Tcache(l)) => exists|
            c: int,
            e: int,
            kind: TypeKind,
            width: u64,
        | #[trigger] is_tcache(s, word, l, c, e, kind, width),
        _ => false,
    }
}

proof fn lemma_has_layout(s: StructureView, target: Target, word: u64, v: TargetLayout)
    requires
        word > 0,
    ensures
        assemble::gives(s, target, word, v) <==> has_layout(s, target, word, v),
{
    match (target, v) {
        (Target::MallocState, TargetLayout::MallocState(l)) => {
            law_malloc_state_is_read_by_name(s, word, l);
        },
        (Target::MallocPar, TargetLayout::MallocPar(l)) => {
            law_malloc_par_is_read_by_name(s, word, l);
        },
        (Target::HeapInfo, TargetLayout::HeapInfo(l)) => {
            law_heap_info_is_read_by_name(s, word, l);
        },
        (Target::Tcache, TargetLayout::Tcache(l)) => {
            law_tcache_is_read_by_name(s, word, l);
        },
        _ => {},
    }
}

/// A layout is selected exactly where some definition of the structure has it and none
/// has another.
pub proof fn law_definitions_that_agree_are_taken(
    found: FindingsView,
    target: Target,
    word: u64,
    v: TargetLayout,
)
    requires
        word > 0,
    ensures
        assemble::selected(found, target, word) == Ok::<TargetLayout, DwarfError>(v) <==> is_taken(
            found,
            target,
            word,
            v,
        ),
{
    if let Some(all) = found.candidates {
        assemble::law_selected_iff_valid_definitions_agree(found, target, word, v);
        assert forall|i: int, w: TargetLayout| 0 <= i < all.len() implies #[trigger] assemble::gives(
            all[i],
            target,
            word,
            w,
        ) == has_layout(all[i], target, word, w) by {
            lemma_has_layout(all[i], target, word, w);
        }
        if assemble::selected(found, target, word) == Ok::<TargetLayout, DwarfError>(v) {
            let i = choose|i: int|
                0 <= i < all.len() && assemble::gives(#[trigger] all[i], target, word, v);
            assert(has_layout(all[i], target, word, v));
            assert forall|i: int, w: TargetLayout|
                0 <= i < all.len() && #[trigger] has_layout(all[i], target, word, w) implies w
                == v by {
                assert(assemble::gives(all[i], target, word, w));
            }
        }
        if is_taken(found, target, word, v) {
            let i = choose|i: int|
                0 <= i < all.len() && has_layout(#[trigger] all[i], target, word, v);
            assert(assemble::gives(all[i], target, word, v));
            assert forall|i: int, w: TargetLayout|
                0 <= i < all.len() && #[trigger] assemble::gives(all[i], target, word, w) implies w
                == v by {
                assert(has_layout(all[i], target, word, w));
            }
        }
    }
}

/// An optional number of a layout is that of a definition.
pub open spec fn same_option(narrow: Option<u32>, wide: Option<u64>) -> bool {
    match (narrow, wide) {
        (Some(a), Some(b)) => a == b,
        (None, None) => true,
        _ => false,
    }
}

/// Each number of a layout is the one of its name in the definitions that were taken.
pub open spec fn is_assembled_of(
    l: DwarfLayout,
    state: MallocStateLayout,
    par: MallocParLayout,
    info: HeapInfoLayout,
) -> bool {
    &&& l.malloc_state_size == state.size
    &&& l.fastbin_array_offset == state.fastbins
    &&& l.fastbin_count == state.fastbin_count
    &&& l.malloc_state_top_offset == state.top
    &&& l.malloc_state_next_offset == state.next
    &&& l.mp_sbrk_base_offset == par.sbrk_base
    &&& same_option(l.mp_arena_max_offset, par.arena_max)
    &&& same_option(l.mp_tcache_bins_offset, par.tcache_bins)
    &&& l.heap_info_size == info.size
    &&& l.heap_info_ar_ptr_offset == info.ar_ptr
    &&& l.heap_info_prev_offset == info.prev
    &&& l.heap_info_size_offset == info.current_size
    &&& l.heap_info_mprotect_size_offset == info.mprotect_size
}

/// A layout is assembled exactly where the target's words have 4 or 8 bytes, each of the
/// structures has definitions that agree (that of the tcache only where it is required),
/// and their sizes fit. Its numbers are then theirs, each under its own name.
pub proof fn law_layout_is_assembled_by_name(
    index: TypeIndexView,
    word: u64,
    require_tcache: bool,
    state: MallocStateLayout,
    par: MallocParLayout,
    info: HeapInfoLayout,
    tcache: TcacheLayout,
)
    requires
        is_taken(index.malloc_state, Target::MallocState, word, TargetLayout::MallocState(state)),
        is_taken(index.malloc_par, Target::MallocPar, word, TargetLayout::MallocPar(par)),
        is_taken(index.heap_info, Target::HeapInfo, word, TargetLayout::HeapInfo(info)),
        require_tcache ==> is_taken(
            index.tcache,
            Target::Tcache,
            word,
            TargetLayout::Tcache(tcache),
        ),
    ensures
        assemble::assembled(index, word, require_tcache) is Ok <==> (word == 4 || word == 8)
            && state.size <= u32::MAX && info.size <= u32::MAX,
        assemble::assembled(index, word, require_tcache) matches Ok(l) ==> {
            &&& is_assembled_of(l, state, par, info)
            &&& require_tcache ==> {
                &&& l.tcache_entries_offset is Some && l.tcache_entries_offset->0 == tcache.entries
                &&& l.tcache_max_bins is Some && l.tcache_max_bins->0 == tcache.bins
            }
            &&& !require_tcache ==> l.tcache_entries_offset is None && l.tcache_max_bins is None
        },
{
    if word == 4 || word == 8 {
        law_definitions_that_agree_are_taken(
            index.malloc_state,
            Target::MallocState,
            word,
            TargetLayout::MallocState(state),
        );
        law_definitions_that_agree_are_taken(
            index.malloc_par,
            Target::MallocPar,
            word,
            TargetLayout::MallocPar(par),
        );
        law_definitions_that_agree_are_taken(
            index.heap_info,
            Target::HeapInfo,
            word,
            TargetLayout::HeapInfo(info),
        );
        law_definitions_that_agree_are_taken(
            index.tcache,
            Target::Tcache,
            word,
            TargetLayout::Tcache(tcache),
        );
        lemma_small(index.malloc_state, Target::MallocState, word, TargetLayout::MallocState(state));
        lemma_small(index.malloc_par, Target::MallocPar, word, TargetLayout::MallocPar(par));
        lemma_small(index.heap_info, Target::HeapInfo, word, TargetLayout::HeapInfo(info));
        if require_tcache {
            lemma_small(index.tcache, Target::Tcache, word, TargetLayout::Tcache(tcache));
        }
    }
}

/// The offsets of a layout that was taken are small.
proof fn lemma_small(found: FindingsView, target: Target, word: u64, v: TargetLayout)
    requires
        word > 0,
        is_taken(found, target, word, v),
    ensures
        v.bounded(),
{
    let all = found.candidates->0;
    let i = choose|i: int| 0 <= i < all.len() && has_layout(#[trigger] all[i], target, word, v);
    let s = all[i];
    if let (Target::MallocPar, TargetLayout::MallocPar(l)) = (target, v) {
        let k = choose|k: int| #[trigger] is_malloc_par(s, word, l, k);
        assert(is_optional_word(s, "arena_max"@, word, l.arena_max));
        assert(is_optional_word(s, "tcache_bins"@, word, l.tcache_bins));
    }
}

/// A layout that was assembled has every structure taken: without definitions that agree
/// there is none.
pub proof fn law_every_structure_is_needed(
    index: TypeIndexView,
    word: u64,
    require_tcache: bool,
)
    requires
        assemble::assembled(index, word, require_tcache) is Ok,
    ensures
        exists|v: TargetLayout| #[trigger]
            is_taken(index.malloc_state, Target::MallocState, word, v),
        exists|v: TargetLayout| #[trigger] is_taken(index.malloc_par, Target::MallocPar, word, v),
        exists|v: TargetLayout| #[trigger] is_taken(index.heap_info, Target::HeapInfo, word, v),
        require_tcache ==> exists|v: TargetLayout| #[trigger]
            is_taken(index.tcache, Target::Tcache, word, v),
{
    let state = assemble::selected(index.malloc_state, Target::MallocState, word)->Ok_0;
    law_definitions_that_agree_are_taken(index.malloc_state, Target::MallocState, word, state);
    let par = assemble::selected(index.malloc_par, Target::MallocPar, word)->Ok_0;
    law_definitions_that_agree_are_taken(index.malloc_par, Target::MallocPar, word, par);
    let info = assemble::selected(index.heap_info, Target::HeapInfo, word)->Ok_0;
    law_definitions_that_agree_are_taken(index.heap_info, Target::HeapInfo, word, info);
    let tcache = assemble::selected(index.tcache, Target::Tcache, word)->Ok_0;
    law_definitions_that_agree_are_taken(index.tcache, Target::Tcache, word, tcache);
}

/// Where nothing was found of a structure it is said why, or that its type is missing.
pub proof fn law_missing_structures_are_named(found: FindingsView, target: Target, word: u64)
    requires
        found.candidates is None,
    ensures
        found.error matches Some(e) ==> assemble::selected(found, target, word) == Err::<
            TargetLayout,
            DwarfError,
        >(e),
        found.error is None ==> assemble::selected(found, target, word) == Err::<
            TargetLayout,
            DwarfError,
        >(
            DwarfError::Invalid(
                "missing DWARF type "@ + match target {
                    Target::MallocState => "malloc_state"@,
                    Target::MallocPar => "malloc_par"@,
                    Target::HeapInfo => "heap_info"@,
                    Target::Tcache => "tcache_perthread_struct"@,
                },
            ),
        ),
{
}

/// Where every definition of a structure is unusable, what is wrong with the first is told;
/// where usable ones differ, that they are ambiguous.
pub proof fn law_unusable_definitions_are_told(found: FindingsView, target: Target, word: u64)
    requires
        word > 0,
        found.candidates is Some,
        found.candidates->0.len() > 0,
    ensures
        ({
            let all = found.candidates->0;
            let name = match target {
                Target::MallocState => "malloc_state"@,
                Target::MallocPar => "malloc_par"@,
                Target::HeapInfo => "heap_info"@,
                Target::Tcache => "tcache_perthread_struct"@,
            };
            &&& (forall|i: int, v: TargetLayout|
                0 <= i < all.len() ==> !#[trigger] has_layout(all[i], target, word, v))
                ==> assemble::selected(found, target, word) == Err::<TargetLayout, DwarfError>(
                assemble::checked(all[0], target, word)->Err_0,
            )
            &&& (exists|i: int, j: int, v: TargetLayout, w: TargetLayout|
                0 <= i < all.len() && 0 <= j < all.len() && v != w && #[trigger] has_layout(
                    all[i],
                    target,
                    word,
                    v,
                ) && #[trigger] has_layout(all[j], target, word, w)) ==> assemble::selected(
                found,
                target,
                word,
            ) == Err::<TargetLayout, DwarfError>(
                DwarfError::Invalid("ambiguous "@ + name + " definitions"@),
            )
        }),
{
    let all = found.candidates->0;
    let r = assemble::selected(found, target, word);
    let layouts = assemble::distinct_layouts(all, target, word);
    assemble::lemma_distinct_layouts(all, target, word);
    assert forall|i: int, v: TargetLayout| 0 <= i < all.len() implies #[trigger] assemble::gives(
        all[i],
        target,
        word,
        v,
    ) == has_layout(all[i], target, word, v) by {
        lemma_has_layout(all[i], target, word, v);
    }
    if forall|i: int, v: TargetLayout|
        0 <= i < all.len() ==> !#[trigger] has_layout(all[i], target, word, v) {
        if layouts.len() > 0 {
            assert(layouts.contains(layouts[0]));
            let i = choose|i: int|
                0 <= i < all.len() && assemble::gives(#[trigger] all[i], target, word, layouts[0]);
            assert(has_layout(all[i], target, word, layouts[0]));
        }
        if let Ok(v) = assemble::checked(all[0], target, word) {
            assert(assemble::gives(all[0], target, word, v));
            assert(has_layout(all[0], target, word, v));
        }
        assert(assemble::first_failure(all, target, word, 0) == Some(
            assemble::checked(all[0], target, word)->Err_0,
        ));
    }
    if exists|i: int, j: int, v: TargetLayout, w: TargetLayout|
        0 <= i < all.len() && 0 <= j < all.len() && v != w && #[trigger] has_layout(
            all[i],
            target,
            word,
            v,
        ) && #[trigger] has_layout(all[j], target, word, w) {
        let (i, j, v, w) = choose|i: int, j: int, v: TargetLayout, w: TargetLayout|
            0 <= i < all.len() && 0 <= j < all.len() && v != w && #[trigger] has_layout(
                all[i],
                target,
                word,
                v,
            ) && #[trigger] has_layout(all[j], target, word, w);
        assert(assemble::gives(all[i], target, word, v));
        assert(assemble::gives(all[j], target, word, w));
        assert(layouts.contains(v) && layouts.contains(w));
        let m = choose|m: int| 0 <= m < layouts.len() && layouts[m] == v;
        let n = choose|n: int| 0 <= n < layouts.len() && layouts[n] == w;
        assert(m != n);
    }
}

} // verus!
