//! From the structures that were found to one validated set of offsets.

use vstd::prelude::*;

use crate::text;

use super::{
    DwarfError, DwarfLayout, DwarfLayoutError, Findings, Member, MemberView, Outcome, Structure,
    StructureView, Target, TypeIndex, TypeIndexView, TypeKind,
};

verus! {

pub const MAX_FIELD_OFFSET: u64 = 1024 * 1024;

pub const MAX_ARRAY_BYTES: u64 = 1024 * 1024;

pub const MAX_FASTBINS: u64 = 256;

pub const MAX_TCACHE_BINS: u64 = 1024;

/// The failure with this reason.
pub open spec fn invalid_because<T>(reason: Seq<char>) -> std::result::Result<T, DwarfError> {
    Err(DwarfError::Invalid(reason))
}

fn invalid<T>(reason: &str) -> (r: Outcome<T>)
    ensures
        super::outcome(r) == invalid_because::<T>(reason@),
{
    Err(DwarfLayoutError::Invalid(reason.to_owned()))
}

/// The failure with a reason that starts with a name.
fn invalid_of<T>(name: &str, reason: &str) -> (r: Outcome<T>)
    ensures
        super::outcome(r) == invalid_because::<T>(name@ + reason@),
{
    Err(DwarfLayoutError::Invalid(text::concat2(name, reason)))
}

/// The members of a name, in order.
pub open spec fn named(members: Seq<MemberView>, name: Seq<char>) -> Seq<MemberView>
    decreases members.len(),
{
    if members.len() == 0 {
        Seq::empty()
    } else {
        let before = named(members.drop_last(), name);
        if members.last().name == name {
            before.push(members.last())
        } else {
            before
        }
    }
}

/// The one member of a name.
pub open spec fn required(structure: StructureView, name: Seq<char>) -> std::result::Result<
    MemberView,
    DwarfError,
> {
    let found = named(structure.members, name);
    if found.len() == 0 {
        invalid_because("missing required member "@ + name)
    } else if found.len() > 1 {
        invalid_because("member "@ + name + " is ambiguous"@)
    } else {
        Ok(found[0])
    }
}

/// The first member of a name, and whether it is the only one.
fn find_member<'a>(structure: &'a Structure, name: &str) -> (r: Option<(&'a Member, bool)>)
    ensures
        r is None <==> named(structure@.members, name@).len() == 0,
        r matches Some(found) ==> {
            &&& found.0@ == named(structure@.members, name@)[0]
            &&& found.1 == (named(structure@.members, name@).len() == 1)
        },
{
    let ghost all = structure@.members;
    let mut first: Option<&'a Member> = None;
    let mut unique: bool = true;
    let mut i: usize = 0;
    assert(all.take(0) =~= Seq::empty());
    while i < structure.members.len()
        invariant
            i <= structure.members@.len(),
            all == structure@.members,
            ({
                let found = named(all.take(i as int), name@);
                match first {
                    None => found.len() == 0 && unique,
                    Some(m) => found.len() > 0 && m@ == found[0] && unique == (found.len() == 1),
                }
            }),
        decreases structure.members@.len() - i,
    {
        let member: &'a Member = &structure.members[i];
        proof {
            assert(all[i as int] == member@);
            assert(all.take(i + 1).drop_last() =~= all.take(i as int));
            assert(all.take(i + 1).last() == member@);
        }
        if text::str_equal(&member.name, name) {
            if first.is_none() {
                first = Some(member);
            } else {
                unique = false;
            }
        }
        i = i + 1;
    }
    assert(all.take(i as int) =~= all);
    match first {
        Some(m) => Some((m, unique)),
        None => None,
    }
}

/// The one member of a name.
pub fn required_member<'a>(structure: &'a Structure, name: &str) -> (r: Outcome<&'a Member>)
    ensures
        r matches Ok(m) ==> required(structure@, name@) == Ok::<MemberView, DwarfError>(m@),
        r matches Err(e) ==> required(structure@, name@) == Err::<MemberView, DwarfError>(e@),
{
    match find_member(structure, name) {
        None => Err(
            DwarfLayoutError::Invalid(text::concat2("missing required member ", name)),
        ),
        Some((member, unique)) => if unique {
            Ok(member)
        } else {
            Err(DwarfLayoutError::Invalid(text::concat3("member ", name, " is ambiguous")))
        },
    }
}

/// A member lies in its structure and not too far from its start.
pub open spec fn in_range(member: MemberView, struct_size: u64) -> std::result::Result<
    (),
    DwarfError,
> {
    match member.ty.byte_size {
        None => invalid_because(member.name + " has no byte size"@),
        Some(size) => if member.offset + size > u64::MAX {
            Err(DwarfError::Limit("field range"@))
        } else if size == 0 || member.offset > MAX_FIELD_OFFSET || member.offset + size
            > struct_size {
            invalid_because(member.name + " is outside its structure"@)
        } else {
            Ok(())
        },
    }
}

pub fn field_range(member: &Member, struct_size: u64) -> (r: Outcome<()>)
    ensures
        super::outcome(r) == in_range(member@, struct_size),
{
    let size: u64 = match member.ty.byte_size {
        Some(size) => size,
        None => return invalid_of(&member.name, " has no byte size"),
    };
    let end: u64 = match member.offset.checked_add(size) {
        Some(end) => end,
        None => return Err(DwarfLayoutError::Limit("field range")),
    };
    if size == 0 || member.offset > MAX_FIELD_OFFSET || end > struct_size {
        return invalid_of(&member.name, " is outside its structure");
    }
    Ok(())
}

/// A member in range that is one word of a kind, at a multiple of the word size.
pub open spec fn is_word(
    member: MemberView,
    struct_size: u64,
    word: u64,
    kind: TypeKind,
    complaint: Seq<char>,
) -> std::result::Result<(), DwarfError> {
    match in_range(member, struct_size) {
        Err(e) => Err(e),
        Ok(_) => if member.ty.kind != kind || member.ty.byte_size != Some(word) || member.offset
            % word != 0 {
            invalid_because(member.name + complaint)
        } else {
            Ok(())
        },
    }
}

/// A word-aligned pointer.
pub open spec fn is_pointer(member: MemberView, struct_size: u64, word: u64) -> std::result::Result<
    (),
    DwarfError,
> {
    is_word(member, struct_size, word, TypeKind::Pointer, " is not a word-aligned pointer"@)
}

/// A word-aligned unsigned integer of one word.
pub open spec fn is_unsigned_word(
    member: MemberView,
    struct_size: u64,
    word: u64,
) -> std::result::Result<(), DwarfError> {
    is_word(
        member,
        struct_size,
        word,
        TypeKind::Unsigned,
        " is not a word-aligned unsigned integer"@,
    )
}

fn word_member(
    member: &Member,
    struct_size: u64,
    word: u64,
    kind: TypeKind,
    complaint: &str,
) -> (r: Outcome<()>)
    requires
        word > 0,
    ensures
        super::outcome(r) == is_word(member@, struct_size, word, kind, complaint@),
{
    if let Err(e) = field_range(member, struct_size) {
        return Err(e);
    }
    let right_size: bool = match member.ty.byte_size {
        Some(size) => size == word,
        None => false,
    };
    if member.ty.kind != kind || !right_size || member.offset % word != 0 {
        return invalid_of(&member.name, complaint);
    }
    Ok(())
}

pub fn pointer(member: &Member, struct_size: u64, word: u64) -> (r: Outcome<()>)
    requires
        word > 0,
    ensures
        super::outcome(r) == is_pointer(member@, struct_size, word),
{
    word_member(member, struct_size, word, TypeKind::Pointer, " is not a word-aligned pointer")
}

pub fn unsigned_word(member: &Member, struct_size: u64, word: u64) -> (r: Outcome<()>)
    requires
        word > 0,
    ensures
        super::outcome(r) == is_unsigned_word(member@, struct_size, word),
{
    word_member(
        member,
        struct_size,
        word,
        TypeKind::Unsigned,
        " is not a word-aligned unsigned integer",
    )
}

/// An array of a kind of elements, of a given width where one is expected: its
/// element width and count.
pub open spec fn array_shape(
    member: MemberView,
    struct_size: u64,
    kind: TypeKind,
    expected_width: Option<u64>,
) -> std::result::Result<(u64, u64), DwarfError> {
    match in_range(member, struct_size) {
        Err(e) => Err(e),
        Ok(_) => if member.ty.kind != TypeKind::Array || member.ty.element_kind != Some(kind) {
            invalid_because(member.name + " has the wrong array element type"@)
        } else {
            match (member.ty.element_size, member.ty.element_count) {
                (None, _) => invalid_because(member.name + " has no element size"@),
                (Some(_), None) => invalid_because(member.name + " has no element count"@),
                (Some(width), Some(count)) => if width == 0 || count == 0 || (expected_width is Some
                    && expected_width->0 != width) {
                    invalid_because(member.name + " has an invalid array shape"@)
                } else if width * count > u64::MAX {
                    Err(DwarfError::Limit("array byte size"@))
                } else if width * count > MAX_ARRAY_BYTES || member.ty.byte_size != Some(
                    (width * count) as u64,
                ) {
                    invalid_because(member.name + " array byte size is inconsistent"@)
                } else {
                    Ok((width, count))
                },
            }
        },
    }
}

/// An array of integers of either sign.
pub open spec fn integer_array_shape(member: MemberView, struct_size: u64) -> std::result::Result<
    (u64, u64),
    DwarfError,
> {
    if member.ty.element_kind == Some(TypeKind::Unsigned) || member.ty.element_kind == Some(
        TypeKind::Signed,
    ) {
        array_shape(member, struct_size, member.ty.element_kind->0, None)
    } else {
        invalid_because(member.name + " is not an integer array"@)
    }
}

pub fn array(
    member: &Member,
    struct_size: u64,
    kind: TypeKind,
    expected_width: Option<u64>,
) -> (r: Outcome<(u64, u64)>)
    ensures
        super::outcome(r) == array_shape(member@, struct_size, kind, expected_width),
{
    if let Err(e) = field_range(member, struct_size) {
        return Err(e);
    }
    let right_element: bool = match member.ty.element_kind {
        Some(element) => element == kind,
        None => false,
    };
    if member.ty.kind != TypeKind::Array || !right_element {
        return invalid_of(&member.name, " has the wrong array element type");
    }
    let width: u64 = match member.ty.element_size {
        Some(width) => width,
        None => return invalid_of(&member.name, " has no element size"),
    };
    let count: u64 = match member.ty.element_count {
        Some(count) => count,
        None => return invalid_of(&member.name, " has no element count"),
    };
    let unexpected: bool = match expected_width {
        Some(expected) => expected != width,
        None => false,
    };
    if width == 0 || count == 0 || unexpected {
        return invalid_of(&member.name, " has an invalid array shape");
    }
    let bytes: u64 = match width.checked_mul(count) {
        Some(bytes) => bytes,
        None => return Err(DwarfLayoutError::Limit("array byte size")),
    };
    let right_size: bool = match member.ty.byte_size {
        Some(size) => size == bytes,
        None => false,
    };
    if bytes > MAX_ARRAY_BYTES || !right_size {
        return invalid_of(&member.name, " array byte size is inconsistent");
    }
    Ok((width, count))
}

pub fn pointer_array(member: &Member, struct_size: u64, word: u64) -> (r: Outcome<(u64, u64)>)
    ensures
        super::outcome(r) == array_shape(member@, struct_size, TypeKind::Pointer, Some(word)),
{
    array(member, struct_size, TypeKind::Pointer, Some(word))
}

pub fn integer_array(member: &Member, struct_size: u64) -> (r: Outcome<(u64, u64)>)
    ensures
        super::outcome(r) == integer_array_shape(member@, struct_size),
{
    match member.ty.element_kind {
        Some(TypeKind::Unsigned) => array(member, struct_size, TypeKind::Unsigned, None),
        Some(TypeKind::Signed) => array(member, struct_size, TypeKind::Signed, None),
        _ => invalid_of(&member.name, " is not an integer array"),
    }
}

/// Bytes that a member covers.
pub open spec fn extent(member: MemberView) -> u64 {
    match member.ty.byte_size {
        Some(size) => size,
        None => 0,
    }
}

/// Two members share a byte.
pub open spec fn overlap(left: MemberView, right: MemberView) -> bool {
    &&& left.offset < right.offset.saturating_add(extent(right))
    &&& right.offset < left.offset.saturating_add(extent(left))
}

/// The first pair of overlapping members from the pair `(i, j)` on.
pub open spec fn overlap_from(members: Seq<MemberView>, i: int, j: int) -> std::result::Result<
    (),
    DwarfError,
>
    decreases members.len() - i, members.len() - j,
{
    if i < 0 || j < 0 || i >= members.len() {
        Ok(())
    } else if j >= members.len() {
        overlap_from(members, i + 1, i + 2)
    } else if overlap(members[i], members[j]) {
        invalid_because(members[i].name + " and "@ + members[j].name + " overlap"@)
    } else {
        overlap_from(members, i, j + 1)
    }
}

/// No two of the members share a byte.
pub open spec fn apart(members: Seq<MemberView>) -> std::result::Result<(), DwarfError> {
    overlap_from(members, 0, 1)
}

/// The views of borrowed members, in order.
pub open spec fn borrowed_views(members: Seq<&Member>) -> Seq<MemberView> {
    members.map_values(|m: &Member| m@)
}

pub fn no_overlap(members: &[&Member]) -> (r: Outcome<()>)
    ensures
        super::outcome(r) == apart(borrowed_views(members@)),
{
    let ghost all = borrowed_views(members@);
    let mut i: usize = 0;
    while i < members.len()
        invariant
            i <= members@.len(),
            all == borrowed_views(members@),
            overlap_from(all, i as int, i + 1) == apart(all),
        decreases members@.len() - i,
    {
        let left: &Member = members[i];
        assert(all[i as int] == left@);
        let left_size: u64 = left.ty.byte_size.unwrap_or(0);
        let left_end: u64 = left.offset.saturating_add(left_size);
        let mut j: usize = i + 1;
        while j < members.len()
            invariant
                i < j <= members@.len(),
                all == borrowed_views(members@),
                all[i as int] == left@,
                left_end == left.offset.saturating_add(extent(left@)),
                overlap_from(all, i as int, j as int) == apart(all),
            decreases members@.len() - j,
        {
            let right: &Member = members[j];
            assert(all[j as int] == right@);
            let right_size: u64 = right.ty.byte_size.unwrap_or(0);
            let right_end: u64 = right.offset.saturating_add(right_size);
            if left.offset < right_end && right.offset < left_end {
                let pair: String = text::concat3(&left.name, " and ", &right.name);
                return invalid_of(&pair, " overlap");
            }
            j = j + 1;
        }
        i = i + 1;
    }
    Ok(())
}

#[derive(Debug, Clone, Copy, PartialEq, Eq, Structural)]
pub struct MallocStateLayout {
    pub size: u64,
    pub fastbins: u64,
    pub fastbin_count: u64,
    pub top: u64,
    pub next: u64,
}

#[derive(Debug, Clone, Copy, PartialEq, Eq, Structural)]
pub struct MallocParLayout {
    pub arena_max: Option<u64>,
    pub sbrk_base: u64,
    pub tcache_bins: Option<u64>,
}

#[derive(Debug, Clone, Copy, PartialEq, Eq, Structural)]
pub struct HeapInfoLayout {
    pub size: u64,
    pub ar_ptr: u64,
    pub prev: u64,
    pub current_size: u64,
    pub mprotect_size: u64,
}

#[derive(Debug, Clone, Copy, PartialEq, Eq, Structural)]
pub struct TcacheLayout {
    pub entries: u64,
    pub bins: u64,
}

/// The checked fields of `malloc_state`.
pub open spec fn malloc_state_in(structure: StructureView, word: u64) -> std::result::Result<
    MallocStateLayout,
    DwarfError,
> {
    let size = structure.byte_size;
    match required(structure, "fastbinsY"@) {
        Err(e) => Err(e),
        Ok(fastbins) => match array_shape(fastbins, size, TypeKind::Pointer, Some(word)) {
            Err(e) => Err(e),
            Ok((_, fastbin_count)) => if fastbin_count == 0 || fastbin_count > MAX_FASTBINS {
                invalid_because("fastbinsY element count is out of range"@)
            } else {
                match required(structure, "top"@) {
                    Err(e) => Err(e),
                    Ok(top) => match is_pointer(top, size, word) {
                        Err(e) => Err(e),
                        Ok(_) => match required(structure, "next"@) {
                            Err(e) => Err(e),
                            Ok(next) => match is_pointer(next, size, word) {
                                Err(e) => Err(e),
                                Ok(_) => match apart(seq![fastbins, top, next]) {
                                    Err(e) => Err(e),
                                    Ok(_) => Ok(
                                        MallocStateLayout {
                                            size,
                                            fastbins: fastbins.offset,
                                            fastbin_count,
                                            top: top.offset,
                                            next: next.offset,
                                        },
                                    ),
                                },
                            },
                        },
                    },
                }
            },
        },
    }
}

pub fn validate_malloc_state(structure: &Structure, word: u64) -> (r: Outcome<MallocStateLayout>)
    requires
        word > 0,
    ensures
        super::outcome(r) == malloc_state_in(structure@, word),
        r matches Ok(v) ==> v.fastbins <= MAX_FIELD_OFFSET && v.fastbin_count <= MAX_FASTBINS
            && v.top <= MAX_FIELD_OFFSET && v.next <= MAX_FIELD_OFFSET,
{
    let size: u64 = structure.byte_size;
    let fastbins: &Member = match required_member(structure, "fastbinsY") {
        Ok(m) => m,
        Err(e) => return Err(e),
    };
    let fastbin_count: u64 = match pointer_array(fastbins, size, word) {
        Ok(shape) => shape.1,
        Err(e) => return Err(e),
    };
    if fastbin_count == 0 || fastbin_count > MAX_FASTBINS {
        return invalid("fastbinsY element count is out of range");
    }
    let top: &Member = match required_member(structure, "top") {
        Ok(m) => m,
        Err(e) => return Err(e),
    };
    if let Err(e) = pointer(top, size, word) {
        return Err(e);
    }
    let next: &Member = match required_member(structure, "next") {
        Ok(m) => m,
        Err(e) => return Err(e),
    };
    if let Err(e) = pointer(next, size, word) {
        return Err(e);
    }
    let fields: Vec<&Member> = vec![fastbins, top, next];
    assert(borrowed_views(fields@) =~= seq![fastbins@, top@, next@]);
    if let Err(e) = no_overlap(&fields) {
        return Err(e);
    }
    Ok(
        MallocStateLayout {
            size,
            fastbins: fastbins.offset,
            fastbin_count,
            top: top.offset,
            next: next.offset,
        },
    )
}

/// The offset of an optional member, which has to be an unsigned word.
pub open spec fn optional_word(
    structure: StructureView,
    name: Seq<char>,
    word: u64,
) -> std::result::Result<Option<u64>, DwarfError> {
    let found = named(structure.members, name);
    if found.len() == 0 {
        Ok(None)
    } else if found.len() > 1 {
        invalid_because("member "@ + name + " is ambiguous"@)
    } else {
        match is_unsigned_word(found[0], structure.byte_size, word) {
            Err(e) => Err(e),
            Ok(_) => Ok(Some(found[0].offset)),
        }
    }
}

pub fn optional_word_member(structure: &Structure, name: &str, word: u64) -> (r: Outcome<
    Option<u64>,
>)
    requires
        word > 0,
    ensures
        super::outcome(r) == optional_word(structure@, name@, word),
        r matches Ok(Some(offset)) ==> offset <= MAX_FIELD_OFFSET,
{
    match find_member(structure, name) {
        None => Ok(None),
        Some((member, unique)) => if !unique {
            Err(DwarfLayoutError::Invalid(text::concat3("member ", name, " is ambiguous")))
        } else {
            match unsigned_word(member, structure.byte_size, word) {
                Ok(_) => Ok(Some(member.offset)),
                Err(e) => Err(e),
            }
        },
    }
}

/// The checked fields of `malloc_par`.
pub open spec fn malloc_par_in(structure: StructureView, word: u64) -> std::result::Result<
    MallocParLayout,
    DwarfError,
> {
    match required(structure, "sbrk_base"@) {
        Err(e) => Err(e),
        Ok(sbrk_base) => match is_pointer(sbrk_base, structure.byte_size, word) {
            Err(e) => Err(e),
            Ok(_) => match optional_word(structure, "arena_max"@, word) {
                Err(e) => Err(e),
                Ok(arena_max) => match optional_word(structure, "tcache_bins"@, word) {
                    Err(e) => Err(e),
                    Ok(tcache_bins) => Ok(
                        MallocParLayout { arena_max, sbrk_base: sbrk_base.offset, tcache_bins },
                    ),
                },
            },
        },
    }
}

pub fn validate_malloc_par(structure: &Structure, word: u64) -> (r: Outcome<MallocParLayout>)
    requires
        word > 0,
    ensures
        super::outcome(r) == malloc_par_in(structure@, word),
        r matches Ok(v) ==> v.sbrk_base <= MAX_FIELD_OFFSET && (v.arena_max is Some
            ==> v.arena_max->0 <= MAX_FIELD_OFFSET) && (v.tcache_bins is Some ==> v.tcache_bins->0
            <= MAX_FIELD_OFFSET),
{
    let sbrk_base: &Member = match required_member(structure, "sbrk_base") {
        Ok(m) => m,
        Err(e) => return Err(e),
    };
    if let Err(e) = pointer(sbrk_base, structure.byte_size, word) {
        return Err(e);
    }
    let arena_max: Option<u64> = match optional_word_member(structure, "arena_max", word) {
        Ok(v) => v,
        Err(e) => return Err(e),
    };
    let tcache_bins: Option<u64> = match optional_word_member(structure, "tcache_bins", word) {
        Ok(v) => v,
        Err(e) => return Err(e),
    };
    Ok(MallocParLayout { arena_max, sbrk_base: sbrk_base.offset, tcache_bins })
}

/// The checked fields of `heap_info`.
pub open spec fn heap_info_in(structure: StructureView, word: u64) -> std::result::Result<
    HeapInfoLayout,
    DwarfError,
> {
    let whole = structure.byte_size;
    match required(structure, "ar_ptr"@) {
        Err(e) => Err(e),
        Ok(ar_ptr) => match is_pointer(ar_ptr, whole, word) {
            Err(e) => Err(e),
            Ok(_) => match required(structure, "prev"@) {
                Err(e) => Err(e),
                Ok(prev) => match is_pointer(prev, whole, word) {
                    Err(e) => Err(e),
                    Ok(_) => match required(structure, "size"@) {
                        Err(e) => Err(e),
                        Ok(size) => match is_unsigned_word(size, whole, word) {
                            Err(e) => Err(e),
                            Ok(_) => match required(structure, "mprotect_size"@) {
                                Err(e) => Err(e),
                                Ok(committed) => match is_unsigned_word(committed, whole, word) {
                                    Err(e) => Err(e),
                                    Ok(_) => match apart(seq![ar_ptr, prev, size, committed]) {
                                        Err(e) => Err(e),
                                        Ok(_) => Ok(
                                            HeapInfoLayout {
                                                size: whole,
                                                ar_ptr: ar_ptr.offset,
                                                prev: prev.offset,
                                                current_size: size.offset,
                                                mprotect_size: committed.offset,
                                            },
                                        ),
                                    },
                                },
                            },
                        },
                    },
                },
            },
        },
    }
}

pub fn validate_heap_info(structure: &Structure, word: u64) -> (r: Outcome<HeapInfoLayout>)
    requires
        word > 0,
    ensures
        super::outcome(r) == heap_info_in(structure@, word),
        r matches Ok(v) ==> v.ar_ptr <= MAX_FIELD_OFFSET && v.prev <= MAX_FIELD_OFFSET
            && v.current_size <= MAX_FIELD_OFFSET && v.mprotect_size <= MAX_FIELD_OFFSET,
{
    let whole: u64 = structure.byte_size;
    let ar_ptr: &Member = match required_member(structure, "ar_ptr") {
        Ok(m) => m,
        Err(e) => return Err(e),
    };
    if let Err(e) = pointer(ar_ptr, whole, word) {
        return Err(e);
    }
    let prev: &Member = match required_member(structure, "prev") {
        Ok(m) => m,
        Err(e) => return Err(e),
    };
    if let Err(e) = pointer(prev, whole, word) {
        return Err(e);
    }
    let size: &Member = match required_member(structure, "size") {
        Ok(m) => m,
        Err(e) => return Err(e),
    };
    if let Err(e) = unsigned_word(size, whole, word) {
        return Err(e);
    }
    let mprotect_size: &Member = match required_member(structure, "mprotect_size") {
        Ok(m) => m,
        Err(e) => return Err(e),
    };
    if let Err(e) = unsigned_word(mprotect_size, whole, word) {
        return Err(e);
    }
    let fields: Vec<&Member> = vec![ar_ptr, prev, size, mprotect_size];
    assert(borrowed_views(fields@) =~= seq![ar_ptr@, prev@, size@, mprotect_size@]);
    if let Err(e) = no_overlap(&fields) {
        return Err(e);
    }
    Ok(
        HeapInfoLayout {
            size: whole,
            ar_ptr: ar_ptr.offset,
            prev: prev.offset,
            current_size: size.offset,
            mprotect_size: mprotect_size.offset,
        },
    )
}

/// The checked fields of `tcache_perthread_struct`.
pub open spec fn tcache_in(structure: StructureView, word: u64) -> std::result::Result<
    TcacheLayout,
    DwarfError,
> {
    let size = structure.byte_size;
    match required(structure, "counts"@) {
        Err(e) => Err(e),
        Ok(counts) => match integer_array_shape(counts, size) {
            Err(e) => Err(e),
            Ok((width, count_bins)) => if width != 1 && width != 2 && width != 4 && width != 8 {
                invalid_because("tcache counts uses an unsupported integer width"@)
            } else {
                match required(structure, "entries"@) {
                    Err(e) => Err(e),
                    Ok(entries) => match array_shape(
                        entries,
                        size,
                        TypeKind::Pointer,
                        Some(word),
                    ) {
                        Err(e) => Err(e),
                        Ok((_, entry_bins)) => if count_bins == 0 || count_bins != entry_bins
                            || entry_bins > MAX_TCACHE_BINS {
                            invalid_because(
                                "tcache counts and entries dimensions differ or are out of range"@,
                            )
                        } else {
                            match apart(seq![counts, entries]) {
                                Err(e) => Err(e),
                                Ok(_) => Ok(
                                    TcacheLayout { entries: entries.offset, bins: entry_bins },
                                ),
                            }
                        },
                    },
                }
            },
        },
    }
}

pub fn validate_tcache(structure: &Structure, word: u64) -> (r: Outcome<TcacheLayout>)
    ensures
        super::outcome(r) == tcache_in(structure@, word),
        r matches Ok(v) ==> v.entries <= MAX_FIELD_OFFSET && v.bins <= MAX_TCACHE_BINS,
{
    let size: u64 = structure.byte_size;
    let counts: &Member = match required_member(structure, "counts") {
        Ok(m) => m,
        Err(e) => return Err(e),
    };
    let (count_width, count_bins): (u64, u64) = match integer_array(counts, size) {
        Ok(shape) => shape,
        Err(e) => return Err(e),
    };
    // glibc 2.28 used signed char counters; newer releases use wider unsigned
    // counters, so signedness alone does not identify an invalid layout.
    if count_width != 1 && count_width != 2 && count_width != 4 && count_width != 8 {
        return invalid("tcache counts uses an unsupported integer width");
    }
    let entries: &Member = match required_member(structure, "entries") {
        Ok(m) => m,
        Err(e) => return Err(e),
    };
    let entry_bins: u64 = match pointer_array(entries, size, word) {
        Ok(shape) => shape.1,
        Err(e) => return Err(e),
    };
    if count_bins == 0 || count_bins != entry_bins || entry_bins > MAX_TCACHE_BINS {
        return invalid("tcache counts and entries dimensions differ or are out of range");
    }
    let fields: Vec<&Member> = vec![counts, entries];
    assert(borrowed_views(fields@) =~= seq![counts@, entries@]);
    if let Err(e) = no_overlap(&fields) {
        return Err(e);
    }
    Ok(TcacheLayout { entries: entries.offset, bins: entry_bins })
}

/// The checked fields of a target.
#[derive(Debug, Clone, Copy, PartialEq, Eq, Structural)]
pub enum TargetLayout {
    MallocState(MallocStateLayout),
    MallocPar(MallocParLayout),
    HeapInfo(HeapInfoLayout),
    Tcache(TcacheLayout),
}

/// What checking a definition of a target gives.
pub open spec fn checked(
    structure: StructureView,
    target: Target,
    word: u64,
) -> std::result::Result<TargetLayout, DwarfError> {
    match target {
        Target::MallocState => match malloc_state_in(structure, word) {
            Ok(v) => Ok(TargetLayout::MallocState(v)),
            Err(e) => Err(e),
        },
        Target::MallocPar => match malloc_par_in(structure, word) {
            Ok(v) => Ok(TargetLayout::MallocPar(v)),
            Err(e) => Err(e),
        },
        Target::HeapInfo => match heap_info_in(structure, word) {
            Ok(v) => Ok(TargetLayout::HeapInfo(v)),
            Err(e) => Err(e),
        },
        Target::Tcache => match tcache_in(structure, word) {
            Ok(v) => Ok(TargetLayout::Tcache(v)),
            Err(e) => Err(e),
        },
    }
}

impl TargetLayout {
    /// Offsets and counts are within the limits of a check.
    pub open spec fn bounded(self) -> bool {
        match self {
            TargetLayout::MallocState(v) => v.fastbins <= MAX_FIELD_OFFSET && v.fastbin_count
                <= MAX_FASTBINS && v.top <= MAX_FIELD_OFFSET && v.next <= MAX_FIELD_OFFSET,
            TargetLayout::MallocPar(v) => v.sbrk_base <= MAX_FIELD_OFFSET && (v.arena_max is Some
                ==> v.arena_max->0 <= MAX_FIELD_OFFSET) && (v.tcache_bins is Some
                ==> v.tcache_bins->0 <= MAX_FIELD_OFFSET),
            TargetLayout::HeapInfo(v) => v.ar_ptr <= MAX_FIELD_OFFSET && v.prev
                <= MAX_FIELD_OFFSET && v.current_size <= MAX_FIELD_OFFSET && v.mprotect_size
                <= MAX_FIELD_OFFSET,
            TargetLayout::Tcache(v) => v.entries <= MAX_FIELD_OFFSET && v.bins <= MAX_TCACHE_BINS,
        }
    }

    /// The layout is one of the target's kind.
    pub open spec fn is_of(self, target: Target) -> bool {
        match target {
            Target::MallocState => self is MallocState,
            Target::MallocPar => self is MallocPar,
            Target::HeapInfo => self is HeapInfo,
            Target::Tcache => self is Tcache,
        }
    }

    fn malloc_state(self) -> (v: MallocStateLayout)
        requires
            self is MallocState,
        ensures
            v == self->MallocState_0,
    {
        match self {
            TargetLayout::MallocState(v) => v,
            _ => vstd::pervasive::unreached(),
        }
    }

    fn malloc_par(self) -> (v: MallocParLayout)
        requires
            self is MallocPar,
        ensures
            v == self->MallocPar_0,
    {
        match self {
            TargetLayout::MallocPar(v) => v,
            _ => vstd::pervasive::unreached(),
        }
    }

    fn heap_info(self) -> (v: HeapInfoLayout)
        requires
            self is HeapInfo,
        ensures
            v == self->HeapInfo_0,
    {
        match self {
            TargetLayout::HeapInfo(v) => v,
            _ => vstd::pervasive::unreached(),
        }
    }

    fn tcache(self) -> (v: TcacheLayout)
        requires
            self is Tcache,
        ensures
            v == self->Tcache_0,
    {
        match self {
            TargetLayout::Tcache(v) => v,
            _ => vstd::pervasive::unreached(),
        }
    }
}

/// Check a definition of a target.
pub fn validate(structure: &Structure, target: Target, word: u64) -> (r: Outcome<TargetLayout>)
    requires
        word > 0,
    ensures
        super::outcome(r) == checked(structure@, target, word),
        r matches Ok(v) ==> v.bounded() && v.is_of(target),
{
    match target {
        Target::MallocState => match validate_malloc_state(structure, word) {
            Ok(v) => Ok(TargetLayout::MallocState(v)),
            Err(e) => Err(e),
        },
        Target::MallocPar => match validate_malloc_par(structure, word) {
            Ok(v) => Ok(TargetLayout::MallocPar(v)),
            Err(e) => Err(e),
        },
        Target::HeapInfo => match validate_heap_info(structure, word) {
            Ok(v) => Ok(TargetLayout::HeapInfo(v)),
            Err(e) => Err(e),
        },
        Target::Tcache => match validate_tcache(structure, word) {
            Ok(v) => Ok(TargetLayout::Tcache(v)),
            Err(e) => Err(e),
        },
    }
}

/// The distinct layouts that definitions of a target check out to, in order.
pub open spec fn distinct_layouts(
    candidates: Seq<StructureView>,
    target: Target,
    word: u64,
) -> Seq<TargetLayout>
    decreases candidates.len(),
{
    if candidates.len() == 0 {
        Seq::empty()
    } else {
        let before = distinct_layouts(candidates.drop_last(), target, word);
        match checked(candidates.last(), target, word) {
            Ok(v) if !before.contains(v) => before.push(v),
            _ => before,
        }
    }
}

/// The first failure in checking definitions of a target, from index `i` on.
pub open spec fn first_failure(
    candidates: Seq<StructureView>,
    target: Target,
    word: u64,
    i: int,
) -> Option<DwarfError>
    decreases candidates.len() - i,
{
    if i < 0 || i >= candidates.len() {
        None
    } else {
        match checked(candidates[i], target, word) {
            Err(e) => Some(e),
            Ok(_) => first_failure(candidates, target, word, i + 1),
        }
    }
}

/// The one layout of a target. Definitions that repeat a layout count once; two
/// that differ are not chosen between.
pub open spec fn selected(
    found: super::FindingsView,
    target: Target,
    word: u64,
) -> std::result::Result<TargetLayout, DwarfError> {
    match found.candidates {
        None => match found.error {
            Some(e) => Err(e),
            None => invalid_because("missing DWARF type "@ + target.title()),
        },
        Some(candidates) => {
            let layouts = distinct_layouts(candidates, target, word);
            if layouts.len() == 1 {
                Ok(layouts[0])
            } else if layouts.len() > 1 {
                invalid_because("ambiguous "@ + target.title() + " definitions"@)
            } else {
                match first_failure(candidates, target, word, 0) {
                    Some(e) => Err(e),
                    None => invalid_because("no usable "@ + target.title() + " definition"@),
                }
            }
        },
    }
}

/// Whether a layout is among those found.
fn has_layout(layouts: &Vec<TargetLayout>, layout: TargetLayout) -> (r: bool)
    ensures
        r == layouts@.contains(layout),
{
    let mut i: usize = 0;
    while i < layouts.len()
        invariant
            i <= layouts@.len(),
            forall|k: int| 0 <= k < i ==> layouts@[k] != layout,
        decreases layouts@.len() - i,
    {
        if layouts[i] == layout {
            assert(layouts@[i as int] == layout);
            return true;
        }
        i = i + 1;
    }
    false
}

/// A failure at `i` is the first where there was none before.
proof fn lemma_first_failure(
    candidates: Seq<StructureView>,
    target: Target,
    word: u64,
    i: int,
    j: int,
)
    requires
        0 <= i <= j <= candidates.len(),
        forall|k: int| i <= k < j ==> checked(#[trigger] candidates[k], target, word) is Ok,
    ensures
        first_failure(candidates, target, word, i) == first_failure(candidates, target, word, j),
    decreases j - i,
{
    if i < j {
        lemma_first_failure(candidates, target, word, i + 1, j);
    }
}

/// The one layout of a target.
pub fn select(index: &TypeIndex, target: Target, word: u64) -> (r: Outcome<TargetLayout>)
    requires
        word > 0,
    ensures
        super::outcome(r) == selected(index@.of(target), target, word),
        r matches Ok(v) ==> v.bounded() && v.is_of(target),
{
    let findings: &Findings = index.findings(target);
    let candidates: &Vec<Structure> = match &findings.candidates {
        Some(candidates) => candidates,
        None => {
            return match &findings.error {
                Some(e) => Err(e.clone()),
                None => Err(
                    DwarfLayoutError::Invalid(text::concat2("missing DWARF type ", target.name())),
                ),
            };
        },
    };
    // A type may be repeated in several compilation units. Equal layouts are
    // one candidate; conflicting valid layouts are unsafe to choose between.
    let ghost all = super::structure_views(candidates@);
    let mut valid: Vec<TargetLayout> = Vec::new();
    let mut first_error: Option<DwarfLayoutError> = None;
    let mut i: usize = 0;
    assert(all.take(0) =~= Seq::empty());
    while i < candidates.len()
        invariant
            i <= candidates@.len(),
            word > 0,
            all == super::structure_views(candidates@),
            valid@ == distinct_layouts(all.take(i as int), target, word),
            forall|k: int|
                0 <= k < valid@.len() ==> (#[trigger] valid@[k]).bounded() && valid@[k].is_of(
                    target,
                ),
            match first_error {
                Some(e) => first_failure(all, target, word, 0) == Some(e@),
                None => forall|k: int|
                    0 <= k < i ==> checked(#[trigger] all[k], target, word) is Ok,
            },
        decreases candidates@.len() - i,
    {
        proof {
            assert(all[i as int] == candidates@[i as int]@);
            assert(all.take(i + 1).drop_last() =~= all.take(i as int));
            assert(all.take(i + 1).last() == all[i as int]);
        }
        match validate(&candidates[i], target, word) {
            Ok(value) => {
                if !has_layout(&valid, value) {
                    valid.push(value);
                }
            },
            Err(error) => {
                if first_error.is_none() {
                    proof {
                        lemma_first_failure(all, target, word, 0, i as int);
                    }
                    first_error = Some(error);
                }
            },
        }
        i = i + 1;
    }
    proof {
        assert(all.take(i as int) =~= all);
        if first_error is None {
            lemma_first_failure(all, target, word, 0, i as int);
        }
    }
    if valid.len() == 1 {
        Ok(valid[0])
    } else if valid.len() > 1 {
        Err(
            DwarfLayoutError::Invalid(text::concat3("ambiguous ", target.name(), " definitions")),
        )
    } else {
        match first_error {
            Some(e) => Err(e),
            None => Err(
                DwarfLayoutError::Invalid(
                    text::concat3("no usable ", target.name(), " definition"),
                ),
            ),
        }
    }
}

/// An offset or size has to fit the layout's fields.
pub open spec fn narrowed(value: u64, field: Seq<char>) -> std::result::Result<u32, DwarfError> {
    if value <= u32::MAX {
        Ok(value as u32)
    } else {
        invalid_because(field + " does not fit u32"@)
    }
}

pub fn checked_u32(value: u64, field: &str) -> (r: Outcome<u32>)
    ensures
        super::outcome(r) == narrowed(value, field@),
{
    if value <= u32::MAX as u64 {
        Ok(value as u32)
    } else {
        invalid_of(field, " does not fit u32")
    }
}

/// An optional offset, as it is in the layout.
pub open spec fn narrowed_option(value: Option<u64>) -> Option<u32> {
    match value {
        Some(v) => Some(v as u32),
        None => None,
    }
}

fn checked_option(value: Option<u64>, field: &str) -> (r: Outcome<Option<u32>>)
    requires
        value is Some ==> value->0 <= MAX_FIELD_OFFSET,
    ensures
        r matches Ok(v) && v == narrowed_option(value),
{
    match value {
        Some(v) => match checked_u32(v, field) {
            Ok(v) => Ok(Some(v)),
            Err(e) => Err(e),
        },
        None => Ok(None),
    }
}

/// The offsets that four checked layouts give. Only the two structure sizes can
/// be too large for their fields.
pub open spec fn joined(
    state: MallocStateLayout,
    par: MallocParLayout,
    info: HeapInfoLayout,
    tcache: Option<TcacheLayout>,
) -> std::result::Result<DwarfLayout, DwarfError> {
    match (narrowed(state.size, "malloc_state size"@), narrowed(info.size, "heap_info size"@)) {
        (Err(e), _) => Err(e),
        (_, Err(e)) => Err(e),
        (Ok(malloc_state_size), Ok(heap_info_size)) => Ok(
            DwarfLayout {
                malloc_state_size,
                fastbin_array_offset: state.fastbins as u32,
                fastbin_count: state.fastbin_count as u32,
                malloc_state_top_offset: state.top as u32,
                malloc_state_next_offset: state.next as u32,
                mp_arena_max_offset: narrowed_option(par.arena_max),
                mp_sbrk_base_offset: par.sbrk_base as u32,
                mp_tcache_bins_offset: narrowed_option(par.tcache_bins),
                heap_info_size,
                heap_info_ar_ptr_offset: info.ar_ptr as u32,
                heap_info_prev_offset: info.prev as u32,
                heap_info_size_offset: info.current_size as u32,
                heap_info_mprotect_size_offset: info.mprotect_size as u32,
                tcache_entries_offset: match tcache {
                    Some(v) => Some(v.entries as u32),
                    None => None,
                },
                tcache_max_bins: match tcache {
                    Some(v) => Some(v.bins as u32),
                    None => None,
                },
            },
        ),
    }
}

/// The one set of offsets that the structures found give.
pub open spec fn assembled(
    index: TypeIndexView,
    word_size: u64,
    require_tcache: bool,
) -> std::result::Result<DwarfLayout, DwarfError> {
    if word_size != 4 && word_size != 8 {
        invalid_because("unsupported target word size"@)
    } else {
        match selected(index.malloc_state, Target::MallocState, word_size) {
            Err(e) => Err(e),
            Ok(state) => match selected(index.malloc_par, Target::MallocPar, word_size) {
                Err(e) => Err(e),
                Ok(par) => match selected(index.heap_info, Target::HeapInfo, word_size) {
                    Err(e) => Err(e),
                    Ok(info) => if require_tcache {
                        match selected(index.tcache, Target::Tcache, word_size) {
                            Err(e) => Err(e),
                            Ok(tcache) => joined(
                                state->MallocState_0,
                                par->MallocPar_0,
                                info->HeapInfo_0,
                                Some(tcache->Tcache_0),
                            ),
                        }
                    } else {
                        joined(
                            state->MallocState_0,
                            par->MallocPar_0,
                            info->HeapInfo_0,
                            None,
                        )
                    },
                },
            },
        }
    }
}

fn join(
    state: MallocStateLayout,
    par: MallocParLayout,
    info: HeapInfoLayout,
    tcache: Option<TcacheLayout>,
) -> (r: Outcome<DwarfLayout>)
    requires
        TargetLayout::MallocState(state).bounded(),
        TargetLayout::MallocPar(par).bounded(),
        TargetLayout::HeapInfo(info).bounded(),
        tcache is Some ==> TargetLayout::Tcache(tcache->0).bounded(),
    ensures
        super::outcome(r) == joined(state, par, info, tcache),
{
    let malloc_state_size: u32 = match checked_u32(state.size, "malloc_state size") {
        Ok(v) => v,
        Err(e) => return Err(e),
    };
    let fastbin_array_offset: u32 = match checked_u32(state.fastbins, "fastbinsY offset") {
        Ok(v) => v,
        Err(e) => return Err(e),
    };
    let fastbin_count: u32 = match checked_u32(state.fastbin_count, "fastbin count") {
        Ok(v) => v,
        Err(e) => return Err(e),
    };
    let malloc_state_top_offset: u32 = match checked_u32(state.top, "top offset") {
        Ok(v) => v,
        Err(e) => return Err(e),
    };
    let malloc_state_next_offset: u32 = match checked_u32(state.next, "next offset") {
        Ok(v) => v,
        Err(e) => return Err(e),
    };
    let mp_arena_max_offset: Option<u32> = match checked_option(
        par.arena_max,
        "arena_max offset",
    ) {
        Ok(v) => v,
        Err(e) => return Err(e),
    };
    let mp_sbrk_base_offset: u32 = match checked_u32(par.sbrk_base, "sbrk_base offset") {
        Ok(v) => v,
        Err(e) => return Err(e),
    };
    let mp_tcache_bins_offset: Option<u32> = match checked_option(
        par.tcache_bins,
        "tcache_bins offset",
    ) {
        Ok(v) => v,
        Err(e) => return Err(e),
    };
    let heap_info_size: u32 = match checked_u32(info.size, "heap_info size") {
        Ok(v) => v,
        Err(e) => return Err(e),
    };
    let heap_info_ar_ptr_offset: u32 = match checked_u32(info.ar_ptr, "ar_ptr offset") {
        Ok(v) => v,
        Err(e) => return Err(e),
    };
    let heap_info_prev_offset: u32 = match checked_u32(info.prev, "prev offset") {
        Ok(v) => v,
        Err(e) => return Err(e),
    };
    let heap_info_size_offset: u32 = match checked_u32(info.current_size, "size offset") {
        Ok(v) => v,
        Err(e) => return Err(e),
    };
    let heap_info_mprotect_size_offset: u32 = match checked_u32(
        info.mprotect_size,
        "mprotect_size offset",
    ) {
        Ok(v) => v,
        Err(e) => return Err(e),
    };
    let (entries, bins): (Option<u64>, Option<u64>) = match tcache {
        Some(v) => (Some(v.entries), Some(v.bins)),
        None => (None, None),
    };
    let tcache_entries_offset: Option<u32> = match checked_option(
        entries,
        "tcache entries offset",
    ) {
        Ok(v) => v,
        Err(e) => return Err(e),
    };
    let tcache_max_bins: Option<u32> = match checked_option(bins, "tcache bin count") {
        Ok(v) => v,
        Err(e) => return Err(e),
    };
    Ok(
        DwarfLayout {
            malloc_state_size,
            fastbin_array_offset,
            fastbin_count,
            malloc_state_top_offset,
            malloc_state_next_offset,
            mp_arena_max_offset,
            mp_sbrk_base_offset,
            mp_tcache_bins_offset,
            heap_info_size,
            heap_info_ar_ptr_offset,
            heap_info_prev_offset,
            heap_info_size_offset,
            heap_info_mprotect_size_offset,
            tcache_entries_offset,
            tcache_max_bins,
        },
    )
}

/// Select one checked definition of every target that is needed and join their
/// offsets.
pub fn assemble_layout(index: &TypeIndex, word_size: u64, require_tcache: bool) -> (r: Outcome<
    DwarfLayout,
>)
    ensures
        super::outcome(r) == assembled(index@, word_size, require_tcache),
{
    if word_size != 4 && word_size != 8 {
        return invalid("unsupported target word size");
    }
    let state = match select(index, Target::MallocState, word_size) {
        Ok(v) => v.malloc_state(),
        Err(e) => return Err(e),
    };
    let par = match select(index, Target::MallocPar, word_size) {
        Ok(v) => v.malloc_par(),
        Err(e) => return Err(e),
    };
    let info = match select(index, Target::HeapInfo, word_size) {
        Ok(v) => v.heap_info(),
        Err(e) => return Err(e),
    };
    let tcache: Option<TcacheLayout> = if require_tcache {
        match select(index, Target::Tcache, word_size) {
            Ok(v) => Some(v.tcache()),
            Err(e) => return Err(e),
        }
    } else {
        None
    };
    join(state, par, info, tcache)
}

/// A definition of a target checks out to a layout.
pub open spec fn gives(structure: StructureView, target: Target, word: u64, v: TargetLayout) -> bool {
    checked(structure, target, word) == Ok::<TargetLayout, DwarfError>(v)
}

/// A layout is selected exactly where some definition checks out to it and no
/// definition checks out to another.
pub proof fn law_selected_iff_valid_definitions_agree(
    found: super::FindingsView,
    target: Target,
    word: u64,
    v: TargetLayout,
)
    requires
        found.candidates is Some,
    ensures
        selected(found, target, word) == Ok::<TargetLayout, DwarfError>(v) <==> {
            let all = found.candidates->0;
            &&& exists|i: int| 0 <= i < all.len() && gives(#[trigger] all[i], target, word, v)
            &&& forall|i: int, w: TargetLayout|
                0 <= i < all.len() && #[trigger] gives(all[i], target, word, w) ==> w == v
        },
{
    let all = found.candidates->0;
    let layouts = distinct_layouts(all, target, word);
    lemma_distinct_layouts(all, target, word);
    if selected(found, target, word) == Ok::<TargetLayout, DwarfError>(v) {
        assert(layouts.len() == 1 && layouts[0] == v);
        assert(layouts.contains(v));
        assert forall|i: int, w: TargetLayout|
            0 <= i < all.len() && #[trigger] gives(all[i], target, word, w) implies w == v by {
            assert(layouts.contains(w));
        }
    }
    if (exists|i: int| 0 <= i < all.len() && gives(#[trigger] all[i], target, word, v)) && (
    forall|i: int, w: TargetLayout|
        0 <= i < all.len() && #[trigger] gives(all[i], target, word, w) ==> w == v) {
        assert(layouts.contains(v));
        if layouts.len() > 1 {
            assert(layouts.contains(layouts[0]) && layouts.contains(layouts[1]));
            assert(layouts[0] == v && layouts[1] == v);
        }
    }
}

/// The distinct layouts are those that definitions check out to, each once.
pub proof fn lemma_distinct_layouts(candidates: Seq<StructureView>, target: Target, word: u64)
    ensures
        forall|v: TargetLayout| #[trigger]
            distinct_layouts(candidates, target, word).contains(v) <==> (exists|i: int|
                0 <= i < candidates.len() && gives(#[trigger] candidates[i], target, word, v)),
        distinct_layouts(candidates, target, word).no_duplicates(),
    decreases candidates.len(),
{
    if candidates.len() > 0 {
        let front = candidates.drop_last();
        lemma_distinct_layouts(front, target, word);
        let before = distinct_layouts(front, target, word);
        let after = distinct_layouts(candidates, target, word);
        let last = candidates.len() - 1;
        assert forall|v: TargetLayout| #[trigger]
            after.contains(v) <==> (exists|i: int|
                0 <= i < candidates.len() && gives(#[trigger] candidates[i], target, word, v)) by {
            if after.contains(v) {
                if before.contains(v) {
                    let i = choose|i: int|
                        0 <= i < front.len() && gives(#[trigger] front[i], target, word, v);
                    assert(gives(candidates[i], target, word, v));
                } else {
                    assert(gives(candidates[last], target, word, v));
                }
            }
            if exists|i: int|
                0 <= i < candidates.len() && gives(#[trigger] candidates[i], target, word, v) {
                let i = choose|i: int|
                    0 <= i < candidates.len() && gives(#[trigger] candidates[i], target, word, v);
                if i < last {
                    assert(gives(front[i], target, word, v));
                    assert(before.contains(v));
                    let k = choose|k: int| 0 <= k < before.len() && before[k] == v;
                    assert(after[k] == v);
                } else if before.contains(v) {
                    let k = choose|k: int| 0 <= k < before.len() && before[k] == v;
                    assert(after[k] == v);
                } else {
                    assert(after[after.len() - 1] == v);
                }
            }
        }
    } else {
        assert(distinct_layouts(candidates, target, word) =~= Seq::empty());
    }
}

} // verus!
