//! Which entries define the malloc structures, and which of their members are read.

use vstd::prelude::*;

use crate::text;

use super::reader;
use super::reader::{Attr, AttrKind, DieAt, UnitHeader};
use super::sections::Sections;
use super::structures;
use super::types;
use super::{DwarfError, MemberView, StructureView, Target, TypeInfo};

verus! {

/// A name is another one, trimmed, with or without the word for a structure or a class in
/// front.
pub open spec fn means(name: Seq<char>, plain: Seq<char>) -> bool {
    let inner = text::trimmed(name);
    ||| inner == plain && !starts_with_word(plain)
    ||| inner == seq!['s', 't', 'r', 'u', 'c', 't', ' '] + plain
    ||| inner == seq!['c', 'l', 'a', 's', 's', ' '] + plain
}

/// A text starts with the word for a structure or a class.
pub open spec fn starts_with_word(s: Seq<char>) -> bool {
    ||| s.len() >= 7 && s.take(7) == seq!['s', 't', 'r', 'u', 'c', 't', ' ']
    ||| s.len() >= 6 && s.take(6) == seq!['c', 'l', 'a', 's', 's', ' ']
}

proof fn lemma_bare(name: Seq<char>, plain: Seq<char>)
    ensures
        structures::bare_name(name) == plain <==> means(name, plain),
{
    reveal_strlit("struct ");
    reveal_strlit("class ");
    let struct_ = seq!['s', 't', 'r', 'u', 'c', 't', ' '];
    let class_ = seq!['c', 'l', 'a', 's', 's', ' '];
    assert("struct "@ =~= struct_);
    assert("class "@ =~= class_);
    let inner = text::trimmed(name);
    if inner.len() >= 7 && inner.take(7) == struct_ {
        assert(inner =~= struct_ + inner.skip(7));
        assert(inner[0] == inner.take(7)[0]);
        if inner.len() >= 6 && inner.take(6) == class_ {
            assert(inner[0] == inner.take(6)[0]);
        }
    } else if inner.len() >= 6 && inner.take(6) == class_ {
        assert(inner =~= class_ + inner.skip(6));
    }
    if inner == struct_ + plain {
        assert(inner.take(7) =~= struct_);
        assert(inner.skip(7) =~= plain);
    }
    if inner == class_ + plain {
        assert(inner.take(6) =~= class_);
        assert(inner.skip(6) =~= plain);
        assert(inner[0] == 'c');
        if inner.len() >= 7 {
            assert(inner.take(7)[0] == 'c');
        }
    }
}

proof fn lemma_names_differ()
    ensures
        "malloc_state"@ != "_malloc_state"@,
        "malloc_state"@ != "malloc_par"@,
        "malloc_state"@ != "heap_info"@,
        "malloc_state"@ != "_heap_info"@,
        "malloc_state"@ != "tcache_perthread_struct"@,
        "_malloc_state"@ != "malloc_par"@,
        "_malloc_state"@ != "heap_info"@,
        "_malloc_state"@ != "_heap_info"@,
        "_malloc_state"@ != "tcache_perthread_struct"@,
        "malloc_par"@ != "heap_info"@,
        "malloc_par"@ != "_heap_info"@,
        "malloc_par"@ != "tcache_perthread_struct"@,
        "heap_info"@ != "tcache_perthread_struct"@,
        "_heap_info"@ != "tcache_perthread_struct"@,
{
    reveal_strlit("malloc_state");
    reveal_strlit("_malloc_state");
    reveal_strlit("malloc_par");
    reveal_strlit("heap_info");
    reveal_strlit("_heap_info");
    reveal_strlit("tcache_perthread_struct");
    assert("malloc_state"@.len() == 12);
    assert("_malloc_state"@.len() == 13);
    assert("malloc_par"@.len() == 10);
    assert("heap_info"@.len() == 9);
    assert("_heap_info"@.len() == 10);
    assert("tcache_perthread_struct"@.len() == 23);
    assert("malloc_par"@[0] == 'm');
    assert("_heap_info"@[0] == '_');
}

/// The four structures are told by their names, with or without the word `struct` or
/// `class` in front; `malloc_state` and `heap_info` also with an underscore in front.
pub proof fn law_structures_are_told_by_name(name: Seq<char>)
    ensures
        structures::target_of(name) == Some(Target::MallocState) <==> means(name, "malloc_state"@)
            || means(name, "_malloc_state"@),
        structures::target_of(name) == Some(Target::MallocPar) <==> means(name, "malloc_par"@),
        structures::target_of(name) == Some(Target::HeapInfo) <==> means(name, "heap_info"@)
            || means(name, "_heap_info"@),
        structures::target_of(name) == Some(Target::Tcache) <==> means(
            name,
            "tcache_perthread_struct"@,
        ),
{
    lemma_names_differ();
    lemma_bare(name, "malloc_state"@);
    lemma_bare(name, "_malloc_state"@);
    lemma_bare(name, "malloc_par"@);
    lemma_bare(name, "heap_info"@);
    lemma_bare(name, "_heap_info"@);
    lemma_bare(name, "tcache_perthread_struct"@);
}

/// A structure is as large as whole words of its target, a mebibyte at most.
pub proof fn law_structures_are_whole_words(size: u64, word: u8)
    ensures
        structures::size_check(size, word) is Ok <==> {
            &&& 0 < size <= 0x10_0000
            &&& word == 4 || word == 8
            &&& exists|n: int| size == #[trigger] (n * word)
        },
{
    if word == 4 || word == 8 {
        if size as int % word as int == 0 {
            let n = size as int / word as int;
            assert(size == n * word);
        }
        if exists|n: int| size == #[trigger] (n * word) {
            let n = choose|n: int| size == #[trigger] (n * word);
            if word == 4 {
                assert(size == n * 4);
            } else {
                assert(size == n * 8);
            }
        }
    }
}

/// An entry is only a declaration where the attribute for that is set, as a flag or as a
/// number other than zero.
pub proof fn law_declarations(attr: Attr)
    ensures
        !structures::says_declaration(None),
        attr.kind == AttrKind::Flag(true) ==> structures::says_declaration(Some(attr)),
        attr.kind == AttrKind::Flag(false) ==> !structures::says_declaration(Some(attr)),
        !(attr.kind is Flag) ==> (structures::says_declaration(Some(attr)) <==> attr.udata is Some
            && attr.udata != Some(0u64)),
{
}

/// The members that are read of each structure.
pub open spec fn is_read_of(target: Target, name: Seq<char>) -> bool {
    match target {
        Target::MallocState => name == "fastbinsY"@ || name == "top"@ || name == "next"@,
        Target::MallocPar => name == "arena_max"@ || name == "sbrk_base"@ || name
            == "tcache_bins"@,
        Target::HeapInfo => name == "ar_ptr"@ || name == "prev"@ || name == "size"@ || name
            == "mprotect_size"@,
        Target::Tcache => name == "counts"@ || name == "entries"@,
    }
}

proof fn lemma_wanted(target: Target, name: Seq<char>)
    ensures
        target.wanted().contains(name) <==> is_read_of(target, name),
{
    let all = target.wanted();
    match target {
        Target::MallocState => {
            assert(all[0] == "fastbinsY"@ && all[1] == "top"@ && all[2] == "next"@);
        },
        Target::MallocPar => {
            assert(all[0] == "arena_max"@ && all[1] == "sbrk_base"@ && all[2] == "tcache_bins"@);
        },
        Target::HeapInfo => {
            assert(all[0] == "ar_ptr"@ && all[1] == "prev"@ && all[2] == "size"@ && all[3]
                == "mprotect_size"@);
        },
        Target::Tcache => {
            assert(all[0] == "counts"@ && all[1] == "entries"@);
        },
    }
}

/// A child of a structure is this member of it: it has the tag of members (`0x0d`), the
/// member's name, its location and the type that its type attribute (`0x49`) refers to.
pub open spec fn is_member_entry(
    sections: Sections,
    headers: Seq<UnitHeader>,
    unit: UnitHeader,
    child: DieAt,
    m: MemberView,
) -> bool {
    &&& child.tag == 0x0d
    &&& types::name_of(sections, unit, child.offset) == Ok::<Option<Seq<char>>, DwarfError>(
        Some(m.name),
    )
    &&& types::location_of(sections, unit, child.offset) == Ok::<u64, DwarfError>(m.offset)
    &&& reader::attr_in(sections, unit.offset, child.offset, 0x49) matches Some(Some(attr)) && (
    types::referent(sections, headers, unit, attr) matches Ok((other, at)) && types::type_at(
        sections,
        headers,
        other,
        at,
        0,
        Seq::empty(),
    ) == Ok::<TypeInfo, DwarfError>(m.ty))
}

proof fn lemma_member(
    sections: Sections,
    headers: Seq<UnitHeader>,
    unit: UnitHeader,
    child: DieAt,
    target: Target,
    m: MemberView,
)
    ensures
        structures::member_at(sections, headers, unit, child, target) == Ok::<
            Option<MemberView>,
            DwarfError,
        >(Some(m)) <==> is_member_entry(sections, headers, unit, child, m) && is_read_of(
            target,
            m.name,
        ),
{
    lemma_wanted(target, m.name);
    if let Ok(Some(name)) = types::name_of(sections, unit, child.offset) {
        lemma_wanted(target, name);
    }
}

/// A structure that was read has the size that its entry says (attribute `0x0b`), is no
/// mere declaration (`0x3c`), and its members are those of its children that are read of
/// such a structure, each as its entry says.
pub proof fn law_structures_are_read_as_declared(
    sections: Sections,
    headers: Seq<UnitHeader>,
    unit: UnitHeader,
    die: usize,
    target: Target,
    s: StructureView,
    m: MemberView,
)
    requires
        structures::structure_at(sections, headers, unit, die, target) == Ok::<
            StructureView,
            DwarfError,
        >(s),
    ensures
        reader::attr_in(sections, unit.offset, die, 0x0b) matches Some(Some(size)) && size.udata
            == Some(s.byte_size),
        structures::size_check(s.byte_size, unit.address_size) is Ok,
        reader::attr_in(sections, unit.offset, die, 0x3c) matches Some(declared)
            && !structures::says_declaration(declared),
        reader::children_in(sections, unit.offset, die) matches Some((children, broken)) && {
            &&& !broken
            &&& s.members.contains(m) <==> is_read_of(target, m.name) && exists|k: int|
                0 <= k < children.len() && is_member_entry(
                    sections,
                    headers,
                    unit,
                    #[trigger] children[k],
                    m,
                )
        },
{
    structures::law_members_are_ordered_and_distinct(sections, headers, unit, die, target, s);
    let (children, broken) = reader::children_in(sections, unit.offset, die)->0;
    lemma_not_broken(sections, headers, unit, target, children, broken, 0, Seq::empty());
    if s.members.contains(m) {
        let k = choose|k: int|
            0 <= k < children.len() && #[trigger] structures::member_at(
                sections,
                headers,
                unit,
                children[k],
                target,
            ) == Ok::<Option<MemberView>, DwarfError>(Some(m));
        lemma_member(sections, headers, unit, children[k], target, m);
        assert(is_member_entry(sections, headers, unit, children[k], m));
    }
    if is_read_of(target, m.name) && exists|k: int|
        0 <= k < children.len() && is_member_entry(
            sections,
            headers,
            unit,
            #[trigger] children[k],
            m,
        ) {
        let k = choose|k: int|
            0 <= k < children.len() && is_member_entry(
                sections,
                headers,
                unit,
                #[trigger] children[k],
                m,
            );
        lemma_member(sections, headers, unit, children[k], target, m);
        assert(structures::member_at(sections, headers, unit, children[k], target) == Ok::<
            Option<MemberView>,
            DwarfError,
        >(Some(m)));
    }
}

proof fn lemma_not_broken(
    sections: Sections,
    headers: Seq<UnitHeader>,
    unit: UnitHeader,
    target: Target,
    children: Seq<DieAt>,
    broken: bool,
    i: int,
    met: Seq<MemberView>,
)
    requires
        0 <= i,
    ensures
        structures::members_from(
            sections,
            headers,
            unit,
            target,
            children,
            broken,
            i,
            met,
        ) is Ok ==> !broken && forall|k: int|
            i <= k < children.len() ==> (#[trigger] structures::member_at(
                sections,
                headers,
                unit,
                children[k],
                target,
            )) is Ok,
    decreases children.len() - i,
{
    if i < children.len() {
        match structures::member_at(sections, headers, unit, children[i], target) {
            Ok(Some(m)) => lemma_not_broken(
                sections,
                headers,
                unit,
                target,
                children,
                broken,
                i + 1,
                structures::placed(met, m, 0),
            ),
            Ok(None) => lemma_not_broken(
                sections,
                headers,
                unit,
                target,
                children,
                broken,
                i + 1,
                met,
            ),
            Err(_) => {},
        }
    }
}

proof fn lemma_below(a: Seq<int>, b: Seq<int>, i: int, k: int)
    requires
        0 <= i <= k < a.len(),
        k < b.len(),
        forall|j: int| 0 <= j < k ==> a[j] == b[j],
        a[k] != b[k],
    ensures
        structures::below_from(a, b, i) == (a[k] < b[k]),
    decreases k - i,
{
    if i < k {
        lemma_below(a, b, i + 1, k);
    }
}

proof fn lemma_char(c: char)
    ensures
        c as int >= 0,
{
}

/// Members are ordered by their names, a name before every longer one that starts with it,
/// and members of one name by their offsets.
pub proof fn law_members_are_ordered_by_name(a: MemberView, b: MemberView, k: int)
    ensures
        0 <= k < a.name.len() && k < b.name.len() && a.name.take(k) == b.name.take(k) && a.name[k]
            != b.name[k] ==> structures::before(a, b) == (a.name[k] < b.name[k]),
        k == a.name.len() && k < b.name.len() && a.name == b.name.take(k) ==> structures::before(
            a,
            b,
        ),
        a.name == b.name && a.offset != b.offset ==> structures::before(a, b) == (a.offset
            < b.offset),
{
    let x = structures::sort_key(a);
    let y = structures::sort_key(b);
    if 0 <= k < a.name.len() && k < b.name.len() && a.name.take(k) == b.name.take(k) && a.name[k]
        != b.name[k] {
        assert forall|j: int| 0 <= j < k implies x[j] == y[j] by {
            assert(a.name.take(k)[j] == b.name.take(k)[j]);
        }
        lemma_below(x, y, 0, k);
    }
    if k == a.name.len() && k < b.name.len() && a.name == b.name.take(k) {
        assert forall|j: int| 0 <= j < k implies x[j] == y[j] by {
            assert(a.name[j] == b.name.take(k)[j]);
        }
        assert(x[k] == -1);
        lemma_char(b.name[k]);
        assert(y[k] == b.name[k] as int);
        lemma_below(x, y, 0, k);
    }
    if a.name == b.name && a.offset != b.offset {
        let n: int = a.name.len() as int + 1;
        assert(x[n] == a.offset && y[n] == b.offset);
        lemma_below(x, y, 0, n);
    }
}

} // verus!
