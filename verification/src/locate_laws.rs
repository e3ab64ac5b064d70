//! Which mapping of a core is taken for its libc.

use vstd::prelude::*;

use crate::elf::coredump::MappedFileView;
use crate::elf::note_laws;
use crate::elf::notes;
use crate::elf::Elf;
use crate::error;
use crate::locate;
use crate::locate::{IdentityView, LocatedLibcView};
use crate::text;

verus! {

/// What the kernel appends to the path of a file that was replaced.
pub open spec fn mark() -> Seq<char> {
    seq![' ', '(', 'd', 'e', 'l', 'e', 't', 'e', 'd', ')']
}

proof fn lemma_mark()
    ensures
        " (deleted)"@ == mark(),
{
    reveal_strlit(" (deleted)");
    assert(" (deleted)"@ =~= mark());
}

/// A path loses the mark of a replaced file, once, and nothing else.
pub proof fn law_only_the_mark_is_stripped(path: Seq<char>)
    ensures
        locate::stripped(path + mark()) == path,
        locate::stripped(path) == path || locate::stripped(path) + mark() == path,
        locate::stripped(path) == path <==> !exists|front: Seq<char>| path == #[trigger] (front
            + mark()),
{
    lemma_mark();
    let marked = path + mark();
    assert(marked.skip(marked.len() - 10) =~= mark());
    assert(marked.take(path.len() as int) =~= path);
    if locate::stripped(path) != path {
        let front = path.take(path.len() - 10);
        assert(path =~= front + mark());
    }
    if exists|front: Seq<char>| path == #[trigger] (front + mark()) {
        let front = choose|front: Seq<char>| path == #[trigger] (front + mark());
        assert(path.skip(path.len() - 10) =~= mark());
        assert(path.take(path.len() - 10) =~= front);
    }
}

/// A path, without the mark of a replaced file, whose last component starts with
/// `libc.so` or `libc-`.
pub open spec fn is_libc_path(path: Seq<char>) -> bool {
    exists|folder: Seq<char>, name: Seq<char>| #[trigger] is_libc_file(path, folder, name)
}

/// A path is that of a libc in a folder.
pub open spec fn is_libc_file(path: Seq<char>, folder: Seq<char>, name: Seq<char>) -> bool {
    &&& path == folder + name || path == folder + name + mark()
    &&& folder.len() == 0 || folder.last() == '/'
    &&& !name.contains('/')
    &&& {
        ||| name.len() >= 7 && name.take(7) == seq!['l', 'i', 'b', 'c', '.', 's', 'o']
        ||| name.len() >= 5 && name.take(5) == seq!['l', 'i', 'b', 'c', '-']
    }
    &&& path == folder + name ==> !exists|front: Seq<char>| path == #[trigger] (front + mark())
}

proof fn lemma_base_start(path: Seq<char>, n: int)
    requires
        0 <= n <= path.len(),
    ensures
        0 <= locate::base_start(path, n) <= n,
        locate::base_start(path, n) > 0 ==> path[locate::base_start(path, n) - 1] == '/',
        forall|k: int| locate::base_start(path, n) <= k < n ==> path[k] != '/',
    decreases n,
{
    if n > 0 && path[n - 1] != '/' {
        lemma_base_start(path, n - 1);
    }
}

/// A path names a libc exactly where its last component, without the mark of a replaced
/// file, starts with `libc.so` or `libc-`.
pub proof fn law_libc_is_told_by_its_name(path: Seq<char>)
    ensures
        locate::names_libc(path) <==> is_libc_path(path),
{
    law_only_the_mark_is_stripped(path);
    reveal_strlit("libc.so");
    reveal_strlit("libc-");
    assert("libc.so"@ =~= seq!['l', 'i', 'b', 'c', '.', 's', 'o']);
    assert("libc-"@ =~= seq!['l', 'i', 'b', 'c', '-']);
    let plain = locate::stripped(path);
    let n = locate::base_start(plain, plain.len() as int);
    lemma_base_start(plain, plain.len() as int);
    let folder = plain.take(n);
    let name = plain.skip(n);
    assert(folder + name =~= plain);
    assert(!name.contains('/')) by {
        if name.contains('/') {
            let k = choose|k: int| 0 <= k < name.len() && name[k] == '/';
            assert(plain[n + k] == '/');
        }
    }
    if locate::names_libc(path) {
        assert(is_libc_file(path, folder, name));
    }
    if is_libc_path(path) {
        let (f, m) = choose|f: Seq<char>, m: Seq<char>| #[trigger] is_libc_file(path, f, m);
        if path == f + m + mark() {
            law_only_the_mark_is_stripped(f + m);
        }
        assert(plain == f + m);
        if f.len() < n {
            assert(plain[n - 1] == m[n - 1 - f.len()]);
            assert(m.contains('/'));
        }
        if f.len() > n {
            assert(plain[f.len() - 1] == f.last());
        }
        assert(name =~= m);
    }
}

/// A mapping that starts with the header of a libc which has the wanted identity.
pub open spec fn is_wanted(core: Elf<'_>, m: MappedFileView, want: IdentityView) -> bool {
    &&& m.file_offset == 0
    &&& is_libc_path(m.path)
    &&& locate::has_identity(core, m.start, want)
}

proof fn lemma_first(
    core: Elf<'_>,
    list: Seq<MappedFileView>,
    want: IdentityView,
    i: int,
)
    requires
        0 <= i <= list.len(),
    ensures
        match locate::first_match(core, list, want, i) {
            Some(m) => exists|k: int|
                i <= k < list.len() && #[trigger] list[k] == m && locate::has_identity(
                    core,
                    m.start,
                    want,
                ) && forall|j: int|
                    i <= j < k ==> !locate::has_identity(core, (#[trigger] list[j]).start, want),
            None => forall|j: int|
                i <= j < list.len() ==> !locate::has_identity(
                    core,
                    (#[trigger] list[j]).start,
                    want,
                ),
        },
    decreases list.len() - i,
{
    if i < list.len() {
        if locate::has_identity(core, list[i].start, want) {
            assert(list[i] == list[i]);
        } else {
            lemma_first(core, list, want, i + 1);
            if let Some(m) = locate::first_match(core, list, want, i + 1) {
                let k = choose|k: int|
                    i + 1 <= k < list.len() && #[trigger] list[k] == m && locate::has_identity(
                        core,
                        m.start,
                        want,
                    ) && forall|j: int|
                        i + 1 <= j < k ==> !locate::has_identity(
                            core,
                            (#[trigger] list[j]).start,
                            want,
                        );
                assert(list[k] == m);
            }
        }
    }
}

proof fn lemma_filter(
    s: Seq<MappedFileView>,
    p: spec_fn(MappedFileView) -> bool,
    m: MappedFileView,
)
    ensures
        s.filter(p).contains(m) <==> s.contains(m) && p(m),
    decreases s.len(),
{
    reveal(Seq::filter);
    if s.len() > 0 {
        let front = s.drop_last();
        lemma_filter(front, p, m);
        assert(s.contains(m) <==> front.contains(m) || s.last() == m) by {
            if s.contains(m) {
                let k = choose|k: int| 0 <= k < s.len() && s[k] == m;
                if k < front.len() {
                    assert(front[k] == m);
                }
            }
            if front.contains(m) {
                let k = choose|k: int| 0 <= k < front.len() && front[k] == m;
                assert(s[k] == m);
            }
        }
        let kept = front.filter(p);
        if p(s.last()) {
            let all = kept.push(s.last());
            assert(all.contains(m) <==> kept.contains(m) || s.last() == m) by {
                if all.contains(m) {
                    let k = choose|k: int| 0 <= k < all.len() && all[k] == m;
                    if k < kept.len() {
                        assert(kept[k] == m);
                    }
                }
                if kept.contains(m) {
                    let k = choose|k: int| 0 <= k < kept.len() && kept[k] == m;
                    assert(all[k] == m);
                }
                assert(all[kept.len() as int] == s.last());
            }
        }
    }
}

proof fn lemma_candidate_is_mapped(mapped: Seq<MappedFileView>, m: MappedFileView)
    ensures
        locate::candidates(mapped).contains(m) <==> mapped.contains(m) && m.file_offset == 0
            && is_libc_path(m.path),
{
    broadcast use vstd::seq_lib::group_to_multiset_ensures;

    locate::law_candidates_are_the_libc_mappings(mapped);
    law_libc_is_told_by_its_name(m.path);
    let list = locate::candidates(mapped);
    let wanted = |m: MappedFileView| locate::is_candidate(m);
    let kept = mapped.filter(wanted);
    assert(list.contains(m) <==> list.to_multiset().count(m) > 0);
    assert(kept.contains(m) <==> kept.to_multiset().count(m) > 0);
    lemma_filter(mapped, wanted, m);
}

/// The libc that is located by its identity is the lowest mapping of a libc that has it,
/// and goes by that mapping's path. None is located exactly where no mapping of a libc
/// has the identity; how many mappings were looked at is then told.
pub proof fn law_located_libc_is_the_lowest_with_the_identity(core: Elf<'_>, want: IdentityView)
    ensures
        match locate::found_by_identity(core, want) {
            Ok(libc) => {
                let mapped = locate::mappings(core);
                &&& libc.verified
                &&& exists|k: int|
                    0 <= k < mapped.len() && is_wanted(core, #[trigger] mapped[k], want)
                        && mapped[k].start == libc.load_addr && mapped[k].path == libc.path
                &&& forall|k: int|
                    0 <= k < mapped.len() && is_wanted(core, #[trigger] mapped[k], want)
                        ==> libc.load_addr <= mapped[k].start
            },
            Err(e) => {
                let mapped = locate::mappings(core);
                &&& forall|k: int|
                    0 <= k < mapped.len() ==> !is_wanted(core, #[trigger] mapped[k], want)
                &&& e == error::ErrorView::LibcNotFound(
                    "tried "@ + text::decimal(
                        mapped.filter(
                            |m: MappedFileView| m.file_offset == 0 && is_libc_path(m.path),
                        ).len(),
                    ) + " libc mapping(s), none matched the reference identity"@,
                )
            },
        },
{
    broadcast use vstd::seq_lib::group_to_multiset_ensures;

    let mapped = locate::mappings(core);
    let list = locate::candidates(mapped);
    locate::law_candidates_are_the_libc_mappings(mapped);
    lemma_first(core, list, want, 0);
    assert forall|k: int| 0 <= k < mapped.len() && is_wanted(core, #[trigger] mapped[k], want)
        implies exists|i: int| 0 <= i < list.len() && #[trigger] list[i] == mapped[k] by {
        lemma_candidate_is_mapped(mapped, mapped[k]);
        assert(mapped.contains(mapped[k]));
    }
    match locate::first_match(core, list, want, 0) {
        Some(m) => {
            let n = choose|n: int|
                0 <= n < list.len() && #[trigger] list[n] == m && locate::has_identity(
                    core,
                    m.start,
                    want,
                ) && forall|j: int|
                    0 <= j < n ==> !locate::has_identity(core, (#[trigger] list[j]).start, want);
            lemma_candidate_is_mapped(mapped, m);
            assert(list.contains(m));
            let k = choose|k: int| 0 <= k < mapped.len() && mapped[k] == m;
            assert(is_wanted(core, mapped[k], want));
            assert forall|k: int| 0 <= k < mapped.len() && is_wanted(core, #[trigger] mapped[k], want)
                implies m.start <= mapped[k].start by {
                let i = choose|i: int| 0 <= i < list.len() && #[trigger] list[i] == mapped[k];
                if i < n {
                    assert(!locate::has_identity(core, list[i].start, want));
                }
                if n < i {
                    assert(list[n].start <= list[i].start);
                }
            }
        },
        None => {
            assert forall|k: int| 0 <= k < mapped.len() implies !is_wanted(
                core,
                #[trigger] mapped[k],
                want,
            ) by {
                if is_wanted(core, mapped[k], want) {
                    let i = choose|i: int| 0 <= i < list.len() && #[trigger] list[i] == mapped[k];
                    assert(!locate::has_identity(core, list[i].start, want));
                }
            }
            let looked = |m: MappedFileView| m.file_offset == 0 && is_libc_path(m.path);
            assert forall|m: MappedFileView| looked(m) == #[trigger] locate::is_candidate(m) by {
                law_libc_is_told_by_its_name(m.path);
            }
            lemma_same_filter(mapped, looked, |m: MappedFileView| locate::is_candidate(m));
            let kept = mapped.filter(|m: MappedFileView| locate::is_candidate(m));
            list.to_multiset_ensures();
            kept.to_multiset_ensures();
            assert(list.to_multiset().len() == kept.to_multiset().len());
            assert(list.len() == mapped.filter(looked).len());
        },
    }
}

proof fn lemma_same_filter(
    s: Seq<MappedFileView>,
    p: spec_fn(MappedFileView) -> bool,
    q: spec_fn(MappedFileView) -> bool,
)
    requires
        forall|m: MappedFileView| p(m) == #[trigger] q(m),
    ensures
        s.filter(p) == s.filter(q),
    decreases s.len(),
{
    reveal(Seq::filter);
    if s.len() > 0 {
        lemma_same_filter(s.drop_last(), p, q);
        assert(p(s.last()) == q(s.last()));
    }
}

/// A libc that is forced by its path is the lowest mapping under that path, whatever its
/// identity, and is not called verified. None is located exactly where no mapping has
/// the path.
pub proof fn law_forced_libc_is_not_compared(core: Elf<'_>, wanted: Seq<char>)
    ensures
        match locate::found_by_path(core, wanted) {
            Ok(libc) => {
                let mapped = locate::mappings(core);
                &&& !libc.verified
                &&& exists|k: int|
                    0 <= k < mapped.len() && (#[trigger] mapped[k]).file_offset == 0
                        && locate::stripped(mapped[k].path) == locate::stripped(wanted)
                        && mapped[k].start == libc.load_addr && mapped[k].path == libc.path
                &&& forall|k: int|
                    0 <= k < mapped.len() && (#[trigger] mapped[k]).file_offset == 0
                        && locate::stripped(mapped[k].path) == locate::stripped(wanted)
                        ==> libc.load_addr <= mapped[k].start
            },
            Err(e) => {
                let mapped = locate::mappings(core);
                &&& forall|k: int|
                    0 <= k < mapped.len() && (#[trigger] mapped[k]).file_offset == 0
                        ==> locate::stripped(mapped[k].path) != locate::stripped(wanted)
                &&& e == error::ErrorView::LibcNotFound(
                    "no mapping matches forced path '"@ + wanted + "'"@,
                )
            },
        },
{
    let mapped = locate::mappings(core);
    locate::law_forced_is_the_lowest_of_its_path(mapped, wanted);
    if let Some(m) = locate::forced(mapped, wanted) {
        let k = choose|k: int| 0 <= k < mapped.len() && mapped[k] == m;
        assert(mapped[k].file_offset == 0);
    }
}

/// A mapping has an identity exactly where its first bytes in the core have it: as many
/// as the core holds of the segment behind its start, a page at most. A build-id is
/// looked for in them as in an image; a hash is that of all of them.
pub proof fn law_identity_is_that_of_the_first_page(
    core: Elf<'_>,
    start: u64,
    want: IdentityView,
    page: Seq<u8>,
    end: u64,
)
    requires
        core.bounds_at(start) matches Some((_, to)) && to == end,
        end - start <= usize::MAX,
        page.len() == if end - start < 4096 {
            end - start
        } else {
            4096
        },
        core.bytes_at(start, page.len()) == Ok::<Seq<u8>, error::ErrorView>(page),
    ensures
        match want {
            IdentityView::BuildId(id) => locate::has_identity(core, start, want)
                <==> notes::raw_build_id(page) == Some(id),
            IdentityView::ContentHash(hash) => locate::has_identity(core, start, want)
                <==> locate::sha256_of(page) == hash,
        },
{
    crate::elf::image::law_segment_is_found(core, start);
}

/// Where the core has no segment at an address, or not its first bytes, nothing there
/// has an identity.
pub proof fn law_unread_mappings_have_no_identity(core: Elf<'_>, start: u64, want: IdentityView)
    requires
        core.bounds_at(start) is None || forall|len: nat|
            1 <= len <= 4096 ==> (#[trigger] core.bytes_at(start, len)) is Err,
        core.bounds_at(start) matches Some((_, to)) ==> to - start <= usize::MAX,
    ensures
        !locate::has_identity(core, start, want),
{
    crate::elf::image::law_segment_is_found(core, start);
    if let Some((_, end)) = core.bounds_at(start) {
        let n = locate::window_at(start, end);
        assert(1 <= n <= 4096);
        assert(core.bytes_at(start, n) is Err);
    }
}

/// A libc goes by the build-id among its notes, whatever it is; only one without is told
/// by the hash of its first page, or of all of it where it is shorter.
pub proof fn law_build_id_goes_before_hash(elf: Elf<'_>, k: int)
    ensures
        ({
            let list = notes::all_notes(elf.tables.program_headers@, elf.data@);
            &&& note_laws::carries_first(list, k) ==> locate::identity_of(elf)
                == IdentityView::BuildId(list[k].desc)
            &&& (forall|j: int|
                0 <= j < list.len() ==> (#[trigger] list[j]).note_type != 3 || list[j].name
                    != "GNU"@) ==> {
                &&& elf.data@.len() <= 4096 ==> locate::identity_of(elf)
                    == IdentityView::ContentHash(locate::sha256_of(elf.data@))
                &&& elf.data@.len() >= 4096 ==> locate::identity_of(elf)
                    == IdentityView::ContentHash(
                    locate::sha256_of(elf.data@.subrange(0, 4096)),
                )
            }
        }),
{
    let list = notes::all_notes(elf.tables.program_headers@, elf.data@);
    note_laws::law_build_id_is_that_of_the_first_note(list, k);
    if elf.data@.len() == 4096 {
        assert(elf.data@.take(4096) =~= elf.data@);
    }
}

/// Mapping `k` is the one to take among the first `n` that qualify: none of them starts
/// lower, and of those that start there it comes first.
pub open spec fn is_lowest(
    mapped: Seq<MappedFileView>,
    qualifies: spec_fn(MappedFileView) -> bool,
    n: int,
    k: int,
) -> bool {
    &&& 0 <= k < n
    &&& qualifies(mapped[k])
    &&& forall|j: int|
        0 <= j < n && qualifies(#[trigger] mapped[j]) ==> mapped[k].start < mapped[j].start || (
        mapped[k].start == mapped[j].start && k <= j)
}

proof fn lemma_first_of_longer(
    core: Elf<'_>,
    list: Seq<MappedFileView>,
    x: MappedFileView,
    want: IdentityView,
    i: int,
)
    requires
        0 <= i <= list.len(),
    ensures
        locate::first_match(core, list.push(x), want, i) == match locate::first_match(
            core,
            list,
            want,
            i,
        ) {
            Some(m) => Some(m),
            None => if locate::has_identity(core, x.start, want) {
                Some(x)
            } else {
                None
            },
        },
    decreases list.len() - i,
{
    reveal_with_fuel(locate::first_match, 2);
    if i < list.len() {
        assert(list.push(x)[i] == list[i]);
        lemma_first_of_longer(core, list, x, want, i + 1);
    }
}

proof fn lemma_first_of_placed(
    core: Elf<'_>,
    list: Seq<MappedFileView>,
    x: MappedFileView,
    want: IdentityView,
)
    requires
        locate::ascending(list),
    ensures
        ({
            let before = locate::first_match(core, list, want, 0);
            locate::first_match(core, locate::placed(list, x), want, 0)
                == if locate::has_identity(core, x.start, want) && (before is None || x.start
                < before->0.start) {
                Some(x)
            } else {
                before
            }
        }),
    decreases list.len(),
{
    lemma_first(core, list, want, 0);
    if list.len() == 0 || list.last().start <= x.start {
        lemma_first_of_longer(core, list, x, want, 0);
        if let Some(m) = locate::first_match(core, list, want, 0) {
            let k = choose|k: int|
                0 <= k < list.len() && #[trigger] list[k] == m && locate::has_identity(
                    core,
                    m.start,
                    want,
                ) && forall|j: int|
                    0 <= j < k ==> !locate::has_identity(core, (#[trigger] list[j]).start, want);
            if k < list.len() - 1 {
                assert(list[k].start <= list[list.len() - 1].start);
            }
        }
    } else {
        let front = list.drop_last();
        lemma_first_of_placed(core, front, x, want);
        lemma_first_of_longer(core, locate::placed(front, x), list.last(), want, 0);
        lemma_first_of_longer(core, front, list.last(), want, 0);
        assert(front.push(list.last()) =~= list);
    }
}

proof fn lemma_first_candidate(
    core: Elf<'_>,
    mapped: Seq<MappedFileView>,
    want: IdentityView,
    n: int,
)
    requires
        0 <= n <= mapped.len(),
    ensures
        ({
            let wanted = |m: MappedFileView| is_wanted(core, m, want);
            match locate::first_match(core, locate::candidates_among(mapped, n), want, 0) {
                Some(m) => exists|k: int| #[trigger]
                    is_lowest(mapped, wanted, n, k) && mapped[k] == m,
                None => forall|j: int| 0 <= j < n ==> !is_wanted(core, #[trigger] mapped[j], want),
            }
        }),
    decreases n,
{
    let wanted = |m: MappedFileView| is_wanted(core, m, want);
    if n > 0 {
        lemma_first_candidate(core, mapped, want, n - 1);
        let x = mapped[n - 1];
        law_libc_is_told_by_its_name(x.path);
        let list = locate::candidates_among(mapped, n - 1);
        let before = locate::first_match(core, list, want, 0);
        let after = locate::first_match(core, locate::candidates_among(mapped, n), want, 0);
        if locate::is_candidate(x) {
            let front = mapped.take(n - 1);
            lemma_among_take(mapped, n - 1);
            locate::law_candidates_are_the_libc_mappings(front);
            lemma_first_of_placed(core, list, x, want);
        }
        if let Some(m) = before {
            let k = choose|k: int| #[trigger]
                is_lowest(mapped, wanted, n - 1, k) && mapped[k] == m;
            if after == before {
                assert(is_lowest(mapped, wanted, n, k));
            } else {
                assert(after == Some(x));
                assert(is_lowest(mapped, wanted, n, n - 1));
            }
        } else if after is Some {
            assert(after == Some(x));
            assert(is_lowest(mapped, wanted, n, n - 1));
        }
    }
}

proof fn lemma_among_take(mapped: Seq<MappedFileView>, n: int)
    requires
        0 <= n <= mapped.len(),
    ensures
        locate::candidates(mapped.take(n)) == locate::candidates_among(mapped, n),
    decreases n,
{
    lemma_among_agrees(mapped.take(n), mapped, n);
}

proof fn lemma_among_agrees(a: Seq<MappedFileView>, b: Seq<MappedFileView>, n: int)
    requires
        0 <= n <= a.len(),
        n <= b.len(),
        forall|k: int| 0 <= k < n ==> a[k] == b[k],
    ensures
        locate::candidates_among(a, n) == locate::candidates_among(b, n),
    decreases n,
{
    if n > 0 {
        lemma_among_agrees(a, b, n - 1);
    }
}

/// Of several mappings of a libc with the identity, the lowest is taken, and of those that
/// start at one address the one that the core lists first.
pub proof fn law_first_of_the_lowest_is_located(core: Elf<'_>, want: IdentityView, k: int)
    ensures
        ({
            let mapped = locate::mappings(core);
            let wanted = |m: MappedFileView| is_wanted(core, m, want);
            is_lowest(mapped, wanted, mapped.len() as int, k) ==> locate::found_by_identity(
                core,
                want,
            ) == Ok::<LocatedLibcView, error::ErrorView>(
                LocatedLibcView {
                    load_addr: mapped[k].start,
                    path: mapped[k].path,
                    verified: true,
                },
            )
        }),
{
    let mapped = locate::mappings(core);
    let wanted = |m: MappedFileView| is_wanted(core, m, want);
    let n: int = mapped.len() as int;
    lemma_first_candidate(core, mapped, want, n);
    if is_lowest(mapped, wanted, n, k) {
        assert(wanted(mapped[k]));
        if let Some(m) = locate::first_match(core, locate::candidates(mapped), want, 0) {
            let l = choose|l: int| #[trigger] is_lowest(mapped, wanted, n, l) && mapped[l] == m;
            assert(wanted(mapped[l]));
            assert(k == l);
        }
    }
}

proof fn lemma_forced(mapped: Seq<MappedFileView>, path: Seq<char>, n: int)
    requires
        0 <= n <= mapped.len(),
    ensures
        ({
            let named = |m: MappedFileView|
                m.file_offset == 0 && locate::stripped(m.path) == locate::stripped(path);
            match locate::forced_among(mapped, path, n) {
                Some(m) => exists|k: int| #[trigger]
                    is_lowest(mapped, named, n, k) && mapped[k] == m,
                None => forall|j: int| 0 <= j < n ==> !named(#[trigger] mapped[j]),
            }
        }),
    decreases n,
{
    let named = |m: MappedFileView|
        m.file_offset == 0 && locate::stripped(m.path) == locate::stripped(path);
    if n > 0 {
        lemma_forced(mapped, path, n - 1);
        let before = locate::forced_among(mapped, path, n - 1);
        let after = locate::forced_among(mapped, path, n);
        if let Some(m) = before {
            let k = choose|k: int| #[trigger] is_lowest(mapped, named, n - 1, k) && mapped[k] == m;
            if named(mapped[n - 1]) && mapped[n - 1].start < m.start {
                assert(is_lowest(mapped, named, n, n - 1));
            } else {
                assert(after == before);
                assert(is_lowest(mapped, named, n, k));
            }
        } else if named(mapped[n - 1]) {
            assert(is_lowest(mapped, named, n, n - 1));
        }
    }
}

/// Of several mappings under a forced path the lowest is taken, and of those that start at
/// one address the one that the core lists first.
pub proof fn law_first_of_the_lowest_is_forced(core: Elf<'_>, path: Seq<char>, k: int)
    ensures
        ({
            let mapped = locate::mappings(core);
            let named = |m: MappedFileView|
                m.file_offset == 0 && locate::stripped(m.path) == locate::stripped(path);
            is_lowest(mapped, named, mapped.len() as int, k) ==> locate::found_by_path(core, path)
                == Ok::<LocatedLibcView, error::ErrorView>(
                LocatedLibcView {
                    load_addr: mapped[k].start,
                    path: mapped[k].path,
                    verified: false,
                },
            )
        }),
{
    let mapped = locate::mappings(core);
    let named = |m: MappedFileView|
        m.file_offset == 0 && locate::stripped(m.path) == locate::stripped(path);
    let n: int = mapped.len() as int;
    lemma_forced(mapped, path, n);
    if is_lowest(mapped, named, n, k) {
        assert(named(mapped[k]));
        if let Some(m) = locate::forced(mapped, path) {
            let l = choose|l: int| #[trigger] is_lowest(mapped, named, n, l) && mapped[l] == m;
            assert(named(mapped[l]));
            assert(k == l);
        }
    }
}

} // verus!
