//! Find the reference libc's load address inside the core and confirm it's the
//! same library we're reading symbols from.

use vstd::prelude::*;

use sha2::{Digest, Sha256};

use crate::elf::coredump;
use crate::elf::coredump::{mapped_files, MappedFile, MappedFileView};
use crate::elf::notes;
use crate::elf::Elf;
use crate::error;
use crate::error::{Error, Result};
use crate::text;

verus! {

/// How we recognise "the same libc". A GNU build-id when the library has one,
/// otherwise a hash of the first page as a weaker fallback.
#[derive(Debug, PartialEq, Eq)]
pub enum Identity {
    BuildId(Vec<u8>),
    ContentHash([u8; 32]),
}

/// An [`Identity`] as a byte sequence.
pub enum IdentityView {
    BuildId(Seq<u8>),
    ContentHash(Seq<u8>),
}

impl View for Identity {
    type V = IdentityView;

    open spec fn view(&self) -> IdentityView {
        match *self {
            Identity::BuildId(id) => IdentityView::BuildId(id@),
            Identity::ContentHash(hash) => IdentityView::ContentHash(hash@),
        }
    }
}

impl Clone for Identity {
    fn clone(&self) -> (copy: Identity)
        ensures
            copy@ == self@,
    {
        match self {
            Identity::BuildId(id) => Identity::BuildId(vstd::slice::slice_to_vec(id)),
            Identity::ContentHash(hash) => Identity::ContentHash(*hash),
        }
    }
}

/// Bytes hashed for the content-hash fallback / compared in the core.
pub const IDENTITY_WINDOW: usize = 4096;

/// What `sha2::Sha256::digest` makes of bytes.
pub uninterp spec fn sha256_of(data: Seq<u8>) -> Seq<u8>;

/// The SHA-256 of bytes, by `sha2::Sha256::digest`: 32 bytes that depend on the
/// data alone.
#[verifier::external_body]
fn digest(data: &[u8]) -> (r: [u8; 32])
    ensures
        r@ == sha256_of(data@),
{
    Sha256::digest(data).into()
}

pub fn sha256(data: &[u8]) -> (r: [u8; 32])
    ensures
        r@ == sha256_of(data@),
{
    digest(data)
}

/// The identity of a libc: its build-id, else the hash of its first page.
pub open spec fn identity_of(elf: Elf<'_>) -> IdentityView {
    match notes::build_id_from(notes::all_notes(elf.tables.program_headers@, elf.data@), 0) {
        Some(id) => IdentityView::BuildId(id),
        None => IdentityView::ContentHash(
            sha256_of(
                if elf.data@.len() < IDENTITY_WINDOW {
                    elf.data@
                } else {
                    elf.data@.take(IDENTITY_WINDOW as int)
                },
            ),
        ),
    }
}

/// Compute the identity of the reference libc.
///
/// Prefers the build-id note; only falls back to a content hash when the
/// library has none. The caller checks for the fallback and records
/// `Problem::MissingBuildId` itself: this function doesn't signal it, to keep
/// the return type a plain `Identity`.
pub fn compute_identity(elf: &Elf<'_>) -> (r: Identity)
    ensures
        r@ == identity_of(*elf),
{
    if let Some(id) = notes::build_id(&elf.notes()) {
        return Identity::BuildId(id);
    }
    let bytes: &[u8] = elf.bytes();
    if bytes.len() < IDENTITY_WINDOW {
        Identity::ContentHash(sha256(bytes))
    } else {
        let window: &[u8] = &bytes[0..IDENTITY_WINDOW];
        assert(window@ =~= elf.data@.take(IDENTITY_WINDOW as int));
        Identity::ContentHash(sha256(window))
    }
}

pub struct LocatedLibc {
    pub load_addr: u64,
    pub path: String,
    /// `true` when the mapping was matched against the reference identity;
    /// `false` when `--force-libc` bypassed the check.
    pub verified: bool,
}

/// A [`LocatedLibc`] with its path as a character sequence.
#[verifier::ext_equal]
pub struct LocatedLibcView {
    pub load_addr: u64,
    pub path: Seq<char>,
    pub verified: bool,
}

impl View for LocatedLibc {
    type V = LocatedLibcView;

    open spec fn view(&self) -> LocatedLibcView {
        LocatedLibcView {
            load_addr: self.load_addr,
            path: self.path@,
            verified: self.verified,
        }
    }
}

/// What locating a libc gives, as a view.
pub open spec fn located(r: Result<LocatedLibc>) -> std::result::Result<
    LocatedLibcView,
    error::ErrorView,
> {
    match r {
        Ok(libc) => Ok(libc@),
        Err(e) => Err(e@),
    }
}

pub trait LibcLocator {
    /// The libc that this locator finds in a core.
    spec fn found(&self, core: Elf<'_>, want: IdentityView) -> std::result::Result<
        LocatedLibcView,
        error::ErrorView,
    >;

    fn locate(&self, core: &Elf<'_>, want: &Identity) -> (r: Result<LocatedLibc>)
        ensures
            located(r) == self.found(*core, want@),
    ;
}

/// The file mappings of a core.
pub open spec fn mappings(core: Elf<'_>) -> Seq<MappedFileView> {
    coredump::files_of(
        notes::all_notes(core.tables.program_headers@, core.data@),
        core.tables.is_64,
    )
}

/// The first candidate, from index `i` on, that has the wanted identity.
pub open spec fn first_match(
    core: Elf<'_>,
    candidates: Seq<MappedFileView>,
    want: IdentityView,
    i: int,
) -> Option<MappedFileView>
    decreases candidates.len() - i,
{
    if i < 0 || i >= candidates.len() {
        None
    } else if has_identity(core, candidates[i].start, want) {
        Some(candidates[i])
    } else {
        first_match(core, candidates, want, i + 1)
    }
}

/// Locate libc via the core's `NT_FILE` mappings, verifying each candidate
/// against `want`.
pub struct NtFileLocator;

/// What a search among the mappings of a core gives.
pub open spec fn found_by_identity(core: Elf<'_>, want: IdentityView) -> std::result::Result<
    LocatedLibcView,
    error::ErrorView,
> {
    let all = candidates(mappings(core));
    match first_match(core, all, want, 0) {
        Some(m) => Ok(LocatedLibcView { load_addr: m.start, path: m.path, verified: true }),
        None => Err(
            error::ErrorView::LibcNotFound(
                "tried "@ + text::decimal(all.len())
                    + " libc mapping(s), none matched the reference identity"@,
            ),
        ),
    }
}

impl LibcLocator for NtFileLocator {
    open spec fn found(&self, core: Elf<'_>, want: IdentityView) -> std::result::Result<
        LocatedLibcView,
        error::ErrorView,
    > {
        found_by_identity(core, want)
    }

    fn locate(&self, core: &Elf<'_>, want: &Identity) -> Result<LocatedLibc> {
        let mapped = match mapped_files(&core.notes(), core.is_64bit()) {
            Ok(mapped) => mapped,
            Err(e) => return Err(e),
        };
        let candidates = libc_candidates(&mapped);
        let ghost all = coredump::views(candidates@);
        let mut tried: usize = 0;
        while tried < candidates.len()
            invariant
                tried <= candidates@.len(),
                all == coredump::views(candidates@),
                first_match(*core, all, want@, tried as int) == first_match(*core, all, want@, 0),
                all == self::candidates(mappings(*core)),
            decreases candidates@.len() - tried,
        {
            let m: &MappedFile = &candidates[tried];
            assert(all[tried as int] == m@);
            tried = tried + 1;
            if identity_matches(core, m.start, want) {
                return Ok(
                    LocatedLibc {
                        load_addr: m.start,
                        path: m.path.clone(),
                        verified: true,
                    },
                );
            }
        }
        Err(
            Error::LibcNotFound(
                text::concat3(
                    "tried ",
                    &text::decimal_string(tried as u64),
                    " libc mapping(s), none matched the reference identity",
                ),
            ),
        )
    }
}

/// Trust an operator-supplied path: match the mapping by name, skip the identity
/// check entirely.
pub struct ForcePathLocator(pub String);

/// What a search for a path among the mappings of a core gives.
pub open spec fn found_by_path(core: Elf<'_>, wanted: Seq<char>) -> std::result::Result<
    LocatedLibcView,
    error::ErrorView,
> {
    match forced(mappings(core), wanted) {
        Some(m) => Ok(LocatedLibcView { load_addr: m.start, path: m.path, verified: false }),
        None => Err(
            error::ErrorView::LibcNotFound(
                "no mapping matches forced path '"@ + wanted + "'"@,
            ),
        ),
    }
}

impl LibcLocator for ForcePathLocator {
    open spec fn found(&self, core: Elf<'_>, want: IdentityView) -> std::result::Result<
        LocatedLibcView,
        error::ErrorView,
    > {
        found_by_path(core, self.0@)
    }

    fn locate(&self, core: &Elf<'_>, _want: &Identity) -> Result<LocatedLibc> {
        let mapped = match mapped_files(&core.notes(), core.is_64bit()) {
            Ok(mapped) => mapped,
            Err(e) => return Err(e),
        };
        match force_select(&mapped, &self.0) {
            Some(m) => Ok(
                LocatedLibc { load_addr: m.start, path: m.path.clone(), verified: false },
            ),
            None => Err(
                Error::LibcNotFound(
                    text::concat3("no mapping matches forced path '", &self.0, "'"),
                ),
            ),
        }
    }
}

/// Where the last component of the first `n` characters of a path starts.
pub open spec fn base_start(path: Seq<char>, n: int) -> int
    decreases n,
{
    if n <= 0 {
        0
    } else if path[n - 1] == '/' {
        n
    } else {
        base_start(path, n - 1)
    }
}

/// The last component of a path.
pub open spec fn base_name(path: Seq<char>) -> Seq<char> {
    path.skip(base_start(path, path.len() as int))
}

/// A path that names the C library itself.
pub open spec fn names_libc(path: Seq<char>) -> bool {
    let base = base_name(stripped(path));
    text::starts_with(base, "libc.so"@) || text::starts_with(base, "libc-"@)
}

/// Whether a mapping's path names the C library itself, matched on the basename
/// so `libcrypto.so` / `libc_malloc_debug.so` / `libcap.so` don't get picked up.
pub fn looks_like_libc(path: &str) -> (r: bool)
    ensures
        r == names_libc(path@),
{
    let chars: Vec<char> = text::chars_of(strip_deleted(path));
    let mut n: usize = chars.len();
    while n > 0 && chars[n - 1] != '/'
        invariant
            n <= chars@.len(),
            base_start(chars@, n as int) == base_start(chars@, chars@.len() as int),
        decreases n,
    {
        n = n - 1;
    }
    let base: &[char] = &chars[n..chars.len()];
    assert(base@ =~= base_name(stripped(path@)));
    text::has_prefix(base, "libc.so") || text::has_prefix(base, "libc-")
}

/// A mapping that starts with the ELF header of a libc.
pub open spec fn is_candidate(m: MappedFileView) -> bool {
    m.file_offset == 0 && names_libc(m.path)
}

/// A list, ascending by address, with one more mapping, behind those that start
/// where it does.
pub open spec fn placed(list: Seq<MappedFileView>, m: MappedFileView) -> Seq<MappedFileView>
    decreases list.len(),
{
    if list.len() == 0 || list.last().start <= m.start {
        list.push(m)
    } else {
        placed(list.drop_last(), m).push(list.last())
    }
}

/// The candidates among the first `n` mappings, ascending by address.
pub open spec fn candidates_among(mapped: Seq<MappedFileView>, n: int) -> Seq<MappedFileView>
    decreases n,
{
    if n <= 0 {
        Seq::empty()
    } else if is_candidate(mapped[n - 1]) {
        placed(candidates_among(mapped, n - 1), mapped[n - 1])
    } else {
        candidates_among(mapped, n - 1)
    }
}

/// The mappings that may be libc, ascending by address.
pub open spec fn candidates(mapped: Seq<MappedFileView>) -> Seq<MappedFileView> {
    candidates_among(mapped, mapped.len() as int)
}

/// Put a mapping into a list that is ascending by address.
fn place(list: &mut Vec<MappedFile>, m: MappedFile)
    ensures
        coredump::views(final(list)@) == placed(coredump::views(old(list)@), m@),
{
    let ghost all = list@;
    let ghost views = coredump::views(all);
    let mut at: usize = list.len();
    let ghost mut behind = Seq::<MappedFileView>::empty();
    assert(views.take(at as int) =~= views);
    assert(placed(views, m@) + behind =~= placed(views, m@));
    while at > 0 && list[at - 1].start > m.start
        invariant
            at <= list@.len(),
            list@ == all,
            views == coredump::views(all),
            behind == views.skip(at as int),
            placed(views.take(at as int), m@) + behind == placed(views, m@),
        decreases at,
    {
        at = at - 1;
        proof {
            let shorter = views.take(at as int);
            let longer = views.take(at + 1);
            assert(longer.drop_last() =~= shorter);
            assert(longer.last() == views[at as int]);
            assert(views[at as int] == all[at as int]@);
            let tail = seq![views[at as int]] + behind;
            assert(placed(shorter, m@).push(views[at as int]) + behind =~= placed(shorter, m@)
                + tail);
            behind = tail;
            assert(behind =~= views.skip(at as int));
        }
    }
    proof {
        let front = views.take(at as int);
        if at > 0 {
            assert(front.last() == all[at - 1]@);
        }
        assert(placed(front, m@) == front.push(m@));
        assert(coredump::views(all.insert(at as int, m)) =~= front.push(m@) + behind);
    }
    list.insert(at, m);
}

/// libc-looking mappings that start at file offset 0 (so the buffer begins with
/// the ELF header), ascending by address. The order only decides the tie-break
/// when several mappings verify; the identity check is what actually chooses.
pub fn libc_candidates(mapped: &[MappedFile]) -> (r: Vec<MappedFile>)
    ensures
        coredump::views(r@) == candidates(coredump::views(mapped@)),
{
    let ghost all = coredump::views(mapped@);
    let mut list: Vec<MappedFile> = Vec::new();
    let mut i: usize = 0;
    assert(coredump::views(list@) =~= Seq::empty());
    while i < mapped.len()
        invariant
            i <= mapped@.len(),
            all == coredump::views(mapped@),
            coredump::views(list@) == candidates_among(all, i as int),
        decreases mapped@.len() - i,
    {
        let m: &MappedFile = &mapped[i];
        assert(all[i as int] == m@);
        i = i + 1;
        if m.file_offset == 0 && looks_like_libc(&m.path) {
            place(&mut list, m.clone());
        }
    }
    list
}

/// The lowest mapping of a path among the first `n`, the first of those that
/// start there.
pub open spec fn forced_among(mapped: Seq<MappedFileView>, wanted: Seq<char>, n: int) -> Option<
    MappedFileView,
>
    decreases n,
{
    if n <= 0 {
        None
    } else {
        let best = forced_among(mapped, wanted, n - 1);
        let m = mapped[n - 1];
        if m.file_offset == 0 && stripped(m.path) == stripped(wanted) && (best is None || m.start
            < best->0.start) {
            Some(m)
        } else {
            best
        }
    }
}

/// The lowest mapping of a path.
pub open spec fn forced(mapped: Seq<MappedFileView>, wanted: Seq<char>) -> Option<MappedFileView> {
    forced_among(mapped, wanted, mapped.len() as int)
}

/// The lowest-address file-offset-0 mapping whose path (ignoring a " (deleted)"
/// suffix on either side) equals `wanted`.
pub fn force_select(mapped: &[MappedFile], wanted: &str) -> (r: Option<MappedFile>)
    ensures
        r is Some <==> forced(coredump::views(mapped@), wanted@) is Some,
        r matches Some(m) ==> m@ == forced(coredump::views(mapped@), wanted@)->0,
{
    let path: &str = strip_deleted(wanted);
    let ghost all = coredump::views(mapped@);
    let mut best: Option<usize> = None;
    let mut i: usize = 0;
    while i < mapped.len()
        invariant
            i <= mapped@.len(),
            all == coredump::views(mapped@),
            path@ == stripped(wanted@),
            best is Some <==> forced_among(all, wanted@, i as int) is Some,
            best matches Some(k) ==> k < i && all[k as int] == forced_among(
                all,
                wanted@,
                i as int,
            )->0,
        decreases mapped@.len() - i,
    {
        let m: &MappedFile = &mapped[i];
        assert(all[i as int] == m@);
        if m.file_offset == 0 && text::str_equal(strip_deleted(&m.path), path) {
            let lower: bool = match best {
                Some(k) => {
                    assert(all[k as int] == mapped@[k as int]@);
                    m.start < mapped[k].start
                },
                None => true,
            };
            if lower {
                best = Some(i);
            }
        }
        i = i + 1;
    }
    match best {
        Some(k) => {
            assert(all[k as int] == mapped@[k as int]@);
            Some(mapped[k].clone())
        },
        None => None,
    }
}

/// How much of the mapping at `start` is compared: what is left of its segment,
/// a page at most.
pub open spec fn window_at(start: u64, segment_end: u64) -> nat {
    let left = if segment_end < start {
        0
    } else {
        segment_end - start
    };
    if left > usize::MAX {
        0
    } else if left < IDENTITY_WINDOW {
        left as nat
    } else {
        IDENTITY_WINDOW as nat
    }
}

/// Whether the mapping at `start` of a core has an identity.
pub open spec fn has_identity(core: Elf<'_>, start: u64, want: IdentityView) -> bool {
    match core.bounds_at(start) {
        None => false,
        Some((_, end)) => match core.bytes_at(start, window_at(start, end)) {
            Err(_) => false,
            Ok(buf) => match want {
                IdentityView::BuildId(id) => notes::raw_build_id(buf) == Some(id),
                IdentityView::ContentHash(hash) => sha256_of(buf) == hash,
            },
        },
    }
}

/// Read the first page of the mapping at `start` and check it against `want`.
pub fn identity_matches(core: &Elf<'_>, start: u64, want: &Identity) -> (r: bool)
    ensures
        r == has_identity(*core, start, want@),
{
    let (_, end): (u64, u64) = match core.segment_bounds(start) {
        Some(bounds) => bounds,
        None => return false,
    };
    let left: u64 = end.saturating_sub(start);
    let avail: usize = if left <= usize::MAX as u64 {
        left as usize
    } else {
        0
    };
    let len: usize = if avail < IDENTITY_WINDOW {
        avail
    } else {
        IDENTITY_WINDOW
    };
    let buf: &[u8] = match core.read_bytes(start, len) {
        Ok(buf) => buf,
        Err(_) => return false,
    };
    match want {
        Identity::BuildId(id) => match notes::build_id_from_raw_buffer(buf) {
            Some(other) => text::bytes_equal(&other, id),
            None => false,
        },
        Identity::ContentHash(hash) => text::bytes_equal(&sha256(buf), hash),
    }
}

/// A path without the mark of a replaced file.
pub open spec fn stripped(path: Seq<char>) -> Seq<char> {
    if text::ends_with(path, " (deleted)"@) {
        path.take(path.len() - " (deleted)"@.len())
    } else {
        path
    }
}

/// The kernel appends " (deleted)" to a mapping's path when the file was
/// replaced after mapping (common after a package upgrade).
pub fn strip_deleted(path: &str) -> (r: &str)
    ensures
        r@ == stripped(path@),
{
    let mark: &str = " (deleted)";
    let chars: Vec<char> = text::chars_of(path);
    if text::has_suffix(&chars, mark) {
        text::head(path, chars.len() - mark.unicode_len())
    } else {
        path
    }
}

/// A list of mappings ascends by address.
pub open spec fn ascending(list: Seq<MappedFileView>) -> bool {
    forall|i: int, j: int| 0 <= i < j < list.len() ==> (#[trigger] list[i]).start <= (
    #[trigger] list[j]).start
}

/// Placing a mapping adds it and keeps the order.
proof fn lemma_placed(list: Seq<MappedFileView>, m: MappedFileView)
    requires
        ascending(list),
    ensures
        ascending(placed(list, m)),
        placed(list, m).to_multiset() =~= list.to_multiset().insert(m),
        forall|bound: u64|
            list.len() > 0 && list.last().start <= bound && m.start <= bound ==> (
            #[trigger] below(placed(list, m), bound)),
        list.len() == 0 ==> placed(list, m) == seq![m],
    decreases list.len(),
{
    broadcast use vstd::seq_lib::group_to_multiset_ensures;

    if list.len() == 0 || list.last().start <= m.start {
        assert(list.len() == 0 ==> placed(list, m) =~= seq![m]);
    } else {
        let front = list.drop_last();
        lemma_placed(front, m);
        assert(front.push(list.last()) =~= list);
        let rest = placed(front, m);
        if front.len() > 0 {
            assert(front.last() == list[list.len() - 2]);
            assert(below(rest, list.last().start));
        } else {
            assert(rest =~= seq![m]);
        }
        assert forall|i: int| 0 <= i < rest.len() implies (#[trigger] rest[i]).start
            <= list.last().start by {
            if front.len() > 0 {
                assert(below(rest, list.last().start));
            }
        }
    }
}

/// Every mapping of a list starts at `bound` or lower.
spec fn below(list: Seq<MappedFileView>, bound: u64) -> bool {
    forall|i: int| 0 <= i < list.len() ==> (#[trigger] list[i]).start <= bound
}

/// The candidates are exactly the mappings at file offset zero whose name is that
/// of a libc, each as often as it is mapped, ascending by address.
pub proof fn law_candidates_are_the_libc_mappings(mapped: Seq<MappedFileView>)
    ensures
        ascending(candidates(mapped)),
        candidates(mapped).to_multiset() == mapped.filter(
            |m: MappedFileView| is_candidate(m),
        ).to_multiset(),
{
    lemma_candidates_among(mapped, mapped.len() as int);
    assert(mapped.take(mapped.len() as int) =~= mapped);
}

proof fn lemma_candidates_among(mapped: Seq<MappedFileView>, n: int)
    requires
        0 <= n <= mapped.len(),
    ensures
        ascending(candidates_among(mapped, n)),
        candidates_among(mapped, n).to_multiset() == mapped.take(n).filter(
            |m: MappedFileView| is_candidate(m),
        ).to_multiset(),
    decreases n,
{
    broadcast use vstd::seq_lib::group_to_multiset_ensures;

    reveal(Seq::filter);
    if n > 0 {
        lemma_candidates_among(mapped, n - 1);
        assert(mapped.take(n).drop_last() =~= mapped.take(n - 1));
        if is_candidate(mapped[n - 1]) {
            lemma_placed(candidates_among(mapped, n - 1), mapped[n - 1]);
        }
    } else {
        assert(mapped.take(0).filter(|m: MappedFileView| is_candidate(m)) =~= Seq::empty());
    }
}

/// A libc that is called verified has the wanted identity; one that was forced is
/// never called verified.
pub proof fn law_verified_means_identity_matched(
    core: Elf<'_>,
    want: IdentityView,
    forced_path: Seq<char>,
)
    ensures
        found_by_identity(core, want) matches Ok(libc) ==> (libc.verified && has_identity(
            core,
            libc.load_addr,
            want,
        )),
        found_by_path(core, forced_path) matches Ok(libc) ==> !libc.verified,
{
    lemma_first_match(core, candidates(mappings(core)), want, 0);
}

proof fn lemma_first_match(
    core: Elf<'_>,
    candidates: Seq<MappedFileView>,
    want: IdentityView,
    i: int,
)
    ensures
        first_match(core, candidates, want, i) matches Some(m) ==> (has_identity(
            core,
            m.start,
            want,
        ) && candidates.contains(m)),
    decreases candidates.len() - i,
{
    if 0 <= i < candidates.len() && !has_identity(core, candidates[i].start, want) {
        lemma_first_match(core, candidates, want, i + 1);
    }
}

/// A located libc is a mapping of the core, and goes by the path that the core
/// recorded for it.
pub proof fn law_path_is_as_recorded(core: Elf<'_>, want: IdentityView, forced_path: Seq<char>)
    ensures
        found_by_identity(core, want) matches Ok(libc) ==> is_recorded(mappings(core), libc),
        found_by_path(core, forced_path) matches Ok(libc) ==> is_recorded(mappings(core), libc),
{
    let mapped = mappings(core);
    let all = candidates(mapped);
    lemma_first_match(core, all, want, 0);
    if let Some(m) = first_match(core, all, want, 0) {
        let k = choose|k: int| 0 <= k < all.len() && all[k] == m;
        lemma_candidates_are_mapped(mapped, mapped.len() as int, k);
    }
    lemma_forced_among(mapped, forced_path, mapped.len() as int);
}

/// Whether a libc is where a mapping starts and has that mapping's path.
pub open spec fn is_recorded(mapped: Seq<MappedFileView>, libc: LocatedLibcView) -> bool {
    exists|k: int|
        0 <= k < mapped.len() && (#[trigger] mapped[k]).start == libc.load_addr && mapped[k].path
            == libc.path
}

proof fn lemma_candidates_are_mapped(mapped: Seq<MappedFileView>, n: int, k: int)
    requires
        0 <= n <= mapped.len(),
        0 <= k < candidates_among(mapped, n).len(),
    ensures
        mapped.contains(candidates_among(mapped, n)[k]),
    decreases n,
{
    broadcast use vstd::seq_lib::group_to_multiset_ensures;

    let list = candidates_among(mapped, n);
    let m = list[k];
    if n > 0 {
        let before = candidates_among(mapped, n - 1);
        if is_candidate(mapped[n - 1]) {
            lemma_candidates_among(mapped, n - 1);
            lemma_placed(before, mapped[n - 1]);
            assert(list.contains(m));
            assert(list.to_multiset().count(m) > 0);
            if m != mapped[n - 1] {
                assert(before.to_multiset().count(m) > 0);
                assert(before.contains(m));
                let j = choose|j: int| 0 <= j < before.len() && before[j] == m;
                lemma_candidates_are_mapped(mapped, n - 1, j);
            }
        } else {
            lemma_candidates_are_mapped(mapped, n - 1, k);
        }
    }
}

/// A forced libc is mapped under the forced path at file offset zero, and no such
/// mapping starts lower. There is none exactly where no mapping has the path.
pub proof fn law_forced_is_the_lowest_of_its_path(mapped: Seq<MappedFileView>, wanted: Seq<char>)
    ensures
        forced(mapped, wanted) matches Some(m) ==> (mapped.contains(m) && m.file_offset == 0
            && stripped(m.path) == stripped(wanted)),
        forall|k: int|
            0 <= k < mapped.len() && (#[trigger] mapped[k]).file_offset == 0 && stripped(
                mapped[k].path,
            ) == stripped(wanted) ==> forced(mapped, wanted) is Some && forced(
                mapped,
                wanted,
            )->0.start <= mapped[k].start,
{
    lemma_forced_among(mapped, wanted, mapped.len() as int);
}

proof fn lemma_forced_among(mapped: Seq<MappedFileView>, wanted: Seq<char>, n: int)
    requires
        0 <= n <= mapped.len(),
    ensures
        forced_among(mapped, wanted, n) matches Some(m) ==> (mapped.contains(m) && m.file_offset
            == 0 && stripped(m.path) == stripped(wanted)),
        forall|k: int|
            0 <= k < n && (#[trigger] mapped[k]).file_offset == 0 && stripped(mapped[k].path)
                == stripped(wanted) ==> forced_among(mapped, wanted, n) is Some && forced_among(
                mapped,
                wanted,
                n,
            )->0.start <= mapped[k].start,
    decreases n,
{
    if n > 0 {
        lemma_forced_among(mapped, wanted, n - 1);
    }
}

} // verus!
