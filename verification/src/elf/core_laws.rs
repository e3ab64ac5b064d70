//! What the notes of a core dump say of its threads and of its mapped files.

use vstd::prelude::*;

use crate::arch::Arch;
use crate::error;
use crate::text;

use super::coredump;
use super::coredump::{MappedFileView, Thread, ThreadScan};
use super::notes::NoteView;

verus! {

/// A note that describes a thread: of type one, by the name `CORE`.
pub open spec fn is_status(note: NoteView) -> bool {
    note.note_type == 1 && note.name == "CORE"@
}

/// How many of the notes describe a thread.
pub open spec fn statuses(list: Seq<NoteView>) -> nat
    decreases list.len(),
{
    if list.len() == 0 {
        0
    } else {
        statuses(list.drop_last()) + if is_status(list.last()) {
            1nat
        } else {
            0nat
        }
    }
}

/// A thread has the registers that its status note holds; the thread pointer only where
/// that note has one.
pub open spec fn is_thread_of<A: Arch + ?Sized>(thread: Thread, note: NoteView, arch: &A) -> bool {
    arch.prstatus(note.desc) matches Ok(regs) && {
        &&& thread.pc == regs.pc
        &&& thread.sp == regs.sp
        &&& thread.thread_id == regs.thread_id
        &&& regs.tp != 0 ==> thread.tp == regs.tp
    }
}

/// The threads of `scan` are those of the first `i` notes.
spec fn scanned<A: Arch + ?Sized>(
    scan: ThreadScan,
    all: Seq<NoteView>,
    i: int,
    arch: &A,
) -> bool {
    &&& scan.threads.len() == statuses(all.take(i))
    &&& forall|k: int|
        0 <= k < i && is_status(#[trigger] all[k]) ==> {
            &&& statuses(all.take(k)) < scan.threads.len()
            &&& is_thread_of(scan.threads[statuses(all.take(k)) as int], all[k], arch)
        }
}

proof fn lemma_scanned<A: Arch + ?Sized>(
    scan: ThreadScan,
    all: Seq<NoteView>,
    i: int,
    arch: &A,
)
    requires
        0 <= i <= all.len(),
        scanned(scan, all, i, arch),
    ensures
        match coredump::threads_from(scan, all, i, arch) {
            Ok(threads) => scanned(
                ThreadScan { threads, pending: None },
                all,
                all.len() as int,
                arch,
            ),
            Err(e) => exists|k: int|
                i <= k < all.len() && is_status(#[trigger] all[k]) && arch.prstatus(all[k].desc)
                    == Err::<crate::arch::ThreadRegs, error::ErrorView>(e) && forall|j: int|
                    i <= j < k && is_status(#[trigger] all[j]) ==> arch.prstatus(all[j].desc)
                        is Ok,
        },
    decreases all.len() - i,
{
    if i < all.len() {
        let note = all[i];
        assert(all.take(i + 1).drop_last() =~= all.take(i));
        assert(all.take(i + 1).last() == note);
        assert(coredump::is_prstatus(note) == is_status(note));
        match scan.with_note(note, arch) {
            Err(e) => {
                assert(is_status(all[i]));
            },
            Ok(next) => {
                assert forall|k: int| 0 <= k < i + 1 && is_status(#[trigger] all[k]) implies {
                    &&& statuses(all.take(k)) < next.threads.len()
                    &&& is_thread_of(next.threads[statuses(all.take(k)) as int], all[k], arch)
                } by {
                    if k < i {
                        assert(is_thread_of(
                            scan.threads[statuses(all.take(k)) as int],
                            all[k],
                            arch,
                        ));
                    }
                }
                lemma_scanned(next, all, i + 1, arch);
                let r = coredump::threads_from(next, all, i + 1, arch);
                assert(coredump::threads_from(scan, all, i, arch) == r);
                if let Err(e) = r {
                    let k = choose|k: int|
                        i + 1 <= k < all.len() && is_status(#[trigger] all[k]) && arch.prstatus(
                            all[k].desc,
                        ) == Err::<crate::arch::ThreadRegs, error::ErrorView>(e) && forall|j: int|
                            i + 1 <= j < k && is_status(#[trigger] all[j]) ==> arch.prstatus(
                                all[j].desc,
                            ) is Ok;
                    assert(is_status(all[k]));
                    assert forall|j: int| i <= j < k && is_status(#[trigger] all[j]) implies
                        arch.prstatus(all[j].desc) is Ok by {}
                }
            },
        }
    } else {
        assert(all.take(i) =~= all);
    }
}

/// The threads of a core are those of its status notes, in their order, each with the
/// registers that its own note holds. They cannot be told exactly where a status note is
/// broken, and then the first such note says why.
pub proof fn law_threads_are_those_of_their_notes<A: Arch + ?Sized>(all: Seq<NoteView>, arch: &A)
    ensures
        match coredump::threads_of(all, arch) {
            Ok(threads) => {
                &&& threads.len() == statuses(all)
                &&& forall|k: int|
                    0 <= k < all.len() && is_status(#[trigger] all[k]) ==> {
                        &&& statuses(all.take(k)) < threads.len()
                        &&& is_thread_of(threads[statuses(all.take(k)) as int], all[k], arch)
                    }
            },
            Err(e) => exists|k: int|
                0 <= k < all.len() && is_status(#[trigger] all[k]) && arch.prstatus(all[k].desc)
                    == Err::<crate::arch::ThreadRegs, error::ErrorView>(e) && forall|j: int|
                    0 <= j < k && is_status(#[trigger] all[j]) ==> arch.prstatus(all[j].desc)
                        is Ok,
        },
{
    let start = ThreadScan { threads: Seq::empty(), pending: None };
    assert(all.take(0) =~= Seq::empty());
    lemma_scanned(start, all, 0, arch);
    assert(all.take(all.len() as int) =~= all);
}

/// A note that carries the thread pointer, where the architecture keeps it in one.
pub open spec fn is_pointer<A: Arch + ?Sized>(note: NoteView, arch: &A) -> bool {
    &&& !is_status(note)
    &&& arch.tls_note() == Some(note.note_type)
    &&& note.name == "CORE"@ || note.name == "LINUX"@
}

/// A thread that is not the last of a scan, or has its pointer, is final.
proof fn lemma_kept<A: Arch + ?Sized>(
    scan: ThreadScan,
    all: Seq<NoteView>,
    i: int,
    arch: &A,
    n: int,
)
    requires
        0 <= i <= all.len(),
        0 <= n < scan.threads.len(),
        n < scan.threads.len() - 1 || scan.threads[n].tp != 0,
    ensures
        coredump::threads_from(scan, all, i, arch) matches Ok(threads) ==> n < threads.len()
            && threads[n] == scan.threads[n],
    decreases all.len() - i,
{
    if i < all.len() {
        if let Ok(next) = scan.with_note(all[i], arch) {
            lemma_kept(next, all, i + 1, arch, n);
        }
    }
}

/// The scan of the notes up to `i`, and the threads found from there.
proof fn lemma_scan_prefix<A: Arch + ?Sized>(
    scan: ThreadScan,
    all: Seq<NoteView>,
    i: int,
    upto: int,
    arch: &A,
) -> (there: ThreadScan)
    requires
        0 <= i <= upto <= all.len(),
        coredump::threads_from(scan, all, i, arch) is Ok,
        scanned(scan, all, i, arch),
    ensures
        coredump::threads_from(scan, all, i, arch) == coredump::threads_from(
            there,
            all,
            upto,
            arch,
        ),
        scanned(there, all, upto, arch),
        (forall|k: int| i <= k < upto ==> !is_status(#[trigger] all[k]) && !is_pointer(all[k], arch))
            ==> there == scan,
        scan.pending is None && (forall|k: int|
            i <= k < upto ==> !is_pointer(#[trigger] all[k], arch)) ==> there.pending is None,
    decreases upto - i,
{
    if i == upto {
        scan
    } else {
        let note = all[i];
        assert(all.take(i + 1).drop_last() =~= all.take(i));
        assert(all.take(i + 1).last() == note);
        assert(coredump::is_prstatus(note) == is_status(note));
        let next = scan.with_note(note, arch)->Ok_0;
        assert forall|k: int| 0 <= k < i + 1 && is_status(#[trigger] all[k]) implies {
            &&& statuses(all.take(k)) < next.threads.len()
            &&& is_thread_of(next.threads[statuses(all.take(k)) as int], all[k], arch)
        } by {
            if k < i {
                assert(is_thread_of(scan.threads[statuses(all.take(k)) as int], all[k], arch));
            }
        }
        lemma_scan_prefix(next, all, i + 1, upto, arch)
    }
}

/// A thread whose status note has no thread pointer has that of the pointer note behind
/// it, where no pointer note stands before its status note and none but other notes
/// stand between the two.
pub proof fn law_pointer_is_that_of_the_note_behind<A: Arch + ?Sized>(
    all: Seq<NoteView>,
    status: int,
    pointer: int,
    arch: &A,
)
    requires
        0 <= status < pointer < all.len(),
        is_status(all[status]),
        arch.prstatus(all[status].desc) matches Ok(regs) ==> regs.tp == 0,
        is_pointer(all[pointer], arch),
        arch.tls_value(all[pointer].desc) matches Some(tp) && tp != 0,
        forall|k: int|
            status < k < pointer ==> !is_status(#[trigger] all[k]) && !is_pointer(all[k], arch),
        forall|k: int| 0 <= k < status ==> !is_pointer(#[trigger] all[k], arch),
    ensures
        coredump::threads_of(all, arch) matches Ok(threads) ==> {
            &&& statuses(all.take(status)) < threads.len()
            &&& threads[statuses(all.take(status)) as int].tp == arch.tls_value(
                all[pointer].desc,
            )->0
        },
{
    if coredump::threads_of(all, arch) is Ok {
        let start = ThreadScan { threads: Seq::empty(), pending: None };
        assert(all.take(0) =~= Seq::empty());
        let there = lemma_scan_prefix(start, all, 0, status, arch);
        assert(coredump::is_prstatus(all[status]));
        assert(all.take(status + 1).drop_last() =~= all.take(status));
        let with = there.with_note(all[status], arch)->Ok_0;
        assert(scanned(with, all, status + 1, arch)) by {
            assert forall|k: int| 0 <= k < status + 1 && is_status(#[trigger] all[k]) implies {
                &&& statuses(all.take(k)) < with.threads.len()
                &&& is_thread_of(with.threads[statuses(all.take(k)) as int], all[k], arch)
            } by {
                if k < status {
                    assert(is_thread_of(
                        there.threads[statuses(all.take(k)) as int],
                        all[k],
                        arch,
                    ));
                }
            }
        }
        let before = lemma_scan_prefix(with, all, status + 1, pointer, arch);
        assert(before == with);
        assert(!coredump::is_prstatus(all[pointer]));
        let done = with.with_note(all[pointer], arch)->Ok_0;
        let n: int = statuses(all.take(status)) as int;
        lemma_kept(done, all, pointer + 1, arch, n);
    }
}

/// Zero bytes between two places.
pub open spec fn zeros(b: Seq<u8>, from: int, to: int) -> nat
    decreases to - from,
{
    if from >= to {
        0
    } else {
        zeros(b, from + 1, to) + if b[from] == 0 {
            1nat
        } else {
            0nat
        }
    }
}

proof fn lemma_zeros_add(b: Seq<u8>, from: int, mid: int, to: int)
    requires
        from <= mid <= to,
    ensures
        zeros(b, from, to) == zeros(b, from, mid) + zeros(b, mid, to),
    decreases mid - from,
{
    if from < mid {
        lemma_zeros_add(b, from + 1, mid, to);
    }
}

proof fn lemma_no_zeros(b: Seq<u8>, from: int, to: int)
    requires
        forall|k: int| from <= k < to ==> b[k] != 0,
    ensures
        zeros(b, from, to) == 0,
    decreases to - from,
{
    if from < to {
        lemma_no_zeros(b, from + 1, to);
    }
}

/// The bytes `[a, b)` are the `k`-th of the texts from `from` on, each ended by a zero
/// byte.
pub open spec fn is_text_at(desc: Seq<u8>, from: int, k: int, a: int, b: int) -> bool {
    &&& from <= a <= b < desc.len()
    &&& a == from || desc[a - 1] == 0
    &&& desc[b] == 0
    &&& zeros(desc, from, a) == k
    &&& zeros(desc, a, b) == 0
}

/// A mapping has the path that these bytes spell, or a lossy reading of them where they
/// are no text.
pub open spec fn has_path(file: MappedFileView, bytes: Seq<u8>) -> bool {
    &&& vstd::utf8::valid_utf8(bytes) ==> file.path == vstd::utf8::decode_utf8(bytes)
    &&& !vstd::utf8::valid_utf8(bytes) ==> file.path == text::lossy(bytes)
}

/// Bytes of a word of the target.
pub open spec fn word_size(wide: bool) -> int {
    if wide {
        8
    } else {
        4
    }
}

proof fn lemma_triples(desc: Seq<u8>, wide: bool, off: int, n: nat)
    requires
        0 <= off,
        off + 3 * coredump::word_bytes(wide) * n <= desc.len(),
    ensures
        ({
            let word = coredump::word_bytes(wide);
            let r = coredump::triples_from(desc, wide, off, n);
            &&& r.len() == n
            &&& forall|k: int|
                0 <= k < n ==> {
                    &&& super::word_le_at(desc, off + 3 * word * k, wide) == Some(
                        (#[trigger] r[k]).0,
                    )
                    &&& super::word_le_at(desc, off + 3 * word * k + word, wide) == Some(r[k].1)
                    &&& super::word_le_at(desc, off + 3 * word * k + 2 * word, wide) == Some(
                        r[k].2,
                    )
                }
        }),
    decreases n,
{
    let word = coredump::word_bytes(wide);
    if n > 0 {
        let rest = coredump::triples_from(desc, wide, off + 3 * word, (n - 1) as nat);
        assert(3 * word * n == 3 * word + 3 * word * (n - 1)) by (nonlinear_arith);
        assert(3 * word * (n - 1) >= 0) by (nonlinear_arith)
            requires
                word >= 0,
                n >= 1,
        ;
        lemma_triples(desc, wide, off + 3 * word, (n - 1) as nat);
        let r = coredump::triples_from(desc, wide, off, n);
        assert(super::word_le_at(desc, off, wide) is Some);
        assert(super::word_le_at(desc, off + word, wide) is Some);
        assert(super::word_le_at(desc, off + 2 * word, wide) is Some);
        assert(r.len() == n);
        assert forall|k: int| 0 <= k < n implies {
            &&& super::word_le_at(desc, off + 3 * word * k, wide) == Some((#[trigger] r[k]).0)
            &&& super::word_le_at(desc, off + 3 * word * k + word, wide) == Some(r[k].1)
            &&& super::word_le_at(desc, off + 3 * word * k + 2 * word, wide) == Some(r[k].2)
        } by {
            if k > 0 {
                assert(r[k] == rest[k - 1]);
                assert(3 * word * k == 3 * word + 3 * word * (k - 1)) by (nonlinear_arith);
            } else {
                assert(3 * word * k == 0) by (nonlinear_arith)
                    requires
                        k == 0,
                ;
            }
        }
    }
}

proof fn lemma_paths(desc: Seq<u8>, triples: Seq<(u64, u64, u64)>, off: int)
    requires
        0 <= off <= desc.len(),
    ensures
        ({
            let r = coredump::with_paths(desc, triples, off);
            let texts = zeros(desc, off, desc.len() as int);
            &&& r.len() == if triples.len() < texts {
                triples.len()
            } else {
                texts
            }
            &&& forall|k: int|
                0 <= k < r.len() ==> {
                    &&& (#[trigger] r[k]).start == triples[k].0
                    &&& r[k].end == triples[k].1
                    &&& r[k].file_offset == triples[k].2
                    &&& exists|a: int, b: int| #[trigger]
                        is_text_at(desc, off, k, a, b) && has_path(r[k], desc.subrange(a, b))
                }
        }),
    decreases triples.len(),
{
    let len: int = desc.len() as int;
    let nul = super::nul_from(desc, off);
    super::lemma_nul_from(desc, off);
    lemma_no_zeros(desc, off, nul);
    lemma_zeros_add(desc, off, nul, len);
    let r = coredump::with_paths(desc, triples, off);
    if triples.len() > 0 && nul < len {
        let rest = coredump::with_paths(desc, triples.drop_first(), nul + 1);
        lemma_paths(desc, triples.drop_first(), nul + 1);
        assert(zeros(desc, nul, len) == 1 + zeros(desc, nul + 1, len));
        assert forall|k: int| 0 <= k < r.len() implies {
            &&& (#[trigger] r[k]).start == triples[k].0
            &&& r[k].end == triples[k].1
            &&& r[k].file_offset == triples[k].2
            &&& exists|a: int, b: int| #[trigger]
                is_text_at(desc, off, k, a, b) && has_path(r[k], desc.subrange(a, b))
        } by {
            if k == 0 {
                assert(is_text_at(desc, off, 0, off, nul));
                assert(has_path(r[0], desc.subrange(off, nul)));
            } else {
                assert(r[k] == rest[k - 1]);
                let (a, b) = choose|a: int, b: int| #[trigger]
                    is_text_at(desc, nul + 1, k - 1, a, b) && has_path(
                        rest[k - 1],
                        desc.subrange(a, b),
                    );
                lemma_zeros_add(desc, off, nul, a);
                assert(zeros(desc, nul, a) == 1 + zeros(desc, nul + 1, a));
                assert(is_text_at(desc, off, k, a, b));
            }
        }
    } else if nul >= len {
        assert(zeros(desc, len, len) == 0);
    }
}

/// A note on mapped files holds, in words of the target, the number of files, the page
/// size and for each file where its mapping starts and ends and its offset in the file;
/// behind all these, their paths in the same order, each ended by a zero byte. As many
/// files are listed as are counted, have a path and are not beyond a hundred thousand.
pub proof fn law_mapped_files_are_as_noted(desc: Seq<u8>, wide: bool, count: u64)
    requires
        super::word_le_at(desc, 0, wide) == Some(count),
    ensures
        ({
            let files = coredump::files_in(desc, wide);
            let word = word_size(wide);
            let from = (2 + 3 * count) * word;
            let texts = zeros(desc, from, desc.len() as int);
            &&& from > desc.len() ==> files.len() == 0
            &&& from <= desc.len() ==> {
                &&& files.len() <= count && files.len() <= 100_000 && files.len() <= texts
                &&& files.len() == count || files.len() == 100_000 || files.len() == texts
            }
            &&& forall|k: int|
                0 <= k < files.len() ==> {
                    &&& super::word_le_at(desc, (2 + 3 * k) * word, wide) == Some(
                        (#[trigger] files[k]).start,
                    )
                    &&& super::word_le_at(desc, (3 + 3 * k) * word, wide) == Some(files[k].end)
                    &&& super::word_le_at(desc, (4 + 3 * k) * word, wide) == Some(
                        files[k].file_offset,
                    )
                    &&& exists|a: int, b: int| #[trigger]
                        is_text_at(desc, from, k, a, b) && has_path(files[k], desc.subrange(a, b))
                }
        }),
{
    let word = word_size(wide);
    assert(word == coredump::word_bytes(wide));
    let from = (2 + 3 * count) * word;
    assert(from == 2 * word + 3 * word * count) by (nonlinear_arith)
        requires
            from == (2 + 3 * count) * word,
    ;
    let n = if count <= 100_000 {
        count as nat
    } else {
        100_000nat
    };
    if from <= desc.len() {
        assert(3 * word * n <= 3 * word * count) by (nonlinear_arith)
            requires
                n <= count,
                word >= 0,
        ;
        assert(from >= 0) by (nonlinear_arith)
            requires
                from == (2 + 3 * count) * word,
                word >= 0,
                count >= 0,
        ;
        lemma_triples(desc, wide, 2 * word, n);
        let triples = coredump::triples_from(desc, wide, 2 * word, n);
        lemma_paths(desc, triples, from);
        let files = coredump::files_in(desc, wide);
        assert(files == coredump::with_paths(desc, triples, from));
        assert forall|k: int| 0 <= k < files.len() implies {
            &&& super::word_le_at(desc, (2 + 3 * k) * word, wide) == Some(
                (#[trigger] files[k]).start,
            )
            &&& super::word_le_at(desc, (3 + 3 * k) * word, wide) == Some(files[k].end)
            &&& super::word_le_at(desc, (4 + 3 * k) * word, wide) == Some(files[k].file_offset)
        } by {
            assert(triples[k].0 == files[k].start);
            assert((2 + 3 * k) * word == 2 * word + 3 * word * k) by (nonlinear_arith);
            assert((3 + 3 * k) * word == 2 * word + 3 * word * k + word) by (nonlinear_arith);
            assert((4 + 3 * k) * word == 2 * word + 3 * word * k + 2 * word) by (nonlinear_arith);
        }
    }
}

proof fn lemma_file_note(all: Seq<NoteView>, i: int, k: int)
    requires
        0 <= i <= k <= all.len(),
        forall|j: int| 0 <= j < k ==> (#[trigger] all[j]).note_type != 0x4649_4c45,
        k < all.len() ==> all[k].note_type == 0x4649_4c45,
    ensures
        coredump::file_note_from(all, i) == if k < all.len() {
            Some(all[k].desc)
        } else {
            None
        },
    decreases k - i,
{
    if i < k {
        assert(all[i].note_type != 0x4649_4c45);
        lemma_file_note(all, i + 1, k);
    }
}

/// The mapped files of a core are those of its first note whose type spells `FILE`; a
/// core without such a note has none.
pub proof fn law_first_file_note_counts(all: Seq<NoteView>, wide: bool, k: int)
    requires
        0 <= k <= all.len(),
        forall|j: int| 0 <= j < k ==> (#[trigger] all[j]).note_type != 0x4649_4c45,
        k < all.len() ==> all[k].note_type == 0x4649_4c45,
    ensures
        k < all.len() ==> coredump::files_of(all, wide) == coredump::files_in(all[k].desc, wide),
        k == all.len() ==> coredump::files_of(all, wide).len() == 0,
        k < all.len() && super::word_le_at(all[k].desc, 0, wide) is None ==> coredump::files_of(
            all,
            wide,
        ).len() == 0,
{
    lemma_file_note(all, 0, k);
}

} // verus!
