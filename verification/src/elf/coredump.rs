//! Pull thread and mapping information out of a core dump's notes.

use vstd::prelude::*;

use crate::arch::Arch;
use crate::error;
use crate::error::Result;
use crate::text;

use super::notes;
use super::notes::Note;
use super::{find_nul, read_word};

verus! {

pub const NT_PRSTATUS: u32 = 1;

pub const NT_FILE: u32 = 0x4649_4c45;

/// Upper bound on `NT_FILE` entries, so a corrupt `count` can't spin us.
pub const MAX_MAPPINGS: u64 = 100_000;

#[derive(Debug, Clone, Copy)]
pub struct Thread {
    pub pc: u64,
    pub sp: u64,
    pub tp: u64,
    pub thread_id: i32,
}

#[derive(Debug)]
pub struct MappedFile {
    pub start: u64,
    pub end: u64,
    pub file_offset: u64,
    pub path: String,
}

impl Clone for MappedFile {
    fn clone(&self) -> (copy: MappedFile)
        ensures
            copy@ == self@,
    {
        MappedFile {
            start: self.start,
            end: self.end,
            file_offset: self.file_offset,
            path: self.path.clone(),
        }
    }
}

/// A [`MappedFile`] with its path as a character sequence.
#[verifier::ext_equal]
pub struct MappedFileView {
    pub start: u64,
    pub end: u64,
    pub file_offset: u64,
    pub path: Seq<char>,
}

impl View for MappedFile {
    type V = MappedFileView;

    open spec fn view(&self) -> MappedFileView {
        MappedFileView {
            start: self.start,
            end: self.end,
            file_offset: self.file_offset,
            path: self.path@,
        }
    }
}

/// The views of mappings, in order.
pub open spec fn views(files: Seq<MappedFile>) -> Seq<MappedFileView> {
    files.map_values(|f: MappedFile| f@)
}

/// The threads met so far, and a thread pointer that came before its thread.
pub struct ThreadScan {
    pub threads: Seq<Thread>,
    pub pending: Option<u64>,
}

/// A note that describes a thread.
pub open spec fn is_prstatus(note: notes::NoteView) -> bool {
    note.note_type == NT_PRSTATUS && note.name == "CORE"@
}

/// A note that carries a thread pointer.
pub open spec fn is_tls_note<A: Arch + ?Sized>(note: notes::NoteView, arch: &A) -> bool {
    &&& arch.tls_note() == Some(note.note_type)
    &&& note.name == "CORE"@ || note.name == "LINUX"@
}

impl ThreadScan {
    /// With a thread's registers. A thread pointer that is not among them is the
    /// pending one, which is then used up.
    pub open spec fn with_thread(self, regs: crate::arch::ThreadRegs) -> ThreadScan {
        let takes_pending = regs.tp == 0 && self.pending is Some;
        ThreadScan {
            threads: self.threads.push(
                Thread {
                    pc: regs.pc,
                    sp: regs.sp,
                    tp: if takes_pending {
                        self.pending->0
                    } else {
                        regs.tp
                    },
                    thread_id: regs.thread_id,
                },
            ),
            pending: if takes_pending {
                None
            } else {
                self.pending
            },
        }
    }

    /// With a thread pointer: that of the last thread, unless it has one already.
    pub open spec fn with_tp(self, tp: u64) -> ThreadScan {
        if self.threads.len() > 0 && self.threads.last().tp == 0 {
            ThreadScan {
                threads: self.threads.drop_last().push(Thread { tp, ..self.threads.last() }),
                ..self
            }
        } else {
            ThreadScan { pending: Some(tp), ..self }
        }
    }

    /// With one more note.
    pub open spec fn with_note<A: Arch + ?Sized>(
        self,
        note: notes::NoteView,
        arch: &A,
    ) -> std::result::Result<ThreadScan, error::ErrorView> {
        if is_prstatus(note) {
            match arch.prstatus(note.desc) {
                Err(e) => Err(e),
                Ok(regs) => Ok(self.with_thread(regs)),
            }
        } else if is_tls_note(note, arch) {
            match arch.tls_value(note.desc) {
                Some(tp) => Ok(self.with_tp(tp)),
                None => Ok(self),
            }
        } else {
            Ok(self)
        }
    }
}

/// The threads of a list of notes, read on from note `i`. The first malformed
/// thread note fails the whole list.
pub open spec fn threads_from<A: Arch + ?Sized>(
    scan: ThreadScan,
    all: Seq<notes::NoteView>,
    i: int,
    arch: &A,
) -> std::result::Result<Seq<Thread>, error::ErrorView>
    decreases all.len() - i,
{
    if i < 0 || i >= all.len() {
        Ok(scan.threads)
    } else {
        match scan.with_note(all[i], arch) {
            Err(e) => Err(e),
            Ok(next) => threads_from(next, all, i + 1, arch),
        }
    }
}

/// The threads of a core dump.
pub open spec fn threads_of<A: Arch + ?Sized>(
    all: Seq<notes::NoteView>,
    arch: &A,
) -> std::result::Result<Seq<Thread>, error::ErrorView> {
    threads_from(ThreadScan { threads: Seq::empty(), pending: None }, all, 0, arch)
}

/// Reconstruct the threads from `NT_PRSTATUS` notes (plus the arch's TLS note
/// where the thread pointer lives separately, e.g. `NT_ARM_TLS` on aarch64).
///
/// A malformed prstatus is a hard failure: it means the notes section itself is
/// damaged, and thread info underpins tcache / attached-thread analysis, so a
/// half-known thread set isn't worth pressing on with. Within a thread's note
/// group prstatus comes first, so a following TLS note fills the thread we just
/// pushed; `pending_tp` covers the rare reversed ordering.
pub fn threads<A: Arch + ?Sized>(notes: &[Note<'_>], arch: &A) -> (r: Result<Vec<Thread>>)
    ensures
        r matches Ok(v) ==> threads_of(notes::views(notes@), arch) == Ok::<
            Seq<Thread>,
            error::ErrorView,
        >(v@),
        r matches Err(e) ==> threads_of(notes::views(notes@), arch) == Err::<
            Seq<Thread>,
            error::ErrorView,
        >(e@),
{
    let mut threads: Vec<Thread> = Vec::new();
    let mut pending_tp: Option<u64> = None;
    let tls_note: Option<u32> = arch.tls_note_type();
    let ghost all = notes::views(notes@);
    let mut i: usize = 0;
    while i < notes.len()
        invariant
            i <= notes@.len(),
            all == notes::views(notes@),
            tls_note == arch.tls_note(),
            threads_from(
                ThreadScan { threads: threads@, pending: pending_tp },
                all,
                i as int,
                arch,
            ) == threads_of(all, arch),
        decreases notes@.len() - i,
    {
        let note: &Note<'_> = &notes[i];
        assert(all[i as int] == note@);
        let is_tls: bool = match tls_note {
            Some(wanted) => wanted == note.note_type,
            None => false,
        };
        if note.note_type == NT_PRSTATUS && text::str_equal(note.name, "CORE") {
            let regs = match arch.parse_prstatus(note.desc) {
                Ok(regs) => regs,
                Err(e) => return Err(e),
            };
            let mut tp: u64 = regs.tp;
            if tp == 0 {
                if let Some(pending) = pending_tp {
                    tp = pending;
                    pending_tp = None;
                }
            }
            threads.push(Thread { pc: regs.pc, sp: regs.sp, tp, thread_id: regs.thread_id });
        } else if is_tls && (text::str_equal(note.name, "CORE") || text::str_equal(
            note.name,
            "LINUX",
        )) {
            if let Some(tp) = arch.parse_tls_note(note.desc) {
                let n: usize = threads.len();
                if n > 0 && threads[n - 1].tp == 0 {
                    let last: Thread = threads[n - 1];
                    let ghost before = threads@;
                    threads.set(n - 1, Thread { tp, ..last });
                    assert(threads@ =~= before.drop_last().push(Thread { tp, ..last }));
                } else {
                    pending_tp = Some(tp);
                }
            }
        }
        i = i + 1;
    }
    Ok(threads)
}

/// What has been met when all of these notes were read.
pub open spec fn scan_over<A: Arch + ?Sized>(
    scan: ThreadScan,
    all: Seq<notes::NoteView>,
    arch: &A,
) -> std::result::Result<ThreadScan, error::ErrorView>
    decreases all.len(),
{
    if all.len() == 0 {
        Ok(scan)
    } else {
        match scan.with_note(all[0], arch) {
            Err(e) => Err(e),
            Ok(next) => scan_over(next, all.drop_first(), arch),
        }
    }
}

proof fn lemma_scan_over<A: Arch + ?Sized>(
    scan: ThreadScan,
    all: Seq<notes::NoteView>,
    i: int,
    arch: &A,
)
    requires
        0 <= i <= all.len(),
    ensures
        threads_from(scan, all, i, arch) == match scan_over(scan, all.skip(i), arch) {
            Ok(end) => Ok::<Seq<Thread>, error::ErrorView>(end.threads),
            Err(e) => Err(e),
        },
    decreases all.len() - i,
{
    if i < all.len() {
        assert(all.skip(i).drop_first() =~= all.skip(i + 1));
        if let Ok(next) = scan.with_note(all[i], arch) {
            lemma_scan_over(next, all, i + 1, arch);
        }
    }
}

proof fn lemma_scan_in_parts<A: Arch + ?Sized>(
    scan: ThreadScan,
    a: Seq<notes::NoteView>,
    b: Seq<notes::NoteView>,
    arch: &A,
)
    ensures
        scan_over(scan, a + b, arch) == match scan_over(scan, a, arch) {
            Err(e) => Err::<ThreadScan, error::ErrorView>(e),
            Ok(next) => scan_over(next, b, arch),
        },
    decreases a.len(),
{
    if a.len() == 0 {
        assert(a + b =~= b);
    } else {
        assert((a + b).drop_first() =~= a.drop_first() + b);
        if let Ok(next) = scan.with_note(a[0], arch) {
            lemma_scan_in_parts(next, a.drop_first(), b, arch);
        }
    }
}

proof fn lemma_scan_of_one<A: Arch + ?Sized>(scan: ThreadScan, note: notes::NoteView, arch: &A)
    ensures
        scan_over(scan, seq![note], arch) == scan.with_note(note, arch),
{
    assert(seq![note].drop_first() =~= Seq::empty());
    reveal_with_fuel(scan_over, 2);
}

/// A note that says nothing of threads.
pub open spec fn is_other_note<A: Arch + ?Sized>(note: notes::NoteView, arch: &A) -> bool {
    !is_prstatus(note) && !is_tls_note(note, arch)
}

proof fn lemma_scan_of_others<A: Arch + ?Sized>(
    scan: ThreadScan,
    others: Seq<notes::NoteView>,
    arch: &A,
)
    requires
        forall|k: int| 0 <= k < others.len() ==> is_other_note(#[trigger] others[k], arch),
    ensures
        scan_over(scan, others, arch) == Ok::<ThreadScan, error::ErrorView>(scan),
    decreases others.len(),
{
    if others.len() > 0 {
        assert(is_other_note(others[0], arch));
        assert forall|k: int| 0 <= k < others.drop_first().len() implies is_other_note(
            #[trigger] others.drop_first()[k],
            arch,
        ) by {
            assert(is_other_note(others[k + 1], arch));
        }
        lemma_scan_of_others(scan, others.drop_first(), arch);
    }
}

impl ThreadScan {
    /// No thread waits for its pointer, and no pointer for its thread.
    pub open spec fn is_settled(self) -> bool {
        &&& self.pending is None
        &&& self.threads.len() > 0 ==> self.threads.last().tp != 0
    }
}

/// The order of a thread's two notes does not matter: where the notes before have
/// left neither a thread without its pointer nor a pointer without its thread, a
/// thread-pointer note gives the same threads in front of its status note as behind
/// it, whatever other notes stand between and whatever follows.
pub proof fn law_note_order_does_not_matter<A: Arch + ?Sized>(
    before: Seq<notes::NoteView>,
    status: notes::NoteView,
    between: Seq<notes::NoteView>,
    pointer: notes::NoteView,
    behind: Seq<notes::NoteView>,
    arch: &A,
)
    requires
        is_prstatus(status),
        is_tls_note(pointer, arch),
        !is_prstatus(pointer),
        forall|k: int| 0 <= k < between.len() ==> is_other_note(#[trigger] between[k], arch),
        scan_over(ThreadScan { threads: Seq::empty(), pending: None }, before, arch) matches Ok(
            scan,
        ) ==> scan.is_settled(),
    ensures
        threads_of(before + seq![status] + between + seq![pointer] + behind, arch) == threads_of(
            before + seq![pointer] + between + seq![status] + behind,
            arch,
        ),
{
    let start = ThreadScan { threads: Seq::empty(), pending: None };
    let usual = before + seq![status] + between + seq![pointer] + behind;
    let reversed = before + seq![pointer] + between + seq![status] + behind;
    assert(usual.skip(0) =~= usual);
    assert(reversed.skip(0) =~= reversed);
    lemma_scan_over(start, usual, 0, arch);
    lemma_scan_over(start, reversed, 0, arch);
    lemma_scan_in_parts(start, before + seq![status] + between + seq![pointer], behind, arch);
    lemma_scan_in_parts(start, before + seq![pointer] + between + seq![status], behind, arch);
    lemma_scan_in_parts(start, before + seq![status] + between, seq![pointer], arch);
    lemma_scan_in_parts(start, before + seq![pointer] + between, seq![status], arch);
    lemma_scan_in_parts(start, before + seq![status], between, arch);
    lemma_scan_in_parts(start, before + seq![pointer], between, arch);
    lemma_scan_in_parts(start, before, seq![status], arch);
    lemma_scan_in_parts(start, before, seq![pointer], arch);
    if let Ok(scan) = scan_over(start, before, arch) {
        lemma_scan_of_one(scan, status, arch);
        lemma_scan_of_one(scan, pointer, arch);
        if let Ok(next) = scan.with_note(pointer, arch) {
            lemma_scan_of_others(next, between, arch);
            lemma_scan_of_one(next, status, arch);
        }
        if let Ok(next) = scan.with_note(status, arch) {
            lemma_scan_of_others(next, between, arch);
            lemma_scan_of_one(next, pointer, arch);
            if let (Ok(regs), Some(tp)) = (arch.prstatus(status.desc), arch.tls_value(pointer.desc)) {
                let pushed = scan.with_thread(regs);
                assert(pushed.with_tp(tp).threads =~= scan.with_tp(tp).with_thread(regs).threads);
            }
        }
    }
}

/// Bytes of a machine word.
pub open spec fn word_bytes(is_64bit: bool) -> int {
    if is_64bit {
        8
    } else {
        4
    }
}

/// The descriptor of the first `NT_FILE` note, from note `i` on.
pub open spec fn file_note_from(all: Seq<notes::NoteView>, i: int) -> Option<Seq<u8>>
    decreases all.len() - i,
{
    if i < 0 || i >= all.len() {
        None
    } else if all[i].note_type == NT_FILE {
        Some(all[i].desc)
    } else {
        file_note_from(all, i + 1)
    }
}

/// Up to `n` triples of words (start, end, file offset) from `off` on, as far as
/// the bytes reach.
pub open spec fn triples_from(desc: Seq<u8>, is_64bit: bool, off: int, n: nat) -> Seq<
    (u64, u64, u64),
>
    decreases n,
{
    let word = word_bytes(is_64bit);
    if n == 0 {
        Seq::empty()
    } else {
        match (
            super::word_le_at(desc, off, is_64bit),
            super::word_le_at(desc, off + word, is_64bit),
            super::word_le_at(desc, off + 2 * word, is_64bit),
        ) {
            (Some(start), Some(end), Some(file_offset)) => seq![(start, end, file_offset)]
                + triples_from(desc, is_64bit, off + 3 * word, (n - 1) as nat),
            _ => Seq::empty(),
        }
    }
}

/// The text of a path: what its bytes encode, or a lossy reading of them.
pub open spec fn path_text(bytes: Seq<u8>) -> Seq<char> {
    if vstd::utf8::valid_utf8(bytes) {
        vstd::utf8::decode_utf8(bytes)
    } else {
        text::lossy(bytes)
    }
}

/// The mappings at `triples`, each with one of the NUL-terminated paths from `off`
/// on, as far as there are paths.
pub open spec fn with_paths(desc: Seq<u8>, triples: Seq<(u64, u64, u64)>, off: int) -> Seq<
    MappedFileView,
>
    decreases triples.len(),
{
    let nul = super::nul_from(desc, off);
    if triples.len() == 0 || off > desc.len() || nul >= desc.len() {
        Seq::empty()
    } else {
        seq![
            MappedFileView {
                start: triples[0].0,
                end: triples[0].1,
                file_offset: triples[0].2,
                path: path_text(desc.subrange(off, nul)),
            },
        ] + with_paths(desc, triples.drop_first(), nul + 1)
    }
}

/// The mappings that an `NT_FILE` descriptor lists: the number of entries, the
/// page size, a triple of words per entry, a path per entry. The paths stand behind
/// the triples of all entries, so a descriptor cut among the triples has none.
pub open spec fn files_in(desc: Seq<u8>, is_64bit: bool) -> Seq<MappedFileView> {
    let word = word_bytes(is_64bit);
    match super::word_le_at(desc, 0, is_64bit) {
        None => Seq::empty(),
        Some(count) => {
            let n = if count <= MAX_MAPPINGS {
                count as nat
            } else {
                MAX_MAPPINGS as nat
            };
            let triples = triples_from(desc, is_64bit, 2 * word, n);
            with_paths(desc, triples, 2 * word + 3 * word * count)
        },
    }
}

/// A descriptor cut among its triples lists nothing: what is left of a triple is
/// never taken for a path.
pub proof fn law_cut_table_lists_nothing(desc: Seq<u8>, is_64bit: bool)
    requires
        super::word_le_at(desc, 0, is_64bit) matches Some(count) && 2 * word_bytes(is_64bit) + 3
            * word_bytes(is_64bit) * count > desc.len(),
    ensures
        files_in(desc, is_64bit) == Seq::<MappedFileView>::empty(),
{
}

/// The file-backed mappings of a core dump.
pub open spec fn files_of(all: Seq<notes::NoteView>, is_64bit: bool) -> Seq<MappedFileView> {
    match file_note_from(all, 0) {
        Some(desc) => files_in(desc, is_64bit),
        None => Seq::empty(),
    }
}

fn find_file_note<'a>(notes: &[Note<'a>]) -> (r: Option<&'a [u8]>)
    ensures
        r matches Some(desc) ==> file_note_from(notes::views(notes@), 0) == Some(desc@),
        r is None ==> file_note_from(notes::views(notes@), 0) is None,
{
    let mut i: usize = 0;
    while i < notes.len()
        invariant
            i <= notes@.len(),
            file_note_from(notes::views(notes@), i as int) == file_note_from(
                notes::views(notes@),
                0,
            ),
        decreases notes@.len() - i,
    {
        assert(notes::views(notes@)[i as int] == notes@[i as int]@);
        if notes[i].note_type == NT_FILE {
            return Some(notes[i].desc);
        }
        i = i + 1;
    }
    None
}

/// Where the paths start, where the descriptor reaches that far.
fn paths_start(desc: &[u8], is_64bit: bool, count: u64) -> (r: Option<usize>)
    ensures
        r matches Some(off) ==> off == 2 * word_bytes(is_64bit) + 3 * word_bytes(is_64bit)
            * count && off <= desc@.len(),
        r is None <==> 2 * word_bytes(is_64bit) + 3 * word_bytes(is_64bit) * count
            > desc@.len(),
{
    let (header, entry): (usize, usize) = if is_64bit {
        (16, 24)
    } else {
        (8, 12)
    };
    proof {
        let word = word_bytes(is_64bit);
        assert(3 * word * count == entry * count && entry * count >= 0) by (nonlinear_arith)
            requires
                3 * word == entry,
        ;
        if desc@.len() >= header {
            let room = desc@.len() - header;
            assert(count > room / entry as int <==> entry * count > room) by (nonlinear_arith)
                requires
                    entry > 0,
                    room >= 0,
            ;
        }
    }
    if desc.len() < header || count > ((desc.len() - header) / entry) as u64 {
        return None;
    }
    Some(header + entry * (count as usize))
}

/// The first of the fixed-size triples.
fn read_triples(desc: &[u8], is_64bit: bool, count: u64) -> (r: Vec<(u64, u64, u64)>)
    requires
        count <= MAX_MAPPINGS,
    ensures
        r@ == triples_from(desc@, is_64bit, 2 * word_bytes(is_64bit), count as nat),
{
    let word: usize = if is_64bit {
        8
    } else {
        4
    };
    let mut ranges: Vec<(u64, u64, u64)> = Vec::new();
    let mut off: usize = 2 * word;  // skip count + page_size
    let mut k: u64 = 0;
    let ghost whole = triples_from(desc@, is_64bit, 2 * word_bytes(is_64bit), count as nat);
    assert(ranges@ + whole =~= whole);
    while k < count
        invariant_except_break
            ranges@ + triples_from(desc@, is_64bit, off as int, (count - k) as nat) == whole,
        invariant
            k <= count <= MAX_MAPPINGS,
            word == word_bytes(is_64bit),
            ranges@.len() == k,
            off == 2 * word + 3 * word * k,
        ensures
            ranges@ == whole,
        decreases count - k,
    {
        proof {
            assert(3 * word * k <= 24 * 100_000) by (nonlinear_arith)
                requires
                    0 <= word <= 8,
                    0 <= k <= 100_000,
            ;
            assert(3 * word * (k + 1) == 3 * word * k + 3 * word) by (nonlinear_arith);
            assert(ranges@ + Seq::<(u64, u64, u64)>::empty() =~= ranges@);
        }
        match (
            read_word(desc, off, is_64bit),
            read_word(desc, off + word, is_64bit),
            read_word(desc, off + 2 * word, is_64bit),
        ) {
            (Some(start), Some(end), Some(file_offset)) => {
                let ghost before = ranges@;
                let ghost rest = triples_from(
                    desc@,
                    is_64bit,
                    off + 3 * word,
                    (count - k - 1) as nat,
                );
                ranges.push((start, end, file_offset));
                assert(before + (seq![(start, end, file_offset)] + rest) =~= ranges@ + rest);
            },
            _ => break,
        }
        off = off + 3 * word;
        k = k + 1;
    }
    ranges
}

/// Parse the `NT_FILE` note into the process's file-backed mappings.
///
/// Descriptor layout: `count`, `page_size`, then `count` × `(start, end,
/// file_offset)`, then `count` NUL-terminated path strings, all in target word
/// size. Missing note or truncation yields whatever parsed cleanly, never an
/// error.
pub fn mapped_files(notes: &[Note<'_>], is_64bit: bool) -> (r: Result<Vec<MappedFile>>)
    ensures
        r matches Ok(files) && views(files@) == files_of(notes::views(notes@), is_64bit),
{
    let mut files: Vec<MappedFile> = Vec::new();
    assert(views(files@) =~= Seq::empty());
    let desc: &[u8] = match find_file_note(notes) {
        Some(desc) => desc,
        None => return Ok(files),
    };
    let count: u64 = match read_word(desc, 0, is_64bit) {
        Some(count) => count,
        None => return Ok(files),
    };
    // The paths stand behind all triples: without those there is no path to read.
    let mut off: usize = match paths_start(desc, is_64bit, count) {
        Some(off) => off,
        None => return Ok(files),
    };
    // Fixed-size triples first, so we can then stream the variable-length paths.
    let ranges: Vec<(u64, u64, u64)> = read_triples(
        desc,
        is_64bit,
        if count <= MAX_MAPPINGS {
            count
        } else {
            MAX_MAPPINGS
        },
    );
    let ghost whole = with_paths(desc@, ranges@, off as int);
    let mut i: usize = 0;
    assert(ranges@.skip(0) =~= ranges@);
    assert(views(files@) + whole =~= whole);
    while i < ranges.len()
        invariant_except_break
            views(files@) + with_paths(desc@, ranges@.skip(i as int), off as int) == whole,
        invariant
            i <= ranges@.len(),
        ensures
            views(files@) == whole,
        decreases ranges@.len() - i,
    {
        let ghost before = files@;
        let ghost left = ranges@.skip(i as int);
        let ghost at = off as int;
        proof {
            assert(left.drop_first() =~= ranges@.skip(i + 1));
            assert(views(files@) + Seq::<MappedFileView>::empty() =~= views(files@));
        }
        let path: String = match read_cstr(desc, &mut off) {
            Some(path) => path,
            None => break,
        };
        let (start, end, file_offset): (u64, u64, u64) = ranges[i];
        files.push(MappedFile { start, end, file_offset, path });
        i = i + 1;
        proof {
            let rest = with_paths(desc@, ranges@.skip(i as int), off as int);
            assert(files@ =~= before.push(files@.last()));
            assert(views(files@) =~= views(before).push(files@.last()@));
            assert(views(before) + (seq![files@.last()@] + rest) =~= views(files@) + rest);
        }
    }
    proof {
        assert(views(files@) + Seq::<MappedFileView>::empty() =~= views(files@));
    }
    Ok(files)
}

/// Read a NUL-terminated string starting at `*off`, advancing past the NUL.
/// Returns `None` if there's no terminator before the buffer ends.
pub fn read_cstr(buf: &[u8], off: &mut usize) -> (r: Option<String>)
    ensures
        r is Some <==> *old(off) <= buf@.len() && super::nul_from(buf@, *old(off) as int)
            < buf@.len(),
        r matches Some(s) ==> {
            &&& s@ == path_text(
                buf@.subrange(*old(off) as int, super::nul_from(buf@, *old(off) as int)),
            )
            &&& *final(off) == super::nul_from(buf@, *old(off) as int) + 1
        },
        r is None ==> *final(off) == *old(off),
{
    let start: usize = *off;
    if start > buf.len() {
        return None;
    }
    proof {
        super::lemma_nul_from(buf@, start as int);
    }
    match find_nul(buf, start) {
        Some(nul) => {
            let s: String = text::lossy_text(&buf[start..nul]);
            *off = nul + 1;
            Some(s)
        },
        None => None,
    }
}

/// How many of the notes from index `i` on describe a thread.
pub open spec fn prstatus_count(all: Seq<notes::NoteView>, i: int) -> nat
    decreases all.len() - i,
{
    if i < 0 || i >= all.len() {
        0
    } else {
        prstatus_count(all, i + 1) + if is_prstatus(all[i]) {
            1nat
        } else {
            0nat
        }
    }
}

/// Every thread note gives one thread, and nothing else does.
pub proof fn law_one_thread_per_prstatus<A: Arch + ?Sized>(all: Seq<notes::NoteView>, arch: &A)
    ensures
        threads_of(all, arch) matches Ok(threads) ==> threads.len() == prstatus_count(all, 0),
{
    lemma_threads_from(ThreadScan { threads: Seq::empty(), pending: None }, all, 0, arch);
}

proof fn lemma_threads_from<A: Arch + ?Sized>(
    scan: ThreadScan,
    all: Seq<notes::NoteView>,
    i: int,
    arch: &A,
)
    ensures
        threads_from(scan, all, i, arch) matches Ok(threads) ==> threads.len()
            == scan.threads.len() + prstatus_count(all, i),
    decreases all.len() - i,
{
    if 0 <= i < all.len() {
        if let Ok(next) = scan.with_note(all[i], arch) {
            lemma_threads_from(next, all, i + 1, arch);
        }
    }
}

} // verus!
