//! Recoverable diagnostics.
//!
//! A [`Problem`] is something that went wrong *within* an otherwise usable
//! analysis: a corrupted chunk, a fastbin that loops back on itself, a thread
//! whose TLS could not be resolved. These never abort the run: they are
//! collected into the report's `problems` array so the output still carries
//! whatever could be recovered. Hard failures (can't open the core, can't find
//! libc) are [`crate::error::Error`] instead.

use vstd::prelude::*;

verus! {

/// One recoverable issue encountered during analysis.
#[derive(Debug, PartialEq, Eq)]
pub enum Problem {
    /// A required glibc symbol (`main_arena` / `mp_`) was not found.
    MissingSymbol { symbol: String },
    /// A wanted symbol was defined more than once with differing values; the
    /// first definition was used. Not fatal, but the reference libc is odd.
    DuplicateSymbol { symbol: String },
    /// The TP-offset relocation needed to reach TLS variables is absent, so
    /// tcache / thread_arena data cannot be read.
    MissingRelocation,
    /// `e_machine` is not one of the architectures we implement.
    UnsupportedArch { machine: u16 },
    /// The reference libc has no GNU build-id note, so identity fell back to a
    /// content hash.
    MissingBuildId,
    /// glibc version detection failed; safe-linking was assumed on by default.
    UnknownGlibcVersion,
    /// DWARF was present, but its malloc layout was unusable. The built-in
    /// layout was kept.
    DwarfLayoutFallback { reason: String },
    /// A fastbin chain looped or exceeded the traversal cap.
    FastbinCycleDetected { arena: u32, bin_index: u32 },
    /// Reading a fastbin head or a chain node failed; the bin count is partial.
    /// The `address` disambiguates the head-slot case from a mid-chain node.
    FastbinChunkReadFailed { arena: u32, bin_index: u32, address: String },
    /// A tcache chain looped or exceeded the traversal cap. Carries `thread_id`,
    /// not `arena`: tcache is thread-local and does not belong to any arena.
    TcacheCycleDetected { thread_id: i32, bin_index: u32 },
    /// Reading a tcache head or a chain node failed; the bin is partial.
    TcacheChunkReadFailed { thread_id: i32, bin_index: u32, address: String },
    /// The same chunk was found in two tcache bins / threads, which indicates a
    /// double-free. The first owner is kept; this records the collision.
    DuplicateTcacheEntry { thread_id: i32, bin_index: u32, address: String },
    /// A chunk address was not backed by file content in any loaded segment.
    ChunkReadFailed { arena: u32, address: String },
    /// A heap / list walk stopped early because of corruption, an out-of-region
    /// address, or a traversal cap. The result is partial.
    HeapWalkTruncated { arena: u32, reason: String },
    /// During accumulation a size bucket's fastbin count exceeded its allocated
    /// count: the books don't balance, usually a symptom of a truncated walk.
    StatsInconsistent { arena: u32, size: u64, reason: String },
    /// A thread's TLS could not be resolved, so its tcache / arena binding is
    /// missing.
    ThreadTlsResolutionFailed { thread_id: i32 },
}

/// A [`Problem`] with its texts as character sequences.
pub enum ProblemView {
    MissingSymbol { symbol: Seq<char> },
    DuplicateSymbol { symbol: Seq<char> },
    MissingRelocation,
    UnsupportedArch { machine: u16 },
    MissingBuildId,
    UnknownGlibcVersion,
    DwarfLayoutFallback { reason: Seq<char> },
    FastbinCycleDetected { arena: u32, bin_index: u32 },
    FastbinChunkReadFailed { arena: u32, bin_index: u32, address: Seq<char> },
    TcacheCycleDetected { thread_id: i32, bin_index: u32 },
    TcacheChunkReadFailed { thread_id: i32, bin_index: u32, address: Seq<char> },
    DuplicateTcacheEntry { thread_id: i32, bin_index: u32, address: Seq<char> },
    ChunkReadFailed { arena: u32, address: Seq<char> },
    HeapWalkTruncated { arena: u32, reason: Seq<char> },
    StatsInconsistent { arena: u32, size: u64, reason: Seq<char> },
    ThreadTlsResolutionFailed { thread_id: i32 },
}

impl View for Problem {
    type V = ProblemView;

    open spec fn view(&self) -> ProblemView {
        match *self {
            Problem::MissingSymbol { symbol } => ProblemView::MissingSymbol { symbol: symbol@ },
            Problem::DuplicateSymbol { symbol } => ProblemView::DuplicateSymbol { symbol: symbol@ },
            Problem::MissingRelocation => ProblemView::MissingRelocation,
            Problem::UnsupportedArch { machine } => ProblemView::UnsupportedArch { machine },
            Problem::MissingBuildId => ProblemView::MissingBuildId,
            Problem::UnknownGlibcVersion => ProblemView::UnknownGlibcVersion,
            Problem::DwarfLayoutFallback { reason } => ProblemView::DwarfLayoutFallback {
                reason: reason@,
            },
            Problem::FastbinCycleDetected { arena, bin_index } => {
                ProblemView::FastbinCycleDetected { arena, bin_index }
            },
            Problem::FastbinChunkReadFailed { arena, bin_index, address } => {
                ProblemView::FastbinChunkReadFailed { arena, bin_index, address: address@ }
            },
            Problem::TcacheCycleDetected { thread_id, bin_index } => {
                ProblemView::TcacheCycleDetected { thread_id, bin_index }
            },
            Problem::TcacheChunkReadFailed { thread_id, bin_index, address } => {
                ProblemView::TcacheChunkReadFailed { thread_id, bin_index, address: address@ }
            },
            Problem::DuplicateTcacheEntry { thread_id, bin_index, address } => {
                ProblemView::DuplicateTcacheEntry { thread_id, bin_index, address: address@ }
            },
            Problem::ChunkReadFailed { arena, address } => ProblemView::ChunkReadFailed {
                arena,
                address: address@,
            },
            Problem::HeapWalkTruncated { arena, reason } => ProblemView::HeapWalkTruncated {
                arena,
                reason: reason@,
            },
            Problem::StatsInconsistent { arena, size, reason } => ProblemView::StatsInconsistent {
                arena,
                size,
                reason: reason@,
            },
            Problem::ThreadTlsResolutionFailed { thread_id } => {
                ProblemView::ThreadTlsResolutionFailed { thread_id }
            },
        }
    }
}

impl ProblemView {
    /// A missing required symbol or an unsupported architecture.
    pub open spec fn fatal(self) -> bool {
        self is MissingSymbol || self is UnsupportedArch
    }
}

/// The views of a list of problems, in order.
pub open spec fn views(problems: Seq<Problem>) -> Seq<ProblemView> {
    problems.map_values(|p: Problem| p@)
}

/// Appending a problem appends its view.
pub broadcast proof fn lemma_views_push(problems: Seq<Problem>, p: Problem)
    ensures
        #[trigger] views(problems.push(p)) == views(problems).push(p@),
{
    assert(views(problems.push(p)) =~= views(problems).push(p@));
}

/// The views of a concatenation are the concatenated views.
pub broadcast proof fn lemma_views_add(a: Seq<Problem>, b: Seq<Problem>)
    ensures
        #[trigger] views(a + b) == views(a) + views(b),
{
    assert(views(a + b) =~= views(a) + views(b));
}

impl Problem {
    /// Whether this problem makes the whole analysis untrustworthy.
    ///
    /// Only missing required symbols and an unsupported architecture qualify:
    /// without `main_arena`/`mp_` there is nothing to walk, and without a known
    /// arch we can't parse threads at all. Everything else degrades gracefully
    /// (partial data + this diagnostic), so it must not flip `supported` to
    /// false. Revisit this list when adding architectures or glibc variants.
    pub fn is_fatal(&self) -> (fatal: bool)
        ensures
            fatal == self@.fatal(),
    {
        match self {
            Problem::MissingSymbol { .. } => true,
            Problem::UnsupportedArch { .. } => true,
            _ => false,
        }
    }
}

impl Clone for Problem {
    fn clone(&self) -> (copy: Problem)
        ensures
            copy@ == self@,
    {
        match self {
            Problem::MissingSymbol { symbol } => Problem::MissingSymbol { symbol: symbol.clone() },
            Problem::DuplicateSymbol { symbol } => {
                Problem::DuplicateSymbol { symbol: symbol.clone() }
            },
            Problem::MissingRelocation => Problem::MissingRelocation,
            Problem::UnsupportedArch { machine } => Problem::UnsupportedArch { machine: *machine },
            Problem::MissingBuildId => Problem::MissingBuildId,
            Problem::UnknownGlibcVersion => Problem::UnknownGlibcVersion,
            Problem::DwarfLayoutFallback { reason } => {
                Problem::DwarfLayoutFallback { reason: reason.clone() }
            },
            Problem::FastbinCycleDetected { arena, bin_index } => {
                Problem::FastbinCycleDetected { arena: *arena, bin_index: *bin_index }
            },
            Problem::FastbinChunkReadFailed { arena, bin_index, address } => {
                Problem::FastbinChunkReadFailed {
                    arena: *arena,
                    bin_index: *bin_index,
                    address: address.clone(),
                }
            },
            Problem::TcacheCycleDetected { thread_id, bin_index } => {
                Problem::TcacheCycleDetected { thread_id: *thread_id, bin_index: *bin_index }
            },
            Problem::TcacheChunkReadFailed { thread_id, bin_index, address } => {
                Problem::TcacheChunkReadFailed {
                    thread_id: *thread_id,
                    bin_index: *bin_index,
                    address: address.clone(),
                }
            },
            Problem::DuplicateTcacheEntry { thread_id, bin_index, address } => {
                Problem::DuplicateTcacheEntry {
                    thread_id: *thread_id,
                    bin_index: *bin_index,
                    address: address.clone(),
                }
            },
            Problem::ChunkReadFailed { arena, address } => {
                Problem::ChunkReadFailed { arena: *arena, address: address.clone() }
            },
            Problem::HeapWalkTruncated { arena, reason } => {
                Problem::HeapWalkTruncated { arena: *arena, reason: reason.clone() }
            },
            Problem::StatsInconsistent { arena, size, reason } => {
                Problem::StatsInconsistent { arena: *arena, size: *size, reason: reason.clone() }
            },
            Problem::ThreadTlsResolutionFailed { thread_id } => {
                Problem::ThreadTlsResolutionFailed { thread_id: *thread_id }
            },
        }
    }
}

/// An empty list of problems.
pub fn none() -> (problems: Vec<Problem>)
    ensures
        problems@.len() == 0,
        views(problems@) == Seq::<ProblemView>::empty(),
{
    let problems: Vec<Problem> = Vec::new();
    assert(views(problems@) =~= Seq::<ProblemView>::empty());
    problems
}

/// A list with one problem.
pub fn one(problem: Problem) -> (problems: Vec<Problem>)
    ensures
        views(problems@) == seq![problem@],
{
    let mut problems: Vec<Problem> = Vec::new();
    problems.push(problem);
    assert(views(problems@) =~= seq![problem@]);
    problems
}

/// Put one list of problems behind another.
pub fn extend(problems: &mut Vec<Problem>, more: Vec<Problem>)
    ensures
        views(final(problems)@) == views(old(problems)@) + views(more@),
{
    let ghost before = problems@;
    let mut more = more;
    proof {
        lemma_views_add(before, more@);
    }
    problems.append(&mut more);
}

/// Put a problem behind a list of them.
pub fn push(problems: &mut Vec<Problem>, problem: Problem)
    ensures
        views(final(problems)@) == views(old(problems)@).push(problem@),
{
    proof {
        lemma_views_push(problems@, problem);
    }
    problems.push(problem);
}

/// A copy of a list of problems.
pub fn clone_all(problems: &Vec<Problem>) -> (copy: Vec<Problem>)
    ensures
        views(copy@) == views(problems@),
{
    let mut out: Vec<Problem> = Vec::new();
    let mut i: usize = 0;
    while i < problems.len()
        invariant
            i <= problems.len(),
            views(out@) == views(problems@.take(i as int)),
        decreases problems.len() - i,
    {
        out.push(problems[i].clone());
        proof {
            lemma_views_push(out@.drop_last(), out@.last());
            lemma_views_push(problems@.take(i as int), problems@[i as int]);
            assert(out@.drop_last().push(out@.last()) =~= out@);
            assert(problems@.take(i + 1) =~= problems@.take(i as int).push(problems@[i as int]));
        }
        i = i + 1;
    }
    assert(problems@.take(i as int) =~= problems@);
    out
}

} // verus!
