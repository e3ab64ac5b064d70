//! The `report` command's output model, the public JSON schema.
//!
//! Field names are the schema, so they're plain snake_case and deliberately
//! stable. The structs are built from `heap::stats` / `heap::heap_list` via the
//! constructors here, so `analyze` stays thin.

use std::collections::BTreeMap;

use vstd::prelude::*;

use crate::arith;
use crate::glibc::{DetectedLayout, VersionSource};
use crate::heap::heap_list::Heap;
use crate::heap::stats;
use crate::heap::stats::{ArenaStats, BinTally, FreeStats, SizeTally};
use crate::locate::{Identity, IdentityView, LocatedLibc, LocatedLibcView};
use crate::ordered;
use crate::problem::Problem;
use crate::text;

verus! {

/// Bump when the schema changes in a breaking way.
pub const SCHEMA_VERSION: u32 = 1;

/// Version of the tool that reports carry.
pub const TOOL_VERSION: &'static str = "0.1.0";

pub struct Report {
    pub schema_version: u32,
    pub tool_version: String,
    pub core_path: String,
    pub libc: LibcInfo,
    pub glibc_capabilities: GlibcCapabilitiesJson,
    pub problems: Vec<Problem>,
    pub arenas: Vec<ArenaReport>,
}

pub struct LibcInfo {
    pub path: String,
    pub identity: IdentityJson,
    /// `true` when the mapping was verified against the reference identity;
    /// `false` when `--force-libc` bypassed the check.
    pub verified: bool,
}

impl LibcInfo {
    /// Whether this describes a located libc with an identity.
    pub open spec fn describes(self, located: LocatedLibcView, identity: IdentityView) -> bool {
        &&& self.path@ == located.path
        &&& self.identity@ == identity_json(identity)
        &&& self.verified == located.verified
    }

    pub fn new(located: &LocatedLibc, identity: Identity) -> (info: LibcInfo)
        ensures
            info.describes(located@, identity@),
    {
        LibcInfo {
            path: located.path.clone(),
            identity: IdentityJson::from(identity),
            verified: located.verified,
        }
    }
}

pub enum IdentityJson {
    BuildId { value: String },
    ContentHash { value: String },
}

/// An [`IdentityJson`] with its text as a character sequence.
pub enum IdentityText {
    BuildId(Seq<char>),
    ContentHash(Seq<char>),
}

impl View for IdentityJson {
    type V = IdentityText;

    open spec fn view(&self) -> IdentityText {
        match *self {
            IdentityJson::BuildId { value } => IdentityText::BuildId(value@),
            IdentityJson::ContentHash { value } => IdentityText::ContentHash(value@),
        }
    }
}

/// An identity in lowercase hex.
pub open spec fn identity_json(identity: IdentityView) -> IdentityText {
    match identity {
        IdentityView::BuildId(id) => IdentityText::BuildId(text::hex_bytes(id)),
        IdentityView::ContentHash(hash) => IdentityText::ContentHash(text::hex_bytes(hash)),
    }
}

impl From<Identity> for IdentityJson {
    fn from(identity: Identity) -> (json: IdentityJson)
        ensures
            json@ == identity_json(identity@),
    {
        match identity {
            Identity::BuildId(bytes) => IdentityJson::BuildId { value: text::to_hex(&bytes) },
            Identity::ContentHash(hash) => IdentityJson::ContentHash { value: text::to_hex(&hash) },
        }
    }
}

impl vstd::std_specs::convert::FromSpecImpl<Identity> for IdentityJson {
    open spec fn obeys_from_spec() -> bool {
        false
    }

    open spec fn from_spec(identity: Identity) -> IdentityJson {
        arbitrary()
    }
}

pub struct GlibcCapabilitiesJson {
    /// `"dwarf"` when all required malloc offsets came from one validated
    /// DWARF layout; otherwise `"builtin"`.
    pub layout_source: String,
    pub has_tcache: bool,
    pub has_safe_linking: bool,
    /// `"gnu_version_d"` or `"assumed_default"`: a stable string, never a
    /// `Debug` rendering.
    pub version_source: String,
}

impl GlibcCapabilitiesJson {
    /// Whether these are the capabilities of a layout.
    pub open spec fn describes(self, layout: DetectedLayout) -> bool {
        &&& self.layout_source@ == layout.layout_source.name()
        &&& self.has_tcache == layout.capabilities.has_tcache
        &&& self.has_safe_linking == layout.capabilities.has_safe_linking
        &&& self.version_source@ == layout.capabilities.version_source.name()
    }

    pub fn from_layout(layout: &DetectedLayout) -> (json: GlibcCapabilitiesJson)
        ensures
            json.describes(*layout),
    {
        GlibcCapabilitiesJson {
            layout_source: layout.layout_source.as_str().to_owned(),
            has_tcache: layout.capabilities.has_tcache,
            has_safe_linking: layout.capabilities.has_safe_linking,
            version_source: Self::version_source_str(layout.capabilities.version_source),
        }
    }

    /// The source string on its own, for `check`.
    pub fn version_source_str(source: VersionSource) -> (s: String)
        ensures
            s@ == source.name(),
    {
        source.as_str().to_owned()
    }
}

pub struct ArenaReport {
    pub index: u32,
    pub is_main: bool,
    pub attached_threads: Vec<i32>,
    pub heaps: HeapsSummary,
    pub allocated: AllocatedSummary,
    pub free: FreeSummary,
    pub overhead: OverheadSummary,
}

impl ArenaReport {
    /// Whether this is about an arena.
    pub open spec fn is_of(self, index: u32, is_main: bool, attached_threads: Seq<i32>) -> bool {
        &&& self.index == index
        &&& self.is_main == is_main
        &&& self.attached_threads@ == attached_threads
    }

    /// Whether this sums up the heaps and the statistics of an arena.
    pub open spec fn sums_up(self, heaps: Seq<Heap>, stats: ArenaStats) -> bool {
        &&& self.heaps == heaps_summary(heaps)
        &&& self.allocated.sums_up(stats.allocated)
        &&& self.free.sums_up(stats.free)
        &&& self.overhead == (OverheadSummary {
            count: stats.overhead_count,
            bytes: stats.overhead_bytes,
        })
    }

    /// Whether this has nothing to tell but that there is an arena.
    pub open spec fn is_blank(self) -> bool {
        &&& self.heaps == (HeapsSummary { count: 0, total_bytes: 0, committed_bytes: 0 })
        &&& self.allocated.count == 0
        &&& self.allocated.bytes == 0
        &&& self.allocated.size_histogram@.len() == 0
        &&& self.free.count == 0
        &&& self.free.bytes == 0
        &&& self.free.fastbins@.len() == 0
        &&& self.free.tcache.tcache_threads@.len() == 0
        &&& self.free.tcache.bins@.len() == 0
        &&& self.free.size_histogram@.len() == 0
        &&& self.overhead == (OverheadSummary { count: 0, bytes: 0 })
    }

    pub fn build(
        index: u32,
        is_main: bool,
        attached_threads: Vec<i32>,
        heaps: &[Heap],
        stats: &ArenaStats,
    ) -> (report: ArenaReport)
        ensures
            report.is_of(index, is_main, attached_threads@),
            report.sums_up(heaps@, *stats),
    {
        ArenaReport {
            index,
            is_main,
            attached_threads,
            heaps: HeapsSummary::from_heaps(heaps),
            allocated: AllocatedSummary::from_tally(&stats.allocated),
            free: FreeSummary::from_free_stats(&stats.free),
            overhead: OverheadSummary { count: stats.overhead_count, bytes: stats.overhead_bytes },
        }
    }

    /// A placeholder entry for an arena that couldn't be walked, so
    /// `problems[].arena` still resolves to something in `arenas[]`.
    pub fn stub(index: u32, is_main: bool, attached_threads: Vec<i32>) -> (report: ArenaReport)
        ensures
            report.is_of(index, is_main, attached_threads@),
            report.is_blank(),
    {
        ArenaReport {
            index,
            is_main,
            attached_threads,
            heaps: HeapsSummary { count: 0, total_bytes: 0, committed_bytes: 0 },
            allocated: AllocatedSummary { count: 0, bytes: 0, size_histogram: Vec::new() },
            free: FreeSummary {
                count: 0,
                bytes: 0,
                fastbins: Vec::new(),
                tcache: TcacheSummary { tcache_threads: Vec::new(), bins: Vec::new() },
                size_histogram: Vec::new(),
            },
            overhead: OverheadSummary { count: 0, bytes: 0 },
        }
    }
}

#[derive(Debug, Clone, Copy)]
pub struct HeapsSummary {
    pub count: u64,
    pub total_bytes: u64,
    pub committed_bytes: u64,
}

/// The sum of the extents of heaps.
pub open spec fn total_size(heaps: Seq<Heap>) -> nat
    decreases heaps.len(),
{
    if heaps.len() == 0 {
        0
    } else {
        total_size(heaps.drop_last()) + heaps.last().size as nat
    }
}

/// The sum of the committed bytes of heaps.
pub open spec fn total_committed(heaps: Seq<Heap>) -> nat
    decreases heaps.len(),
{
    if heaps.len() == 0 {
        0
    } else {
        total_committed(heaps.drop_last()) + heaps.last().mprotect_size as nat
    }
}

/// A number, or the largest `u64` where it is beyond that.
pub open spec fn clamped(n: nat) -> u64 {
    if n > u64::MAX {
        u64::MAX
    } else {
        n as u64
    }
}

/// How many heaps there are, and their total extent.
pub open spec fn heaps_summary(heaps: Seq<Heap>) -> HeapsSummary {
    HeapsSummary {
        count: heaps.len() as u64,
        total_bytes: clamped(total_size(heaps)),
        committed_bytes: clamped(total_committed(heaps)),
    }
}

impl HeapsSummary {
    pub fn from_heaps(heaps: &[Heap]) -> (summary: HeapsSummary)
        ensures
            summary == heaps_summary(heaps@),
    {
        let mut total: u64 = 0;
        let mut committed: u64 = 0;
        let mut i: usize = 0;
        while i < heaps.len()
            invariant
                i <= heaps@.len(),
                total == clamped(total_size(heaps@.take(i as int))),
                committed == clamped(total_committed(heaps@.take(i as int))),
            decreases heaps@.len() - i,
        {
            let h: Heap = heaps[i];
            assert(heaps@.take(i + 1).drop_last() =~= heaps@.take(i as int));
            total = total.saturating_add(h.size);
            committed = committed.saturating_add(h.mprotect_size);
            i = i + 1;
        }
        assert(heaps@.take(heaps@.len() as int) =~= heaps@);
        HeapsSummary {
            count: heaps.len() as u64,
            total_bytes: total,
            committed_bytes: committed,
        }
    }
}

#[derive(Debug, Clone, Copy)]
pub struct SizeBucket {
    pub size: u64,
    pub count: u64,
    pub bytes: u64,
}

/// The bucket of `count` chunks of a size.
pub open spec fn bucket_of(size: u64, count: u64) -> SizeBucket {
    SizeBucket { size, count, bytes: arith::saturated_product(size, count) }
}

/// `list` holds the buckets of a histogram that are not empty, each once, by
/// ascending size.
pub open spec fn lists_buckets(list: Seq<SizeBucket>, histogram: Map<u64, u64>) -> bool {
    &&& forall|i: int, j: int|
        0 <= i < j < list.len() ==> (#[trigger] list[i]).size < (#[trigger] list[j]).size
    &&& forall|i: int|
        0 <= i < list.len() ==> {
            let b = #[trigger] list[i];
            &&& histogram.contains_key(b.size)
            &&& histogram[b.size] > 0
            &&& b == bucket_of(b.size, histogram[b.size])
        }
    &&& forall|size: u64| #[trigger]
        histogram.contains_key(size) && histogram[size] > 0 ==> list.contains(
            bucket_of(size, histogram[size]),
        )
}

/// Chunks in buckets.
pub open spec fn bucket_count(list: Seq<SizeBucket>) -> int
    decreases list.len(),
{
    if list.len() == 0 {
        0
    } else {
        bucket_count(list.drop_last()) + list.last().count
    }
}

proof fn lemma_buckets_counted(
    list: Seq<SizeBucket>,
    histogram: Map<u64, u64>,
    n: int,
    limit: int,
)
    requires
        lists_buckets(list, histogram),
        0 <= n <= list.len(),
        0 <= limit <= stats::all_sizes(),
        forall|i: int| 0 <= i < list.len() ==> ((#[trigger] list[i]).size < limit <==> i < n),
    ensures
        stats::counted(histogram, limit) == bucket_count(list.take(n)),
    decreases limit,
{
    if limit == 0 {
        if n > 0 {
            assert(list[0].size < limit);
        }
        assert(list.take(n) =~= Seq::empty());
    } else {
        let size = (limit - 1) as u64;
        if n > 0 && list[n - 1].size == size {
            assert(list.take(n).drop_last() =~= list.take(n - 1));
            assert forall|i: int| 0 <= i < list.len() implies ((#[trigger] list[i]).size < limit - 1
                <==> i < n - 1) by {
                if i < n - 1 {
                    assert(list[i].size < list[n - 1].size);
                }
            }
            lemma_buckets_counted(list, histogram, n - 1, limit - 1);
        } else {
            assert forall|i: int| 0 <= i < list.len() implies ((#[trigger] list[i]).size < limit - 1
                <==> i < n) by {
                if i < n - 1 {
                    assert(list[i].size < list[n - 1].size);
                }
            }
            if histogram.contains_key(size) && histogram[size] > 0 {
                let b = bucket_of(size, histogram[size]);
                assert(list.contains(b));
                let i = choose|i: int| 0 <= i < list.len() && list[i] == b;
                assert(list[i].size < limit);
                assert(false);
            }
            lemma_buckets_counted(list, histogram, n, limit - 1);
        }
    }
}

/// A listed histogram leaves no chunk out and counts none twice: the counts of its
/// buckets add up to what the histogram counts.
pub proof fn law_buckets_hold_every_chunk(list: Seq<SizeBucket>, histogram: Map<u64, u64>)
    requires
        lists_buckets(list, histogram),
    ensures
        bucket_count(list) == stats::counted(histogram, stats::all_sizes()),
{
    assert(list.take(list.len() as int) =~= list);
    lemma_buckets_counted(list, histogram, list.len() as int, stats::all_sizes());
}

/// Turn a size→count histogram into ascending buckets.
pub fn buckets(histogram: &BTreeMap<u64, u64>) -> (list: Vec<SizeBucket>)
    ensures
        lists_buckets(list@, histogram@),
{
    let entries: Vec<(u64, u64)> = ordered::entries_u64(histogram);
    let mut list: Vec<SizeBucket> = Vec::new();
    let mut i: usize = 0;
    while i < entries.len()
        invariant
            i <= entries@.len(),
            ordered::lists_u64(entries@, histogram@),
            forall|a: int, b: int|
                0 <= a < b < list@.len() ==> (#[trigger] list@[a]).size < (
                #[trigger] list@[b]).size,
            forall|a: int, k: int|
                0 <= a < list@.len() && i <= k < entries@.len() ==> (#[trigger] list@[a]).size < (
                #[trigger] entries@[k]).0,
            forall|a: int|
                0 <= a < list@.len() ==> {
                    let b = #[trigger] list@[a];
                    &&& histogram@.contains_key(b.size)
                    &&& histogram@[b.size] > 0
                    &&& b == bucket_of(b.size, histogram@[b.size])
                },
            forall|k: int|
                0 <= k < i && (#[trigger] entries@[k]).1 > 0 ==> list@.contains(
                    bucket_of(entries@[k].0, entries@[k].1),
                ),
        decreases entries@.len() - i,
    {
        let (size, count): (u64, u64) = entries[i];
        let ghost before = list@;
        if count > 0 {
            list.push(SizeBucket { size, count, bytes: arith::saturating_mul(size, count) });
        }
        proof {
            assert(histogram@.contains_key(entries@[i as int].0));
            assert forall|k: int| 0 <= k < i + 1 && (#[trigger] entries@[k]).1
                > 0 implies list@.contains(bucket_of(entries@[k].0, entries@[k].1)) by {
                let b = bucket_of(entries@[k].0, entries@[k].1);
                if k < i {
                    let a = choose|a: int| 0 <= a < before.len() && before[a] == b;
                    assert(list@[a] == b);
                } else {
                    assert(list@[list@.len() - 1] == b);
                }
            }
        }
        i = i + 1;
    }
    proof {
        assert forall|size: u64| #[trigger]
            histogram@.contains_key(size) && histogram@[size] > 0 implies list@.contains(
            bucket_of(size, histogram@[size]),
        ) by {
            assert(entries@.contains((size, histogram@[size])));
            let k = choose|k: int|
                0 <= k < entries@.len() && entries@[k] == (size, histogram@[size]);
            assert(entries@[k].1 > 0);
        }
    }
    list
}

pub struct AllocatedSummary {
    pub count: u64,
    pub bytes: u64,
    pub size_histogram: Vec<SizeBucket>,
}

impl AllocatedSummary {
    /// Whether this sums up a tally.
    pub open spec fn sums_up(self, tally: SizeTally) -> bool {
        &&& self.count == tally.count
        &&& self.bytes == tally.bytes
        &&& lists_buckets(self.size_histogram@, tally.histogram@)
    }

    pub fn from_tally(t: &SizeTally) -> (summary: AllocatedSummary)
        ensures
            summary.sums_up(*t),
    {
        AllocatedSummary { count: t.count, bytes: t.bytes, size_histogram: buckets(&t.histogram) }
    }
}

#[derive(Debug, Clone, Copy)]
pub struct BinBucket {
    pub index: u32,
    pub size: u64,
    pub count: u64,
    pub bytes: u64,
}

/// The bucket of a bin.
pub open spec fn bin_bucket(b: BinTally) -> BinBucket {
    BinBucket { index: b.index, size: b.size, count: b.count, bytes: b.bytes }
}

/// The buckets of bins, in order.
pub open spec fn bin_buckets(bins: Seq<BinTally>) -> Seq<BinBucket> {
    bins.map_values(|b: BinTally| bin_bucket(b))
}

impl BinBucket {
    pub fn from_tally(b: &BinTally) -> (bucket: BinBucket)
        ensures
            bucket == bin_bucket(*b),
    {
        BinBucket { index: b.index, size: b.size, count: b.count, bytes: b.bytes }
    }

    /// The buckets of bins, in order.
    pub fn from_tallies(bins: &[BinTally]) -> (list: Vec<BinBucket>)
        ensures
            list@ == bin_buckets(bins@),
    {
        let mut list: Vec<BinBucket> = Vec::new();
        let mut i: usize = 0;
        while i < bins.len()
            invariant
                i <= bins@.len(),
                list@ == bin_buckets(bins@.take(i as int)),
            decreases bins@.len() - i,
        {
            list.push(BinBucket::from_tally(&bins[i]));
            i = i + 1;
            assert(list@ =~= bin_buckets(bins@.take(i as int)));
        }
        assert(bins@.take(bins@.len() as int) =~= bins@);
        list
    }
}

/// Always this shape, even without tcache (empty arrays): consumers never have
/// to check whether the key exists, only whether the arrays are empty.
pub struct TcacheSummary {
    pub tcache_threads: Vec<i32>,
    pub bins: Vec<BinBucket>,
}

pub struct FreeSummary {
    pub count: u64,
    pub bytes: u64,
    pub fastbins: Vec<BinBucket>,
    pub tcache: TcacheSummary,
    pub size_histogram: Vec<SizeBucket>,
}

impl FreeSummary {
    /// Whether this sums up the free chunks of an arena.
    pub open spec fn sums_up(self, free: FreeStats) -> bool {
        &&& self.count == free.tally.count
        &&& self.bytes == free.tally.bytes
        &&& self.fastbins@ == bin_buckets(free.fastbins@)
        &&& ordered::lists_i32(self.tcache.tcache_threads@, free.tcache_threads@)
        &&& self.tcache.bins@ == bin_buckets(free.tcache_bins@)
        &&& lists_buckets(self.size_histogram@, free.tally.histogram@)
    }

    pub fn from_free_stats(f: &FreeStats) -> (summary: FreeSummary)
        ensures
            summary.sums_up(*f),
    {
        FreeSummary {
            count: f.tally.count,
            bytes: f.tally.bytes,
            fastbins: BinBucket::from_tallies(&f.fastbins),
            tcache: TcacheSummary {
                tcache_threads: ordered::members_i32(&f.tcache_threads),
                bins: BinBucket::from_tallies(&f.tcache_bins),
            },
            size_histogram: buckets(&f.tally.histogram),
        }
    }
}

#[derive(Debug, Clone, Copy)]
pub struct OverheadSummary {
    pub count: u64,
    pub bytes: u64,
}

} // verus!
