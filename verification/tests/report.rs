//! The report model.

use std::collections::BTreeMap;

use heap_analyser::glibc::test_layout;
use heap_analyser::heap::heap_list::Heap;
use heap_analyser::heap::stats::{ArenaStats, BinTally, FreeStats, SizeTally};
use heap_analyser::locate::{Identity, LocatedLibc};
use heap_analyser::report::model::{
    buckets, ArenaReport, GlibcCapabilitiesJson, HeapsSummary, IdentityJson, LibcInfo,
    SCHEMA_VERSION,
};
use heap_analyser::text::{decimal_string, hex_string, to_hex};

#[test]
fn hex_is_lowercase_unseparated() {
    assert_eq!(to_hex(&[0x1b, 0x2c, 0xff, 0x00]), "1b2cff00");
    assert_eq!(to_hex(&[]), "");
}

#[test]
fn numbers_are_written_like_formatted_ones() {
    for n in [0u64, 9, 10, 15, 16, 255, 4096, u64::MAX] {
        assert_eq!(hex_string(n), format!("{n:#x}"));
        assert_eq!(decimal_string(n), format!("{n}"));
    }
}

#[test]
fn identities_keep_their_kind() {
    let json = IdentityJson::from(Identity::BuildId(vec![0xab, 0xcd]));
    assert!(matches!(json, IdentityJson::BuildId { value } if value == "abcd"));
    let json = IdentityJson::from(Identity::ContentHash([0x0f; 32]));
    assert!(matches!(json, IdentityJson::ContentHash { value } if value == "0f".repeat(32)));
}

#[test]
fn libc_info_tells_whether_it_was_verified() {
    let located = LocatedLibc {
        load_addr: 0x1000,
        path: "/lib/libc.so.6".to_string(),
        verified: false,
    };
    let info = LibcInfo::new(&located, Identity::BuildId(vec![1]));
    assert_eq!(info.path, "/lib/libc.so.6");
    assert!(!info.verified);
}

#[test]
fn histogram_buckets_ascend_and_skip_empty_ones() {
    let histogram = BTreeMap::from([(104, 1), (24, 2), (40, 0), (u64::MAX, 2)]);
    let list: Vec<(u64, u64, u64)> = buckets(&histogram)
        .iter()
        .map(|b| (b.size, b.count, b.bytes))
        .collect();
    assert_eq!(
        list,
        vec![(24, 2, 48), (104, 1, 104), (u64::MAX, 2, u64::MAX)]
    );
    assert_eq!(
        list.iter().map(|b| b.1).sum::<u64>(),
        histogram.values().sum::<u64>()
    );
}

fn heap(size: u64, mprotect_size: u64) -> Heap {
    Heap {
        address: 0,
        size,
        mprotect_size,
        region_start: 0,
        region_end: 0,
    }
}

#[test]
fn heap_totals_saturate() {
    let summary = HeapsSummary::from_heaps(&[heap(10, 20), heap(30, u64::MAX)]);
    assert_eq!(summary.count, 2);
    assert_eq!(summary.total_bytes, 40);
    assert_eq!(summary.committed_bytes, u64::MAX);
}

#[test]
fn arena_report_carries_the_statistics() {
    let mut allocated = SizeTally::default();
    allocated.add_n(24, 2);
    let mut free = FreeStats::default();
    free.tally.add(88);
    free.fastbins.push(BinTally {
        index: 3,
        size: 72,
        count: 1,
        bytes: 72,
    });
    free.tcache_threads.insert(9);
    free.tcache_threads.insert(-1);
    let stats = ArenaStats {
        allocated,
        free,
        overhead_count: 3,
        overhead_bytes: 24,
    };
    let report = ArenaReport::build(1, false, vec![5, 6], &[heap(7, 8)], &stats);
    assert_eq!((report.index, report.is_main), (1, false));
    assert_eq!(report.attached_threads, vec![5, 6]);
    assert_eq!((report.allocated.count, report.allocated.bytes), (2, 48));
    assert_eq!(report.allocated.size_histogram.len(), 1);
    assert_eq!((report.free.count, report.free.bytes), (1, 88));
    assert_eq!(report.free.fastbins[0].index, 3);
    assert_eq!(report.free.tcache.tcache_threads, vec![-1, 9]);
    assert!(report.free.tcache.bins.is_empty());
    assert_eq!((report.overhead.count, report.overhead.bytes), (3, 24));
    assert_eq!(report.allocated.count + report.free.count, report.overhead.count);
}

#[test]
fn stub_keeps_index_and_threads() {
    let report = ArenaReport::stub(4, false, vec![1]);
    assert_eq!(report.index, 4);
    assert_eq!(report.attached_threads, vec![1]);
    assert_eq!(report.heaps.count, 0);
    assert_eq!(report.overhead.bytes, 0);
    assert!(report.free.tcache.tcache_threads.is_empty());
}

#[test]
fn capabilities_use_stable_strings() {
    let json = GlibcCapabilitiesJson::from_layout(&test_layout(8));
    assert_eq!(json.layout_source, "builtin");
    assert_eq!(json.version_source, "assumed_default");
    assert!(json.has_tcache && !json.has_safe_linking);
    assert_eq!(SCHEMA_VERSION, 1);
}
