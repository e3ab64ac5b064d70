//! Recognising libc among the mappings of a core.

use heap_analyser::elf::coredump::MappedFile;
use heap_analyser::locate::{
    force_select, libc_candidates, looks_like_libc, sha256, strip_deleted, Identity,
};

fn mapping(start: u64, offset: u64, path: &str) -> MappedFile {
    MappedFile {
        start,
        end: start + 0x1000,
        file_offset: offset,
        path: path.to_string(),
    }
}

#[test]
fn strips_deleted_suffix() {
    assert_eq!(strip_deleted("/lib/libc.so.6 (deleted)"), "/lib/libc.so.6");
    assert_eq!(strip_deleted("/lib/libc.so.6"), "/lib/libc.so.6");
}

#[test]
fn recognises_libc_by_basename_only() {
    assert!(looks_like_libc("/usr/lib64/libc.so.6"));
    assert!(looks_like_libc("/lib/libc-2.31.so"));
    assert!(looks_like_libc("/lib/libc.so.6 (deleted)"));
    // Look-alikes must not match.
    assert!(!looks_like_libc("/usr/lib64/libcrypto.so.3"));
    assert!(!looks_like_libc("/usr/lib64/libc_malloc_debug.so.0"));
    assert!(!looks_like_libc("/usr/lib64/libcap.so.2"));
}

#[test]
fn directories_do_not_make_a_libc() {
    assert!(looks_like_libc("libc.so.6"));
    assert!(!looks_like_libc("/libc.so.6/other.so"));
    assert!(!looks_like_libc("/lib/libc.so.6/"));
    assert!(!looks_like_libc(""));
}

#[test]
fn libc_candidates_filters_and_sorts() {
    let mapped = [
        mapping(0x3000, 0, "/usr/lib64/libcrypto.so.3"), // look-alike
        mapping(0x2000, 0, "/usr/lib64/libc.so.6"),
        mapping(0x1000, 0x1000, "/usr/lib64/libc.so.6"), // wrong file_offset
        mapping(0x4000, 0, "/lib/libc-2.38.so"),
    ];
    let got = libc_candidates(&mapped);
    assert_eq!(
        got.iter().map(|m| m.start).collect::<Vec<_>>(),
        vec![0x2000, 0x4000],
        "only offset-0 real libc mappings, ascending"
    );
}

#[test]
fn candidates_at_one_address_keep_their_order() {
    let mapped = [
        mapping(0x9000, 0, "/a/libc.so.6"),
        mapping(0x5000, 0, "/b/libc.so.6"),
        mapping(0x9000, 0, "/c/libc.so.6"),
        mapping(0x5000, 0, "/d/libc.so.6"),
    ];
    let got = libc_candidates(&mapped);
    assert_eq!(
        got.iter().map(|m| m.path.as_str()).collect::<Vec<_>>(),
        vec!["/b/libc.so.6", "/d/libc.so.6", "/a/libc.so.6", "/c/libc.so.6"]
    );
}

#[test]
fn force_select_picks_smallest_address_ignoring_deleted() {
    let mapped = [
        mapping(0x5000, 0, "/lib/libc.so.6 (deleted)"),
        mapping(0x2000, 0, "/lib/libc.so.6"),
        mapping(0x9000, 0, "/lib/other.so"),
    ];
    let got = force_select(&mapped, "/lib/libc.so.6").expect("a match");
    assert_eq!(got.start, 0x2000);
    assert!(force_select(&mapped, "/lib/missing.so").is_none());
}

#[test]
fn sha256_is_stable() {
    assert_eq!(sha256(b""), sha256(b""));
    assert_ne!(sha256(b"a"), sha256(b"b"));
}

#[test]
fn sha256_of_the_empty_input() {
    assert_eq!(&sha256(b"")[..4], &[0xe3, 0xb0, 0xc4, 0x42]);
    assert_eq!(Identity::BuildId(vec![1]).clone(), Identity::BuildId(vec![1]));
    let hash = Identity::ContentHash(sha256(b"a"));
    assert_ne!(hash.clone(), Identity::ContentHash(sha256(b"b")));
}
