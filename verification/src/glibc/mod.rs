//! glibc structure layout and capability detection.
//!
//! [`DetectedLayout`] bundles the malloc structure offsets, resolved symbols,
//! TLS relocation, and version-derived capabilities needed by the analysis.

use vstd::prelude::*;

use crate::problem::Problem;

pub mod debuglink;
pub mod detect;
pub mod detect_laws;
pub mod dwarf;
pub mod heap_info;
pub mod link_laws;
pub mod malloc_state;
pub mod symbols;
pub mod tcache;
pub mod version;

use heap_info::HeapInfoOffsets;
use malloc_state::MallocStateOffsets;
use tcache::TcacheOffsets;
use version::GlibcVersion;

verus! {

#[derive(Debug, Clone, Copy)]
pub struct SymbolInfo {
    pub present: bool,
    pub value: u64,
    pub size: u64,
}

impl SymbolInfo {
    /// A symbol that was not found.
    pub open spec fn absent() -> SymbolInfo {
        SymbolInfo { present: false, value: 0, size: 0 }
    }
}

impl Default for SymbolInfo {
    fn default() -> (s: SymbolInfo)
        ensures
            s == SymbolInfo::absent(),
    {
        SymbolInfo { present: false, value: 0, size: 0 }
    }
}

#[derive(Debug, Clone, Copy)]
pub enum VersionSource {
    Detected(GlibcVersion),
    AssumedDefault,
}

impl VersionSource {
    /// The name of the source in reports.
    pub open spec fn name(self) -> Seq<char> {
        match self {
            VersionSource::Detected(_) => "gnu_version_d"@,
            VersionSource::AssumedDefault => "assumed_default"@,
        }
    }

    /// Stable JSON string for the `version_source` field. Never `Debug`-format
    /// this: the value is part of the public schema.
    pub fn as_str(&self) -> (s: &'static str)
        ensures
            s@ == self.name(),
    {
        match self {
            VersionSource::Detected(_) => "gnu_version_d",
            VersionSource::AssumedDefault => "assumed_default",
        }
    }
}

#[derive(Debug, Clone, Copy)]
pub struct GlibcCapabilities {
    pub has_tcache: bool,
    pub has_safe_linking: bool,
    pub version_source: VersionSource,
}

#[derive(Debug, Clone, Copy, PartialEq, Eq, Structural)]
pub enum LayoutSource {
    Builtin,
    Dwarf,
}

impl LayoutSource {
    /// The name of the source in reports.
    pub open spec fn name(self) -> Seq<char> {
        match self {
            LayoutSource::Builtin => "builtin"@,
            LayoutSource::Dwarf => "dwarf"@,
        }
    }

    pub fn as_str(self) -> (s: &'static str)
        ensures
            s@ == self.name(),
    {
        match self {
            LayoutSource::Builtin => "builtin",
            LayoutSource::Dwarf => "dwarf",
        }
    }
}

pub struct DetectedLayout {
    pub layout_source: LayoutSource,
    pub word_size: u32,
    pub header_size: u32,
    pub minsize: u32,
    pub malloc_alignment: u32,
    pub fastbin_array_offset: u32,
    pub fastbin_count: u32,
    pub malloc_state_top_offset: u32,
    pub malloc_state_next_offset: u32,
    pub mp_arena_max_offset: u32,
    pub mp_sbrk_base_offset: u32,
    pub mp_tcache_bins_offset: u32,
    pub heap_info_size: u32,
    pub heap_info_ar_ptr_offset: u32,
    pub heap_info_prev_offset: u32,
    pub heap_info_size_offset: u32,
    pub heap_info_mprotect_size_offset: u32,
    pub heap_max_size: u64,
    pub tcache_max_bins: u32,
    pub tcache_entries_offset: u32,
    pub main_arena: SymbolInfo,
    pub mp: SymbolInfo,
    pub narenas: SymbolInfo,
    pub narenas_limit: SymbolInfo,
    pub tcache: SymbolInfo,
    pub tcache_key: SymbolInfo,
    pub thread_arena: SymbolInfo,
    /// Address holding the libc-relative TLS block offset (the target of the
    /// first zero-addend TP-offset relocation). `None` disables all TLS reads.
    pub tp_off_reloc_addr: Option<u64>,
    pub capabilities: GlibcCapabilities,
    pub problems: Vec<Problem>,
}

/// The word-size dependent figures of a malloc build: a chunk header is one
/// word, the least chunk four words, chunk sizes are multiples of two words.
pub open spec fn chunk_figures(layout: DetectedLayout, word_size: u32) -> bool {
    &&& layout.word_size == word_size
    &&& layout.header_size == word_size
    &&& layout.minsize == if word_size == 8 { 32u32 } else { 16u32 }
    &&& layout.malloc_alignment == if word_size == 8 { 16u32 } else { 8u32 }
}

impl DetectedLayout {
    /// What every detected layout satisfies: the figures of a 32-bit or a 64-bit
    /// build, and heaps reserved in one megabyte or in 64.
    pub open spec fn wf(self) -> bool {
        &&& self.word_size == 4 || self.word_size == 8
        &&& chunk_figures(self, self.word_size)
        &&& self.heap_max_size == if self.word_size == 8 { 0x400_0000u64 } else { 0x10_0000u64 }
    }

    /// What reading heaps asks of a layout: steps and reservations are not empty, and
    /// a chunk of the smallest size has room for its header.
    pub open spec fn is_usable(self) -> bool {
        &&& self.word_size > 0
        &&& self.heap_max_size > 0
        &&& self.malloc_alignment > 0
        &&& self.header_size <= 2 * self.word_size
        &&& self.header_size <= self.minsize
    }
}

/// The structure offsets of a layout.
pub struct Offsets {
    pub fastbin_array: u32,
    pub fastbin_count: u32,
    pub malloc_state_top: u32,
    pub malloc_state_next: u32,
    pub mp_arena_max: u32,
    pub mp_sbrk_base: u32,
    pub mp_tcache_bins: u32,
    pub heap_info_size: u32,
    pub heap_info_ar_ptr: u32,
    pub heap_info_prev: u32,
    pub heap_info_heap_size: u32,
    pub heap_info_mprotect_size: u32,
    pub tcache_max_bins: u32,
    pub tcache_entries: u32,
}

impl DetectedLayout {
    /// The structure offsets of this layout.
    pub open spec fn offsets(self) -> Offsets {
        Offsets {
            fastbin_array: self.fastbin_array_offset,
            fastbin_count: self.fastbin_count,
            malloc_state_top: self.malloc_state_top_offset,
            malloc_state_next: self.malloc_state_next_offset,
            mp_arena_max: self.mp_arena_max_offset,
            mp_sbrk_base: self.mp_sbrk_base_offset,
            mp_tcache_bins: self.mp_tcache_bins_offset,
            heap_info_size: self.heap_info_size,
            heap_info_ar_ptr: self.heap_info_ar_ptr_offset,
            heap_info_prev: self.heap_info_prev_offset,
            heap_info_heap_size: self.heap_info_size_offset,
            heap_info_mprotect_size: self.heap_info_mprotect_size_offset,
            tcache_max_bins: self.tcache_max_bins,
            tcache_entries: self.tcache_entries_offset,
        }
    }
}

/// The offset of `sbrk_base` in `malloc_par`: it shifts when the fields for huge
/// pages are compiled in.
pub open spec fn sbrk_base_offset(word_size: u32, has_hugepage: bool) -> u32 {
    if word_size == 8 {
        if has_hugepage {
            96
        } else {
            72
        }
    } else {
        if has_hugepage {
            44
        } else {
            56
        }
    }
}

/// The offsets that are built in for a word size. `tcache_bins` follows
/// `sbrk_base` in `malloc_par`.
pub open spec fn builtin_offsets(word_size: u32, has_hugepage: bool) -> Offsets {
    let ms = malloc_state::offsets(word_size);
    let hi = heap_info::offsets(word_size, has_hugepage);
    let sbrk_base = sbrk_base_offset(word_size, has_hugepage);
    Offsets {
        fastbin_array: ms.fastbin_array,
        fastbin_count: ms.fastbin_count,
        malloc_state_top: ms.top,
        malloc_state_next: ms.next,
        mp_arena_max: (4 * word_size) as u32,
        mp_sbrk_base: sbrk_base,
        mp_tcache_bins: (sbrk_base + word_size) as u32,
        heap_info_size: hi.sizeof,
        heap_info_ar_ptr: hi.ar_ptr,
        heap_info_prev: hi.prev,
        heap_info_heap_size: hi.size,
        heap_info_mprotect_size: hi.mprotect_size,
        tcache_max_bins: 64,
        tcache_entries: 128,
    }
}

/// A layout with the built-in offset tables and synthetic symbols, all at
/// address zero, for exercising the walkers without a reference ELF.
pub fn test_layout(word_size: u32) -> (layout: DetectedLayout)
    requires
        5 * word_size + 15 <= u32::MAX,
    ensures
        layout.layout_source == LayoutSource::Builtin,
        chunk_figures(layout, word_size),
        layout.offsets() == builtin_offsets(word_size, false),
        layout.heap_max_size == heap_info::offsets(word_size, false).heap_max_size,
        layout.main_arena == (SymbolInfo { present: true, value: 0, size: 0 }),
        layout.mp == layout.main_arena,
        layout.tcache == layout.main_arena,
        layout.thread_arena == layout.main_arena,
        layout.narenas == SymbolInfo::absent(),
        layout.narenas_limit == SymbolInfo::absent(),
        layout.tcache_key == SymbolInfo::absent(),
        layout.tp_off_reloc_addr == Some(0u64),
        layout.capabilities == (GlibcCapabilities {
            has_tcache: true,
            has_safe_linking: false,
            version_source: VersionSource::AssumedDefault,
        }),
        layout.problems@.len() == 0,
{
    let ms = MallocStateOffsets::new(word_size);
    let hi = HeapInfoOffsets::new(word_size, false);
    let tc = TcacheOffsets::new();
    let mp_sbrk_base_offset: u32 = if word_size == 8 {
        72
    } else {
        56
    };
    let present = SymbolInfo { present: true, value: 0, size: 0 };
    DetectedLayout {
        layout_source: LayoutSource::Builtin,
        word_size,
        header_size: word_size,
        minsize: if word_size == 8 {
            32
        } else {
            16
        },
        malloc_alignment: if word_size == 8 {
            16
        } else {
            8
        },
        fastbin_array_offset: ms.fastbin_array,
        fastbin_count: ms.fastbin_count,
        malloc_state_top_offset: ms.top,
        malloc_state_next_offset: ms.next,
        mp_arena_max_offset: 4 * word_size,
        mp_sbrk_base_offset,
        mp_tcache_bins_offset: mp_sbrk_base_offset + word_size,
        heap_info_size: hi.sizeof,
        heap_info_ar_ptr_offset: hi.ar_ptr,
        heap_info_prev_offset: hi.prev,
        heap_info_size_offset: hi.size,
        heap_info_mprotect_size_offset: hi.mprotect_size,
        heap_max_size: hi.heap_max_size,
        tcache_max_bins: tc.max_bins,
        tcache_entries_offset: tc.entries,
        main_arena: present,
        mp: present,
        narenas: SymbolInfo::default(),
        narenas_limit: SymbolInfo::default(),
        tcache: present,
        tcache_key: SymbolInfo::default(),
        thread_arena: present,
        tp_off_reloc_addr: Some(0),
        capabilities: GlibcCapabilities {
            has_tcache: true,
            has_safe_linking: false,
            version_source: VersionSource::AssumedDefault,
        },
        problems: Vec::new(),
    }
}

} // verus!
