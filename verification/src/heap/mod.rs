//! Heap traversal: arenas, heaps, chunks, and the free-list walkers that feed
//! the allocated/free statistics.

pub mod arena;
pub mod chain_laws;
pub mod chunk;
pub mod fastbin;
pub mod heap_list;
pub mod list_laws;
pub mod stats;
pub mod stats_laws;
pub mod tcache;
pub mod walk;
pub mod walk_laws;
