//! glibc malloc heap analysis of ELF core dumps.
//!
//! The crate holds the analysis itself: reading a core dump's memory and
//! notes, recognising the C library mapped in it, recovering the layout of
//! glibc's malloc structures, walking arenas, heaps, chunks and free lists, and
//! folding the result into a report. Opening files, parsing arguments and
//! printing JSON are left to the program around it.

pub mod arch;
pub mod arith;
pub mod error;
pub mod ordered;
pub mod problem;
pub mod text;
pub mod text_laws;
pub mod elf;
pub mod glibc;
pub mod heap;
pub mod locate;
pub mod locate_laws;
pub mod report;
pub mod view_laws;
pub mod analyze;
pub mod commands;
