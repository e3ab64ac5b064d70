//! Per-architecture differences behind one trait.
//!
//! Everything that varies by target architecture (how to read registers out of
//! `NT_PRSTATUS`, where the thread pointer comes from, which relocation type
//! marks the TLS offset) lives behind [`Arch`]. Adding an architecture is one
//! new submodule plus one line in [`by_elf_machine`].

use vstd::prelude::*;

use crate::elf;
use crate::error;
use crate::error::Result;

pub mod aarch64;
pub mod laws;
pub mod x86_64;

verus! {

/// `e_machine` of x86-64.
pub const EM_X86_64: u16 = 62;

/// `e_machine` of aarch64.
pub const EM_AARCH64: u16 = 183;

/// The few register values we need out of a thread's `NT_PRSTATUS`.
#[derive(Debug, Clone, Copy)]
pub struct ThreadRegs {
    pub pc: u64,
    pub sp: u64,
    /// Thread pointer. On some architectures (aarch64) this is 0 here and comes
    /// from a separate TLS note; see [`Arch::parse_tls_note`].
    pub tp: u64,
    pub thread_id: i32,
}

impl Default for ThreadRegs {
    fn default() -> (r: ThreadRegs)
        ensures
            r == (ThreadRegs { pc: 0, sp: 0, tp: 0, thread_id: 0 }),
    {
        ThreadRegs { pc: 0, sp: 0, tp: 0, thread_id: 0 }
    }
}

pub trait Arch: Sync {
    /// The architecture's `e_machine`.
    spec fn machine(&self) -> u16;

    /// The architecture's name in reports.
    spec fn label(&self) -> Seq<char>;

    /// Type of the TP-offset relocation.
    spec fn tp_off_reloc(&self) -> u32;

    /// The registers that an `NT_PRSTATUS` descriptor holds.
    spec fn prstatus(&self, desc: Seq<u8>) -> std::result::Result<ThreadRegs, error::ErrorView>;

    /// Type of the note with the thread pointer, where there is one.
    spec fn tls_note(&self) -> Option<u32>;

    /// The thread pointer that such a note's descriptor holds.
    spec fn tls_value(&self, desc: Seq<u8>) -> Option<u64>;

    fn elf_machine(&self) -> (r: u16)
        ensures
            r == self.machine(),
    ;

    /// Human-readable name for the `arch` JSON field (`"x86_64"` / `"aarch64"`).
    /// A method rather than `Debug` so the public schema doesn't leak internal
    /// type names or drift when the impl is renamed.
    fn name(&self) -> (r: &'static str)
        ensures
            r@ == self.label(),
    ;

    /// Relocation type whose target address holds the libc-relative TLS offset
    /// of a variable (`R_X86_64_TPOFF64` etc.).
    fn tp_off_reloc_type(&self) -> (r: u32)
        ensures
            r == self.tp_off_reloc(),
    ;

    fn parse_prstatus(&self, desc: &[u8]) -> (r: Result<ThreadRegs>)
        ensures
            error::outcome(r) == self.prstatus(desc@),
    ;

    /// Note type carrying the thread pointer, for architectures that don't put
    /// it in `NT_PRSTATUS`. `None` means "it's already in prstatus".
    fn tls_note_type(&self) -> (r: Option<u32>)
        ensures
            r == self.tls_note(),
    ;

    /// Extract the thread pointer from such a note. Returns `None` on a
    /// truncated descriptor.
    fn parse_tls_note(&self, desc: &[u8]) -> (r: Option<u64>)
        ensures
            r == self.tls_value(desc@),
    ;
}

/// The handler for an `e_machine`.
pub open spec fn handler(e_machine: u16) -> Option<&'static dyn Arch> {
    if e_machine == EM_X86_64 {
        Some(&x86_64::X86_64)
    } else if e_machine == EM_AARCH64 {
        Some(&aarch64::Aarch64)
    } else {
        None
    }
}

/// Look up the handler for a core dump's `e_machine`, or `None` if we don't
/// implement it.
pub fn by_elf_machine(e_machine: u16) -> (r: Option<&'static dyn Arch>)
    ensures
        r == handler(e_machine),
        r matches Some(arch) ==> arch.machine() == e_machine,
{
    if e_machine == EM_X86_64 {
        Some(&x86_64::X86_64)
    } else if e_machine == EM_AARCH64 {
        Some(&aarch64::Aarch64)
    } else {
        None
    }
}

/// The two's complement reading of a 32-bit number.
pub open spec fn signed(v: u32) -> i32 {
    if v < 0x8000_0000 {
        v as i32
    } else {
        (v - 0x1_0000_0000) as i32
    }
}

/// The little-endian `i32` at `off`, where the bytes reach that far.
pub open spec fn i32_le_at(s: Seq<u8>, off: int) -> Option<i32> {
    match elf::u32_le_at(s, off) {
        Some(v) => Some(signed(v)),
        None => None,
    }
}

/// Read a little-endian `u64` at `off`, or `None` if the slice is too short.
/// Shared by the register parsers; every access is bounds-checked because the
/// note descriptor is untrusted core-dump data.
pub fn le_u64(buf: &[u8], off: usize) -> (r: Option<u64>)
    ensures
        r == elf::u64_le_at(buf@, off as int),
{
    elf::read_u64_le(buf, off)
}

/// Read a little-endian `i32` at `off`, or `None` if the slice is too short.
pub fn le_i32(buf: &[u8], off: usize) -> (r: Option<i32>)
    ensures
        r == i32_le_at(buf@, off as int),
{
    match elf::read_u32_le(buf, off) {
        Some(v) => Some(
            if v < 0x8000_0000 {
                v as i32
            } else {
                (v as i64 - 0x1_0000_0000) as i32
            },
        ),
        None => None,
    }
}

} // verus!
