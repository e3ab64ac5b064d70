use vstd::prelude::*;

use super::{le_i32, le_u64, Arch, ThreadRegs, EM_AARCH64};
use crate::elf;
use crate::error;
use crate::error::{Error, Result};

verus! {

// `NT_PRSTATUS` field offsets on aarch64.
//
// `pr_reg` is `struct user_regs_struct { u64 regs[31]; u64 sp; u64 pc; ... }`,
// so `sp` sits at register index 31 and `pc` at 32. The thread pointer is
// *not* here: it arrives in a separate `NT_ARM_TLS` note (see below).
/// Offset of `pr_pid`.
pub const PR_PID: usize = 32;

/// Offset of `pr_reg`.
pub const PR_REG: usize = 112;

/// Offset of `sp`.
pub const SP: usize = PR_REG + 31 * 8;

/// Offset of `pc`.
pub const PC: usize = PR_REG + 32 * 8;

/// Smallest descriptor we can read every field from.
pub const MIN_LEN: usize = PC + 8;

/// `NT_ARM_TLS`, the note carrying `tpidr_el0`, i.e. the thread pointer.
pub const NT_ARM_TLS: u32 = 0x401;

/// `R_AARCH64_TLS_TPREL64`.
pub const R_AARCH64_TLS_TPREL64: u32 = 1030;

pub struct Aarch64;

impl Arch for Aarch64 {
    open spec fn machine(&self) -> u16 {
        EM_AARCH64
    }

    open spec fn label(&self) -> Seq<char> {
        "aarch64"@
    }

    open spec fn tp_off_reloc(&self) -> u32 {
        R_AARCH64_TLS_TPREL64
    }

    open spec fn prstatus(&self, desc: Seq<u8>) -> std::result::Result<
        ThreadRegs,
        error::ErrorView,
    > {
        if desc.len() < MIN_LEN {
            Err(error::ErrorView::NoteTooShort { expected: MIN_LEN as nat, actual: desc.len() })
        } else {
            Ok(
                ThreadRegs {
                    pc: elf::u64_le_at(desc, PC as int)->0,
                    sp: elf::u64_le_at(desc, SP as int)->0,
                    tp: 0,
                    thread_id: super::i32_le_at(desc, PR_PID as int)->0,
                },
            )
        }
    }

    open spec fn tls_note(&self) -> Option<u32> {
        Some(NT_ARM_TLS)
    }

    open spec fn tls_value(&self, desc: Seq<u8>) -> Option<u64> {
        elf::u64_le_at(desc, 0)
    }

    fn elf_machine(&self) -> u16 {
        EM_AARCH64
    }

    fn name(&self) -> &'static str {
        "aarch64"
    }

    fn tp_off_reloc_type(&self) -> u32 {
        R_AARCH64_TLS_TPREL64
    }

    fn parse_prstatus(&self, desc: &[u8]) -> Result<ThreadRegs> {
        let short = Error::NoteTooShort { expected: MIN_LEN, actual: desc.len() };
        if desc.len() < MIN_LEN {
            return Err(short);
        }
        match (le_u64(desc, PC), le_u64(desc, SP), le_i32(desc, PR_PID)) {
            // `tp` is filled in later from NT_ARM_TLS by elf::coredump::threads.
            (Some(pc), Some(sp), Some(thread_id)) => Ok(
                ThreadRegs { pc, sp, tp: 0, thread_id },
            ),
            _ => Err(short),
        }
    }

    fn tls_note_type(&self) -> Option<u32> {
        Some(NT_ARM_TLS)
    }

    fn parse_tls_note(&self, desc: &[u8]) -> Option<u64> {
        le_u64(desc, 0)
    }
}

} // verus!
