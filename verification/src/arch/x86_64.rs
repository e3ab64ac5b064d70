use vstd::prelude::*;

use super::{le_i32, le_u64, Arch, ThreadRegs, EM_X86_64};
use crate::elf;
use crate::error;
use crate::error::{Error, Result};

verus! {

// `NT_PRSTATUS` (`struct elf_prstatus`) field offsets on x86-64.
//
// `pr_reg` is a `struct user_regs_struct`; the register order there puts `rip`
// at index 16, `rsp` at 19 and `fs_base` at 21. On x86-64 the thread pointer
// *is* `fs_base`, so unlike aarch64 we don't need a separate TLS note.
/// Offset of `pr_pid`.
pub const PR_PID: usize = 32;

/// Offset of `pr_reg`.
pub const PR_REG: usize = 112;

/// Offset of `rip`.
pub const RIP: usize = PR_REG + 16 * 8;

/// Offset of `rsp`.
pub const RSP: usize = PR_REG + 19 * 8;

/// Offset of `fs_base`.
pub const FS_BASE: usize = PR_REG + 21 * 8;

/// Smallest descriptor we can read every field from.
pub const MIN_LEN: usize = FS_BASE + 8;

/// `R_X86_64_TPOFF64`.
pub const R_X86_64_TPOFF64: u32 = 18;

pub struct X86_64;

impl Arch for X86_64 {
    open spec fn machine(&self) -> u16 {
        EM_X86_64
    }

    open spec fn label(&self) -> Seq<char> {
        "x86_64"@
    }

    open spec fn tp_off_reloc(&self) -> u32 {
        R_X86_64_TPOFF64
    }

    open spec fn prstatus(&self, desc: Seq<u8>) -> std::result::Result<
        ThreadRegs,
        error::ErrorView,
    > {
        if desc.len() < MIN_LEN {
            Err(error::ErrorView::NoteTooShort { expected: MIN_LEN as nat, actual: desc.len() })
        } else {
            Ok(
                ThreadRegs {
                    pc: elf::u64_le_at(desc, RIP as int)->0,
                    sp: elf::u64_le_at(desc, RSP as int)->0,
                    tp: elf::u64_le_at(desc, FS_BASE as int)->0,
                    thread_id: super::i32_le_at(desc, PR_PID as int)->0,
                },
            )
        }
    }

    open spec fn tls_note(&self) -> Option<u32> {
        None
    }

    open spec fn tls_value(&self, desc: Seq<u8>) -> Option<u64> {
        None
    }

    fn elf_machine(&self) -> u16 {
        EM_X86_64
    }

    fn name(&self) -> &'static str {
        "x86_64"
    }

    fn tp_off_reloc_type(&self) -> u32 {
        R_X86_64_TPOFF64
    }

    fn parse_prstatus(&self, desc: &[u8]) -> Result<ThreadRegs> {
        let short = Error::NoteTooShort { expected: MIN_LEN, actual: desc.len() };
        if desc.len() < MIN_LEN {
            return Err(short);
        }
        match (
            le_u64(desc, RIP),
            le_u64(desc, RSP),
            le_u64(desc, FS_BASE),
            le_i32(desc, PR_PID),
        ) {
            (Some(pc), Some(sp), Some(tp), Some(thread_id)) => Ok(
                ThreadRegs { pc, sp, tp, thread_id },
            ),
            _ => Err(short),
        }
    }

    fn tls_note_type(&self) -> Option<u32> {
        None
    }

    fn parse_tls_note(&self, desc: &[u8]) -> Option<u64> {
        None
    }
}

} // verus!
