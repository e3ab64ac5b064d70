//! Where the registers of a thread stand in its status note.

use vstd::prelude::*;

use crate::elf::image_laws;
use crate::error;

use super::aarch64::Aarch64;
use super::x86_64::X86_64;
use super::{Arch, ThreadRegs};

verus! {

/// The two's complement number whose bytes stand at `off`, least significant first.
pub open spec fn signed_at(b: Seq<u8>, off: int) -> int {
    b[off] + 0x100 * b[off + 1] + 0x1_0000 * b[off + 2] + 0x100_0000 * b[off + 3]
        - if b[off + 3] >= 0x80 {
        0x1_0000_0000int
    } else {
        0
    }
}

/// The `i`-th of the registers, eight bytes each, that stand behind the first 112 bytes.
pub open spec fn register(b: Seq<u8>, i: int) -> int {
    image_laws::spelled(b, 112 + 8 * i)
}

/// A status note of x86-64 holds the thread id at byte 32 and 27 registers from byte 112
/// on, of which `rip` is number 16, `rsp` 19 and `fs_base` 21, the thread pointer. Where
/// the note ends before the last of these, its length and the needed one are told.
pub proof fn law_x86_64_registers(desc: Seq<u8>)
    ensures
        desc.len() < 112 + 8 * 22 ==> X86_64.prstatus(desc) == Err::<ThreadRegs, error::ErrorView>(
            error::ErrorView::NoteTooShort { expected: 288, actual: desc.len() },
        ),
        desc.len() >= 112 + 8 * 22 ==> (X86_64.prstatus(desc) matches Ok(regs) && {
            &&& regs.pc == register(desc, 16)
            &&& regs.sp == register(desc, 19)
            &&& regs.tp == register(desc, 21)
            &&& regs.thread_id == signed_at(desc, 32)
        }),
        X86_64.tls_note() is None,
{
    image_laws::law_numbers_are_little_endian(desc, 112 + 8 * 16int);
    image_laws::law_numbers_are_little_endian(desc, 112 + 8 * 19int);
    image_laws::law_numbers_are_little_endian(desc, 112 + 8 * 21int);
    image_laws::law_numbers_are_little_endian(desc, 32);
}

/// A status note of aarch64 holds the thread id at byte 32 and from byte 112 on the
/// registers `x0` to `x30`, then `sp`, then `pc`. The thread pointer is the first word
/// of another note, of type `0x401`.
pub proof fn law_aarch64_registers(desc: Seq<u8>)
    ensures
        desc.len() < 112 + 8 * 33 ==> Aarch64.prstatus(desc) == Err::<ThreadRegs, error::ErrorView>(
            error::ErrorView::NoteTooShort { expected: 376, actual: desc.len() },
        ),
        desc.len() >= 112 + 8 * 33 ==> (Aarch64.prstatus(desc) matches Ok(regs) && {
            &&& regs.sp == register(desc, 31)
            &&& regs.pc == register(desc, 32)
            &&& regs.tp == 0
            &&& regs.thread_id == signed_at(desc, 32)
        }),
        Aarch64.tls_note() == Some(0x401u32),
        Aarch64.tls_value(desc) is Some <==> desc.len() >= 8,
        Aarch64.tls_value(desc) matches Some(tp) ==> tp == image_laws::spelled(desc, 0),
{
    image_laws::law_numbers_are_little_endian(desc, 112 + 8 * 31int);
    image_laws::law_numbers_are_little_endian(desc, 112 + 8 * 32int);
    image_laws::law_numbers_are_little_endian(desc, 32);
    image_laws::law_numbers_are_little_endian(desc, 0);
}

/// The two architectures go by the numbers 62 and 183, have their own names and their own
/// types of thread-pointer relocations; no other number has a handler.
pub proof fn law_two_architectures(machine: u16)
    ensures
        super::handler(machine) is Some <==> machine == 62 || machine == 183,
        machine == 62 ==> super::handler(machine) == Some::<&'static dyn Arch>(&X86_64),
        machine == 183 ==> super::handler(machine) == Some::<&'static dyn Arch>(&Aarch64),
        X86_64.machine() == 62,
        Aarch64.machine() == 183,
        X86_64.label() == "x86_64"@,
        Aarch64.label() == "aarch64"@,
        X86_64.tp_off_reloc() == 18,
        Aarch64.tp_off_reloc() == 1030,
{
}

} // verus!
