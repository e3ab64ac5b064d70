//! Registers out of thread notes.

use heap_analyser::arch::aarch64;
use heap_analyser::arch::aarch64::Aarch64;
use heap_analyser::arch::x86_64;
use heap_analyser::arch::x86_64::X86_64;
use heap_analyser::arch::{by_elf_machine, Arch, EM_AARCH64, EM_X86_64};
use heap_analyser::error::Error;

#[test]
fn parses_pc_sp_pid_and_leaves_tp_zero() {
    let mut desc = vec![0u8; aarch64::MIN_LEN];
    desc[aarch64::PR_PID..aarch64::PR_PID + 4].copy_from_slice(&7i32.to_le_bytes());
    desc[aarch64::SP..aarch64::SP + 8].copy_from_slice(&0xffffdeadbeefu64.to_le_bytes());
    desc[aarch64::PC..aarch64::PC + 8].copy_from_slice(&0x400abcu64.to_le_bytes());

    let regs = Aarch64.parse_prstatus(&desc).unwrap();
    assert_eq!(regs.thread_id, 7);
    assert_eq!(regs.sp, 0xffffdeadbeef);
    assert_eq!(regs.pc, 0x400abc);
    assert_eq!(regs.tp, 0, "tp comes from NT_ARM_TLS, not prstatus");
}

#[test]
fn tls_note_carries_thread_pointer() {
    assert_eq!(Aarch64.tls_note_type(), Some(aarch64::NT_ARM_TLS));
    let desc = 0x1234_5678_9abc_def0u64.to_le_bytes();
    assert_eq!(Aarch64.parse_tls_note(&desc), Some(0x1234_5678_9abc_def0));
    assert_eq!(Aarch64.parse_tls_note(&[0u8; 4]), None);
}

#[test]
fn aarch64_rejects_short_descriptor() {
    assert!(matches!(
        Aarch64.parse_prstatus(&[0u8; 8]),
        Err(Error::NoteTooShort { .. })
    ));
}

#[test]
fn parses_registers_at_expected_offsets() {
    let mut desc = vec![0u8; x86_64::MIN_LEN];
    desc[x86_64::PR_PID..x86_64::PR_PID + 4].copy_from_slice(&4242i32.to_le_bytes());
    desc[x86_64::RIP..x86_64::RIP + 8].copy_from_slice(&0x4011a0u64.to_le_bytes());
    desc[x86_64::RSP..x86_64::RSP + 8].copy_from_slice(&0x7fffffffe000u64.to_le_bytes());
    desc[x86_64::FS_BASE..x86_64::FS_BASE + 8]
        .copy_from_slice(&0x7ffff7d00740u64.to_le_bytes());

    let regs = X86_64.parse_prstatus(&desc).unwrap();
    assert_eq!(regs.thread_id, 4242);
    assert_eq!(regs.pc, 0x4011a0);
    assert_eq!(regs.sp, 0x7fffffffe000);
    assert_eq!(regs.tp, 0x7ffff7d00740);
}

#[test]
fn x86_64_rejects_short_descriptor() {
    let desc = vec![0u8; x86_64::MIN_LEN - 1];
    assert!(matches!(
        X86_64.parse_prstatus(&desc),
        Err(Error::NoteTooShort { .. })
    ));
}

#[test]
fn has_no_tls_note() {
    assert_eq!(X86_64.tls_note_type(), None);
}

#[test]
fn prstatus_offsets_follow_the_kernel_structures() {
    assert_eq!(x86_64::MIN_LEN, 288);
    assert_eq!(aarch64::MIN_LEN, 376);
}

#[test]
fn negative_thread_ids_keep_their_sign() {
    let mut desc = vec![0u8; x86_64::MIN_LEN];
    desc[x86_64::PR_PID..x86_64::PR_PID + 4].copy_from_slice(&(-5i32).to_le_bytes());
    assert_eq!(X86_64.parse_prstatus(&desc).unwrap().thread_id, -5);
}

#[test]
fn handlers_answer_for_their_machine() {
    let x = by_elf_machine(EM_X86_64).unwrap();
    assert_eq!(x.elf_machine(), 62);
    assert_eq!(x.name(), "x86_64");
    assert_eq!(x.tp_off_reloc_type(), 18);
    assert_eq!(x.parse_tls_note(&[0u8; 8]), None);
    let a = by_elf_machine(EM_AARCH64).unwrap();
    assert_eq!(a.elf_machine(), 183);
    assert_eq!(a.name(), "aarch64");
    assert_eq!(a.tp_off_reloc_type(), 1030);
    assert!(by_elf_machine(3).is_none());
}
