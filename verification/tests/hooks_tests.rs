use unicorn_engine::emulator::Unicorn;
use unicorn_engine::hooks::{HookEvent, InsnSysX86, HOOK_MEM_READ, HOOK_MEM_WRITE};
use unicorn_engine::unicorn_const::{uc_error, Arch, Mode};

fn emu() -> Unicorn<()> {
    Unicorn::new(Arch::X86, Mode::MODE_64).unwrap()
}

#[test]
fn code_hook_fires_inside_its_range() {
    let mut emu = emu();
    let t = emu.add_code_hook(0x1000, 0x1fff).unwrap();
    assert_eq!(emu.hooks_matching(HookEvent::Code(0x1000)), vec![t]);
    assert_eq!(emu.hooks_matching(HookEvent::Code(0x1fff)), vec![t]);
    assert!(emu.hooks_matching(HookEvent::Code(0x2000)).is_empty());
    assert!(emu.hooks_matching(HookEvent::Block(0x1000)).is_empty());
}

#[test]
fn inverted_range_means_all_addresses() {
    let mut emu = emu();
    let t = emu.add_block_hook().unwrap();
    assert_eq!(emu.hooks_matching(HookEvent::Block(0)), vec![t]);
    assert_eq!(emu.hooks_matching(HookEvent::Block(u64::MAX)), vec![t]);
}

#[test]
fn tokens_are_distinct_and_ordered() {
    let mut emu = emu();
    let t1 = emu.add_code_hook(0, u64::MAX).unwrap();
    let t2 = emu.add_code_hook(0, u64::MAX).unwrap();
    let t3 = emu.add_intr_hook().unwrap();
    assert_ne!(t1, t2);
    assert_ne!(t2, t3);
    assert_eq!(emu.hooks_matching(HookEvent::Code(5)), vec![t1, t2]);
}

#[test]
fn removed_hook_never_fires_again() {
    let mut emu = emu();
    let t = emu.add_code_hook(0x1000, 0x1fff).unwrap();
    assert_eq!(emu.hooks_matching(HookEvent::Code(0x1234)), vec![t]);
    assert_eq!(emu.remove_hook(t), Ok(()));
    // The trigger condition recurs; the token is gone for good.
    assert!(emu.hooks_matching(HookEvent::Code(0x1234)).is_empty());
    // Removing it again reports an error and corrupts nothing.
    assert_eq!(emu.remove_hook(t), Err(uc_error::HOOK));
    assert!(emu.hooks_matching(HookEvent::Code(0x1234)).is_empty());
}

#[test]
fn remove_unknown_token_is_an_error() {
    let mut emu = emu();
    assert_eq!(emu.remove_hook(999), Err(uc_error::HOOK));
}

#[test]
fn removal_leaves_other_hooks_alone() {
    let mut emu = emu();
    let t1 = emu.add_code_hook(0, u64::MAX).unwrap();
    let t2 = emu.add_code_hook(0, u64::MAX).unwrap();
    emu.remove_hook(t1).unwrap();
    assert_eq!(emu.hooks_matching(HookEvent::Code(0)), vec![t2]);
}

#[test]
fn mem_hook_kind_is_validated() {
    let mut emu = emu();
    // A kind outside the memory-access kinds is rejected before the
    // engine sees it.
    assert_eq!(emu.add_mem_hook(0x4, 0, u64::MAX), Err(uc_error::ARG));
    assert_eq!(emu.add_mem_hook(0x1_0000, 0, u64::MAX), Err(uc_error::ARG));
    let t = emu.add_mem_hook(HOOK_MEM_READ | HOOK_MEM_WRITE, 0x1000, 0x1fff).unwrap();
    assert_eq!(emu.hooks_matching(HookEvent::Mem(HOOK_MEM_READ, 0x1000)), vec![t]);
    assert_eq!(emu.hooks_matching(HookEvent::Mem(HOOK_MEM_WRITE, 0x1fff)), vec![t]);
    assert!(emu.hooks_matching(HookEvent::Mem(HOOK_MEM_READ, 0x2000)).is_empty());
}

#[test]
fn instruction_hooks_match_their_events() {
    let mut emu = emu();
    let t_in = emu.add_insn_in_hook().unwrap();
    let t_out = emu.add_insn_out_hook().unwrap();
    let t_invalid = emu.add_insn_invalid_hook().unwrap();
    let t_intr = emu.add_intr_hook().unwrap();
    assert_eq!(emu.hooks_matching(HookEvent::InsnIn), vec![t_in]);
    assert_eq!(emu.hooks_matching(HookEvent::InsnOut), vec![t_out]);
    assert_eq!(emu.hooks_matching(HookEvent::InsnInvalid), vec![t_invalid]);
    assert_eq!(emu.hooks_matching(HookEvent::Intr), vec![t_intr]);
}

#[test]
fn syscall_hook_scoped_by_kind_and_range() {
    let mut emu = emu();
    let t = emu.add_insn_sys_hook(InsnSysX86::SYSCALL, 0x1000, 0x1fff).unwrap();
    assert_eq!(
        emu.hooks_matching(HookEvent::InsnSys(InsnSysX86::SYSCALL, 0x1800)),
        vec![t]
    );
    assert!(emu.hooks_matching(HookEvent::InsnSys(InsnSysX86::SYSENTER, 0x1800)).is_empty());
    assert!(emu.hooks_matching(HookEvent::InsnSys(InsnSysX86::SYSCALL, 0x2000)).is_empty());
}
