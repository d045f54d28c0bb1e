use unicorn_engine::emulator::Unicorn;
use unicorn_engine::regs::{
    ARM64_X3, ARM_PC, ARM_R1, ARM_R2, ARM_R3, MIPS_A1, MIPS_A3, MIPS_V0, PPC_R4, PPC_R6, RISCV_A1,
    RISCV_A2, RISCV_A3, RISCV_RA, SPARC_O2, SPARC_O3, X86_EAX, X86_EBX, X86_ESI, X86_ESP, X86_R10,
    X86_RAX, X86_RCX, X86_RDI, X86_RDX, X86_RSI, X86_RSP,
};
use unicorn_engine::unicorn_const::{uc_error, Arch, Mode, PERM_ALL};

#[test]
fn pc_round_trip_every_architecture() {
    let pairs = [
        (Arch::X86, Mode::MODE_32),
        (Arch::X86, Mode::MODE_64),
        (Arch::ARM, Mode::LITTLE_ENDIAN),
        (Arch::ARM64, Mode::LITTLE_ENDIAN),
        (Arch::MIPS, Mode::MODE_32),
        (Arch::SPARC, Mode::BIG_ENDIAN),
        (Arch::M68K, Mode::BIG_ENDIAN),
        (Arch::PPC, Mode::BIG_ENDIAN),
        (Arch::RISCV, Mode::MODE_64),
        (Arch::S390X, Mode::BIG_ENDIAN),
        (Arch::TRICORE, Mode::LITTLE_ENDIAN),
    ];
    for (arch, mode) in pairs {
        let mut emu = Unicorn::new(arch, mode).expect("open failed");
        emu.set_pc(0x1234_5678_9abc_def0).expect("set_pc failed");
        assert_eq!(emu.get_pc(), Ok(0x1234_5678_9abc_def0));
    }
}

#[test]
fn pc_unsupported_x86_mode() {
    let mut emu = Unicorn::new(Arch::X86, Mode::MODE_16).unwrap();
    assert_eq!(emu.get_pc(), Err(uc_error::MODE));
    assert_eq!(emu.set_pc(1), Err(uc_error::MODE));
}

#[test]
fn syscall_arg3_on_x86_64_is_r10_not_rcx() {
    let emu = Unicorn::new(Arch::X86, Mode::MODE_64).unwrap();
    assert_eq!(emu.syscall_arg3_reg(), Ok(X86_R10));
    // The ordinary 4th function-call argument register is RCX; the
    // syscall convention must differ because the trap clobbers RCX.
    assert_ne!(X86_R10, X86_RCX);
}

#[test]
fn syscall_registers_per_architecture() {
    let emu = Unicorn::new(Arch::X86, Mode::MODE_32).unwrap();
    assert_eq!(emu.syscall_arg0_reg(), Ok(X86_EBX));
    assert_eq!(emu.syscall_arg3_reg(), Ok(X86_ESI));
    assert_eq!(emu.syscall_arg5_reg(), Err(uc_error::MODE));
    assert_eq!(emu.syscall_return_reg(), Ok(X86_EAX));

    let emu = Unicorn::new(Arch::X86, Mode::MODE_64).unwrap();
    assert_eq!(emu.syscall_arg0_reg(), Ok(X86_RDI));
    assert_eq!(emu.syscall_return_reg(), Ok(X86_RAX));

    let emu = Unicorn::new(Arch::ARM, Mode::LITTLE_ENDIAN).unwrap();
    assert_eq!(emu.syscall_arg3_reg(), Ok(ARM_R3));

    let emu = Unicorn::new(Arch::ARM64, Mode::LITTLE_ENDIAN).unwrap();
    assert_eq!(emu.syscall_arg3_reg(), Ok(ARM64_X3));

    let emu = Unicorn::new(Arch::MIPS, Mode::MODE_32).unwrap();
    assert_eq!(emu.syscall_arg3_reg(), Ok(MIPS_A3));
    assert_eq!(emu.syscall_arg4_reg(), Err(uc_error::ARCH));
    assert_eq!(emu.syscall_return_reg(), Ok(MIPS_V0));

    let emu = Unicorn::new(Arch::SPARC, Mode::BIG_ENDIAN).unwrap();
    assert_eq!(emu.syscall_arg3_reg(), Ok(SPARC_O3));

    let emu = Unicorn::new(Arch::PPC, Mode::BIG_ENDIAN).unwrap();
    assert_eq!(emu.syscall_arg3_reg(), Ok(PPC_R6));

    let emu = Unicorn::new(Arch::RISCV, Mode::MODE_64).unwrap();
    assert_eq!(emu.syscall_arg3_reg(), Ok(RISCV_A3));

    let emu = Unicorn::new(Arch::M68K, Mode::BIG_ENDIAN).unwrap();
    assert_eq!(emu.syscall_arg0_reg(), Err(uc_error::ARCH));
    assert_eq!(emu.syscall_return_reg(), Err(uc_error::ARCH));
}

#[test]
fn link_register_only_riscv() {
    let emu = Unicorn::new(Arch::RISCV, Mode::MODE_64).unwrap();
    assert_eq!(emu.link_register(), Ok(RISCV_RA));
    let emu = Unicorn::new(Arch::ARM, Mode::LITTLE_ENDIAN).unwrap();
    assert_eq!(emu.link_register(), Err(uc_error::ARCH));
}

#[test]
fn function_args_from_registers_on_x86_64() {
    let mut emu = Unicorn::new(Arch::X86, Mode::MODE_64).unwrap();
    emu.reg_write(X86_RDI, 11).unwrap();
    emu.reg_write(X86_RSI, 22).unwrap();
    emu.reg_write(X86_RDX, 33).unwrap();
    assert_eq!(emu.function_arg0_val(), Ok(11));
    assert_eq!(emu.function_arg1_val(), Ok(22));
    assert_eq!(emu.function_arg2_val(), Ok(33));
}

#[test]
fn function_args_from_stack_on_x86_32() {
    let mut emu = Unicorn::new(Arch::X86, Mode::MODE_32).unwrap();
    emu.mem_map(0x1000, 0x1000, PERM_ALL).unwrap();
    let esp: u64 = 0x1800;
    emu.reg_write(X86_ESP, esp).unwrap();
    emu.mem_write(esp + 4, &[0x2a, 0, 0, 0]).unwrap();
    emu.mem_write(esp + 8, &[0x01, 0x02, 0, 0]).unwrap();
    emu.mem_write(esp + 0xc, &[0xff, 0xff, 0xff, 0xff]).unwrap();
    assert_eq!(emu.function_arg0_val(), Ok(0x2a));
    assert_eq!(emu.function_arg1_val(), Ok(0x0201));
    assert_eq!(emu.function_arg2_val(), Ok(0xffff_ffff));
}

#[test]
fn function_args_from_registers_elsewhere() {
    let mut emu = Unicorn::new(Arch::ARM, Mode::LITTLE_ENDIAN).unwrap();
    emu.reg_write(ARM_R1, 21).unwrap();
    emu.reg_write(ARM_R2, 22).unwrap();
    assert_eq!(emu.function_arg1_val(), Ok(21));
    assert_eq!(emu.function_arg2_val(), Ok(22));

    let mut emu = Unicorn::new(Arch::RISCV, Mode::MODE_64).unwrap();
    emu.reg_write(RISCV_A1, 31).unwrap();
    emu.reg_write(RISCV_A2, 32).unwrap();
    assert_eq!(emu.function_arg1_val(), Ok(31));
    assert_eq!(emu.function_arg2_val(), Ok(32));

    let mut emu = Unicorn::new(Arch::MIPS, Mode::MODE_32).unwrap();
    emu.reg_write(MIPS_A1, 41).unwrap();
    assert_eq!(emu.function_arg1_val(), Ok(41));

    let mut emu = Unicorn::new(Arch::SPARC, Mode::BIG_ENDIAN).unwrap();
    emu.reg_write(SPARC_O2, 51).unwrap();
    assert_eq!(emu.function_arg2_val(), Ok(51));

    let mut emu = Unicorn::new(Arch::PPC, Mode::BIG_ENDIAN).unwrap();
    emu.reg_write(PPC_R4, 61).unwrap();
    assert_eq!(emu.function_arg1_val(), Ok(61));
}

#[test]
fn function_args_unsupported_architectures() {
    let emu = Unicorn::new(Arch::M68K, Mode::BIG_ENDIAN).unwrap();
    assert_eq!(emu.function_arg0_val(), Err(uc_error::ARCH));
    assert_eq!(emu.function_arg1_val(), Err(uc_error::ARCH));
    let emu = Unicorn::new(Arch::S390X, Mode::BIG_ENDIAN).unwrap();
    assert_eq!(emu.function_arg2_val(), Err(uc_error::ARCH));
    let emu = Unicorn::new(Arch::TRICORE, Mode::LITTLE_ENDIAN).unwrap();
    assert_eq!(emu.function_arg1_val(), Err(uc_error::ARCH));
}

#[test]
fn simulate_return_x86_32_pops_stack_into_pc() {
    let mut emu = Unicorn::new(Arch::X86, Mode::MODE_32).unwrap();
    emu.mem_map(0x1000, 0x1000, PERM_ALL).unwrap();
    let p: u64 = 0x1800;
    emu.reg_write(X86_ESP, p).unwrap();
    emu.mem_write(p, &[0x78, 0x56, 0x34, 0x12]).unwrap();
    emu.simulate_return().unwrap();
    assert_eq!(emu.reg_read(X86_ESP), Ok(p + 4));
    assert_eq!(emu.get_pc(), Ok(0x1234_5678));
}

#[test]
fn simulate_return_x86_64_pops_eight_bytes() {
    let mut emu = Unicorn::new(Arch::X86, Mode::MODE_64).unwrap();
    emu.mem_map(0x1000, 0x1000, PERM_ALL).unwrap();
    let p: u64 = 0x1800;
    emu.reg_write(X86_RSP, p).unwrap();
    emu.mem_write(p, &[8, 7, 6, 5, 4, 3, 2, 1]).unwrap();
    emu.simulate_return().unwrap();
    assert_eq!(emu.reg_read(X86_RSP), Ok(p + 8));
    assert_eq!(emu.get_pc(), Ok(0x0102_0304_0506_0708));
}

#[test]
fn simulate_return_riscv_uses_link_register() {
    let mut emu = Unicorn::new(Arch::RISCV, Mode::MODE_64).unwrap();
    emu.reg_write(RISCV_RA, 0xdead_beef).unwrap();
    emu.simulate_return().unwrap();
    assert_eq!(emu.get_pc(), Ok(0xdead_beef));
}

#[test]
fn simulate_return_unsupported() {
    let mut emu = Unicorn::new(Arch::ARM, Mode::LITTLE_ENDIAN).unwrap();
    assert_eq!(emu.simulate_return(), Err(uc_error::ARCH));
}

#[test]
fn func_return_addr_reads_without_popping() {
    let mut emu = Unicorn::new(Arch::X86, Mode::MODE_32).unwrap();
    emu.mem_map(0x1000, 0x1000, PERM_ALL).unwrap();
    let p: u64 = 0x1400;
    emu.reg_write(X86_ESP, p).unwrap();
    emu.mem_write(p, &[0x21, 0x43, 0x65, 0x07]).unwrap();
    assert_eq!(emu.func_return_addr(), Ok(0x0765_4321));
    assert_eq!(emu.reg_read(X86_ESP), Ok(p));

    let mut emu = Unicorn::new(Arch::RISCV, Mode::MODE_64).unwrap();
    emu.reg_write(RISCV_RA, 0x4242).unwrap();
    assert_eq!(emu.func_return_addr(), Ok(0x4242));
}

#[test]
fn pc_register_is_arch_specific() {
    let mut emu = Unicorn::new(Arch::ARM, Mode::LITTLE_ENDIAN).unwrap();
    emu.set_pc(0x8000).unwrap();
    assert_eq!(emu.reg_read(ARM_PC), Ok(0x8000));
}
