use unicorn_engine::emulator::{Context, Unicorn};
use unicorn_engine::regs::{ARM64_Q0, ARM_R0, X86_GDTR, X86_RAX, X86_XMM0, X86_YMM0, X86_ZMM0};
use unicorn_engine::unicorn_const::{uc_error, Arch, Mode, Query};

#[test]
fn construction_validates_architecture_and_mode() {
    assert_eq!(Unicorn::new(Arch::MAX, Mode::MODE_64).err(), Some(uc_error::ARCH));
    assert_eq!(Unicorn::new(Arch::X86, Mode::LITTLE_ENDIAN).err(), Some(uc_error::MODE));
    assert!(Unicorn::new(Arch::X86, Mode::MODE_16).is_ok());
    assert!(Unicorn::new(Arch::ARM, Mode::THUMB).is_ok());
}

#[test]
fn instance_identity() {
    let mut emu = Unicorn::new(Arch::ARM, Mode::LITTLE_ENDIAN).unwrap();
    assert_eq!(emu.get_arch(), Arch::ARM);
    assert_eq!(emu.get_mode(), Mode::LITTLE_ENDIAN);
    assert_ne!(emu.get_handle(), 0);
    emu.set_crash_pc(0x1234);
    assert_eq!(emu.crash_pc(), 0x1234);
}

#[test]
fn caller_data_is_carried() {
    let mut emu = Unicorn::new_with_data(Arch::ARM, Mode::LITTLE_ENDIAN, 41u32).unwrap();
    assert_eq!(*emu.get_data(), 41);
    *emu.get_data_mut() += 1;
    assert_eq!(*emu.get_data(), 42);
}

#[test]
fn registers_read_back_and_default_to_zero() {
    let mut emu = Unicorn::new(Arch::X86, Mode::MODE_64).unwrap();
    assert_eq!(emu.reg_read(X86_RAX), Ok(0));
    emu.reg_write(X86_RAX, 0xffff_ffff_ffff_fffe).unwrap();
    assert_eq!(emu.reg_read(X86_RAX), Ok(0xffff_ffff_ffff_fffe));
    assert_eq!(emu.reg_read_i32(X86_RAX), Ok(-2));
}

#[test]
fn wide_registers_by_size_class() {
    let mut emu = Unicorn::new(Arch::X86, Mode::MODE_64).unwrap();
    // Never written: zeros of the class size.
    assert_eq!(emu.reg_read_long(X86_XMM0), Ok(vec![0u8; 16]));
    assert_eq!(emu.reg_read_long(X86_YMM0).unwrap().len(), 32);
    assert_eq!(emu.reg_read_long(X86_ZMM0).unwrap().len(), 64);
    assert_eq!(emu.reg_read_long(X86_GDTR).unwrap().len(), 10);
    // Round trip.
    let xmm: Vec<u8> = (0u8..16).collect();
    emu.reg_write_long(X86_XMM0, &xmm).unwrap();
    assert_eq!(emu.reg_read_long(X86_XMM0), Ok(xmm.clone()));
    // The buffer must match the class size.
    assert_eq!(emu.reg_write_long(X86_XMM0, &[0u8; 8]), Err(uc_error::ARG));
    assert_eq!(emu.reg_read_long(X86_XMM0), Ok(xmm));
    // A register with no wide class is rejected.
    assert_eq!(emu.reg_read_long(X86_RAX), Err(uc_error::ARG));
}

#[test]
fn wide_registers_on_other_architectures() {
    let mut emu = Unicorn::new(Arch::ARM64, Mode::LITTLE_ENDIAN).unwrap();
    emu.reg_write_long(ARM64_Q0, &[9u8; 16]).unwrap();
    assert_eq!(emu.reg_read_long(ARM64_Q0), Ok(vec![9u8; 16]));
    let emu = Unicorn::new(Arch::ARM, Mode::LITTLE_ENDIAN).unwrap();
    assert_eq!(emu.reg_read_long(ARM_R0), Err(uc_error::ARCH));
}

#[test]
fn queries_report_identity_and_page_size() {
    let emu = Unicorn::new(Arch::RISCV, Mode::MODE_64).unwrap();
    assert_eq!(emu.query(Query::PAGE_SIZE), Ok(4096));
    assert_eq!(emu.query(Query::ARCH), Ok(8));
    assert_eq!(emu.query(Query::MODE), Ok(8));
}

#[test]
fn stop_request_is_recorded() {
    let mut emu = Unicorn::new(Arch::ARM, Mode::LITTLE_ENDIAN).unwrap();
    assert!(!emu.inner.stop_requested);
    emu.emu_stop().unwrap();
    assert!(emu.inner.stop_requested);
}

#[test]
fn context_save_and_restore_round_trip() {
    let mut emu = Unicorn::new(Arch::ARM, Mode::LITTLE_ENDIAN).unwrap();
    emu.reg_write(ARM_R0, 1337).unwrap();
    let mut ctx = emu.context_alloc().unwrap();
    assert!(ctx.is_initialized());
    emu.context_save(&mut ctx).unwrap();
    emu.reg_write(ARM_R0, 0).unwrap();
    emu.context_restore(&ctx).unwrap();
    assert_eq!(emu.reg_read(ARM_R0), Ok(1337));
}

#[test]
fn context_init_captures_current_state() {
    let mut emu = Unicorn::new(Arch::ARM, Mode::LITTLE_ENDIAN).unwrap();
    emu.reg_write(ARM_R0, 7).unwrap();
    let ctx = emu.context_init().unwrap();
    emu.reg_write(ARM_R0, 8).unwrap();
    emu.context_restore(&ctx).unwrap();
    assert_eq!(emu.reg_read(ARM_R0), Ok(7));
}

#[test]
fn context_rejects_mismatched_instance() {
    let emu_arm = Unicorn::new(Arch::ARM, Mode::LITTLE_ENDIAN).unwrap();
    let mut emu_x86 = Unicorn::new(Arch::X86, Mode::MODE_64).unwrap();
    let mut ctx = emu_arm.context_alloc().unwrap();
    assert_eq!(emu_x86.context_save(&mut ctx), Err(uc_error::ARCH));
    assert_eq!(emu_x86.context_restore(&ctx), Err(uc_error::ARCH));
}

#[test]
fn restoring_unpopulated_context_clears_registers() {
    let mut emu = Unicorn::new(Arch::ARM, Mode::LITTLE_ENDIAN).unwrap();
    emu.reg_write(ARM_R0, 5).unwrap();
    let ctx = emu.context_alloc().unwrap();
    emu.context_restore(&ctx).unwrap();
    assert_eq!(emu.reg_read(ARM_R0), Ok(0));
}

#[test]
fn restoring_dead_context_is_a_handle_error() {
    let mut emu = Unicorn::new(Arch::ARM, Mode::LITTLE_ENDIAN).unwrap();
    let ctx = Context {
        arch: Arch::ARM,
        mode: Some(Mode::LITTLE_ENDIAN),
        initialized: false,
        saved_regs: vec![],
    };
    assert_eq!(emu.context_restore(&ctx), Err(uc_error::HANDLE));
}

#[test]
fn exhausted_token_counter_reports_no_memory() {
    let mut emu = Unicorn::new(Arch::ARM, Mode::LITTLE_ENDIAN).unwrap();
    emu.inner.next_token = u64::MAX;
    assert_eq!(emu.add_code_hook(0, u64::MAX), Err(uc_error::NOMEM));
}

#[test]
fn descriptor_table_register_round_trip() {
    let mut emu = Unicorn::new(Arch::X86, Mode::MODE_64).unwrap();
    let gdtr: Vec<u8> = (1u8..=10).collect();
    emu.reg_write_long(X86_GDTR, &gdtr).unwrap();
    assert_eq!(emu.reg_read_long(X86_GDTR), Ok(gdtr));
}
