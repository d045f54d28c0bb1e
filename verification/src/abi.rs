//! The architecture ABI resolver: a pure mapping from (architecture,
//! hardware mode) to register roles — program counter, Linux syscall
//! argument and return registers, link register — and to where the first
//! three Linux integer function arguments live. Combinations a helper
//! does not cover resolve to an architecture or mode error instead of
//! aborting.

use vstd::prelude::*;
use crate::regbank::{reg_store, reg_val};
use crate::regs::{
    ARM64_PC, ARM64_X0, ARM64_X1, ARM64_X2, ARM64_X3, ARM64_X4, ARM64_X5, ARM_PC, ARM_R0, ARM_R1,
    ARM_R2, ARM_R3, ARM_R4, ARM_R5, M68K_PC, MIPS_A0, MIPS_A1, MIPS_A2, MIPS_A3, MIPS_PC, MIPS_V0,
    PPC_PC, PPC_R3, PPC_R4, PPC_R5, PPC_R6, PPC_R7, PPC_R8, RISCV_A0, RISCV_A1, RISCV_A2, RISCV_A3,
    RISCV_A4, RISCV_A5, RISCV_PC, RISCV_RA, S390X_PC, SPARC_O0, SPARC_O1, SPARC_O2, SPARC_O3,
    SPARC_O4, SPARC_O5, SPARC_PC, TRICORE_PC, X86_EAX, X86_EBX, X86_ECX, X86_EDI, X86_EDX, X86_EIP,
    X86_ESI, X86_R10, X86_R8, X86_R9, X86_RAX, X86_RDI, X86_RDX, X86_RIP, X86_RSI,
};
use crate::unicorn_const::{uc_error, Arch, Mode};

verus! {

/// The program-counter register for an architecture and mode: for x86 it
/// follows the mode's width, elsewhere it is fixed. A missing or
/// uncovered x86 mode is a mode error; the architecture sentinel is an
/// architecture error.
pub open spec fn spec_pc_reg(arch: Arch, mode: Option<Mode>) -> Result<i32, uc_error> {
    match arch {
        Arch::X86 => match mode {
            Some(Mode::MODE_32) => Ok(X86_EIP),
            Some(Mode::MODE_64) => Ok(X86_RIP),
            _ => Err(uc_error::MODE),
        },
        Arch::ARM => Ok(ARM_PC),
        Arch::ARM64 => Ok(ARM64_PC),
        Arch::MIPS => Ok(MIPS_PC),
        Arch::SPARC => Ok(SPARC_PC),
        Arch::M68K => Ok(M68K_PC),
        Arch::PPC => Ok(PPC_PC),
        Arch::RISCV => Ok(RISCV_PC),
        Arch::S390X => Ok(S390X_PC),
        Arch::TRICORE => Ok(TRICORE_PC),
        Arch::MAX => Err(uc_error::ARCH),
    }
}

/// The register carrying Linux syscall argument `n` (0-based). On x86 the
/// mode picks the table — notably 64-bit argument 3 is `R10`, not the
/// `RCX` of the ordinary calling convention, because the syscall trap
/// clobbers `RCX`.
pub open spec fn spec_syscall_arg_reg(arch: Arch, mode: Option<Mode>, n: int) -> Result<
    i32,
    uc_error,
> {
    match arch {
        Arch::X86 => match mode {
            Some(Mode::MODE_32) => if n == 0 {
                Ok(X86_EBX)
            } else if n == 1 {
                Ok(X86_ECX)
            } else if n == 2 {
                Ok(X86_EDX)
            } else if n == 3 {
                Ok(X86_ESI)
            } else if n == 4 {
                Ok(X86_EDI)
            } else {
                Err(uc_error::MODE)
            },
            Some(Mode::MODE_64) => if n == 0 {
                Ok(X86_RDI)
            } else if n == 1 {
                Ok(X86_RSI)
            } else if n == 2 {
                Ok(X86_RDX)
            } else if n == 3 {
                Ok(X86_R10)
            } else if n == 4 {
                Ok(X86_R8)
            } else if n == 5 {
                Ok(X86_R9)
            } else {
                Err(uc_error::ARCH)
            },
            _ => Err(uc_error::MODE),
        },
        Arch::ARM => if n == 0 {
            Ok(ARM_R0)
        } else if n == 1 {
            Ok(ARM_R1)
        } else if n == 2 {
            Ok(ARM_R2)
        } else if n == 3 {
            Ok(ARM_R3)
        } else if n == 4 {
            Ok(ARM_R4)
        } else if n == 5 {
            Ok(ARM_R5)
        } else {
            Err(uc_error::ARCH)
        },
        Arch::ARM64 => if n == 0 {
            Ok(ARM64_X0)
        } else if n == 1 {
            Ok(ARM64_X1)
        } else if n == 2 {
            Ok(ARM64_X2)
        } else if n == 3 {
            Ok(ARM64_X3)
        } else if n == 4 {
            Ok(ARM64_X4)
        } else if n == 5 {
            Ok(ARM64_X5)
        } else {
            Err(uc_error::ARCH)
        },
        Arch::MIPS => if n == 0 {
            Ok(MIPS_A0)
        } else if n == 1 {
            Ok(MIPS_A1)
        } else if n == 2 {
            Ok(MIPS_A2)
        } else if n == 3 {
            Ok(MIPS_A3)
        } else {
            Err(uc_error::ARCH)
        },
        Arch::SPARC => if n == 0 {
            Ok(SPARC_O0)
        } else if n == 1 {
            Ok(SPARC_O1)
        } else if n == 2 {
            Ok(SPARC_O2)
        } else if n == 3 {
            Ok(SPARC_O3)
        } else if n == 4 {
            Ok(SPARC_O4)
        } else if n == 5 {
            Ok(SPARC_O5)
        } else {
            Err(uc_error::ARCH)
        },
        Arch::PPC => if n == 0 {
            Ok(PPC_R3)
        } else if n == 1 {
            Ok(PPC_R4)
        } else if n == 2 {
            Ok(PPC_R5)
        } else if n == 3 {
            Ok(PPC_R6)
        } else if n == 4 {
            Ok(PPC_R7)
        } else if n == 5 {
            Ok(PPC_R8)
        } else {
            Err(uc_error::ARCH)
        },
        Arch::RISCV => if n == 0 {
            Ok(RISCV_A0)
        } else if n == 1 {
            Ok(RISCV_A1)
        } else if n == 2 {
            Ok(RISCV_A2)
        } else if n == 3 {
            Ok(RISCV_A3)
        } else if n == 4 {
            Ok(RISCV_A4)
        } else if n == 5 {
            Ok(RISCV_A5)
        } else {
            Err(uc_error::ARCH)
        },
        _ => Err(uc_error::ARCH),
    }
}

/// The register carrying a Linux syscall's return value.
pub open spec fn spec_syscall_ret_reg(arch: Arch, mode: Option<Mode>) -> Result<i32, uc_error> {
    match arch {
        Arch::X86 => match mode {
            Some(Mode::MODE_32) => Ok(X86_EAX),
            Some(Mode::MODE_64) => Ok(X86_RAX),
            _ => Err(uc_error::MODE),
        },
        Arch::ARM => Ok(ARM_R0),
        Arch::ARM64 => Ok(ARM64_X0),
        Arch::MIPS => Ok(MIPS_V0),
        Arch::SPARC => Ok(SPARC_O0),
        Arch::PPC => Ok(PPC_R3),
        Arch::RISCV => Ok(RISCV_A0),
        _ => Err(uc_error::ARCH),
    }
}

/// The link register; defined only for RISC-V.
pub open spec fn spec_link_reg(arch: Arch) -> Result<i32, uc_error> {
    match arch {
        Arch::RISCV => Ok(RISCV_RA),
        _ => Err(uc_error::ARCH),
    }
}

/// Where a Linux integer function argument lives: in a register, or — on
/// x86 in 32-bit mode — on the stack at the given offset above the stack
/// pointer, as a little-endian 32-bit word.
#[derive(Clone, Copy, PartialEq, Eq, Structural, Debug)]
pub enum ArgLoc {
    Reg(i32),
    Stack32(u64),
}

/// Where function argument `n` (0, 1 or 2) lives: on x86 in 32-bit mode
/// on the stack above the stack pointer, everywhere else in the
/// architecture's integer argument registers. Indices beyond 2 and the
/// architectures without a resolved convention here are an architecture
/// error.
pub open spec fn spec_function_arg(arch: Arch, mode: Option<Mode>, n: int) -> Result<
    ArgLoc,
    uc_error,
> {
    match arch {
        Arch::X86 => match mode {
            Some(Mode::MODE_32) => if n == 0 {
                Ok(ArgLoc::Stack32(4))
            } else if n == 1 {
                Ok(ArgLoc::Stack32(8))
            } else if n == 2 {
                Ok(ArgLoc::Stack32(0xc))
            } else {
                Err(uc_error::ARCH)
            },
            Some(Mode::MODE_64) => if n == 0 {
                Ok(ArgLoc::Reg(X86_RDI))
            } else if n == 1 {
                Ok(ArgLoc::Reg(X86_RSI))
            } else if n == 2 {
                Ok(ArgLoc::Reg(X86_RDX))
            } else {
                Err(uc_error::ARCH)
            },
            _ => Err(uc_error::MODE),
        },
        Arch::ARM => if n == 0 {
            Ok(ArgLoc::Reg(ARM_R0))
        } else if n == 1 {
            Ok(ArgLoc::Reg(ARM_R1))
        } else if n == 2 {
            Ok(ArgLoc::Reg(ARM_R2))
        } else {
            Err(uc_error::ARCH)
        },
        Arch::ARM64 => if n == 0 {
            Ok(ArgLoc::Reg(ARM64_X0))
        } else if n == 1 {
            Ok(ArgLoc::Reg(ARM64_X1))
        } else if n == 2 {
            Ok(ArgLoc::Reg(ARM64_X2))
        } else {
            Err(uc_error::ARCH)
        },
        Arch::MIPS => if n == 0 {
            Ok(ArgLoc::Reg(MIPS_A0))
        } else if n == 1 {
            Ok(ArgLoc::Reg(MIPS_A1))
        } else if n == 2 {
            Ok(ArgLoc::Reg(MIPS_A2))
        } else {
            Err(uc_error::ARCH)
        },
        Arch::SPARC => if n == 0 {
            Ok(ArgLoc::Reg(SPARC_O0))
        } else if n == 1 {
            Ok(ArgLoc::Reg(SPARC_O1))
        } else if n == 2 {
            Ok(ArgLoc::Reg(SPARC_O2))
        } else {
            Err(uc_error::ARCH)
        },
        Arch::PPC => if n == 0 {
            Ok(ArgLoc::Reg(PPC_R3))
        } else if n == 1 {
            Ok(ArgLoc::Reg(PPC_R4))
        } else if n == 2 {
            Ok(ArgLoc::Reg(PPC_R5))
        } else {
            Err(uc_error::ARCH)
        },
        Arch::RISCV => if n == 0 {
            Ok(ArgLoc::Reg(RISCV_A0))
        } else if n == 1 {
            Ok(ArgLoc::Reg(RISCV_A1))
        } else if n == 2 {
            Ok(ArgLoc::Reg(RISCV_A2))
        } else {
            Err(uc_error::ARCH)
        },
        _ => Err(uc_error::ARCH),
    }
}

/// The little-endian value of a byte sequence.
pub open spec fn le_word(bytes: Seq<u8>) -> int
    decreases bytes.len(),
{
    if bytes.len() == 0 {
        0
    } else {
        bytes[0] + 256 * le_word(bytes.drop_first())
    }
}

/// The little-endian value of four bytes, spelled out.
pub proof fn lemma_le_word_4(b: Seq<u8>)
    requires
        b.len() == 4,
    ensures
        le_word(b) == b[0] + 256 * b[1] + 65536 * b[2] + 16777216 * b[3],
        0 <= le_word(b) < 0x1_0000_0000,
{
    let b1 = b.drop_first();
    let b2 = b1.drop_first();
    let b3 = b2.drop_first();
    let b4 = b3.drop_first();
    assert(b4.len() == 0);
    assert(le_word(b4) == 0);
    assert(le_word(b3) == b3[0] + 256 * le_word(b4));
    assert(b3[0] == b[3]);
    assert(le_word(b3) == b[3]);
    assert(le_word(b2) == b[2] + 256 * le_word(b3));
    assert(le_word(b1) == b[1] + 256 * le_word(b2));
    assert(le_word(b) == b[0] + 256 * le_word(b1));
}

/// The little-endian value of eight bytes, spelled out.
pub proof fn lemma_le_word_8(b: Seq<u8>)
    requires
        b.len() == 8,
    ensures
        le_word(b) == b[0] + 0x100 * b[1] + 0x1_0000 * b[2] + 0x100_0000 * b[3] + 0x1_0000_0000 * b[4] + 0x100_0000_0000 * b[5] + 0x1_0000_0000_0000 * b[6] + 0x100_0000_0000_0000 * b[7],
        0 <= le_word(b) <= u64::MAX,
{
    let b1 = b.drop_first();
    let b2 = b1.drop_first();
    let b3 = b2.drop_first();
    let b4 = b3.drop_first();
    let b5 = b4.drop_first();
    let b6 = b5.drop_first();
    let b7 = b6.drop_first();
    let b8 = b7.drop_first();
    assert(b8.len() == 0);
    assert(le_word(b8) == 0);
    assert(le_word(b7) == b7[0] + 256 * le_word(b8));
    assert(b7[0] == b[7]);
    assert(le_word(b7) == b[7]);
    assert(le_word(b6) == b[6] + 256 * le_word(b7));
    assert(le_word(b5) == b[5] + 256 * le_word(b6));
    assert(le_word(b4) == b[4] + 256 * le_word(b5));
    assert(le_word(b3) == b[3] + 256 * le_word(b4));
    assert(le_word(b2) == b[2] + 256 * le_word(b3));
    assert(le_word(b1) == b[1] + 256 * le_word(b2));
    assert(le_word(b) == b[0] + 256 * le_word(b1));
}

/// Assemble four little-endian bytes into a value.
pub fn le32(v: &Vec<u8>) -> (r: u64)
    requires
        v@.len() == 4,
    ensures
        r == le_word(v@),
{
    proof {
        lemma_le_word_4(v@);
    }
    (v[0] as u64) + 256u64 * (v[1] as u64) + 65536u64 * (v[2] as u64) + 16777216u64 * (v[3] as u64)
}

/// Assemble eight little-endian bytes into a value.
pub fn le64(v: &Vec<u8>) -> (r: u64)
    requires
        v@.len() == 8,
    ensures
        r == le_word(v@),
{
    proof {
        lemma_le_word_8(v@);
    }
    (v[0] as u64) + 0x100u64 * (v[1] as u64) + 0x1_0000u64 * (v[2] as u64) + 0x100_0000u64 * (v[3]
        as u64) + 0x1_0000_0000u64 * (v[4] as u64) + 0x100_0000_0000u64 * (v[5] as u64)
        + 0x1_0000_0000_0000u64 * (v[6] as u64) + 0x100_0000_0000_0000u64 * (v[7] as u64)
}

/// Writing the program counter and reading it back yields the written
/// value, for every architecture/mode pair that resolves one: the store
/// into the resolved register is read back exactly by the same
/// resolution.
pub proof fn lemma_pc_round_trip(bank: Seq<(i32, u64)>, arch: Arch, mode: Option<Mode>, value: u64)
    requires
        spec_pc_reg(arch, mode) is Ok,
    ensures
        reg_val(reg_store(bank, spec_pc_reg(arch, mode)->Ok_0, value), spec_pc_reg(arch, mode)->Ok_0)
            == value,
{
    crate::regbank::lemma_reg_store_val(bank, spec_pc_reg(arch, mode)->Ok_0, value);
}

} // verus!
