//! Numeric register identifiers, one namespace per architecture.
//!
//! The values are the identifiers the internal engine model keys its
//! register bank by; only their distinctness within an architecture
//! matters to the binding-layer logic.

use vstd::prelude::*;

verus! {

// x86 general-purpose and control registers.
pub const X86_EAX: i32 = 1;

pub const X86_EBX: i32 = 2;

pub const X86_ECX: i32 = 3;

pub const X86_EDX: i32 = 4;

pub const X86_ESI: i32 = 5;

pub const X86_EDI: i32 = 6;

pub const X86_EBP: i32 = 7;

pub const X86_ESP: i32 = 8;

pub const X86_EIP: i32 = 9;

pub const X86_RAX: i32 = 10;

pub const X86_RBX: i32 = 11;

pub const X86_RCX: i32 = 12;

pub const X86_RDX: i32 = 13;

pub const X86_RSI: i32 = 14;

pub const X86_RDI: i32 = 15;

pub const X86_RBP: i32 = 16;

pub const X86_RSP: i32 = 17;

pub const X86_RIP: i32 = 18;

pub const X86_R8: i32 = 19;

pub const X86_R9: i32 = 20;

pub const X86_R10: i32 = 21;

pub const X86_R11: i32 = 22;

pub const X86_R12: i32 = 23;

pub const X86_R13: i32 = 24;

pub const X86_R14: i32 = 25;

pub const X86_R15: i32 = 26;

// x86 wide registers: the 32 XMM, YMM and ZMM vector registers each form a
// contiguous identifier range, as do the eight x87 stack registers.
pub const X86_XMM0: i32 = 100;

pub const X86_XMM31: i32 = 131;

pub const X86_YMM0: i32 = 140;

pub const X86_YMM31: i32 = 171;

pub const X86_ZMM0: i32 = 180;

pub const X86_ZMM31: i32 = 211;

pub const X86_ST0: i32 = 220;

pub const X86_ST7: i32 = 227;

pub const X86_GDTR: i32 = 230;

pub const X86_IDTR: i32 = 231;

// ARM.
pub const ARM_R0: i32 = 1;

pub const ARM_R1: i32 = 2;

pub const ARM_R2: i32 = 3;

pub const ARM_R3: i32 = 4;

pub const ARM_R4: i32 = 5;

pub const ARM_R5: i32 = 6;

pub const ARM_PC: i32 = 16;

// ARM64. The 32 Q and V vector registers each form a contiguous range.
pub const ARM64_X0: i32 = 1;

pub const ARM64_X1: i32 = 2;

pub const ARM64_X2: i32 = 3;

pub const ARM64_X3: i32 = 4;

pub const ARM64_X4: i32 = 5;

pub const ARM64_X5: i32 = 6;

pub const ARM64_PC: i32 = 32;

pub const ARM64_Q0: i32 = 100;

pub const ARM64_Q31: i32 = 131;

pub const ARM64_V0: i32 = 140;

pub const ARM64_V31: i32 = 171;

// MIPS.
pub const MIPS_PC: i32 = 1;

pub const MIPS_A0: i32 = 2;

pub const MIPS_A1: i32 = 3;

pub const MIPS_A2: i32 = 4;

pub const MIPS_A3: i32 = 5;

pub const MIPS_V0: i32 = 6;

// SPARC.
pub const SPARC_PC: i32 = 1;

pub const SPARC_O0: i32 = 2;

pub const SPARC_O1: i32 = 3;

pub const SPARC_O2: i32 = 4;

pub const SPARC_O3: i32 = 5;

pub const SPARC_O4: i32 = 6;

pub const SPARC_O5: i32 = 7;

// M68K.
pub const M68K_PC: i32 = 1;

// PPC.
pub const PPC_PC: i32 = 1;

pub const PPC_R3: i32 = 3;

pub const PPC_R4: i32 = 4;

pub const PPC_R5: i32 = 5;

pub const PPC_R6: i32 = 6;

pub const PPC_R7: i32 = 7;

pub const PPC_R8: i32 = 8;

// RISC-V.
pub const RISCV_PC: i32 = 1;

pub const RISCV_RA: i32 = 2;

pub const RISCV_A0: i32 = 10;

pub const RISCV_A1: i32 = 11;

pub const RISCV_A2: i32 = 12;

pub const RISCV_A3: i32 = 13;

pub const RISCV_A4: i32 = 14;

pub const RISCV_A5: i32 = 15;

// S390X.
pub const S390X_PC: i32 = 1;

// TriCore.
pub const TRICORE_PC: i32 = 1;

} // verus!
