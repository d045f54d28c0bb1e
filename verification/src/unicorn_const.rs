use vstd::prelude::*;

verus! {

/// Size of an engine page in bytes; map, unmap and protect windows must be
/// aligned to it.
pub const PAGE_SIZE: usize = 4096;

/// No access.
pub const PERM_NONE: u32 = 0;

/// Read access.
pub const PERM_READ: u32 = 1;

/// Write access.
pub const PERM_WRITE: u32 = 2;

/// Execute access.
pub const PERM_EXEC: u32 = 4;

/// Read, write and execute access.
pub const PERM_ALL: u32 = 7;

/// The closed enumeration of guest architectures. `MAX` is the
/// enumeration's sentinel; constructing an emulator with it is rejected at
/// construction time rather than deep inside an accessor.
#[allow(non_camel_case_types)]
#[derive(Clone, Copy, PartialEq, Eq, Structural, Debug)]
pub enum Arch {
    ARM,
    ARM64,
    MIPS,
    X86,
    PPC,
    SPARC,
    M68K,
    RISCV,
    S390X,
    TRICORE,
    MAX,
}

/// The hardware mode an emulator runs in. Only the distinctions the
/// binding-layer helpers act on are carried; for x86 the mode selects the
/// register width and the calling convention.
#[allow(non_camel_case_types)]
#[derive(Clone, Copy, PartialEq, Eq, Structural, Debug)]
pub enum Mode {
    LITTLE_ENDIAN,
    BIG_ENDIAN,
    MODE_16,
    MODE_32,
    MODE_64,
    THUMB,
}

/// Error kinds returned by every fallible operation. `ARG` stands for an
/// invalid argument (misaligned window, disallowed hook kind, wrong buffer
/// size), `ARCH` and `MODE` for an architecture or mode a helper does not
/// cover, `HANDLE` for an invalid handle or context, `MAP` for an address
/// clash, `HOOK` for an unknown hook token, and the `*_UNMAPPED` kinds for
/// memory accesses outside mapped storage.
#[allow(non_camel_case_types)]
#[derive(Clone, Copy, PartialEq, Eq, Structural, Debug)]
pub enum uc_error {
    OK,
    NOMEM,
    ARCH,
    HANDLE,
    MODE,
    ARG,
    MAP,
    HOOK,
    READ_UNMAPPED,
    WRITE_UNMAPPED,
    FETCH_UNMAPPED,
    READ_PROT,
    WRITE_PROT,
    FETCH_PROT,
}

/// Internal-status queries an emulator answers.
#[allow(non_camel_case_types)]
#[derive(Clone, Copy, PartialEq, Eq, Structural, Debug)]
pub enum Query {
    ARCH,
    MODE,
    PAGE_SIZE,
}

/// One entry of the reported memory-region list. `end` is the last address
/// inside the region, so a region spans `[begin, end]` inclusively.
#[derive(Clone, Copy, PartialEq, Eq, Structural, Debug)]
pub struct MemRegion {
    pub begin: u64,
    pub end: u64,
    pub perms: u32,
}

impl Arch {
    /// The numeric code reported for this architecture by `query`.
    pub open spec fn code_spec(self) -> usize {
        match self {
            Arch::ARM => 1,
            Arch::ARM64 => 2,
            Arch::MIPS => 3,
            Arch::X86 => 4,
            Arch::PPC => 5,
            Arch::SPARC => 6,
            Arch::M68K => 7,
            Arch::RISCV => 8,
            Arch::S390X => 9,
            Arch::TRICORE => 10,
            Arch::MAX => 11,
        }
    }

    pub fn code(self) -> (r: usize)
        ensures
            r == self.code_spec(),
    {
        match self {
            Arch::ARM => 1,
            Arch::ARM64 => 2,
            Arch::MIPS => 3,
            Arch::X86 => 4,
            Arch::PPC => 5,
            Arch::SPARC => 6,
            Arch::M68K => 7,
            Arch::RISCV => 8,
            Arch::S390X => 9,
            Arch::TRICORE => 10,
            Arch::MAX => 11,
        }
    }
}

impl Mode {
    /// The numeric code reported for this mode by `query`.
    pub open spec fn code_spec(self) -> usize {
        match self {
            Mode::LITTLE_ENDIAN => 0,
            Mode::BIG_ENDIAN => 1,
            Mode::MODE_16 => 2,
            Mode::MODE_32 => 4,
            Mode::MODE_64 => 8,
            Mode::THUMB => 16,
        }
    }

    pub fn code(self) -> (r: usize)
        ensures
            r == self.code_spec(),
    {
        match self {
            Mode::LITTLE_ENDIAN => 0,
            Mode::BIG_ENDIAN => 1,
            Mode::MODE_16 => 2,
            Mode::MODE_32 => 4,
            Mode::MODE_64 => 8,
            Mode::THUMB => 16,
        }
    }
}

} // verus!
