//! The shared emulator state and its operations: construction, register
//! and memory access, memory-mapped-I/O scopes, the hook registry, CPU
//! context snapshots, and the cross-architecture helpers built on the ABI
//! resolver.
//!
//! One emulator is driven by one logical thread at a time; the engine
//! invokes at most one callback at a time, on the thread inside the run
//! entry point. Within this verified core the state is a single owned
//! value, so exclusive access is what the borrow checker already
//! enforces; callback callables live outside, keyed by the token or
//! identifier the registration handed out.

use vstd::prelude::*;
use crate::abi::{
    le32, le64, le_word, spec_function_arg, spec_link_reg, spec_pc_reg, spec_syscall_arg_reg,
    spec_syscall_ret_reg, ArgLoc,
};
use crate::hooks::{
    hook_select, hooks_remove, select_hooks, remove_hook_token, HookEvent, HookKind, HookReg,
    InsnSysX86, HOOK_MEM_VALID_MASK,
};
use crate::memory::{
    g_in_ram, g_read_bytes, g_regions_wf, g_rep, g_store_bytes, g_unmap, g_protect, g_zero, gviews,
    mem_read_bytes, mem_write_bytes, regions_map, regions_protect, regions_report, regions_unmap,
    spec_regions_map, MappedRegion,
};
use crate::mmio::{
    g_read_cb_at, g_scopes_unmap, g_scopes_wf, g_write_cb_at, gscope, gscopes, GScope,
    MmioCallbackScope,
};
use crate::regbank::{bank_read, bank_write, reg_store, reg_val};
use crate::regs::{
    ARM64_Q0, ARM64_Q31, ARM64_V0, ARM64_V31, X86_ESP, X86_GDTR, X86_IDTR, X86_RSP, X86_ST0,
    X86_ST7, X86_XMM0, X86_XMM31, X86_YMM0, X86_YMM31, X86_ZMM0, X86_ZMM31,
};
use crate::unicorn_const::{uc_error, Arch, MemRegion, Mode, Query, PAGE_SIZE, PERM_ALL};

verus! {

/// The state behind one emulator instance: identity, the register banks,
/// the memory-region bookkeeping, the hook registry, and the
/// memory-mapped-I/O callback scopes.
#[verifier::ext_equal]
pub struct UnicornInner<D> {
    /// Engine handle; non-zero for the instance's whole lifetime.
    pub handle: u64,
    /// Whether the instance was adopted from a pre-existing foreign
    /// handle rather than created here; an adopted native resource is
    /// never released by this layer.
    pub ffi: bool,
    pub arch: Arch,
    /// Absent only for an adopted instance whose mode was never learned.
    pub mode: Option<Mode>,
    pub data: D,
    /// Debug-only crash program counter.
    pub crash_pc: u64,
    /// Fixed-width registers, keyed by identifier; absent means zero.
    pub regs: Vec<(i32, u64)>,
    /// Wide registers in write order; the latest entry for an identifier
    /// wins.
    pub long_regs: Vec<(i32, Vec<u8>)>,
    /// Mapped memory, sorted and disjoint.
    pub regions: Vec<MappedRegion>,
    /// Hook registrations, owned for the instance's lifetime unless
    /// removed.
    pub hooks: Vec<HookReg>,
    /// Memory-mapped-I/O callback scopes.
    pub mmio_callbacks: Vec<MmioCallbackScope>,
    /// The next hook token to hand out.
    pub next_token: u64,
    /// A cooperative stop was requested from a callback.
    pub stop_requested: bool,
}

/// The size class of a wide register: 16, 32 or 64 bytes for the x86 and
/// ARM64 vector registers, 10 bytes for the x86 descriptor-table and
/// floating-point stack registers. Other identifiers have no wide class,
/// and other architectures have none at all.
pub open spec fn spec_long_reg_size(arch: Arch, regid: i32) -> Result<usize, uc_error> {
    if arch == Arch::X86 {
        if X86_XMM0 <= regid && regid <= X86_XMM31 {
            Ok(16)
        } else if X86_YMM0 <= regid && regid <= X86_YMM31 {
            Ok(32)
        } else if X86_ZMM0 <= regid && regid <= X86_ZMM31 {
            Ok(64)
        } else if regid == X86_GDTR || regid == X86_IDTR || (X86_ST0 <= regid && regid
            <= X86_ST7) {
            Ok(10)
        } else {
            Err(uc_error::ARG)
        }
    } else if arch == Arch::ARM64 {
        if (ARM64_Q0 <= regid && regid <= ARM64_Q31) || (ARM64_V0 <= regid && regid <= ARM64_V31) {
            Ok(16)
        } else {
            Err(uc_error::ARG)
        }
    } else {
        Err(uc_error::ARCH)
    }
}

/// The bytes the wide-register bank holds for `id`: the latest write
/// wins; absent means the register was never written.
pub open spec fn lreg_bytes(bank: Seq<(i32, Vec<u8>)>, id: i32) -> Option<Seq<u8>>
    decreases bank.len(),
{
    if bank.len() == 0 {
        None
    } else if bank.last().0 == id {
        Some(bank.last().1@)
    } else {
        lreg_bytes(bank.drop_last(), id)
    }
}

impl<D> UnicornInner<D> {
    /// Well-formedness: a live handle, well-formed region and scope
    /// bookkeeping, hook tokens below the next to be issued, and every
    /// stored wide register matching its size class.
    pub open spec fn wf(&self) -> bool {
        &&& self.handle != 0
        &&& g_regions_wf(gviews(self.regions@))
        &&& g_scopes_wf(gscopes(self.mmio_callbacks@))
        &&& forall|i: int|
            0 <= i < self.hooks@.len() ==> (#[trigger] self.hooks@[i]).token < self.next_token
        &&& forall|i: int|
            0 <= i < self.long_regs@.len() ==> spec_long_reg_size(
                self.arch,
                (#[trigger] self.long_regs@[i]).0,
            ) is Ok && self.long_regs@[i].1@.len() == spec_long_reg_size(
                self.arch,
                self.long_regs@[i].0,
            )->Ok_0
    }
}

/// An emulator instance.
pub struct Unicorn<D> {
    pub inner: UnicornInner<D>,
}

/// The outcome of opening an emulator: the architecture sentinel is
/// rejected, and x86 demands a register-width mode.
pub open spec fn spec_new_ok(arch: Arch, mode: Mode) -> Result<(), uc_error> {
    if arch == Arch::MAX {
        Err(uc_error::ARCH)
    } else if arch == Arch::X86 && !(mode == Mode::MODE_16 || mode == Mode::MODE_32 || mode
        == Mode::MODE_64) {
        Err(uc_error::MODE)
    } else {
        Ok(())
    }
}

/// An opaque CPU-state snapshot: the register bank of an instance of a
/// fixed architecture and mode, populated by `context_save`.
pub struct Context {
    pub arch: Arch,
    pub mode: Option<Mode>,
    /// Whether the snapshot storage is live; a freshly allocated context
    /// is live but holds cleared registers until a save populates it.
    pub initialized: bool,
    pub saved_regs: Vec<(i32, u64)>,
}

impl Context {
    /// Whether the snapshot storage is live.
    pub fn is_initialized(&self) -> (r: bool)
        ensures
            r == self.initialized,
    {
        self.initialized
    }
}

impl Unicorn<()> {
    /// Create a new emulator for the given architecture and hardware
    /// mode.
    pub fn new(arch: Arch, mode: Mode) -> (r: Result<Unicorn<()>, uc_error>)
        ensures
            spec_new_ok(arch, mode) matches Err(e) ==> r matches Err(e2) && e2 == e,
            spec_new_ok(arch, mode) is Ok ==> (r matches Ok(u) && u.inner.arch == arch
                && u.inner.mode == Some(mode) && u.inner.handle == 1 && !u.inner.ffi
                && u.inner.crash_pc == 0 && u.inner.regs@.len() == 0 && u.inner.long_regs@.len()
                == 0 && u.inner.regions@.len() == 0 && u.inner.hooks@.len() == 0
                && u.inner.mmio_callbacks@.len() == 0 && u.inner.next_token == 1
                && !u.inner.stop_requested && u.inner.wf()),
    {
        Unicorn::new_with_data(arch, mode, ())
    }
}

impl<D> Unicorn<D> {
    /// Well-formedness of the instance's bookkeeping.
    pub open spec fn wf(&self) -> bool {
        self.inner.wf()
    }

    /// Create a new emulator carrying caller data.
    pub fn new_with_data(arch: Arch, mode: Mode, data: D) -> (r: Result<Unicorn<D>, uc_error>)
        ensures
            spec_new_ok(arch, mode) matches Err(e) ==> r matches Err(e2) && e2 == e,
            spec_new_ok(arch, mode) is Ok ==> (r matches Ok(u) && u.inner.arch == arch
                && u.inner.mode == Some(mode) && u.inner.handle == 1 && !u.inner.ffi
                && u.inner.data == data && u.inner.crash_pc == 0 && u.inner.regs@.len() == 0
                && u.inner.long_regs@.len() == 0 && u.inner.regions@.len() == 0
                && u.inner.hooks@.len() == 0 && u.inner.mmio_callbacks@.len() == 0
                && u.inner.next_token == 1 && !u.inner.stop_requested && u.inner.wf()),
    {
        if arch == Arch::MAX {
            return Err(uc_error::ARCH);
        }
        if arch == Arch::X86 && !(mode == Mode::MODE_16 || mode == Mode::MODE_32 || mode
            == Mode::MODE_64) {
            return Err(uc_error::MODE);
        }
        let u = Unicorn {
            inner: UnicornInner {
                handle: 1,
                ffi: false,
                arch,
                mode: Some(mode),
                data,
                crash_pc: 0,
                regs: Vec::new(),
                long_regs: Vec::new(),
                regions: Vec::new(),
                hooks: Vec::new(),
                mmio_callbacks: Vec::new(),
                next_token: 1,
                stop_requested: false,
            },
        };
        Ok(u)
    }

    /// The data passed at construction.
    pub fn get_data(&self) -> (r: &D)
        ensures
            *r == self.inner.data,
    {
        &self.inner.data
    }

    /// Mutable access to the data passed at construction.
    pub fn get_data_mut(&mut self) -> (r: &mut D)
        ensures
            *r == old(self).inner.data,
            final(self).inner == (UnicornInner { data: *final(r), ..old(self).inner }),
    {
        &mut self.inner.data
    }

    /// The architecture of this emulator.
    pub fn get_arch(&self) -> (r: Arch)
        ensures
            r == self.inner.arch,
    {
        self.inner.arch
    }

    /// The hardware mode of this emulator; it must have one.
    pub fn get_mode(&self) -> (r: Mode)
        requires
            self.inner.mode is Some,
        ensures
            Some(r) == self.inner.mode,
    {
        match self.inner.mode {
            Some(m) => m,
            None => unreached(),
        }
    }

    /// Record the crash program counter.
    pub fn set_crash_pc(&mut self, pc: u64)
        ensures
            final(self).inner == (UnicornInner { crash_pc: pc, ..old(self).inner }),
    {
        self.inner.crash_pc = pc;
    }

    /// The recorded crash program counter.
    pub fn crash_pc(&mut self) -> (r: u64)
        ensures
            r == old(self).inner.crash_pc,
            *final(self) == *old(self),
    {
        self.inner.crash_pc
    }

    /// The engine handle; non-zero for the instance's lifetime.
    pub fn get_handle(&self) -> (r: u64)
        ensures
            r == self.inner.handle,
    {
        self.inner.handle
    }

    /// Write a register. Every identifier is accepted; the engine model
    /// keys its bank by the raw identifier.
    pub fn reg_write(&mut self, regid: i32, value: u64) -> (r: Result<(), uc_error>)
        ensures
            r is Ok,
            final(self).inner.regs@ == reg_store(old(self).inner.regs@, regid, value),
            final(self).inner == (UnicornInner { regs: final(self).inner.regs, ..old(self).inner }),
    {
        bank_write(&mut self.inner.regs, regid, value);
        Ok(())
    }

    /// Read a register; one never written reads as zero.
    pub fn reg_read(&self, regid: i32) -> (r: Result<u64, uc_error>)
        ensures
            r == Ok::<u64, uc_error>(reg_val(self.inner.regs@, regid)),
    {
        Ok(bank_read(&self.inner.regs, regid))
    }

    /// Read the low 32 bits of a register as a signed value.
    pub fn reg_read_i32(&self, regid: i32) -> (r: Result<i32, uc_error>)
        ensures
            r == Ok::<i32, uc_error>(reg_val(self.inner.regs@, regid) as i32),
    {
        let v = bank_read(&self.inner.regs, regid);
        Ok(v as i32)
    }

    /// Write a wide register from a buffer whose length must match the
    /// register's size class.
    pub fn reg_write_long(&mut self, regid: i32, value: &[u8]) -> (r: Result<(), uc_error>)
        requires
            old(self).wf(),
        ensures
            spec_long_reg_size(old(self).inner.arch, regid) matches Err(e) ==> r == Err::<
                (),
                uc_error,
            >(e) && *final(self) == *old(self),
            spec_long_reg_size(old(self).inner.arch, regid) matches Ok(sz) ==> (if value@.len()
                != sz {
                r == Err::<(), uc_error>(uc_error::ARG) && *final(self) == *old(self)
            } else {
                r is Ok && lreg_bytes(final(self).inner.long_regs@, regid) == Some(value@) && (
                forall|x: i32|
                    x != regid ==> lreg_bytes(final(self).inner.long_regs@, x) == lreg_bytes(
                        old(self).inner.long_regs@,
                        x,
                    )) && final(self).inner == (UnicornInner {
                    long_regs: final(self).inner.long_regs,
                    ..old(self).inner
                })
            }),
            final(self).wf(),
    {
        let sz = match self.long_reg_size(regid) {
            Ok(sz) => sz,
            Err(e) => {
                return Err(e);
            },
        };
        if value.len() != sz {
            return Err(uc_error::ARG);
        }
        let mut copied: Vec<u8> = Vec::new();
        let mut k: usize = 0;
        while k < sz
            invariant
                k <= sz,
                sz == value@.len(),
                copied@ == value@.take(k as int),
            decreases sz - k,
        {
            copied.push(value[k]);
            proof {
                assert(copied@ =~= value@.take(k as int + 1));
            }
            k += 1;
        }
        proof {
            assert(copied@ =~= value@);
        }
        self.inner.long_regs.push((regid, copied));
        proof {
            assert(lreg_bytes(self.inner.long_regs@, regid) == Some(value@));
            assert(self.inner.long_regs@.drop_last() =~= old(self).inner.long_regs@);
        }
        Ok(())
    }

    /// The wide size class of a register for this architecture.
    fn long_reg_size(&self, regid: i32) -> (r: Result<usize, uc_error>)
        ensures
            r == spec_long_reg_size(self.inner.arch, regid),
    {
        if self.inner.arch == Arch::X86 {
            if X86_XMM0 <= regid && regid <= X86_XMM31 {
                Ok(16)
            } else if X86_YMM0 <= regid && regid <= X86_YMM31 {
                Ok(32)
            } else if X86_ZMM0 <= regid && regid <= X86_ZMM31 {
                Ok(64)
            } else if regid == X86_GDTR || regid == X86_IDTR || (X86_ST0 <= regid && regid
                <= X86_ST7) {
                Ok(10)
            } else {
                Err(uc_error::ARG)
            }
        } else if self.inner.arch == Arch::ARM64 {
            if (ARM64_Q0 <= regid && regid <= ARM64_Q31) || (ARM64_V0 <= regid && regid
                <= ARM64_V31) {
                Ok(16)
            } else {
                Err(uc_error::ARG)
            }
        } else {
            Err(uc_error::ARCH)
        }
    }

    /// Read a wide register into a fresh buffer of its size class; one
    /// never written reads as zeros.
    pub fn reg_read_long(&self, regid: i32) -> (r: Result<Vec<u8>, uc_error>)
        requires
            self.wf(),
        ensures
            spec_long_reg_size(self.inner.arch, regid) matches Err(e) ==> r == Err::<
                Vec<u8>,
                uc_error,
            >(e),
            spec_long_reg_size(self.inner.arch, regid) matches Ok(sz) ==> (r matches Ok(v) && v@
                == (match lreg_bytes(self.inner.long_regs@, regid) {
                Some(b) => b,
                None => g_zero(sz as nat),
            })),
    {
        let sz = match self.long_reg_size(regid) {
            Ok(sz) => sz,
            Err(e) => {
                return Err(e);
            },
        };
        let bank = &self.inner.long_regs;
        let n = bank.len();
        let mut found: Option<usize> = None;
        let mut i: usize = 0;
        proof {
            assert(bank@.take(0) =~= Seq::<(i32, Vec<u8>)>::empty());
        }
        while i < n
            invariant
                i <= n,
                n == bank@.len(),
                bank == &self.inner.long_regs,
                lreg_bytes(bank@.take(i as int), regid) == (match found {
                    Some(b) => Some(bank@[b as int].1@),
                    None => None::<Seq<u8>>,
                }),
                found matches Some(b) ==> b < i,
            decreases n - i,
        {
            proof {
                assert(bank@.take(i as int + 1).drop_last() =~= bank@.take(i as int));
                assert(bank@.take(i as int + 1).last() == bank@[i as int]);
            }
            if bank[i].0 == regid {
                found = Some(i);
            }
            i += 1;
        }
        proof {
            assert(bank@.take(n as int) =~= bank@);
        }
        match found {
            Some(b) => {
                proof {
                    assert(spec_long_reg_size(self.inner.arch, self.inner.long_regs@[b as int].0)
                        is Ok);
                }
                let stored = &self.inner.long_regs[b].1;
                let copy = crate::memory::vec_copy_range(stored, 0, stored.len());
                proof {
                    assert(copy@ =~= self.inner.long_regs@[b as int].1@);
                }
                Ok(copy)
            },
            None => Ok(crate::memory::zero_bytes(sz)),
        }
    }

    /// Answer an internal-status query.
    pub fn query(&self, query: Query) -> (r: Result<usize, uc_error>)
        ensures
            query == Query::ARCH ==> r == Ok::<usize, uc_error>(self.inner.arch.code_spec()),
            query == Query::MODE ==> (match self.inner.mode {
                Some(m) => r == Ok::<usize, uc_error>(m.code_spec()),
                None => r == Err::<usize, uc_error>(uc_error::MODE),
            }),
            query == Query::PAGE_SIZE ==> r == Ok::<usize, uc_error>(4096),
    {
        match query {
            Query::ARCH => Ok(self.inner.arch.code()),
            Query::MODE => match self.inner.mode {
                Some(m) => Ok(m.code()),
                None => Err(uc_error::MODE),
            },
            Query::PAGE_SIZE => Ok(PAGE_SIZE),
        }
    }

    /// Request a cooperative stop; the engine honours it at the next
    /// translation-block boundary.
    pub fn emu_stop(&mut self) -> (r: Result<(), uc_error>)
        ensures
            r is Ok,
            final(self).inner == (UnicornInner { stop_requested: true, ..old(self).inner }),
    {
        self.inner.stop_requested = true;
        Ok(())
    }

    /// Allocate an empty snapshot bound to this instance's architecture
    /// and mode, to be populated by `context_save`; until then it reads
    /// as cleared registers.
    pub fn context_alloc(&self) -> (r: Result<Context, uc_error>)
        ensures
            r matches Ok(c) && c.arch == self.inner.arch && c.mode == self.inner.mode
                && c.initialized && c.saved_regs@.len() == 0,
    {
        Ok(
            Context {
                arch: self.inner.arch,
                mode: self.inner.mode,
                initialized: true,
                saved_regs: Vec::new(),
            },
        )
    }

    /// Save the current register state into a snapshot of the same
    /// architecture and mode.
    pub fn context_save(&self, context: &mut Context) -> (r: Result<(), uc_error>)
        ensures
            (old(context).arch != self.inner.arch || old(context).mode != self.inner.mode) ==> r
                == Err::<(), uc_error>(uc_error::ARCH) && *final(context) == *old(context),
            (old(context).arch == self.inner.arch && old(context).mode == self.inner.mode) ==> r
                is Ok && final(context).saved_regs@ == self.inner.regs@ && final(context).arch
                == old(context).arch && final(context).mode == old(context).mode && final(context).initialized,
    {
        if context.arch != self.inner.arch {
            return Err(uc_error::ARCH);
        }
        match (context.mode, self.inner.mode) {
            (Some(a), Some(b)) => {
                if a != b {
                    return Err(uc_error::ARCH);
                }
            },
            (None, None) => {},
            _ => {
                return Err(uc_error::ARCH);
            },
        }
        let copied = copy_bank(&self.inner.regs);
        context.initialized = true;
        context.saved_regs = copied;
        Ok(())
    }

    /// Allocate a snapshot already holding the current register state.
    pub fn context_init(&self) -> (r: Result<Context, uc_error>)
        ensures
            r matches Ok(c) && c.arch == self.inner.arch && c.mode == self.inner.mode
                && c.initialized && c.saved_regs@ == self.inner.regs@,
    {
        let copied = copy_bank(&self.inner.regs);
        Ok(
            Context {
                arch: self.inner.arch,
                mode: self.inner.mode,
                initialized: true,
                saved_regs: copied,
            },
        )
    }

    /// Restore a snapshot taken from an instance of the same
    /// architecture and mode; restoring an unpopulated snapshot clears
    /// the registers.
    pub fn context_restore(&mut self, context: &Context) -> (r: Result<(), uc_error>)
        ensures
            !context.initialized ==> r == Err::<(), uc_error>(uc_error::HANDLE) && *final(self)
                == *old(self),
            (context.initialized && (context.arch != old(self).inner.arch || context.mode != old(self).inner.mode)) ==> r == Err::<(), uc_error>(uc_error::ARCH) && *final(self) == *old(self),
            (context.initialized && context.arch == old(self).inner.arch && context.mode == old(self).inner.mode) ==> r is Ok && final(self).inner.regs@ == context.saved_regs@ && final(self).inner == (UnicornInner { regs: final(self).inner.regs, ..old(self).inner }),
    {
        if !context.initialized {
            return Err(uc_error::HANDLE);
        }
        if context.arch != self.inner.arch {
            return Err(uc_error::ARCH);
        }
        match (context.mode, self.inner.mode) {
            (Some(a), Some(b)) => {
                if a != b {
                    return Err(uc_error::ARCH);
                }
            },
            (None, None) => {},
            _ => {
                return Err(uc_error::ARCH);
            },
        }
        let copied = copy_bank(&context.saved_regs);
        self.inner.regs = copied;
        Ok(())
    }
}

/// Copy a register bank.
fn copy_bank(bank: &Vec<(i32, u64)>) -> (r: Vec<(i32, u64)>)
    ensures
        r@ == bank@,
{
    let n = bank.len();
    let mut r: Vec<(i32, u64)> = Vec::new();
    let mut i: usize = 0;
    while i < n
        invariant
            i <= n,
            n == bank@.len(),
            r@ == bank@.take(i as int),
        decreases n - i,
    {
        r.push(bank[i]);
        proof {
            assert(r@ =~= bank@.take(i as int + 1));
        }
        i += 1;
    }
    proof {
        assert(r@ =~= bank@);
    }
    r
}


impl<D> Unicorn<D> {
    /// Map `[address, address + size)` as zero-filled storage with the
    /// given permissions. Address and size must be page aligned and the
    /// window free.
    pub fn mem_map(&mut self, address: u64, size: usize, perms: u32) -> (r: Result<(), uc_error>)
        requires
            old(self).wf(),
        ensures
            spec_regions_map(gviews(old(self).inner.regions@), address, size, perms, false)
                matches Ok(g) ==> (r is Ok && gviews(final(self).inner.regions@) == g && final(self).inner == (UnicornInner {
                regions: final(self).inner.regions,
                ..old(self).inner
            })),
            spec_regions_map(gviews(old(self).inner.regions@), address, size, perms, false)
                matches Err(e) ==> r == Err::<(), uc_error>(e) && final(self).inner.regions@ == old(self).inner.regions@ && final(self).inner == (UnicornInner { regions: final(self).inner.regions, ..old(self).inner }),
            final(self).wf(),
    {
        regions_map(&mut self.inner.regions, address, size, perms, false)
    }

    /// Map `[address, address + size)` as a memory-mapped-I/O window
    /// backed by the given callback identifiers, and record the scope
    /// covering it.
    pub fn mmio_map(
        &mut self,
        address: u64,
        size: usize,
        read_callback: Option<u64>,
        write_callback: Option<u64>,
    ) -> (r: Result<(), uc_error>)
        requires
            old(self).wf(),
        ensures
            spec_regions_map(gviews(old(self).inner.regions@), address, size, PERM_ALL, true)
                matches Ok(g) ==> (r is Ok && gviews(final(self).inner.regions@) == g && gscopes(
                final(self).inner.mmio_callbacks@,
            ) == gscopes(old(self).inner.mmio_callbacks@).push(
                GScope {
                    regions: seq![(address, size)],
                    read_callback: read_callback,
                    write_callback: write_callback,
                },
            ) && final(self).inner == (UnicornInner {
                regions: final(self).inner.regions,
                mmio_callbacks: final(self).inner.mmio_callbacks,
                ..old(self).inner
            })),
            spec_regions_map(gviews(old(self).inner.regions@), address, size, PERM_ALL, true)
                matches Err(e) ==> r == Err::<(), uc_error>(e) && final(self).inner.regions@ == old(self).inner.regions@ && final(self).inner == (UnicornInner { regions: final(self).inner.regions, ..old(self).inner }),
            final(self).wf(),
    {
        match regions_map(&mut self.inner.regions, address, size, PERM_ALL, true) {
            Ok(()) => {},
            Err(e) => {
                return Err(e);
            },
        }
        let mut iv: Vec<(u64, usize)> = Vec::new();
        iv.push((address, size));
        let scope = MmioCallbackScope { regions: iv, read_callback, write_callback };
        proof {
            assert(scope.regions@ =~= seq![(address, size)]);
        }
        self.inner.mmio_callbacks.push(scope);
        proof {
            assert(gscopes(self.inner.mmio_callbacks@) =~= gscopes(
                old(self).inner.mmio_callbacks@,
            ).push(
                GScope {
                    regions: seq![(address, size)],
                    read_callback: read_callback,
                    write_callback: write_callback,
                },
            ));
            assert forall|i: int|
                0 <= i < gscopes(self.inner.mmio_callbacks@).len() implies crate::mmio::ivs_wf(
                (#[trigger] gscopes(self.inner.mmio_callbacks@)[i]).regions,
            ) by {
                if i < gscopes(old(self).inner.mmio_callbacks@).len() {
                    assert(crate::mmio::ivs_wf(
                        gscopes(old(self).inner.mmio_callbacks@)[i].regions,
                    ));
                }
            }
        }
        Ok(())
    }

    /// Map a read-only memory-mapped-I/O window.
    pub fn mmio_map_ro(&mut self, address: u64, size: usize, callback: u64) -> (r: Result<
        (),
        uc_error,
    >)
        requires
            old(self).wf(),
        ensures
            spec_regions_map(gviews(old(self).inner.regions@), address, size, PERM_ALL, true)
                matches Ok(g) ==> (r is Ok && gviews(final(self).inner.regions@) == g && gscopes(
                final(self).inner.mmio_callbacks@,
            ) == gscopes(old(self).inner.mmio_callbacks@).push(
                GScope {
                    regions: seq![(address, size)],
                    read_callback: Some(callback),
                    write_callback: None,
                },
            )),
            spec_regions_map(gviews(old(self).inner.regions@), address, size, PERM_ALL, true)
                matches Err(e) ==> r == Err::<(), uc_error>(e) && final(self).inner.regions@ == old(self).inner.regions@ && final(self).inner == (UnicornInner { regions: final(self).inner.regions, ..old(self).inner }),
            final(self).wf(),
    {
        self.mmio_map(address, size, Some(callback), None)
    }

    /// Map a write-only memory-mapped-I/O window.
    pub fn mmio_map_wo(&mut self, address: u64, size: usize, callback: u64) -> (r: Result<
        (),
        uc_error,
    >)
        requires
            old(self).wf(),
        ensures
            spec_regions_map(gviews(old(self).inner.regions@), address, size, PERM_ALL, true)
                matches Ok(g) ==> (r is Ok && gviews(final(self).inner.regions@) == g && gscopes(
                final(self).inner.mmio_callbacks@,
            ) == gscopes(old(self).inner.mmio_callbacks@).push(
                GScope {
                    regions: seq![(address, size)],
                    read_callback: None,
                    write_callback: Some(callback),
                },
            )),
            spec_regions_map(gviews(old(self).inner.regions@), address, size, PERM_ALL, true)
                matches Err(e) ==> r == Err::<(), uc_error>(e) && final(self).inner.regions@ == old(self).inner.regions@ && final(self).inner == (UnicornInner { regions: final(self).inner.regions, ..old(self).inner }),
            final(self).wf(),
    {
        self.mmio_map(address, size, None, Some(callback))
    }

    /// Unmap `[address, address + size)`. The window must be page
    /// aligned, else nothing is unmapped and the call fails — but the
    /// memory-mapped-I/O scopes are split against the window regardless,
    /// exactly as the call boundary this layer models does it.
    pub fn mem_unmap(&mut self, address: u64, size: usize) -> (r: Result<(), uc_error>)
        requires
            old(self).wf(),
            address + size <= u64::MAX,
        ensures
            r == (if address % 4096 != 0 || size % 4096 != 0 {
                Err::<(), uc_error>(uc_error::ARG)
            } else {
                Ok::<(), uc_error>(())
            }),
            gviews(final(self).inner.regions@) == (if address % 4096 == 0 && size % 4096 == 0
                && size > 0 {
                g_unmap(gviews(old(self).inner.regions@), address as int, address + size)
            } else {
                gviews(old(self).inner.regions@)
            }),
            gscopes(final(self).inner.mmio_callbacks@) == g_scopes_unmap(
                gscopes(old(self).inner.mmio_callbacks@),
                address as int,
                address + size,
            ),
            final(self).inner == (UnicornInner {
                regions: final(self).inner.regions,
                mmio_callbacks: final(self).inner.mmio_callbacks,
                ..old(self).inner
            }),
            final(self).wf(),
    {
        let aligned = address % 4096 == 0 && size % 4096 == 0;
        if aligned && size > 0 {
            regions_unmap(&mut self.inner.regions, address, size);
        }
        self.mmio_unmap(address, size);
        if aligned {
            Ok(())
        } else {
            Err(uc_error::ARG)
        }
    }

    /// Split every memory-mapped-I/O scope against the window and drop
    /// scopes left without coverage.
    fn mmio_unmap(&mut self, address: u64, size: usize)
        requires
            old(self).wf(),
            address + size <= u64::MAX,
        ensures
            gscopes(final(self).inner.mmio_callbacks@) == g_scopes_unmap(
                gscopes(old(self).inner.mmio_callbacks@),
                address as int,
                address + size,
            ),
            final(self).inner == (UnicornInner {
                mmio_callbacks: final(self).inner.mmio_callbacks,
                ..old(self).inner
            }),
            g_scopes_wf(gscopes(final(self).inner.mmio_callbacks@)),
    {
        let ghost orig = gscopes(self.inner.mmio_callbacks@);
        let ghost lo = address as int;
        let ghost hi = address + size;
        let mut result: Vec<MmioCallbackScope> = Vec::new();
        proof {
            assert(gscopes(result@) + g_scopes_unmap(orig, lo, hi) =~~= g_scopes_unmap(
                orig,
                lo,
                hi,
            ));
        }
        while self.inner.mmio_callbacks.len() > 0
            invariant
                g_scopes_wf(gscopes(self.inner.mmio_callbacks@)),
                g_scopes_wf(gscopes(result@)),
                lo == address as int,
                hi == lo + size,
                0 <= lo <= hi <= u64::MAX,
                g_scopes_unmap(orig, lo, hi) == gscopes(result@) + g_scopes_unmap(
                    gscopes(self.inner.mmio_callbacks@),
                    lo,
                    hi,
                ),
                self.inner == (UnicornInner {
                    mmio_callbacks: self.inner.mmio_callbacks,
                    ..old(self).inner
                }),
            decreases self.inner.mmio_callbacks.len(),
        {
            let ghost pre = gscopes(self.inner.mmio_callbacks@);
            let ghost before = gscopes(result@);
            proof {
                assert(crate::mmio::ivs_wf(pre[0].regions));
            }
            let mut scope = self.inner.mmio_callbacks.remove(0);
            proof {
                assert(gscopes(self.inner.mmio_callbacks@) =~~= pre.drop_first());
                assert(gscope(scope) == pre[0]);
                assert forall|i: int|
                    0 <= i < gscopes(self.inner.mmio_callbacks@).len() implies crate::mmio::ivs_wf(
                    (#[trigger] gscopes(self.inner.mmio_callbacks@)[i]).regions,
                ) by {
                    assert(crate::mmio::ivs_wf(pre[i + 1].regions));
                }
            }
            scope.unmap(address, size);
            let keep = scope.has_regions();
            if keep {
                result.push(scope);
            }
            proof {
                let head = GScope {
                    regions: crate::mmio::split_all(pre[0].regions, lo, hi),
                    read_callback: pre[0].read_callback,
                    write_callback: pre[0].write_callback,
                };
                if keep {
                    assert(gscopes(result@) =~~= before.push(head));
                    assert(gscopes(result@) =~~= before + (if head.regions.len() > 0 {
                        seq![head]
                    } else {
                        Seq::<GScope>::empty()
                    }));
                } else {
                    assert(gscopes(result@) =~~= before + (if head.regions.len() > 0 {
                        seq![head]
                    } else {
                        Seq::<GScope>::empty()
                    }));
                }
                assert(before + ((if head.regions.len() > 0 {
                    seq![head]
                } else {
                    Seq::<GScope>::empty()
                }) + g_scopes_unmap(pre.drop_first(), lo, hi)) =~~= gscopes(result@)
                    + g_scopes_unmap(pre.drop_first(), lo, hi));
                assert forall|i: int| 0 <= i < gscopes(result@).len() implies crate::mmio::ivs_wf(
                    (#[trigger] gscopes(result@)[i]).regions,
                ) by {
                    if i < before.len() {
                        assert(crate::mmio::ivs_wf(before[i].regions));
                    } else {
                        assert(gscopes(result@)[i] == gscope(scope));
                    }
                }
            }
        }
        proof {
            assert(gscopes(self.inner.mmio_callbacks@).len() == 0);
            assert(g_scopes_unmap(orig, lo, hi) =~~= gscopes(result@));
        }
        self.inner.mmio_callbacks = result;
    }

    /// Set the permissions of the page-aligned window
    /// `[address, address + size)`; coverage and contents are untouched.
    pub fn mem_protect(&mut self, address: u64, size: usize, perms: u32) -> (r: Result<
        (),
        uc_error,
    >)
        requires
            old(self).wf(),
            address + size <= u64::MAX,
        ensures
            r == (if address % 4096 != 0 || size % 4096 != 0 || perms & 0xffff_fff8u32 != 0 {
                Err::<(), uc_error>(uc_error::ARG)
            } else {
                Ok::<(), uc_error>(())
            }),
            gviews(final(self).inner.regions@) == (if address % 4096 == 0 && size % 4096 == 0
                && perms & 0xffff_fff8u32 == 0 && size > 0 {
                g_protect(gviews(old(self).inner.regions@), address as int, address + size, perms)
            } else {
                gviews(old(self).inner.regions@)
            }),
            final(self).inner == (UnicornInner {
                regions: final(self).inner.regions,
                ..old(self).inner
            }),
            final(self).wf(),
    {
        if address % 4096 != 0 || size % 4096 != 0 || perms & 0xffff_fff8u32 != 0 {
            return Err(uc_error::ARG);
        }
        if size == 0 {
            return Ok(());
        }
        regions_protect(&mut self.inner.regions, address, size, perms);
        Ok(())
    }

    /// The regions currently mapped, in address order.
    pub fn mem_regions(&self) -> (r: Result<Vec<MemRegion>, uc_error>)
        requires
            self.wf(),
        ensures
            r matches Ok(v) && v@ == g_rep(gviews(self.inner.regions@)),
    {
        Ok(regions_report(&self.inner.regions))
    }

    /// Read memory into a fresh vector.
    pub fn mem_read_as_vec(&self, address: u64, size: usize) -> (r: Result<Vec<u8>, uc_error>)
        requires
            self.wf(),
        ensures
            r is Ok <==> (size == 0 || g_in_ram(
                gviews(self.inner.regions@),
                address as int,
                size as int,
            )),
            r matches Ok(v) ==> v@ == g_read_bytes(
                gviews(self.inner.regions@),
                address as int,
                size as nat,
            ),
            r is Err ==> r == Err::<Vec<u8>, uc_error>(uc_error::READ_UNMAPPED),
    {
        mem_read_bytes(&self.inner.regions, address, size)
    }

    /// Read memory, filling the buffer to its current length.
    pub fn mem_read(&self, address: u64, buf: &mut Vec<u8>) -> (r: Result<(), uc_error>)
        requires
            self.wf(),
        ensures
            r is Ok <==> (old(buf)@.len() == 0 || g_in_ram(
                gviews(self.inner.regions@),
                address as int,
                old(buf)@.len() as int,
            )),
            r is Ok ==> final(buf)@ == g_read_bytes(
                gviews(self.inner.regions@),
                address as int,
                old(buf)@.len() as nat,
            ),
            r is Err ==> r == Err::<(), uc_error>(uc_error::READ_UNMAPPED) && final(buf)@ == old(buf)@,
    {
        let len = buf.len();
        match mem_read_bytes(&self.inner.regions, address, len) {
            Ok(v) => {
                *buf = v;
                Ok(())
            },
            Err(e) => Err(e),
        }
    }

    /// Write bytes to memory.
    pub fn mem_write(&mut self, address: u64, bytes: &[u8]) -> (r: Result<(), uc_error>)
        requires
            old(self).wf(),
        ensures
            r is Ok <==> (bytes@.len() == 0 || g_in_ram(
                gviews(old(self).inner.regions@),
                address as int,
                bytes@.len() as int,
            )),
            r is Ok ==> gviews(final(self).inner.regions@) == g_store_bytes(
                gviews(old(self).inner.regions@),
                address as int,
                bytes@,
            ),
            r is Err ==> r == Err::<(), uc_error>(uc_error::WRITE_UNMAPPED) && final(self).inner.regions@ == old(self).inner.regions@ && final(self).inner == (UnicornInner { regions: final(self).inner.regions, ..old(self).inner }),
            final(self).inner == (UnicornInner {
                regions: final(self).inner.regions,
                ..old(self).inner
            }),
            final(self).wf(),
    {
        mem_write_bytes(&mut self.inner.regions, address, bytes)
    }
}


/// What a successful hook registration does: it hands out the next
/// token, appends the registration, and advances the token counter; a
/// counter at its ceiling reports exhaustion and changes nothing.
pub open spec fn add_hook_post<D>(
    pre: UnicornInner<D>,
    post: UnicornInner<D>,
    r: Result<u64, uc_error>,
    kind: HookKind,
    begin: u64,
    end: u64,
) -> bool {
    if pre.next_token == u64::MAX {
        r == Err::<u64, uc_error>(uc_error::NOMEM) && post == pre
    } else {
        &&& r == Ok::<u64, uc_error>(pre.next_token)
        &&& post.hooks@ == pre.hooks@.push(
            HookReg { token: pre.next_token, kind, begin, end },
        )
        &&& post.next_token == pre.next_token + 1
        &&& post == (UnicornInner { hooks: post.hooks, next_token: post.next_token, ..pre })
    }
}

/// Every registration surviving a removal was registered before.
proof fn lemma_hooks_remove_entries(s: Seq<HookReg>, token: u64)
    ensures
        forall|i: int|
            0 <= i < hooks_remove(s, token).len() ==> exists|j: int|
                0 <= j < s.len() && #[trigger] hooks_remove(s, token)[i] == s[j],
    decreases s.len(),
{
    if s.len() > 0 {
        let rest = s.drop_first();
        lemma_hooks_remove_entries(rest, token);
        let removed = hooks_remove(s, token);
        assert forall|i: int| 0 <= i < removed.len() implies exists|j: int|
            0 <= j < s.len() && #[trigger] removed[i] == s[j] by {
            if s[0].token == token {
                assert(removed =~= hooks_remove(rest, token));
                let j = choose|j: int| 0 <= j < rest.len() && hooks_remove(rest, token)[i]
                    == rest[j];
                assert(removed[i] == s[j + 1]);
            } else {
                assert(removed =~= seq![s[0]] + hooks_remove(rest, token));
                if i == 0 {
                    assert(removed[i] == s[0]);
                } else {
                    assert(removed[i] == hooks_remove(rest, token)[i - 1]);
                    let j = choose|j: int| 0 <= j < rest.len() && hooks_remove(rest, token)[i - 1]
                        == rest[j];
                    assert(removed[i] == s[j + 1]);
                }
            }
        }
    }
}

impl<D> Unicorn<D> {
    /// Register a hook of the given kind over the given range.
    fn add_hook(&mut self, kind: HookKind, begin: u64, end: u64) -> (r: Result<u64, uc_error>)
        requires
            old(self).wf(),
        ensures
            add_hook_post(old(self).inner, final(self).inner, r, kind, begin, end),
            final(self).wf(),
    {
        if self.inner.next_token == u64::MAX {
            return Err(uc_error::NOMEM);
        }
        let token = self.inner.next_token;
        self.inner.hooks.push(HookReg { token, kind, begin, end });
        self.inner.next_token = token + 1;
        Ok(token)
    }

    /// Register a code hook over `[begin, end]`.
    pub fn add_code_hook(&mut self, begin: u64, end: u64) -> (r: Result<u64, uc_error>)
        requires
            old(self).wf(),
        ensures
            add_hook_post(old(self).inner, final(self).inner, r, HookKind::Code, begin, end),
            final(self).wf(),
    {
        self.add_hook(HookKind::Code, begin, end)
    }

    /// Register a translation-block hook over the whole address space.
    pub fn add_block_hook(&mut self) -> (r: Result<u64, uc_error>)
        requires
            old(self).wf(),
        ensures
            add_hook_post(old(self).inner, final(self).inner, r, HookKind::Block, 1, 0),
            final(self).wf(),
    {
        self.add_hook(HookKind::Block, 1, 0)
    }

    /// Register an interrupt hook.
    pub fn add_intr_hook(&mut self) -> (r: Result<u64, uc_error>)
        requires
            old(self).wf(),
        ensures
            add_hook_post(old(self).inner, final(self).inner, r, HookKind::Intr, 0, 0),
            final(self).wf(),
    {
        self.add_hook(HookKind::Intr, 0, 0)
    }

    /// Register an invalid-instruction hook.
    pub fn add_insn_invalid_hook(&mut self) -> (r: Result<u64, uc_error>)
        requires
            old(self).wf(),
        ensures
            add_hook_post(old(self).inner, final(self).inner, r, HookKind::InsnInvalid, 0, 0),
            final(self).wf(),
    {
        self.add_hook(HookKind::InsnInvalid, 0, 0)
    }

    /// Register a hook for the x86 port-input instruction.
    pub fn add_insn_in_hook(&mut self) -> (r: Result<u64, uc_error>)
        requires
            old(self).wf(),
        ensures
            add_hook_post(old(self).inner, final(self).inner, r, HookKind::InsnIn, 0, 0),
            final(self).wf(),
    {
        self.add_hook(HookKind::InsnIn, 0, 0)
    }

    /// Register a hook for the x86 port-output instruction.
    pub fn add_insn_out_hook(&mut self) -> (r: Result<u64, uc_error>)
        requires
            old(self).wf(),
        ensures
            add_hook_post(old(self).inner, final(self).inner, r, HookKind::InsnOut, 0, 0),
            final(self).wf(),
    {
        self.add_hook(HookKind::InsnOut, 0, 0)
    }

    /// Register a hook for an x86 system-call instruction over
    /// `[begin, end]`.
    pub fn add_insn_sys_hook(&mut self, insn_type: InsnSysX86, begin: u64, end: u64) -> (r: Result<
        u64,
        uc_error,
    >)
        requires
            old(self).wf(),
        ensures
            add_hook_post(
                old(self).inner,
                final(self).inner,
                r,
                HookKind::InsnSys(insn_type),
                begin,
                end,
            ),
            final(self).wf(),
    {
        self.add_hook(HookKind::InsnSys(insn_type), begin, end)
    }

    /// Register a memory-access hook over `[begin, end]`. The kind must
    /// be drawn from the memory-access kinds, else the registration is
    /// rejected before reaching the engine.
    pub fn add_mem_hook(&mut self, hook_type: u32, begin: u64, end: u64) -> (r: Result<
        u64,
        uc_error,
    >)
        requires
            old(self).wf(),
        ensures
            hook_type & HOOK_MEM_VALID_MASK != hook_type ==> r == Err::<u64, uc_error>(
                uc_error::ARG,
            ) && *final(self) == *old(self),
            hook_type & HOOK_MEM_VALID_MASK == hook_type ==> add_hook_post(
                old(self).inner,
                final(self).inner,
                r,
                HookKind::Mem(hook_type),
                begin,
                end,
            ),
            final(self).wf(),
    {
        if hook_type & HOOK_MEM_VALID_MASK != hook_type {
            return Err(uc_error::ARG);
        }
        self.add_hook(HookKind::Mem(hook_type), begin, end)
    }

    /// Remove a hook by its token. Removing a token that was never
    /// issued, or was already removed, reports a hook error and changes
    /// nothing.
    pub fn remove_hook(&mut self, hook: u64) -> (r: Result<(), uc_error>)
        requires
            old(self).wf(),
        ensures
            final(self).inner.hooks@ == hooks_remove(old(self).inner.hooks@, hook),
            r == (if exists|j: int|
                0 <= j < old(self).inner.hooks@.len() && old(self).inner.hooks@[j].token == hook {
                Ok::<(), uc_error>(())
            } else {
                Err::<(), uc_error>(uc_error::HOOK)
            }),
            final(self).inner == (UnicornInner { hooks: final(self).inner.hooks, ..old(self).inner }),
            final(self).wf(),
    {
        let found = remove_hook_token(&mut self.inner.hooks, hook);
        proof {
            lemma_hooks_remove_entries(old(self).inner.hooks@, hook);
            assert forall|i: int| 0 <= i < self.inner.hooks@.len() implies (
            #[trigger] self.inner.hooks@[i]).token < self.inner.next_token by {
                let j = choose|j: int|
                    0 <= j < old(self).inner.hooks@.len() && self.inner.hooks@[i] == old(self).inner.hooks@[j];
                assert(old(self).inner.hooks@[j].token < old(self).inner.next_token);
            }
        }
        if found {
            Ok(())
        } else {
            Err(uc_error::HOOK)
        }
    }

    /// The tokens of the registered hooks that fire for `ev`, in
    /// registration order. The surrounding program invokes the callables
    /// these tokens name.
    pub fn hooks_matching(&self, ev: HookEvent) -> (r: Vec<u64>)
        ensures
            r@ == hook_select(self.inner.hooks@, ev),
    {
        select_hooks(&self.inner.hooks, ev)
    }

    /// The read-callback identifier responsible for `addr`, if any scope
    /// still covers it.
    pub fn mmio_read_target(&self, addr: u64) -> (r: Option<u64>)
        ensures
            r == g_read_cb_at(gscopes(self.inner.mmio_callbacks@), addr as int),
    {
        let scopes = &self.inner.mmio_callbacks;
        let ghost s = gscopes(scopes@);
        let n = scopes.len();
        let mut i: usize = 0;
        proof {
            assert(s.skip(0) =~~= s);
        }
        while i < n
            invariant
                i <= n,
                n == scopes@.len(),
                scopes == &self.inner.mmio_callbacks,
                s == gscopes(scopes@),
                g_read_cb_at(s, addr as int) == g_read_cb_at(s.skip(i as int), addr as int),
            decreases n - i,
        {
            proof {
                assert(s.skip(i as int) =~~= seq![s[i as int]] + s.skip(i as int + 1));
                assert(s.skip(i as int)[0] == s[i as int]);
                assert(s.skip(i as int).drop_first() =~~= s.skip(i as int + 1));
            }
            if scopes[i].contains(addr) {
                return scopes[i].read_callback;
            }
            i += 1;
        }
        proof {
            assert(s.skip(n as int) =~~= Seq::<GScope>::empty());
        }
        None
    }

    /// The write-callback identifier responsible for `addr`, if any
    /// scope still covers it.
    pub fn mmio_write_target(&self, addr: u64) -> (r: Option<u64>)
        ensures
            r == g_write_cb_at(gscopes(self.inner.mmio_callbacks@), addr as int),
    {
        let scopes = &self.inner.mmio_callbacks;
        let ghost s = gscopes(scopes@);
        let n = scopes.len();
        let mut i: usize = 0;
        proof {
            assert(s.skip(0) =~~= s);
        }
        while i < n
            invariant
                i <= n,
                n == scopes@.len(),
                scopes == &self.inner.mmio_callbacks,
                s == gscopes(scopes@),
                g_write_cb_at(s, addr as int) == g_write_cb_at(s.skip(i as int), addr as int),
            decreases n - i,
        {
            proof {
                assert(s.skip(i as int) =~~= seq![s[i as int]] + s.skip(i as int + 1));
                assert(s.skip(i as int)[0] == s[i as int]);
                assert(s.skip(i as int).drop_first() =~~= s.skip(i as int + 1));
            }
            if scopes[i].contains(addr) {
                return scopes[i].write_callback;
            }
            i += 1;
        }
        proof {
            assert(s.skip(n as int) =~~= Seq::<GScope>::empty());
        }
        None
    }
}


impl<D> Unicorn<D> {
    /// The program-counter register for this instance.
    fn resolve_pc_reg(&self) -> (r: Result<i32, uc_error>)
        ensures
            r == spec_pc_reg(self.inner.arch, self.inner.mode),
    {
        match self.inner.arch {
            Arch::X86 => match self.inner.mode {
                Some(Mode::MODE_32) => Ok(crate::regs::X86_EIP),
                Some(Mode::MODE_64) => Ok(crate::regs::X86_RIP),
                _ => Err(uc_error::MODE),
            },
            Arch::ARM => Ok(crate::regs::ARM_PC),
            Arch::ARM64 => Ok(crate::regs::ARM64_PC),
            Arch::MIPS => Ok(crate::regs::MIPS_PC),
            Arch::SPARC => Ok(crate::regs::SPARC_PC),
            Arch::M68K => Ok(crate::regs::M68K_PC),
            Arch::PPC => Ok(crate::regs::PPC_PC),
            Arch::RISCV => Ok(crate::regs::RISCV_PC),
            Arch::S390X => Ok(crate::regs::S390X_PC),
            Arch::TRICORE => Ok(crate::regs::TRICORE_PC),
            Arch::MAX => Err(uc_error::ARCH),
        }
    }

    /// The current program counter.
    pub fn get_pc(&self) -> (r: Result<u64, uc_error>)
        ensures
            spec_pc_reg(self.inner.arch, self.inner.mode) matches Ok(id) ==> r == Ok::<
                u64,
                uc_error,
            >(reg_val(self.inner.regs@, id)),
            spec_pc_reg(self.inner.arch, self.inner.mode) matches Err(e) ==> r == Err::<
                u64,
                uc_error,
            >(e),
    {
        let reg = match self.resolve_pc_reg() {
            Ok(id) => id,
            Err(e) => {
                return Err(e);
            },
        };
        self.reg_read(reg)
    }

    /// Set the program counter.
    pub fn set_pc(&mut self, value: u64) -> (r: Result<(), uc_error>)
        ensures
            spec_pc_reg(old(self).inner.arch, old(self).inner.mode) matches Ok(id) ==> (r is Ok
                && final(self).inner.regs@ == reg_store(old(self).inner.regs@, id, value) && final(self).inner == (UnicornInner { regs: final(self).inner.regs, ..old(self).inner })),
            spec_pc_reg(old(self).inner.arch, old(self).inner.mode) matches Err(e) ==> r == Err::<
                (),
                uc_error,
            >(e) && *final(self) == *old(self),
    {
        let reg = match self.resolve_pc_reg() {
            Ok(id) => id,
            Err(e) => {
                return Err(e);
            },
        };
        self.reg_write(reg, value)
    }

    /// The register carrying Linux syscall argument `n`.
    fn resolve_syscall_arg_reg(&self, n: usize) -> (r: Result<i32, uc_error>)
        ensures
            r == spec_syscall_arg_reg(self.inner.arch, self.inner.mode, n as int),
    {
        match self.inner.arch {
            Arch::X86 => match self.inner.mode {
                Some(Mode::MODE_32) => match n {
                    0 => Ok(crate::regs::X86_EBX),
                    1 => Ok(crate::regs::X86_ECX),
                    2 => Ok(crate::regs::X86_EDX),
                    3 => Ok(crate::regs::X86_ESI),
                    4 => Ok(crate::regs::X86_EDI),
                    _ => Err(uc_error::MODE),
                },
                Some(Mode::MODE_64) => match n {
                    0 => Ok(crate::regs::X86_RDI),
                    1 => Ok(crate::regs::X86_RSI),
                    2 => Ok(crate::regs::X86_RDX),
                    3 => Ok(crate::regs::X86_R10),
                    4 => Ok(crate::regs::X86_R8),
                    5 => Ok(crate::regs::X86_R9),
                    _ => Err(uc_error::ARCH),
                },
                _ => Err(uc_error::MODE),
            },
            Arch::ARM => match n {
                0 => Ok(crate::regs::ARM_R0),
                1 => Ok(crate::regs::ARM_R1),
                2 => Ok(crate::regs::ARM_R2),
                3 => Ok(crate::regs::ARM_R3),
                4 => Ok(crate::regs::ARM_R4),
                5 => Ok(crate::regs::ARM_R5),
                _ => Err(uc_error::ARCH),
            },
            Arch::ARM64 => match n {
                0 => Ok(crate::regs::ARM64_X0),
                1 => Ok(crate::regs::ARM64_X1),
                2 => Ok(crate::regs::ARM64_X2),
                3 => Ok(crate::regs::ARM64_X3),
                4 => Ok(crate::regs::ARM64_X4),
                5 => Ok(crate::regs::ARM64_X5),
                _ => Err(uc_error::ARCH),
            },
            Arch::MIPS => match n {
                0 => Ok(crate::regs::MIPS_A0),
                1 => Ok(crate::regs::MIPS_A1),
                2 => Ok(crate::regs::MIPS_A2),
                3 => Ok(crate::regs::MIPS_A3),
                _ => Err(uc_error::ARCH),
            },
            Arch::SPARC => match n {
                0 => Ok(crate::regs::SPARC_O0),
                1 => Ok(crate::regs::SPARC_O1),
                2 => Ok(crate::regs::SPARC_O2),
                3 => Ok(crate::regs::SPARC_O3),
                4 => Ok(crate::regs::SPARC_O4),
                5 => Ok(crate::regs::SPARC_O5),
                _ => Err(uc_error::ARCH),
            },
            Arch::PPC => match n {
                0 => Ok(crate::regs::PPC_R3),
                1 => Ok(crate::regs::PPC_R4),
                2 => Ok(crate::regs::PPC_R5),
                3 => Ok(crate::regs::PPC_R6),
                4 => Ok(crate::regs::PPC_R7),
                5 => Ok(crate::regs::PPC_R8),
                _ => Err(uc_error::ARCH),
            },
            Arch::RISCV => match n {
                0 => Ok(crate::regs::RISCV_A0),
                1 => Ok(crate::regs::RISCV_A1),
                2 => Ok(crate::regs::RISCV_A2),
                3 => Ok(crate::regs::RISCV_A3),
                4 => Ok(crate::regs::RISCV_A4),
                5 => Ok(crate::regs::RISCV_A5),
                _ => Err(uc_error::ARCH),
            },
            _ => Err(uc_error::ARCH),
        }
    }

    /// The register carrying Linux syscall argument 0.
    pub fn syscall_arg0_reg(&self) -> (r: Result<i32, uc_error>)
        ensures
            r == spec_syscall_arg_reg(self.inner.arch, self.inner.mode, 0),
    {
        self.resolve_syscall_arg_reg(0)
    }

    /// The register carrying Linux syscall argument 1.
    pub fn syscall_arg1_reg(&self) -> (r: Result<i32, uc_error>)
        ensures
            r == spec_syscall_arg_reg(self.inner.arch, self.inner.mode, 1),
    {
        self.resolve_syscall_arg_reg(1)
    }

    /// The register carrying Linux syscall argument 2.
    pub fn syscall_arg2_reg(&self) -> (r: Result<i32, uc_error>)
        ensures
            r == spec_syscall_arg_reg(self.inner.arch, self.inner.mode, 2),
    {
        self.resolve_syscall_arg_reg(2)
    }

    /// The register carrying Linux syscall argument 3 — on x86-64 that
    /// is `R10`, not the calling convention's `RCX`.
    pub fn syscall_arg3_reg(&self) -> (r: Result<i32, uc_error>)
        ensures
            r == spec_syscall_arg_reg(self.inner.arch, self.inner.mode, 3),
    {
        self.resolve_syscall_arg_reg(3)
    }

    /// The register carrying Linux syscall argument 4.
    pub fn syscall_arg4_reg(&self) -> (r: Result<i32, uc_error>)
        ensures
            r == spec_syscall_arg_reg(self.inner.arch, self.inner.mode, 4),
    {
        self.resolve_syscall_arg_reg(4)
    }

    /// The register carrying Linux syscall argument 5.
    pub fn syscall_arg5_reg(&self) -> (r: Result<i32, uc_error>)
        ensures
            r == spec_syscall_arg_reg(self.inner.arch, self.inner.mode, 5),
    {
        self.resolve_syscall_arg_reg(5)
    }

    /// The register carrying a Linux syscall's return value.
    pub fn syscall_return_reg(&self) -> (r: Result<i32, uc_error>)
        ensures
            r == spec_syscall_ret_reg(self.inner.arch, self.inner.mode),
    {
        match self.inner.arch {
            Arch::X86 => match self.inner.mode {
                Some(Mode::MODE_32) => Ok(crate::regs::X86_EAX),
                Some(Mode::MODE_64) => Ok(crate::regs::X86_RAX),
                _ => Err(uc_error::MODE),
            },
            Arch::ARM => Ok(crate::regs::ARM_R0),
            Arch::ARM64 => Ok(crate::regs::ARM64_X0),
            Arch::MIPS => Ok(crate::regs::MIPS_V0),
            Arch::SPARC => Ok(crate::regs::SPARC_O0),
            Arch::PPC => Ok(crate::regs::PPC_R3),
            Arch::RISCV => Ok(crate::regs::RISCV_A0),
            _ => Err(uc_error::ARCH),
        }
    }

    /// The link register; defined only for RISC-V.
    pub fn link_register(&self) -> (r: Result<i32, uc_error>)
        ensures
            r == spec_link_reg(self.inner.arch),
    {
        match self.inner.arch {
            Arch::RISCV => Ok(crate::regs::RISCV_RA),
            _ => Err(uc_error::ARCH),
        }
    }

    /// The value of Linux function argument `n`: read from the resolved
    /// register, or — on x86 in 32-bit mode — from the stack above the
    /// stack pointer, where the caller must have mapped it.
    fn function_arg_val(&self, n: usize) -> (r: Result<u64, uc_error>)
        requires
            self.wf(),
            spec_function_arg(self.inner.arch, self.inner.mode, n as int) matches Ok(
                ArgLoc::Stack32(off),
            ) ==> reg_val(self.inner.regs@, X86_ESP) + off + 4 <= u64::MAX && g_in_ram(
                gviews(self.inner.regions@),
                reg_val(self.inner.regs@, X86_ESP) + off,
                4,
            ),
        ensures
            spec_function_arg(self.inner.arch, self.inner.mode, n as int) matches Err(e) ==> r
                == Err::<u64, uc_error>(e),
            spec_function_arg(self.inner.arch, self.inner.mode, n as int) matches Ok(ArgLoc::Reg(
                id,
            )) ==> r == Ok::<u64, uc_error>(reg_val(self.inner.regs@, id)),
            spec_function_arg(self.inner.arch, self.inner.mode, n as int) matches Ok(
                ArgLoc::Stack32(off),
            ) ==> (r matches Ok(v) && v == le_word(
                g_read_bytes(
                    gviews(self.inner.regions@),
                    reg_val(self.inner.regs@, X86_ESP) + off,
                    4,
                ),
            )),
    {
        let loc = match self.inner.arch {
            Arch::X86 => match self.inner.mode {
                Some(Mode::MODE_32) => match n {
                    0 => ArgLoc::Stack32(4),
                    1 => ArgLoc::Stack32(8),
                    2 => ArgLoc::Stack32(0xc),
                    _ => {
                        return Err(uc_error::ARCH);
                    },
                },
                Some(Mode::MODE_64) => match n {
                    0 => ArgLoc::Reg(crate::regs::X86_RDI),
                    1 => ArgLoc::Reg(crate::regs::X86_RSI),
                    2 => ArgLoc::Reg(crate::regs::X86_RDX),
                    _ => {
                        return Err(uc_error::ARCH);
                    },
                },
                _ => {
                    return Err(uc_error::MODE);
                },
            },
            Arch::ARM => match n {
                0 => ArgLoc::Reg(crate::regs::ARM_R0),
                1 => ArgLoc::Reg(crate::regs::ARM_R1),
                2 => ArgLoc::Reg(crate::regs::ARM_R2),
                _ => {
                    return Err(uc_error::ARCH);
                },
            },
            Arch::ARM64 => match n {
                0 => ArgLoc::Reg(crate::regs::ARM64_X0),
                1 => ArgLoc::Reg(crate::regs::ARM64_X1),
                2 => ArgLoc::Reg(crate::regs::ARM64_X2),
                _ => {
                    return Err(uc_error::ARCH);
                },
            },
            Arch::MIPS => match n {
                0 => ArgLoc::Reg(crate::regs::MIPS_A0),
                1 => ArgLoc::Reg(crate::regs::MIPS_A1),
                2 => ArgLoc::Reg(crate::regs::MIPS_A2),
                _ => {
                    return Err(uc_error::ARCH);
                },
            },
            Arch::SPARC => match n {
                0 => ArgLoc::Reg(crate::regs::SPARC_O0),
                1 => ArgLoc::Reg(crate::regs::SPARC_O1),
                2 => ArgLoc::Reg(crate::regs::SPARC_O2),
                _ => {
                    return Err(uc_error::ARCH);
                },
            },
            Arch::PPC => match n {
                0 => ArgLoc::Reg(crate::regs::PPC_R3),
                1 => ArgLoc::Reg(crate::regs::PPC_R4),
                2 => ArgLoc::Reg(crate::regs::PPC_R5),
                _ => {
                    return Err(uc_error::ARCH);
                },
            },
            Arch::RISCV => match n {
                0 => ArgLoc::Reg(crate::regs::RISCV_A0),
                1 => ArgLoc::Reg(crate::regs::RISCV_A1),
                2 => ArgLoc::Reg(crate::regs::RISCV_A2),
                _ => {
                    return Err(uc_error::ARCH);
                },
            },
            _ => {
                return Err(uc_error::ARCH);
            },
        };
        match loc {
            ArgLoc::Reg(id) => self.reg_read(id),
            ArgLoc::Stack32(off) => {
                let esp = bank_read(&self.inner.regs, X86_ESP);
                let data = match self.mem_read_as_vec(esp + off, 4) {
                    Ok(v) => v,
                    Err(e) => {
                        return Err(e);
                    },
                };
                Ok(le32(&data))
            },
        }
    }

    /// Linux function argument 0 for the active architecture.
    pub fn function_arg0_val(&self) -> (r: Result<u64, uc_error>)
        requires
            self.wf(),
            spec_function_arg(self.inner.arch, self.inner.mode, 0) matches Ok(ArgLoc::Stack32(off))
                ==> reg_val(self.inner.regs@, X86_ESP) + off + 4 <= u64::MAX && g_in_ram(
                gviews(self.inner.regions@),
                reg_val(self.inner.regs@, X86_ESP) + off,
                4,
            ),
        ensures
            spec_function_arg(self.inner.arch, self.inner.mode, 0) matches Err(e) ==> r == Err::<
                u64,
                uc_error,
            >(e),
            spec_function_arg(self.inner.arch, self.inner.mode, 0) matches Ok(ArgLoc::Reg(id))
                ==> r == Ok::<u64, uc_error>(reg_val(self.inner.regs@, id)),
            spec_function_arg(self.inner.arch, self.inner.mode, 0) matches Ok(ArgLoc::Stack32(off))
                ==> (r matches Ok(v) && v == le_word(
                g_read_bytes(
                    gviews(self.inner.regions@),
                    reg_val(self.inner.regs@, X86_ESP) + off,
                    4,
                ),
            )),
    {
        self.function_arg_val(0)
    }

    /// Linux function argument 1 for the active architecture.
    pub fn function_arg1_val(&self) -> (r: Result<u64, uc_error>)
        requires
            self.wf(),
            spec_function_arg(self.inner.arch, self.inner.mode, 1) matches Ok(ArgLoc::Stack32(off))
                ==> reg_val(self.inner.regs@, X86_ESP) + off + 4 <= u64::MAX && g_in_ram(
                gviews(self.inner.regions@),
                reg_val(self.inner.regs@, X86_ESP) + off,
                4,
            ),
        ensures
            spec_function_arg(self.inner.arch, self.inner.mode, 1) matches Err(e) ==> r == Err::<
                u64,
                uc_error,
            >(e),
            spec_function_arg(self.inner.arch, self.inner.mode, 1) matches Ok(ArgLoc::Reg(id))
                ==> r == Ok::<u64, uc_error>(reg_val(self.inner.regs@, id)),
            spec_function_arg(self.inner.arch, self.inner.mode, 1) matches Ok(ArgLoc::Stack32(off))
                ==> (r matches Ok(v) && v == le_word(
                g_read_bytes(
                    gviews(self.inner.regions@),
                    reg_val(self.inner.regs@, X86_ESP) + off,
                    4,
                ),
            )),
    {
        self.function_arg_val(1)
    }

    /// Linux function argument 2 for the active architecture.
    pub fn function_arg2_val(&self) -> (r: Result<u64, uc_error>)
        requires
            self.wf(),
            spec_function_arg(self.inner.arch, self.inner.mode, 2) matches Ok(ArgLoc::Stack32(off))
                ==> reg_val(self.inner.regs@, X86_ESP) + off + 4 <= u64::MAX && g_in_ram(
                gviews(self.inner.regions@),
                reg_val(self.inner.regs@, X86_ESP) + off,
                4,
            ),
        ensures
            spec_function_arg(self.inner.arch, self.inner.mode, 2) matches Err(e) ==> r == Err::<
                u64,
                uc_error,
            >(e),
            spec_function_arg(self.inner.arch, self.inner.mode, 2) matches Ok(ArgLoc::Reg(id))
                ==> r == Ok::<u64, uc_error>(reg_val(self.inner.regs@, id)),
            spec_function_arg(self.inner.arch, self.inner.mode, 2) matches Ok(ArgLoc::Stack32(off))
                ==> (r matches Ok(v) && v == le_word(
                g_read_bytes(
                    gviews(self.inner.regions@),
                    reg_val(self.inner.regs@, X86_ESP) + off,
                    4,
                ),
            )),
    {
        self.function_arg_val(2)
    }

    /// The function-call return address: the link register on RISC-V,
    /// the word at the top of the stack on x86 — 4 bytes in 32-bit mode,
    /// 8 in 64-bit, little-endian.
    pub fn func_return_addr(&self) -> (r: Result<u64, uc_error>)
        requires
            self.wf(),
            self.inner.arch == Arch::X86 && self.inner.mode == Some(Mode::MODE_32) ==> g_in_ram(
                gviews(self.inner.regions@),
                reg_val(self.inner.regs@, X86_ESP) as int,
                4,
            ),
            self.inner.arch == Arch::X86 && self.inner.mode == Some(Mode::MODE_64) ==> g_in_ram(
                gviews(self.inner.regions@),
                reg_val(self.inner.regs@, X86_RSP) as int,
                8,
            ),
        ensures
            self.inner.arch == Arch::RISCV ==> r == Ok::<u64, uc_error>(
                reg_val(self.inner.regs@, crate::regs::RISCV_RA),
            ),
            self.inner.arch == Arch::X86 && self.inner.mode == Some(Mode::MODE_32) ==> (r
                matches Ok(v) && v == le_word(
                g_read_bytes(
                    gviews(self.inner.regions@),
                    reg_val(self.inner.regs@, X86_ESP) as int,
                    4,
                ),
            )),
            self.inner.arch == Arch::X86 && self.inner.mode == Some(Mode::MODE_64) ==> (r
                matches Ok(v) && v == le_word(
                g_read_bytes(
                    gviews(self.inner.regions@),
                    reg_val(self.inner.regs@, X86_RSP) as int,
                    8,
                ),
            )),
            self.inner.arch == Arch::X86 && !(self.inner.mode == Some(Mode::MODE_32)
                || self.inner.mode == Some(Mode::MODE_64)) ==> r == Err::<u64, uc_error>(
                uc_error::MODE,
            ),
            self.inner.arch != Arch::X86 && self.inner.arch != Arch::RISCV ==> r == Err::<
                u64,
                uc_error,
            >(uc_error::ARCH),
    {
        match self.inner.arch {
            Arch::RISCV => {
                let link_register = match self.link_register() {
                    Ok(id) => id,
                    Err(e) => {
                        return Err(e);
                    },
                };
                self.reg_read(link_register)
            },
            Arch::X86 => match self.inner.mode {
                Some(Mode::MODE_32) => {
                    let esp_val = bank_read(&self.inner.regs, X86_ESP);
                    let data = match self.mem_read_as_vec(esp_val, 4) {
                        Ok(v) => v,
                        Err(e) => {
                            return Err(e);
                        },
                    };
                    Ok(le32(&data))
                },
                Some(Mode::MODE_64) => {
                    let rsp_val = bank_read(&self.inner.regs, X86_RSP);
                    let data = match self.mem_read_as_vec(rsp_val, 8) {
                        Ok(v) => v,
                        Err(e) => {
                            return Err(e);
                        },
                    };
                    Ok(le64(&data))
                },
                _ => Err(uc_error::MODE),
            },
            _ => Err(uc_error::ARCH),
        }
    }

    /// Simulate a function return: pop or read the return address as
    /// `func_return_addr` does, advance the stack pointer by the word
    /// consumed on x86, and write the address to the program counter.
    pub fn simulate_return(&mut self) -> (r: Result<(), uc_error>)
        requires
            old(self).wf(),
            old(self).inner.arch == Arch::X86 && old(self).inner.mode == Some(Mode::MODE_32)
                ==> reg_val(old(self).inner.regs@, X86_ESP) + 4 <= u64::MAX && g_in_ram(
                gviews(old(self).inner.regions@),
                reg_val(old(self).inner.regs@, X86_ESP) as int,
                4,
            ),
            old(self).inner.arch == Arch::X86 && old(self).inner.mode == Some(Mode::MODE_64)
                ==> reg_val(old(self).inner.regs@, X86_RSP) + 8 <= u64::MAX && g_in_ram(
                gviews(old(self).inner.regions@),
                reg_val(old(self).inner.regs@, X86_RSP) as int,
                8,
            ),
        ensures
            old(self).inner.arch == Arch::RISCV ==> (r is Ok && final(self).inner.regs@
                == reg_store(
                old(self).inner.regs@,
                crate::regs::RISCV_PC,
                reg_val(old(self).inner.regs@, crate::regs::RISCV_RA),
            ) && final(self).inner == (UnicornInner {
                regs: final(self).inner.regs,
                ..old(self).inner
            })),
            old(self).inner.arch == Arch::X86 && old(self).inner.mode == Some(Mode::MODE_32) ==> (
            r is Ok && final(self).inner.regs@ == reg_store(
                reg_store(
                    old(self).inner.regs@,
                    X86_ESP,
                    (reg_val(old(self).inner.regs@, X86_ESP) + 4) as u64,
                ),
                crate::regs::X86_EIP,
                le_word(
                    g_read_bytes(
                        gviews(old(self).inner.regions@),
                        reg_val(old(self).inner.regs@, X86_ESP) as int,
                        4,
                    ),
                ) as u64,
            ) && final(self).inner == (UnicornInner {
                regs: final(self).inner.regs,
                ..old(self).inner
            })),
            old(self).inner.arch == Arch::X86 && old(self).inner.mode == Some(Mode::MODE_64) ==> (
            r is Ok && final(self).inner.regs@ == reg_store(
                reg_store(
                    old(self).inner.regs@,
                    X86_RSP,
                    (reg_val(old(self).inner.regs@, X86_RSP) + 8) as u64,
                ),
                crate::regs::X86_RIP,
                le_word(
                    g_read_bytes(
                        gviews(old(self).inner.regions@),
                        reg_val(old(self).inner.regs@, X86_RSP) as int,
                        8,
                    ),
                ) as u64,
            ) && final(self).inner == (UnicornInner {
                regs: final(self).inner.regs,
                ..old(self).inner
            })),
            old(self).inner.arch == Arch::X86 && !(old(self).inner.mode == Some(Mode::MODE_32)
                || old(self).inner.mode == Some(Mode::MODE_64)) ==> r == Err::<(), uc_error>(
                uc_error::MODE,
            ) && *final(self) == *old(self),
            old(self).inner.arch != Arch::X86 && old(self).inner.arch != Arch::RISCV ==> r
                == Err::<(), uc_error>(uc_error::ARCH) && *final(self) == *old(self),
    {
        match self.inner.arch {
            Arch::RISCV => {
                let link_register = match self.link_register() {
                    Ok(id) => id,
                    Err(e) => {
                        return Err(e);
                    },
                };
                let new_pc = bank_read(&self.inner.regs, link_register);
                match self.set_pc(new_pc) {
                    Ok(()) => Ok(()),
                    Err(e) => Err(e),
                }
            },
            Arch::X86 => match self.inner.mode {
                Some(Mode::MODE_32) => {
                    let esp_val = bank_read(&self.inner.regs, X86_ESP);
                    let data = match self.mem_read_as_vec(esp_val, 4) {
                        Ok(v) => v,
                        Err(e) => {
                            return Err(e);
                        },
                    };
                    bank_write(&mut self.inner.regs, X86_ESP, esp_val + 4);
                    let addr = le32(&data);
                    match self.set_pc(addr) {
                        Ok(()) => Ok(()),
                        Err(e) => Err(e),
                    }
                },
                Some(Mode::MODE_64) => {
                    let rsp_val = bank_read(&self.inner.regs, X86_RSP);
                    let data = match self.mem_read_as_vec(rsp_val, 8) {
                        Ok(v) => v,
                        Err(e) => {
                            return Err(e);
                        },
                    };
                    bank_write(&mut self.inner.regs, X86_RSP, rsp_val + 8);
                    let addr = le64(&data);
                    match self.set_pc(addr) {
                        Ok(()) => Ok(()),
                        Err(e) => Err(e),
                    }
                },
                _ => Err(uc_error::MODE),
            },
            _ => Err(uc_error::ARCH),
        }
    }
}

} // verus!
