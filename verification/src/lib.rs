//! Binding-layer core for a CPU emulator: a shared emulator state with a
//! verified register bank, memory-region bookkeeping, memory-mapped-I/O
//! callback scopes with their interval-splitting algebra, a hook registry
//! with token-based dispatch decisions, and an architecture/mode register
//! -role resolver.
//!
//! The emulation engine itself (instruction decoding and execution) is out
//! of scope; the state it operates on is modelled here so that the
//! bookkeeping and the helper semantics around it are proved. User
//! callbacks are represented by caller-chosen identifiers: the library
//! decides which identifier fires for which event, and the surrounding
//! program maps identifiers to callables.

pub mod abi;
pub mod emulator;
pub mod hooks;
pub mod memory;
pub mod mmio;
pub mod regbank;
pub mod regs;
pub mod unicorn_const;
