//! A user-space emulator for the RV64I base integer instruction set,
//! built as the execution substrate for a coverage-guided snapshot fuzzer.
//!
//! The crate provides a faithful RV64I interpreter, a segmented guest
//! address space with dirty-block tracking and O(dirty) snapshot restore,
//! a branch-edge coverage recorder, a breakpoint dispatcher, and a small
//! syscall shim that feeds fuzz inputs through the guest's `read` path.

pub mod cpu;
pub mod elf_reader;
pub mod emu;
pub mod error;
pub mod fuzzer;
pub mod instr_type;
pub mod laws;
pub mod memory;

pub use error::EmuError;
