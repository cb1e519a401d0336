//! The fatal error conditions of the emulator core.

use vstd::prelude::*;

verus! {

/// Everything the core treats as a fatal abort at the host boundary.
#[derive(Debug, Clone, Copy, PartialEq, Eq, Structural)]
pub enum EmuError {
    /// An opcode or funct3/funct7 combination outside the supported subset.
    Decode,
    /// EBREAK or an instruction of an unsupported extension.
    UnsupportedInstruction,
    /// An access touching an address outside every allocated region.
    MemoryUnmapped,
    /// A reset was requested before any state had been saved.
    NoSnapshot,
    /// A recognized syscall number used with an unsupported file descriptor.
    UnsupportedSyscall,
    /// The fuzz-input provider has no buffer left for a `read` syscall.
    OutOfFuzzInputs,
    /// The guest signalled failure through the `fail` breakpoint.
    GuestFailure,
    /// An attempt to allocate a region overlapping an existing one.
    RegionOverlap,
}

} // verus!
