//! The emulator: one CPU paired with one fuzz-input provider.
//!
//! The host loads an ELF through `cpu.allocate`, installs breakpoints at
//! the symbols that drive the fuzzing loop, and calls `run`.

use vstd::prelude::*;

use crate::cpu::BreakpointAction;
use crate::cpu::CPU;
use crate::cpu::CpuV;
use crate::cpu::RegsV;
use crate::cpu::run_spec;
use crate::error::EmuError;
use crate::fuzzer::Fuzzer;
use crate::memory::STACK_SIZE;
use crate::memory::num_blocks;

verus! {

/// A CPU and the fuzzer feeding its `read` syscalls.
pub struct Emu {
    pub cpu: CPU,
    pub fuzzer: Fuzzer,
}

impl Emu {
    /// A fresh emulator with coverage recording on and the seed corpus
    /// loaded: boot registers, the zeroed stack region at address 0,
    /// no breakpoints, no snapshot, empty coverage, and three pending
    /// input buffers.
    pub fn new() -> (e: Emu)
        ensures
            e.cpu.inv(),
            e.cpu@.regs.pc == 0,
            e.cpu@.regs.x == Seq::new(32, |i: int| if i == 2 { STACK_SIZE as u64 } else { 0u64 }),
            e.cpu@.exit == false,
            e.cpu@.breakpoints == Map::<u64, BreakpointAction>::empty(),
            e.cpu@.coverage_enabled,
            e.cpu@.coverage == Set::<u64>::empty(),
            e.cpu@.nbr_exec == 0,
            e.cpu@.max_instructions == u64::MAX,
            e.cpu@.redirect_stdout == false,
            e.cpu@.last_coverage == Set::<u64>::empty(),
            e.cpu@.saved_regs is None,
            e.cpu@.mem.saved is None,
            e.cpu@.mem.regions.len() == 1,
            e.cpu@.mem.regions[0].virt_addr == 0,
            e.cpu@.mem.regions[0].data == Seq::new(STACK_SIZE as nat, |k: int| 0u8),
            e.cpu@.mem.regions[0].dirty == Seq::new(
                num_blocks(STACK_SIZE as int) as nat,
                |j: int| false,
            ),
            e.fuzzer@.corpus == seq![
                seq![0x42u8, 0x4e, 0x45, 0x0a],
                seq![12u8, 12, 12, 0x0a],
                seq![12u8, 12, 12, 0x0a],
            ],
            e.fuzzer@.stdout == Seq::<u8>::empty(),
    {
        Emu { cpu: CPU::new(true), fuzzer: Fuzzer::new() }
    }

    /// Run the loaded guest from `entrypoint`; the whole run equals
    /// `run_spec` on the starting state.
    pub fn run(&mut self, entrypoint: u64) -> (r: Result<(), EmuError>)
        requires
            old(self).cpu.inv(),
        ensures
            final(self).cpu.inv(),
            ({
                let start = CpuV {
                    regs: RegsV { x: old(self).cpu@.regs.x, pc: entrypoint },
                    ..old(self).cpu@
                };
                let run = run_spec(start, old(self).fuzzer@, old(self).cpu@.max_instructions as nat);
                match r {
                    Ok(()) => run.2 == Ok::<(), EmuError>(()) && final(self).cpu@ == run.0
                        && final(self).fuzzer@ == run.1,
                    Err(e) => run.2 == Err::<(), EmuError>(e),
                }
            }),
    {
        self.cpu.execute(entrypoint, &mut self.fuzzer)
    }
}

} // verus!
