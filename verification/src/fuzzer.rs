//! The fuzz-input provider and the guest syscall shim.
//!
//! The fuzzer owns a queue of input buffers; the guest's `read` syscall
//! consumes one buffer per call.  Guest writes to stdout can be captured
//! into a host buffer for the harness to publish.

use vstd::prelude::*;

use crate::cpu::CPU;
use crate::cpu::CpuV;
use crate::cpu::write_reg;
use crate::error::EmuError;
use crate::memory::MemV;
use crate::memory::read_spec;
use crate::memory::write_spec;

verus! {

/// The file descriptors the syscall shim recognizes.
#[derive(Debug, Clone, Copy, PartialEq, Eq, Structural)]
pub enum SpecialFD {
    Stdin,
    Stdout,
    Stderr,
}

impl SpecialFD {
    /// The guest-visible number of this descriptor.
    pub open spec fn spec_number(self) -> u64 {
        match self {
            SpecialFD::Stdin => 0,
            SpecialFD::Stdout => 1,
            SpecialFD::Stderr => 2,
        }
    }

    /// The guest-visible number of this descriptor.
    pub fn number(self) -> (n: u64)
        ensures
            n == self.spec_number(),
    {
        match self {
            SpecialFD::Stdin => 0,
            SpecialFD::Stdout => 1,
            SpecialFD::Stderr => 2,
        }
    }
}

/// Mathematical model of the fuzzer: the pending input buffers, newest
/// last, and everything the guest has written to stdout so far.
#[verifier::ext_equal]
pub struct FuzzerV {
    pub corpus: Seq<Seq<u8>>,
    pub stdout: Seq<u8>,
}

/// Generates fuzzed inputs; everything is stored in memory for speed.
pub struct Fuzzer {
    /// Input buffers still to be tried, consumed from the back.
    corpus: Vec<Vec<u8>>,
    /// Bytes the guest wrote to stdout while redirection was enabled.
    stdout: Vec<u8>,
}

impl View for Fuzzer {
    type V = FuzzerV;

    closed spec fn view(&self) -> FuzzerV {
        FuzzerV { corpus: self.corpus@.map_values(|d: Vec<u8>| d@), stdout: self.stdout@ }
    }
}

impl Fuzzer {
    /// A fuzzer seeded with a tiny starting corpus.
    pub fn new() -> (f: Fuzzer)
        ensures
            f@.corpus == seq![
                seq![0x42u8, 0x4e, 0x45, 0x0a],
                seq![12u8, 12, 12, 0x0a],
                seq![12u8, 12, 12, 0x0a],
            ],
            f@.stdout == Seq::<u8>::empty(),
    {
        let mut corpus: Vec<Vec<u8>> = Vec::new();
        corpus.push(vec![0x42u8, 0x4e, 0x45, 0x0a]);
        corpus.push(vec![12u8, 12, 12, 0x0a]);
        corpus.push(vec![12u8, 12, 12, 0x0a]);
        let f = Fuzzer { corpus, stdout: Vec::new() };
        proof {
            assert(f@.corpus =~~= seq![
                seq![0x42u8, 0x4e, 0x45, 0x0a],
                seq![12u8, 12, 12, 0x0a],
                seq![12u8, 12, 12, 0x0a],
            ]);
        }
        f
    }

    /// Pop the newest pending input buffer.
    pub fn get_fuzz_input(&mut self) -> (r: Vec<u8>)
        requires
            old(self)@.corpus.len() > 0,
        ensures
            r@ == old(self)@.corpus.last(),
            final(self)@.corpus == old(self)@.corpus.drop_last(),
            final(self)@.stdout == old(self)@.stdout,
    {
        let ghost c0 = self@.corpus;
        let r = match self.corpus.pop() {
            Option::Some(v) => v,
            Option::None => Vec::new(),
        };
        proof {
            assert(self@.corpus =~= c0.drop_last());
        }
        r
    }

    /// Whether any input buffer is still pending.
    pub fn has_input(&self) -> (b: bool)
        ensures
            b == (self@.corpus.len() > 0),
    {
        self.corpus.len() > 0
    }

    /// Everything the guest has written to stdout so far.
    pub fn stdout(&self) -> (r: &Vec<u8>)
        ensures
            r@ == self@.stdout,
    {
        &self.stdout
    }

    /// Service the ECALL the guest just executed.  The syscall number
    /// sits in `a7` (x17), arguments in `a0..a2`, the result goes to
    /// `a0`; the program counter is left alone (the interpreter
    /// advances it).  See `syscall_spec` for the exact behaviour.
    pub fn syscall(&mut self, cpu: &mut CPU) -> (r: Result<(), EmuError>)
        requires
            old(cpu).inv(),
        ensures
            final(cpu).inv(),
            match r {
                Ok(()) => syscall_spec(old(self)@, old(cpu)@) == Ok::<_, EmuError>(
                    (final(self)@, final(cpu)@),
                ),
                Err(e) => syscall_spec(old(self)@, old(cpu)@) == Err::<(FuzzerV, CpuV), _>(e),
            },
    {
        cpu.service_syscall(self)
    }

    /// Append captured guest output to the host stdout buffer.
    pub(crate) fn append_stdout(&mut self, bytes: &Vec<u8>)
        ensures
            final(self)@.corpus == old(self)@.corpus,
            final(self)@.stdout == old(self)@.stdout + bytes@,
    {
        let m = bytes.len();
        let mut k: usize = 0;
        while k < m
            invariant
                k <= m,
                m == bytes@.len(),
                self@.corpus == old(self)@.corpus,
                self@.stdout == old(self)@.stdout + bytes@.subrange(0, k as int),
            decreases m - k,
        {
            self.stdout.push(bytes[k]);
            proof {
                assert(self@.stdout =~= old(self)@.stdout + bytes@.subrange(0, k + 1 as int));
            }
            k += 1;
        }
        proof {
            assert(bytes@.subrange(0, m as int) =~= bytes@);
        }
    }
}

/// A read longer than any region can hold is never mapped.
pub(crate) proof fn lemma_oversized_read_unmapped(c: CpuV, at: u64, len: nat)
    requires
        crate::cpu::cpu_wf(c),
        len > usize::MAX,
    ensures
        read_spec(c.mem.regions, at, len) is None,
{
    assert forall|i: int|
        0 <= i < c.mem.regions.len() implies !crate::memory::region_contains(
        #[trigger] c.mem.regions[i],
        at,
        len,
    ) by {
        assert(crate::memory::region_wf(c.mem.regions[i]));
    }
}

/// What the syscall shim does, by syscall number in `a7`:
///
/// - 63 `read`: only stdin; pops the newest fuzz-input buffer and
///   writes the whole buffer to guest memory at `a1` (the requested
///   length is advisory), returning its length in `a0`.
/// - 64 `write`: only stdout; when redirection is on, copies `a2`
///   bytes at `a1` into the host stdout buffer; returns `a2` in `a0`.
/// - 80 `fstat` and 214 `brk`: stubs returning 0.
/// - anything else: logged by the host, machine unchanged.
pub open spec fn syscall_spec(f: FuzzerV, c: CpuV) -> Result<(FuzzerV, CpuV), EmuError> {
    let num = c.regs.x[17];
    let a0 = c.regs.x[10];
    let a1 = c.regs.x[11];
    let a2 = c.regs.x[12];
    if num == 63 {
        if a0 != SpecialFD::Stdin.spec_number() {
            Err(EmuError::UnsupportedSyscall)
        } else if f.corpus.len() == 0 {
            Err(EmuError::OutOfFuzzInputs)
        } else {
            let buf = f.corpus.last();
            match write_spec(c.mem.regions, a1, buf) {
                Option::None => Err(EmuError::MemoryUnmapped),
                Option::Some(rs2) => Ok(
                    (
                        FuzzerV { corpus: f.corpus.drop_last(), ..f },
                        CpuV {
                            mem: MemV { regions: rs2, saved: c.mem.saved },
                            regs: write_reg(c.regs, 10, buf.len() as u64),
                            ..c
                        },
                    ),
                ),
            }
        }
    } else if num == 64 {
        if a0 != SpecialFD::Stdout.spec_number() {
            Err(EmuError::UnsupportedSyscall)
        } else if c.redirect_stdout {
            match read_spec(c.mem.regions, a1, a2 as nat) {
                Option::None => Err(EmuError::MemoryUnmapped),
                Option::Some(bytes) => Ok(
                    (
                        FuzzerV { stdout: f.stdout + bytes, ..f },
                        CpuV { regs: write_reg(c.regs, 10, a2), ..c },
                    ),
                ),
            }
        } else {
            Ok((f, CpuV { regs: write_reg(c.regs, 10, a2), ..c }))
        }
    } else if num == 80 || num == 214 {
        Ok((f, CpuV { regs: write_reg(c.regs, 10, 0), ..c }))
    } else {
        Ok((f, c))
    }
}

} // verus!
