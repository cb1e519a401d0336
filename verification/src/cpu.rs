//! The RV64I CPU: register file, breakpoint dispatcher, snapshot
//! controller and the fetch–decode–execute loop.

use vstd::prelude::*;
use vstd::slice::slice_to_vec;
use std::collections::HashMap;
use std::collections::HashSet;

use crate::error::EmuError;
use crate::fuzzer::Fuzzer;
use crate::fuzzer::FuzzerV;
use crate::fuzzer::syscall_spec;
use crate::instr_type::BType;
use crate::instr_type::IType;
use crate::instr_type::JType;
use crate::instr_type::RType;
use crate::instr_type::SType;
use crate::instr_type::UType;
use crate::instr_type::spec_btype;
use crate::instr_type::spec_itype;
use crate::instr_type::spec_jtype;
use crate::instr_type::spec_rtype;
use crate::instr_type::spec_stype;
use crate::instr_type::spec_utype;
use crate::memory::Memory;
use crate::memory::MemV;
use crate::memory::STACK_SIZE;
use crate::memory::mem_wf;
use crate::memory::read_spec;
use crate::memory::reset_spec;
use crate::memory::save_spec;
use crate::memory::write_spec;

verus! {

/// The low 32 bits.
pub const MASK32: u64 = 0xffff_ffff;

/// Bounds of the masked values the interpreter computes with.
pub(crate) proof fn lemma_masks64(x: u64)
    by (bit_vector)
    ensures
        x & 0xffff_ffffu64 < 0x1_0000_0000u64,
        x & 0xffffu64 < 0x10000u64,
        x & 0xffu64 < 0x100u64,
        x & 0x3fu64 < 64u64,
        x & 0x1fu64 < 32u64,
{
}

/// A logical right shift never grows a value.
pub(crate) proof fn lemma_shr_bound(x: u64, s: u64)
    by (bit_vector)
    requires
        s < 64,
    ensures
        x >> s <= x,
{
}

/// A 64-bit wrapping sum.
pub open spec fn wadd(a: u64, b: u64) -> u64 {
    vstd::wrapping::u64_specs::wrapping_add(a, b)
}

/// A 64-bit wrapping difference.
pub open spec fn wsub(a: u64, b: u64) -> u64 {
    vstd::wrapping::u64_specs::wrapping_sub(a, b)
}

/// A byte sign-extended to 64 bits.
pub open spec fn sext8(b: u8) -> u64 {
    if b < 0x80 {
        b as u64
    } else {
        ((b as u64) + 0xffff_ffff_ffff_ff00) as u64
    }
}

/// A 16-bit value sign-extended to 64 bits.
pub open spec fn sext16(h: u64) -> u64 {
    if h < 0x8000 {
        h
    } else {
        ((h + 0xffff_ffff_ffff_0000) as u64)
    }
}

/// A 32-bit value sign-extended to 64 bits.
pub open spec fn sext32(w: u64) -> u64 {
    if w < 0x8000_0000 {
        w
    } else {
        ((w + 0xffff_ffff_0000_0000) as u64)
    }
}

/// The two's-complement reading of a 64-bit register value.
pub open spec fn as_signed(x: u64) -> int {
    if x < 0x8000_0000_0000_0000 {
        x as int
    } else {
        x as int - 0x1_0000_0000_0000_0000
    }
}

/// A 64-bit arithmetic right shift: shifted-out high bits repeat the
/// sign bit.
pub open spec fn sra64(a: u64, s: u64) -> u64 {
    if a < 0x8000_0000_0000_0000 {
        a >> s
    } else if s == 0 {
        a
    } else {
        (a >> s) | (0xffff_ffff_ffff_ffffu64 << ((64 - s) as u64))
    }
}

/// 32-bit wrapping sum, sign-extended to 64 bits (ADDW/ADDIW).
pub open spec fn addw(a: u64, b: u64) -> u64 {
    sext32((((a & MASK32) + (b & MASK32)) as u64) & MASK32)
}

/// 32-bit wrapping difference, sign-extended to 64 bits (SUBW).
pub open spec fn subw(a: u64, b: u64) -> u64 {
    sext32((((a & MASK32) + 0x1_0000_0000 - (b & MASK32)) as u64) & MASK32)
}

/// 32-bit left shift, sign-extended to 64 bits (SLLW/SLLIW).
pub open spec fn sllw(a: u64, s: u64) -> u64 {
    sext32(((a & MASK32) << s) & MASK32)
}

/// 32-bit logical right shift, sign-extended to 64 bits (SRLW/SRLIW).
pub open spec fn srlw(a: u64, s: u64) -> u64 {
    sext32((a & MASK32) >> s)
}

/// 32-bit arithmetic right shift, sign-extended to 64 bits (SRAW/SRAIW).
pub open spec fn sraw(a: u64, s: u64) -> u64 {
    let w = a & MASK32;
    if w < 0x8000_0000 {
        sext32(w >> s)
    } else {
        sext32((((w + 0xffff_ffff_0000_0000) as u64) >> s) & MASK32)
    }
}

/// A shifted 20-bit upper immediate stays within 32 bits.
proof fn lemma_shl12_bound(x: u64)
    by (bit_vector)
    requires
        x < 0x100000,
    ensures
        (x << 12) < 0x1_0000_0000u64,
{
}

/// Two little-endian bytes assemble to a 16-bit value.
pub(crate) proof fn lemma_le16_bound(b0: u64, b1: u64)
    by (bit_vector)
    requires
        b0 < 0x100,
        b1 < 0x100,
    ensures
        (b0 | (b1 << 8)) < 0x10000u64,
{
}

/// An unsigned value, interpreted as two's complement, is smaller
/// exactly when the biased comparison says so.
fn signed_lt(a: u64, b: u64) -> (r: bool)
    ensures
        r == (as_signed(a) < as_signed(b)),
{
    let an = a >= 0x8000_0000_0000_0000;
    let bn = b >= 0x8000_0000_0000_0000;
    if an != bn {
        an
    } else {
        a < b
    }
}

fn sext8_ex(b: u8) -> (r: u64)
    ensures
        r == sext8(b),
{
    if b < 0x80 {
        b as u64
    } else {
        (b as u64) + 0xffff_ffff_ffff_ff00
    }
}

fn sext16_ex(h: u64) -> (r: u64)
    requires
        h < 0x10000,
    ensures
        r == sext16(h),
{
    if h < 0x8000 {
        h
    } else {
        h + 0xffff_ffff_ffff_0000
    }
}

fn sext32_ex(w: u64) -> (r: u64)
    requires
        w < 0x1_0000_0000,
    ensures
        r == sext32(w),
{
    if w < 0x8000_0000 {
        w
    } else {
        w + 0xffff_ffff_0000_0000
    }
}

fn sra64_ex(a: u64, s: u64) -> (r: u64)
    requires
        s < 64,
    ensures
        r == sra64(a, s),
{
    if a < 0x8000_0000_0000_0000 {
        a >> s
    } else if s == 0 {
        a
    } else {
        (a >> s) | (0xffff_ffff_ffff_ffffu64 << (64 - s))
    }
}

fn addw_ex(a: u64, b: u64) -> (r: u64)
    ensures
        r == addw(a, b),
{
    proof {
        lemma_masks64(a);
        lemma_masks64(b);
    }
    let t = (a & MASK32) + (b & MASK32);
    let w = t & MASK32;
    proof {
        lemma_masks64(t);
    }
    sext32_ex(w)
}

fn subw_ex(a: u64, b: u64) -> (r: u64)
    ensures
        r == subw(a, b),
{
    proof {
        lemma_masks64(a);
        lemma_masks64(b);
    }
    let t = (a & MASK32) + 0x1_0000_0000 - (b & MASK32);
    let w = t & MASK32;
    proof {
        lemma_masks64(t);
    }
    sext32_ex(w)
}

fn sllw_ex(a: u64, s: u64) -> (r: u64)
    requires
        s < 32,
    ensures
        r == sllw(a, s),
{
    let t = (a & MASK32) << s;
    let w = t & MASK32;
    proof {
        lemma_masks64(t);
    }
    sext32_ex(w)
}

fn srlw_ex(a: u64, s: u64) -> (r: u64)
    requires
        s < 32,
    ensures
        r == srlw(a, s),
{
    let w = (a & MASK32) >> s;
    proof {
        lemma_masks64(a);
        lemma_shr_bound(a & MASK32, s);
    }
    sext32_ex(w)
}

fn sraw_ex(a: u64, s: u64) -> (r: u64)
    requires
        s < 32,
    ensures
        r == sraw(a, s),
{
    let w = a & MASK32;
    proof {
        lemma_masks64(a);
    }
    if w < 0x8000_0000 {
        proof {
            lemma_shr_bound(w, s);
        }
        sext32_ex(w >> s)
    } else {
        let t = (w + 0xffff_ffff_0000_0000) >> s;
        let v = t & MASK32;
        proof {
            lemma_masks64(t);
        }
        sext32_ex(v)
    }
}

fn le16_ex(b: &Vec<u8>) -> (r: u64)
    requires
        b@.len() >= 2,
    ensures
        r == le16(b@),
        r < 0x10000,
{
    proof {
        lemma_le16_bound(b@[0] as u64, b@[1] as u64);
    }
    (b[0] as u64) | ((b[1] as u64) << 8)
}

fn le32_ex(b: &Vec<u8>) -> (r: u32)
    requires
        b@.len() >= 4,
    ensures
        r == le32(b@),
{
    (b[0] as u32) | ((b[1] as u32) << 8) | ((b[2] as u32) << 16) | ((b[3] as u32) << 24)
}

fn le64_ex(b: &Vec<u8>) -> (r: u64)
    requires
        b@.len() >= 8,
    ensures
        r == le64(b@),
{
    (b[0] as u64) | ((b[1] as u64) << 8) | ((b[2] as u64) << 16) | ((b[3] as u64) << 24) | ((b[4]
        as u64) << 32) | ((b[5] as u64) << 40) | ((b[6] as u64) << 48) | ((b[7] as u64) << 56)
}

/// The `w` low bytes of `v`, little-endian.
fn le_bytes_ex(v: u64, w: usize) -> (r: Vec<u8>)
    requires
        w <= 8,
    ensures
        r@ == le_bytes(v, w as nat),
{
    let mut out: Vec<u8> = Vec::new();
    let mut i: usize = 0;
    while i < w
        invariant
            i <= w,
            w <= 8,
            out@.len() == i,
            forall|t: int|
                0 <= t < i ==> out@[t] == ((v >> ((8 * t) as u64)) & 0xff) as u8,
        decreases w - i,
    {
        let sh = (8 * i) as u64;
        let b = (v >> sh) & 0xff;
        proof {
            lemma_masks64(v >> sh);
        }
        out.push(b as u8);
        i += 1;
    }
    proof {
        assert(out@ =~= le_bytes(v, w as nat));
    }
    out
}

/// A 16-bit value assembled from two little-endian bytes.
pub open spec fn le16(b: Seq<u8>) -> u64 {
    (b[0] as u64) | ((b[1] as u64) << 8)
}

/// A 32-bit value assembled from four little-endian bytes.
pub open spec fn le32(b: Seq<u8>) -> u32 {
    (b[0] as u32) | ((b[1] as u32) << 8) | ((b[2] as u32) << 16) | ((b[3] as u32) << 24)
}

/// A 64-bit value assembled from eight little-endian bytes.
pub open spec fn le64(b: Seq<u8>) -> u64 {
    (b[0] as u64) | ((b[1] as u64) << 8) | ((b[2] as u64) << 16) | ((b[3] as u64) << 24) | ((b[4]
        as u64) << 32) | ((b[5] as u64) << 40) | ((b[6] as u64) << 48) | ((b[7] as u64) << 56)
}

/// The `w` low bytes of `v`, little-endian — what a store writes.
pub open spec fn le_bytes(v: u64, w: nat) -> Seq<u8> {
    Seq::new(w, |i: int| ((v >> ((8 * i) as u64)) & 0xff) as u8)
}

/// Mathematical model of the register file: 32 general-purpose
/// registers and the program counter.
#[verifier::ext_equal]
pub struct RegsV {
    pub x: Seq<u64>,
    pub pc: u64,
}

pub open spec fn regs_wf(r: RegsV) -> bool {
    &&& r.x.len() == 32
    &&& r.x[0] == 0
}

/// The register file.  Register 0 always reads as zero: writes to it
/// are discarded.
#[derive(Debug)]
pub struct Registers {
    pub common: Vec<u64>,
    pub pc: u64,
}

impl View for Registers {
    type V = RegsV;

    open spec fn view(&self) -> RegsV {
        RegsV { x: self.common@, pc: self.pc }
    }
}

/// The register file after writing `v` to register `rd`; a write to
/// register 0 changes nothing.
pub open spec fn write_reg(r: RegsV, rd: int, v: u64) -> RegsV {
    if rd == 0 {
        r
    } else {
        RegsV { x: r.x.update(rd, v), pc: r.pc }
    }
}

impl Registers {
    /// The boot register file: everything zero but for the stack
    /// pointer `x[2]`, which holds `STACK_SIZE`.
    pub fn new() -> (r: Registers)
        ensures
            regs_wf(r@),
            r@.pc == 0,
            r@.x == Seq::new(32, |i: int| if i == 2 { STACK_SIZE as u64 } else { 0u64 }),
    {
        let mut common: Vec<u64> = Vec::new();
        let mut k: usize = 0;
        while k < 32
            invariant
                k <= 32,
                common@.len() == k,
                forall|t: int| 0 <= t < k ==> common@[t] == 0u64,
            decreases 32 - k,
        {
            common.push(0);
            k += 1;
        }
        common.set(2, STACK_SIZE as u64);
        let r = Registers { common, pc: 0 };
        proof {
            assert(r@.x =~= Seq::new(32, |i: int| if i == 2 { STACK_SIZE as u64 } else { 0u64 }));
        }
        r
    }

    /// An identical copy, for the snapshot controller.
    fn duplicate(&self) -> (r: Registers)
        ensures
            r@ == self@,
    {
        let r = Registers { common: slice_to_vec(self.common.as_slice()), pc: self.pc };
        proof {
            assert(r@ =~= self@);
        }
        r
    }

    /// Write `v` to register `rd`; a write to register 0 is discarded.
    pub fn set_reg(&mut self, rd: usize, v: u64)
        requires
            regs_wf(old(self)@),
            rd < 32,
        ensures
            regs_wf(final(self)@),
            final(self)@ == write_reg(old(self)@, rd as int, v),
    {
        if rd != 0 {
            self.common.set(rd, v);
        }
    }
}

/// What a breakpoint does when the program counter reaches it.  The
/// loop dispatches these itself, between cycles, so no host callback
/// ever needs mutable access to the running CPU.
#[derive(Debug, Clone, Copy, PartialEq, Eq, Structural)]
pub enum BreakpointAction {
    /// Snapshot registers and memory (the `main` breakpoint of a fuzz run).
    SaveState,
    /// Restore the snapshot, export coverage, and stop after
    /// `exit_after` completed runs (0 means never stop).
    ResetToSnapshot { exit_after: u64 },
    /// Set the exit flag (the `pass` / watchdog breakpoint).
    Exit,
    /// Abort with `EmuError::GuestFailure` (the `fail` breakpoint).
    Fail,
}

/// Mathematical model of the whole CPU.
#[verifier::ext_equal]
pub struct CpuV {
    pub mem: MemV,
    pub regs: RegsV,
    pub exit: bool,
    pub breakpoints: Map<u64, BreakpointAction>,
    pub coverage_enabled: bool,
    pub coverage: Set<u64>,
    pub nbr_exec: u64,
    pub max_instructions: u64,
    pub redirect_stdout: bool,
    pub last_coverage: Set<u64>,
    pub saved_regs: Option<RegsV>,
}

pub open spec fn cpu_wf(c: CpuV) -> bool {
    &&& mem_wf(c.mem)
    &&& regs_wf(c.regs)
    &&& match c.saved_regs {
        Option::Some(r) => regs_wf(r),
        Option::None => true,
    }
    &&& (c.saved_regs is Some <==> c.mem.saved is Some)
}

/// The CPU: guest memory, registers, breakpoint table, edge-coverage
/// set and the snapshot taken by `save_as_initial_state`.
pub struct CPU {
    pub memory: Memory,
    pub registers: Registers,
    /// Set to leave the fetch–decode–execute loop.
    pub exit: bool,
    pub breakpoints: HashMap<u64, BreakpointAction>,
    /// When enabled, every taken control-flow transfer records the edge
    /// fingerprint `source_PC ^ destination_PC` into `coverage`.  The
    /// set lookup slows execution down, so it can be switched off.
    pub coverage_enabled: bool,
    pub coverage: HashSet<u64>,
    /// How many times the CPU was reset to its snapshot.
    pub nbr_exec: u64,
    /// Retired-instruction budget of one `execute` call; when it is
    /// exhausted the exit flag is set.
    pub max_instructions: u64,
    /// When set, guest writes to stdout are captured by the syscall shim.
    pub redirect_stdout: bool,
    /// The coverage exported by the most recent snapshot reset.
    pub last_coverage: HashSet<u64>,
    saved_state: Option<CpuSnapshot>,
}

/// The register half of a snapshot; the memory half lives in the
/// memory's own shadow.
struct CpuSnapshot {
    pub registers: Registers,
}

impl View for CPU {
    type V = CpuV;

    closed spec fn view(&self) -> CpuV {
        CpuV {
            mem: self.memory@,
            regs: self.registers@,
            exit: self.exit,
            breakpoints: self.breakpoints@,
            coverage_enabled: self.coverage_enabled,
            coverage: self.coverage@,
            nbr_exec: self.nbr_exec,
            max_instructions: self.max_instructions,
            redirect_stdout: self.redirect_stdout,
            last_coverage: self.last_coverage@,
            saved_regs: match self.saved_state {
                Option::None => Option::None,
                Option::Some(ref s) => Option::Some(s.registers@),
            },
        }
    }
}

/// The CPU after `save_as_initial_state`: registers cloned into the
/// snapshot, memory shadowed, every dirty bit cleared.
pub open spec fn cpu_save_spec(c: CpuV) -> CpuV {
    CpuV { mem: save_spec(c.mem), saved_regs: Option::Some(c.regs), ..c }
}

/// The CPU after `reset_to_initial_state`: registers and memory
/// restored from the snapshot, coverage cleared for the next run, the
/// run counter advanced, the exit flag cleared.
pub open spec fn cpu_reset_spec(c: CpuV) -> CpuV
    recommends
        c.saved_regs is Some,
{
    CpuV {
        mem: reset_spec(c.mem),
        regs: c.saved_regs->0,
        exit: false,
        coverage: Set::empty(),
        nbr_exec: vstd::wrapping::u64_specs::wrapping_add(c.nbr_exec, 1),
        ..c
    }
}

/// What one instruction other than ECALL/EBREAK does, before the
/// program counter moves: the updated machine, and the branch target
/// when the instruction is a taken control-flow transfer.
///
/// Two architectural choices the reference semantics settles: JALR
/// clears bit 0 of its target, and all signed comparisons are 64-bit.
pub open spec fn step_instr(c: CpuV, instr: u32) -> Result<(CpuV, Option<u64>), EmuError> {
    let opcode = instr & 0x7f;
    let pc = c.regs.pc;
    if opcode == 0x37 {  // LUI
        let u = spec_utype(instr);
        Ok((CpuV { regs: write_reg(c.regs, u.rd as int, sext32((u.imm as u64) << 12)), ..c }, Option::None))
    } else if opcode == 0x17 {  // AUIPC
        let u = spec_utype(instr);
        Ok(
            (
                CpuV { regs: write_reg(c.regs, u.rd as int, wadd(pc, sext32((u.imm as u64) << 12))), ..c },
                Option::None,
            ),
        )
    } else if opcode == 0x6f {  // JAL
        let j = spec_jtype(instr);
        Ok(
            (
                CpuV { regs: write_reg(c.regs, j.rd as int, wadd(pc, 4)), ..c },
                Option::Some(wadd(pc, j.imm)),
            ),
        )
    } else if opcode == 0x67 {  // JALR
        let i = spec_itype(instr);
        let target = wadd(c.regs.x[i.rs1 as int], i.imm) & 0xffff_ffff_ffff_fffe;
        Ok(
            (
                CpuV { regs: write_reg(c.regs, i.rd as int, wadd(pc, 4)), ..c },
                Option::Some(target),
            ),
        )
    } else if opcode == 0x63 {  // conditional branches
        let b = spec_btype(instr);
        let va = c.regs.x[b.rs1 as int];
        let vb = c.regs.x[b.rs2 as int];
        if b.funct3 == 0 || b.funct3 == 1 || b.funct3 == 4 || b.funct3 == 5 || b.funct3 == 6
            || b.funct3 == 7 {
            let taken = if b.funct3 == 0 {
                va == vb  // BEQ
            } else if b.funct3 == 1 {
                va != vb  // BNE
            } else if b.funct3 == 4 {
                as_signed(va) < as_signed(vb)  // BLT
            } else if b.funct3 == 5 {
                as_signed(va) >= as_signed(vb)  // BGE
            } else if b.funct3 == 6 {
                va < vb  // BLTU
            } else {
                va >= vb  // BGEU
            };
            if taken {
                Ok((c, Option::Some(wadd(pc, b.imm))))
            } else {
                Ok((c, Option::None))
            }
        } else {
            Err(EmuError::Decode)
        }
    } else if opcode == 0x03 {  // loads
        let i = spec_itype(instr);
        let addr = wadd(c.regs.x[i.rs1 as int], i.imm);
        let width: nat = if i.funct3 == 0 || i.funct3 == 4 {
            1
        } else if i.funct3 == 1 || i.funct3 == 5 {
            2
        } else if i.funct3 == 2 || i.funct3 == 6 {
            4
        } else {
            8
        };
        if i.funct3 == 7 {
            Err(EmuError::Decode)
        } else {
            match read_spec(c.mem.regions, addr, width) {
                Option::None => Err(EmuError::MemoryUnmapped),
                Option::Some(bytes) => {
                    let v = if i.funct3 == 0 {
                        sext8(bytes[0])  // LB
                    } else if i.funct3 == 1 {
                        sext16(le16(bytes))  // LH
                    } else if i.funct3 == 2 {
                        sext32(le32(bytes) as u64)  // LW
                    } else if i.funct3 == 3 {
                        le64(bytes)  // LD
                    } else if i.funct3 == 4 {
                        bytes[0] as u64  // LBU
                    } else if i.funct3 == 5 {
                        le16(bytes)  // LHU
                    } else {
                        le32(bytes) as u64  // LWU
                    };
                    Ok((CpuV { regs: write_reg(c.regs, i.rd as int, v), ..c }, Option::None))
                },
            }
        }
    } else if opcode == 0x23 {  // stores
        let s = spec_stype(instr);
        let addr = wadd(c.regs.x[s.rs1 as int], s.imm);
        if s.funct3 > 3 {
            Err(EmuError::Decode)
        } else {
            let width: nat = if s.funct3 == 0 {
                1
            } else if s.funct3 == 1 {
                2
            } else if s.funct3 == 2 {
                4
            } else {
                8
            };
            match write_spec(c.mem.regions, addr, le_bytes(c.regs.x[s.rs2 as int], width)) {
                Option::None => Err(EmuError::MemoryUnmapped),
                Option::Some(rs2) => Ok(
                    (CpuV { mem: MemV { regions: rs2, saved: c.mem.saved }, ..c }, Option::None),
                ),
            }
        }
    } else if opcode == 0x13 {  // register-immediate ALU
        let i = spec_itype(instr);
        let a = c.regs.x[i.rs1 as int];
        let v = if i.funct3 == 0 {
            wadd(a, i.imm)  // ADDI
        } else if i.funct3 == 2 {
            if as_signed(a) < as_signed(i.imm) {
                1u64
            } else {
                0u64
            }  // SLTI
        } else if i.funct3 == 3 {
            if a < i.imm {
                1u64
            } else {
                0u64
            }  // SLTIU
        } else if i.funct3 == 4 {
            a ^ i.imm  // XORI
        } else if i.funct3 == 6 {
            a | i.imm  // ORI
        } else if i.funct3 == 7 {
            a & i.imm  // ANDI
        } else if i.funct3 == 1 {
            a << (i.imm & 0x3f)  // SLLI
        } else {
            if (i.imm >> 10) & 1 == 1 {
                sra64(a, i.imm & 0x3f)  // SRAI
            } else {
                a >> (i.imm & 0x3f)  // SRLI
            }
        };
        Ok((CpuV { regs: write_reg(c.regs, i.rd as int, v), ..c }, Option::None))
    } else if opcode == 0x33 {  // register-register ALU
        let r = spec_rtype(instr);
        let a = c.regs.x[r.rs1 as int];
        let b = c.regs.x[r.rs2 as int];
        if (r.funct3 == 0 || r.funct3 == 5) && !(r.funct7 == 0 || r.funct7 == 0x20) {
            Err(EmuError::Decode)
        } else {
            let v = if r.funct3 == 0 {
                if r.funct7 == 0 {
                    wadd(a, b)  // ADD
                } else {
                    wsub(a, b)  // SUB
                }
            } else if r.funct3 == 1 {
                a << (b & 0x3f)  // SLL
            } else if r.funct3 == 2 {
                if as_signed(a) < as_signed(b) {
                    1u64
                } else {
                    0u64
                }  // SLT
            } else if r.funct3 == 3 {
                if a < b {
                    1u64
                } else {
                    0u64
                }  // SLTU
            } else if r.funct3 == 4 {
                a ^ b  // XOR
            } else if r.funct3 == 5 {
                if r.funct7 == 0 {
                    a >> (b & 0x3f)  // SRL
                } else {
                    sra64(a, b & 0x3f)  // SRA
                }
            } else if r.funct3 == 6 {
                a | b  // OR
            } else {
                a & b  // AND
            };
            Ok((CpuV { regs: write_reg(c.regs, r.rd as int, v), ..c }, Option::None))
        }
    } else if opcode == 0x0f {  // FENCE: single-threaded, so a no-op
        Ok((c, Option::None))
    } else if opcode == 0x1b {  // register-immediate ALU, 32-bit word forms
        let i = spec_itype(instr);
        let a = c.regs.x[i.rs1 as int];
        if i.funct3 == 0 {
            Ok((CpuV { regs: write_reg(c.regs, i.rd as int, addw(a, i.imm)), ..c }, Option::None))  // ADDIW
        } else if i.funct3 == 1 {
            Ok(
                (
                    CpuV { regs: write_reg(c.regs, i.rd as int, sllw(a, i.imm & 0x1f)), ..c },
                    Option::None,
                ),
            )  // SLLIW
        } else if i.funct3 == 5 {
            let v = if (i.imm >> 10) & 1 == 1 {
                sraw(a, i.imm & 0x1f)  // SRAIW
            } else {
                srlw(a, i.imm & 0x1f)  // SRLIW
            };
            Ok((CpuV { regs: write_reg(c.regs, i.rd as int, v), ..c }, Option::None))
        } else {
            Err(EmuError::Decode)
        }
    } else if opcode == 0x3b {  // register-register ALU, 32-bit word forms
        let r = spec_rtype(instr);
        let a = c.regs.x[r.rs1 as int];
        let b = c.regs.x[r.rs2 as int];
        if (r.funct3 == 0 || r.funct3 == 5) && !(r.funct7 == 0 || r.funct7 == 0x20) {
            Err(EmuError::Decode)
        } else if r.funct3 == 0 {
            let v = if r.funct7 == 0 {
                addw(a, b)  // ADDW
            } else {
                subw(a, b)  // SUBW
            };
            Ok((CpuV { regs: write_reg(c.regs, r.rd as int, v), ..c }, Option::None))
        } else if r.funct3 == 1 {
            Ok(
                (
                    CpuV { regs: write_reg(c.regs, r.rd as int, sllw(a, b & 0x1f)), ..c },
                    Option::None,
                ),
            )  // SLLW
        } else if r.funct3 == 5 {
            let v = if r.funct7 == 0 {
                srlw(a, b & 0x1f)  // SRLW
            } else {
                sraw(a, b & 0x1f)  // SRAW
            };
            Ok((CpuV { regs: write_reg(c.regs, r.rd as int, v), ..c }, Option::None))
        } else {
            Err(EmuError::Decode)
        }
    } else {
        Err(EmuError::Decode)
    }
}

/// Whether `step_instr` reports a taken control-flow transfer for this
/// instruction in this state.
pub open spec fn is_taken_transfer(c: CpuV, instr: u32) -> bool {
    match step_instr(c, instr) {
        Ok((c1, tk)) => tk is Some,
        Err(e) => false,
    }
}

/// What one whole cycle's execution phase does: ECALL runs the syscall
/// shim and falls through; EBREAK and everything outside the supported
/// subset is fatal; every other instruction runs `step_instr`, a taken
/// transfer jumps and records the edge fingerprint
/// `source_PC ^ destination_PC`, and everything else falls through to
/// `PC + 4`.
pub open spec fn step_spec(c: CpuV, f: FuzzerV, instr: u32) -> Result<(CpuV, FuzzerV), EmuError> {
    if instr & 0x7f == 0x73 {
        if instr == 0x0000_0073 {  // ECALL
            match syscall_spec(f, c) {
                Ok((f2, c2)) => Ok(
                    (CpuV { regs: RegsV { x: c2.regs.x, pc: wadd(c2.regs.pc, 4) }, ..c2 }, f2),
                ),
                Err(e) => Err(e),
            }
        } else if instr == 0x0010_0073 {  // EBREAK
            Err(EmuError::UnsupportedInstruction)
        } else {
            Err(EmuError::Decode)
        }
    } else {
        match step_instr(c, instr) {
            Err(e) => Err(e),
            Ok((c1, tk)) => match tk {
                Option::None => Ok(
                    (CpuV { regs: RegsV { x: c1.regs.x, pc: wadd(c1.regs.pc, 4) }, ..c1 }, f),
                ),
                Option::Some(t) => Ok(
                    (
                        CpuV {
                            regs: RegsV { x: c1.regs.x, pc: t },
                            coverage: if c1.coverage_enabled {
                                c1.coverage.insert(c1.regs.pc ^ t)
                            } else {
                                c1.coverage
                            },
                            ..c1
                        },
                        f,
                    ),
                ),
            },
        }
    }
}

/// What the breakpoint attached to the current program counter does,
/// before fetch; a missing breakpoint leaves the machine alone.
pub open spec fn bp_spec(c: CpuV) -> Result<CpuV, EmuError> {
    if c.breakpoints.contains_key(c.regs.pc) {
        match c.breakpoints[c.regs.pc] {
            BreakpointAction::SaveState => Ok(cpu_save_spec(c)),
            BreakpointAction::ResetToSnapshot { exit_after } => {
                if c.saved_regs is None {
                    Err(EmuError::NoSnapshot)
                } else {
                    let c2 = CpuV { last_coverage: c.coverage, ..cpu_reset_spec(c) };
                    if exit_after > 0 && c2.nbr_exec >= exit_after {
                        Ok(CpuV { exit: true, ..c2 })
                    } else {
                        Ok(c2)
                    }
                }
            },
            BreakpointAction::Exit => Ok(CpuV { exit: true, ..c }),
            BreakpointAction::Fail => Err(EmuError::GuestFailure),
        }
    } else {
        Ok(c)
    }
}

/// One whole run of the fetch–decode–execute loop, at most `budget`
/// instructions long: each cycle dispatches the breakpoint at the
/// program counter, leaves the loop when the exit flag is set, sets
/// the flag itself when the budget runs out, and otherwise fetches and
/// executes one instruction.  The third component is the fatal error
/// that stopped the run, if one did; the machine state it leaves
/// behind is then dead.
pub open spec fn run_spec(c: CpuV, f: FuzzerV, budget: nat) -> (CpuV, FuzzerV, Result<
    (),
    EmuError,
>)
    decreases budget,
{
    match bp_spec(c) {
        Err(e) => (c, f, Err(e)),
        Ok(c1) => {
            if c1.exit {
                (c1, f, Ok(()))
            } else if budget == 0 {
                (CpuV { exit: true, ..c1 }, f, Ok(()))
            } else {
                match read_spec(c1.mem.regions, c1.regs.pc, 4) {
                    Option::None => (c1, f, Err(EmuError::MemoryUnmapped)),
                    Option::Some(bytes) => match step_spec(c1, f, le32(bytes)) {
                        Err(e) => (c1, f, Err(e)),
                        Ok((c2, f2)) => run_spec(c2, f2, (budget - 1) as nat),
                    },
                }
            }
        },
    }
}

impl CPU {
    /// Everything the execution engine relies on: well-formed memory
    /// and registers, and register/memory snapshots taken together.
    pub closed spec fn inv(&self) -> bool {
        &&& self.memory.inv()
        &&& cpu_wf(self@)
    }

    /// A fresh CPU: boot registers, the zeroed stack region, no
    /// breakpoints, no snapshot, and an empty coverage set.
    pub fn new(coverage_enabled: bool) -> (c: CPU)
        ensures
            c.inv(),
            c@.regs.pc == 0,
            c@.regs.x == Seq::new(32, |i: int| if i == 2 { STACK_SIZE as u64 } else { 0u64 }),
            c@.exit == false,
            c@.breakpoints == Map::<u64, BreakpointAction>::empty(),
            c@.coverage_enabled == coverage_enabled,
            c@.coverage == Set::<u64>::empty(),
            c@.nbr_exec == 0,
            c@.max_instructions == u64::MAX,
            c@.redirect_stdout == false,
            c@.last_coverage == Set::<u64>::empty(),
            c@.saved_regs is None,
            c@.mem.saved is None,
            c@.mem.regions.len() == 1,
            c@.mem.regions[0].virt_addr == 0,
            c@.mem.regions[0].data == Seq::new(STACK_SIZE as nat, |k: int| 0u8),
            c@.mem.regions[0].dirty == Seq::new(
                crate::memory::num_blocks(STACK_SIZE as int) as nat,
                |j: int| false,
            ),
    {
        CPU {
            memory: Memory::new(),
            registers: Registers::new(),
            exit: false,
            breakpoints: HashMap::new(),
            coverage_enabled,
            coverage: HashSet::new(),
            nbr_exec: 0,
            max_instructions: u64::MAX,
            redirect_stdout: false,
            last_coverage: HashSet::new(),
            saved_state: Option::None,
        }
    }

    /// Attach `action` to guest address `at`; it runs before fetch every
    /// time the program counter reaches `at`.
    pub fn set_breakpoint(&mut self, at: u64, action: BreakpointAction)
        requires
            old(self).inv(),
        ensures
            final(self).inv(),
            final(self)@ == (CpuV { breakpoints: old(self)@.breakpoints.insert(at, action), ..old(
                self,
            )@ }),
    {
        self.breakpoints.insert(at, action);
        proof {
            assert(final(self)@ =~~= (CpuV {
                breakpoints: old(self)@.breakpoints.insert(at, action),
                ..old(self)@
            }));
        }
    }

    /// Map a new guest region — the loader's path into memory.  `data`
    /// may be shorter than `size` (BSS style) and is padded with
    /// zeros; a region overlapping one already mapped is refused.
    pub fn allocate(&mut self, at: u64, size: u64, data: &[u8]) -> (r: Result<(), EmuError>)
        requires
            old(self).inv(),
            data@.len() <= size,
            size <= usize::MAX,
            at + size <= u64::MAX,
        ensures
            final(self).inv(),
            match r {
                Ok(()) => crate::memory::range_free(old(self)@.mem.regions, at, size)
                    && final(self)@ == (CpuV {
                    mem: crate::memory::allocate_spec(old(self)@.mem, at, size, data@),
                    ..old(self)@
                }),
                Err(e) => e == EmuError::RegionOverlap && !crate::memory::range_free(
                    old(self)@.mem.regions,
                    at,
                    size,
                ) && final(self)@ == old(self)@,
            },
    {
        let r = self.memory.allocate(at, size, data);
        proof {
            if r is Ok {
                assert(self@ =~~= (CpuV {
                    mem: crate::memory::allocate_spec(old(self)@.mem, at, size, data@),
                    ..old(self)@
                }));
            }
        }
        r
    }

    /// Store a copy of the current registers and shadow the memory; the
    /// next `reset_to_initial_state` returns here.
    pub fn save_as_initial_state(&mut self)
        requires
            old(self).inv(),
        ensures
            final(self).inv(),
            final(self)@ == cpu_save_spec(old(self)@),
    {
        self.saved_state = Option::Some(CpuSnapshot { registers: self.registers.duplicate() });
        self.memory.save_state();
        proof {
            assert(self@ =~~= cpu_save_spec(old(self)@));
        }
    }

    /// Restore registers and memory from the snapshot — only dirty
    /// blocks are copied — clear the exit flag and the coverage set,
    /// and return the coverage of the run that just ended.  Fails when
    /// no snapshot was ever saved.
    pub fn reset_to_initial_state(&mut self) -> (r: Result<HashSet<u64>, EmuError>)
        requires
            old(self).inv(),
        ensures
            final(self).inv(),
            match r {
                Ok(cov) => old(self)@.saved_regs is Some && final(self)@ == cpu_reset_spec(
                    old(self)@,
                ) && cov@ == old(self)@.coverage,
                Err(e) => e == EmuError::NoSnapshot && old(self)@.saved_regs is None
                    && final(self)@ == old(self)@,
            },
    {
        let regs = match (&self.saved_state) {
            Option::None => {
                return Err(EmuError::NoSnapshot);
            },
            Option::Some(snap) => snap.registers.duplicate(),
        };
        self.registers = regs;
        match self.memory.reset_to_saved_state() {
            Ok(()) => {},
            Err(e) => {
                // The invariant ties the two snapshot halves together:
                // a register snapshot exists, so the memory shadow does
                // too, and this arm is unreachable.
                proof {
                    assert(false);
                }
                return Err(e);
            },
        }
        self.exit = false;
        let mut exported: HashSet<u64> = HashSet::new();
        core::mem::swap(&mut exported, &mut self.coverage);
        self.nbr_exec = self.nbr_exec.wrapping_add(1);
        proof {
            assert(self@ =~~= cpu_reset_spec(old(self)@));
        }
        Ok(exported)
    }

    /// The body of the syscall shim; `Fuzzer::syscall` is its public face.
    pub(crate) fn service_syscall(&mut self, fuzzer: &mut Fuzzer) -> (r: Result<(), EmuError>)
        requires
            old(self).inv(),
        ensures
            final(self).inv(),
            match r {
                Ok(()) => syscall_spec(old(fuzzer)@, old(self)@) == Ok::<_, EmuError>(
                    (final(fuzzer)@, final(self)@),
                ),
                Err(e) => syscall_spec(old(fuzzer)@, old(self)@) == Err::<(FuzzerV, CpuV), _>(e),
            },
    {
        let num = self.registers.common[17];
        if num == 63 {  // read
            let fd = self.registers.common[10];
            let ptr = self.registers.common[11];
            if fd != crate::fuzzer::SpecialFD::Stdin.number() {
                return Err(EmuError::UnsupportedSyscall);
            }
            if !fuzzer.has_input() {
                return Err(EmuError::OutOfFuzzInputs);
            }
            let buf = fuzzer.get_fuzz_input();
            match self.memory.write(ptr, buf.as_slice()) {
                Ok(()) => {},
                Err(e) => {
                    return Err(e);
                },
            }
            let n = buf.len();
            self.registers.set_reg(10, n as u64);
            proof {
                assert(syscall_spec(old(fuzzer)@, old(self)@) == Ok::<_, EmuError>(
                    (fuzzer@, self@),
                ));
            }
            Ok(())
        } else if num == 64 {  // write
            let fd = self.registers.common[10];
            let ptr = self.registers.common[11];
            let len = self.registers.common[12];
            if fd != crate::fuzzer::SpecialFD::Stdout.number() {
                return Err(EmuError::UnsupportedSyscall);
            }
            if self.redirect_stdout {
                if len > (usize::MAX as u64) {
                    proof {
                        crate::fuzzer::lemma_oversized_read_unmapped(self@, ptr, len as nat);
                    }
                    return Err(EmuError::MemoryUnmapped);
                }
                let bytes = match self.memory.read(ptr, len as usize) {
                    Ok(b) => b,
                    Err(e) => {
                        return Err(e);
                    },
                };
                fuzzer.append_stdout(&bytes);
            }
            self.registers.set_reg(10, len);
            Ok(())
        } else if num == 80 || num == 214 {  // fstat / brk stubs
            self.registers.set_reg(10, 0);
            Ok(())
        } else {
            // Unknown syscall numbers are left to the host's logs; the
            // machine state is unchanged.
            Ok(())
        }
    }

    fn exec_lui(&mut self, instr: u32) -> (r: Result<Option<u64>, EmuError>)
        requires
            old(self).inv(),
            instr & 0x7f == 0x37,
        ensures
            final(self).inv(),
            match r {
                Ok(tk) => step_instr(old(self)@, instr) == Ok::<_, EmuError>((final(self)@, tk)),
                Err(e) => step_instr(old(self)@, instr) == Err::<(CpuV, Option<u64>), _>(e)
                    && final(self)@ == old(self)@,
            },
    {
        let u = UType::from(instr);
        let w = (u.imm as u64) << 12;
        proof {
            lemma_shl12_bound(u.imm as u64);
        }
        let v = sext32_ex(w);
        self.registers.set_reg(u.rd, v);
        Ok(Option::None)
    }

    fn exec_auipc(&mut self, instr: u32) -> (r: Result<Option<u64>, EmuError>)
        requires
            old(self).inv(),
            instr & 0x7f == 0x17,
        ensures
            final(self).inv(),
            match r {
                Ok(tk) => step_instr(old(self)@, instr) == Ok::<_, EmuError>((final(self)@, tk)),
                Err(e) => step_instr(old(self)@, instr) == Err::<(CpuV, Option<u64>), _>(e)
                    && final(self)@ == old(self)@,
            },
    {
        let u = UType::from(instr);
        let w = (u.imm as u64) << 12;
        proof {
            lemma_shl12_bound(u.imm as u64);
        }
        let v = self.registers.pc.wrapping_add(sext32_ex(w));
        self.registers.set_reg(u.rd, v);
        Ok(Option::None)
    }

    fn exec_jal(&mut self, instr: u32) -> (r: Result<Option<u64>, EmuError>)
        requires
            old(self).inv(),
            instr & 0x7f == 0x6f,
        ensures
            final(self).inv(),
            match r {
                Ok(tk) => step_instr(old(self)@, instr) == Ok::<_, EmuError>((final(self)@, tk)),
                Err(e) => step_instr(old(self)@, instr) == Err::<(CpuV, Option<u64>), _>(e)
                    && final(self)@ == old(self)@,
            },
    {
        let j = JType::from(instr);
        let target = self.registers.pc.wrapping_add(j.imm);
        let link = self.registers.pc.wrapping_add(4);
        self.registers.set_reg(j.rd, link);
        Ok(Option::Some(target))
    }

    fn exec_jalr(&mut self, instr: u32) -> (r: Result<Option<u64>, EmuError>)
        requires
            old(self).inv(),
            instr & 0x7f == 0x67,
        ensures
            final(self).inv(),
            match r {
                Ok(tk) => step_instr(old(self)@, instr) == Ok::<_, EmuError>((final(self)@, tk)),
                Err(e) => step_instr(old(self)@, instr) == Err::<(CpuV, Option<u64>), _>(e)
                    && final(self)@ == old(self)@,
            },
    {
        let i = IType::from(instr);
        // The architecture clears bit 0 of the computed target.
        let target = self.registers.common[i.rs1].wrapping_add(i.imm) & 0xffff_ffff_ffff_fffe;
        let link = self.registers.pc.wrapping_add(4);
        self.registers.set_reg(i.rd, link);
        Ok(Option::Some(target))
    }

    fn exec_branch(&mut self, instr: u32) -> (r: Result<Option<u64>, EmuError>)
        requires
            old(self).inv(),
            instr & 0x7f == 0x63,
        ensures
            final(self).inv(),
            match r {
                Ok(tk) => step_instr(old(self)@, instr) == Ok::<_, EmuError>((final(self)@, tk)),
                Err(e) => step_instr(old(self)@, instr) == Err::<(CpuV, Option<u64>), _>(e)
                    && final(self)@ == old(self)@,
            },
    {
        let b = BType::from(instr);
        let va = self.registers.common[b.rs1];
        let vb = self.registers.common[b.rs2];
        // All comparisons are 64-bit, signed for BLT/BGE.
        let taken = if b.funct3 == 0 {
            va == vb
        } else if b.funct3 == 1 {
            va != vb
        } else if b.funct3 == 4 {
            signed_lt(va, vb)
        } else if b.funct3 == 5 {
            !signed_lt(va, vb)
        } else if b.funct3 == 6 {
            va < vb
        } else if b.funct3 == 7 {
            va >= vb
        } else {
            return Err(EmuError::Decode);
        };
        if taken {
            Ok(Option::Some(self.registers.pc.wrapping_add(b.imm)))
        } else {
            Ok(Option::None)
        }
    }

    fn exec_load(&mut self, instr: u32) -> (r: Result<Option<u64>, EmuError>)
        requires
            old(self).inv(),
            instr & 0x7f == 0x03,
        ensures
            final(self).inv(),
            match r {
                Ok(tk) => step_instr(old(self)@, instr) == Ok::<_, EmuError>((final(self)@, tk)),
                Err(e) => step_instr(old(self)@, instr) == Err::<(CpuV, Option<u64>), _>(e)
                    && final(self)@ == old(self)@,
            },
    {
        let i = IType::from(instr);
        if i.funct3 == 7 {
            return Err(EmuError::Decode);
        }
        let addr = self.registers.common[i.rs1].wrapping_add(i.imm);
        let width: usize = if i.funct3 == 0 || i.funct3 == 4 {
            1
        } else if i.funct3 == 1 || i.funct3 == 5 {
            2
        } else if i.funct3 == 2 || i.funct3 == 6 {
            4
        } else {
            8
        };
        let bytes = match self.memory.read(addr, width) {
            Ok(b) => b,
            Err(e) => {
                return Err(e);
            },
        };
        let v = if i.funct3 == 0 {
            sext8_ex(bytes[0])
        } else if i.funct3 == 1 {
            sext16_ex(le16_ex(&bytes))
        } else if i.funct3 == 2 {
            sext32_ex(le32_ex(&bytes) as u64)
        } else if i.funct3 == 3 {
            le64_ex(&bytes)
        } else if i.funct3 == 4 {
            bytes[0] as u64
        } else if i.funct3 == 5 {
            le16_ex(&bytes)
        } else {
            le32_ex(&bytes) as u64
        };
        self.registers.set_reg(i.rd, v);
        Ok(Option::None)
    }

    fn exec_store(&mut self, instr: u32) -> (r: Result<Option<u64>, EmuError>)
        requires
            old(self).inv(),
            instr & 0x7f == 0x23,
        ensures
            final(self).inv(),
            match r {
                Ok(tk) => step_instr(old(self)@, instr) == Ok::<_, EmuError>((final(self)@, tk)),
                Err(e) => step_instr(old(self)@, instr) == Err::<(CpuV, Option<u64>), _>(e)
                    && final(self)@ == old(self)@,
            },
    {
        let s = SType::from(instr);
        if s.funct3 > 3 {
            return Err(EmuError::Decode);
        }
        let addr = self.registers.common[s.rs1].wrapping_add(s.imm);
        let width: usize = if s.funct3 == 0 {
            1
        } else if s.funct3 == 1 {
            2
        } else if s.funct3 == 2 {
            4
        } else {
            8
        };
        let bytes = le_bytes_ex(self.registers.common[s.rs2], width);
        match self.memory.write(addr, bytes.as_slice()) {
            Ok(()) => Ok(Option::None),
            Err(e) => Err(e),
        }
    }

    fn exec_op_imm(&mut self, instr: u32) -> (r: Result<Option<u64>, EmuError>)
        requires
            old(self).inv(),
            instr & 0x7f == 0x13,
        ensures
            final(self).inv(),
            match r {
                Ok(tk) => step_instr(old(self)@, instr) == Ok::<_, EmuError>((final(self)@, tk)),
                Err(e) => step_instr(old(self)@, instr) == Err::<(CpuV, Option<u64>), _>(e)
                    && final(self)@ == old(self)@,
            },
    {
        let i = IType::from(instr);
        let a = self.registers.common[i.rs1];
        proof {
            lemma_masks64(i.imm);
        }
        let v = if i.funct3 == 0 {
            a.wrapping_add(i.imm)
        } else if i.funct3 == 2 {
            if signed_lt(a, i.imm) {
                1
            } else {
                0
            }
        } else if i.funct3 == 3 {
            if a < i.imm {
                1
            } else {
                0
            }
        } else if i.funct3 == 4 {
            a ^ i.imm
        } else if i.funct3 == 6 {
            a | i.imm
        } else if i.funct3 == 7 {
            a & i.imm
        } else if i.funct3 == 1 {
            a << (i.imm & 0x3f)
        } else {
            if (i.imm >> 10) & 1 == 1 {
                sra64_ex(a, i.imm & 0x3f)
            } else {
                a >> (i.imm & 0x3f)
            }
        };
        self.registers.set_reg(i.rd, v);
        Ok(Option::None)
    }

    fn exec_op(&mut self, instr: u32) -> (r: Result<Option<u64>, EmuError>)
        requires
            old(self).inv(),
            instr & 0x7f == 0x33,
        ensures
            final(self).inv(),
            match r {
                Ok(tk) => step_instr(old(self)@, instr) == Ok::<_, EmuError>((final(self)@, tk)),
                Err(e) => step_instr(old(self)@, instr) == Err::<(CpuV, Option<u64>), _>(e)
                    && final(self)@ == old(self)@,
            },
    {
        let r = RType::from(instr);
        let a = self.registers.common[r.rs1];
        let b = self.registers.common[r.rs2];
        if (r.funct3 == 0 || r.funct3 == 5) && !(r.funct7 == 0 || r.funct7 == 0x20) {
            return Err(EmuError::Decode);
        }
        proof {
            lemma_masks64(b);
        }
        let v = if r.funct3 == 0 {
            if r.funct7 == 0 {
                a.wrapping_add(b)
            } else {
                a.wrapping_sub(b)
            }
        } else if r.funct3 == 1 {
            a << (b & 0x3f)
        } else if r.funct3 == 2 {
            if signed_lt(a, b) {
                1
            } else {
                0
            }
        } else if r.funct3 == 3 {
            if a < b {
                1
            } else {
                0
            }
        } else if r.funct3 == 4 {
            a ^ b
        } else if r.funct3 == 5 {
            if r.funct7 == 0 {
                a >> (b & 0x3f)
            } else {
                sra64_ex(a, b & 0x3f)
            }
        } else if r.funct3 == 6 {
            a | b
        } else {
            a & b
        };
        self.registers.set_reg(r.rd, v);
        Ok(Option::None)
    }

    fn exec_op_imm32(&mut self, instr: u32) -> (r: Result<Option<u64>, EmuError>)
        requires
            old(self).inv(),
            instr & 0x7f == 0x1b,
        ensures
            final(self).inv(),
            match r {
                Ok(tk) => step_instr(old(self)@, instr) == Ok::<_, EmuError>((final(self)@, tk)),
                Err(e) => step_instr(old(self)@, instr) == Err::<(CpuV, Option<u64>), _>(e)
                    && final(self)@ == old(self)@,
            },
    {
        let i = IType::from(instr);
        let a = self.registers.common[i.rs1];
        proof {
            lemma_masks64(i.imm);
        }
        // Word-variant shift amounts are the low five immediate bits.
        let v = if i.funct3 == 0 {
            addw_ex(a, i.imm)
        } else if i.funct3 == 1 {
            sllw_ex(a, i.imm & 0x1f)
        } else if i.funct3 == 5 {
            if (i.imm >> 10) & 1 == 1 {
                sraw_ex(a, i.imm & 0x1f)
            } else {
                srlw_ex(a, i.imm & 0x1f)
            }
        } else {
            return Err(EmuError::Decode);
        };
        self.registers.set_reg(i.rd, v);
        Ok(Option::None)
    }

    fn exec_op32(&mut self, instr: u32) -> (r: Result<Option<u64>, EmuError>)
        requires
            old(self).inv(),
            instr & 0x7f == 0x3b,
        ensures
            final(self).inv(),
            match r {
                Ok(tk) => step_instr(old(self)@, instr) == Ok::<_, EmuError>((final(self)@, tk)),
                Err(e) => step_instr(old(self)@, instr) == Err::<(CpuV, Option<u64>), _>(e)
                    && final(self)@ == old(self)@,
            },
    {
        let r = RType::from(instr);
        let a = self.registers.common[r.rs1];
        let b = self.registers.common[r.rs2];
        if (r.funct3 == 0 || r.funct3 == 5) && !(r.funct7 == 0 || r.funct7 == 0x20) {
            return Err(EmuError::Decode);
        }
        proof {
            lemma_masks64(b);
        }
        let v = if r.funct3 == 0 {
            if r.funct7 == 0 {
                addw_ex(a, b)
            } else {
                subw_ex(a, b)
            }
        } else if r.funct3 == 1 {
            sllw_ex(a, b & 0x1f)
        } else if r.funct3 == 5 {
            if r.funct7 == 0 {
                srlw_ex(a, b & 0x1f)
            } else {
                sraw_ex(a, b & 0x1f)
            }
        } else {
            return Err(EmuError::Decode);
        };
        self.registers.set_reg(r.rd, v);
        Ok(Option::None)
    }

    /// Execute one already-fetched instruction: run its semantics, and
    /// advance the program counter — to the branch target on a taken
    /// transfer, recording the edge fingerprint, and to `PC + 4`
    /// otherwise.  ECALL is delegated to the fuzzer's syscall shim.
    /// On an error the machine is dead: execution must not continue.
    pub fn exec_instruction(&mut self, instr: u32, fuzzer: &mut Fuzzer) -> (r: Result<
        (),
        EmuError,
    >)
        requires
            old(self).inv(),
        ensures
            final(self).inv(),
            match r {
                Ok(()) => step_spec(old(self)@, old(fuzzer)@, instr) == Ok::<_, EmuError>(
                    (final(self)@, final(fuzzer)@),
                ),
                Err(e) => step_spec(old(self)@, old(fuzzer)@, instr) == Err::<(CpuV, FuzzerV), _>(
                    e,
                ),
            },
    {
        let opcode = instr & 0x7f;
        if opcode == 0x73 {
            if instr == 0x0000_0073 {
                match self.service_syscall(fuzzer) {
                    Ok(()) => {},
                    Err(e) => {
                        return Err(e);
                    },
                }
                self.registers.pc = self.registers.pc.wrapping_add(4);
                Ok(())
            } else if instr == 0x0010_0073 {
                Err(EmuError::UnsupportedInstruction)
            } else {
                Err(EmuError::Decode)
            }
        } else {
            let pc0 = self.registers.pc;
            let stepped = if opcode == 0x37 {
                self.exec_lui(instr)
            } else if opcode == 0x17 {
                self.exec_auipc(instr)
            } else if opcode == 0x6f {
                self.exec_jal(instr)
            } else if opcode == 0x67 {
                self.exec_jalr(instr)
            } else if opcode == 0x63 {
                self.exec_branch(instr)
            } else if opcode == 0x03 {
                self.exec_load(instr)
            } else if opcode == 0x23 {
                self.exec_store(instr)
            } else if opcode == 0x13 {
                self.exec_op_imm(instr)
            } else if opcode == 0x33 {
                self.exec_op(instr)
            } else if opcode == 0x0f {
                // FENCE: the core is single-threaded, so it is a no-op.
                Ok(Option::None)
            } else if opcode == 0x1b {
                self.exec_op_imm32(instr)
            } else if opcode == 0x3b {
                self.exec_op32(instr)
            } else {
                Err(EmuError::Decode)
            };
            match stepped {
                Err(e) => Err(e),
                Ok(Option::None) => {
                    self.registers.pc = self.registers.pc.wrapping_add(4);
                    Ok(())
                },
                Ok(Option::Some(t)) => {
                    if self.coverage_enabled {
                        self.coverage.insert(pc0 ^ t);
                    }
                    self.registers.pc = t;
                    Ok(())
                },
            }
        }
    }

    /// Run the breakpoint attached to the current program counter, if any.
    fn dispatch_breakpoint(&mut self) -> (r: Result<(), EmuError>)
        requires
            old(self).inv(),
        ensures
            final(self).inv(),
            match r {
                Ok(()) => bp_spec(old(self)@) == Ok::<CpuV, EmuError>(final(self)@),
                Err(e) => bp_spec(old(self)@) == Err::<CpuV, _>(e),
            },
    {
        let act = match self.breakpoints.get(&self.registers.pc) {
            Option::Some(a) => *a,
            Option::None => {
                return Ok(());
            },
        };
        match act {
            BreakpointAction::SaveState => {
                self.save_as_initial_state();
                Ok(())
            },
            BreakpointAction::ResetToSnapshot { exit_after } => {
                let cov = match self.reset_to_initial_state() {
                    Ok(c) => c,
                    Err(e) => {
                        return Err(e);
                    },
                };
                self.last_coverage = cov;
                if exit_after > 0 && self.nbr_exec >= exit_after {
                    self.exit = true;
                }
                proof {
                    assert(bp_spec(old(self)@) == Ok::<CpuV, EmuError>(self@)) by {
                        assert(self@ =~~= (match bp_spec(old(self)@) {
                            Ok(c) => c,
                            Err(e) => self@,
                        }));
                    }
                }
                Ok(())
            },
            BreakpointAction::Exit => {
                self.exit = true;
                Ok(())
            },
            BreakpointAction::Fail => Err(EmuError::GuestFailure),
        }
    }

    /// Run the fetch–decode–execute loop from `entrypoint` until the
    /// exit flag is set — by a breakpoint or by the instruction budget
    /// `max_instructions` — or a fatal error stops the machine.  The
    /// whole run equals `run_spec` on the starting state.
    #[verifier::rlimit(100)]
    pub fn execute(&mut self, entrypoint: u64, fuzzer: &mut Fuzzer) -> (r: Result<(), EmuError>)
        requires
            old(self).inv(),
        ensures
            final(self).inv(),
            ({
                let start = CpuV {
                    regs: RegsV { x: old(self)@.regs.x, pc: entrypoint },
                    ..old(self)@
                };
                let run = run_spec(start, old(fuzzer)@, old(self)@.max_instructions as nat);
                match r {
                    Ok(()) => run.2 == Ok::<(), EmuError>(()) && final(self)@ == run.0
                        && final(fuzzer)@ == run.1,
                    Err(e) => run.2 == Err::<(), EmuError>(e),
                }
            }),
    {
        self.registers.pc = entrypoint;
        let max = self.max_instructions;
        let ghost start_c = self@;
        let ghost start_f = fuzzer@;
        let mut steps: u64 = 0;
        proof {
            assert(start_c =~~= (CpuV {
                regs: RegsV { x: old(self)@.regs.x, pc: entrypoint },
                ..old(self)@
            }));
        }
        loop
            invariant
                self.inv(),
                steps <= max,
                max == old(self)@.max_instructions,
                start_f == old(fuzzer)@,
                start_c == (CpuV {
                    regs: RegsV { x: old(self)@.regs.x, pc: entrypoint },
                    ..old(self)@
                }),
                run_spec(start_c, start_f, max as nat) == run_spec(
                    self@,
                    fuzzer@,
                    (max - steps) as nat,
                ),
            decreases max - steps,
        {
            let ghost c_entry = self@;
            let ghost f_entry = fuzzer@;
            let ghost left = (max - steps) as nat;
            match self.dispatch_breakpoint() {
                Ok(()) => {},
                Err(e) => {
                    return Err(e);
                },
            }
            if self.exit {
                return Ok(());
            }
            if steps == max {
                self.exit = true;
                proof {
                    assert(self@ =~~= (CpuV { exit: true, ..bp_spec(c_entry)->Ok_0 }));
                }
                return Ok(());
            }
            let word = match self.memory.read(self.registers.pc, 4) {
                Ok(b) => le32_ex(&b),
                Err(e) => {
                    return Err(e);
                },
            };
            match self.exec_instruction(word, fuzzer) {
                Ok(()) => {},
                Err(e) => {
                    return Err(e);
                },
            }
            steps += 1;
        }
    }
}

} // verus!
