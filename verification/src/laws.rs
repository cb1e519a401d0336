//! The laws of the execution engine, stated and proved over the same
//! specification functions that the executable code is verified
//! against: the zero register stays zero, snapshots restore memory
//! byte for byte, straight-line code advances the program counter by
//! four, taken transfers are recorded in the coverage set, signed
//! loads and word-variant results are properly sign-extended, and two
//! runs from the same snapshot are indistinguishable.

use vstd::prelude::*;

use crate::cpu::BreakpointAction;
use crate::cpu::CpuV;
use crate::cpu::bp_spec;
use crate::cpu::cpu_reset_spec;
use crate::cpu::cpu_wf;
use crate::cpu::is_taken_transfer;
use crate::cpu::run_spec;
use crate::cpu::le16;
use crate::cpu::le32;
use crate::cpu::sext16;
use crate::cpu::sext32;
use crate::cpu::sext8;
use crate::cpu::step_spec;
use crate::cpu::wadd;
use crate::error::EmuError;
use crate::fuzzer::FuzzerV;
use crate::memory::MemV;
use crate::memory::RegionV;
use crate::memory::read_spec;
use crate::memory::reset_spec;
use crate::memory::save_spec;
use crate::memory::write_spec;

verus! {

/// The zero register reads as zero after every executed instruction.
pub proof fn lemma_x0_always_zero(c: CpuV, f: FuzzerV, instr: u32, c2: CpuV, f2: FuzzerV)
    requires
        cpu_wf(c),
        step_spec(c, f, instr) == Ok::<_, EmuError>((c2, f2)),
    ensures
        c2.regs.x[0] == 0,
{
    crate::instr_type::lemma_spec_field_bounds(instr);
}

/// Every instruction that neither takes a branch nor jumps — ECALL
/// included — moves the program counter to `PC + 4` (mod 2^64).
pub proof fn lemma_pc_advances(c: CpuV, f: FuzzerV, instr: u32, c2: CpuV, f2: FuzzerV)
    requires
        step_spec(c, f, instr) == Ok::<_, EmuError>((c2, f2)),
        !is_taken_transfer(c, instr),
    ensures
        c2.regs.pc == wadd(c.regs.pc, 4),
{
}

/// Every taken control-flow transfer leaves its edge fingerprint,
/// `PC_before ^ PC_after`, in the coverage set — when recording is on.
pub proof fn lemma_taken_transfer_recorded(c: CpuV, f: FuzzerV, instr: u32, c2: CpuV, f2: FuzzerV)
    requires
        step_spec(c, f, instr) == Ok::<_, EmuError>((c2, f2)),
        is_taken_transfer(c, instr),
        c.coverage_enabled,
    ensures
        c2.coverage.contains(c.regs.pc ^ c2.regs.pc),
{
}

proof fn lemma_sext8_upper_ones(b: u8)
    by (bit_vector)
    requires
        b >= 0x80,
    ensures
        (if b < 0x80 {
            b as u64
        } else {
            ((b as u64) + 0xffff_ffff_ffff_ff00) as u64
        }) & 0xffff_ffff_ffff_ff00u64 == 0xffff_ffff_ffff_ff00u64,
{
}

proof fn lemma_sext16_upper_ones(h: u64)
    by (bit_vector)
    requires
        0x8000 <= h < 0x10000,
    ensures
        ((h + 0xffff_ffff_ffff_0000) as u64) & 0xffff_ffff_ffff_0000u64
            == 0xffff_ffff_ffff_0000u64,
{
}

proof fn lemma_sext32_upper_ones(w: u64)
    by (bit_vector)
    requires
        0x8000_0000 <= w < 0x1_0000_0000,
    ensures
        ((w + 0xffff_ffff_0000_0000) as u64) & 0xffff_ffff_0000_0000u64
            == 0xffff_ffff_0000_0000u64,
{
}

/// Sign extension: for each signed load width, a value with its top
/// bit set extends to 64 bits whose upper bits are all ones.  The
/// LB/LH/LW semantics return exactly `sext8`/`sext16`/`sext32` of the
/// loaded bytes.
pub proof fn lemma_load_sign_extension(b: u8, h: u64, w: u64)
    requires
        h < 0x10000,
        w < 0x1_0000_0000,
    ensures
        b >= 0x80 ==> sext8(b) & 0xffff_ffff_ffff_ff00 == 0xffff_ffff_ffff_ff00,
        h >= 0x8000 ==> sext16(h) & 0xffff_ffff_ffff_0000 == 0xffff_ffff_ffff_0000,
        w >= 0x8000_0000 ==> sext32(w) & 0xffff_ffff_0000_0000 == 0xffff_ffff_0000_0000,
{
    if b >= 0x80 {
        lemma_sext8_upper_ones(b);
    }
    if h >= 0x8000 {
        lemma_sext16_upper_ones(h);
    }
    if w >= 0x8000_0000 {
        lemma_sext32_upper_ones(w);
    }
}

/// The same sign-extension law, stated of the load instructions
/// themselves: LB, LH and LW of a value whose top bit is set leave a
/// register whose upper bits are all ones (unless the destination is
/// the zero register, which discards the value).
pub proof fn lemma_signed_load_sign_extends(c: CpuV, f: FuzzerV, instr: u32, c2: CpuV, f2: FuzzerV)
    requires
        cpu_wf(c),
        step_spec(c, f, instr) == Ok::<_, EmuError>((c2, f2)),
        instr & 0x7f == 0x03,
    ensures
        ({
            let i = crate::instr_type::spec_itype(instr);
            let addr = wadd(c.regs.x[i.rs1 as int], i.imm);
            let rd = i.rd as int;
            &&& (i.funct3 == 0 ==> (read_spec(c.mem.regions, addr, 1) matches Option::Some(bytes)
                && (bytes[0] >= 0x80 && rd != 0 ==> c2.regs.x[rd] & 0xffff_ffff_ffff_ff00
                    == 0xffff_ffff_ffff_ff00)))
            &&& (i.funct3 == 1 ==> (read_spec(c.mem.regions, addr, 2) matches Option::Some(bytes)
                && (le16(bytes) >= 0x8000 && rd != 0 ==> c2.regs.x[rd] & 0xffff_ffff_ffff_0000
                    == 0xffff_ffff_ffff_0000)))
            &&& (i.funct3 == 2 ==> (read_spec(c.mem.regions, addr, 4) matches Option::Some(bytes)
                && (le32(bytes) >= 0x8000_0000 && rd != 0 ==> c2.regs.x[rd]
                    & 0xffff_ffff_0000_0000 == 0xffff_ffff_0000_0000)))
        }),
{
    crate::instr_type::lemma_spec_field_bounds(instr);
    let i = crate::instr_type::spec_itype(instr);
    let addr = wadd(c.regs.x[i.rs1 as int], i.imm);
    if i.funct3 == 0 {
        match read_spec(c.mem.regions, addr, 1) {
            Option::Some(bytes) => {
                if bytes[0] >= 0x80 {
                    lemma_sext8_upper_ones(bytes[0]);
                }
            },
            Option::None => {},
        }
    } else if i.funct3 == 1 {
        match read_spec(c.mem.regions, addr, 2) {
            Option::Some(bytes) => {
                crate::cpu::lemma_le16_bound(bytes[0] as u64, bytes[1] as u64);
                if le16(bytes) >= 0x8000 {
                    lemma_sext16_upper_ones(le16(bytes));
                }
            },
            Option::None => {},
        }
    } else if i.funct3 == 2 {
        match read_spec(c.mem.regions, addr, 4) {
            Option::Some(bytes) => {
                if le32(bytes) >= 0x8000_0000 {
                    lemma_sext32_upper_ones(le32(bytes) as u64);
                }
            },
            Option::None => {},
        }
    }
}

proof fn lemma_sext32_repeats_bit31(w: u64)
    by (bit_vector)
    requires
        w < 0x1_0000_0000,
    ensures
        ({
            let r = if w < 0x8000_0000 {
                w
            } else {
                ((w + 0xffff_ffff_0000_0000) as u64)
            };
            r >> 32 == (if r & 0x8000_0000u64 != 0 {
                0xffff_ffffu64
            } else {
                0u64
            })
        }),
        (0u64 >> 32) == 0u64,
        0u64 & 0x8000_0000u64 == 0u64,
{
}

/// The upper half of a sign-extended 32-bit value repeats bit 31.
proof fn lemma_sext32_result(w: u64)
    requires
        w < 0x1_0000_0000,
    ensures
        sext32(w) >> 32 == (if sext32(w) & 0x8000_0000u64 != 0 {
            0xffff_ffffu64
        } else {
            0u64
        }),
{
    lemma_sext32_repeats_bit31(w);
}

/// Word-variant idempotence: after any of the 32-bit word forms
/// (ADDW/SUBW/SLLW/SRLW/SRAW and their immediate forms) writes `rd`,
/// the upper 32 bits of `rd` equal the sign extension of bit 31.
pub proof fn lemma_word_result_extended(c: CpuV, f: FuzzerV, instr: u32, c2: CpuV, f2: FuzzerV)
    requires
        cpu_wf(c),
        step_spec(c, f, instr) == Ok::<_, EmuError>((c2, f2)),
        instr & 0x7f == 0x1b || instr & 0x7f == 0x3b,
    ensures
        ({
            let r = c2.regs.x[((instr >> 7) & 0x1f) as usize as int];
            r >> 32 == (if r & 0x8000_0000u64 != 0 {
                0xffff_ffffu64
            } else {
                0u64
            })
        }),
{
    crate::instr_type::lemma_spec_field_bounds(instr);
    let rd = ((instr >> 7) & 0x1f) as usize as int;
    if rd == 0 {
        lemma_sext32_repeats_bit31(0);
        assert(c2.regs.x[0] == 0) by {
            lemma_x0_always_zero(c, f, instr, c2, f2);
        }
    } else {
        let i = crate::instr_type::spec_itype(instr);
        let r = crate::instr_type::spec_rtype(instr);
        let a = c.regs.x[i.rs1 as int];
        let b = c.regs.x[r.rs2 as int];
        let m32: u64 = 0x1_0000_0000;
        crate::cpu::lemma_masks64(a);
        crate::cpu::lemma_masks64(b);
        crate::cpu::lemma_masks64(i.imm);
        crate::cpu::lemma_masks64(((a & crate::cpu::MASK32) + (b & crate::cpu::MASK32)) as u64);
        crate::cpu::lemma_masks64(((a & crate::cpu::MASK32) + (i.imm & crate::cpu::MASK32)) as u64);
        crate::cpu::lemma_masks64(
            ((a & crate::cpu::MASK32) + 0x1_0000_0000 - (b & crate::cpu::MASK32)) as u64,
        );
        crate::cpu::lemma_masks64((a & crate::cpu::MASK32) << (i.imm & 0x1f));
        crate::cpu::lemma_masks64((a & crate::cpu::MASK32) << (b & 0x1f));
        crate::cpu::lemma_masks64(
            (((a & crate::cpu::MASK32) + 0xffff_ffff_0000_0000) as u64) >> (i.imm & 0x1f),
        );
        crate::cpu::lemma_masks64(
            (((a & crate::cpu::MASK32) + 0xffff_ffff_0000_0000) as u64) >> (b & 0x1f),
        );
        crate::cpu::lemma_shr_bound(a & crate::cpu::MASK32, i.imm & 0x1f);
        crate::cpu::lemma_shr_bound(a & crate::cpu::MASK32, b & 0x1f);
        assert forall|w: u64| w < m32 implies #[trigger] (sext32(w) >> 32) == (if sext32(w)
            & 0x8000_0000u64 != 0 {
            0xffff_ffffu64
        } else {
            0u64
        }) by {
            lemma_sext32_result(w);
        }
    }
}

/// The regions after a sequence of stores; a store to an unmapped
/// range is fatal in the machine, so here it leaves memory unchanged.
pub open spec fn apply_stores(rs: Seq<RegionV>, ops: Seq<(u64, Seq<u8>)>) -> Seq<RegionV>
    decreases ops.len(),
{
    if ops.len() == 0 {
        rs
    } else {
        let rs1 = match write_spec(rs, ops[0].0, ops[0].1) {
            Option::Some(r2) => r2,
            Option::None => rs,
        };
        apply_stores(rs1, ops.drop_first())
    }
}

/// Stores never add, remove or move regions.
proof fn lemma_apply_stores_frame(rs: Seq<RegionV>, ops: Seq<(u64, Seq<u8>)>)
    ensures
        apply_stores(rs, ops).len() == rs.len(),
        forall|i: int|
            0 <= i < rs.len() ==> (#[trigger] apply_stores(rs, ops)[i]).virt_addr
                == rs[i].virt_addr && apply_stores(rs, ops)[i].data.len() == rs[i].data.len()
                && apply_stores(rs, ops)[i].dirty.len() == rs[i].dirty.len(),
    decreases ops.len(),
{
    if ops.len() > 0 {
        let rs1 = match write_spec(rs, ops[0].0, ops[0].1) {
            Option::Some(r2) => r2,
            Option::None => rs,
        };
        lemma_apply_stores_frame(rs1, ops.drop_first());
    }
}

/// After `save_state`, any sequence of stores, and
/// `reset_to_saved_state`, the live bytes equal the saved bytes at
/// every address in every region, and every dirty bit is clear.
pub proof fn lemma_snapshot_restores_bytes(m: MemV, ops: Seq<(u64, Seq<u8>)>)
    ensures
        ({
            let s = save_spec(m);
            let t = MemV { regions: apply_stores(s.regions, ops), saved: s.saved };
            let r = reset_spec(t);
            &&& r.regions.len() == m.regions.len()
            &&& forall|i: int|
                0 <= i < m.regions.len() ==> (#[trigger] r.regions[i]).data == m.regions[i].data
            &&& forall|i: int, j: int|
                0 <= i < m.regions.len() && 0 <= j < r.regions[i].dirty.len()
                    ==> !(#[trigger] r.regions[i].dirty[j])
        }),
{
    let s = save_spec(m);
    lemma_apply_stores_frame(s.regions, ops);
}

/// The host-visible architectural state: everything execution reads or
/// writes, apart from the snapshot itself and the host bookkeeping
/// (run counter, exported coverage).
pub open spec fn arch_eq(a: CpuV, b: CpuV) -> bool {
    &&& a.mem.regions == b.mem.regions
    &&& a.regs == b.regs
    &&& a.exit == b.exit
    &&& a.breakpoints == b.breakpoints
    &&& a.coverage_enabled == b.coverage_enabled
    &&& a.coverage == b.coverage
    &&& a.redirect_stdout == b.redirect_stdout
    &&& a.max_instructions == b.max_instructions
}

/// A breakpoint table whose actions never save or restore the
/// snapshot: the host drives resets itself between runs.
pub open spec fn breakpoints_snapshot_free(bps: Map<u64, BreakpointAction>) -> bool {
    forall|pc: u64|
        bps.contains_key(pc) ==> (#[trigger] bps[pc]) == BreakpointAction::Exit || bps[pc]
            == BreakpointAction::Fail
}

/// One executed instruction reads and writes only the architectural
/// state: two machines that agree on it stay in lockstep.
proof fn lemma_step_arch_deterministic(a: CpuV, b: CpuV, f: FuzzerV, instr: u32)
    requires
        arch_eq(a, b),
    ensures
        step_spec(a, f, instr) is Ok <==> step_spec(b, f, instr) is Ok,
        step_spec(a, f, instr) matches Ok(pa) ==> (step_spec(b, f, instr) matches Ok(pb)
            && arch_eq(pa.0, pb.0) && pa.1 == pb.1),
        step_spec(a, f, instr) matches Err(ea) ==> step_spec(b, f, instr) == Err::<
            (CpuV, FuzzerV),
            _,
        >(ea),
{
}

/// A snapshot-free breakpoint dispatch keeps two architecturally equal
/// machines in lockstep, and touches nothing but the exit flag.
proof fn lemma_bp_arch_deterministic(a: CpuV, b: CpuV)
    requires
        arch_eq(a, b),
        breakpoints_snapshot_free(a.breakpoints),
    ensures
        bp_spec(a) is Ok <==> bp_spec(b) is Ok,
        bp_spec(a) matches Ok(a1) ==> (bp_spec(b) matches Ok(b1) && arch_eq(a1, b1)),
        bp_spec(a) matches Err(ea) ==> bp_spec(b) == Err::<CpuV, _>(ea),
{
    if a.breakpoints.contains_key(a.regs.pc) {
        assert(a.breakpoints[a.regs.pc] == BreakpointAction::Exit || a.breakpoints[a.regs.pc]
            == BreakpointAction::Fail);
    }
}

/// One executed instruction never touches the snapshot, the breakpoint
/// table, or the host configuration.
proof fn lemma_step_frame(c: CpuV, f: FuzzerV, instr: u32, c2: CpuV, f2: FuzzerV)
    requires
        step_spec(c, f, instr) == Ok::<_, EmuError>((c2, f2)),
    ensures
        c2.saved_regs == c.saved_regs,
        c2.mem.saved == c.mem.saved,
        c2.breakpoints == c.breakpoints,
        c2.coverage_enabled == c.coverage_enabled,
        c2.redirect_stdout == c.redirect_stdout,
        c2.max_instructions == c.max_instructions,
        c2.exit == c.exit,
        c2.mem.regions.len() == c.mem.regions.len(),
        forall|i: int|
            0 <= i < c.mem.regions.len() ==> (#[trigger] c2.mem.regions[i]).virt_addr
                == c.mem.regions[i].virt_addr && c2.mem.regions[i].data.len()
                == c.mem.regions[i].data.len() && c2.mem.regions[i].dirty.len()
                == c.mem.regions[i].dirty.len(),
{
}

/// A run under snapshot-free breakpoints leaves the snapshot, the
/// breakpoint table and the host configuration exactly as it found
/// them, and never reshapes the regions.
proof fn lemma_run_preserves_snapshot(c: CpuV, f: FuzzerV, budget: nat)
    requires
        breakpoints_snapshot_free(c.breakpoints),
    ensures
        ({
            let r = run_spec(c, f, budget);
            &&& r.0.saved_regs == c.saved_regs
            &&& r.0.mem.saved == c.mem.saved
            &&& r.0.breakpoints == c.breakpoints
            &&& r.0.coverage_enabled == c.coverage_enabled
            &&& r.0.redirect_stdout == c.redirect_stdout
            &&& r.0.max_instructions == c.max_instructions
            &&& r.0.mem.regions.len() == c.mem.regions.len()
            &&& forall|i: int|
                0 <= i < c.mem.regions.len() ==> (#[trigger] r.0.mem.regions[i]).virt_addr
                    == c.mem.regions[i].virt_addr && r.0.mem.regions[i].data.len()
                    == c.mem.regions[i].data.len() && r.0.mem.regions[i].dirty.len()
                    == c.mem.regions[i].dirty.len()
        }),
    decreases budget,
{
    match bp_spec(c) {
        Err(e) => {},
        Ok(c1) => {
            if c.breakpoints.contains_key(c.regs.pc) {
                assert(c.breakpoints[c.regs.pc] == BreakpointAction::Exit || c.breakpoints[
                    c.regs.pc] == BreakpointAction::Fail);
            }
            if !c1.exit && budget > 0 {
                match read_spec(c1.mem.regions, c1.regs.pc, 4) {
                    Option::None => {},
                    Option::Some(bytes) => {
                        match step_spec(c1, f, crate::cpu::le32(bytes)) {
                            Err(e) => {},
                            Ok((c2, f2)) => {
                                lemma_step_frame(c1, f, crate::cpu::le32(bytes), c2, f2);
                                lemma_run_preserves_snapshot(c2, f2, (budget - 1) as nat);
                            },
                        }
                    },
                }
            }
        },
    }
}

/// Execution is a function of the architectural state alone: under
/// snapshot-free breakpoints, two architecturally equal machines run
/// to architecturally equal machines, with the same fuzzer state and
/// the same outcome.
proof fn lemma_run_arch_deterministic(a: CpuV, b: CpuV, f: FuzzerV, budget: nat)
    requires
        arch_eq(a, b),
        breakpoints_snapshot_free(a.breakpoints),
    ensures
        ({
            let ra = run_spec(a, f, budget);
            let rb = run_spec(b, f, budget);
            &&& arch_eq(ra.0, rb.0)
            &&& ra.1 == rb.1
            &&& ra.2 == rb.2
        }),
    decreases budget,
{
    lemma_bp_arch_deterministic(a, b);
    match bp_spec(a) {
        Err(e) => {},
        Ok(a1) => {
            let b1 = bp_spec(b)->Ok_0;
            if !a1.exit && budget > 0 {
                match read_spec(a1.mem.regions, a1.regs.pc, 4) {
                    Option::None => {},
                    Option::Some(bytes) => {
                        let word = crate::cpu::le32(bytes);
                        lemma_step_arch_deterministic(a1, b1, f, word);
                        match step_spec(a1, f, word) {
                            Err(e) => {},
                            Ok((a2, fa2)) => {
                                let pb = step_spec(b1, f, word)->Ok_0;
                                if a.breakpoints.contains_key(a.regs.pc) {
                                    assert(a.breakpoints[a.regs.pc] == BreakpointAction::Exit
                                        || a.breakpoints[a.regs.pc] == BreakpointAction::Fail);
                                }
                                lemma_step_frame(a1, f, word, a2, fa2);
                                lemma_run_arch_deterministic(a2, pb.0, fa2, (budget - 1) as nat);
                            },
                        }
                    },
                }
            }
        },
    }
}

/// Snapshot round trip: two consecutive runs from the same snapshot,
/// fed the same deterministic input sequence, end with identical
/// register states, identical edge-coverage sets, and the same
/// outcome.  The breakpoints must not themselves save or reset the
/// snapshot: the host drives resets between runs, as
/// `reset_to_initial_state` is built for.
pub proof fn lemma_snapshot_round_trip(c: CpuV, f: FuzzerV, budget: nat)
    requires
        cpu_wf(c),
        c.saved_regs is Some,
        breakpoints_snapshot_free(c.breakpoints),
    ensures
        ({
            let c0 = cpu_reset_spec(c);
            let run1 = run_spec(c0, f, budget);
            let c2 = cpu_reset_spec(run1.0);
            let run2 = run_spec(c2, f, budget);
            &&& run2.0.regs == run1.0.regs
            &&& run2.0.coverage == run1.0.coverage
            &&& run2.1 == run1.1
            &&& run2.2 == run1.2
        }),
{
    let c0 = cpu_reset_spec(c);
    let run1 = run_spec(c0, f, budget);
    let c1 = run1.0;
    let c2 = cpu_reset_spec(c1);
    lemma_run_preserves_snapshot(c0, f, budget);
    assert(c2.mem.regions =~~= c0.mem.regions);
    assert(arch_eq(c2, c0));
    lemma_run_arch_deterministic(c2, c0, f, budget);
}

} // verus!
