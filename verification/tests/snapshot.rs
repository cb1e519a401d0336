//! Guest memory, dirty-block snapshots, breakpoints and whole runs.

use rv64_emu::cpu::{BreakpointAction, CPU};
use rv64_emu::emu::Emu;
use rv64_emu::error::EmuError;
use rv64_emu::fuzzer::Fuzzer;
use rv64_emu::memory::Memory;

fn enc_i(imm: u32, rs1: u32, funct3: u32, rd: u32, opcode: u32) -> u32 {
    ((imm & 0xfff) << 20) | (rs1 << 15) | (funct3 << 12) | (rd << 7) | opcode
}

fn enc_b(offset: i32, rs2: u32, rs1: u32, funct3: u32) -> u32 {
    let imm = offset as u32;
    ((imm >> 12) & 1) << 31 | ((imm >> 5) & 0x3f) << 25 | rs2 << 20 | rs1 << 15 | funct3 << 12
        | ((imm >> 1) & 0xf) << 8 | ((imm >> 11) & 1) << 7 | 0x63
}

fn words_to_bytes(words: &[u32]) -> Vec<u8> {
    let mut out = Vec::new();
    for w in words {
        out.extend_from_slice(&w.to_le_bytes());
    }
    out
}

#[test]
fn allocate_pads_with_zeros() {
    let mut mem = Memory::new();
    mem.allocate(0x2000, 32, &[1, 2, 3]).expect("disjoint region");
    let bytes = mem.read(0x2000, 8).expect("mapped");
    assert_eq!(bytes, vec![1, 2, 3, 0, 0, 0, 0, 0]);
}

#[test]
fn allocate_rejects_overlap() {
    let mut mem = Memory::new();
    // The stack region occupies [0, 0x1000).
    assert_eq!(mem.allocate(0xFFF, 16, &[]), Err(EmuError::RegionOverlap));
    mem.allocate(0x1000, 16, &[]).expect("adjacent is fine");
    assert_eq!(mem.allocate(0x1008, 16, &[]), Err(EmuError::RegionOverlap));
}

#[test]
fn read_write_round_trip() {
    let mut mem = Memory::new();
    mem.write(0x80, &[9, 8, 7]).expect("stack is mapped");
    assert_eq!(mem.read(0x80, 3).expect("mapped"), vec![9, 8, 7]);
    // A range straddling the end of every region is unmapped.
    assert_eq!(mem.read(0xFFE, 4), Err(EmuError::MemoryUnmapped));
    assert_eq!(mem.write(0xFFE, &[1, 2, 3, 4]), Err(EmuError::MemoryUnmapped));
}

#[test]
fn snapshot_restores_only_dirty_blocks() {
    // Save, store somewhere, reset: the byte reads back as before the
    // store, and untouched blocks were never copied (invisible here,
    // but the restored contents must be exact everywhere).
    let mut mem = Memory::new();
    mem.allocate(0x2000, 64, &[0xAA; 64]).expect("disjoint region");
    mem.save_state();
    mem.write(0x2010, &[0x55]).expect("mapped");
    assert_eq!(mem.read(0x2010, 1).expect("mapped"), vec![0x55]);
    mem.reset_to_saved_state().expect("saved");
    assert_eq!(mem.read(0x2010, 1).expect("mapped"), vec![0xAA]);
    assert_eq!(mem.read(0x2000, 4).expect("mapped"), vec![0xAA; 4]);
}

#[test]
fn reset_without_save_fails() {
    let mut mem = Memory::new();
    assert_eq!(mem.reset_to_saved_state(), Err(EmuError::NoSnapshot));
    let mut cpu = CPU::new(false);
    assert!(cpu.reset_to_initial_state().is_err());
}

#[test]
fn cpu_snapshot_restore() {
    // Load a region, save, dirty one byte, reset: the byte is back
    // and the registers are the saved ones.
    let mut cpu = CPU::new(true);
    let mut fuzzer = Fuzzer::new();
    cpu.allocate(0x2000, 16, &[7; 16]).expect("disjoint region");
    cpu.registers.common[5] = 42;
    cpu.save_as_initial_state();
    // Store 0x55 at 0x2003 through the interpreter.
    cpu.registers.common[1] = 0x2003;
    cpu.registers.common[2] = 0x55;
    let sb = (2 << 20) | (1 << 15) | (3 << 7) | 0x23;
    cpu.exec_instruction(sb, &mut fuzzer).expect("store");
    cpu.registers.common[5] = 1000;
    let cov = cpu.reset_to_initial_state().expect("saved");
    assert_eq!(cpu.memory.read(0x2003, 1).expect("mapped"), vec![7]);
    assert_eq!(cpu.registers.common[5], 42);
    assert_eq!(cpu.nbr_exec, 1);
    assert!(cov.is_empty());
    assert!(cpu.coverage.is_empty());
}

#[test]
fn execute_runs_until_exit_breakpoint() {
    let mut emu = Emu::new();
    let program = words_to_bytes(&[
        enc_i(1, 5, 0, 5, 0x13), // ADDI x5, x5, 1
        enc_i(2, 5, 0, 5, 0x13), // ADDI x5, x5, 2
    ]);
    emu.cpu.allocate(0x2000, 16, &program).expect("disjoint region");
    emu.cpu.set_breakpoint(0x2008, BreakpointAction::Exit);
    emu.run(0x2000).expect("clean run");
    assert!(emu.cpu.exit);
    assert_eq!(emu.cpu.registers.pc, 0x2008);
    assert_eq!(emu.cpu.registers.common[5], 3);
}

#[test]
fn fail_breakpoint_aborts() {
    let mut emu = Emu::new();
    emu.cpu.set_breakpoint(0x3000, BreakpointAction::Fail);
    assert_eq!(emu.run(0x3000), Err(EmuError::GuestFailure));
}

#[test]
fn instruction_budget_sets_exit() {
    // A guest spinning on `JAL x0, 0` stops when the budget runs out.
    let mut emu = Emu::new();
    let jal_self: u32 = 0x6f; // JAL x0, +0
    emu.cpu.allocate(0x2000, 16, &words_to_bytes(&[jal_self])).expect("region");
    emu.cpu.max_instructions = 5;
    emu.run(0x2000).expect("budget exit is clean");
    assert!(emu.cpu.exit);
}

#[test]
fn fetch_from_unmapped_memory_fails() {
    let mut emu = Emu::new();
    assert_eq!(emu.run(0x8888_0000), Err(EmuError::MemoryUnmapped));
}

#[test]
fn save_and_reset_breakpoints_drive_runs() {
    // SaveState at the entry, ResetToSnapshot at the end: the loop
    // snapshots once, then resets itself until the run limit.
    let mut emu = Emu::new();
    let program = words_to_bytes(&[
        enc_i(1, 5, 0, 5, 0x13), // ADDI x5, x5, 1
        enc_b(-4, 0, 0, 1),      // BNE x0, x0, -4 (never taken)
    ]);
    emu.cpu.allocate(0x2000, 16, &program).expect("region");
    emu.cpu.set_breakpoint(0x2000, BreakpointAction::SaveState);
    emu.cpu.set_breakpoint(0x2008, BreakpointAction::ResetToSnapshot { exit_after: 3 });
    emu.run(0x2000).expect("clean run");
    assert!(emu.cpu.exit);
    assert_eq!(emu.cpu.nbr_exec, 3);
    // After the reset, x5 is back to the snapshot value.
    assert_eq!(emu.cpu.registers.common[5], 0);
}

#[test]
fn snapshot_round_trip_is_deterministic() {
    // Two consecutive runs from one snapshot end with identical
    // registers and identical coverage sets.
    let mut cpu = CPU::new(true);
    let mut fuzzer = Fuzzer::new();
    let program = words_to_bytes(&[
        enc_i(0xFFF, 0, 0, 1, 0x13), // ADDI x1, x0, -1
        enc_b(8, 0, 0, 0),           // BEQ x0, x0, +8 (always taken)
        enc_i(7, 0, 0, 1, 0x13),     // ADDI x1, x0, 7 (skipped)
    ]);
    cpu.allocate(0x2000, 16, &program).expect("region");
    cpu.set_breakpoint(0x200C, BreakpointAction::Exit);
    cpu.save_as_initial_state();

    cpu.execute(0x2000, &mut fuzzer).expect("run one");
    let regs1 = cpu.registers.common.clone();
    let cov1 = cpu.reset_to_initial_state().expect("saved");

    cpu.execute(0x2000, &mut fuzzer).expect("run two");
    let regs2 = cpu.registers.common.clone();
    let cov2 = cpu.reset_to_initial_state().expect("saved");

    assert_eq!(regs1, regs2);
    assert_eq!(cov1, cov2);
    assert_eq!(regs1[1], 0xFFFF_FFFF_FFFF_FFFF);
    assert!(cov1.contains(&(0x2004 ^ 0x200C)));
}
