//! The syscall shim and the fuzz-input provider.

use rv64_emu::cpu::CPU;
use rv64_emu::error::EmuError;
use rv64_emu::fuzzer::{Fuzzer, SpecialFD};

const ECALL: u32 = 0x0000_0073;

fn fresh() -> (CPU, Fuzzer) {
    (CPU::new(false), Fuzzer::new())
}

#[test]
fn special_fd_numbers() {
    assert_eq!(SpecialFD::Stdin.number(), 0);
    assert_eq!(SpecialFD::Stdout.number(), 1);
    assert_eq!(SpecialFD::Stderr.number(), 2);
}

#[test]
fn fuzz_inputs_come_newest_first() {
    let mut fuzzer = Fuzzer::new();
    assert!(fuzzer.has_input());
    assert_eq!(fuzzer.get_fuzz_input(), vec![12, 12, 12, 0x0a]);
    assert_eq!(fuzzer.get_fuzz_input(), vec![12, 12, 12, 0x0a]);
    assert_eq!(fuzzer.get_fuzz_input(), vec![0x42, 0x4e, 0x45, 0x0a]);
    assert!(!fuzzer.has_input());
}

#[test]
fn read_pulls_a_buffer_into_guest_memory() {
    let (mut cpu, mut fuzzer) = fresh();
    cpu.registers.common[17] = 63; // a7: read
    cpu.registers.common[10] = 0; // a0: stdin
    cpu.registers.common[11] = 0x100; // a1: destination
    cpu.registers.common[12] = 2; // a2: advisory length; the whole buffer is written
    cpu.registers.pc = 0x40;
    cpu.exec_instruction(ECALL, &mut fuzzer).expect("read syscall");
    assert_eq!(cpu.memory.read(0x100, 4).expect("mapped"), vec![12, 12, 12, 0x0a]);
    assert_eq!(cpu.registers.common[10], 4); // returned length
    assert_eq!(cpu.registers.pc, 0x44);
}

#[test]
fn read_from_a_file_is_unsupported() {
    let (mut cpu, mut fuzzer) = fresh();
    cpu.registers.common[17] = 63;
    cpu.registers.common[10] = 3;
    assert_eq!(
        cpu.exec_instruction(ECALL, &mut fuzzer),
        Err(EmuError::UnsupportedSyscall)
    );
}

#[test]
fn read_past_the_corpus_fails() {
    let (mut cpu, mut fuzzer) = fresh();
    cpu.registers.common[17] = 63;
    cpu.registers.common[11] = 0x100;
    for _ in 0..3 {
        cpu.registers.common[10] = 0; // a0 was overwritten with the length
        cpu.exec_instruction(ECALL, &mut fuzzer).expect("read syscall");
    }
    cpu.registers.common[10] = 0;
    assert_eq!(
        cpu.exec_instruction(ECALL, &mut fuzzer),
        Err(EmuError::OutOfFuzzInputs)
    );
}

#[test]
fn read_into_unmapped_memory_fails() {
    let (mut cpu, mut fuzzer) = fresh();
    cpu.registers.common[17] = 63;
    cpu.registers.common[11] = 0x7777_0000;
    assert_eq!(
        cpu.exec_instruction(ECALL, &mut fuzzer),
        Err(EmuError::MemoryUnmapped)
    );
}

#[test]
fn write_publishes_when_redirected() {
    let (mut cpu, mut fuzzer) = fresh();
    cpu.redirect_stdout = true;
    cpu.memory.write(0x100, b"hi!").expect("mapped");
    cpu.registers.common[17] = 64; // a7: write
    cpu.registers.common[10] = 1; // a0: stdout
    cpu.registers.common[11] = 0x100;
    cpu.registers.common[12] = 3;
    cpu.exec_instruction(ECALL, &mut fuzzer).expect("write syscall");
    assert_eq!(fuzzer.stdout().as_slice(), b"hi!");
    assert_eq!(cpu.registers.common[10], 3); // returns the length
}

#[test]
fn write_without_redirection_skips_the_copy() {
    let (mut cpu, mut fuzzer) = fresh();
    cpu.registers.common[17] = 64;
    cpu.registers.common[10] = 1;
    cpu.registers.common[11] = 0x9999_0000; // never read, so never faults
    cpu.registers.common[12] = 8;
    cpu.exec_instruction(ECALL, &mut fuzzer).expect("write syscall");
    assert!(fuzzer.stdout().is_empty());
    assert_eq!(cpu.registers.common[10], 8);
}

#[test]
fn write_to_a_file_is_unsupported() {
    let (mut cpu, mut fuzzer) = fresh();
    cpu.registers.common[17] = 64;
    cpu.registers.common[10] = 2;
    assert_eq!(
        cpu.exec_instruction(ECALL, &mut fuzzer),
        Err(EmuError::UnsupportedSyscall)
    );
}

#[test]
fn fstat_and_brk_are_stubs() {
    let (mut cpu, mut fuzzer) = fresh();
    cpu.registers.common[17] = 80;
    cpu.registers.common[10] = 5;
    cpu.exec_instruction(ECALL, &mut fuzzer).expect("fstat stub");
    assert_eq!(cpu.registers.common[10], 0);

    cpu.registers.common[17] = 214;
    cpu.registers.common[10] = 5;
    cpu.exec_instruction(ECALL, &mut fuzzer).expect("brk stub");
    assert_eq!(cpu.registers.common[10], 0);
}

#[test]
fn unknown_syscall_leaves_the_machine_alone() {
    let (mut cpu, mut fuzzer) = fresh();
    cpu.registers.common[17] = 999;
    cpu.registers.common[10] = 5;
    cpu.registers.pc = 0x40;
    cpu.exec_instruction(ECALL, &mut fuzzer).expect("logged, not fatal");
    assert_eq!(cpu.registers.common[10], 5);
    assert_eq!(cpu.registers.pc, 0x44);
}

#[test]
fn syscall_through_the_fuzzer_entry_point() {
    // `Fuzzer::syscall` is the public face of the shim.
    let (mut cpu, mut fuzzer) = fresh();
    cpu.registers.common[17] = 63;
    cpu.registers.common[11] = 0x200;
    fuzzer.syscall(&mut cpu).expect("read syscall");
    assert_eq!(cpu.memory.read(0x200, 4).expect("mapped"), vec![12, 12, 12, 0x0a]);
}
