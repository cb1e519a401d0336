//! Instruction-level behaviour of the RV64I interpreter.

use rv64_emu::cpu::CPU;
use rv64_emu::error::EmuError;
use rv64_emu::fuzzer::Fuzzer;
use rv64_emu::instr_type::{BType, IType, JType, RType, SType, UType};

/// R-type encoder.
fn enc_r(funct7: u32, rs2: u32, rs1: u32, funct3: u32, rd: u32, opcode: u32) -> u32 {
    (funct7 << 25) | (rs2 << 20) | (rs1 << 15) | (funct3 << 12) | (rd << 7) | opcode
}

/// I-type encoder; `imm` is the low 12 bits.
fn enc_i(imm: u32, rs1: u32, funct3: u32, rd: u32, opcode: u32) -> u32 {
    ((imm & 0xfff) << 20) | (rs1 << 15) | (funct3 << 12) | (rd << 7) | opcode
}

/// S-type encoder.
fn enc_s(imm: u32, rs2: u32, rs1: u32, funct3: u32) -> u32 {
    let lo = imm & 0x1f;
    let hi = (imm >> 5) & 0x7f;
    (hi << 25) | (rs2 << 20) | (rs1 << 15) | (funct3 << 12) | (lo << 7) | 0x23
}

/// B-type encoder for a byte offset.
fn enc_b(offset: i32, rs2: u32, rs1: u32, funct3: u32) -> u32 {
    let imm = offset as u32;
    let b11 = (imm >> 11) & 1;
    let b4_1 = (imm >> 1) & 0xf;
    let b10_5 = (imm >> 5) & 0x3f;
    let b12 = (imm >> 12) & 1;
    (b12 << 31) | (b10_5 << 25) | (rs2 << 20) | (rs1 << 15) | (funct3 << 12) | (b4_1 << 8)
        | (b11 << 7) | 0x63
}

fn fresh_cpu() -> (CPU, Fuzzer) {
    (CPU::new(true), Fuzzer::new())
}

fn step(cpu: &mut CPU, fuzzer: &mut Fuzzer, word: u32) {
    cpu.exec_instruction(word, fuzzer).expect("instruction should execute");
}

#[test]
fn addi_sign_extension() {
    // Decode and run ADDI x1, x0, -1 from a zeroed register file.
    let (mut cpu, mut fuzzer) = fresh_cpu();
    let pc0 = cpu.registers.pc;
    step(&mut cpu, &mut fuzzer, 0xFFF00093);
    assert_eq!(cpu.registers.common[1], 0xFFFF_FFFF_FFFF_FFFF);
    assert_eq!(cpu.registers.pc, pc0.wrapping_add(4));
}

#[test]
fn decode_addi_fields() {
    let i = IType::from(0xFFF00093);
    assert_eq!(i.imm, 0xFFFF_FFFF_FFFF_FFFF);
    assert_eq!(i.rs1, 0);
    assert_eq!(i.funct3, 0);
    assert_eq!(i.rd, 1);
    assert_eq!(i.opcode, 0x13);
}

#[test]
fn decode_rtype_fields() {
    // SUB x3, x1, x2
    let word = enc_r(0x20, 2, 1, 0, 3, 0x33);
    let r = RType::from(word);
    assert_eq!(r.funct7, 0x20);
    assert_eq!(r.rs2, 2);
    assert_eq!(r.rs1, 1);
    assert_eq!(r.funct3, 0);
    assert_eq!(r.rd, 3);
    assert_eq!(r.opcode, 0x33);
}

#[test]
fn decode_branch_negative_offset() {
    // BEQ x0, x0, -4 has a sign-extended offset.
    let word = enc_b(-4, 0, 0, 0);
    let b = BType::from(word);
    assert_eq!(b.imm, (-4i64) as u64);
}

#[test]
fn decode_jal_and_utype() {
    // JAL x1, +2048
    let imm: u32 = 2048;
    let word = ((imm >> 12) & 0xff) << 12 | ((imm >> 11) & 1) << 20 | ((imm >> 1) & 0x3ff) << 21
        | ((imm >> 20) & 1) << 31 | (1 << 7) | 0x6f;
    let j = JType::from(word);
    assert_eq!(j.imm, 2048);
    assert_eq!(j.rd, 1);

    // LUI x2, 0xFFFFF
    let u = UType::from((0xFFFFF << 12) | (2 << 7) | 0x37);
    assert_eq!(u.imm, 0xFFFFF);
    assert_eq!(u.rd, 2);
}

#[test]
fn decode_store_fields() {
    let s = SType::from(enc_s(16, 2, 1, 3));
    assert_eq!(s.imm, 16);
    assert_eq!(s.rs1, 1);
    assert_eq!(s.rs2, 2);
    assert_eq!(s.funct3, 3);
}

#[test]
fn sltiu_one_idiom() {
    // SLTIU x1, x2, 1 is the `x2 == 0` idiom.
    let (mut cpu, mut fuzzer) = fresh_cpu();
    let word = enc_i(1, 2, 3, 1, 0x13);
    cpu.registers.common[2] = 0;
    step(&mut cpu, &mut fuzzer, word);
    assert_eq!(cpu.registers.common[1], 1);

    cpu.registers.common[2] = 5;
    step(&mut cpu, &mut fuzzer, word);
    assert_eq!(cpu.registers.common[1], 0);
}

#[test]
fn sraiw_on_negative() {
    // x1 = 0xFFFF_FFFF_8000_0000; SRAIW x2, x1, 4.
    let (mut cpu, mut fuzzer) = fresh_cpu();
    cpu.registers.common[1] = 0xFFFF_FFFF_8000_0000;
    let word = enc_i(0x400 | 4, 1, 5, 2, 0x1b);
    step(&mut cpu, &mut fuzzer, word);
    assert_eq!(cpu.registers.common[2], 0xFFFF_FFFF_F800_0000);
}

#[test]
fn branch_coverage_fingerprint() {
    // From PC = 0x1000, a taken BEQ +16 lands on 0x1010 and records
    // exactly the edge fingerprint 0x1000 ^ 0x1010 == 0x10.
    let (mut cpu, mut fuzzer) = fresh_cpu();
    cpu.registers.pc = 0x1000;
    step(&mut cpu, &mut fuzzer, enc_b(16, 0, 0, 0));
    assert_eq!(cpu.registers.pc, 0x1010);
    assert_eq!(cpu.coverage.len(), 1);
    assert!(cpu.coverage.contains(&0x10));
}

#[test]
fn fallthrough_records_nothing() {
    // A branch that is not taken neither jumps nor records coverage.
    let (mut cpu, mut fuzzer) = fresh_cpu();
    cpu.registers.pc = 0x1000;
    cpu.registers.common[1] = 1;
    step(&mut cpu, &mut fuzzer, enc_b(16, 1, 0, 0)); // BEQ x0, x1 with x1 != 0
    assert_eq!(cpu.registers.pc, 0x1004);
    assert_eq!(cpu.coverage.len(), 0);
}

#[test]
fn store_load_round_trip() {
    // SD 0(x1), x2 then LD x3, 0(x1) inside the mapped stack region.
    let (mut cpu, mut fuzzer) = fresh_cpu();
    cpu.registers.common[1] = 0x200;
    cpu.registers.common[2] = 0xDEAD_BEEF_CAFE_BABE;
    step(&mut cpu, &mut fuzzer, enc_s(0, 2, 1, 3));
    step(&mut cpu, &mut fuzzer, enc_i(0, 1, 3, 3, 0x03));
    assert_eq!(cpu.registers.common[3], 0xDEAD_BEEF_CAFE_BABE);
}

#[test]
fn signed_loads_extend_sign() {
    // LB, LH and LW of values with the top bit set fill the upper
    // bits with ones.
    let (mut cpu, mut fuzzer) = fresh_cpu();
    cpu.registers.common[1] = 0x100;
    cpu.registers.common[2] = 0xFFFF_FFFF_FFFF_FFFF;
    step(&mut cpu, &mut fuzzer, enc_s(0, 2, 1, 3)); // SD: eight 0xFF bytes
    step(&mut cpu, &mut fuzzer, enc_i(0, 1, 0, 3, 0x03)); // LB
    assert_eq!(cpu.registers.common[3], 0xFFFF_FFFF_FFFF_FFFF);
    step(&mut cpu, &mut fuzzer, enc_i(0, 1, 1, 4, 0x03)); // LH
    assert_eq!(cpu.registers.common[4], 0xFFFF_FFFF_FFFF_FFFF);
    step(&mut cpu, &mut fuzzer, enc_i(0, 1, 2, 5, 0x03)); // LW
    assert_eq!(cpu.registers.common[5], 0xFFFF_FFFF_FFFF_FFFF);
    // The unsigned forms zero-extend instead.
    step(&mut cpu, &mut fuzzer, enc_i(0, 1, 4, 6, 0x03)); // LBU
    assert_eq!(cpu.registers.common[6], 0xFF);
    step(&mut cpu, &mut fuzzer, enc_i(0, 1, 5, 7, 0x03)); // LHU
    assert_eq!(cpu.registers.common[7], 0xFFFF);
    step(&mut cpu, &mut fuzzer, enc_i(0, 1, 6, 8, 0x03)); // LWU
    assert_eq!(cpu.registers.common[8], 0xFFFF_FFFF);
}

#[test]
fn word_variants_sign_extend() {
    // ADDW overflowing 32 bits wraps and sign-extends.
    let (mut cpu, mut fuzzer) = fresh_cpu();
    cpu.registers.common[1] = 0x7FFF_FFFF;
    cpu.registers.common[2] = 1;
    step(&mut cpu, &mut fuzzer, enc_r(0, 2, 1, 0, 3, 0x3b)); // ADDW x3
    assert_eq!(cpu.registers.common[3], 0xFFFF_FFFF_8000_0000);

    // SUBW below zero wraps and sign-extends.
    cpu.registers.common[1] = 0;
    cpu.registers.common[2] = 1;
    step(&mut cpu, &mut fuzzer, enc_r(0x20, 2, 1, 0, 4, 0x3b)); // SUBW x4
    assert_eq!(cpu.registers.common[4], 0xFFFF_FFFF_FFFF_FFFF);

    // ADDIW with a plain positive result zero-extends.
    cpu.registers.common[1] = 0xFFFF_FFFF_0000_0001;
    step(&mut cpu, &mut fuzzer, enc_i(2, 1, 0, 5, 0x1b)); // ADDIW x5, x1, 2
    assert_eq!(cpu.registers.common[5], 3);
}

#[test]
fn shifts_mask_their_amount() {
    let (mut cpu, mut fuzzer) = fresh_cpu();
    // SLL uses only the low six bits of rs2.
    cpu.registers.common[1] = 1;
    cpu.registers.common[2] = 64 + 3;
    step(&mut cpu, &mut fuzzer, enc_r(0, 2, 1, 1, 3, 0x33)); // SLL x3
    assert_eq!(cpu.registers.common[3], 8);

    // SRA drags the sign bit in.
    cpu.registers.common[1] = 0x8000_0000_0000_0000;
    cpu.registers.common[2] = 63;
    step(&mut cpu, &mut fuzzer, enc_r(0x20, 2, 1, 5, 4, 0x33)); // SRA x4
    assert_eq!(cpu.registers.common[4], 0xFFFF_FFFF_FFFF_FFFF);

    // SRL shifts zeros in.
    step(&mut cpu, &mut fuzzer, enc_r(0, 2, 1, 5, 5, 0x33)); // SRL x5
    assert_eq!(cpu.registers.common[5], 1);
}

#[test]
fn comparisons_are_64_bit() {
    let (mut cpu, mut fuzzer) = fresh_cpu();
    // -1 < 0 signed, even though the low 32 bits of -1 are all ones.
    cpu.registers.common[1] = 0xFFFF_FFFF_FFFF_FFFF;
    cpu.registers.common[2] = 0;
    step(&mut cpu, &mut fuzzer, enc_r(0, 2, 1, 2, 3, 0x33)); // SLT x3
    assert_eq!(cpu.registers.common[3], 1);
    // Unsigned, -1 is the largest value.
    step(&mut cpu, &mut fuzzer, enc_r(0, 2, 1, 3, 4, 0x33)); // SLTU x4
    assert_eq!(cpu.registers.common[4], 0);
    // BLT takes the branch on the signed reading.
    cpu.registers.pc = 0x1000;
    step(&mut cpu, &mut fuzzer, enc_b(32, 2, 1, 4)); // BLT x1, x2
    assert_eq!(cpu.registers.pc, 0x1020);
}

#[test]
fn jal_and_jalr_link_and_jump() {
    let (mut cpu, mut fuzzer) = fresh_cpu();
    cpu.registers.pc = 0x1000;
    // JAL x1, +2048
    let imm: u32 = 2048;
    let word = ((imm >> 12) & 0xff) << 12 | ((imm >> 11) & 1) << 20 | ((imm >> 1) & 0x3ff) << 21
        | ((imm >> 20) & 1) << 31 | (1 << 7) | 0x6f;
    step(&mut cpu, &mut fuzzer, word);
    assert_eq!(cpu.registers.common[1], 0x1004);
    assert_eq!(cpu.registers.pc, 0x1800);

    // JALR x2, 3(x1): the architecture clears bit 0 of the target.
    step(&mut cpu, &mut fuzzer, enc_i(3, 1, 0, 2, 0x67));
    assert_eq!(cpu.registers.common[2], 0x1804);
    assert_eq!(cpu.registers.pc, 0x1006);
}

#[test]
fn x0_stays_zero() {
    // Writes to x0 are discarded, whatever tries them.
    let (mut cpu, mut fuzzer) = fresh_cpu();
    step(&mut cpu, &mut fuzzer, enc_i(5, 0, 0, 0, 0x13)); // ADDI x0, x0, 5
    assert_eq!(cpu.registers.common[0], 0);
    cpu.registers.common[1] = 77;
    step(&mut cpu, &mut fuzzer, enc_r(0, 1, 1, 0, 0, 0x33)); // ADD x0, x1, x1
    assert_eq!(cpu.registers.common[0], 0);
}

#[test]
fn straight_line_advances_pc_by_four() {
    let (mut cpu, mut fuzzer) = fresh_cpu();
    cpu.registers.pc = 0x1000;
    cpu.registers.common[1] = 0x100;
    cpu.registers.common[2] = 9;
    for word in [
        enc_i(1, 0, 0, 4, 0x13),  // ADDI
        enc_r(0, 2, 2, 4, 6, 0x33),  // XOR
        enc_s(0, 2, 1, 2),  // SW
        enc_i(0, 1, 2, 7, 0x03),  // LW
        0x0000000F,  // FENCE
    ] {
        let before = cpu.registers.pc;
        step(&mut cpu, &mut fuzzer, word);
        assert_eq!(cpu.registers.pc, before.wrapping_add(4));
    }
}

#[test]
fn lui_auipc() {
    let (mut cpu, mut fuzzer) = fresh_cpu();
    cpu.registers.pc = 0x1000;
    step(&mut cpu, &mut fuzzer, (0xFFFFF << 12) | (1 << 7) | 0x37); // LUI x1, 0xFFFFF
    assert_eq!(cpu.registers.common[1], 0xFFFF_FFFF_FFFF_F000);
    step(&mut cpu, &mut fuzzer, (0x1 << 12) | (2 << 7) | 0x17); // AUIPC x2, 1
    assert_eq!(cpu.registers.common[2], 0x1004 + 0x1000);
}

#[test]
fn ebreak_is_fatal() {
    let (mut cpu, mut fuzzer) = fresh_cpu();
    let r = cpu.exec_instruction(0x0010_0073, &mut fuzzer);
    assert_eq!(r, Err(EmuError::UnsupportedInstruction));
}

#[test]
fn unknown_opcode_is_a_decode_error() {
    let (mut cpu, mut fuzzer) = fresh_cpu();
    let r = cpu.exec_instruction(0x0000_007F, &mut fuzzer);
    assert_eq!(r, Err(EmuError::Decode));
    // An unrecognized funct7 on an ALU opcode is one too.
    let r = cpu.exec_instruction(enc_r(0x11, 2, 1, 0, 3, 0x33), &mut fuzzer);
    assert_eq!(r, Err(EmuError::Decode));
}

#[test]
fn unmapped_load_is_fatal() {
    let (mut cpu, mut fuzzer) = fresh_cpu();
    cpu.registers.common[1] = 0x9999_0000;
    let r = cpu.exec_instruction(enc_i(0, 1, 3, 3, 0x03), &mut fuzzer);
    assert_eq!(r, Err(EmuError::MemoryUnmapped));
}

#[test]
fn unmapped_store_is_fatal() {
    let (mut cpu, mut fuzzer) = fresh_cpu();
    cpu.registers.common[1] = 0x9999_0000;
    let r = cpu.exec_instruction(enc_s(0, 2, 1, 3), &mut fuzzer);
    assert_eq!(r, Err(EmuError::MemoryUnmapped));
}
