//! The six RISC-V instruction field shapes (R/I/S/B/U/J).
//!
//! Each `from` constructor slices a 32-bit instruction word into its
//! fields.  Immediates that the architecture defines as signed are
//! sign-extended to 64 bits here, held in a `u64` in two's complement,
//! so that every later combination with register values is a plain
//! unsigned operation.

use vstd::prelude::*;

verus! {

/// Bounds of the masked decoder fields, shared by every `from` constructor.
proof fn lemma_decode_masks(x: u32)
    by (bit_vector)
    ensures
        (x & 0x1f) < 32,
        (x & 0x7) < 8,
        (x & 0x7f) < 128,
        (x & 0xfffff) < 0x100000,
{
}

/// The sign-extended 12-bit immediate of an I-type instruction.
pub open spec fn itype_imm(instr: u32) -> u64 {
    let lo = (instr >> 20) & 0xfff;
    if lo & 0x800 != 0 {
        (lo as u64) | 0xffff_ffff_ffff_f000u64
    } else {
        lo as u64
    }
}

/// The sign-extended immediate of an S-type instruction.
pub open spec fn stype_imm(instr: u32) -> u64 {
    let lo = ((instr >> 7) & 0x1f) | (((instr >> 25) & 0x7f) << 5);
    if lo & 0x800 != 0 {
        (lo as u64) | 0xffff_ffff_ffff_f000u64
    } else {
        lo as u64
    }
}

/// The sign-extended branch offset of a B-type instruction.
pub open spec fn btype_imm(instr: u32) -> u64 {
    let lo = (((instr >> 8) & 0xf) << 1) | (((instr >> 25) & 0x3f) << 5) | (((instr >> 7) & 0x1)
        << 11) | (((instr >> 31) & 0x1) << 12);
    if lo & 0x1000 != 0 {
        (lo as u64) | 0xffff_ffff_ffff_e000u64
    } else {
        lo as u64
    }
}

/// The sign-extended jump offset of a J-type instruction.
pub open spec fn jtype_imm(instr: u32) -> u64 {
    let lo = (((instr >> 21) & 0x3ff) << 1) | (((instr >> 20) & 0x1) << 11) | (((instr >> 12)
        & 0xff) << 12) | (((instr >> 31) & 0x1) << 20);
    if lo & 0x100000 != 0 {
        (lo as u64) | 0xffff_ffff_ffe0_0000u64
    } else {
        lo as u64
    }
}


/// Every decoded register index is a valid register number.
pub proof fn lemma_spec_field_bounds(instr: u32)
    ensures
        spec_rtype(instr).rd < 32,
        spec_rtype(instr).rs1 < 32,
        spec_rtype(instr).rs2 < 32,
        spec_itype(instr).rd < 32,
        spec_itype(instr).rs1 < 32,
        spec_utype(instr).rd < 32,
        spec_utype(instr).imm < 0x100000,
        spec_jtype(instr).rd < 32,
        spec_btype(instr).rs1 < 32,
        spec_btype(instr).rs2 < 32,
        spec_stype(instr).rs1 < 32,
        spec_stype(instr).rs2 < 32,
{
    lemma_decode_masks(instr >> 20);
    lemma_decode_masks(instr >> 15);
    lemma_decode_masks(instr >> 12);
    lemma_decode_masks(instr >> 7);
}

/// The decoded R-type fields of `instr`.
pub open spec fn spec_rtype(instr: u32) -> RType {
    RType {
        funct7: ((instr >> 25) & 0x7f) as u8,
        rs2: ((instr >> 20) & 0x1f) as usize,
        rs1: ((instr >> 15) & 0x1f) as usize,
        funct3: ((instr >> 12) & 0x7) as u8,
        rd: ((instr >> 7) & 0x1f) as usize,
        opcode: (instr & 0x7f) as u8,
    }
}

/// The decoded I-type fields of `instr`.
pub open spec fn spec_itype(instr: u32) -> IType {
    IType {
        imm: itype_imm(instr),
        rs1: ((instr >> 15) & 0x1f) as usize,
        funct3: ((instr >> 12) & 0x7) as u8,
        rd: ((instr >> 7) & 0x1f) as usize,
        opcode: (instr & 0x7f) as u8,
    }
}

/// The decoded U-type fields of `instr`.
pub open spec fn spec_utype(instr: u32) -> UType {
    UType {
        imm: (instr >> 12) & 0xfffff,
        rd: ((instr >> 7) & 0x1f) as usize,
        opcode: (instr & 0x7f) as u8,
    }
}

/// The decoded J-type fields of `instr`.
pub open spec fn spec_jtype(instr: u32) -> JType {
    JType { imm: jtype_imm(instr), rd: ((instr >> 7) & 0x1f) as usize, opcode: (instr & 0x7f) as u8 }
}

/// The decoded B-type fields of `instr`.
pub open spec fn spec_btype(instr: u32) -> BType {
    BType {
        imm: btype_imm(instr),
        rs1: ((instr >> 15) & 0x1f) as usize,
        rs2: ((instr >> 20) & 0x1f) as usize,
        funct3: ((instr >> 12) & 0x7) as u8,
        opcode: (instr & 0x7f) as u8,
    }
}

/// The decoded S-type fields of `instr`.
pub open spec fn spec_stype(instr: u32) -> SType {
    SType {
        imm: stype_imm(instr),
        rs1: ((instr >> 15) & 0x1f) as usize,
        rs2: ((instr >> 20) & 0x1f) as usize,
        funct3: ((instr >> 12) & 0x7) as u8,
        opcode: (instr & 0x7f) as u8,
    }
}

/// Register-register shape: `{funct7, rs2, rs1, funct3, rd, opcode}`.
#[derive(Debug, Clone, Copy, PartialEq, Eq, Structural)]
pub struct RType {
    pub funct7: u8,
    pub rs2: usize,
    pub rs1: usize,
    pub funct3: u8,
    pub rd: usize,
    pub opcode: u8,
}

impl RType {
    pub fn from(instr: u32) -> (r: RType)
        ensures
            r == spec_rtype(instr),
            r.funct7 == ((instr >> 25) & 0x7f) as u8,
            r.rs2 == ((instr >> 20) & 0x1f) as usize,
            r.rs1 == ((instr >> 15) & 0x1f) as usize,
            r.funct3 == ((instr >> 12) & 0x7) as u8,
            r.rd == ((instr >> 7) & 0x1f) as usize,
            r.opcode == (instr & 0x7f) as u8,
            r.rs2 < 32 && r.rs1 < 32 && r.rd < 32,
    {
        proof {
            lemma_decode_masks(instr >> 25);
            lemma_decode_masks(instr >> 20);
            lemma_decode_masks(instr >> 15);
            lemma_decode_masks(instr >> 12);
            lemma_decode_masks(instr >> 7);
            lemma_decode_masks(instr);
        }
        RType {
            funct7: ((instr >> 25) & 0x7f) as u8,
            rs2: ((instr >> 20) & 0x1f) as usize,
            rs1: ((instr >> 15) & 0x1f) as usize,
            funct3: ((instr >> 12) & 0x7) as u8,
            rd: ((instr >> 7) & 0x1f) as usize,
            opcode: (instr & 0x7f) as u8,
        }
    }
}

/// Register-immediate shape, with the 12-bit immediate sign-extended.
#[derive(Debug, Clone, Copy, PartialEq, Eq, Structural)]
pub struct IType {
    pub imm: u64,
    pub rs1: usize,
    pub funct3: u8,
    pub rd: usize,
    pub opcode: u8,
}

impl IType {
    pub fn from(instr: u32) -> (r: IType)
        ensures
            r == spec_itype(instr),
            r.imm == itype_imm(instr),
            r.rs1 == ((instr >> 15) & 0x1f) as usize,
            r.funct3 == ((instr >> 12) & 0x7) as u8,
            r.rd == ((instr >> 7) & 0x1f) as usize,
            r.opcode == (instr & 0x7f) as u8,
            r.rs1 < 32 && r.rd < 32,
    {
        proof {
            lemma_decode_masks(instr >> 15);
            lemma_decode_masks(instr >> 12);
            lemma_decode_masks(instr >> 7);
            lemma_decode_masks(instr);
        }
        let lo = (instr >> 20) & 0xfff;
        let imm: u64 = if lo & 0x800 != 0 {
            (lo as u64) | 0xffff_ffff_ffff_f000u64
        } else {
            lo as u64
        };
        IType {
            imm,
            rs1: ((instr >> 15) & 0x1f) as usize,
            funct3: ((instr >> 12) & 0x7) as u8,
            rd: ((instr >> 7) & 0x1f) as usize,
            opcode: (instr & 0x7f) as u8,
        }
    }
}

/// Upper-immediate shape; `imm` is the raw 20-bit field `instr[31:12]`.
#[derive(Debug, Clone, Copy, PartialEq, Eq, Structural)]
pub struct UType {
    pub imm: u32,
    pub rd: usize,
    pub opcode: u8,
}

impl UType {
    pub fn from(instr: u32) -> (r: UType)
        ensures
            r == spec_utype(instr),
            r.imm == (instr >> 12) & 0xfffff,
            r.rd == ((instr >> 7) & 0x1f) as usize,
            r.opcode == (instr & 0x7f) as u8,
            r.rd < 32,
            r.imm < 0x100000,
    {
        proof {
            lemma_decode_masks(instr >> 12);
            lemma_decode_masks(instr >> 7);
            lemma_decode_masks(instr);
        }
        UType {
            imm: (instr >> 12) & 0xfffff,
            rd: ((instr >> 7) & 0x1f) as usize,
            opcode: (instr & 0x7f) as u8,
        }
    }
}

/// Jump shape, with the 21-bit offset sign-extended.
#[derive(Debug, Clone, Copy, PartialEq, Eq, Structural)]
pub struct JType {
    pub imm: u64,
    pub rd: usize,
    pub opcode: u8,
}

impl JType {
    pub fn from(instr: u32) -> (r: JType)
        ensures
            r == spec_jtype(instr),
            r.imm == jtype_imm(instr),
            r.rd == ((instr >> 7) & 0x1f) as usize,
            r.opcode == (instr & 0x7f) as u8,
            r.rd < 32,
    {
        proof {
            lemma_decode_masks(instr >> 7);
            lemma_decode_masks(instr);
        }
        let lo = (((instr >> 21) & 0x3ff) << 1) | (((instr >> 20) & 0x1) << 11) | (((instr >> 12)
            & 0xff) << 12) | (((instr >> 31) & 0x1) << 20);
        let imm: u64 = if lo & 0x100000 != 0 {
            (lo as u64) | 0xffff_ffff_ffe0_0000u64
        } else {
            lo as u64
        };
        JType { imm, rd: ((instr >> 7) & 0x1f) as usize, opcode: (instr & 0x7f) as u8 }
    }
}

/// Conditional-branch shape, with the 13-bit offset sign-extended.
#[derive(Debug, Clone, Copy, PartialEq, Eq, Structural)]
pub struct BType {
    pub imm: u64,
    pub rs1: usize,
    pub rs2: usize,
    pub funct3: u8,
    pub opcode: u8,
}

impl BType {
    pub fn from(instr: u32) -> (r: BType)
        ensures
            r == spec_btype(instr),
            r.imm == btype_imm(instr),
            r.rs1 == ((instr >> 15) & 0x1f) as usize,
            r.rs2 == ((instr >> 20) & 0x1f) as usize,
            r.funct3 == ((instr >> 12) & 0x7) as u8,
            r.opcode == (instr & 0x7f) as u8,
            r.rs1 < 32 && r.rs2 < 32,
    {
        proof {
            lemma_decode_masks(instr >> 15);
            lemma_decode_masks(instr >> 20);
            lemma_decode_masks(instr >> 12);
            lemma_decode_masks(instr);
        }
        let lo = (((instr >> 8) & 0xf) << 1) | (((instr >> 25) & 0x3f) << 5) | (((instr >> 7) & 0x1)
            << 11) | (((instr >> 31) & 0x1) << 12);
        let imm: u64 = if lo & 0x1000 != 0 {
            (lo as u64) | 0xffff_ffff_ffff_e000u64
        } else {
            lo as u64
        };
        BType {
            imm,
            rs1: ((instr >> 15) & 0x1f) as usize,
            rs2: ((instr >> 20) & 0x1f) as usize,
            funct3: ((instr >> 12) & 0x7) as u8,
            opcode: (instr & 0x7f) as u8,
        }
    }
}

/// Store shape, with the 12-bit offset sign-extended.
#[derive(Debug, Clone, Copy, PartialEq, Eq, Structural)]
pub struct SType {
    pub imm: u64,
    pub rs1: usize,
    pub rs2: usize,
    pub funct3: u8,
    pub opcode: u8,
}

impl SType {
    pub fn from(instr: u32) -> (r: SType)
        ensures
            r == spec_stype(instr),
            r.imm == stype_imm(instr),
            r.rs1 == ((instr >> 15) & 0x1f) as usize,
            r.rs2 == ((instr >> 20) & 0x1f) as usize,
            r.funct3 == ((instr >> 12) & 0x7) as u8,
            r.opcode == (instr & 0x7f) as u8,
            r.rs1 < 32 && r.rs2 < 32,
    {
        proof {
            lemma_decode_masks(instr >> 15);
            lemma_decode_masks(instr >> 20);
            lemma_decode_masks(instr >> 12);
            lemma_decode_masks(instr);
        }
        let lo = ((instr >> 7) & 0x1f) | (((instr >> 25) & 0x7f) << 5);
        let imm: u64 = if lo & 0x800 != 0 {
            (lo as u64) | 0xffff_ffff_ffff_f000u64
        } else {
            lo as u64
        };
        SType {
            imm,
            rs1: ((instr >> 15) & 0x1f) as usize,
            rs2: ((instr >> 20) & 0x1f) as usize,
            funct3: ((instr >> 12) & 0x7) as u8,
            opcode: (instr & 0x7f) as u8,
        }
    }
}

} // verus!
