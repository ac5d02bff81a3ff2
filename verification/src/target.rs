//! Model of the target instruction set: a RISC-style register machine with
//! 32 general-purpose 32-bit registers.

use vstd::prelude::*;

verus! {

/// Number of general-purpose registers of the target machine.
pub const NUM_REGS: u8 = 32;

/// Index of the hard-wired zero register.
pub const REG_ZERO: u8 = 0;

/// Index of the return-address register.
pub const REG_RA: u8 = 1;

/// Index of the stack-pointer register.
pub const REG_SP: u8 = 2;

/// Index of the frame-pointer register.
pub const REG_FP: u8 = 3;

/// Index of the first argument register (a0); a1..a3 follow it.
pub const REG_A0: u8 = 4;

/// Index of the first caller-saved temporary (t0); t1..t7 follow it.
pub const REG_T0: u8 = 8;

/// Index of the first callee-saved register (s0); s1..s7 follow it.
pub const REG_S0: u8 = 16;

/// Index of the first upper caller-saved temporary (t8); t9..t11 follow it.
pub const REG_T8: u8 = 24;

/// A general-purpose register, identified by its index.
#[derive(Debug, Clone, Copy, PartialEq, Eq, Structural, Hash)]
pub struct Reg(pub u8);

impl Reg {
    /// A register index is valid when it names one of the 32 registers.
    pub open spec fn is_valid(self) -> bool {
        self.0 < NUM_REGS
    }

    /// Returns the register with the given index, or `None` when the index
    /// is out of range.
    pub fn from_index(index: usize) -> (r: Option<Reg>)
        ensures
            index < NUM_REGS ==> r == Some(Reg(index as u8)),
            index >= NUM_REGS ==> r is None,
            r is Some ==> r.unwrap().is_valid(),
    {
        if index < NUM_REGS as usize {
            Some(Reg(index as u8))
        } else {
            None
        }
    }
}

/// One target machine instruction. Immediate fields are signed except for
/// `Lui`, whose operand is the upper 20 bits of a word.
#[derive(Debug, Clone, Copy, PartialEq, Eq, Structural)]
pub enum Instruction {
    Add { rd: Reg, rs1: Reg, rs2: Reg },
    Sub { rd: Reg, rs1: Reg, rs2: Reg },
    Mul { rd: Reg, rs1: Reg, rs2: Reg },
    Mulhu { rd: Reg, rs1: Reg, rs2: Reg },
    Div { rd: Reg, rs1: Reg, rs2: Reg },
    Divu { rd: Reg, rs1: Reg, rs2: Reg },
    Rem { rd: Reg, rs1: Reg, rs2: Reg },
    Remu { rd: Reg, rs1: Reg, rs2: Reg },
    And { rd: Reg, rs1: Reg, rs2: Reg },
    Or { rd: Reg, rs1: Reg, rs2: Reg },
    Xor { rd: Reg, rs1: Reg, rs2: Reg },
    Sll { rd: Reg, rs1: Reg, rs2: Reg },
    Srl { rd: Reg, rs1: Reg, rs2: Reg },
    Sra { rd: Reg, rs1: Reg, rs2: Reg },
    Slt { rd: Reg, rs1: Reg, rs2: Reg },
    Sltu { rd: Reg, rs1: Reg, rs2: Reg },
    Addi { rd: Reg, rs1: Reg, imm: i16 },
    Sltiu { rd: Reg, rs1: Reg, imm: i16 },
    Xori { rd: Reg, rs1: Reg, imm: i16 },
    Lui { rd: Reg, imm: u32 },
    Lw { rd: Reg, rs1: Reg, imm: i16 },
    Sw { rs1: Reg, rs2: Reg, imm: i16 },
    Lbu { rd: Reg, rs1: Reg, imm: i16 },
    Lhu { rd: Reg, rs1: Reg, imm: i16 },
    Sb { rs1: Reg, rs2: Reg, imm: i16 },
    Sh { rs1: Reg, rs2: Reg, imm: i16 },
    Bne { rs1: Reg, rs2: Reg, offset: i32 },
    Jal { rd: Reg, offset: i32 },
    Ret,
}

impl Instruction {
    /// An instruction transfers control when it is a branch, a jump, or the
    /// function return.
    pub open spec fn spec_is_control(self) -> bool {
        self is Bne || self is Jal || self is Ret
    }

    /// Returns whether this instruction transfers control.
    pub fn is_control(&self) -> (r: bool)
        ensures
            r == self.spec_is_control(),
    {
        match self {
            Instruction::Bne { .. } => true,
            Instruction::Jal { .. } => true,
            Instruction::Ret => true,
            _ => false,
        }
    }
}

/// A finished target program: an instruction sequence plus the offset of its
/// entry point.
#[derive(Debug, Clone, PartialEq, Eq)]
pub struct Program {
    /// The instruction stream, in program order.
    pub code: Vec<Instruction>,
    /// Offset of the entry point within `code`.
    pub entry: u32,
}

impl Program {
    /// Builds a program with entry offset zero.
    pub fn new(code: Vec<Instruction>) -> (p: Program)
        ensures
            p.code == code,
            p.entry == 0u32,
    {
        Program { code, entry: 0 }
    }
}

} // verus!
