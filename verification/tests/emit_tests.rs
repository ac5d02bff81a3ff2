//! Emission tests

use zkir_llvm::emit::{deserialize_program, emit_program, EmitError};
use zkir_llvm::target::{Instruction, Program, Reg};

#[test]
fn test_emit_empty_program() {
    let program = Program::new(Vec::new());
    let bytes = emit_program(&program).unwrap();
    assert!(!bytes.is_empty());
}

#[test]
fn test_emission_round_trip() {
    // deserialize(emit(P)) == P
    let code = vec![
        Instruction::Add { rd: Reg(8), rs1: Reg(4), rs2: Reg(5) },
        Instruction::Addi { rd: Reg(9), rs1: Reg(0), imm: -42 },
        Instruction::Lui { rd: Reg(10), imm: 0xFFFFF },
        Instruction::Lw { rd: Reg(11), rs1: Reg(3), imm: -8 },
        Instruction::Sw { rs1: Reg(3), rs2: Reg(11), imm: 12 },
        Instruction::Bne { rs1: Reg(8), rs2: Reg(0), offset: -16 },
        Instruction::Jal { rd: Reg(0), offset: 2048 },
        Instruction::Ret,
    ];
    let program = Program { code, entry: 7 };
    let bytes = emit_program(&program).unwrap();
    let back = deserialize_program(&bytes).unwrap();
    assert_eq!(back, program);
}

#[test]
fn test_deserialize_rejects_bad_header() {
    let r = deserialize_program(&[0u8; 20]);
    assert_eq!(r, Err(EmitError::BadHeader));
}

#[test]
fn test_deserialize_rejects_truncated() {
    let program = Program::new(vec![Instruction::Ret]);
    let bytes = emit_program(&program).unwrap();
    let r = deserialize_program(&bytes[..bytes.len() - 1]);
    assert!(r.is_err());
}
