//! Memory instruction translation tests, over hand-built modules.

use zkir_llvm::ir::instruction::Instruction;
use zkir_llvm::ir::{BasicBlock, Function, Module, Type, Value};
use zkir_llvm::target::{Instruction as TargetInstruction, Reg};
use zkir_llvm::translate;

fn one_block_module(instructions: Vec<Instruction>) -> Module {
    Module {
        functions: vec![Function {
            name: "f".to_string(),
            ret_ty: Type::Int(32),
            params: vec![],
            blocks: vec![BasicBlock {
                name: "entry".to_string(),
                instructions,
            }],
        }],
    }
}

#[test]
fn test_translate_alloca_load_store() {
    let module = one_block_module(vec![
        Instruction::Alloca {
            result: "a".to_string(),
            ty: Type::Int(32),
        },
        Instruction::Store {
            value: Value::const_i32(42),
            ty: Type::Int(32),
            ptr: Value::local("a"),
        },
        Instruction::Load {
            result: "v".to_string(),
            ty: Type::Int(32),
            ptr: Value::local("a"),
        },
        Instruction::Ret {
            value: Some(Value::local("v")),
        },
    ]);
    let program = translate::translate_module(&module, 0).expect("translate failed");
    // The slot address is frame-pointer relative: fp - 4.
    assert!(program
        .code
        .iter()
        .any(|i| matches!(i, TargetInstruction::Addi { rs1: Reg(3), imm: -4, .. })));
    assert!(program
        .code
        .iter()
        .any(|i| matches!(i, TargetInstruction::Sw { .. })));
    assert!(program
        .code
        .iter()
        .any(|i| matches!(i, TargetInstruction::Lw { .. })));
}

#[test]
fn test_translate_subword_store_uses_narrow_form() {
    let module = one_block_module(vec![
        Instruction::Alloca {
            result: "a".to_string(),
            ty: Type::Int(8),
        },
        Instruction::Store {
            value: Value::ConstInt {
                value: 7,
                ty: Type::Int(8),
            },
            ty: Type::Int(8),
            ptr: Value::local("a"),
        },
        Instruction::Ret { value: None },
    ]);
    let program = translate::translate_module(&module, 0).expect("translate failed");
    assert!(program
        .code
        .iter()
        .any(|i| matches!(i, TargetInstruction::Sb { .. })));
}

#[test]
fn test_translate_wide_load_rejected() {
    let module = one_block_module(vec![
        Instruction::Load {
            result: "v".to_string(),
            ty: Type::Int(64),
            ptr: Value::local("p"),
        },
        Instruction::Ret { value: None },
    ]);
    let r = translate::translate_module(&module, 0);
    assert!(matches!(
        r,
        Err(translate::TranslateError::UnsupportedWidth(64))
    ));
}
