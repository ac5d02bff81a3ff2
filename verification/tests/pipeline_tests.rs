//! End-to-end scenarios through the whole pipeline.

use zkir_llvm::ir::Type;
use zkir_llvm::parser;
use zkir_llvm::target::{Instruction, Reg};
use zkir_llvm::translate;
use zkir_llvm::translate::context::TranslationContext;

#[test]
fn test_scenario_identity() {
    // One function, code materializes a0 into a0, then returns; the
    // compatibility check passes.
    let source = "define i32 @id(i32 %x) { entry: ret i32 %x }";
    let module = parser::parse(source).expect("parse failed");
    assert!(translate::check_module_compatibility(&module).is_ok());
    let program = translate::translate_module(&module, 0).expect("translate failed");
    assert_eq!(
        program.code,
        vec![
            Instruction::Add { rd: Reg(4), rs1: Reg(4), rs2: Reg(0) },
            Instruction::Ret,
        ]
    );
    // The translated block ends with a control transfer.
    assert!(program.code.last().unwrap().is_control());
}

#[test]
fn test_scenario_add() {
    // An ADD whose destination carries the result binding; parameters are
    // bound to a0 and a1; the result moves to a0 before the return.
    let source = "define i32 @add(i32 %a, i32 %b) { entry: %r = add i32 %a, %b ret i32 %r }";
    let module = parser::parse(source).expect("parse failed");
    let program = translate::translate_module(&module, 0).expect("translate failed");
    assert_eq!(
        program.code,
        vec![
            Instruction::Add { rd: Reg(8), rs1: Reg(4), rs2: Reg(5) },
            Instruction::Add { rd: Reg(4), rs1: Reg(8), rs2: Reg(0) },
            Instruction::Ret,
        ]
    );
}

#[test]
fn test_scenario_add_64() {
    // A 64-bit addition decomposes into a low-word add, an unsigned
    // less-than computing the carry, and a carry-propagated high add.
    let source = "define i64 @f() { entry: %r = add i64 1, 2 ret i64 %r }";
    let module = parser::parse(source).expect("parse failed");
    let program = translate::translate_module(&module, 0).expect("translate failed");
    let has_carry_compare = program
        .code
        .iter()
        .any(|i| matches!(i, Instruction::Sltu { .. }));
    assert!(has_carry_compare, "64-bit add must compute a carry");
}

#[test]
fn test_scenario_branch() {
    // One compare, one conditional branch with a forward fixup, two
    // terminators; all labels resolve to relative offsets.
    let source = "define i32 @max(i32 %a, i32 %b) { entry: %c = icmp sgt i32 %a, %b br i1 %c, label %ta, label %tb ta: ret i32 %a tb: ret i32 %b }";
    let module = parser::parse(source).expect("parse failed");
    let program = translate::translate_module(&module, 0).expect("translate failed");
    assert_eq!(
        program.code,
        vec![
            // icmp sgt: swapped signed less-than into t0
            Instruction::Slt { rd: Reg(8), rs1: Reg(5), rs2: Reg(4) },
            // branch to ta (index 3): (3 - 1) * 4
            Instruction::Bne { rs1: Reg(8), rs2: Reg(0), offset: 8 },
            // jump to tb (index 5): (5 - 2) * 4
            Instruction::Jal { rd: Reg(0), offset: 12 },
            // ta:
            Instruction::Add { rd: Reg(4), rs1: Reg(4), rs2: Reg(0) },
            Instruction::Ret,
            // tb:
            Instruction::Add { rd: Reg(4), rs1: Reg(5), rs2: Reg(0) },
            Instruction::Ret,
        ]
    );
}

#[test]
fn test_immediate_materialization_small() {
    let mut ctx = TranslationContext::new("f".to_string());
    ctx.emit_load_imm(Reg(8), 0);
    ctx.emit_load_imm(Reg(9), 42);
    let code = ctx.into_instructions();
    assert_eq!(
        code,
        vec![
            Instruction::Add { rd: Reg(8), rs1: Reg(0), rs2: Reg(0) },
            Instruction::Addi { rd: Reg(9), rs1: Reg(0), imm: 42 },
        ]
    );
}

#[test]
fn test_immediate_materialization_wide() {
    // 0x12345: upper twenty bits plus a positive low part.
    let mut ctx = TranslationContext::new("f".to_string());
    ctx.emit_load_imm(Reg(8), 0x12345);
    // 0x12F45: low part 0xF45 is sign-extended negative, so the upper part
    // is rounded up to compensate.
    ctx.emit_load_imm(Reg(9), 0x12F45);
    let code = ctx.into_instructions();
    assert_eq!(
        code,
        vec![
            Instruction::Lui { rd: Reg(8), imm: 0x12 },
            Instruction::Addi { rd: Reg(8), rs1: Reg(8), imm: 0x345 },
            Instruction::Lui { rd: Reg(9), imm: 0x13 },
            Instruction::Addi { rd: Reg(9), rs1: Reg(9), imm: 0xF45 - 0x1000 },
        ]
    );
}

#[test]
fn test_pipeline_emit_round_trip() {
    let source = "define i32 @add(i32 %a, i32 %b) { entry: %r = add i32 %a, %b ret i32 %r }";
    let module = parser::parse(source).expect("parse failed");
    let program = translate::translate_module(&module, 0).expect("translate failed");
    let bytes = zkir_llvm::emit::emit_program(&program).unwrap();
    let back = zkir_llvm::emit::deserialize_program(&bytes).unwrap();
    assert_eq!(back, program);
}

#[test]
fn test_compat_reports_param_position() {
    let source = "define i32 @f(i32 %a, i9 %b) { entry: ret i32 %a }";
    let module = parser::parse(source).expect("parse failed");
    let r = translate::check_module_compatibility(&module);
    match r {
        Err(translate::CompatError::UnsupportedParamType { function, index }) => {
            assert_eq!(function, "f");
            assert_eq!(index, 1);
        }
        other => panic!("expected a parameter error, got {:?}", other),
    }
    let _ = Type::Int(9);
}

#[test]
fn test_pipeline_memory() {
    // Text to target code through alloca, store and load.
    let source = r#"
        define i32 @mem() {
        entry:
            %a = alloca i32
            store i32 42, ptr %a
            %v = load i32, ptr %a
            ret i32 %v
        }
    "#;
    let module = parser::parse(source).expect("parse failed");
    assert!(translate::check_module_compatibility(&module).is_ok());
    let program = translate::translate_module(&module, 0).expect("translate failed");
    assert!(program
        .code
        .iter()
        .any(|i| matches!(i, Instruction::Sw { .. })));
    assert!(program
        .code
        .iter()
        .any(|i| matches!(i, Instruction::Lw { .. })));
}

#[test]
fn test_scenario_sub_64() {
    // 64-bit subtraction lowers with a borrow computed by an unsigned
    // compare.
    let source = "define i64 @f() { entry: %r = sub i64 5, 3 ret i64 %r }";
    let module = parser::parse(source).expect("parse failed");
    let program = translate::translate_module(&module, 0).expect("translate failed");
    assert!(program
        .code
        .iter()
        .any(|i| matches!(i, Instruction::Sltu { .. })));
}

#[test]
fn test_scenario_mul_64() {
    // 64-bit multiplication lowers through the upper half of the low
    // product and the two cross products.
    let source = "define i64 @f() { entry: %r = mul i64 6, 7 ret i64 %r }";
    let module = parser::parse(source).expect("parse failed");
    let program = translate::translate_module(&module, 0).expect("translate failed");
    assert!(program
        .code
        .iter()
        .any(|i| matches!(i, Instruction::Mulhu { .. })));
}
