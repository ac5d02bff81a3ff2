//! Translation of arithmetic and bitwise instructions.

use vstd::prelude::*;
use crate::ir::{spec_bit_width, Type, Value};
use crate::target::{Instruction, Reg};
use super::context::{spec_temp_reg, Location, TranslationContext, MAX_CODE_LEN, TEMP_POOL_END};
use super::{TranslateError, TranslateResult};

verus! {

broadcast use vstd::seq::group_seq_axioms;

/// A two-operand operation with a single-register result.
#[derive(Debug, Clone, Copy, PartialEq, Eq, Structural)]
pub enum BinOp {
    Add,
    Sub,
    Mul,
    Divu,
    Div,
    Remu,
    Rem,
    And,
    Or,
    Xor,
    Sll,
    Srl,
    Sra,
}

/// The target instruction computing `op` into `rd`.
pub open spec fn spec_binop_instr(op: BinOp, rd: Reg, rs1: Reg, rs2: Reg) -> Instruction {
    match op {
        BinOp::Add => Instruction::Add { rd, rs1, rs2 },
        BinOp::Sub => Instruction::Sub { rd, rs1, rs2 },
        BinOp::Mul => Instruction::Mul { rd, rs1, rs2 },
        BinOp::Divu => Instruction::Divu { rd, rs1, rs2 },
        BinOp::Div => Instruction::Div { rd, rs1, rs2 },
        BinOp::Remu => Instruction::Remu { rd, rs1, rs2 },
        BinOp::Rem => Instruction::Rem { rd, rs1, rs2 },
        BinOp::And => Instruction::And { rd, rs1, rs2 },
        BinOp::Or => Instruction::Or { rd, rs1, rs2 },
        BinOp::Xor => Instruction::Xor { rd, rs1, rs2 },
        BinOp::Sll => Instruction::Sll { rd, rs1, rs2 },
        BinOp::Srl => Instruction::Srl { rd, rs1, rs2 },
        BinOp::Sra => Instruction::Sra { rd, rs1, rs2 },
    }
}

fn mk_binop(op: BinOp, rd: Reg, rs1: Reg, rs2: Reg) -> (r: Instruction)
    ensures
        r == spec_binop_instr(op, rd, rs1, rs2),
{
    match op {
        BinOp::Add => Instruction::Add { rd, rs1, rs2 },
        BinOp::Sub => Instruction::Sub { rd, rs1, rs2 },
        BinOp::Mul => Instruction::Mul { rd, rs1, rs2 },
        BinOp::Divu => Instruction::Divu { rd, rs1, rs2 },
        BinOp::Div => Instruction::Div { rd, rs1, rs2 },
        BinOp::Remu => Instruction::Remu { rd, rs1, rs2 },
        BinOp::Rem => Instruction::Rem { rd, rs1, rs2 },
        BinOp::And => Instruction::And { rd, rs1, rs2 },
        BinOp::Or => Instruction::Or { rd, rs1, rs2 },
        BinOp::Xor => Instruction::Xor { rd, rs1, rs2 },
        BinOp::Sll => Instruction::Sll { rd, rs1, rs2 },
        BinOp::Srl => Instruction::Srl { rd, rs1, rs2 },
        BinOp::Sra => Instruction::Sra { rd, rs1, rs2 },
    }
}

/// Temporary cursor after the left operand is loaded.
pub open spec fn nt_after_lhs(m: Map<Seq<char>, Location>, nt: u8, lhs: Value) -> u8 {
    (nt + TranslationContext::spec_load_temps(m, lhs)) as u8
}

/// Temporary cursor after both operands are loaded.
pub open spec fn nt_after_rhs(m: Map<Seq<char>, Location>, nt: u8, lhs: Value, rhs: Value) -> u8 {
    (nt_after_lhs(m, nt, lhs) + TranslationContext::spec_load_temps(m, rhs)) as u8
}

/// Whether a 32-bit two-operand translation succeeds: both operands load
/// and one temporary remains for the destination.
pub open spec fn spec_binop32_ok(m: Map<Seq<char>, Location>, nt: u8, lhs: Value, rhs: Value) -> bool {
    &&& TranslationContext::spec_load_ok(m, nt, lhs)
    &&& TranslationContext::spec_load_ok(m, nt_after_lhs(m, nt, lhs), rhs)
    &&& nt_after_rhs(m, nt, lhs, rhs) < TEMP_POOL_END
}

/// Destination register of a 32-bit two-operand translation.
pub open spec fn spec_binop32_dest(m: Map<Seq<char>, Location>, nt: u8, lhs: Value, rhs: Value) -> Reg {
    spec_temp_reg(nt_after_rhs(m, nt, lhs, rhs))
}

/// Code emitted by a 32-bit two-operand translation: load both operands,
/// then compute into a fresh temporary.
pub open spec fn spec_binop32_code(
    m: Map<Seq<char>, Location>,
    nt: u8,
    op: BinOp,
    lhs: Value,
    rhs: Value,
) -> Seq<Instruction> {
    TranslationContext::spec_load_code(m, nt, lhs) + TranslationContext::spec_load_code(
        m,
        nt_after_lhs(m, nt, lhs),
        rhs,
    ) + seq![
        spec_binop_instr(
            op,
            spec_binop32_dest(m, nt, lhs, rhs),
            TranslationContext::spec_load_reg(m, nt, lhs),
            TranslationContext::spec_load_reg(m, nt_after_lhs(m, nt, lhs), rhs),
        ),
    ]
}

/// Contract shared by the successful 32-bit two-operand translations:
/// the operand loads and the computing instruction are appended, the result
/// name is bound to the destination temporary, and nothing else moves.
pub open spec fn binop32_post(
    old_c: TranslationContext,
    new_c: TranslationContext,
    op: BinOp,
    result: Seq<char>,
    lhs: Value,
    rhs: Value,
) -> bool {
    let m = old_c.bindings_map();
    let nt = old_c.next_temp;
    &&& new_c.instructions@ == old_c.instructions@ + spec_binop32_code(m, nt, op, lhs, rhs)
    &&& new_c.bindings_map() == m.insert(result, Location::Reg(spec_binop32_dest(m, nt, lhs, rhs)))
    &&& new_c.next_temp == nt_after_rhs(m, nt, lhs, rhs) + 1
    &&& new_c.labels@ == old_c.labels@
    &&& new_c.fixups@ == old_c.fixups@
    &&& new_c.stack_size == old_c.stack_size
    &&& new_c.function_name == old_c.function_name
}

/// What a failed translation leaves untouched: bindings, labels, fixups and
/// the frame. (Operand loads may already have emitted code.)
pub open spec fn failed_post(old_c: TranslationContext, new_c: TranslationContext) -> bool {
    &&& new_c.bindings@ == old_c.bindings@
    &&& new_c.labels@ == old_c.labels@
    &&& new_c.fixups@ == old_c.fixups@
    &&& new_c.stack_size == old_c.stack_size
    &&& new_c.function_name == old_c.function_name
}

/// Load both operands, compute into a fresh temporary, bind the result.
fn translate_binop_32(
    ctx: &mut TranslationContext,
    op: BinOp,
    result: &str,
    lhs: &Value,
    rhs: &Value,
) -> (r: TranslateResult<()>)
    requires
        old(ctx).wf(),
        old(ctx).instructions@.len() + 8 <= MAX_CODE_LEN,
    ensures
        final(ctx).wf(),
        spec_binop32_ok(old(ctx).bindings_map(), old(ctx).next_temp, *lhs, *rhs) ==> r is Ok
            && binop32_post(*old(ctx), *final(ctx), op, result@, *lhs, *rhs),
        !spec_binop32_ok(old(ctx).bindings_map(), old(ctx).next_temp, *lhs, *rhs) ==> r is Err
            && failed_post(*old(ctx), *final(ctx)),
{
    let rs1 = match ctx.load_value(lhs) {
        Ok(reg) => reg,
        Err(e) => {
            return Err(e);
        },
    };
    let rs2 = match ctx.load_value(rhs) {
        Ok(reg) => reg,
        Err(e) => {
            return Err(e);
        },
    };
    let rd = match ctx.alloc_temp() {
        Ok(reg) => reg,
        Err(e) => {
            return Err(e);
        },
    };
    ctx.emit(mk_binop(op, rd, rs1, rs2));
    ctx.bind(result, Location::Reg(rd));
    proof {
        assert(ctx.instructions@ =~= old(ctx).instructions@ + spec_binop32_code(
            old(ctx).bindings_map(),
            old(ctx).next_temp,
            op,
            *lhs,
            *rhs,
        ));
    }
    Ok(())
}


/// Temporary cursor after the left 64-bit operand is loaded.
pub open spec fn nt64_after_lhs(lhs: Value, nt: u8) -> u8 {
    (nt + TranslationContext::spec_load_pair_temps(lhs)) as u8
}

/// Temporary cursor after both 64-bit operands are loaded.
pub open spec fn nt64_after_rhs(lhs: Value, rhs: Value, nt: u8) -> u8 {
    (nt64_after_lhs(lhs, nt) + TranslationContext::spec_load_pair_temps(rhs)) as u8
}

/// Whether the 64-bit addition translates: both operands materialize as
/// pairs and four temporaries remain for the sum, the carry and a scratch.
pub open spec fn spec_add64_ok(m: Map<Seq<char>, Location>, nt: u8, lhs: Value, rhs: Value) -> bool {
    &&& TranslationContext::spec_load_pair_ok(m, nt, lhs)
    &&& TranslationContext::spec_load_pair_ok(m, nt64_after_lhs(lhs, nt), rhs)
    &&& nt64_after_rhs(lhs, rhs, nt) + 4 <= TEMP_POOL_END
}

/// Result pair of the 64-bit addition: the low sum and the high sum.
pub open spec fn spec_add64_dest(m: Map<Seq<char>, Location>, nt: u8, lhs: Value, rhs: Value) -> (
    Reg,
    Reg,
) {
    let base = nt64_after_rhs(lhs, rhs, nt);
    (spec_temp_reg(base), spec_temp_reg((base + 2) as u8))
}

/// Code of the 64-bit addition: materialize both pairs, add the low words,
/// detect the carry with an unsigned compare, and add the high words plus
/// the carry.
pub open spec fn spec_add64_code(m: Map<Seq<char>, Location>, nt: u8, lhs: Value, rhs: Value) -> Seq<
    Instruction,
> {
    let nt1 = nt64_after_lhs(lhs, nt);
    let base = nt64_after_rhs(lhs, rhs, nt);
    let a = TranslationContext::spec_load_pair_regs(m, nt, lhs);
    let b = TranslationContext::spec_load_pair_regs(m, nt1, rhs);
    let sum_lo = spec_temp_reg(base);
    let carry = spec_temp_reg((base + 1) as u8);
    let sum_hi = spec_temp_reg((base + 2) as u8);
    let tmp = spec_temp_reg((base + 3) as u8);
    TranslationContext::spec_load_pair_code(m, nt, lhs) + TranslationContext::spec_load_pair_code(
        m,
        nt1,
        rhs,
    ) + seq![
        Instruction::Add { rd: sum_lo, rs1: a.0, rs2: b.0 },
        Instruction::Sltu { rd: carry, rs1: sum_lo, rs2: a.0 },
        Instruction::Add { rd: tmp, rs1: a.1, rs2: b.1 },
        Instruction::Add { rd: sum_hi, rs1: tmp, rs2: carry },
    ]
}

/// Contract of the successful 64-bit addition.
pub open spec fn add64_post(
    old_c: TranslationContext,
    new_c: TranslationContext,
    result: Seq<char>,
    lhs: Value,
    rhs: Value,
) -> bool {
    let m = old_c.bindings_map();
    let nt = old_c.next_temp;
    let dest = spec_add64_dest(m, nt, lhs, rhs);
    &&& new_c.instructions@ == old_c.instructions@ + spec_add64_code(m, nt, lhs, rhs)
    &&& new_c.bindings_map() == m.insert(result, Location::RegPair { lo: dest.0, hi: dest.1 })
    &&& new_c.next_temp == nt64_after_rhs(lhs, rhs, nt) + 4
    &&& new_c.labels@ == old_c.labels@
    &&& new_c.fixups@ == old_c.fixups@
    &&& new_c.stack_size == old_c.stack_size
    &&& new_c.function_name == old_c.function_name
}

/// 64-bit addition over register pairs, with explicit carry propagation.
fn translate_add_64(
    ctx: &mut TranslationContext,
    result: &str,
    lhs: &Value,
    rhs: &Value,
) -> (r: TranslateResult<()>)
    requires
        old(ctx).wf(),
        old(ctx).instructions@.len() + 16 <= MAX_CODE_LEN,
    ensures
        final(ctx).wf(),
        spec_add64_ok(old(ctx).bindings_map(), old(ctx).next_temp, *lhs, *rhs) ==> r is Ok
            && add64_post(*old(ctx), *final(ctx), result@, *lhs, *rhs),
        !spec_add64_ok(old(ctx).bindings_map(), old(ctx).next_temp, *lhs, *rhs) ==> r is Err
            && failed_post(*old(ctx), *final(ctx)),
{
    let (a_lo, a_hi) = match ctx.load_value_pair(lhs) {
        Ok(p) => p,
        Err(e) => {
            return Err(e);
        },
    };
    let (b_lo, b_hi) = match ctx.load_value_pair(rhs) {
        Ok(p) => p,
        Err(e) => {
            return Err(e);
        },
    };
    let sum_lo = match ctx.alloc_temp() {
        Ok(reg) => reg,
        Err(e) => {
            return Err(e);
        },
    };
    let carry = match ctx.alloc_temp() {
        Ok(reg) => reg,
        Err(e) => {
            return Err(e);
        },
    };
    let sum_hi = match ctx.alloc_temp() {
        Ok(reg) => reg,
        Err(e) => {
            return Err(e);
        },
    };
    ctx.emit(Instruction::Add { rd: sum_lo, rs1: a_lo, rs2: b_lo });
    ctx.emit(Instruction::Sltu { rd: carry, rs1: sum_lo, rs2: a_lo });
    let tmp = match ctx.alloc_temp() {
        Ok(reg) => reg,
        Err(e) => {
            return Err(e);
        },
    };
    ctx.emit(Instruction::Add { rd: tmp, rs1: a_hi, rs2: b_hi });
    ctx.emit(Instruction::Add { rd: sum_hi, rs1: tmp, rs2: carry });
    ctx.bind(result, Location::RegPair { lo: sum_lo, hi: sum_hi });
    proof {
        assert(ctx.instructions@ =~= old(ctx).instructions@ + spec_add64_code(
            old(ctx).bindings_map(),
            old(ctx).next_temp,
            *lhs,
            *rhs,
        ));
    }
    Ok(())
}


/// Whether the 64-bit subtraction translates: both operands materialize as
/// pairs and four temporaries remain for the difference, the borrow and a
/// scratch.
pub open spec fn spec_sub64_ok(m: Map<Seq<char>, Location>, nt: u8, lhs: Value, rhs: Value) -> bool {
    &&& TranslationContext::spec_load_pair_ok(m, nt, lhs)
    &&& TranslationContext::spec_load_pair_ok(m, nt64_after_lhs(lhs, nt), rhs)
    &&& nt64_after_rhs(lhs, rhs, nt) + 4 <= TEMP_POOL_END
}

/// Result pair of the 64-bit subtraction: the low and high difference.
pub open spec fn spec_sub64_dest(m: Map<Seq<char>, Location>, nt: u8, lhs: Value, rhs: Value) -> (
    Reg,
    Reg,
) {
    let base = nt64_after_rhs(lhs, rhs, nt);
    (spec_temp_reg(base), spec_temp_reg((base + 2) as u8))
}

/// Code of the 64-bit subtraction: materialize both pairs, subtract the low
/// words, detect the borrow with an unsigned compare, and subtract both the
/// high word and the borrow.
pub open spec fn spec_sub64_code(m: Map<Seq<char>, Location>, nt: u8, lhs: Value, rhs: Value) -> Seq<
    Instruction,
> {
    let nt1 = nt64_after_lhs(lhs, nt);
    let base = nt64_after_rhs(lhs, rhs, nt);
    let a = TranslationContext::spec_load_pair_regs(m, nt, lhs);
    let b = TranslationContext::spec_load_pair_regs(m, nt1, rhs);
    let diff_lo = spec_temp_reg(base);
    let borrow = spec_temp_reg((base + 1) as u8);
    let diff_hi = spec_temp_reg((base + 2) as u8);
    let tmp = spec_temp_reg((base + 3) as u8);
    TranslationContext::spec_load_pair_code(m, nt, lhs) + TranslationContext::spec_load_pair_code(
        m,
        nt1,
        rhs,
    ) + seq![
        Instruction::Sub { rd: diff_lo, rs1: a.0, rs2: b.0 },
        Instruction::Sltu { rd: borrow, rs1: a.0, rs2: b.0 },
        Instruction::Sub { rd: tmp, rs1: a.1, rs2: b.1 },
        Instruction::Sub { rd: diff_hi, rs1: tmp, rs2: borrow },
    ]
}

/// Contract of the successful 64-bit subtraction.
pub open spec fn sub64_post(
    old_c: TranslationContext,
    new_c: TranslationContext,
    result: Seq<char>,
    lhs: Value,
    rhs: Value,
) -> bool {
    let m = old_c.bindings_map();
    let nt = old_c.next_temp;
    let dest = spec_sub64_dest(m, nt, lhs, rhs);
    &&& new_c.instructions@ == old_c.instructions@ + spec_sub64_code(m, nt, lhs, rhs)
    &&& new_c.bindings_map() == m.insert(result, Location::RegPair { lo: dest.0, hi: dest.1 })
    &&& new_c.next_temp == nt64_after_rhs(lhs, rhs, nt) + 4
    &&& new_c.labels@ == old_c.labels@
    &&& new_c.fixups@ == old_c.fixups@
    &&& new_c.stack_size == old_c.stack_size
    &&& new_c.function_name == old_c.function_name
}

/// 64-bit subtraction over register pairs, with explicit borrow propagation.
fn translate_sub_64(
    ctx: &mut TranslationContext,
    result: &str,
    lhs: &Value,
    rhs: &Value,
) -> (r: TranslateResult<()>)
    requires
        old(ctx).wf(),
        old(ctx).instructions@.len() + 16 <= MAX_CODE_LEN,
    ensures
        final(ctx).wf(),
        spec_sub64_ok(old(ctx).bindings_map(), old(ctx).next_temp, *lhs, *rhs) ==> r is Ok
            && sub64_post(*old(ctx), *final(ctx), result@, *lhs, *rhs),
        !spec_sub64_ok(old(ctx).bindings_map(), old(ctx).next_temp, *lhs, *rhs) ==> r is Err
            && failed_post(*old(ctx), *final(ctx)),
{
    let (a_lo, a_hi) = match ctx.load_value_pair(lhs) {
        Ok(p) => p,
        Err(e) => {
            return Err(e);
        },
    };
    let (b_lo, b_hi) = match ctx.load_value_pair(rhs) {
        Ok(p) => p,
        Err(e) => {
            return Err(e);
        },
    };
    let diff_lo = match ctx.alloc_temp() {
        Ok(reg) => reg,
        Err(e) => {
            return Err(e);
        },
    };
    let borrow = match ctx.alloc_temp() {
        Ok(reg) => reg,
        Err(e) => {
            return Err(e);
        },
    };
    let diff_hi = match ctx.alloc_temp() {
        Ok(reg) => reg,
        Err(e) => {
            return Err(e);
        },
    };
    ctx.emit(Instruction::Sub { rd: diff_lo, rs1: a_lo, rs2: b_lo });
    ctx.emit(Instruction::Sltu { rd: borrow, rs1: a_lo, rs2: b_lo });
    let tmp = match ctx.alloc_temp() {
        Ok(reg) => reg,
        Err(e) => {
            return Err(e);
        },
    };
    ctx.emit(Instruction::Sub { rd: tmp, rs1: a_hi, rs2: b_hi });
    ctx.emit(Instruction::Sub { rd: diff_hi, rs1: tmp, rs2: borrow });
    ctx.bind(result, Location::RegPair { lo: diff_lo, hi: diff_hi });
    proof {
        assert(ctx.instructions@ =~= old(ctx).instructions@ + spec_sub64_code(
            old(ctx).bindings_map(),
            old(ctx).next_temp,
            *lhs,
            *rhs,
        ));
    }
    Ok(())
}

/// Whether the 64-bit multiplication translates: both operands materialize
/// as pairs and six temporaries remain for the partial products and sums.
pub open spec fn spec_mul64_ok(m: Map<Seq<char>, Location>, nt: u8, lhs: Value, rhs: Value) -> bool {
    &&& TranslationContext::spec_load_pair_ok(m, nt, lhs)
    &&& TranslationContext::spec_load_pair_ok(m, nt64_after_lhs(lhs, nt), rhs)
    &&& nt64_after_rhs(lhs, rhs, nt) + 6 <= TEMP_POOL_END
}

/// Result pair of the 64-bit multiplication.
pub open spec fn spec_mul64_dest(m: Map<Seq<char>, Location>, nt: u8, lhs: Value, rhs: Value) -> (
    Reg,
    Reg,
) {
    let base = nt64_after_rhs(lhs, rhs, nt);
    (spec_temp_reg(base), spec_temp_reg((base + 5) as u8))
}

/// Code of the 64-bit multiplication: the low product, the upper half of
/// the low-by-low product, the two cross products, and their carry-summed
/// high word. Partial products beyond 64 bits fall away.
pub open spec fn spec_mul64_code(m: Map<Seq<char>, Location>, nt: u8, lhs: Value, rhs: Value) -> Seq<
    Instruction,
> {
    let nt1 = nt64_after_lhs(lhs, nt);
    let base = nt64_after_rhs(lhs, rhs, nt);
    let a = TranslationContext::spec_load_pair_regs(m, nt, lhs);
    let b = TranslationContext::spec_load_pair_regs(m, nt1, rhs);
    let lo = spec_temp_reg(base);
    let hi_ll = spec_temp_reg((base + 1) as u8);
    let mid1 = spec_temp_reg((base + 2) as u8);
    let mid2 = spec_temp_reg((base + 3) as u8);
    let tmp = spec_temp_reg((base + 4) as u8);
    let hi = spec_temp_reg((base + 5) as u8);
    TranslationContext::spec_load_pair_code(m, nt, lhs) + TranslationContext::spec_load_pair_code(
        m,
        nt1,
        rhs,
    ) + seq![
        Instruction::Mul { rd: lo, rs1: a.0, rs2: b.0 },
        Instruction::Mulhu { rd: hi_ll, rs1: a.0, rs2: b.0 },
        Instruction::Mul { rd: mid1, rs1: a.0, rs2: b.1 },
        Instruction::Mul { rd: mid2, rs1: a.1, rs2: b.0 },
        Instruction::Add { rd: tmp, rs1: hi_ll, rs2: mid1 },
        Instruction::Add { rd: hi, rs1: tmp, rs2: mid2 },
    ]
}

/// Contract of the successful 64-bit multiplication.
pub open spec fn mul64_post(
    old_c: TranslationContext,
    new_c: TranslationContext,
    result: Seq<char>,
    lhs: Value,
    rhs: Value,
) -> bool {
    let m = old_c.bindings_map();
    let nt = old_c.next_temp;
    let dest = spec_mul64_dest(m, nt, lhs, rhs);
    &&& new_c.instructions@ == old_c.instructions@ + spec_mul64_code(m, nt, lhs, rhs)
    &&& new_c.bindings_map() == m.insert(result, Location::RegPair { lo: dest.0, hi: dest.1 })
    &&& new_c.next_temp == nt64_after_rhs(lhs, rhs, nt) + 6
    &&& new_c.labels@ == old_c.labels@
    &&& new_c.fixups@ == old_c.fixups@
    &&& new_c.stack_size == old_c.stack_size
    &&& new_c.function_name == old_c.function_name
}

/// 64-bit multiplication over register pairs, from four partial products.
fn translate_mul_64(
    ctx: &mut TranslationContext,
    result: &str,
    lhs: &Value,
    rhs: &Value,
) -> (r: TranslateResult<()>)
    requires
        old(ctx).wf(),
        old(ctx).instructions@.len() + 16 <= MAX_CODE_LEN,
    ensures
        final(ctx).wf(),
        spec_mul64_ok(old(ctx).bindings_map(), old(ctx).next_temp, *lhs, *rhs) ==> r is Ok
            && mul64_post(*old(ctx), *final(ctx), result@, *lhs, *rhs),
        !spec_mul64_ok(old(ctx).bindings_map(), old(ctx).next_temp, *lhs, *rhs) ==> r is Err
            && failed_post(*old(ctx), *final(ctx)),
{
    let (a_lo, a_hi) = match ctx.load_value_pair(lhs) {
        Ok(p) => p,
        Err(e) => {
            return Err(e);
        },
    };
    let (b_lo, b_hi) = match ctx.load_value_pair(rhs) {
        Ok(p) => p,
        Err(e) => {
            return Err(e);
        },
    };
    let lo = match ctx.alloc_temp() {
        Ok(reg) => reg,
        Err(e) => {
            return Err(e);
        },
    };
    let hi_ll = match ctx.alloc_temp() {
        Ok(reg) => reg,
        Err(e) => {
            return Err(e);
        },
    };
    let mid1 = match ctx.alloc_temp() {
        Ok(reg) => reg,
        Err(e) => {
            return Err(e);
        },
    };
    let mid2 = match ctx.alloc_temp() {
        Ok(reg) => reg,
        Err(e) => {
            return Err(e);
        },
    };
    let tmp = match ctx.alloc_temp() {
        Ok(reg) => reg,
        Err(e) => {
            return Err(e);
        },
    };
    let hi = match ctx.alloc_temp() {
        Ok(reg) => reg,
        Err(e) => {
            return Err(e);
        },
    };
    ctx.emit(Instruction::Mul { rd: lo, rs1: a_lo, rs2: b_lo });
    ctx.emit(Instruction::Mulhu { rd: hi_ll, rs1: a_lo, rs2: b_lo });
    ctx.emit(Instruction::Mul { rd: mid1, rs1: a_lo, rs2: b_hi });
    ctx.emit(Instruction::Mul { rd: mid2, rs1: a_hi, rs2: b_lo });
    ctx.emit(Instruction::Add { rd: tmp, rs1: hi_ll, rs2: mid1 });
    ctx.emit(Instruction::Add { rd: hi, rs1: tmp, rs2: mid2 });
    ctx.bind(result, Location::RegPair { lo, hi });
    proof {
        assert(ctx.instructions@ =~= old(ctx).instructions@ + spec_mul64_code(
            old(ctx).bindings_map(),
            old(ctx).next_temp,
            *lhs,
            *rhs,
        ));
    }
    Ok(())
}

/// Translate an integer addition: one `Add` at width 32 or below, a
/// carry-propagating pair sum at width 64; wider additions are unsupported.
pub fn translate_add(
    ctx: &mut TranslationContext,
    result: &str,
    ty: &Type,
    lhs: &Value,
    rhs: &Value,
) -> (r: TranslateResult<()>)
    requires
        old(ctx).wf(),
        old(ctx).instructions@.len() + 16 <= MAX_CODE_LEN,
    ensures
        final(ctx).wf(),
        spec_bit_width(*ty) <= 32 ==> {
            if spec_binop32_ok(old(ctx).bindings_map(), old(ctx).next_temp, *lhs, *rhs) {
                r is Ok && binop32_post(*old(ctx), *final(ctx), BinOp::Add, result@, *lhs, *rhs)
            } else {
                r is Err && failed_post(*old(ctx), *final(ctx))
            }
        },
        spec_bit_width(*ty) == 64 ==> {
            if spec_add64_ok(old(ctx).bindings_map(), old(ctx).next_temp, *lhs, *rhs) {
                r is Ok && add64_post(*old(ctx), *final(ctx), result@, *lhs, *rhs)
            } else {
                r is Err && failed_post(*old(ctx), *final(ctx))
            }
        },
        spec_bit_width(*ty) > 32 && spec_bit_width(*ty) != 64 ==> r == TranslateResult::<()>::Err(
            TranslateError::UnsupportedWidth(spec_bit_width(*ty)),
        ) && *final(ctx) == *old(ctx),
{
    let bits = ty.bit_width();
    if bits <= 32 {
        translate_binop_32(ctx, BinOp::Add, result, lhs, rhs)
    } else if bits == 64 {
        translate_add_64(ctx, result, lhs, rhs)
    } else {
        Err(TranslateError::UnsupportedWidth(bits))
    }
}




/// Translate an integer subtraction: one `Sub` at width 32 or below, a
/// borrow-propagating pair difference at width 64; wider subtractions are
/// unsupported.
pub fn translate_sub(
    ctx: &mut TranslationContext,
    result: &str,
    ty: &Type,
    lhs: &Value,
    rhs: &Value,
) -> (r: TranslateResult<()>)
    requires
        old(ctx).wf(),
        old(ctx).instructions@.len() + 16 <= MAX_CODE_LEN,
    ensures
        final(ctx).wf(),
        spec_bit_width(*ty) <= 32 ==> {
            if spec_binop32_ok(old(ctx).bindings_map(), old(ctx).next_temp, *lhs, *rhs) {
                r is Ok && binop32_post(*old(ctx), *final(ctx), BinOp::Sub, result@, *lhs, *rhs)
            } else {
                r is Err && failed_post(*old(ctx), *final(ctx))
            }
        },
        spec_bit_width(*ty) == 64 ==> {
            if spec_sub64_ok(old(ctx).bindings_map(), old(ctx).next_temp, *lhs, *rhs) {
                r is Ok && sub64_post(*old(ctx), *final(ctx), result@, *lhs, *rhs)
            } else {
                r is Err && failed_post(*old(ctx), *final(ctx))
            }
        },
        spec_bit_width(*ty) > 32 && spec_bit_width(*ty) != 64 ==> r == TranslateResult::<()>::Err(
            TranslateError::UnsupportedWidth(spec_bit_width(*ty)),
        ) && *final(ctx) == *old(ctx),
{
    let bits = ty.bit_width();
    if bits <= 32 {
        translate_binop_32(ctx, BinOp::Sub, result, lhs, rhs)
    } else if bits == 64 {
        translate_sub_64(ctx, result, lhs, rhs)
    } else {
        Err(TranslateError::UnsupportedWidth(bits))
    }
}

/// Translate an integer multiplication: one `Mul` at width 32 or below, the
/// four-partial-product lowering at width 64; wider multiplications are
/// unsupported.
pub fn translate_mul(
    ctx: &mut TranslationContext,
    result: &str,
    ty: &Type,
    lhs: &Value,
    rhs: &Value,
) -> (r: TranslateResult<()>)
    requires
        old(ctx).wf(),
        old(ctx).instructions@.len() + 16 <= MAX_CODE_LEN,
    ensures
        final(ctx).wf(),
        spec_bit_width(*ty) <= 32 ==> {
            if spec_binop32_ok(old(ctx).bindings_map(), old(ctx).next_temp, *lhs, *rhs) {
                r is Ok && binop32_post(*old(ctx), *final(ctx), BinOp::Mul, result@, *lhs, *rhs)
            } else {
                r is Err && failed_post(*old(ctx), *final(ctx))
            }
        },
        spec_bit_width(*ty) == 64 ==> {
            if spec_mul64_ok(old(ctx).bindings_map(), old(ctx).next_temp, *lhs, *rhs) {
                r is Ok && mul64_post(*old(ctx), *final(ctx), result@, *lhs, *rhs)
            } else {
                r is Err && failed_post(*old(ctx), *final(ctx))
            }
        },
        spec_bit_width(*ty) > 32 && spec_bit_width(*ty) != 64 ==> r == TranslateResult::<()>::Err(
            TranslateError::UnsupportedWidth(spec_bit_width(*ty)),
        ) && *final(ctx) == *old(ctx),
{
    let bits = ty.bit_width();
    if bits <= 32 {
        translate_binop_32(ctx, BinOp::Mul, result, lhs, rhs)
    } else if bits == 64 {
        translate_mul_64(ctx, result, lhs, rhs)
    } else {
        Err(TranslateError::UnsupportedWidth(bits))
    }
}

/// Translate an unsigned division at width 32 or below; wider operations are unsupported.
pub fn translate_udiv(
    ctx: &mut TranslationContext,
    result: &str,
    ty: &Type,
    lhs: &Value,
    rhs: &Value,
) -> (r: TranslateResult<()>)
    requires
        old(ctx).wf(),
        old(ctx).instructions@.len() + 8 <= MAX_CODE_LEN,
    ensures
        final(ctx).wf(),
        spec_bit_width(*ty) <= 32 ==> {
            if spec_binop32_ok(old(ctx).bindings_map(), old(ctx).next_temp, *lhs, *rhs) {
                r is Ok && binop32_post(*old(ctx), *final(ctx), BinOp::Divu, result@, *lhs, *rhs)
            } else {
                r is Err && failed_post(*old(ctx), *final(ctx))
            }
        },
        spec_bit_width(*ty) > 32 ==> r == TranslateResult::<()>::Err(
            TranslateError::UnsupportedWidth(spec_bit_width(*ty)),
        ) && *final(ctx) == *old(ctx),
{
    let bits = ty.bit_width();
    if bits <= 32 {
        translate_binop_32(ctx, BinOp::Divu, result, lhs, rhs)
    } else {
        Err(TranslateError::UnsupportedWidth(bits))
    }
}

/// Translate a signed division at width 32 or below; wider operations are unsupported.
pub fn translate_sdiv(
    ctx: &mut TranslationContext,
    result: &str,
    ty: &Type,
    lhs: &Value,
    rhs: &Value,
) -> (r: TranslateResult<()>)
    requires
        old(ctx).wf(),
        old(ctx).instructions@.len() + 8 <= MAX_CODE_LEN,
    ensures
        final(ctx).wf(),
        spec_bit_width(*ty) <= 32 ==> {
            if spec_binop32_ok(old(ctx).bindings_map(), old(ctx).next_temp, *lhs, *rhs) {
                r is Ok && binop32_post(*old(ctx), *final(ctx), BinOp::Div, result@, *lhs, *rhs)
            } else {
                r is Err && failed_post(*old(ctx), *final(ctx))
            }
        },
        spec_bit_width(*ty) > 32 ==> r == TranslateResult::<()>::Err(
            TranslateError::UnsupportedWidth(spec_bit_width(*ty)),
        ) && *final(ctx) == *old(ctx),
{
    let bits = ty.bit_width();
    if bits <= 32 {
        translate_binop_32(ctx, BinOp::Div, result, lhs, rhs)
    } else {
        Err(TranslateError::UnsupportedWidth(bits))
    }
}

/// Translate an unsigned remainder at width 32 or below; wider operations are unsupported.
pub fn translate_urem(
    ctx: &mut TranslationContext,
    result: &str,
    ty: &Type,
    lhs: &Value,
    rhs: &Value,
) -> (r: TranslateResult<()>)
    requires
        old(ctx).wf(),
        old(ctx).instructions@.len() + 8 <= MAX_CODE_LEN,
    ensures
        final(ctx).wf(),
        spec_bit_width(*ty) <= 32 ==> {
            if spec_binop32_ok(old(ctx).bindings_map(), old(ctx).next_temp, *lhs, *rhs) {
                r is Ok && binop32_post(*old(ctx), *final(ctx), BinOp::Remu, result@, *lhs, *rhs)
            } else {
                r is Err && failed_post(*old(ctx), *final(ctx))
            }
        },
        spec_bit_width(*ty) > 32 ==> r == TranslateResult::<()>::Err(
            TranslateError::UnsupportedWidth(spec_bit_width(*ty)),
        ) && *final(ctx) == *old(ctx),
{
    let bits = ty.bit_width();
    if bits <= 32 {
        translate_binop_32(ctx, BinOp::Remu, result, lhs, rhs)
    } else {
        Err(TranslateError::UnsupportedWidth(bits))
    }
}

/// Translate a signed remainder at width 32 or below; wider operations are unsupported.
pub fn translate_srem(
    ctx: &mut TranslationContext,
    result: &str,
    ty: &Type,
    lhs: &Value,
    rhs: &Value,
) -> (r: TranslateResult<()>)
    requires
        old(ctx).wf(),
        old(ctx).instructions@.len() + 8 <= MAX_CODE_LEN,
    ensures
        final(ctx).wf(),
        spec_bit_width(*ty) <= 32 ==> {
            if spec_binop32_ok(old(ctx).bindings_map(), old(ctx).next_temp, *lhs, *rhs) {
                r is Ok && binop32_post(*old(ctx), *final(ctx), BinOp::Rem, result@, *lhs, *rhs)
            } else {
                r is Err && failed_post(*old(ctx), *final(ctx))
            }
        },
        spec_bit_width(*ty) > 32 ==> r == TranslateResult::<()>::Err(
            TranslateError::UnsupportedWidth(spec_bit_width(*ty)),
        ) && *final(ctx) == *old(ctx),
{
    let bits = ty.bit_width();
    if bits <= 32 {
        translate_binop_32(ctx, BinOp::Rem, result, lhs, rhs)
    } else {
        Err(TranslateError::UnsupportedWidth(bits))
    }
}

/// Translate a bitwise and at width 32 or below; wider operations are unsupported.
pub fn translate_and(
    ctx: &mut TranslationContext,
    result: &str,
    ty: &Type,
    lhs: &Value,
    rhs: &Value,
) -> (r: TranslateResult<()>)
    requires
        old(ctx).wf(),
        old(ctx).instructions@.len() + 8 <= MAX_CODE_LEN,
    ensures
        final(ctx).wf(),
        spec_bit_width(*ty) <= 32 ==> {
            if spec_binop32_ok(old(ctx).bindings_map(), old(ctx).next_temp, *lhs, *rhs) {
                r is Ok && binop32_post(*old(ctx), *final(ctx), BinOp::And, result@, *lhs, *rhs)
            } else {
                r is Err && failed_post(*old(ctx), *final(ctx))
            }
        },
        spec_bit_width(*ty) > 32 ==> r == TranslateResult::<()>::Err(
            TranslateError::UnsupportedWidth(spec_bit_width(*ty)),
        ) && *final(ctx) == *old(ctx),
{
    let bits = ty.bit_width();
    if bits <= 32 {
        translate_binop_32(ctx, BinOp::And, result, lhs, rhs)
    } else {
        Err(TranslateError::UnsupportedWidth(bits))
    }
}

/// Translate a bitwise or at width 32 or below; wider operations are unsupported.
pub fn translate_or(
    ctx: &mut TranslationContext,
    result: &str,
    ty: &Type,
    lhs: &Value,
    rhs: &Value,
) -> (r: TranslateResult<()>)
    requires
        old(ctx).wf(),
        old(ctx).instructions@.len() + 8 <= MAX_CODE_LEN,
    ensures
        final(ctx).wf(),
        spec_bit_width(*ty) <= 32 ==> {
            if spec_binop32_ok(old(ctx).bindings_map(), old(ctx).next_temp, *lhs, *rhs) {
                r is Ok && binop32_post(*old(ctx), *final(ctx), BinOp::Or, result@, *lhs, *rhs)
            } else {
                r is Err && failed_post(*old(ctx), *final(ctx))
            }
        },
        spec_bit_width(*ty) > 32 ==> r == TranslateResult::<()>::Err(
            TranslateError::UnsupportedWidth(spec_bit_width(*ty)),
        ) && *final(ctx) == *old(ctx),
{
    let bits = ty.bit_width();
    if bits <= 32 {
        translate_binop_32(ctx, BinOp::Or, result, lhs, rhs)
    } else {
        Err(TranslateError::UnsupportedWidth(bits))
    }
}

/// Translate a bitwise exclusive or at width 32 or below; wider operations are unsupported.
pub fn translate_xor(
    ctx: &mut TranslationContext,
    result: &str,
    ty: &Type,
    lhs: &Value,
    rhs: &Value,
) -> (r: TranslateResult<()>)
    requires
        old(ctx).wf(),
        old(ctx).instructions@.len() + 8 <= MAX_CODE_LEN,
    ensures
        final(ctx).wf(),
        spec_bit_width(*ty) <= 32 ==> {
            if spec_binop32_ok(old(ctx).bindings_map(), old(ctx).next_temp, *lhs, *rhs) {
                r is Ok && binop32_post(*old(ctx), *final(ctx), BinOp::Xor, result@, *lhs, *rhs)
            } else {
                r is Err && failed_post(*old(ctx), *final(ctx))
            }
        },
        spec_bit_width(*ty) > 32 ==> r == TranslateResult::<()>::Err(
            TranslateError::UnsupportedWidth(spec_bit_width(*ty)),
        ) && *final(ctx) == *old(ctx),
{
    let bits = ty.bit_width();
    if bits <= 32 {
        translate_binop_32(ctx, BinOp::Xor, result, lhs, rhs)
    } else {
        Err(TranslateError::UnsupportedWidth(bits))
    }
}

/// Translate a left shift at width 32 or below; wider operations are unsupported.
pub fn translate_shl(
    ctx: &mut TranslationContext,
    result: &str,
    ty: &Type,
    lhs: &Value,
    rhs: &Value,
) -> (r: TranslateResult<()>)
    requires
        old(ctx).wf(),
        old(ctx).instructions@.len() + 8 <= MAX_CODE_LEN,
    ensures
        final(ctx).wf(),
        spec_bit_width(*ty) <= 32 ==> {
            if spec_binop32_ok(old(ctx).bindings_map(), old(ctx).next_temp, *lhs, *rhs) {
                r is Ok && binop32_post(*old(ctx), *final(ctx), BinOp::Sll, result@, *lhs, *rhs)
            } else {
                r is Err && failed_post(*old(ctx), *final(ctx))
            }
        },
        spec_bit_width(*ty) > 32 ==> r == TranslateResult::<()>::Err(
            TranslateError::UnsupportedWidth(spec_bit_width(*ty)),
        ) && *final(ctx) == *old(ctx),
{
    let bits = ty.bit_width();
    if bits <= 32 {
        translate_binop_32(ctx, BinOp::Sll, result, lhs, rhs)
    } else {
        Err(TranslateError::UnsupportedWidth(bits))
    }
}

/// Translate a logical right shift at width 32 or below; wider operations are unsupported.
pub fn translate_lshr(
    ctx: &mut TranslationContext,
    result: &str,
    ty: &Type,
    lhs: &Value,
    rhs: &Value,
) -> (r: TranslateResult<()>)
    requires
        old(ctx).wf(),
        old(ctx).instructions@.len() + 8 <= MAX_CODE_LEN,
    ensures
        final(ctx).wf(),
        spec_bit_width(*ty) <= 32 ==> {
            if spec_binop32_ok(old(ctx).bindings_map(), old(ctx).next_temp, *lhs, *rhs) {
                r is Ok && binop32_post(*old(ctx), *final(ctx), BinOp::Srl, result@, *lhs, *rhs)
            } else {
                r is Err && failed_post(*old(ctx), *final(ctx))
            }
        },
        spec_bit_width(*ty) > 32 ==> r == TranslateResult::<()>::Err(
            TranslateError::UnsupportedWidth(spec_bit_width(*ty)),
        ) && *final(ctx) == *old(ctx),
{
    let bits = ty.bit_width();
    if bits <= 32 {
        translate_binop_32(ctx, BinOp::Srl, result, lhs, rhs)
    } else {
        Err(TranslateError::UnsupportedWidth(bits))
    }
}

/// Translate an arithmetic right shift at width 32 or below; wider operations are unsupported.
pub fn translate_ashr(
    ctx: &mut TranslationContext,
    result: &str,
    ty: &Type,
    lhs: &Value,
    rhs: &Value,
) -> (r: TranslateResult<()>)
    requires
        old(ctx).wf(),
        old(ctx).instructions@.len() + 8 <= MAX_CODE_LEN,
    ensures
        final(ctx).wf(),
        spec_bit_width(*ty) <= 32 ==> {
            if spec_binop32_ok(old(ctx).bindings_map(), old(ctx).next_temp, *lhs, *rhs) {
                r is Ok && binop32_post(*old(ctx), *final(ctx), BinOp::Sra, result@, *lhs, *rhs)
            } else {
                r is Err && failed_post(*old(ctx), *final(ctx))
            }
        },
        spec_bit_width(*ty) > 32 ==> r == TranslateResult::<()>::Err(
            TranslateError::UnsupportedWidth(spec_bit_width(*ty)),
        ) && *final(ctx) == *old(ctx),
{
    let bits = ty.bit_width();
    if bits <= 32 {
        translate_binop_32(ctx, BinOp::Sra, result, lhs, rhs)
    } else {
        Err(TranslateError::UnsupportedWidth(bits))
    }
}

} // verus!
