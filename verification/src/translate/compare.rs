//! Translation of integer comparisons.
//!
//! The target machine provides signed and unsigned less-than; every other
//! predicate is synthesized: equality through an exclusive-or against an
//! immediate unsigned compare, the greater-than forms by swapping operands,
//! and the non-strict forms by inverting the strict ones with an
//! exclusive-or immediate.

use vstd::prelude::*;
use crate::ir::instruction::ICmpPredicate;
use crate::ir::{spec_bit_width, Type, Value};
use crate::target::{Instruction, Reg, REG_ZERO};
use super::arithmetic::{failed_post, nt_after_lhs, nt_after_rhs};
use super::context::{spec_temp_reg, Location, TranslationContext, MAX_CODE_LEN, TEMP_POOL_END};
use super::{TranslateError, TranslateResult};

verus! {

broadcast use vstd::seq::group_seq_axioms;

/// Temporaries a predicate needs beyond the loaded operands: equality and
/// inequality use a scratch for the exclusive-or, the rest only the result.
pub open spec fn spec_icmp_temps(pred: ICmpPredicate) -> int {
    match pred {
        ICmpPredicate::Eq => 2int,
        ICmpPredicate::Ne => 2int,
        _ => 1int,
    }
}

/// Result register of a comparison: the last temporary taken.
pub open spec fn spec_icmp_dest(m: Map<Seq<char>, Location>, nt: u8, pred: ICmpPredicate, lhs: Value, rhs: Value) -> Reg {
    let base = nt_after_rhs(m, nt, lhs, rhs);
    if spec_icmp_temps(pred) == 2 {
        spec_temp_reg((base + 1) as u8)
    } else {
        spec_temp_reg(base)
    }
}

/// The instructions that compute predicate `pred` of `a` and `b` into `rd`,
/// using `tmp` as scratch where needed. The result register holds 1 when
/// the predicate holds and 0 otherwise.
pub open spec fn spec_icmp_insns(
    pred: ICmpPredicate,
    rd: Reg,
    tmp: Reg,
    a: Reg,
    b: Reg,
) -> Seq<Instruction> {
    match pred {
        ICmpPredicate::Eq => seq![
            Instruction::Xor { rd: tmp, rs1: a, rs2: b },
            Instruction::Sltiu { rd, rs1: tmp, imm: 1 },
        ],
        ICmpPredicate::Ne => seq![
            Instruction::Xor { rd: tmp, rs1: a, rs2: b },
            Instruction::Sltu { rd, rs1: Reg(REG_ZERO), rs2: tmp },
        ],
        ICmpPredicate::Slt => seq![Instruction::Slt { rd, rs1: a, rs2: b }],
        ICmpPredicate::Ult => seq![Instruction::Sltu { rd, rs1: a, rs2: b }],
        ICmpPredicate::Sgt => seq![Instruction::Slt { rd, rs1: b, rs2: a }],
        ICmpPredicate::Ugt => seq![Instruction::Sltu { rd, rs1: b, rs2: a }],
        ICmpPredicate::Sle => seq![
            Instruction::Slt { rd, rs1: b, rs2: a },
            Instruction::Xori { rd, rs1: rd, imm: 1 },
        ],
        ICmpPredicate::Sge => seq![
            Instruction::Slt { rd, rs1: a, rs2: b },
            Instruction::Xori { rd, rs1: rd, imm: 1 },
        ],
        ICmpPredicate::Ule => seq![
            Instruction::Sltu { rd, rs1: b, rs2: a },
            Instruction::Xori { rd, rs1: rd, imm: 1 },
        ],
        ICmpPredicate::Uge => seq![
            Instruction::Sltu { rd, rs1: a, rs2: b },
            Instruction::Xori { rd, rs1: rd, imm: 1 },
        ],
    }
}

/// Whether a comparison translates: both operands load and enough
/// temporaries remain.
pub open spec fn spec_icmp_ok(
    m: Map<Seq<char>, Location>,
    nt: u8,
    pred: ICmpPredicate,
    lhs: Value,
    rhs: Value,
) -> bool {
    &&& TranslationContext::spec_load_ok(m, nt, lhs)
    &&& TranslationContext::spec_load_ok(m, nt_after_lhs(m, nt, lhs), rhs)
    &&& nt_after_rhs(m, nt, lhs, rhs) + spec_icmp_temps(pred) <= TEMP_POOL_END
}

/// Code emitted by a successful comparison.
pub open spec fn spec_icmp_code(
    m: Map<Seq<char>, Location>,
    nt: u8,
    pred: ICmpPredicate,
    lhs: Value,
    rhs: Value,
) -> Seq<Instruction> {
    let base = nt_after_rhs(m, nt, lhs, rhs);
    TranslationContext::spec_load_code(m, nt, lhs) + TranslationContext::spec_load_code(
        m,
        nt_after_lhs(m, nt, lhs),
        rhs,
    ) + spec_icmp_insns(
        pred,
        spec_icmp_dest(m, nt, pred, lhs, rhs),
        spec_temp_reg(base),
        TranslationContext::spec_load_reg(m, nt, lhs),
        TranslationContext::spec_load_reg(m, nt_after_lhs(m, nt, lhs), rhs),
    )
}

/// Contract of the successful comparison translation.
pub open spec fn icmp_post(
    old_c: TranslationContext,
    new_c: TranslationContext,
    pred: ICmpPredicate,
    result: Seq<char>,
    lhs: Value,
    rhs: Value,
) -> bool {
    let m = old_c.bindings_map();
    let nt = old_c.next_temp;
    &&& new_c.instructions@ == old_c.instructions@ + spec_icmp_code(m, nt, pred, lhs, rhs)
    &&& new_c.bindings_map() == m.insert(
        result,
        Location::Reg(spec_icmp_dest(m, nt, pred, lhs, rhs)),
    )
    &&& new_c.next_temp == nt_after_rhs(m, nt, lhs, rhs) + spec_icmp_temps(pred)
    &&& new_c.labels@ == old_c.labels@
    &&& new_c.fixups@ == old_c.fixups@
    &&& new_c.stack_size == old_c.stack_size
    &&& new_c.function_name == old_c.function_name
}

/// Translate an integer comparison at width 32 or below; the result name is
/// bound to a register holding 0 or 1.
#[verifier::rlimit(100)]
pub fn translate_icmp(
    ctx: &mut TranslationContext,
    result: &str,
    pred: ICmpPredicate,
    ty: &Type,
    lhs: &Value,
    rhs: &Value,
) -> (r: TranslateResult<()>)
    requires
        old(ctx).wf(),
        old(ctx).instructions@.len() + 8 <= MAX_CODE_LEN,
    ensures
        final(ctx).wf(),
        spec_bit_width(*ty) <= 32 ==> {
            if spec_icmp_ok(old(ctx).bindings_map(), old(ctx).next_temp, pred, *lhs, *rhs) {
                r is Ok && icmp_post(*old(ctx), *final(ctx), pred, result@, *lhs, *rhs)
            } else {
                r is Err && failed_post(*old(ctx), *final(ctx))
            }
        },
        spec_bit_width(*ty) > 32 ==> r == TranslateResult::<()>::Err(
            TranslateError::UnsupportedWidth(spec_bit_width(*ty)),
        ) && *final(ctx) == *old(ctx),
{
    let bits = ty.bit_width();
    if bits > 32 {
        return Err(TranslateError::UnsupportedWidth(bits));
    }
    let a = match ctx.load_value(lhs) {
        Ok(reg) => reg,
        Err(e) => {
            return Err(e);
        },
    };
    let b = match ctx.load_value(rhs) {
        Ok(reg) => reg,
        Err(e) => {
            return Err(e);
        },
    };
    match pred {
        ICmpPredicate::Eq => {
            let tmp = match ctx.alloc_temp() {
                Ok(reg) => reg,
                Err(e) => {
                    return Err(e);
                },
            };
            let rd = match ctx.alloc_temp() {
                Ok(reg) => reg,
                Err(e) => {
                    return Err(e);
                },
            };
            ctx.emit(Instruction::Xor { rd: tmp, rs1: a, rs2: b });
            ctx.emit(Instruction::Sltiu { rd, rs1: tmp, imm: 1 });
            ctx.bind(result, Location::Reg(rd));
            proof {
                assert(ctx.instructions@ =~= old(ctx).instructions@ + spec_icmp_code(
                    old(ctx).bindings_map(),
                    old(ctx).next_temp,
                    pred,
                    *lhs,
                    *rhs,
                ));
            }
            Ok(())
        },
        ICmpPredicate::Ne => {
            let tmp = match ctx.alloc_temp() {
                Ok(reg) => reg,
                Err(e) => {
                    return Err(e);
                },
            };
            let rd = match ctx.alloc_temp() {
                Ok(reg) => reg,
                Err(e) => {
                    return Err(e);
                },
            };
            ctx.emit(Instruction::Xor { rd: tmp, rs1: a, rs2: b });
            ctx.emit(Instruction::Sltu { rd, rs1: Reg(REG_ZERO), rs2: tmp });
            ctx.bind(result, Location::Reg(rd));
            proof {
                assert(ctx.instructions@ =~= old(ctx).instructions@ + spec_icmp_code(
                    old(ctx).bindings_map(),
                    old(ctx).next_temp,
                    pred,
                    *lhs,
                    *rhs,
                ));
            }
            Ok(())
        },
        _ => {
            let rd = match ctx.alloc_temp() {
                Ok(reg) => reg,
                Err(e) => {
                    return Err(e);
                },
            };
            match pred {
                ICmpPredicate::Slt => {
                    ctx.emit(Instruction::Slt { rd, rs1: a, rs2: b });
                },
                ICmpPredicate::Ult => {
                    ctx.emit(Instruction::Sltu { rd, rs1: a, rs2: b });
                },
                ICmpPredicate::Sgt => {
                    ctx.emit(Instruction::Slt { rd, rs1: b, rs2: a });
                },
                ICmpPredicate::Ugt => {
                    ctx.emit(Instruction::Sltu { rd, rs1: b, rs2: a });
                },
                ICmpPredicate::Sle => {
                    ctx.emit(Instruction::Slt { rd, rs1: b, rs2: a });
                    ctx.emit(Instruction::Xori { rd, rs1: rd, imm: 1 });
                },
                ICmpPredicate::Sge => {
                    ctx.emit(Instruction::Slt { rd, rs1: a, rs2: b });
                    ctx.emit(Instruction::Xori { rd, rs1: rd, imm: 1 });
                },
                ICmpPredicate::Ule => {
                    ctx.emit(Instruction::Sltu { rd, rs1: b, rs2: a });
                    ctx.emit(Instruction::Xori { rd, rs1: rd, imm: 1 });
                },
                ICmpPredicate::Uge => {
                    ctx.emit(Instruction::Sltu { rd, rs1: a, rs2: b });
                    ctx.emit(Instruction::Xori { rd, rs1: rd, imm: 1 });
                },
                _ => {},
            }
            ctx.bind(result, Location::Reg(rd));
            proof {
                assert(ctx.instructions@ =~= old(ctx).instructions@ + spec_icmp_code(
                    old(ctx).bindings_map(),
                    old(ctx).next_temp,
                    pred,
                    *lhs,
                    *rhs,
                ));
            }
            Ok(())
        },
    }
}

} // verus!
