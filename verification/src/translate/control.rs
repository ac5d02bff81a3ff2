//! Translation of control-flow instructions: return and branches.

use vstd::prelude::*;
use crate::ir::{spec_bit_width, Type, Value};
use crate::target::{Instruction, Reg, REG_A0, REG_ZERO};
use super::arithmetic::failed_post;
use super::context::{TranslationContext, MAX_CODE_LEN};
use super::{TranslateError, TranslateResult};

verus! {

broadcast use vstd::seq::group_seq_axioms;

/// Whether a returned value is handed back as a 64-bit pair: either it is
/// a local bound to a register pair, or a constant of a 64-bit type.
pub open spec fn spec_ret_wide(
    m: Map<Seq<char>, crate::translate::context::Location>,
    v: Value,
) -> bool {
    match v {
        Value::Local(n) => m.dom().contains(n@) && m[n@] is RegPair,
        Value::ConstInt { ty, .. } => spec_bit_width(ty) == 64,
        _ => false,
    }
}

/// Code of a successful return: materialize the value into a0 (a0 and a1
/// for a 64-bit value), then the function-return instruction.
pub open spec fn spec_ret_code(
    m: Map<Seq<char>, crate::translate::context::Location>,
    nt: u8,
    value: Option<Value>,
) -> Seq<Instruction> {
    match value {
        Option::None => seq![Instruction::Ret],
        Option::Some(v) => if spec_ret_wide(m, v) {
            let p = TranslationContext::spec_load_pair_regs(m, nt, v);
            TranslationContext::spec_load_pair_code(m, nt, v) + seq![
                Instruction::Add { rd: Reg(REG_A0), rs1: p.0, rs2: Reg(REG_ZERO) },
                Instruction::Add {
                    rd: Reg((REG_A0 + 1) as u8),
                    rs1: p.1,
                    rs2: Reg(REG_ZERO),
                },
                Instruction::Ret,
            ]
        } else {
            TranslationContext::spec_load_code(m, nt, v) + seq![
                Instruction::Add {
                    rd: Reg(REG_A0),
                    rs1: TranslationContext::spec_load_reg(m, nt, v),
                    rs2: Reg(REG_ZERO),
                },
                Instruction::Ret,
            ]
        },
    }
}

/// Temporaries a return consumes.
pub open spec fn spec_ret_temps(
    m: Map<Seq<char>, crate::translate::context::Location>,
    value: Option<Value>,
) -> int {
    match value {
        Option::None => 0int,
        Option::Some(v) => if spec_ret_wide(m, v) {
            TranslationContext::spec_load_pair_temps(v)
        } else {
            TranslationContext::spec_load_temps(m, v)
        },
    }
}

/// Whether a return translates.
pub open spec fn spec_ret_ok(
    m: Map<Seq<char>, crate::translate::context::Location>,
    nt: u8,
    value: Option<Value>,
) -> bool {
    match value {
        Option::None => true,
        Option::Some(v) => if spec_ret_wide(m, v) {
            TranslationContext::spec_load_pair_ok(m, nt, v)
        } else {
            TranslationContext::spec_load_ok(m, nt, v)
        },
    }
}

/// Translate a return: a void return emits only the return instruction; a
/// valued return moves the value into the return registers first.
pub fn translate_ret(
    ctx: &mut TranslationContext,
    value: &Option<Value>,
) -> (r: TranslateResult<()>)
    requires
        old(ctx).wf(),
        old(ctx).instructions@.len() + 8 <= MAX_CODE_LEN,
    ensures
        final(ctx).wf(),
        spec_ret_ok(old(ctx).bindings_map(), old(ctx).next_temp, *value) ==> {
            &&& r is Ok
            &&& final(ctx).instructions@ == old(ctx).instructions@ + spec_ret_code(
                old(ctx).bindings_map(),
                old(ctx).next_temp,
                *value,
            )
            &&& final(ctx).bindings@ == old(ctx).bindings@
            &&& final(ctx).next_temp == old(ctx).next_temp + spec_ret_temps(
                old(ctx).bindings_map(),
                *value,
            )
            &&& final(ctx).labels@ == old(ctx).labels@
            &&& final(ctx).fixups@ == old(ctx).fixups@
            &&& final(ctx).stack_size == old(ctx).stack_size
            &&& final(ctx).function_name == old(ctx).function_name
        },
        !spec_ret_ok(old(ctx).bindings_map(), old(ctx).next_temp, *value) ==> r is Err
            && failed_post(*old(ctx), *final(ctx)),
{
    match value {
        Option::None => {
            ctx.emit(Instruction::Ret);
            proof {
                assert(ctx.instructions@ =~= old(ctx).instructions@ + spec_ret_code(
                    old(ctx).bindings_map(),
                    old(ctx).next_temp,
                    *value,
                ));
            }
            Ok(())
        },
        Option::Some(v) => {
            let wide: bool = match v {
                Value::Local(n) => match ctx.get_location(n.as_str()) {
                    Ok(l) => matches!(l, crate::translate::context::Location::RegPair { .. }),
                    Err(_) => false,
                },
                Value::ConstInt { ty, .. } => ty.bit_width() == 64,
                _ => false,
            };
            if wide {
                let (lo, hi) = match ctx.load_value_pair(v) {
                    Ok(p) => p,
                    Err(e) => {
                        return Err(e);
                    },
                };
                ctx.emit(Instruction::Add { rd: Reg(REG_A0), rs1: lo, rs2: Reg(REG_ZERO) });
                ctx.emit(Instruction::Add { rd: Reg(REG_A0 + 1), rs1: hi, rs2: Reg(REG_ZERO) });
                ctx.emit(Instruction::Ret);
                proof {
                    assert(ctx.instructions@ =~= old(ctx).instructions@ + spec_ret_code(
                        old(ctx).bindings_map(),
                        old(ctx).next_temp,
                        *value,
                    ));
                }
                Ok(())
            } else {
                let reg = match ctx.load_value(v) {
                    Ok(reg) => reg,
                    Err(e) => {
                        return Err(e);
                    },
                };
                ctx.emit(Instruction::Add { rd: Reg(REG_A0), rs1: reg, rs2: Reg(REG_ZERO) });
                ctx.emit(Instruction::Ret);
                proof {
                    assert(ctx.instructions@ =~= old(ctx).instructions@ + spec_ret_code(
                        old(ctx).bindings_map(),
                        old(ctx).next_temp,
                        *value,
                    ));
                }
                Ok(())
            }
        },
    }
}

/// Translate an unconditional branch: an unresolved jump plus a fixup for
/// its label.
pub fn translate_br(ctx: &mut TranslationContext, dest: &str) -> (r: TranslateResult<()>)
    requires
        old(ctx).wf(),
        old(ctx).instructions@.len() + 2 <= MAX_CODE_LEN,
    ensures
        final(ctx).wf(),
        r is Ok,
        final(ctx).instructions@ == old(ctx).instructions@.push(
            Instruction::Jal { rd: Reg(REG_ZERO), offset: 0 },
        ),
        final(ctx).fixups@.len() == old(ctx).fixups@.len() + 1,
        final(ctx).fixups@.drop_last() == old(ctx).fixups@,
        final(ctx).fixups@.last().0 == old(ctx).instructions@.len(),
        final(ctx).fixups@.last().1@ == dest@,
        final(ctx).bindings@ == old(ctx).bindings@,
        final(ctx).labels@ == old(ctx).labels@,
        final(ctx).next_temp == old(ctx).next_temp,
        final(ctx).stack_size == old(ctx).stack_size,
        final(ctx).function_name == old(ctx).function_name,
{
    ctx.emit(Instruction::Jal { rd: Reg(REG_ZERO), offset: 0 });
    ctx.add_fixup(dest);
    Ok(())
}

/// Code of a successful conditional branch, after the condition is loaded:
/// branch if the condition register is non-zero, else fall through to an
/// unconditional jump. Both offsets await fixup resolution.
pub open spec fn spec_condbr_tail(cond_reg: Reg) -> Seq<Instruction> {
    seq![
        Instruction::Bne { rs1: cond_reg, rs2: Reg(REG_ZERO), offset: 0 },
        Instruction::Jal { rd: Reg(REG_ZERO), offset: 0 },
    ]
}

/// Translate a conditional branch: materialize the condition, branch to the
/// true label when it is non-zero, and jump to the false label otherwise.
/// Two fixups are recorded, for the branch and for the jump.
pub fn translate_condbr(
    ctx: &mut TranslationContext,
    cond: &Value,
    true_dest: &str,
    false_dest: &str,
) -> (r: TranslateResult<()>)
    requires
        old(ctx).wf(),
        old(ctx).instructions@.len() + 8 <= MAX_CODE_LEN,
    ensures
        final(ctx).wf(),
        TranslationContext::spec_load_ok(old(ctx).bindings_map(), old(ctx).next_temp, *cond)
            ==> {
            &&& r is Ok
            &&& final(ctx).instructions@ == old(ctx).instructions@
                + TranslationContext::spec_load_code(
                old(ctx).bindings_map(),
                old(ctx).next_temp,
                *cond,
            ) + spec_condbr_tail(
                TranslationContext::spec_load_reg(
                    old(ctx).bindings_map(),
                    old(ctx).next_temp,
                    *cond,
                ),
            )
            &&& final(ctx).fixups@.len() == old(ctx).fixups@.len() + 2
            &&& final(ctx).fixups@[final(ctx).fixups@.len() - 2].0
                == final(ctx).instructions@.len() - 2
            &&& final(ctx).fixups@[final(ctx).fixups@.len() - 2].1@ == true_dest@
            &&& final(ctx).fixups@.last().0 == final(ctx).instructions@.len() - 1
            &&& final(ctx).fixups@.last().1@ == false_dest@
            &&& final(ctx).fixups@.subrange(0, old(ctx).fixups@.len() as int)
                == old(ctx).fixups@
            &&& final(ctx).bindings@ == old(ctx).bindings@
            &&& final(ctx).next_temp == old(ctx).next_temp
                + TranslationContext::spec_load_temps(old(ctx).bindings_map(), *cond)
            &&& final(ctx).labels@ == old(ctx).labels@
            &&& final(ctx).stack_size == old(ctx).stack_size
            &&& final(ctx).function_name == old(ctx).function_name
        },
        !TranslationContext::spec_load_ok(old(ctx).bindings_map(), old(ctx).next_temp, *cond)
            ==> r is Err && failed_post(*old(ctx), *final(ctx)),
{
    let cond_reg = match ctx.load_value(cond) {
        Ok(reg) => reg,
        Err(e) => {
            return Err(e);
        },
    };
    ctx.emit(Instruction::Bne { rs1: cond_reg, rs2: Reg(REG_ZERO), offset: 0 });
    ctx.add_fixup(true_dest);
    ctx.emit(Instruction::Jal { rd: Reg(REG_ZERO), offset: 0 });
    ctx.add_fixup(false_dest);
    proof {
        assert(ctx.instructions@ =~= old(ctx).instructions@
            + TranslationContext::spec_load_code(
            old(ctx).bindings_map(),
            old(ctx).next_temp,
            *cond,
        ) + spec_condbr_tail(
            TranslationContext::spec_load_reg(
                old(ctx).bindings_map(),
                old(ctx).next_temp,
                *cond,
            ),
        ));
        assert(ctx.fixups@.subrange(0, old(ctx).fixups@.len() as int) =~= old(ctx).fixups@);
    }
    Ok(())
}

} // verus!
