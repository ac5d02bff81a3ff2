//! Translation of memory instructions: stack allocation, loads and stores.
//!
//! Loads and stores are lowered by width: byte and half-word accesses use
//! the zero-extending narrow forms, words and pointers the word forms.
//! Wider accesses are unsupported at this level.

use vstd::prelude::*;
use crate::ir::{spec_bit_width, Type, Value};
use crate::target::{Instruction, Reg, REG_FP};
use super::arithmetic::{failed_post, nt_after_lhs, nt_after_rhs};
use super::context::{
    spec_temp_reg, Location, TranslationContext, MAX_CODE_LEN, MAX_FRAME, TEMP_POOL_END,
};
use super::{TranslateError, TranslateResult};

verus! {

broadcast use vstd::seq::group_seq_axioms;

/// Bytes a scalar type occupies on the frame.
pub open spec fn spec_scalar_size(ty: Type) -> int {
    match ty {
        Type::Int(w) => (w + 7) / 8,
        Type::Ptr => 4,
        _ => 0,
    }
}

/// Whether an alloca of this type translates: the type is a scalar of a
/// translatable width, a temporary remains for the address, and the frame
/// has room.
pub open spec fn spec_alloca_ok(nt: u8, stack: int, ty: Type) -> bool {
    &&& (ty is Int && spec_bit_width(ty) <= 128) || ty is Ptr
    &&& nt < TEMP_POOL_END
    &&& stack + spec_scalar_size(ty) <= MAX_FRAME
}

/// Translate a stack allocation: grow the frame by the type's byte size and
/// bind the result to a register holding the slot's address, frame-pointer
/// relative.
pub fn translate_alloca(ctx: &mut TranslationContext, result: &str, ty: &Type) -> (r:
    TranslateResult<()>)
    requires
        old(ctx).wf(),
        old(ctx).instructions@.len() + 2 <= MAX_CODE_LEN,
    ensures
        final(ctx).wf(),
        spec_alloca_ok(old(ctx).next_temp, old(ctx).stack_size as int, *ty) ==> {
            &&& r is Ok
            &&& final(ctx).stack_size == old(ctx).stack_size + spec_scalar_size(*ty)
            &&& final(ctx).instructions@ == old(ctx).instructions@.push(
                Instruction::Addi {
                    rd: spec_temp_reg(old(ctx).next_temp),
                    rs1: Reg(REG_FP),
                    imm: (-(old(ctx).stack_size + spec_scalar_size(*ty))) as i16,
                },
            )
            &&& final(ctx).bindings_map() == old(ctx).bindings_map().insert(
                result@,
                Location::Reg(spec_temp_reg(old(ctx).next_temp)),
            )
            &&& final(ctx).next_temp == old(ctx).next_temp + 1
            &&& final(ctx).labels@ == old(ctx).labels@
            &&& final(ctx).fixups@ == old(ctx).fixups@
            &&& final(ctx).function_name == old(ctx).function_name
        },
        !spec_alloca_ok(old(ctx).next_temp, old(ctx).stack_size as int, *ty) ==> r is Err
            && *final(ctx) == *old(ctx),
{
    let size: i32 = match ty {
        Type::Int(w) => {
            if *w > 128 {
                return Err(TranslateError::UnsupportedWidth(*w));
            }
            ((*w as i32) + 7) / 8
        },
        Type::Ptr => 4,
        _ => {
            return Err(TranslateError::UnsupportedInstruction(String::new()));
        },
    };
    if ctx.next_temp >= TEMP_POOL_END {
        return Err(TranslateError::OutOfRegisters);
    }
    if ctx.stack_size > MAX_FRAME - size {
        return Err(TranslateError::FrameTooLarge);
    }
    let rd = match ctx.alloc_temp() {
        Ok(reg) => reg,
        Err(e) => {
            return Err(e);
        },
    };
    let off = ctx.alloc_stack(size);
    ctx.emit(Instruction::Addi { rd, rs1: Reg(REG_FP), imm: off as i16 });
    ctx.bind(result, Location::Reg(rd));
    proof {
        assert(final(ctx).instructions@ =~= old(ctx).instructions@.push(
            Instruction::Addi {
                rd: spec_temp_reg(old(ctx).next_temp),
                rs1: Reg(REG_FP),
                imm: (-(old(ctx).stack_size + spec_scalar_size(*ty))) as i16,
            },
        ));
    }
    Ok(())
}

/// The load instruction for a width: zero-extending byte or half-word
/// forms below the word size, the word form at it.
pub open spec fn spec_load_instr(ty: Type, rd: Reg, addr: Reg) -> Instruction {
    if spec_bit_width(ty) <= 8 && ty is Int {
        Instruction::Lbu { rd, rs1: addr, imm: 0 }
    } else if spec_bit_width(ty) <= 16 && ty is Int {
        Instruction::Lhu { rd, rs1: addr, imm: 0 }
    } else {
        Instruction::Lw { rd, rs1: addr, imm: 0 }
    }
}

/// Whether a load translates: the width is at most a word, the address
/// materializes, and a temporary remains for the result.
pub open spec fn spec_mem_ok(
    m: Map<Seq<char>, Location>,
    nt: u8,
    ty: Type,
    ptr: Value,
) -> bool {
    &&& spec_bit_width(ty) <= 32
    &&& TranslationContext::spec_load_ok(m, nt, ptr)
    &&& nt_after_lhs(m, nt, ptr) < TEMP_POOL_END
}

/// Translate a load: materialize the address, then read through it into a
/// fresh temporary bound to the result.
pub fn translate_load(
    ctx: &mut TranslationContext,
    result: &str,
    ty: &Type,
    ptr: &Value,
) -> (r: TranslateResult<()>)
    requires
        old(ctx).wf(),
        old(ctx).instructions@.len() + 8 <= MAX_CODE_LEN,
    ensures
        final(ctx).wf(),
        spec_bit_width(*ty) > 32 ==> r == TranslateResult::<()>::Err(
            TranslateError::UnsupportedWidth(spec_bit_width(*ty)),
        ) && *final(ctx) == *old(ctx),
        spec_bit_width(*ty) <= 32 ==> {
            if spec_mem_ok(old(ctx).bindings_map(), old(ctx).next_temp, *ty, *ptr) {
                let m = old(ctx).bindings_map();
                let nt = old(ctx).next_temp;
                let dest = spec_temp_reg(nt_after_lhs(m, nt, *ptr));
                &&& r is Ok
                &&& final(ctx).instructions@ == old(ctx).instructions@
                    + TranslationContext::spec_load_code(m, nt, *ptr) + seq![
                    spec_load_instr(*ty, dest, TranslationContext::spec_load_reg(m, nt, *ptr)),
                ]
                &&& final(ctx).bindings_map() == m.insert(result@, Location::Reg(dest))
                &&& final(ctx).next_temp == nt_after_lhs(m, nt, *ptr) + 1
                &&& final(ctx).labels@ == old(ctx).labels@
                &&& final(ctx).fixups@ == old(ctx).fixups@
                &&& final(ctx).stack_size == old(ctx).stack_size
                &&& final(ctx).function_name == old(ctx).function_name
            } else {
                r is Err && failed_post(*old(ctx), *final(ctx))
            }
        },
{
    let bits = ty.bit_width();
    if bits > 32 {
        return Err(TranslateError::UnsupportedWidth(bits));
    }
    let addr = match ctx.load_value(ptr) {
        Ok(reg) => reg,
        Err(e) => {
            return Err(e);
        },
    };
    let rd = match ctx.alloc_temp() {
        Ok(reg) => reg,
        Err(e) => {
            return Err(e);
        },
    };
    let is_int = matches!(ty, Type::Int(_));
    if bits <= 8 && is_int {
        ctx.emit(Instruction::Lbu { rd, rs1: addr, imm: 0 });
    } else if bits <= 16 && is_int {
        ctx.emit(Instruction::Lhu { rd, rs1: addr, imm: 0 });
    } else {
        ctx.emit(Instruction::Lw { rd, rs1: addr, imm: 0 });
    }
    ctx.bind(result, Location::Reg(rd));
    proof {
        assert(final(ctx).instructions@ =~= old(ctx).instructions@
            + TranslationContext::spec_load_code(
            old(ctx).bindings_map(),
            old(ctx).next_temp,
            *ptr,
        ) + seq![
            spec_load_instr(
                *ty,
                spec_temp_reg(
                    nt_after_lhs(old(ctx).bindings_map(), old(ctx).next_temp, *ptr),
                ),
                TranslationContext::spec_load_reg(
                    old(ctx).bindings_map(),
                    old(ctx).next_temp,
                    *ptr,
                ),
            ),
        ]);
    }
    Ok(())
}

/// The store instruction for a width.
pub open spec fn spec_store_instr(ty: Type, addr: Reg, val: Reg) -> Instruction {
    if spec_bit_width(ty) <= 8 && ty is Int {
        Instruction::Sb { rs1: addr, rs2: val, imm: 0 }
    } else if spec_bit_width(ty) <= 16 && ty is Int {
        Instruction::Sh { rs1: addr, rs2: val, imm: 0 }
    } else {
        Instruction::Sw { rs1: addr, rs2: val, imm: 0 }
    }
}

/// Whether a store translates: the width fits a word and both the value and
/// the address materialize.
pub open spec fn spec_store_ok(
    m: Map<Seq<char>, Location>,
    nt: u8,
    value: Value,
    ptr: Value,
) -> bool {
    &&& TranslationContext::spec_load_ok(m, nt, value)
    &&& TranslationContext::spec_load_ok(m, nt_after_lhs(m, nt, value), ptr)
}

/// Translate a store: materialize the value and the address, then write
/// through the address. Stores bind no result.
pub fn translate_store(
    ctx: &mut TranslationContext,
    value: &Value,
    ty: &Type,
    ptr: &Value,
) -> (r: TranslateResult<()>)
    requires
        old(ctx).wf(),
        old(ctx).instructions@.len() + 8 <= MAX_CODE_LEN,
    ensures
        final(ctx).wf(),
        spec_bit_width(*ty) > 32 ==> r == TranslateResult::<()>::Err(
            TranslateError::UnsupportedWidth(spec_bit_width(*ty)),
        ) && *final(ctx) == *old(ctx),
        spec_bit_width(*ty) <= 32 ==> {
            if spec_store_ok(old(ctx).bindings_map(), old(ctx).next_temp, *value, *ptr) {
                let m = old(ctx).bindings_map();
                let nt = old(ctx).next_temp;
                let nt1 = nt_after_lhs(m, nt, *value);
                &&& r is Ok
                &&& final(ctx).instructions@ == old(ctx).instructions@
                    + TranslationContext::spec_load_code(m, nt, *value)
                    + TranslationContext::spec_load_code(m, nt1, *ptr) + seq![
                    spec_store_instr(
                        *ty,
                        TranslationContext::spec_load_reg(m, nt1, *ptr),
                        TranslationContext::spec_load_reg(m, nt, *value),
                    ),
                ]
                &&& final(ctx).bindings@ == old(ctx).bindings@
                &&& final(ctx).next_temp == nt_after_rhs(m, nt, *value, *ptr)
                &&& final(ctx).labels@ == old(ctx).labels@
                &&& final(ctx).fixups@ == old(ctx).fixups@
                &&& final(ctx).stack_size == old(ctx).stack_size
                &&& final(ctx).function_name == old(ctx).function_name
            } else {
                r is Err && failed_post(*old(ctx), *final(ctx))
            }
        },
{
    let bits = ty.bit_width();
    if bits > 32 {
        return Err(TranslateError::UnsupportedWidth(bits));
    }
    let val = match ctx.load_value(value) {
        Ok(reg) => reg,
        Err(e) => {
            return Err(e);
        },
    };
    let addr = match ctx.load_value(ptr) {
        Ok(reg) => reg,
        Err(e) => {
            return Err(e);
        },
    };
    let is_int = matches!(ty, Type::Int(_));
    if bits <= 8 && is_int {
        ctx.emit(Instruction::Sb { rs1: addr, rs2: val, imm: 0 });
    } else if bits <= 16 && is_int {
        ctx.emit(Instruction::Sh { rs1: addr, rs2: val, imm: 0 });
    } else {
        ctx.emit(Instruction::Sw { rs1: addr, rs2: val, imm: 0 });
    }
    proof {
        let m = old(ctx).bindings_map();
        let nt = old(ctx).next_temp;
        let nt1 = nt_after_lhs(m, nt, *value);
        assert(final(ctx).instructions@ =~= old(ctx).instructions@
            + TranslationContext::spec_load_code(m, nt, *value)
            + TranslationContext::spec_load_code(m, nt1, *ptr) + seq![
            spec_store_instr(
                *ty,
                TranslationContext::spec_load_reg(m, nt1, *ptr),
                TranslationContext::spec_load_reg(m, nt, *value),
            ),
        ]);
    }
    Ok(())
}

} // verus!
