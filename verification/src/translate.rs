//! Lowering of parsed IR modules into target programs.

pub mod arithmetic;
pub mod compare;
pub mod context;
pub mod control;
pub mod memory;
pub mod types;

use vstd::prelude::*;
use crate::ir::instruction::Instruction;
use crate::ir::{spec_bit_width, spec_supported, BasicBlock, Function, Module, Type};
use crate::target::Program;
use arithmetic::{
    nt_after_rhs, nt64_after_rhs, spec_add64_code, spec_add64_dest, spec_add64_ok,
    spec_binop32_code, spec_binop32_dest, spec_binop32_ok, spec_mul64_code, spec_mul64_dest,
    spec_mul64_ok, spec_sub64_code, spec_sub64_dest, spec_sub64_ok, BinOp,
};
use compare::{spec_icmp_code, spec_icmp_dest, spec_icmp_ok, spec_icmp_temps};
use context::{
    spec_temp_reg, Location, TranslationContext, FIRST_TEMP, MAX_CODE_LEN,
};
use control::{spec_condbr_tail, spec_ret_code, spec_ret_ok, spec_ret_temps};
use crate::target::{Reg, REG_ZERO};
use memory::{
    spec_alloca_ok, spec_load_instr, spec_mem_ok, spec_scalar_size, spec_store_instr,
    spec_store_ok,
};
use crate::ir::Value;

verus! {

broadcast use vstd::seq::group_seq_axioms;

/// Failure during translation of a function.
#[derive(Debug, PartialEq)]
pub enum TranslateError {
    /// An SSA use with no visible definition.
    UndefinedValue(String),
    /// A branch to a label that is not defined in the function.
    InvalidBranch(String),
    /// An operation at an integer width outside the translatable set.
    UnsupportedWidth(u32),
    /// An instruction outside the translatable subset.
    UnsupportedInstruction(String),
    /// A type that cannot be materialized where it was used.
    UnsupportedType(Type),
    /// The naive temporary pool was exhausted during pre-allocation.
    OutOfRegisters,
    /// A block label was started twice within one function.
    DuplicateBlock(String),
    /// The stack frame would exceed the target's maximum.
    FrameTooLarge,
}

pub type TranslateResult<T> = Result<T, TranslateError>;


/// An element outside the supported subset, found before translation.
#[derive(Debug, PartialEq)]
pub enum CompatError {
    /// The function's return type is unsupported.
    UnsupportedReturnType { function: String },
    /// A parameter's type is unsupported.
    UnsupportedParamType { function: String, index: usize },
    /// An instruction mentions an unsupported type.
    UnsupportedInstructionType { function: String, block: String, index: usize },
}

/// Types embedded in one instruction are all supported.
pub open spec fn spec_instr_compatible(i: Instruction) -> bool {
    match i {
        Instruction::Add { ty, .. } => spec_supported(ty),
        Instruction::Sub { ty, .. } => spec_supported(ty),
        Instruction::Mul { ty, .. } => spec_supported(ty),
        Instruction::UDiv { ty, .. } => spec_supported(ty),
        Instruction::SDiv { ty, .. } => spec_supported(ty),
        Instruction::URem { ty, .. } => spec_supported(ty),
        Instruction::SRem { ty, .. } => spec_supported(ty),
        Instruction::And { ty, .. } => spec_supported(ty),
        Instruction::Or { ty, .. } => spec_supported(ty),
        Instruction::Xor { ty, .. } => spec_supported(ty),
        Instruction::Shl { ty, .. } => spec_supported(ty),
        Instruction::LShr { ty, .. } => spec_supported(ty),
        Instruction::AShr { ty, .. } => spec_supported(ty),
        Instruction::ICmp { ty, .. } => spec_supported(ty),
        Instruction::Load { ty, .. } => spec_supported(ty),
        Instruction::Store { ty, .. } => spec_supported(ty),
        Instruction::Alloca { ty, .. } => spec_supported(ty),
        Instruction::Call { ret_ty, .. } => spec_supported(ret_ty),
        Instruction::Phi { ty, .. } => spec_supported(ty),
        Instruction::GetElementPtr { ty, .. } => spec_supported(ty),
        Instruction::Ret { .. } => true,
        Instruction::Br { .. } => true,
        Instruction::CondBr { .. } => true,
    }
}

fn instr_compatible(i: &Instruction) -> (r: bool)
    ensures
        r == spec_instr_compatible(*i),
{
    match i {
        Instruction::Add { ty, .. } => ty.is_supported(),
        Instruction::Sub { ty, .. } => ty.is_supported(),
        Instruction::Mul { ty, .. } => ty.is_supported(),
        Instruction::UDiv { ty, .. } => ty.is_supported(),
        Instruction::SDiv { ty, .. } => ty.is_supported(),
        Instruction::URem { ty, .. } => ty.is_supported(),
        Instruction::SRem { ty, .. } => ty.is_supported(),
        Instruction::And { ty, .. } => ty.is_supported(),
        Instruction::Or { ty, .. } => ty.is_supported(),
        Instruction::Xor { ty, .. } => ty.is_supported(),
        Instruction::Shl { ty, .. } => ty.is_supported(),
        Instruction::LShr { ty, .. } => ty.is_supported(),
        Instruction::AShr { ty, .. } => ty.is_supported(),
        Instruction::ICmp { ty, .. } => ty.is_supported(),
        Instruction::Load { ty, .. } => ty.is_supported(),
        Instruction::Store { ty, .. } => ty.is_supported(),
        Instruction::Alloca { ty, .. } => ty.is_supported(),
        Instruction::Call { ret_ty, .. } => ret_ty.is_supported(),
        Instruction::Phi { ty, .. } => ty.is_supported(),
        Instruction::GetElementPtr { ty, .. } => ty.is_supported(),
        Instruction::Ret { .. } => true,
        Instruction::Br { .. } => true,
        Instruction::CondBr { .. } => true,
    }
}

/// One block mentions only supported types.
pub open spec fn spec_block_compatible(b: BasicBlock) -> bool {
    forall|k: int|
        0 <= k < b.instructions@.len() ==> spec_instr_compatible(#[trigger] b.instructions@[k])
}

/// One function mentions only supported types: its return type, every
/// parameter, and every instruction.
pub open spec fn spec_fn_compatible(f: Function) -> bool {
    &&& spec_supported(f.ret_ty)
    &&& forall|j: int| 0 <= j < f.params@.len() ==> spec_supported(#[trigger] f.params@[j].1)
    &&& forall|j: int| 0 <= j < f.blocks@.len() ==> spec_block_compatible(#[trigger] f.blocks@[j])
}

/// A module lies in the supported subset.
pub open spec fn spec_module_compatible(m: Module) -> bool {
    forall|i: int| 0 <= i < m.functions@.len() ==> spec_fn_compatible(#[trigger] m.functions@[i])
}

/// Check that every type the module mentions is in the supported subset,
/// before translation wastes work. Reports the first offending element.
pub fn check_module_compatibility(module: &Module) -> (r: Result<(), CompatError>)
    ensures
        r is Ok <==> spec_module_compatible(*module),
{
    let mut i: usize = 0;
    while i < module.functions.len()
        invariant
            0 <= i <= module.functions@.len(),
            forall|x: int|
                0 <= x < i ==> spec_fn_compatible(#[trigger] module.functions@[x]),
        decreases module.functions@.len() - i,
    {
        let f = &module.functions[i];
        if !f.ret_ty.is_supported() {
            return Err(CompatError::UnsupportedReturnType { function: f.name.clone() });
        }
        let mut j: usize = 0;
        while j < f.params.len()
            invariant
                0 <= i < module.functions@.len(),
                *f == module.functions@[i as int],
                0 <= j <= f.params@.len(),
                forall|x: int| 0 <= x < j ==> spec_supported(#[trigger] f.params@[x].1),
            decreases f.params@.len() - j,
        {
            if !f.params[j].1.is_supported() {
                proof {
                    assert(!spec_fn_compatible(module.functions@[i as int]));
                }
                return Err(CompatError::UnsupportedParamType {
                    function: f.name.clone(),
                    index: j,
                });
            }
            j = j + 1;
        }
        let mut b: usize = 0;
        while b < f.blocks.len()
            invariant
                0 <= i < module.functions@.len(),
                *f == module.functions@[i as int],
                0 <= b <= f.blocks@.len(),
                forall|x: int| 0 <= x < b ==> spec_block_compatible(#[trigger] f.blocks@[x]),
            decreases f.blocks@.len() - b,
        {
            let blk = &f.blocks[b];
            let mut k: usize = 0;
            while k < blk.instructions.len()
                invariant
                    0 <= i < module.functions@.len(),
                    *f == module.functions@[i as int],
                    0 <= b < f.blocks@.len(),
                    *blk == f.blocks@[b as int],
                    0 <= k <= blk.instructions@.len(),
                    forall|x: int|
                        0 <= x < k ==> spec_instr_compatible(#[trigger] blk.instructions@[x]),
                decreases blk.instructions@.len() - k,
            {
                if !instr_compatible(&blk.instructions[k]) {
                    proof {
                        assert(!spec_block_compatible(f.blocks@[b as int]));
                        assert(!spec_fn_compatible(module.functions@[i as int]));
                    }
                    return Err(CompatError::UnsupportedInstructionType {
                        function: f.name.clone(),
                        block: blk.name.clone(),
                        index: k,
                    });
                }
                k = k + 1;
            }
            b = b + 1;
        }
        i = i + 1;
    }
    Ok(())
}

/// Every block of the function ends with exactly one terminator: it is
/// non-empty, its last instruction is a return or branch, and no earlier
/// instruction is.
pub open spec fn spec_blocks_well_terminated(f: Function) -> bool {
    forall|j: int|
        0 <= j < f.blocks@.len() ==> spec_block_well_terminated(#[trigger] f.blocks@[j])
}

/// One block ends with exactly one terminator.
pub open spec fn spec_block_well_terminated(b: BasicBlock) -> bool {
    &&& b.instructions@.len() > 0
    &&& b.instructions@.last().spec_is_terminator()
    &&& forall|k: int|
        0 <= k < b.instructions@.len() - 1 ==> !(#[trigger] b.instructions@[k]).spec_is_terminator()
}

/// Every block of every function ends with exactly one terminator.
pub open spec fn spec_module_well_terminated(m: Module) -> bool {
    forall|i: int|
        0 <= i < m.functions@.len() ==> spec_blocks_well_terminated(#[trigger] m.functions@[i])
}

/// Decide whether every block of `f` ends with exactly one terminator.
pub fn check_block_terminators(f: &Function) -> (r: bool)
    ensures
        r == spec_blocks_well_terminated(*f),
{
    let mut j: usize = 0;
    while j < f.blocks.len()
        invariant
            0 <= j <= f.blocks@.len(),
            forall|x: int| 0 <= x < j ==> spec_block_well_terminated(#[trigger] f.blocks@[x]),
        decreases f.blocks@.len() - j,
    {
        let blk = &f.blocks[j];
        let n = blk.instructions.len();
        if n == 0 {
            proof {
                assert(!spec_block_well_terminated(f.blocks@[j as int]));
            }
            return false;
        }
        if !blk.instructions[n - 1].is_terminator() {
            proof {
                assert(!spec_block_well_terminated(f.blocks@[j as int]));
            }
            return false;
        }
        let mut k: usize = 0;
        while k < n - 1
            invariant
                0 <= j < f.blocks@.len(),
                *blk == f.blocks@[j as int],
                n == blk.instructions@.len(),
                n > 0,
                0 <= k <= n - 1,
                forall|x: int|
                    0 <= x < k ==> !(#[trigger] blk.instructions@[x]).spec_is_terminator(),
            decreases n - 1 - k,
        {
            if blk.instructions[k].is_terminator() {
                proof {
                    assert(!spec_block_well_terminated(f.blocks@[j as int]));
                }
                return false;
            }
            k = k + 1;
        }
        j = j + 1;
    }
    true
}

/// Largest instruction index at which the driver will still hand an
/// instruction to a translator.
pub const CODE_BUDGET: u32 = 0x0FFF_FFE0;


/// Mathematical state of one function's translation: the binding map, the
/// temporary cursor, the frame size, the label map, the recorded fixups
/// (instruction index and label text) and the emitted code.
#[verifier::ext_equal]
pub struct TransState {
    pub m: Map<Seq<char>, Location>,
    pub nt: u8,
    pub stack: int,
    pub labels: Map<Seq<char>, u32>,
    pub fixups: Seq<(int, Seq<char>)>,
    pub code: Seq<crate::target::Instruction>,
}

/// The fixup list of a context denotes the fixup sequence of a state.
pub open spec fn fixups_match(fx: Seq<(usize, String)>, fv: Seq<(int, Seq<char>)>) -> bool {
    &&& fx.len() == fv.len()
    &&& forall|i: int|
        0 <= i < fx.len() ==> (#[trigger] fx[i]).0 as int == fv[i].0 && fx[i].1@ == fv[i].1
}

/// The mathematical state a context denotes.
pub open spec fn ctx_state(c: TranslationContext) -> TransState {
    TransState {
        m: c.bindings_map(),
        nt: c.next_temp,
        stack: c.stack_size as int,
        labels: c.labels_map(),
        fixups: c.fixups@.map_values(|p: (usize, String)| (p.0 as int, p.1@)),
        code: c.instructions@,
    }
}

/// A context realizes a mathematical state.
pub open spec fn ctx_matches(c: TranslationContext, st: TransState) -> bool {
    &&& c.bindings_map() == st.m
    &&& c.next_temp == st.nt
    &&& c.stack_size as int == st.stack
    &&& c.labels_map() == st.labels
    &&& fixups_match(c.fixups@, st.fixups)
    &&& c.instructions@ == st.code
}

/// A context that realizes a state denotes it.
proof fn lemma_ctx_state(c: TranslationContext, st: TransState)
    requires
        ctx_matches(c, st),
    ensures
        ctx_state(c) == st,
{
    assert(st.fixups =~= c.fixups@.map_values(|p: (usize, String)| (p.0 as int, p.1@)));
    assert(ctx_state(c) =~= st);
}

/// State after a 32-bit two-operand step.
pub open spec fn step_binop32(
    st: TransState,
    op: BinOp,
    result: String,
    lhs: Value,
    rhs: Value,
) -> Option<TransState> {
    if spec_binop32_ok(st.m, st.nt, lhs, rhs) {
        Some(
            TransState {
                m: st.m.insert(
                    result@,
                    Location::Reg(spec_binop32_dest(st.m, st.nt, lhs, rhs)),
                ),
                nt: (nt_after_rhs(st.m, st.nt, lhs, rhs) + 1) as u8,
                code: st.code + spec_binop32_code(st.m, st.nt, op, lhs, rhs),
                ..st
            },
        )
    } else {
        None
    }
}

/// State after one translated instruction, or nothing when the instruction
/// is not translatable in this state.
#[verifier::opaque]
pub open spec fn spec_step_instr(st: TransState, ins: Instruction) -> Option<TransState> {
    match ins {
        Instruction::Add { result, ty, lhs, rhs } => if spec_bit_width(ty) <= 32 {
            step_binop32(st, BinOp::Add, result, lhs, rhs)
        } else if spec_bit_width(ty) == 64 {
            if spec_add64_ok(st.m, st.nt, lhs, rhs) {
                Some(
                    TransState {
                        m: st.m.insert(
                            result@,
                            Location::RegPair {
                                lo: spec_add64_dest(st.m, st.nt, lhs, rhs).0,
                                hi: spec_add64_dest(st.m, st.nt, lhs, rhs).1,
                            },
                        ),
                        nt: (nt64_after_rhs(lhs, rhs, st.nt) + 4) as u8,
                        code: st.code + spec_add64_code(st.m, st.nt, lhs, rhs),
                        ..st
                    },
                )
            } else {
                None
            }
        } else {
            None
        },
        Instruction::Sub { result, ty, lhs, rhs } => if spec_bit_width(ty) <= 32 {
            step_binop32(st, BinOp::Sub, result, lhs, rhs)
        } else if spec_bit_width(ty) == 64 {
            if spec_sub64_ok(st.m, st.nt, lhs, rhs) {
                Some(
                    TransState {
                        m: st.m.insert(
                            result@,
                            Location::RegPair {
                                lo: spec_sub64_dest(st.m, st.nt, lhs, rhs).0,
                                hi: spec_sub64_dest(st.m, st.nt, lhs, rhs).1,
                            },
                        ),
                        nt: (nt64_after_rhs(lhs, rhs, st.nt) + 4) as u8,
                        code: st.code + spec_sub64_code(st.m, st.nt, lhs, rhs),
                        ..st
                    },
                )
            } else {
                None
            }
        } else {
            None
        },
        Instruction::Mul { result, ty, lhs, rhs } => if spec_bit_width(ty) <= 32 {
            step_binop32(st, BinOp::Mul, result, lhs, rhs)
        } else if spec_bit_width(ty) == 64 {
            if spec_mul64_ok(st.m, st.nt, lhs, rhs) {
                Some(
                    TransState {
                        m: st.m.insert(
                            result@,
                            Location::RegPair {
                                lo: spec_mul64_dest(st.m, st.nt, lhs, rhs).0,
                                hi: spec_mul64_dest(st.m, st.nt, lhs, rhs).1,
                            },
                        ),
                        nt: (nt64_after_rhs(lhs, rhs, st.nt) + 6) as u8,
                        code: st.code + spec_mul64_code(st.m, st.nt, lhs, rhs),
                        ..st
                    },
                )
            } else {
                None
            }
        } else {
            None
        },
        Instruction::UDiv { result, ty, lhs, rhs } => if spec_bit_width(ty) <= 32 {
            step_binop32(st, BinOp::Divu, result, lhs, rhs)
        } else {
            None
        },
        Instruction::SDiv { result, ty, lhs, rhs } => if spec_bit_width(ty) <= 32 {
            step_binop32(st, BinOp::Div, result, lhs, rhs)
        } else {
            None
        },
        Instruction::URem { result, ty, lhs, rhs } => if spec_bit_width(ty) <= 32 {
            step_binop32(st, BinOp::Remu, result, lhs, rhs)
        } else {
            None
        },
        Instruction::SRem { result, ty, lhs, rhs } => if spec_bit_width(ty) <= 32 {
            step_binop32(st, BinOp::Rem, result, lhs, rhs)
        } else {
            None
        },
        Instruction::And { result, ty, lhs, rhs } => if spec_bit_width(ty) <= 32 {
            step_binop32(st, BinOp::And, result, lhs, rhs)
        } else {
            None
        },
        Instruction::Or { result, ty, lhs, rhs } => if spec_bit_width(ty) <= 32 {
            step_binop32(st, BinOp::Or, result, lhs, rhs)
        } else {
            None
        },
        Instruction::Xor { result, ty, lhs, rhs } => if spec_bit_width(ty) <= 32 {
            step_binop32(st, BinOp::Xor, result, lhs, rhs)
        } else {
            None
        },
        Instruction::Shl { result, ty, lhs, rhs } => if spec_bit_width(ty) <= 32 {
            step_binop32(st, BinOp::Sll, result, lhs, rhs)
        } else {
            None
        },
        Instruction::LShr { result, ty, lhs, rhs } => if spec_bit_width(ty) <= 32 {
            step_binop32(st, BinOp::Srl, result, lhs, rhs)
        } else {
            None
        },
        Instruction::AShr { result, ty, lhs, rhs } => if spec_bit_width(ty) <= 32 {
            step_binop32(st, BinOp::Sra, result, lhs, rhs)
        } else {
            None
        },
        Instruction::ICmp { result, pred, ty, lhs, rhs } => if spec_bit_width(ty) <= 32 {
            if spec_icmp_ok(st.m, st.nt, pred, lhs, rhs) {
                Some(
                    TransState {
                        m: st.m.insert(
                            result@,
                            Location::Reg(spec_icmp_dest(st.m, st.nt, pred, lhs, rhs)),
                        ),
                        nt: (nt_after_rhs(st.m, st.nt, lhs, rhs) + spec_icmp_temps(pred)) as u8,
                        code: st.code + spec_icmp_code(st.m, st.nt, pred, lhs, rhs),
                        ..st
                    },
                )
            } else {
                None
            }
        } else {
            None
        },
        Instruction::Load { result, ty, ptr } => if spec_bit_width(ty) <= 32 {
            if spec_mem_ok(st.m, st.nt, ty, ptr) {
                Some(
                    TransState {
                        m: st.m.insert(
                            result@,
                            Location::Reg(
                                spec_temp_reg(arithmetic::nt_after_lhs(st.m, st.nt, ptr)),
                            ),
                        ),
                        nt: (arithmetic::nt_after_lhs(st.m, st.nt, ptr) + 1) as u8,
                        code: st.code + TranslationContext::spec_load_code(st.m, st.nt, ptr)
                            + seq![
                            spec_load_instr(
                                ty,
                                spec_temp_reg(arithmetic::nt_after_lhs(st.m, st.nt, ptr)),
                                TranslationContext::spec_load_reg(st.m, st.nt, ptr),
                            ),
                        ],
                        ..st
                    },
                )
            } else {
                None
            }
        } else {
            None
        },
        Instruction::Store { value, ty, ptr } => if spec_bit_width(ty) <= 32 {
            if spec_store_ok(st.m, st.nt, value, ptr) {
                Some(
                    TransState {
                        nt: nt_after_rhs(st.m, st.nt, value, ptr),
                        code: st.code + TranslationContext::spec_load_code(st.m, st.nt, value)
                            + TranslationContext::spec_load_code(
                            st.m,
                            arithmetic::nt_after_lhs(st.m, st.nt, value),
                            ptr,
                        ) + seq![
                            spec_store_instr(
                                ty,
                                TranslationContext::spec_load_reg(
                                    st.m,
                                    arithmetic::nt_after_lhs(st.m, st.nt, value),
                                    ptr,
                                ),
                                TranslationContext::spec_load_reg(st.m, st.nt, value),
                            ),
                        ],
                        ..st
                    },
                )
            } else {
                None
            }
        } else {
            None
        },
        Instruction::Alloca { result, ty } => if spec_alloca_ok(st.nt, st.stack, ty) {
            Some(
                TransState {
                    m: st.m.insert(result@, Location::Reg(spec_temp_reg(st.nt))),
                    nt: (st.nt + 1) as u8,
                    stack: st.stack + spec_scalar_size(ty),
                    code: st.code.push(
                        crate::target::Instruction::Addi {
                            rd: spec_temp_reg(st.nt),
                            rs1: Reg(crate::target::REG_FP),
                            imm: (-(st.stack + spec_scalar_size(ty))) as i16,
                        },
                    ),
                    ..st
                },
            )
        } else {
            None
        },
        Instruction::Ret { value } => if spec_ret_ok(st.m, st.nt, value) {
            Some(
                TransState {
                    nt: (st.nt + spec_ret_temps(st.m, value)) as u8,
                    code: st.code + spec_ret_code(st.m, st.nt, value),
                    ..st
                },
            )
        } else {
            None
        },
        Instruction::Br { dest } => Some(
            TransState {
                code: st.code.push(
                    crate::target::Instruction::Jal { rd: Reg(REG_ZERO), offset: 0 },
                ),
                fixups: st.fixups.push((st.code.len() as int, dest@)),
                ..st
            },
        ),
        Instruction::CondBr { cond, true_dest, false_dest } => if
            TranslationContext::spec_load_ok(st.m, st.nt, cond) {
            let loaded = st.code + TranslationContext::spec_load_code(st.m, st.nt, cond);
            Some(
                TransState {
                    nt: (st.nt + TranslationContext::spec_load_temps(st.m, cond)) as u8,
                    code: loaded + spec_condbr_tail(
                        TranslationContext::spec_load_reg(st.m, st.nt, cond),
                    ),
                    fixups: st.fixups.push((loaded.len() as int, true_dest@)).push(
                        (loaded.len() as int + 1, false_dest@),
                    ),
                    ..st
                },
            )
        } else {
            None
        },
        _ => None,
    }
}

/// State after a run of instructions, each preceded by the driver's budget
/// check.
pub open spec fn spec_step_instrs(st: TransState, instrs: Seq<Instruction>) -> Option<TransState>
    decreases instrs.len(),
{
    if instrs.len() == 0 {
        Some(st)
    } else if st.code.len() > CODE_BUDGET {
        None
    } else {
        match spec_step_instr(st, instrs[0]) {
            None => None,
            Some(st1) => spec_step_instrs(st1, instrs.drop_first()),
        }
    }
}

/// State after one block: its label is recorded at the current code index
/// (a repeated label does not translate), then its instructions run.
pub open spec fn spec_step_block(st: TransState, b: BasicBlock) -> Option<TransState> {
    if st.code.len() > CODE_BUDGET {
        None
    } else if st.labels.dom().contains(b.name@) {
        None
    } else {
        spec_step_instrs(
            TransState { labels: st.labels.insert(b.name@, st.code.len() as u32), ..st },
            b.instructions@,
        )
    }
}

/// State after a run of blocks.
pub open spec fn spec_step_blocks(st: TransState, blocks: Seq<BasicBlock>) -> Option<TransState>
    decreases blocks.len(),
{
    if blocks.len() == 0 {
        Some(st)
    } else {
        match spec_step_block(st, blocks[0]) {
            None => None,
            Some(st1) => spec_step_blocks(st1, blocks.drop_first()),
        }
    }
}

/// Bindings of the first `n` parameters to their ABI locations.
pub open spec fn spec_bind_params(params: Seq<(String, Type)>, n: int) -> Map<Seq<char>, Location>
    decreases n,
{
    if n <= 0 {
        Map::empty()
    } else {
        spec_bind_params(params, n - 1).insert(
            params[n - 1].0@,
            TranslationContext::spec_param_loc(n - 1),
        )
    }
}

/// The state a function's translation starts from: parameters bound, no
/// code, labels, fixups or frame yet.
pub open spec fn spec_init_state(f: Function) -> TransState {
    TransState {
        m: spec_bind_params(f.params@, f.params@.len() as int),
        nt: FIRST_TEMP,
        stack: 0,
        labels: Map::empty(),
        fixups: Seq::empty(),
        code: Seq::empty(),
    }
}

/// The final translation state of a function, before fixup resolution.
pub open spec fn spec_fn_final(f: Function) -> Option<TransState> {
    spec_step_blocks(spec_init_state(f), f.blocks@)
}

/// Whether a function translates: its blocks end with exactly one
/// terminator each, the parameter list fits the ABI stride, every block and
/// instruction steps, and every recorded fixup names a defined label.
pub open spec fn spec_fn_translatable(f: Function) -> bool {
    &&& spec_blocks_well_terminated(f)
    &&& f.params@.len() < 2048
    &&& spec_fn_final(f) is Some
    &&& forall|i: int|
        0 <= i < spec_fn_final(f)->Some_0.fixups.len() ==> spec_fn_final(f)->Some_0.labels.dom()
            .contains((#[trigger] spec_fn_final(f)->Some_0.fixups[i]).1)
}

/// Fixups applied in order, at the level of label texts.
pub open spec fn spec_apply_fixups_v(
    code: Seq<crate::target::Instruction>,
    fixups: Seq<(int, Seq<char>)>,
    labels: Map<Seq<char>, u32>,
) -> Seq<crate::target::Instruction>
    decreases fixups.len(),
{
    if fixups.len() == 0 {
        code
    } else {
        TranslationContext::spec_apply_one(
            spec_apply_fixups_v(code, fixups.drop_last(), labels),
            fixups.last().0,
            fixups.last().1,
            labels,
        )
    }
}

/// Applying matching fixup lists patches the code identically.
proof fn lemma_apply_fixups_v(
    code: Seq<crate::target::Instruction>,
    fx: Seq<(usize, String)>,
    fv: Seq<(int, Seq<char>)>,
    labels: Map<Seq<char>, u32>,
)
    requires
        fixups_match(fx, fv),
    ensures
        TranslationContext::spec_apply_fixups(code, fx, labels) == spec_apply_fixups_v(
            code,
            fv,
            labels,
        ),
    decreases fx.len(),
{
    if fx.len() > 0 {
        assert(fixups_match(fx.drop_last(), fv.drop_last())) by {
            assert(forall|i: int|
                0 <= i < fx.len() - 1 ==> #[trigger] fx.drop_last()[i] == fx[i]);
        }
        lemma_apply_fixups_v(code, fx.drop_last(), fv.drop_last(), labels);
        assert(fx[fx.len() - 1].0 as int == fv[fx.len() - 1].0);
        assert(fx[fx.len() - 1].1@ == fv[fx.len() - 1].1);
    }
}

/// The translated code of a function: its final state's code with every
/// fixup patched.
pub open spec fn spec_fn_code(f: Function) -> Seq<crate::target::Instruction> {
    let st = spec_fn_final(f)->Some_0;
    spec_apply_fixups_v(st.code, st.fixups, st.labels)
}


/// Extending a bound-parameter prefix by one inserts that binding.
proof fn lemma_bind_params_step(params: Seq<(String, Type)>, n: int)
    requires
        0 <= n < params.len(),
    ensures
        spec_bind_params(params, n + 1) == spec_bind_params(params, n).insert(
            params[n].0@,
            TranslationContext::spec_param_loc(n),
        ),
{
}

/// Matching fixup lists stay matched when one entry is pushed.
proof fn lemma_fixups_match_push(
    fx_new: Seq<(usize, String)>,
    fx_old: Seq<(usize, String)>,
    fv_old: Seq<(int, Seq<char>)>,
    idx: int,
    nm: Seq<char>,
)
    requires
        fixups_match(fx_old, fv_old),
        fx_new.len() == fx_old.len() + 1,
        fx_new.drop_last() == fx_old,
        fx_new.last().0 as int == idx,
        fx_new.last().1@ == nm,
    ensures
        fixups_match(fx_new, fv_old.push((idx, nm))),
{
    assert forall|i: int|
        0 <= i < fx_new.len() implies (#[trigger] fx_new[i]).0 as int == fv_old.push(
        (idx, nm),
    )[i].0 && fx_new[i].1@ == fv_old.push((idx, nm))[i].1 by {
        if i < fx_old.len() {
            assert(fx_new[i] == fx_new.drop_last()[i]);
        }
    }
}

/// A fixup list denotes its own view.
proof fn lemma_fixups_match_self(fx: Seq<(usize, String)>)
    ensures
        fixups_match(fx, fx.map_values(|p: (usize, String)| (p.0 as int, p.1@))),
{
}

/// Translate one function: bind its parameters to their ABI locations,
/// translate each block in order, and resolve all label fixups. Succeeds
/// exactly for translatable functions, and then produces exactly the
/// mathematical translation of the function.
pub fn translate_function(f: &Function) -> (r: TranslateResult<Vec<crate::target::Instruction>>)
    ensures
        r is Ok <==> spec_fn_translatable(*f),
        r matches Ok(code) ==> code@ == spec_fn_code(*f) && spec_blocks_well_terminated(*f),
{
    if !check_block_terminators(f) {
        return Err(TranslateError::UnsupportedInstruction(f.name.clone()));
    }
    if f.params.len() >= 2048 {
        return Err(TranslateError::UnsupportedInstruction(f.name.clone()));
    }
    let mut ctx = TranslationContext::new(f.name.clone());
    let mut i: usize = 0;
    while i < f.params.len()
        invariant
            ctx.wf(),
            0 <= i <= f.params@.len(),
            f.params@.len() < 2048,
            ctx.bindings_map() == spec_bind_params(f.params@, i as int),
            ctx.next_temp == FIRST_TEMP,
            ctx.stack_size == 0,
            ctx.labels@.len() == 0,
            ctx.fixups@.len() == 0,
            ctx.instructions@.len() == 0,
        decreases f.params@.len() - i,
    {
        let p = &f.params[i];
        proof {
            lemma_bind_params_step(f.params@, i as int);
        }
        match ctx.bind_parameter(p.0.as_str(), &p.1, i) {
            Ok(()) => (),
            Err(e) => {
                return Err(e);
            },
        }
        i = i + 1;
    }
    let ghost mut st = spec_init_state(*f);
    proof {
        assert(ctx.labels_map() =~= Map::<Seq<char>, u32>::empty());
        assert(ctx.instructions@ =~= Seq::<crate::target::Instruction>::empty());
        assert(ctx.fixups@ =~= Seq::<(usize, String)>::empty());
        assert(fixups_match(ctx.fixups@, st.fixups));
        assert(ctx_matches(ctx, st));
        assert(f.blocks@.skip(0) =~= f.blocks@);
    }
    let mut b: usize = 0;
    while b < f.blocks.len()
        invariant
            ctx.wf(),
            0 <= b <= f.blocks@.len(),
            spec_blocks_well_terminated(*f),
            f.params@.len() < 2048,
            ctx_matches(ctx, st),
            spec_fn_final(*f) == spec_step_blocks(st, f.blocks@.skip(b as int)),
        decreases f.blocks@.len() - b,
    {
        let blk = &f.blocks[b];
        proof {
            assert(f.blocks@.skip(b as int).len() > 0);
            assert(f.blocks@.skip(b as int)[0] == f.blocks@[b as int]);
            assert(f.blocks@.skip(b as int).drop_first() =~= f.blocks@.skip(b as int + 1));
        }
        if ctx.current_index() > CODE_BUDGET {
            proof {
                assert(spec_step_block(st, f.blocks@[b as int]) is None);
            }
            return Err(TranslateError::UnsupportedInstruction(f.name.clone()));
        }
        match ctx.start_block(blk.name.as_str()) {
            Ok(()) => (),
            Err(e) => {
                proof {
                    assert(spec_step_block(st, f.blocks@[b as int]) is None);
                }
                return Err(e);
            },
        }
        let ghost st_blk = TransState {
            labels: st.labels.insert(blk.name@, st.code.len() as u32),
            ..st
        };
        let ghost mut stk = st_blk;
        proof {
            assert(ctx_matches(ctx, stk));
            assert(blk.instructions@.skip(0) =~= blk.instructions@);
            assert(spec_step_block(st, f.blocks@[b as int]) == spec_step_instrs(
                st_blk,
                blk.instructions@,
            ));
        }
        let mut k: usize = 0;
        while k < blk.instructions.len()
            invariant
                ctx.wf(),
                0 <= k <= blk.instructions@.len(),
                ctx_matches(ctx, stk),
                spec_step_instrs(st_blk, blk.instructions@) == spec_step_instrs(
                    stk,
                    blk.instructions@.skip(k as int),
                ),
                spec_step_instrs(st_blk, blk.instructions@) is None ==> spec_fn_final(
                    *f,
                ) is None,
                spec_blocks_well_terminated(*f),
            decreases blk.instructions@.len() - k,
        {
            proof {
                assert(blk.instructions@.skip(k as int).len() > 0);
                assert(blk.instructions@.skip(k as int)[0] == blk.instructions@[k as int]);
                assert(blk.instructions@.skip(k as int).drop_first() =~= blk.instructions@.skip(
                    k as int + 1,
                ));
            }
            if ctx.current_index() > CODE_BUDGET {
                proof {
                    assert(spec_step_instrs(stk, blk.instructions@.skip(k as int)) is None);
                }
                return Err(TranslateError::UnsupportedInstruction(f.name.clone()));
            }
            proof {
                lemma_ctx_state(ctx, stk);
            }
            match translate_instruction(&mut ctx, &blk.instructions[k]) {
                Ok(()) => (),
                Err(e) => {
                    proof {
                        assert(spec_step_instrs(stk, blk.instructions@.skip(k as int)) is None);
                    }
                    return Err(e);
                },
            }
            proof {
                stk = spec_step_instr(stk, blk.instructions@[k as int])->Some_0;
            }
            k = k + 1;
        }
        proof {
            assert(blk.instructions@.skip(blk.instructions@.len() as int) =~= Seq::<
                Instruction,
            >::empty());
            assert(spec_step_instrs(st_blk, blk.instructions@) == Some(stk));
            assert(spec_step_block(st, f.blocks@[b as int]) == Some(stk));
            st = stk;
        }
        b = b + 1;
    }
    proof {
        assert(f.blocks@.skip(f.blocks@.len() as int) =~= Seq::<BasicBlock>::empty());
        assert(spec_fn_final(*f) == Some(st));
    }
    let ghost pre_resolve = ctx;
    match ctx.resolve_labels() {
        Ok(()) => (),
        Err(e) => {
            proof {
                let j = choose|j: int|
                    0 <= j < pre_resolve.fixups@.len() && !pre_resolve.labels_map().dom()
                        .contains((#[trigger] pre_resolve.fixups@[j]).1@);
                assert(spec_fn_final(*f)->Some_0 == st);
                assert(!st.labels.dom().contains(st.fixups[j].1));
                assert(!spec_fn_translatable(*f));
            }
            return Err(e);
        },
    }
    proof {
        assert forall|j: int| 0 <= j < st.fixups.len() implies st.labels.dom().contains(
            (#[trigger] st.fixups[j]).1,
        ) by {
            assert(pre_resolve.labels_map().dom().contains(pre_resolve.fixups@[j].1@));
        }
        assert(spec_fn_final(*f)->Some_0 == st);
        assert(spec_fn_translatable(*f));
        lemma_apply_fixups_v(pre_resolve.instructions@, pre_resolve.fixups@, st.fixups, st.labels);
    }
    Ok(ctx.into_instructions())
}

/// Translate one source instruction into the context: the context steps
/// exactly as the mathematical translation does, and an instruction that
/// does not step is an error.
#[verifier::rlimit(100)]
fn translate_instruction(ctx: &mut TranslationContext, ins: &Instruction) -> (r: TranslateResult<
    (),
>)
    requires
        old(ctx).wf(),
        old(ctx).instructions@.len() + 16 <= MAX_CODE_LEN,
    ensures
        final(ctx).wf(),
        match spec_step_instr(ctx_state(*old(ctx)), *ins) {
            Some(st) => r is Ok && ctx_matches(*final(ctx), st),
            None => r is Err,
        },
        r is Ok ==> final(ctx).instructions@.len() > old(ctx).instructions@.len(),
{
    proof {
        reveal(spec_step_instr);
        lemma_fixups_match_self(old(ctx).fixups@);
    }
    match ins {
        Instruction::Add { result, ty, lhs, rhs } => arithmetic::translate_add(
            ctx,
            result.as_str(),
            ty,
            lhs,
            rhs,
        ),
        Instruction::Sub { result, ty, lhs, rhs } => arithmetic::translate_sub(
            ctx,
            result.as_str(),
            ty,
            lhs,
            rhs,
        ),
        Instruction::Mul { result, ty, lhs, rhs } => arithmetic::translate_mul(
            ctx,
            result.as_str(),
            ty,
            lhs,
            rhs,
        ),
        Instruction::UDiv { result, ty, lhs, rhs } => arithmetic::translate_udiv(
            ctx,
            result.as_str(),
            ty,
            lhs,
            rhs,
        ),
        Instruction::SDiv { result, ty, lhs, rhs } => arithmetic::translate_sdiv(
            ctx,
            result.as_str(),
            ty,
            lhs,
            rhs,
        ),
        Instruction::URem { result, ty, lhs, rhs } => arithmetic::translate_urem(
            ctx,
            result.as_str(),
            ty,
            lhs,
            rhs,
        ),
        Instruction::SRem { result, ty, lhs, rhs } => arithmetic::translate_srem(
            ctx,
            result.as_str(),
            ty,
            lhs,
            rhs,
        ),
        Instruction::And { result, ty, lhs, rhs } => arithmetic::translate_and(
            ctx,
            result.as_str(),
            ty,
            lhs,
            rhs,
        ),
        Instruction::Or { result, ty, lhs, rhs } => arithmetic::translate_or(
            ctx,
            result.as_str(),
            ty,
            lhs,
            rhs,
        ),
        Instruction::Xor { result, ty, lhs, rhs } => arithmetic::translate_xor(
            ctx,
            result.as_str(),
            ty,
            lhs,
            rhs,
        ),
        Instruction::Shl { result, ty, lhs, rhs } => arithmetic::translate_shl(
            ctx,
            result.as_str(),
            ty,
            lhs,
            rhs,
        ),
        Instruction::LShr { result, ty, lhs, rhs } => arithmetic::translate_lshr(
            ctx,
            result.as_str(),
            ty,
            lhs,
            rhs,
        ),
        Instruction::AShr { result, ty, lhs, rhs } => arithmetic::translate_ashr(
            ctx,
            result.as_str(),
            ty,
            lhs,
            rhs,
        ),
        Instruction::ICmp { result, pred, ty, lhs, rhs } => compare::translate_icmp(
            ctx,
            result.as_str(),
            *pred,
            ty,
            lhs,
            rhs,
        ),
        Instruction::Load { result, ty, ptr } => memory::translate_load(
            ctx,
            result.as_str(),
            ty,
            ptr,
        ),
        Instruction::Store { value, ty, ptr } => memory::translate_store(ctx, value, ty, ptr),
        Instruction::Alloca { result, ty } => memory::translate_alloca(ctx, result.as_str(), ty),
        Instruction::Ret { value } => control::translate_ret(ctx, value),
        Instruction::Br { dest } => {
            let r = control::translate_br(ctx, dest.as_str());
            proof {
                lemma_fixups_match_push(
                    ctx.fixups@,
                    old(ctx).fixups@,
                    ctx_state(*old(ctx)).fixups,
                    old(ctx).instructions@.len() as int,
                    dest@,
                );
            }
            r
        },
        Instruction::CondBr { cond, true_dest, false_dest } => {
            let r = control::translate_condbr(
                ctx,
                cond,
                true_dest.as_str(),
                false_dest.as_str(),
            );
            proof {
                if TranslationContext::spec_load_ok(
                    old(ctx).bindings_map(),
                    old(ctx).next_temp,
                    *cond,
                ) {
                    let loaded_len = old(ctx).instructions@.len()
                        + TranslationContext::spec_load_code(
                        old(ctx).bindings_map(),
                        old(ctx).next_temp,
                        *cond,
                    ).len();
                    let mid = ctx.fixups@.drop_last();
                    assert(mid.drop_last() =~= old(ctx).fixups@) by {
                        assert(forall|i: int|
                            0 <= i < old(ctx).fixups@.len() ==> #[trigger] mid.drop_last()[i]
                                == ctx.fixups@.subrange(0, old(ctx).fixups@.len() as int)[i]);
                    }
                    assert(mid.last() == ctx.fixups@[ctx.fixups@.len() - 2]);
                    lemma_fixups_match_push(
                        mid,
                        old(ctx).fixups@,
                        ctx_state(*old(ctx)).fixups,
                        loaded_len as int,
                        true_dest@,
                    );
                    lemma_fixups_match_push(
                        ctx.fixups@,
                        mid,
                        ctx_state(*old(ctx)).fixups.push((loaded_len as int, true_dest@)),
                        loaded_len as int + 1,
                        false_dest@,
                    );
                }
            }
            r
        },
        _ => Err(TranslateError::UnsupportedInstruction(String::new())),
    }
}


/// Block `j`'s translated range within `stp.code`: it starts at the block's
/// recorded label, ends where the next block's label points (or at the end
/// of the code), lies at or after `base`, is non-empty, and its last
/// instruction transfers control.
pub open spec fn block_range_ok(
    base: int,
    stp: TransState,
    blocks: Seq<BasicBlock>,
    j: int,
) -> bool {
    let start = stp.labels[blocks[j].name@] as int;
    let end = if j + 1 < blocks.len() {
        stp.labels[blocks[j + 1].name@] as int
    } else {
        stp.code.len() as int
    };
    base <= start < end <= stp.code.len() && stp.code[end - 1].spec_is_control()
}

/// Whether every function of a module translates.
pub open spec fn spec_module_translatable(m: Module) -> bool {
    forall|i: int|
        0 <= i < m.functions@.len() ==> spec_fn_translatable(#[trigger] m.functions@[i])
}

/// The code of a translated module: the functions' translations,
/// concatenated in source order.
pub open spec fn spec_module_code(fns: Seq<Function>) -> Seq<crate::target::Instruction>
    decreases fns.len(),
{
    if fns.len() == 0 {
        Seq::empty()
    } else {
        spec_fn_code(fns[0]) + spec_module_code(fns.drop_first())
    }
}

/// Translating one more function appends its code.
proof fn lemma_module_code_snoc(fns: Seq<Function>, i: int)
    requires
        0 <= i < fns.len(),
    ensures
        spec_module_code(fns.subrange(0, i + 1)) == spec_module_code(fns.subrange(0, i))
            + spec_fn_code(fns[i]),
    decreases i,
{
    if i == 0 {
        assert(fns.subrange(0, 1).drop_first() =~= Seq::<Function>::empty());
        assert(fns.subrange(0, 1)[0] == fns[0]);
        assert(fns.subrange(0, 0) =~= Seq::<Function>::empty());
        assert(spec_module_code(fns.subrange(0, 1)) == spec_fn_code(fns[0]) + Seq::<
            crate::target::Instruction,
        >::empty());
        assert(spec_fn_code(fns[0]) + Seq::<crate::target::Instruction>::empty()
            =~= spec_fn_code(fns[0]));
        assert(Seq::<crate::target::Instruction>::empty() + spec_fn_code(fns[0])
            =~= spec_fn_code(fns[0]));
    } else {
        let t = fns.drop_first();
        lemma_module_code_snoc(t, i - 1);
        assert(fns.subrange(0, i + 1)[0] == fns[0]);
        assert(fns.subrange(0, i + 1).drop_first() =~= t.subrange(0, i));
        assert(fns.subrange(0, i)[0] == fns[0]);
        assert(fns.subrange(0, i).drop_first() =~= t.subrange(0, i - 1));
        assert(t[i - 1] == fns[i]);
        assert(spec_module_code(fns.subrange(0, i + 1)) =~= spec_module_code(fns.subrange(0, i))
            + spec_fn_code(fns[i]));
    }
}

/// Translate a whole module into one target program with the given entry
/// offset. Succeeds exactly when every function translates, and then the
/// program is the concatenation of the functions' translations in source
/// order.
pub fn translate_module(module: &Module, entry_offset: u32) -> (r: TranslateResult<Program>)
    ensures
        r is Ok <==> spec_module_translatable(*module),
        r matches Ok(p) ==> p.code@ == spec_module_code(module.functions@) && p.entry
            == entry_offset && spec_module_well_terminated(*module),
{
    let mut code: Vec<crate::target::Instruction> = Vec::new();
    let mut i: usize = 0;
    while i < module.functions.len()
        invariant
            0 <= i <= module.functions@.len(),
            code@ == spec_module_code(module.functions@.subrange(0, i as int)),
            forall|x: int|
                0 <= x < i ==> spec_fn_translatable(#[trigger] module.functions@[x]),
        decreases module.functions@.len() - i,
    {
        let mut fcode = match translate_function(&module.functions[i]) {
            Ok(c) => c,
            Err(e) => {
                proof {
                    assert(!spec_fn_translatable(module.functions@[i as int]));
                }
                return Err(e);
            },
        };
        code.append(&mut fcode);
        proof {
            lemma_module_code_snoc(module.functions@, i as int);
        }
        i = i + 1;
    }
    proof {
        assert(module.functions@.subrange(0, module.functions@.len() as int)
            =~= module.functions@);
        assert forall|x: int|
            0 <= x < module.functions@.len() implies spec_blocks_well_terminated(
            #[trigger] module.functions@[x],
        ) by {
            assert(spec_fn_translatable(module.functions@[x]));
        }
    }
    Ok(Program { code, entry: entry_offset })
}

} // verus!
