//! Source IR instructions.

use vstd::prelude::*;
use super::{Type, Value};

verus! {

/// One source IR instruction, explicitly typed at every use.
#[derive(Debug, PartialEq)]
pub enum Instruction {
    // Arithmetic
    Add { result: String, ty: Type, lhs: Value, rhs: Value },
    Sub { result: String, ty: Type, lhs: Value, rhs: Value },
    Mul { result: String, ty: Type, lhs: Value, rhs: Value },
    UDiv { result: String, ty: Type, lhs: Value, rhs: Value },
    SDiv { result: String, ty: Type, lhs: Value, rhs: Value },
    URem { result: String, ty: Type, lhs: Value, rhs: Value },
    SRem { result: String, ty: Type, lhs: Value, rhs: Value },
    // Bitwise
    And { result: String, ty: Type, lhs: Value, rhs: Value },
    Or { result: String, ty: Type, lhs: Value, rhs: Value },
    Xor { result: String, ty: Type, lhs: Value, rhs: Value },
    Shl { result: String, ty: Type, lhs: Value, rhs: Value },
    LShr { result: String, ty: Type, lhs: Value, rhs: Value },
    AShr { result: String, ty: Type, lhs: Value, rhs: Value },
    // Comparison
    ICmp { result: String, pred: ICmpPredicate, ty: Type, lhs: Value, rhs: Value },
    // Memory
    Load { result: String, ty: Type, ptr: Value },
    Store { value: Value, ty: Type, ptr: Value },
    Alloca { result: String, ty: Type },
    // Control flow
    Ret { value: Option<Value> },
    Br { dest: String },
    CondBr { cond: Value, true_dest: String, false_dest: String },
    Call { result: Option<String>, callee: String, args: Vec<Value>, ret_ty: Type },
    Phi { result: String, ty: Type, incoming: Vec<(Value, String)> },
    // Address arithmetic
    GetElementPtr { result: String, ty: Type, ptr: Value, indices: Vec<Value> },
}

/// Integer comparison predicate.
#[derive(Debug, Clone, Copy, PartialEq, Eq, Structural)]
pub enum ICmpPredicate {
    Eq,
    Ne,
    Slt,
    Sle,
    Sgt,
    Sge,
    Ult,
    Ule,
    Ugt,
    Uge,
}

impl Instruction {
    /// A terminator ends a basic block: a return or a branch.
    pub open spec fn spec_is_terminator(self) -> bool {
        self is Ret || self is Br || self is CondBr
    }

    /// The result name of a producing instruction, if any.
    pub open spec fn spec_result(self) -> Option<String> {
        match self {
            Instruction::Add { result, .. } => Some(result),
            Instruction::Sub { result, .. } => Some(result),
            Instruction::Mul { result, .. } => Some(result),
            Instruction::UDiv { result, .. } => Some(result),
            Instruction::SDiv { result, .. } => Some(result),
            Instruction::URem { result, .. } => Some(result),
            Instruction::SRem { result, .. } => Some(result),
            Instruction::And { result, .. } => Some(result),
            Instruction::Or { result, .. } => Some(result),
            Instruction::Xor { result, .. } => Some(result),
            Instruction::Shl { result, .. } => Some(result),
            Instruction::LShr { result, .. } => Some(result),
            Instruction::AShr { result, .. } => Some(result),
            Instruction::ICmp { result, .. } => Some(result),
            Instruction::Load { result, .. } => Some(result),
            Instruction::Alloca { result, .. } => Some(result),
            Instruction::Phi { result, .. } => Some(result),
            Instruction::GetElementPtr { result, .. } => Some(result),
            Instruction::Call { result, .. } => result,
            Instruction::Store { .. } => None,
            Instruction::Ret { .. } => None,
            Instruction::Br { .. } => None,
            Instruction::CondBr { .. } => None,
        }
    }

    /// Check whether this is a terminator instruction.
    pub fn is_terminator(&self) -> (r: bool)
        ensures
            r == self.spec_is_terminator(),
    {
        match self {
            Instruction::Ret { .. } => true,
            Instruction::Br { .. } => true,
            Instruction::CondBr { .. } => true,
            _ => false,
        }
    }

    /// Get the result variable name (if any).
    pub fn result(&self) -> (r: Option<&str>)
        ensures
            r is Some <==> self.spec_result() is Some,
            r matches Some(s) ==> s@ == self.spec_result().unwrap()@,
    {
        match self {
            Instruction::Add { result, .. } => Some(result.as_str()),
            Instruction::Sub { result, .. } => Some(result.as_str()),
            Instruction::Mul { result, .. } => Some(result.as_str()),
            Instruction::UDiv { result, .. } => Some(result.as_str()),
            Instruction::SDiv { result, .. } => Some(result.as_str()),
            Instruction::URem { result, .. } => Some(result.as_str()),
            Instruction::SRem { result, .. } => Some(result.as_str()),
            Instruction::And { result, .. } => Some(result.as_str()),
            Instruction::Or { result, .. } => Some(result.as_str()),
            Instruction::Xor { result, .. } => Some(result.as_str()),
            Instruction::Shl { result, .. } => Some(result.as_str()),
            Instruction::LShr { result, .. } => Some(result.as_str()),
            Instruction::AShr { result, .. } => Some(result.as_str()),
            Instruction::ICmp { result, .. } => Some(result.as_str()),
            Instruction::Load { result, .. } => Some(result.as_str()),
            Instruction::Alloca { result, .. } => Some(result.as_str()),
            Instruction::Phi { result, .. } => Some(result.as_str()),
            Instruction::GetElementPtr { result, .. } => Some(result.as_str()),
            Instruction::Call { result, .. } => match result {
                Some(s) => Some(s.as_str()),
                None => None,
            },
            _ => None,
        }
    }
}

} // verus!
