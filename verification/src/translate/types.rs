//! Lowering from source IR types to target machine shapes.

use vstd::prelude::*;
use crate::ir::{spec_bit_width, spec_size_in_bytes, spec_supported, Type};

verus! {

/// ABI-visible shape of a lowered type on the 32-bit target machine.
#[derive(Debug, Clone, Copy, PartialEq, Eq, Structural)]
pub enum ZkType {
    /// One 32-bit register.
    I32,
    /// Two registers: low and high word.
    I64,
    /// Four registers.
    I128,
    /// One register holding an address.
    Ptr,
}

/// Shape of a lowered type: integers of width at most 32 collapse to one
/// word, wider integers to register pairs or quads, pointers and aggregates
/// to an address; void has no shape.
pub open spec fn spec_lower_type(t: Type) -> Option<ZkType> {
    match t {
        Type::Void => None,
        Type::Int(w) => if w <= 32 {
            Some(ZkType::I32)
        } else if w == 64 {
            Some(ZkType::I64)
        } else {
            Some(ZkType::I128)
        },
        Type::Ptr => Some(ZkType::Ptr),
        Type::Array(..) => Some(ZkType::Ptr),
        Type::Struct(..) => Some(ZkType::Ptr),
    }
}

/// Number of registers a shape occupies.
pub open spec fn spec_num_regs(z: ZkType) -> u32 {
    match z {
        ZkType::I32 => 1,
        ZkType::I64 => 2,
        ZkType::I128 => 4,
        ZkType::Ptr => 1,
    }
}

/// Byte size of a shape.
pub open spec fn spec_shape_size_bytes(z: ZkType) -> u32 {
    match z {
        ZkType::I32 => 4,
        ZkType::I64 => 8,
        ZkType::I128 => 16,
        ZkType::Ptr => 4,
    }
}

impl ZkType {
    /// Number of registers this shape occupies.
    pub fn num_regs(&self) -> (r: u32)
        ensures
            r == spec_num_regs(*self),
    {
        match self {
            ZkType::I32 => 1,
            ZkType::I64 => 2,
            ZkType::I128 => 4,
            ZkType::Ptr => 1,
        }
    }

    /// Byte size of this shape.
    pub fn size_bytes(&self) -> (r: u32)
        ensures
            r == spec_shape_size_bytes(*self),
    {
        match self {
            ZkType::I32 => 4,
            ZkType::I64 => 8,
            ZkType::I128 => 16,
            ZkType::Ptr => 4,
        }
    }
}

/// Lower a source type to its target shape, or `None` for void.
pub fn lower_type(t: &Type) -> (r: Option<ZkType>)
    ensures
        r == spec_lower_type(*t),
{
    match t {
        Type::Void => None,
        Type::Int(w) => if *w <= 32 {
            Some(ZkType::I32)
        } else if *w == 64 {
            Some(ZkType::I64)
        } else {
            Some(ZkType::I128)
        },
        Type::Ptr => Some(ZkType::Ptr),
        Type::Array(..) => Some(ZkType::Ptr),
        Type::Struct(..) => Some(ZkType::Ptr),
    }
}

/// Lowering soundness: every supported type has a shape unless it is void,
/// aggregates lower to a 4-byte pointer shape, and for scalars of width at
/// least 32 the shape's byte size equals the type's byte size. Sub-word
/// integers (widths 1, 8 and 16) occupy a full word once lowered, so their
/// byte sizes differ from their shapes' by design.
pub proof fn lemma_lowering_soundness(t: Type)
    requires
        spec_supported(t),
    ensures
        (spec_lower_type(t) is None) == (t is Void),
        (t is Array || t is Struct) ==> spec_lower_type(t) == Some(ZkType::Ptr)
            && spec_shape_size_bytes(ZkType::Ptr) == 4,
        (t is Int && spec_bit_width(t) >= 32) || t is Ptr ==> spec_shape_size_bytes(
            spec_lower_type(t).unwrap(),
        ) == spec_size_in_bytes(t),
{
}

} // verus!
