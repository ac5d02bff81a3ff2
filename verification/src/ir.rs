//! Typed representation of the source IR: types, values, and modules.

pub mod instruction;

use vstd::prelude::*;

verus! {

broadcast use vstd::seq::group_seq_axioms, vstd::std_specs::vec::group_vec_axioms;

/// A source IR type. Only integer widths 1, 8, 16, 32, 64 and 128 are in the
/// supported subset; other widths are rejected at the compatibility check.
#[derive(Debug, PartialEq, Eq)]
pub enum Type {
    Void,
    Int(u32),
    Ptr,
    Array(u64, Box<Type>),
    Struct(Vec<Type>),
}

/// Byte size of a type: integers take the ceiling of their bit width over 8,
/// pointers take one 4-byte word, arrays and structs take the sum of their
/// parts with no padding.
pub open spec fn spec_size_in_bytes(t: Type) -> nat
    decreases t,
{
    match t {
        Type::Void => 0,
        Type::Int(w) => ((w + 7) / 8) as nat,
        Type::Ptr => 4,
        Type::Array(n, elem) => (n * spec_size_in_bytes(*elem)) as nat,
        Type::Struct(fields) => spec_size_sum(fields@),
    }
}

/// Sum of the byte sizes of a sequence of types.
pub open spec fn spec_size_sum(fields: Seq<Type>) -> nat
    decreases fields,
{
    if fields.len() == 0 {
        0
    } else {
        spec_size_in_bytes(fields[0]) + spec_size_sum(fields.subrange(1, fields.len() as int))
    }
}

/// Bit width of a scalar type; aggregates and void have none.
pub open spec fn spec_bit_width(t: Type) -> u32 {
    match t {
        Type::Void => 0,
        Type::Int(w) => w,
        Type::Ptr => 32,
        Type::Array(..) => 0,
        Type::Struct(..) => 0,
    }
}

/// The supported integer widths of the covered subset.
pub open spec fn spec_width_supported(w: u32) -> bool {
    w == 1 || w == 8 || w == 16 || w == 32 || w == 64 || w == 128
}

/// A type is supported when every scalar inside it has a supported width.
pub open spec fn spec_supported(t: Type) -> bool
    decreases t,
{
    match t {
        Type::Void => true,
        Type::Int(w) => spec_width_supported(w),
        Type::Ptr => true,
        Type::Array(_, elem) => spec_supported(*elem),
        Type::Struct(fields) => spec_all_supported(fields@),
    }
}

/// Every type of the sequence is supported.
pub open spec fn spec_all_supported(fields: Seq<Type>) -> bool
    decreases fields,
{
    if fields.len() == 0 {
        true
    } else {
        spec_supported(fields[0]) && spec_all_supported(fields.subrange(1, fields.len() as int))
    }
}

/// The sum of sizes splits at any prefix length.
proof fn lemma_size_sum_split(fields: Seq<Type>, i: int)
    requires
        0 <= i <= fields.len(),
    ensures
        spec_size_sum(fields) == spec_size_sum(fields.subrange(0, i)) + spec_size_sum(
            fields.subrange(i, fields.len() as int),
        ),
    decreases i,
{
    if i == 0 {
        assert(fields.subrange(0, 0) =~= Seq::<Type>::empty());
        assert(fields.subrange(0, fields.len() as int) =~= fields);
    } else {
        let head = fields.subrange(0, i);
        assert(head[0] == fields[0]);
        lemma_size_sum_split(fields.subrange(1, fields.len() as int), i - 1);
        assert(head.subrange(1, head.len() as int) =~= fields.subrange(1, fields.len() as int)
            .subrange(0, i - 1));
        assert(fields.subrange(1, fields.len() as int).subrange(i - 1, fields.len() - 1) =~= fields
            .subrange(i, fields.len() as int));
    }
}

/// The sum over a prefix never exceeds the sum over the whole sequence.
proof fn lemma_size_sum_prefix_le(fields: Seq<Type>, i: int)
    requires
        0 <= i <= fields.len(),
    ensures
        spec_size_sum(fields.subrange(0, i)) <= spec_size_sum(fields),
{
    lemma_size_sum_split(fields, i);
}

/// Extending a summed prefix by one element adds that element's size.
proof fn lemma_size_sum_take_succ(s: Seq<Type>, i: int)
    requires
        0 <= i < s.len(),
    ensures
        spec_size_sum(s.subrange(0, i + 1)) == spec_size_sum(s.subrange(0, i))
            + spec_size_in_bytes(s[i]),
    decreases i,
{
    if i == 0 {
        assert(s.subrange(0, 1)[0] == s[0]);
        assert(s.subrange(0, 1).subrange(1, 1) =~= Seq::<Type>::empty());
        assert(s.subrange(0, 0) =~= Seq::<Type>::empty());
    } else {
        let t = s.subrange(1, s.len() as int);
        lemma_size_sum_take_succ(t, i - 1);
        assert(s.subrange(0, i + 1)[0] == s[0]);
        assert(s.subrange(0, i + 1).subrange(1, i + 1) =~= t.subrange(0, i));
        assert(s.subrange(0, i)[0] == s[0]);
        assert(s.subrange(0, i).subrange(1, i) =~= t.subrange(0, i - 1));
        assert(t[i - 1] == s[i]);
    }
}

impl Type {
    /// Bit width of a scalar type: integers carry their own width and
    /// pointers are one 32-bit word; void and aggregates have none.
    pub fn bit_width(&self) -> (w: u32)
        ensures
            w == spec_bit_width(*self),
    {
        match self {
            Type::Void => 0,
            Type::Int(w) => *w,
            Type::Ptr => 32,
            Type::Array(..) => 0,
            Type::Struct(..) => 0,
        }
    }

    /// Byte size of the type. The caller must know that the mathematical
    /// size fits the return type; the parser only produces scalar types, for
    /// which this always holds.
    pub fn size_in_bytes(&self) -> (sz: u64)
        requires
            spec_size_in_bytes(*self) <= u64::MAX,
        ensures
            sz == spec_size_in_bytes(*self),
        decreases *self,
    {
        match self {
            Type::Void => 0,
            Type::Int(w) => ((*w as u64) + 7) / 8,
            Type::Ptr => 4,
            Type::Array(n, elem) => {
                if *n == 0 {
                    proof {
                        assert(spec_size_in_bytes(*self) == (0int * spec_size_in_bytes(
                            **elem,
                        )) as nat);
                        assert(spec_size_in_bytes(*self) == 0);
                    }
                    0
                } else {
                    proof {
                        assert(spec_size_in_bytes(**elem) <= *n * spec_size_in_bytes(**elem)
                            <= u64::MAX) by (nonlinear_arith)
                            requires
                                *n >= 1,
                                (*n * spec_size_in_bytes(**elem)) as nat <= u64::MAX,
                        ;
                    }
                    let e = elem.size_in_bytes();
                    *n * e
                }
            },
            Type::Struct(fields) => {
                let mut total: u64 = 0;
                let mut i: usize = 0;
                proof {
                    assert(fields@.subrange(0, 0) =~= Seq::<Type>::empty());
                }
                while i < fields.len()
                    invariant
                        *self == Type::Struct(*fields),
                        0 <= i <= fields@.len(),
                        total == spec_size_sum(fields@.subrange(0, i as int)),
                        spec_size_sum(fields@) <= u64::MAX,
                    decreases fields@.len() - i,
                {
                    proof {
                        lemma_size_sum_take_succ(fields@, i as int);
                        lemma_size_sum_prefix_le(fields@, i as int + 1);
                        assert(*self == Type::Struct(*fields));
                        assert(decreases_to!(*self => self->Struct_0));
                        assert(decreases_to!(*fields => fields[i as int]));
                    }
                    let s = fields[i].size_in_bytes();
                    total = total + s;
                    i = i + 1;
                }
                proof {
                    assert(fields@.subrange(0, fields@.len() as int) =~= fields@);
                }
                total
            },
        }
    }

    /// A scalar type is an integer or a pointer.
    pub fn is_scalar(&self) -> (r: bool)
        ensures
            r == (*self is Int || *self is Ptr),
    {
        match self {
            Type::Int(_) => true,
            Type::Ptr => true,
            _ => false,
        }
    }

    /// An aggregate type is an array or a struct.
    pub fn is_aggregate(&self) -> (r: bool)
        ensures
            r == (*self is Array || *self is Struct),
    {
        match self {
            Type::Array(..) => true,
            Type::Struct(..) => true,
            _ => false,
        }
    }

    /// Whether the type lies in the supported subset.
    pub fn is_supported(&self) -> (r: bool)
        ensures
            r == spec_supported(*self),
        decreases *self,
    {
        match self {
            Type::Void => true,
            Type::Int(w) => *w == 1 || *w == 8 || *w == 16 || *w == 32 || *w == 64 || *w == 128,
            Type::Ptr => true,
            Type::Array(_, elem) => elem.is_supported(),
            Type::Struct(fields) => {
                let mut i: usize = 0;
                let mut ok = true;
                while i < fields.len()
                    invariant
                        *self == Type::Struct(*fields),
                        0 <= i <= fields@.len(),
                        ok == spec_all_supported(fields@.subrange(0, i as int)),
                    decreases fields@.len() - i,
                {
                    proof {
                        lemma_all_supported_push(fields@, i as int);
                        assert(*self == Type::Struct(*fields));
                        assert(decreases_to!(*self => self->Struct_0));
                        assert(decreases_to!(*fields => fields[i as int]));
                    }
                    let si = fields[i].is_supported();
                    ok = ok && si;
                    i = i + 1;
                }
                proof {
                    assert(fields@.subrange(0, fields@.len() as int) =~= fields@);
                }
                ok
            },
        }
    }
}

/// Extending a checked prefix by one element conjoins that element's support.
proof fn lemma_all_supported_push(fields: Seq<Type>, i: int)
    requires
        0 <= i < fields.len(),
    ensures
        spec_all_supported(fields.subrange(0, i + 1)) == (spec_all_supported(
            fields.subrange(0, i),
        ) && spec_supported(fields[i])),
    decreases i,
{
    if i == 0 {
        assert(fields.subrange(0, 1)[0] == fields[0]);
        assert(fields.subrange(0, 1).subrange(1, 1) =~= Seq::<Type>::empty());
        assert(fields.subrange(0, 0) =~= Seq::<Type>::empty());
    } else {
        let t = fields.subrange(1, fields.len() as int);
        lemma_all_supported_push(t, i - 1);
        assert(fields.subrange(0, i + 1)[0] == fields[0]);
        assert(fields.subrange(0, i + 1).subrange(1, i + 1) =~= t.subrange(0, i));
        assert(fields.subrange(0, i)[0] == fields[0]);
        assert(fields.subrange(0, i).subrange(1, i) =~= t.subrange(0, i - 1));
        assert(t[i - 1] == fields[i]);
    }
}

/// A source IR value: a reference to a prior definition or parameter, a
/// function reference, or a constant.
#[derive(Debug, PartialEq)]
pub enum Value {
    /// Reference to an SSA definition or parameter, by name.
    Local(String),
    /// Reference to a function, by name.
    Global(String),
    /// Integer constant with its type.
    ConstInt { value: i64, ty: Type },
    /// Boolean constant.
    ConstBool(bool),
    /// Null pointer.
    Null,
    /// Undefined value.
    Undef,
}

impl Value {
    /// 32-bit integer constant.
    pub fn const_i32(value: i32) -> (v: Value)
        ensures
            v == (Value::ConstInt { value: value as i64, ty: Type::Int(32) }),
    {
        Value::ConstInt { value: value as i64, ty: Type::Int(32) }
    }

    /// 64-bit integer constant.
    pub fn const_i64(value: i64) -> (v: Value)
        ensures
            v == (Value::ConstInt { value, ty: Type::Int(64) }),
    {
        Value::ConstInt { value, ty: Type::Int(64) }
    }

    /// Local reference by name.
    pub fn local(name: &str) -> (v: Value)
        ensures
            v matches Value::Local(s) && s@ == name@,
    {
        Value::Local(name.to_owned())
    }
}

/// A basic block: a name and its instructions, the last of which must be a
/// terminator in a well-formed function.
#[derive(Debug, PartialEq)]
pub struct BasicBlock {
    pub name: String,
    pub instructions: Vec<instruction::Instruction>,
}

impl BasicBlock {
    pub fn name(&self) -> (r: &str)
        ensures
            r@ == self.name@,
    {
        self.name.as_str()
    }
}

/// A function: name, return type, ordered parameters, and basic blocks.
/// The first block is the entry.
#[derive(Debug, PartialEq)]
pub struct Function {
    pub name: String,
    pub ret_ty: Type,
    pub params: Vec<(String, Type)>,
    pub blocks: Vec<BasicBlock>,
}

impl Function {
    pub fn name(&self) -> (r: &str)
        ensures
            r@ == self.name@,
    {
        self.name.as_str()
    }

    pub fn ret_ty(&self) -> (r: &Type)
        ensures
            r == self.ret_ty,
    {
        &self.ret_ty
    }

    pub fn params(&self) -> (r: &Vec<(String, Type)>)
        ensures
            r == self.params,
    {
        &self.params
    }

    pub fn blocks(&self) -> (r: &Vec<BasicBlock>)
        ensures
            r == self.blocks,
    {
        &self.blocks
    }
}

/// A module: an ordered sequence of functions.
#[derive(Debug, PartialEq)]
pub struct Module {
    pub functions: Vec<Function>,
}

impl Module {
    pub fn functions(&self) -> (r: &Vec<Function>)
        ensures
            r == self.functions,
    {
        &self.functions
    }
}

} // verus!
