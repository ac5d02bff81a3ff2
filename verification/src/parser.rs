//! Parser: token stream to typed module.
//!
//! The grammar is a subset of LLVM text form: a module is a sequence of
//! `define <ty> @name(<params>) { <blocks> }`; blocks are labelled
//! instruction sequences, the first block's label may be left implicit;
//! instructions cover arithmetic, bitwise and compare operations, returns
//! and branches. An error aborts the whole module.

pub mod lexer;

use vstd::prelude::*;
use crate::ir::instruction::{ICmpPredicate, Instruction};
use crate::ir::{BasicBlock, Function, Module, Type, Value};
use crate::text::str_eq;
use crate::translate::arithmetic::BinOp;
use lexer::{spec_tokenize, token_matches, tokenize, Spanned, Token, TokenSpec};

verus! {

broadcast use vstd::seq::group_seq_axioms;

/// Failure to parse, carrying the kind of violation and, where known, the
/// character offset of the offending token.
#[derive(Debug, PartialEq)]
pub enum ParseError {
    /// Unrecognized input character.
    Lex { offset: usize },
    /// A token that no grammar rule expects.
    UnexpectedToken { offset: usize },
    /// The input ended inside a construct.
    UnexpectedEof,
    /// A token where a type was expected.
    InvalidType { offset: usize },
    /// A block label defined twice within one function.
    DuplicateLabel { offset: usize },
}

/// The exec token list mirrors the mathematical token list.
pub open spec fn toks_match(s: Seq<char>, toks: Seq<Spanned>, ts: Seq<(int, TokenSpec, int)>) -> bool {
    &&& toks.len() == ts.len()
    &&& forall|i: int|
        0 <= i < ts.len() ==> (#[trigger] toks[i]).0 == ts[i].0 && toks[i].2 == ts[i].2
            && token_matches(s, toks[i].1, ts[i].1, ts[i].0, ts[i].2)
    &&& forall|i: int| 0 <= i < ts.len() ==> 0 <= (#[trigger] ts[i]).0 < ts[i].2 <= s.len()
}

/// Every token of a successful lexing has a non-empty span inside the
/// input.
pub proof fn lemma_tokenize_spans(s: Seq<char>, pos: int)
    requires
        0 <= pos <= s.len(),
    ensures
        spec_tokenize(s, pos) matches Ok(ts) ==> forall|i: int|
            0 <= i < ts.len() ==> 0 <= (#[trigger] ts[i]).0 < ts[i].2 <= s.len(),
    decreases s.len() - pos,
{
    lexer::lemma_next_bounds(s, pos);
    match lexer::spec_next(s, pos) {
        lexer::LexStep::Token { start, tok, end } => {
            lemma_tokenize_spans(s, end);
            match spec_tokenize(s, end) {
                Ok(rest) => {
                    match spec_tokenize(s, pos) {
                        Ok(all) => {
                            assert forall|i: int| 0 <= i < all.len() implies 0 <= (
                            #[trigger] all[i]).0 < all[i].2 <= s.len() by {
                                if i == 0 {
                                } else {
                                    assert(all[i] == rest[i - 1]);
                                }
                            }
                        },
                        Err(_) => {},
                    }
                },
                Err(_) => {},
            }
        },
        _ => {},
    }
}


/// Mathematical form of a parsed operand: a local reference by its text
/// (marker included), a typed integer constant, or a boolean constant.
pub enum ValueSpec {
    Local(Seq<char>),
    ConstInt(i64, Type),
    ConstBool(bool),
}

/// Mathematical form of a parsed instruction.
pub enum InstrSpec {
    Binop { op: BinOp, result: Seq<char>, ty: Type, lhs: ValueSpec, rhs: ValueSpec },
    ICmp { result: Seq<char>, pred: ICmpPredicate, ty: Type, lhs: ValueSpec, rhs: ValueSpec },
    Ret { value: Option<ValueSpec> },
    Br { dest: Seq<char> },
    CondBr { cond: ValueSpec, true_dest: Seq<char>, false_dest: Seq<char> },
    Alloca { result: Seq<char>, ty: Type },
    Load { result: Seq<char>, ty: Type, ptr: ValueSpec },
    Store { value: ValueSpec, ty: Type, ptr: ValueSpec },
}

/// Mathematical form of a parsed block: its label text and instructions.
pub struct BlockSpec {
    pub name: Seq<char>,
    pub instrs: Seq<InstrSpec>,
}

/// The mathematical form a value denotes, if it is one the parser produces.
pub open spec fn spec_value_view(v: Value) -> Option<ValueSpec> {
    match v {
        Value::Local(n) => Some(ValueSpec::Local(n@)),
        Value::ConstInt { value, ty } => Some(ValueSpec::ConstInt(value, ty)),
        Value::ConstBool(b) => Some(ValueSpec::ConstBool(b)),
        _ => None,
    }
}

/// The two-operand operation of an instruction, where it is one.
pub open spec fn spec_instr_view(i: Instruction) -> Option<InstrSpec> {
    match i {
        Instruction::Add { result, ty, lhs, rhs } => spec_binop_view(
            BinOp::Add, result@, ty, lhs, rhs,
        ),
        Instruction::Sub { result, ty, lhs, rhs } => spec_binop_view(
            BinOp::Sub, result@, ty, lhs, rhs,
        ),
        Instruction::Mul { result, ty, lhs, rhs } => spec_binop_view(
            BinOp::Mul, result@, ty, lhs, rhs,
        ),
        Instruction::UDiv { result, ty, lhs, rhs } => spec_binop_view(
            BinOp::Divu, result@, ty, lhs, rhs,
        ),
        Instruction::SDiv { result, ty, lhs, rhs } => spec_binop_view(
            BinOp::Div, result@, ty, lhs, rhs,
        ),
        Instruction::URem { result, ty, lhs, rhs } => spec_binop_view(
            BinOp::Remu, result@, ty, lhs, rhs,
        ),
        Instruction::SRem { result, ty, lhs, rhs } => spec_binop_view(
            BinOp::Rem, result@, ty, lhs, rhs,
        ),
        Instruction::And { result, ty, lhs, rhs } => spec_binop_view(
            BinOp::And, result@, ty, lhs, rhs,
        ),
        Instruction::Or { result, ty, lhs, rhs } => spec_binop_view(
            BinOp::Or, result@, ty, lhs, rhs,
        ),
        Instruction::Xor { result, ty, lhs, rhs } => spec_binop_view(
            BinOp::Xor, result@, ty, lhs, rhs,
        ),
        Instruction::Shl { result, ty, lhs, rhs } => spec_binop_view(
            BinOp::Sll, result@, ty, lhs, rhs,
        ),
        Instruction::LShr { result, ty, lhs, rhs } => spec_binop_view(
            BinOp::Srl, result@, ty, lhs, rhs,
        ),
        Instruction::AShr { result, ty, lhs, rhs } => spec_binop_view(
            BinOp::Sra, result@, ty, lhs, rhs,
        ),
        Instruction::ICmp { result, pred, ty, lhs, rhs } => match (
            spec_value_view(lhs),
            spec_value_view(rhs),
        ) {
            (Some(l), Some(r)) => Some(
                InstrSpec::ICmp { result: result@, pred, ty, lhs: l, rhs: r },
            ),
            _ => None,
        },
        Instruction::Ret { value } => match value {
            Option::None => Some(InstrSpec::Ret { value: None }),
            Option::Some(v) => match spec_value_view(v) {
                Some(vv) => Some(InstrSpec::Ret { value: Some(vv) }),
                None => None,
            },
        },
        Instruction::Br { dest } => Some(InstrSpec::Br { dest: dest@ }),
        Instruction::CondBr { cond, true_dest, false_dest } => match spec_value_view(cond) {
            Some(c) => Some(
                InstrSpec::CondBr {
                    cond: c,
                    true_dest: true_dest@,
                    false_dest: false_dest@,
                },
            ),
            None => None,
        },
        Instruction::Alloca { result, ty } => Some(InstrSpec::Alloca { result: result@, ty }),
        Instruction::Load { result, ty, ptr } => match spec_value_view(ptr) {
            Some(pv) => Some(InstrSpec::Load { result: result@, ty, ptr: pv }),
            None => None,
        },
        Instruction::Store { value, ty, ptr } => match (
            spec_value_view(value),
            spec_value_view(ptr),
        ) {
            (Some(vv), Some(pv)) => Some(InstrSpec::Store { value: vv, ty, ptr: pv }),
            _ => None,
        },
        _ => None,
    }
}

/// A two-operand instruction's mathematical form, when both operands have
/// one.
pub open spec fn spec_binop_view(
    op: BinOp,
    result: Seq<char>,
    ty: Type,
    lhs: Value,
    rhs: Value,
) -> Option<InstrSpec> {
    match (spec_value_view(lhs), spec_value_view(rhs)) {
        (Some(l), Some(r)) => Some(InstrSpec::Binop { op, result, ty, lhs: l, rhs: r }),
        _ => None,
    }
}

/// A parsed block realizes its mathematical form: same label text, and the
/// same instructions in order.
pub open spec fn block_matches(b: BasicBlock, bs: BlockSpec) -> bool {
    &&& b.name@ == bs.name
    &&& b.instructions@.len() == bs.instrs.len()
    &&& forall|k: int|
        0 <= k < bs.instrs.len() ==> spec_instr_view(#[trigger] b.instructions@[k]) == Some(
            bs.instrs[k],
        )
}

/// Mathematical form of a parsed type at `pos`: the type and the next
/// position, or nothing if no type starts there.
pub open spec fn spec_parse_type(ts: Seq<(int, TokenSpec, int)>, pos: int) -> Option<(Type, int)> {
    if pos < ts.len() {
        match ts[pos].1 {
            TokenSpec::Void => Some((Type::Void, pos + 1)),
            TokenSpec::IntType(w) => Some((Type::Int(w), pos + 1)),
            TokenSpec::Ptr => Some((Type::Ptr, pos + 1)),
            _ => None,
        }
    } else {
        None
    }
}

/// Mathematical form of a parsed value at `pos`, given the type it is used
/// at: a local reference keeps its text, an integer literal its value.
pub open spec fn spec_parse_value(
    s: Seq<char>,
    ts: Seq<(int, TokenSpec, int)>,
    pos: int,
    ty: Type,
) -> Option<(ValueSpec, int)> {
    if pos < ts.len() {
        match ts[pos].1 {
            TokenSpec::LocalIdent => Some(
                (ValueSpec::Local(s.subrange(ts[pos].0, ts[pos].2)), pos + 1),
            ),
            TokenSpec::NumericIdent => Some(
                (ValueSpec::Local(s.subrange(ts[pos].0, ts[pos].2)), pos + 1),
            ),
            TokenSpec::Integer(v) => Some((ValueSpec::ConstInt(v, ty), pos + 1)),
            TokenSpec::True => Some((ValueSpec::ConstBool(true), pos + 1)),
            TokenSpec::False => Some((ValueSpec::ConstBool(false), pos + 1)),
            _ => None,
        }
    } else {
        None
    }
}

/// Mathematical form of the parameter list: name spans and types of each
/// parameter, and the position of the closing parenthesis.
pub open spec fn spec_parse_params(
    ts: Seq<(int, TokenSpec, int)>,
    pos: int,
    first: bool,
) -> Option<(Seq<((int, int), Type)>, int)>
    decreases ts.len() - pos when 0 <= pos <= ts.len()
{
    if pos >= ts.len() {
        None
    } else if first && ts[pos].1 is RParen {
        Some((Seq::empty(), pos))
    } else {
        match spec_parse_type(ts, pos) {
            None => None,
            Some((ty, p1)) => if p1 < ts.len() && ts[p1].1 is LocalIdent {
                let span = (ts[p1].0, ts[p1].2);
                let p2 = p1 + 1;
                if p2 < ts.len() && ts[p2].1 is Comma {
                    match spec_parse_params(ts, p2 + 1, false) {
                        None => None,
                        Some((rest, p3)) => Some((seq![(span, ty)] + rest, p3)),
                    }
                } else {
                    Some((seq![(span, ty)], p2))
                }
            } else {
                None
            },
        }
    }
}

/// Mathematical form of one instruction, or nothing when no instruction
/// starts at `pos`.
pub open spec fn spec_parse_instr(
    s: Seq<char>,
    ts: Seq<(int, TokenSpec, int)>,
    pos: int,
) -> Option<(InstrSpec, int)> {
    if pos >= ts.len() {
        None
    } else {
        match ts[pos].1 {
            TokenSpec::Ret => if pos + 1 < ts.len() && ts[pos + 1].1 is Void {
                Some((InstrSpec::Ret { value: None }, pos + 2))
            } else {
                match spec_parse_type(ts, pos + 1) {
                    None => None,
                    Some((ty, p1)) => match spec_parse_value(s, ts, p1, ty) {
                        None => None,
                        Some((v, p2)) => Some((InstrSpec::Ret { value: Some(v) }, p2)),
                    },
                }
            },
            TokenSpec::Br => if pos + 1 < ts.len() && ts[pos + 1].1 is Label {
                if pos + 2 < ts.len() && ts[pos + 2].1 is LocalIdent {
                    Some(
                        (
                            InstrSpec::Br {
                                dest: s.subrange(ts[pos + 2].0 + 1, ts[pos + 2].2),
                            },
                            pos + 3,
                        ),
                    )
                } else {
                    None
                }
            } else {
                match spec_parse_type(ts, pos + 1) {
                    None => None,
                    Some((ty, p1)) => match spec_parse_value(s, ts, p1, ty) {
                        None => None,
                        Some((cond, p2)) => if p2 + 6 <= ts.len() && ts[p2].1 is Comma && ts[p2
                            + 1].1 is Label && ts[p2 + 2].1 is LocalIdent && ts[p2
                            + 3].1 is Comma && ts[p2 + 4].1 is Label && ts[p2
                            + 5].1 is LocalIdent {
                            Some(
                                (
                                    InstrSpec::CondBr {
                                        cond,
                                        true_dest: s.subrange(ts[p2 + 2].0 + 1, ts[p2 + 2].2),
                                        false_dest: s.subrange(ts[p2 + 5].0 + 1, ts[p2 + 5].2),
                                    },
                                    p2 + 6,
                                ),
                            )
                        } else {
                            None
                        },
                    },
                }
            },
            TokenSpec::Store => match spec_parse_type(ts, pos + 1) {
                None => None,
                Some((ty, p1)) => match spec_parse_value(s, ts, p1, ty) {
                    None => None,
                    Some((v, p2)) => if p2 < ts.len() && ts[p2].1 is Comma {
                        match spec_parse_type(ts, p2 + 1) {
                            None => None,
                            Some((_, p3)) => match spec_parse_value(s, ts, p3, Type::Ptr) {
                                None => None,
                                Some((ptr, p4)) => Some(
                                    (InstrSpec::Store { value: v, ty, ptr }, p4),
                                ),
                            },
                        }
                    } else {
                        None
                    },
                },
            },
            TokenSpec::LocalIdent => if pos + 1 < ts.len() && ts[pos + 1].1 is Equals {
                spec_parse_rhs(s, ts, pos + 2, s.subrange(ts[pos].0, ts[pos].2))
            } else {
                None
            },
            _ => None,
        }
    }
}

/// Mathematical form of the right-hand side of `result = ...`.
pub open spec fn spec_parse_rhs(
    s: Seq<char>,
    ts: Seq<(int, TokenSpec, int)>,
    pos: int,
    result: Seq<char>,
) -> Option<(InstrSpec, int)> {
    if pos >= ts.len() {
        None
    } else if spec_is_binop(ts[pos].1) {
        match spec_parse_type(ts, pos + 1) {
            None => None,
            Some((ty, p1)) => match spec_parse_value(s, ts, p1, ty) {
                None => None,
                Some((lhs, p2)) => if p2 < ts.len() && ts[p2].1 is Comma {
                    match spec_parse_value(s, ts, p2 + 1, ty) {
                        None => None,
                        Some((rhs, p3)) => Some(
                            (
                                InstrSpec::Binop {
                                    op: spec_binop_of(ts[pos].1),
                                    result,
                                    ty,
                                    lhs,
                                    rhs,
                                },
                                p3,
                            ),
                        ),
                    }
                } else {
                    None
                },
            },
        }
    } else if ts[pos].1 is Alloca {
        match spec_parse_type(ts, pos + 1) {
            None => None,
            Some((ty, p1)) => Some((InstrSpec::Alloca { result, ty }, p1)),
        }
    } else if ts[pos].1 is Load {
        match spec_parse_type(ts, pos + 1) {
            None => None,
            Some((ty, p1)) => if p1 < ts.len() && ts[p1].1 is Comma {
                match spec_parse_type(ts, p1 + 1) {
                    None => None,
                    Some((_, p2)) => match spec_parse_value(s, ts, p2, Type::Ptr) {
                        None => None,
                        Some((ptr, p3)) => Some((InstrSpec::Load { result, ty, ptr }, p3)),
                    },
                }
            } else {
                None
            },
        }
    } else if ts[pos].1 is ICmp {
        if pos + 1 < ts.len() && spec_is_pred(ts[pos + 1].1) {
            match spec_parse_type(ts, pos + 2) {
                None => None,
                Some((ty, p1)) => match spec_parse_value(s, ts, p1, ty) {
                    None => None,
                    Some((lhs, p2)) => if p2 < ts.len() && ts[p2].1 is Comma {
                        match spec_parse_value(s, ts, p2 + 1, ty) {
                            None => None,
                            Some((rhs, p3)) => Some(
                                (
                                    InstrSpec::ICmp {
                                        result,
                                        pred: spec_pred_of(ts[pos + 1].1),
                                        ty,
                                        lhs,
                                        rhs,
                                    },
                                    p3,
                                ),
                            ),
                        }
                    } else {
                        None
                    },
                },
            }
        } else {
            None
        }
    } else {
        None
    }
}

/// The operation a token opens.
pub open spec fn spec_binop_of(t: TokenSpec) -> BinOp {
    match t {
        TokenSpec::Add => BinOp::Add,
        TokenSpec::Sub => BinOp::Sub,
        TokenSpec::Mul => BinOp::Mul,
        TokenSpec::UDiv => BinOp::Divu,
        TokenSpec::SDiv => BinOp::Div,
        TokenSpec::URem => BinOp::Remu,
        TokenSpec::SRem => BinOp::Rem,
        TokenSpec::And => BinOp::And,
        TokenSpec::Or => BinOp::Or,
        TokenSpec::Xor => BinOp::Xor,
        TokenSpec::Shl => BinOp::Sll,
        TokenSpec::LShr => BinOp::Srl,
        _ => BinOp::Sra,
    }
}

/// The predicate a token names.
pub open spec fn spec_pred_of(t: TokenSpec) -> ICmpPredicate {
    match t {
        TokenSpec::Eq => ICmpPredicate::Eq,
        TokenSpec::Ne => ICmpPredicate::Ne,
        TokenSpec::Slt => ICmpPredicate::Slt,
        TokenSpec::Sle => ICmpPredicate::Sle,
        TokenSpec::Sgt => ICmpPredicate::Sgt,
        TokenSpec::Sge => ICmpPredicate::Sge,
        TokenSpec::Ult => ICmpPredicate::Ult,
        TokenSpec::Ule => ICmpPredicate::Ule,
        TokenSpec::Ugt => ICmpPredicate::Ugt,
        _ => ICmpPredicate::Uge,
    }
}

/// Tokens that open a two-operand arithmetic or bitwise instruction.
pub open spec fn spec_is_binop(t: TokenSpec) -> bool {
    t is Add || t is Sub || t is Mul || t is UDiv || t is SDiv || t is URem || t is SRem
        || t is And || t is Or || t is Xor || t is Shl || t is LShr || t is AShr
}

/// Tokens that name a comparison predicate.
pub open spec fn spec_is_pred(t: TokenSpec) -> bool {
    t is Eq || t is Ne || t is Slt || t is Sle || t is Sgt || t is Sge || t is Ult || t is Ule
        || t is Ugt || t is Uge
}

/// Whether a block label starts at `pos`: a bare identifier followed by a
/// colon.
pub open spec fn spec_at_label(ts: Seq<(int, TokenSpec, int)>, pos: int) -> bool {
    pos + 1 < ts.len() && ts[pos].1 is Ident && ts[pos + 1].1 is Colon
}

/// Mathematical form of the instruction run of one block, up to the next
/// label or closing brace.
pub open spec fn spec_parse_instrs(
    s: Seq<char>,
    ts: Seq<(int, TokenSpec, int)>,
    pos: int,
) -> Option<(Seq<InstrSpec>, int)>
    decreases ts.len() - pos when 0 <= pos <= ts.len() via spec_parse_instrs_dec
{
    if pos >= ts.len() {
        None
    } else if ts[pos].1 is RBrace || spec_at_label(ts, pos) {
        Some((Seq::empty(), pos))
    } else {
        match spec_parse_instr(s, ts, pos) {
            None => None,
            Some((iv, p1)) => match spec_parse_instrs(s, ts, p1) {
                None => None,
                Some((rest, p2)) => Some((seq![iv] + rest, p2)),
            },
        }
    }
}

#[via_fn]
proof fn spec_parse_instrs_dec(s: Seq<char>, ts: Seq<(int, TokenSpec, int)>, pos: int) {
    if 0 <= pos < ts.len() && !(ts[pos].1 is RBrace || spec_at_label(ts, pos)) {
        lemma_parse_instr_bounds(s, ts, pos);
    }
}

/// Parsing steps only move forward through the tokens.
proof fn lemma_parse_instr_bounds(s: Seq<char>, ts: Seq<(int, TokenSpec, int)>, pos: int)
    requires
        0 <= pos,
    ensures
        spec_parse_instr(s, ts, pos) matches Some(p) ==> pos < p.1 <= ts.len(),
{
}

/// Mathematical form of the blocks of one function body, up to and
/// including the closing brace. A label text may appear only once.
pub open spec fn spec_parse_blocks(
    s: Seq<char>,
    ts: Seq<(int, TokenSpec, int)>,
    pos: int,
    first: bool,
    seen: Seq<Seq<char>>,
) -> Option<(Seq<BlockSpec>, int)>
    decreases ts.len() - pos when 0 <= pos <= ts.len() via spec_parse_blocks_dec
{
    if pos >= ts.len() {
        None
    } else if ts[pos].1 is RBrace {
        Some((Seq::empty(), pos + 1))
    } else {
        let labelled = spec_at_label(ts, pos);
        if !first && !labelled {
            None
        } else {
            let name = if labelled {
                s.subrange(ts[pos].0, ts[pos].2)
            } else {
                "entry"@
            };
            let body = if labelled {
                pos + 2
            } else {
                pos
            };
            if seen.contains(name) {
                None
            } else {
                match spec_parse_instrs(s, ts, body) {
                    None => None,
                    Some((instrs, p1)) => if instrs.len() == 0 {
                        None
                    } else {
                        match spec_parse_blocks(s, ts, p1, false, seen.push(name)) {
                            None => None,
                            Some((rest, p2)) => Some(
                                (seq![BlockSpec { name, instrs }] + rest, p2),
                            ),
                        }
                    },
                }
            }
        }
    }
}

#[via_fn]
proof fn spec_parse_blocks_dec(
    s: Seq<char>,
    ts: Seq<(int, TokenSpec, int)>,
    pos: int,
    first: bool,
    seen: Seq<Seq<char>>,
) {
    if 0 <= pos < ts.len() && !(ts[pos].1 is RBrace) {
        let labelled = spec_at_label(ts, pos);
        let body = if labelled {
            pos + 2
        } else {
            pos
        };
        if 0 <= body <= ts.len() {
            lemma_parse_instrs_bounds(s, ts, body);
            match spec_parse_instrs(s, ts, body) {
                Some((ivs, p1)) => {
                    if ivs.len() != 0 {
                        assert(p1 > pos);
                        assert(p1 <= ts.len());
                    }
                },
                None => {},
            }
        }
    }
}

/// Instruction runs only move forward.
proof fn lemma_parse_instrs_bounds(s: Seq<char>, ts: Seq<(int, TokenSpec, int)>, pos: int)
    requires
        0 <= pos <= ts.len(),
    ensures
        spec_parse_instrs(s, ts, pos) matches Some(p) ==> pos <= p.1 <= ts.len(),
        (spec_parse_instrs(s, ts, pos) matches Some(p) && p.0.len() > 0) ==> (
        spec_parse_instrs(s, ts, pos) matches Some(q) && pos < q.1 <= ts.len()),
    decreases ts.len() - pos,
{
    if pos < ts.len() && !(ts[pos].1 is RBrace || spec_at_label(ts, pos)) {
        lemma_parse_instr_bounds(s, ts, pos);
        match spec_parse_instr(s, ts, pos) {
            Some((iv, p1)) => {
                lemma_parse_instrs_bounds(s, ts, p1);
            },
            None => {},
        }
    }
}

/// A parsed function's mathematical form: the span of its name (without
/// the leading marker), its return type, its parameters (name spans and
/// types), and its blocks.
pub struct FnSig {
    pub name_start: int,
    pub name_end: int,
    pub ret_ty: Type,
    pub params: Seq<((int, int), Type)>,
    pub blocks: Seq<BlockSpec>,
}

/// Mathematical form of one function definition.
pub open spec fn spec_parse_function(
    s: Seq<char>,
    ts: Seq<(int, TokenSpec, int)>,
    pos: int,
) -> Option<(FnSig, int)> {
    if pos < ts.len() && ts[pos].1 is Define {
        match spec_parse_type(ts, pos + 1) {
            None => None,
            Some((ret_ty, p1)) => if p1 + 1 < ts.len() && ts[p1].1 is GlobalIdent && ts[p1
                + 1].1 is LParen {
                let name_span = (ts[p1].0, ts[p1].2);
                match spec_parse_params(ts, p1 + 2, true) {
                    None => None,
                    Some((params, p2)) => if p2 + 1 < ts.len() && ts[p2].1 is RParen && ts[p2
                        + 1].1 is LBrace {
                        match spec_parse_blocks(s, ts, p2 + 2, true, Seq::empty()) {
                            None => None,
                            Some((blocks, p3)) => Some(
                                (
                                    FnSig {
                                        name_start: name_span.0 + 1,
                                        name_end: name_span.1,
                                        ret_ty,
                                        params,
                                        blocks,
                                    },
                                    p3,
                                ),
                            ),
                        }
                    } else {
                        None
                    },
                }
            } else {
                None
            },
        }
    } else {
        None
    }
}

/// Mathematical form of the whole module: the headers of its functions.
pub open spec fn spec_parse_module(
    s: Seq<char>,
    ts: Seq<(int, TokenSpec, int)>,
    pos: int,
) -> Option<Seq<FnSig>>
    decreases ts.len() - pos when 0 <= pos <= ts.len() via spec_parse_module_dec
{
    if pos >= ts.len() {
        Some(Seq::empty())
    } else {
        match spec_parse_function(s, ts, pos) {
            None => None,
            Some((sig, p1)) => match spec_parse_module(s, ts, p1) {
                None => None,
                Some(rest) => Some(seq![sig] + rest),
            },
        }
    }
}

#[via_fn]
proof fn spec_parse_module_dec(s: Seq<char>, ts: Seq<(int, TokenSpec, int)>, pos: int) {
    if 0 <= pos < ts.len() {
        lemma_parse_function_bounds(s, ts, pos);
    }
}

/// Function definitions only move forward.
proof fn lemma_parse_function_bounds(s: Seq<char>, ts: Seq<(int, TokenSpec, int)>, pos: int)
    requires
        0 <= pos,
    ensures
        spec_parse_function(s, ts, pos) matches Some(p) ==> pos < p.1 <= ts.len(),
{
    if pos < ts.len() && ts[pos].1 is Define {
        match spec_parse_type(ts, pos + 1) {
            Some((ret_ty, p1)) => {
                if p1 + 1 < ts.len() {
                    match spec_parse_params(ts, p1 + 2, true) {
                        Some((params, p2)) => {
                            lemma_parse_params_bounds(ts, p1 + 2, true);
                            if p2 + 1 < ts.len() {
                                lemma_parse_blocks_bounds(s, ts, p2 + 2, true, Seq::empty());
                            }
                        },
                        None => {},
                    }
                }
            },
            None => {},
        }
    }
}

proof fn lemma_parse_params_bounds(ts: Seq<(int, TokenSpec, int)>, pos: int, first: bool)
    requires
        0 <= pos <= ts.len(),
    ensures
        spec_parse_params(ts, pos, first) matches Some(p) ==> pos <= p.1 <= ts.len(),
    decreases ts.len() - pos,
{
    if pos < ts.len() && !(first && ts[pos].1 is RParen) {
        match spec_parse_type(ts, pos) {
            Some((ty, p1)) => {
                if p1 + 1 < ts.len() && ts[p1 + 1].1 is Comma {
                    lemma_parse_params_bounds(ts, p1 + 2, false);
                }
            },
            None => {},
        }
    }
}

proof fn lemma_parse_blocks_bounds(
    s: Seq<char>,
    ts: Seq<(int, TokenSpec, int)>,
    pos: int,
    first: bool,
    seen: Seq<Seq<char>>,
)
    requires
        0 <= pos <= ts.len(),
    ensures
        spec_parse_blocks(s, ts, pos, first, seen) matches Some(p) ==> pos < p.1 <= ts.len(),
    decreases ts.len() - pos,
{
    if pos < ts.len() && !(ts[pos].1 is RBrace) {
        let labelled = spec_at_label(ts, pos);
        let body = if labelled {
            pos + 2
        } else {
            pos
        };
        let name = if labelled {
            s.subrange(ts[pos].0, ts[pos].2)
        } else {
            "entry"@
        };
        if (first || labelled) && body <= ts.len() && !seen.contains(name) {
            lemma_parse_instrs_bounds(s, ts, body);
            match spec_parse_instrs(s, ts, body) {
                Some((ivs, p1)) => {
                    if p1 > pos {
                        lemma_parse_blocks_bounds(s, ts, p1, false, seen.push(name));
                    }
                },
                None => {},
            }
        }
    }
}

/// A scalar or void type copied by structure.
fn clone_scalar(t: &Type) -> (r: Type)
    requires
        !(*t is Array) && !(*t is Struct),
    ensures
        r == *t,
{
    match t {
        Type::Void => Type::Void,
        Type::Int(w) => Type::Int(*w),
        _ => Type::Ptr,
    }
}

/// Copy of a name without its leading marker character.
fn strip_sigil(name: &str) -> (r: String)
    ensures
        name@.len() >= 1 ==> r@ == name@.subrange(1, name@.len() as int),
        name@.len() == 0 ==> r@ == name@,
{
    let n = name.unicode_len();
    if n >= 1 {
        name.substring_char(1, n).to_owned()
    } else {
        name.to_owned()
    }
}

/// Parse one type.
fn parse_type(
    toks: &Vec<Spanned>,
    pos: usize,
    Ghost(s): Ghost<Seq<char>>,
    Ghost(ts): Ghost<Seq<(int, TokenSpec, int)>>,
) -> (r: Result<(Type, usize), ParseError>)
    requires
        toks_match(s, toks@, ts),
    ensures
        match spec_parse_type(ts, pos as int) {
            Some(p) => r matches Ok(q) && q.0 == p.0 && q.1 as int == p.1,
            None => r is Err,
        },
{
    if pos >= toks.len() {
        return Err(ParseError::UnexpectedEof);
    }
    match &toks[pos].1 {
        Token::Void => Ok((Type::Void, pos + 1)),
        Token::IntType(w) => Ok((Type::Int(*w), pos + 1)),
        Token::Ptr => Ok((Type::Ptr, pos + 1)),
        _ => Err(ParseError::InvalidType { offset: toks[pos].0 }),
    }
}

/// Parse one value of the given type.
fn parse_value(
    toks: &Vec<Spanned>,
    pos: usize,
    ty: Type,
    Ghost(s): Ghost<Seq<char>>,
    Ghost(ts): Ghost<Seq<(int, TokenSpec, int)>>,
) -> (r: Result<(Value, usize), ParseError>)
    requires
        toks_match(s, toks@, ts),
    ensures
        match spec_parse_value(s, ts, pos as int, ty) {
            Some(p) => r matches Ok(q) && q.1 as int == p.1 && spec_value_view(q.0) == Some(
                p.0,
            ),
            None => r is Err,
        },
{
    if pos >= toks.len() {
        return Err(ParseError::UnexpectedEof);
    }
    match &toks[pos].1 {
        Token::LocalIdent(name) => Ok((Value::Local(name.clone()), pos + 1)),
        Token::NumericIdent(name) => Ok((Value::Local(name.clone()), pos + 1)),
        Token::Integer(v) => Ok((Value::ConstInt { value: *v, ty }, pos + 1)),
        Token::True => Ok((Value::ConstBool(true), pos + 1)),
        Token::False => Ok((Value::ConstBool(false), pos + 1)),
        _ => Err(ParseError::UnexpectedToken { offset: toks[pos].0 }),
    }
}

/// Parse the parameter list up to (not including) the closing parenthesis.
fn parse_params(
    toks: &Vec<Spanned>,
    pos: usize,
    first: bool,
    Ghost(s): Ghost<Seq<char>>,
    Ghost(ts): Ghost<Seq<(int, TokenSpec, int)>>,
) -> (r: Result<(Vec<(String, Type)>, usize), ParseError>)
    requires
        toks_match(s, toks@, ts),
        pos <= toks@.len(),
    ensures
        match spec_parse_params(ts, pos as int, first) {
            Some(p) => r matches Ok(q) && q.1 as int == p.1 && q.0@.len() == p.0.len()
                && forall|i: int|
                0 <= i < p.0.len() ==> (#[trigger] q.0@[i]).1 == p.0[i].1 && q.0@[i].0@
                    == s.subrange(p.0[i].0.0, p.0[i].0.1),
            None => r is Err,
        },
    decreases toks@.len() - pos,
{
    if pos >= toks.len() {
        return Err(ParseError::UnexpectedEof);
    }
    if first {
        if matches!(&toks[pos].1, Token::RParen) {
            return Ok((Vec::new(), pos));
        }
    }
    let (ty, p1) = match parse_type(toks, pos, Ghost(s), Ghost(ts)) {
        Ok(q) => q,
        Err(e) => {
            return Err(e);
        },
    };
    if p1 >= toks.len() {
        return Err(ParseError::UnexpectedEof);
    }
    let name: String = match &toks[p1].1 {
        Token::LocalIdent(n) => n.clone(),
        _ => {
            return Err(ParseError::UnexpectedToken { offset: toks[p1].0 });
        },
    };
    let p2 = p1 + 1;
    if p2 < toks.len() && matches!(&toks[p2].1, Token::Comma) {
        let (mut rest, p3) = match parse_params(toks, p2 + 1, false, Ghost(s), Ghost(ts)) {
            Ok(q) => q,
            Err(e) => {
                return Err(e);
            },
        };
        rest.insert(0, (name, ty));
        proof {
            let sp = spec_parse_params(ts, pos as int, first)->Some_0;
            assert forall|i: int| 0 <= i < sp.0.len() implies (#[trigger] rest@[i]).1 == sp.0[i].1
                && rest@[i].0@ == s.subrange(sp.0[i].0.0, sp.0[i].0.1) by {
                let inner = spec_parse_params(ts, p2 + 1 as int, false)->Some_0;
                if i > 0 {
                    assert(sp.0[i] == inner.0[i - 1]);
                }
            }
        }
        Ok((rest, p3))
    } else {
        let mut one: Vec<(String, Type)> = Vec::new();
        one.push((name, ty));
        Ok((one, p2))
    }
}

/// Parse the right-hand side of `%name = ...`.
fn parse_rhs(
    toks: &Vec<Spanned>,
    pos: usize,
    result: String,
    Ghost(s): Ghost<Seq<char>>,
    Ghost(ts): Ghost<Seq<(int, TokenSpec, int)>>,
) -> (r: Result<(Instruction, usize), ParseError>)
    requires
        toks_match(s, toks@, ts),
    ensures
        match spec_parse_rhs(s, ts, pos as int, result@) {
            Some(p) => r matches Ok(q) && q.1 as int == p.1 && spec_instr_view(q.0) == Some(
                p.0,
            ),
            None => r is Err,
        },
{
    if pos >= toks.len() {
        return Err(ParseError::UnexpectedEof);
    }
    if matches!(&toks[pos].1, Token::Alloca) {
        let (ty, p1) = match parse_type(toks, pos + 1, Ghost(s), Ghost(ts)) {
            Ok(q) => q,
            Err(e) => {
                return Err(e);
            },
        };
        return Ok((Instruction::Alloca { result, ty }, p1));
    }
    if matches!(&toks[pos].1, Token::Load) {
        let (ty, p1) = match parse_type(toks, pos + 1, Ghost(s), Ghost(ts)) {
            Ok(q) => q,
            Err(e) => {
                return Err(e);
            },
        };
        if p1 >= toks.len() || !matches!(&toks[p1].1, Token::Comma) {
            return Err(ParseError::UnexpectedToken { offset: toks[pos].0 });
        }
        let (_, p2) = match parse_type(toks, p1 + 1, Ghost(s), Ghost(ts)) {
            Ok(q) => q,
            Err(e) => {
                return Err(e);
            },
        };
        let (ptr, p3) = match parse_value(toks, p2, Type::Ptr, Ghost(s), Ghost(ts)) {
            Ok(q) => q,
            Err(e) => {
                return Err(e);
            },
        };
        return Ok((Instruction::Load { result, ty, ptr }, p3));
    }
    let is_icmp = matches!(&toks[pos].1, Token::ICmp);
    if is_icmp {
        if pos + 1 >= toks.len() {
            return Err(ParseError::UnexpectedEof);
        }
        let pred = match &toks[pos + 1].1 {
            Token::Eq => ICmpPredicate::Eq,
            Token::Ne => ICmpPredicate::Ne,
            Token::Slt => ICmpPredicate::Slt,
            Token::Sle => ICmpPredicate::Sle,
            Token::Sgt => ICmpPredicate::Sgt,
            Token::Sge => ICmpPredicate::Sge,
            Token::Ult => ICmpPredicate::Ult,
            Token::Ule => ICmpPredicate::Ule,
            Token::Ugt => ICmpPredicate::Ugt,
            Token::Uge => ICmpPredicate::Uge,
            _ => {
                return Err(ParseError::UnexpectedToken { offset: toks[pos + 1].0 });
            },
        };
        let (ty, p1) = match parse_type(toks, pos + 2, Ghost(s), Ghost(ts)) {
            Ok(q) => q,
            Err(e) => {
                return Err(e);
            },
        };
        let lhs_ty = clone_scalar(&ty);
        let (lhs, p2) = match parse_value(toks, p1, lhs_ty, Ghost(s), Ghost(ts)) {
            Ok(q) => q,
            Err(e) => {
                return Err(e);
            },
        };
        if p2 >= toks.len() || !matches!(&toks[p2].1, Token::Comma) {
            return Err(ParseError::UnexpectedToken { offset: toks[pos].0 });
        }
        let rhs_ty = clone_scalar(&ty);
        let (rhs, p3) = match parse_value(toks, p2 + 1, rhs_ty, Ghost(s), Ghost(ts)) {
            Ok(q) => q,
            Err(e) => {
                return Err(e);
            },
        };
        return Ok((Instruction::ICmp { result, pred, ty, lhs, rhs }, p3));
    }
    let op: u8 = match &toks[pos].1 {
        Token::Add => 0,
        Token::Sub => 1,
        Token::Mul => 2,
        Token::UDiv => 3,
        Token::SDiv => 4,
        Token::URem => 5,
        Token::SRem => 6,
        Token::And => 7,
        Token::Or => 8,
        Token::Xor => 9,
        Token::Shl => 10,
        Token::LShr => 11,
        Token::AShr => 12,
        _ => {
            return Err(ParseError::UnexpectedToken { offset: toks[pos].0 });
        },
    };
    let (ty, p1) = match parse_type(toks, pos + 1, Ghost(s), Ghost(ts)) {
        Ok(q) => q,
        Err(e) => {
            return Err(e);
        },
    };
    let lhs_ty = clone_scalar(&ty);
    let (lhs, p2) = match parse_value(toks, p1, lhs_ty, Ghost(s), Ghost(ts)) {
        Ok(q) => q,
        Err(e) => {
            return Err(e);
        },
    };
    if p2 >= toks.len() || !matches!(&toks[p2].1, Token::Comma) {
        return Err(ParseError::UnexpectedToken { offset: toks[pos].0 });
    }
    let rhs_ty = clone_scalar(&ty);
    let (rhs, p3) = match parse_value(toks, p2 + 1, rhs_ty, Ghost(s), Ghost(ts)) {
        Ok(q) => q,
        Err(e) => {
            return Err(e);
        },
    };
    let ins = if op == 0 {
        Instruction::Add { result, ty, lhs, rhs }
    } else if op == 1 {
        Instruction::Sub { result, ty, lhs, rhs }
    } else if op == 2 {
        Instruction::Mul { result, ty, lhs, rhs }
    } else if op == 3 {
        Instruction::UDiv { result, ty, lhs, rhs }
    } else if op == 4 {
        Instruction::SDiv { result, ty, lhs, rhs }
    } else if op == 5 {
        Instruction::URem { result, ty, lhs, rhs }
    } else if op == 6 {
        Instruction::SRem { result, ty, lhs, rhs }
    } else if op == 7 {
        Instruction::And { result, ty, lhs, rhs }
    } else if op == 8 {
        Instruction::Or { result, ty, lhs, rhs }
    } else if op == 9 {
        Instruction::Xor { result, ty, lhs, rhs }
    } else if op == 10 {
        Instruction::Shl { result, ty, lhs, rhs }
    } else if op == 11 {
        Instruction::LShr { result, ty, lhs, rhs }
    } else {
        Instruction::AShr { result, ty, lhs, rhs }
    };
    Ok((ins, p3))
}

/// Parse one instruction.
fn parse_instr(
    toks: &Vec<Spanned>,
    pos: usize,
    Ghost(s): Ghost<Seq<char>>,
    Ghost(ts): Ghost<Seq<(int, TokenSpec, int)>>,
) -> (r: Result<(Instruction, usize), ParseError>)
    requires
        toks_match(s, toks@, ts),
    ensures
        match spec_parse_instr(s, ts, pos as int) {
            Some(p) => r matches Ok(q) && q.1 as int == p.1 && spec_instr_view(q.0) == Some(
                p.0,
            ),
            None => r is Err,
        },
{
    if pos >= toks.len() {
        return Err(ParseError::UnexpectedEof);
    }
    match &toks[pos].1 {
        Token::Ret => {
            if pos + 1 < toks.len() && matches!(&toks[pos + 1].1, Token::Void) {
                return Ok((Instruction::Ret { value: None }, pos + 2));
            }
            let (ty, p1) = match parse_type(toks, pos + 1, Ghost(s), Ghost(ts)) {
                Ok(q) => q,
                Err(e) => {
                    return Err(e);
                },
            };
            let (v, p2) = match parse_value(toks, p1, ty, Ghost(s), Ghost(ts)) {
                Ok(q) => q,
                Err(e) => {
                    return Err(e);
                },
            };
            Ok((Instruction::Ret { value: Some(v) }, p2))
        },
        Token::Br => {
            if pos + 1 < toks.len() && matches!(&toks[pos + 1].1, Token::Label) {
                if pos + 2 < toks.len() {
                    match &toks[pos + 2].1 {
                        Token::LocalIdent(n) => {
                            let dest = strip_sigil(n.as_str());
                            proof {
                                assert(n@.subrange(1, n@.len() as int) =~= s.subrange(
                                    ts[pos + 2].0 + 1,
                                    ts[pos + 2].2,
                                ));
                            }
                            return Ok((Instruction::Br { dest }, pos + 3));
                        },
                        _ => {
                            return Err(ParseError::UnexpectedToken { offset: toks[pos + 2].0 });
                        },
                    }
                } else {
                    return Err(ParseError::UnexpectedEof);
                }
            }
            let (ty, p1) = match parse_type(toks, pos + 1, Ghost(s), Ghost(ts)) {
                Ok(q) => q,
                Err(e) => {
                    return Err(e);
                },
            };
            let (cond, p2) = match parse_value(toks, p1, ty, Ghost(s), Ghost(ts)) {
                Ok(q) => q,
                Err(e) => {
                    return Err(e);
                },
            };
            if toks.len() - p2 < 6 {
                return Err(ParseError::UnexpectedEof);
            }
            if !matches!(&toks[p2].1, Token::Comma) {
                return Err(ParseError::UnexpectedToken { offset: toks[p2].0 });
            }
            if !matches!(&toks[p2 + 1].1, Token::Label) {
                return Err(ParseError::UnexpectedToken { offset: toks[p2 + 1].0 });
            }
            let true_dest = match &toks[p2 + 2].1 {
                Token::LocalIdent(n) => {
                    let d = strip_sigil(n.as_str());
                    proof {
                        assert(n@.subrange(1, n@.len() as int) =~= s.subrange(
                            ts[p2 + 2].0 + 1,
                            ts[p2 + 2].2,
                        ));
                    }
                    d
                },
                _ => {
                    return Err(ParseError::UnexpectedToken { offset: toks[p2 + 2].0 });
                },
            };
            if !matches!(&toks[p2 + 3].1, Token::Comma) {
                return Err(ParseError::UnexpectedToken { offset: toks[p2 + 3].0 });
            }
            if !matches!(&toks[p2 + 4].1, Token::Label) {
                return Err(ParseError::UnexpectedToken { offset: toks[p2 + 4].0 });
            }
            let false_dest = match &toks[p2 + 5].1 {
                Token::LocalIdent(n) => {
                    let d = strip_sigil(n.as_str());
                    proof {
                        assert(n@.subrange(1, n@.len() as int) =~= s.subrange(
                            ts[p2 + 5].0 + 1,
                            ts[p2 + 5].2,
                        ));
                    }
                    d
                },
                _ => {
                    return Err(ParseError::UnexpectedToken { offset: toks[p2 + 5].0 });
                },
            };
            Ok((Instruction::CondBr { cond, true_dest, false_dest }, p2 + 6))
        },
        Token::Store => {
            let (ty, p1) = match parse_type(toks, pos + 1, Ghost(s), Ghost(ts)) {
                Ok(q) => q,
                Err(e) => {
                    return Err(e);
                },
            };
            let val_ty = clone_scalar(&ty);
            let (value, p2) = match parse_value(toks, p1, val_ty, Ghost(s), Ghost(ts)) {
                Ok(q) => q,
                Err(e) => {
                    return Err(e);
                },
            };
            if p2 >= toks.len() || !matches!(&toks[p2].1, Token::Comma) {
                return Err(ParseError::UnexpectedToken { offset: toks[pos].0 });
            }
            let (_, p3) = match parse_type(toks, p2 + 1, Ghost(s), Ghost(ts)) {
                Ok(q) => q,
                Err(e) => {
                    return Err(e);
                },
            };
            let (ptr, p4) = match parse_value(toks, p3, Type::Ptr, Ghost(s), Ghost(ts)) {
                Ok(q) => q,
                Err(e) => {
                    return Err(e);
                },
            };
            Ok((Instruction::Store { value, ty, ptr }, p4))
        },
        Token::LocalIdent(n) => {
            if pos + 1 < toks.len() && matches!(&toks[pos + 1].1, Token::Equals) {
                parse_rhs(toks, pos + 2, n.clone(), Ghost(s), Ghost(ts))
            } else {
                Err(ParseError::UnexpectedToken { offset: toks[pos].0 })
            }
        },
        _ => Err(ParseError::UnexpectedToken { offset: toks[pos].0 }),
    }
}

/// The names of a sequence of blocks.
pub open spec fn block_names(blocks: Seq<BasicBlock>) -> Seq<Seq<char>> {
    blocks.map_values(|b: BasicBlock| b.name@)
}

/// Whether any block carries this name.
fn has_block(blocks: &Vec<BasicBlock>, name: &str) -> (r: bool)
    ensures
        r == block_names(blocks@).contains(name@),
{
    let mut i: usize = 0;
    while i < blocks.len()
        invariant
            0 <= i <= blocks@.len(),
            forall|j: int| 0 <= j < i ==> #[trigger] block_names(blocks@)[j] != name@,
        decreases blocks@.len() - i,
    {
        if str_eq(blocks[i].name.as_str(), name) {
            proof {
                assert(block_names(blocks@)[i as int] == name@);
            }
            return true;
        }
        proof {
            assert(block_names(blocks@)[i as int] == blocks@[i as int].name@);
        }
        i = i + 1;
    }
    false
}

/// Parse the instruction run of one block, appending to `instrs`.
fn parse_instrs(
    toks: &Vec<Spanned>,
    pos: usize,
    instrs: &mut Vec<Instruction>,
    Ghost(s): Ghost<Seq<char>>,
    Ghost(ts): Ghost<Seq<(int, TokenSpec, int)>>,
) -> (r: Result<usize, ParseError>)
    requires
        toks_match(s, toks@, ts),
        pos <= toks@.len(),
    ensures
        match spec_parse_instrs(s, ts, pos as int) {
            Some(p) => r matches Ok(q) && q as int == p.1 && final(instrs)@.len() == old(
                instrs,
            )@.len() + p.0.len() && final(instrs)@.subrange(0, old(instrs)@.len() as int) == old(
                instrs,
            )@ && forall|i: int|
                0 <= i < p.0.len() ==> spec_instr_view(
                    #[trigger] final(instrs)@[old(instrs)@.len() + i],
                ) == Some(p.0[i]),
            None => r is Err,
        },
    decreases toks@.len() - pos,
{
    if pos >= toks.len() {
        return Err(ParseError::UnexpectedEof);
    }
    if matches!(&toks[pos].1, Token::RBrace) {
        proof {
            assert(instrs@.subrange(0, instrs@.len() as int) =~= instrs@);
        }
        return Ok(pos);
    }
    let at_label = pos + 1 < toks.len() && matches!(&toks[pos].1, Token::Ident(_)) && matches!(
        &toks[pos + 1].1,
        Token::Colon,
    );
    if at_label {
        proof {
            assert(instrs@.subrange(0, instrs@.len() as int) =~= instrs@);
        }
        return Ok(pos);
    }
    let (ins, p1) = match parse_instr(toks, pos, Ghost(s), Ghost(ts)) {
        Ok(q) => q,
        Err(e) => {
            return Err(e);
        },
    };
    proof {
        lemma_parse_instr_bounds(s, ts, pos as int);
    }
    instrs.push(ins);
    let ghost mid = instrs@;
    let res = parse_instrs(toks, p1, instrs, Ghost(s), Ghost(ts));
    proof {
        match spec_parse_instrs(s, ts, pos as int) {
            Some((ivs, p2)) => {
                let head = spec_parse_instr(s, ts, pos as int)->Some_0;
                let rest = spec_parse_instrs(s, ts, p1 as int)->Some_0;
                assert(ivs == seq![head.0] + rest.0);
                assert(instrs@.subrange(0, old(instrs)@.len() as int) =~= old(instrs)@) by {
                    assert(forall|i: int|
                        0 <= i < old(instrs)@.len() ==> instrs@.subrange(0, mid.len() as int)[i]
                            == #[trigger] instrs@[i]);
                }
                assert forall|i: int| 0 <= i < ivs.len() implies spec_instr_view(
                    #[trigger] instrs@[old(instrs)@.len() + i],
                ) == Some(ivs[i]) by {
                    if i == 0 {
                        assert(instrs@.subrange(0, mid.len() as int)[mid.len() - 1] == instrs@[
                            mid.len() - 1
                        ]);
                        assert(mid[mid.len() - 1] == ins);
                        assert(ivs[0] == head.0);
                    } else {
                        assert(instrs@[mid.len() + (i - 1)] == instrs@[old(instrs)@.len() + i]);
                        assert(ivs[i] == rest.0[i - 1]);
                    }
                }
            },
            None => {},
        }
    }
    res
}

/// Parse the blocks of one function body up to and including the closing
/// brace, appending to `blocks`.
#[verifier::rlimit(100)]
fn parse_blocks(
    toks: &Vec<Spanned>,
    pos: usize,
    first: bool,
    blocks: &mut Vec<BasicBlock>,
    Ghost(s): Ghost<Seq<char>>,
    Ghost(ts): Ghost<Seq<(int, TokenSpec, int)>>,
) -> (r: Result<usize, ParseError>)
    requires
        toks_match(s, toks@, ts),
        pos <= toks@.len(),
    ensures
        match spec_parse_blocks(s, ts, pos as int, first, block_names(old(blocks)@)) {
            Some(p) => r matches Ok(q) && q as int == p.1 && final(blocks)@.len() == old(
                blocks,
            )@.len() + p.0.len() && final(blocks)@.subrange(0, old(blocks)@.len() as int) == old(
                blocks,
            )@ && forall|j: int|
                0 <= j < p.0.len() ==> block_matches(
                    #[trigger] final(blocks)@[old(blocks)@.len() + j],
                    p.0[j],
                ),
            None => r is Err,
        },
    decreases toks@.len() - pos,
{
    if pos >= toks.len() {
        return Err(ParseError::UnexpectedEof);
    }
    if matches!(&toks[pos].1, Token::RBrace) {
        proof {
            assert(blocks@.subrange(0, blocks@.len() as int) =~= blocks@);
        }
        return Ok(pos + 1);
    }
    let at_label = pos + 1 < toks.len() && matches!(&toks[pos].1, Token::Ident(_)) && matches!(
        &toks[pos + 1].1,
        Token::Colon,
    );
    proof {
        assert(token_matches(s, toks@[pos as int].1, ts[pos as int].1, ts[pos as int].0, ts[
            pos as int
        ].2));
        if pos + 1 < toks@.len() {
            assert(token_matches(s, toks@[pos as int + 1].1, ts[pos as int + 1].1, ts[pos as int
                + 1].0, ts[pos as int + 1].2));
        }
        assert(at_label == spec_at_label(ts, pos as int));
    }
    if !first && !at_label {
        return Err(ParseError::UnexpectedToken { offset: toks[pos].0 });
    }
    let name: String = if at_label {
        match &toks[pos].1 {
            Token::Ident(n) => n.clone(),
            _ => {
                return Err(ParseError::UnexpectedToken { offset: toks[pos].0 });
            },
        }
    } else {
        "entry".to_owned()
    };
    let body = if at_label {
        pos + 2
    } else {
        pos
    };
    if has_block(blocks, name.as_str()) {
        return Err(ParseError::DuplicateLabel { offset: toks[pos].0 });
    }
    let mut instrs: Vec<Instruction> = Vec::new();
    let p1 = match parse_instrs(toks, body, &mut instrs, Ghost(s), Ghost(ts)) {
        Ok(q) => q,
        Err(e) => {
            return Err(e);
        },
    };
    if instrs.len() == 0 {
        return Err(ParseError::UnexpectedToken { offset: toks[pos].0 });
    }
    let ghost pre_blocks = blocks@;
    let ghost ivs = spec_parse_instrs(s, ts, body as int)->Some_0.0;
    proof {
        assert(instrs@.len() == ivs.len());
        assert forall|k: int| 0 <= k < ivs.len() implies spec_instr_view(
            #[trigger] instrs@[k],
        ) == Some(ivs[k]) by {
            assert(instrs@[0 + k] == instrs@[k]);
        }
    }
    blocks.push(BasicBlock { name, instructions: instrs });
    let ghost our_block = blocks@[pre_blocks.len() as int];
    let ghost spec_name = if spec_at_label(ts, pos as int) {
        s.subrange(ts[pos as int].0, ts[pos as int].2)
    } else {
        "entry"@
    };
    proof {
        lemma_parse_instrs_bounds(s, ts, body as int);
        assert(block_names(blocks@) =~= block_names(pre_blocks).push(
            blocks@.last().name@,
        ));
        assert(our_block.name@ == spec_name);
        assert(block_matches(our_block, BlockSpec { name: spec_name, instrs: ivs }));
    }
    let res = parse_blocks(toks, p1, false, blocks, Ghost(s), Ghost(ts));
    proof {
        match spec_parse_blocks(s, ts, pos as int, first, block_names(old(blocks)@)) {
            Some((bvs, p2)) => {
                let mid = pre_blocks.push(our_block);
                let rest = spec_parse_blocks(
                    s,
                    ts,
                    p1 as int,
                    false,
                    block_names(pre_blocks).push(spec_name),
                )->Some_0;
                assert(bvs == seq![BlockSpec { name: spec_name, instrs: ivs }] + rest.0);
                let mid_len = pre_blocks.len() + 1;
                assert(blocks@.subrange(0, pre_blocks.len() as int) =~= pre_blocks) by {
                    assert(forall|i: int|
                        0 <= i < pre_blocks.len() ==> blocks@.subrange(0, mid_len as int)[i]
                            == #[trigger] blocks@[i]);
                }
                assert forall|j: int| 0 <= j < bvs.len() implies block_matches(
                    #[trigger] blocks@[pre_blocks.len() + j],
                    bvs[j],
                ) by {
                    if j == 0 {
                        assert(blocks@.subrange(0, mid_len as int)[mid_len - 1] == blocks@[mid_len
                            - 1]);
                        assert(mid[mid_len - 1] == our_block);
                        assert(bvs[0] == BlockSpec { name: spec_name, instrs: ivs });
                    } else {
                        assert(blocks@[mid_len + (j - 1)] == blocks@[pre_blocks.len() + j]);
                        assert(bvs[j] == rest.0[j - 1]);
                    }
                }
            },
            None => {},
        }
    }
    res
}

/// A parsed function realizes its mathematical form: same name, return
/// type, parameters, and the same blocks, labels and instructions in order.
pub open spec fn fn_matches_sig(s: Seq<char>, f: Function, sig: FnSig) -> bool {
    &&& f.name@ == s.subrange(sig.name_start, sig.name_end)
    &&& f.ret_ty == sig.ret_ty
    &&& f.params@.len() == sig.params.len()
    &&& forall|j: int|
        0 <= j < sig.params.len() ==> (#[trigger] f.params@[j]).1 == sig.params[j].1
            && f.params@[j].0@ == s.subrange(sig.params[j].0.0, sig.params[j].0.1)
    &&& f.blocks@.len() == sig.blocks.len()
    &&& forall|j: int|
        0 <= j < sig.blocks.len() ==> block_matches(#[trigger] f.blocks@[j], sig.blocks[j])
}

/// Parse one function definition.
fn parse_function(
    toks: &Vec<Spanned>,
    pos: usize,
    Ghost(s): Ghost<Seq<char>>,
    Ghost(ts): Ghost<Seq<(int, TokenSpec, int)>>,
) -> (r: Result<(Function, usize), ParseError>)
    requires
        toks_match(s, toks@, ts),
        pos <= toks@.len(),
    ensures
        match spec_parse_function(s, ts, pos as int) {
            Some(p) => r matches Ok(q) && q.1 as int == p.1 && fn_matches_sig(s, q.0, p.0),
            None => r is Err,
        },
    decreases toks@.len() - pos,
{
    if pos >= toks.len() {
        return Err(ParseError::UnexpectedEof);
    }
    if !matches!(&toks[pos].1, Token::Define) {
        return Err(ParseError::UnexpectedToken { offset: toks[pos].0 });
    }
    let (ret_ty, p1) = match parse_type(toks, pos + 1, Ghost(s), Ghost(ts)) {
        Ok(q) => q,
        Err(e) => {
            return Err(e);
        },
    };
    if p1 >= toks.len() || p1 + 1 >= toks.len() {
        return Err(ParseError::UnexpectedEof);
    }
    let name: String = match &toks[p1].1 {
        Token::GlobalIdent(n) => strip_sigil(n.as_str()),
        _ => {
            return Err(ParseError::UnexpectedToken { offset: toks[p1].0 });
        },
    };
    if !matches!(&toks[p1 + 1].1, Token::LParen) {
        return Err(ParseError::UnexpectedToken { offset: toks[p1 + 1].0 });
    }
    let (params, p2) = match parse_params(toks, p1 + 2, true, Ghost(s), Ghost(ts)) {
        Ok(q) => q,
        Err(e) => {
            return Err(e);
        },
    };
    proof {
        lemma_parse_params_bounds(ts, p1 + 2 as int, true);
    }
    if p2 >= toks.len() || p2 + 1 >= toks.len() {
        return Err(ParseError::UnexpectedEof);
    }
    if !matches!(&toks[p2].1, Token::RParen) {
        return Err(ParseError::UnexpectedToken { offset: toks[p2].0 });
    }
    if !matches!(&toks[p2 + 1].1, Token::LBrace) {
        return Err(ParseError::UnexpectedToken { offset: toks[p2 + 1].0 });
    }
    let mut blocks: Vec<BasicBlock> = Vec::new();
    proof {
        assert(block_names(blocks@) =~= Seq::<Seq<char>>::empty());
    }
    let p3 = match parse_blocks(toks, p2 + 2, true, &mut blocks, Ghost(s), Ghost(ts)) {
        Ok(q) => q,
        Err(e) => {
            return Err(e);
        },
    };
    proof {
        let gname = toks@[p1 as int].1->GlobalIdent_0;
        assert(gname@ == s.subrange(ts[p1 as int].0, ts[p1 as int].2));
        assert(gname@.len() == ts[p1 as int].2 - ts[p1 as int].0 >= 1);
        assert(gname@.subrange(1, gname@.len() as int) =~= s.subrange(
            ts[p1 as int].0 + 1,
            ts[p1 as int].2,
        ));
        match spec_parse_blocks(s, ts, p2 + 2 as int, true, Seq::empty()) {
            Some(bp) => {
                assert forall|j: int| 0 <= j < bp.0.len() implies block_matches(
                    #[trigger] blocks@[j],
                    bp.0[j],
                ) by {
                    assert(blocks@[0 + j] == blocks@[j]);
                }
            },
            None => {},
        }
    }
    Ok((Function { name, ret_ty, params, blocks }, p3))
}

/// Parse all function definitions until the end of the tokens.
fn parse_functions(
    toks: &Vec<Spanned>,
    pos: usize,
    Ghost(s): Ghost<Seq<char>>,
    Ghost(ts): Ghost<Seq<(int, TokenSpec, int)>>,
) -> (r: Result<Vec<Function>, ParseError>)
    requires
        toks_match(s, toks@, ts),
        pos <= toks@.len(),
    ensures
        match spec_parse_module(s, ts, pos as int) {
            Some(sigs) => r matches Ok(v) && v@.len() == sigs.len() && forall|i: int|
                0 <= i < sigs.len() ==> fn_matches_sig(s, #[trigger] v@[i], sigs[i]),
            None => r is Err,
        },
    decreases toks@.len() - pos,
{
    if pos >= toks.len() {
        return Ok(Vec::new());
    }
    let (f, p1) = match parse_function(toks, pos, Ghost(s), Ghost(ts)) {
        Ok(q) => q,
        Err(e) => {
            return Err(e);
        },
    };
    proof {
        lemma_parse_function_bounds(s, ts, pos as int);
    }
    let mut rest = match parse_functions(toks, p1, Ghost(s), Ghost(ts)) {
        Ok(v) => v,
        Err(e) => {
            return Err(e);
        },
    };
    rest.insert(0, f);
    proof {
        let sigs = spec_parse_module(s, ts, pos as int)->Some_0;
        let inner = spec_parse_module(s, ts, p1 as int)->Some_0;
        assert forall|i: int| 0 <= i < sigs.len() implies fn_matches_sig(
            s,
            #[trigger] rest@[i],
            sigs[i],
        ) by {
            if i > 0 {
                assert(sigs[i] == inner[i - 1]);
            }
        }
    }
    Ok(rest)
}

/// Parse source IR text into a module. The outcome is a function of the
/// input text alone: the same text always lexes to the same tokens and
/// parses to the same module, up to the views of its strings.
pub fn parse(source: &str) -> (r: Result<Module, ParseError>)
    ensures
        match spec_tokenize(source@, 0) {
            Err(off) => r matches Err(pe) && pe matches ParseError::Lex { offset } && offset
                == off,
            Ok(ts) => match spec_parse_module(source@, ts, 0) {
                Some(sigs) => r matches Ok(m) && m.functions@.len() == sigs.len() && forall|
                    i: int,
                |
                    0 <= i < sigs.len() ==> fn_matches_sig(
                        source@,
                        #[trigger] m.functions@[i],
                        sigs[i],
                    ),
                None => r is Err,
            },
        },
{
    let toks = match tokenize(source) {
        Ok(v) => v,
        Err(e) => {
            return Err(ParseError::Lex { offset: e.offset });
        },
    };
    let ghost s = source@;
    let ghost ts = spec_tokenize(s, 0)->Ok_0;
    proof {
        lemma_tokenize_spans(s, 0);
    }
    let funcs = match parse_functions(&toks, 0, Ghost(s), Ghost(ts)) {
        Ok(v) => v,
        Err(e) => {
            return Err(e);
        },
    };
    Ok(Module { functions: funcs })
}

} // verus!
