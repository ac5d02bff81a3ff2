//! Per-function translation state: value bindings, label table, fixup list,
//! naive temporary allocation, frame layout, and the instruction buffer.

use vstd::prelude::*;
use crate::ir::{Type, Value};
use crate::target::{Instruction, Reg, REG_FP, REG_ZERO};
use crate::text::{assoc_get, assoc_view, lemma_assoc_view_push};
use super::{TranslateError, TranslateResult};

verus! {

broadcast use vstd::seq::group_seq_axioms;

/// First register index of the naive temporary pool (t0).
pub const FIRST_TEMP: u8 = 8;

/// One past the last slot of the naive temporary pool: twelve temporaries,
/// t0..t7 then t8..t11.
pub const TEMP_POOL_END: u8 = 20;

/// Largest frame the translator will lay out, so that every frame offset
/// fits the 16-bit immediate of a load or store.
pub const MAX_FRAME: i32 = 0x7FF0;

/// Largest instruction count per function, so that branch offsets scaled by
/// the 4-byte instruction size fit a 32-bit immediate.
pub const MAX_CODE_LEN: usize = 0x0FFF_FFFF;

/// Where an SSA value lives during translation.
#[derive(Debug, Clone, Copy, PartialEq, Eq, Structural)]
pub enum Location {
    /// Single register.
    Reg(Reg),
    /// Register pair holding a 64-bit value: low and high word.
    RegPair { lo: Reg, hi: Reg },
    /// Register quad holding a 128-bit value.
    RegQuad { r0: Reg, r1: Reg, r2: Reg, r3: Reg },
    /// Stack slot at the given offset from the frame pointer (negative for
    /// locals, non-negative for stack-passed parameters).
    Stack(i32),
    /// Known constant, not yet materialized.
    Const(i64),
}

/// A location is in range when its registers name real registers and its
/// stack offset fits the frame limit.
pub open spec fn loc_ok(l: Location) -> bool {
    match l {
        Location::Reg(r) => r.is_valid(),
        Location::RegPair { lo, hi } => lo.is_valid() && hi.is_valid(),
        Location::RegQuad { r0, r1, r2, r3 } => r0.is_valid() && r1.is_valid() && r2.is_valid()
            && r3.is_valid(),
        Location::Stack(off) => -MAX_FRAME <= off <= MAX_FRAME,
        Location::Const(_) => true,
    }
}

/// The temporary register that pool slot `t` names: slots 8..16 map to
/// t0..t7 (r8..r15) and slots 16..20 map to t8..t11 (r24..r27), skipping the
/// callee-saved s-registers.
pub open spec fn spec_temp_reg(t: u8) -> Reg {
    if t < 16 {
        Reg(t)
    } else {
        Reg((t + 8) as u8)
    }
}

/// Registers handed out by the naive temporary allocator.
pub open spec fn is_temp_reg(r: Reg) -> bool {
    (8 <= r.0 < 16) || (24 <= r.0 < 28)
}


/// Well-formedness survives any step that keeps the temporary cursor and
/// frame in range, only grows the code, and extends the binding list, label
/// table and fixup list by at most one entry that is itself in range.
proof fn lemma_wf_preserve(a: TranslationContext, b: TranslationContext)
    requires
        a.wf(),
        b.instructions@.len() >= a.instructions@.len(),
        b.instructions@.len() <= MAX_CODE_LEN,
        FIRST_TEMP <= b.next_temp <= TEMP_POOL_END,
        0 <= b.stack_size <= MAX_FRAME,
        b.bindings@ == a.bindings@ || (b.bindings@.len() == a.bindings@.len() + 1
            && b.bindings@.drop_last() == a.bindings@ && loc_ok(b.bindings@.last().1)),
        b.labels@ == a.labels@ || (b.labels@.len() == a.labels@.len() + 1
            && b.labels@.drop_last() == a.labels@ && b.labels@.last().1
            <= b.instructions@.len()),
        b.fixups@ == a.fixups@ || b.fixups@.len() == 0 || (b.fixups@.len() == a.fixups@.len()
            + 1 && b.fixups@.drop_last() == a.fixups@ && b.fixups@.last().0
            < b.instructions@.len()),
    ensures
        b.wf(),
{
    if b.bindings@ == a.bindings@ {
        assert forall|n: Seq<char>| b.bindings_map().dom().contains(n) implies loc_ok(
            #[trigger] b.bindings_map()[n],
        ) by {
            assert(a.bindings_map()[n] == b.bindings_map()[n]);
            assert(loc_ok(a.bindings_map()[n]));
        }
    } else {
        let e = b.bindings@.last();
        assert(b.bindings@ =~= a.bindings@.push(e));
        lemma_assoc_view_push(a.bindings@, e.0, e.1);
        assert forall|n: Seq<char>| b.bindings_map().dom().contains(n) implies loc_ok(
            #[trigger] b.bindings_map()[n],
        ) by {
            if n == e.0@ {
            } else {
                assert(a.bindings_map().dom().contains(n));
                assert(loc_ok(a.bindings_map()[n]));
            }
        }
    }
    if b.labels@ == a.labels@ {
        assert forall|n: Seq<char>| b.labels_map().dom().contains(n) implies #[trigger] b
            .labels_map()[n] <= b.instructions@.len() by {
            assert(a.labels_map()[n] == b.labels_map()[n]);
            assert(a.labels_map()[n] <= a.instructions@.len());
        }
    } else {
        let e = b.labels@.last();
        assert(b.labels@ =~= a.labels@.push(e));
        lemma_assoc_view_push(a.labels@, e.0, e.1);
        assert forall|n: Seq<char>| b.labels_map().dom().contains(n) implies #[trigger] b
            .labels_map()[n] <= b.instructions@.len() by {
            if n == e.0@ {
            } else {
                assert(a.labels_map().dom().contains(n));
                assert(a.labels_map()[n] <= a.instructions@.len());
            }
        }
    }
    assert forall|i: int| 0 <= i < b.fixups@.len() implies #[trigger] b.fixups@[i].0
        < b.instructions@.len() by {
        if b.fixups@ == a.fixups@ {
            assert(a.fixups@[i].0 < a.instructions@.len());
        } else if b.fixups@.len() != 0 {
            if i < a.fixups@.len() {
                assert(b.fixups@[i] == b.fixups@.drop_last()[i]);
                assert(a.fixups@[i].0 < a.instructions@.len());
            } else {
                assert(b.fixups@[i] == b.fixups@.last());
            }
        }
    }
}

/// Translation context for a single function.
pub struct TranslationContext {
    /// Name of the function being translated.
    pub function_name: String,
    /// Value bindings: SSA name to location, latest binding first in effect.
    pub bindings: Vec<(String, Location)>,
    /// Generated instructions.
    pub instructions: Vec<Instruction>,
    /// Label positions: block name to instruction index.
    pub labels: Vec<(String, u32)>,
    /// Pending fixups: instruction index and the label it refers to.
    pub fixups: Vec<(usize, String)>,
    /// Next slot of the naive temporary pool.
    pub next_temp: u8,
    /// Current stack frame size in bytes.
    pub stack_size: i32,
    /// Name of the block being translated.
    pub current_block: String,
}

impl TranslationContext {
    /// Map denoted by the binding list.
    pub open spec fn bindings_map(self) -> Map<Seq<char>, Location> {
        assoc_view(self.bindings@)
    }

    /// Map denoted by the label table.
    pub open spec fn labels_map(self) -> Map<Seq<char>, u32> {
        assoc_view(self.labels@)
    }

    /// Well-formedness, preserved by every operation: the temporary cursor
    /// stays within its pool, the frame within its limit, the code within
    /// the addressable range, every bound location is in range, every label
    /// lies within the code emitted so far, and every fixup names an
    /// existing instruction.
    pub open spec fn wf(self) -> bool {
        &&& FIRST_TEMP <= self.next_temp <= TEMP_POOL_END
        &&& 0 <= self.stack_size <= MAX_FRAME
        &&& self.instructions@.len() <= MAX_CODE_LEN
        &&& forall|n: Seq<char>|
            self.bindings_map().dom().contains(n) ==> loc_ok(#[trigger] self.bindings_map()[n])
        &&& forall|n: Seq<char>|
            self.labels_map().dom().contains(n) ==> #[trigger] self.labels_map()[n]
                <= self.instructions@.len()
        &&& forall|i: int|
            0 <= i < self.fixups@.len() ==> #[trigger] self.fixups@[i].0
                < self.instructions@.len()
    }

    /// The context `new` extends `old` by appending `added` instructions,
    /// consuming `temps` temporary slots, and touching nothing else.
    pub open spec fn adds_code(
        old_c: TranslationContext,
        new_c: TranslationContext,
        added: Seq<Instruction>,
        temps: int,
    ) -> bool {
        &&& new_c.instructions@ == old_c.instructions@ + added
        &&& new_c.next_temp == old_c.next_temp + temps
        &&& new_c.bindings@ == old_c.bindings@
        &&& new_c.labels@ == old_c.labels@
        &&& new_c.fixups@ == old_c.fixups@
        &&& new_c.stack_size == old_c.stack_size
        &&& new_c.function_name == old_c.function_name
        &&& new_c.current_block == old_c.current_block
    }

    /// Fresh context for one function.
    pub fn new(function_name: String) -> (ctx: Self)
        ensures
            ctx.function_name == function_name,
            ctx.bindings@.len() == 0,
            ctx.instructions@.len() == 0,
            ctx.labels@.len() == 0,
            ctx.fixups@.len() == 0,
            ctx.next_temp == FIRST_TEMP,
            ctx.stack_size == 0,
            ctx.bindings_map() == Map::<Seq<char>, Location>::empty(),
            ctx.labels_map() == Map::<Seq<char>, u32>::empty(),
            ctx.wf(),
    {
        Self {
            function_name,
            bindings: Vec::new(),
            instructions: Vec::new(),
            labels: Vec::new(),
            fixups: Vec::new(),
            next_temp: FIRST_TEMP,
            stack_size: 0,
            current_block: String::new(),
        }
    }

    /// Start a new basic block: record its label at the current instruction
    /// index. A block name may be recorded only once per function.
    pub fn start_block(&mut self, name: &str) -> (r: TranslateResult<()>)
        requires
            old(self).wf(),
        ensures
            final(self).wf(),
            old(self).labels_map().dom().contains(name@) ==> *final(self) == *old(self) && (
            r matches Err(TranslateError::DuplicateBlock(n)) && n@ == name@),
            !old(self).labels_map().dom().contains(name@) ==> {
                &&& r is Ok
                &&& final(self).labels_map() == old(self).labels_map().insert(
                    name@,
                    old(self).instructions@.len() as u32,
                )
                &&& final(self).current_block@ == name@
                &&& final(self).instructions@ == old(self).instructions@
                &&& final(self).bindings@ == old(self).bindings@
                &&& final(self).fixups@ == old(self).fixups@
                &&& final(self).next_temp == old(self).next_temp
                &&& final(self).stack_size == old(self).stack_size
                &&& final(self).function_name == old(self).function_name
            },
    {
        if assoc_get(&self.labels, name).is_some() {
            return Err(TranslateError::DuplicateBlock(name.to_owned()));
        }
        let index = self.instructions.len() as u32;
        self.current_block = name.to_owned();
        let owned = name.to_owned();
        proof {
            lemma_assoc_view_push(self.labels@, owned, index);
        }
        self.labels.push((owned, index));
        proof {
            assert(self.labels@.drop_last() =~= old(self).labels@);
            lemma_wf_preserve(*old(self), *self);
        }
        Ok(())
    }

    /// Append one instruction; returns its index.
    pub fn emit(&mut self, instr: Instruction) -> (idx: usize)
        requires
            old(self).wf(),
            old(self).instructions@.len() < MAX_CODE_LEN,
        ensures
            final(self).wf(),
            idx == old(self).instructions@.len(),
            Self::adds_code(*old(self), *final(self), seq![instr], 0),
    {
        let idx = self.instructions.len();
        self.instructions.push(instr);
        proof {
            assert(self.instructions@ =~= old(self).instructions@ + seq![instr]);
            lemma_wf_preserve(*old(self), *self);
        }
        idx
    }

    /// Hand out the next caller-saved temporary, t0..t7 then t8..t11,
    /// skipping the callee-saved s-registers. Fails once the pool of twelve
    /// is exhausted.
    pub fn alloc_temp(&mut self) -> (r: TranslateResult<Reg>)
        requires
            old(self).wf(),
        ensures
            final(self).wf(),
            old(self).next_temp < TEMP_POOL_END ==> {
                &&& r matches Ok(reg) && reg == spec_temp_reg(old(self).next_temp)
                    && is_temp_reg(reg) && reg.is_valid()
                &&& Self::adds_code(*old(self), *final(self), Seq::empty(), 1)
            },
            old(self).next_temp >= TEMP_POOL_END ==> r == TranslateResult::<Reg>::Err(
                TranslateError::OutOfRegisters,
            ) && *final(self) == *old(self),
    {
        if self.next_temp >= TEMP_POOL_END {
            return Err(TranslateError::OutOfRegisters);
        }
        let reg = if self.next_temp < 16 {
            Reg(self.next_temp)
        } else {
            Reg(self.next_temp + 8)
        };
        self.next_temp = self.next_temp + 1;
        proof {
            assert(self.instructions@ =~= old(self).instructions@ + Seq::<Instruction>::empty());
            lemma_wf_preserve(*old(self), *self);
        }
        Ok(reg)
    }

    /// Two consecutive temporaries, for the low and high word of a 64-bit
    /// value.
    pub fn alloc_reg_pair(&mut self) -> (r: TranslateResult<(Reg, Reg)>)
        requires
            old(self).wf(),
        ensures
            final(self).wf(),
            old(self).next_temp + 1 < TEMP_POOL_END ==> {
                &&& r matches Ok((lo, hi)) && lo == spec_temp_reg(old(self).next_temp) && hi
                    == spec_temp_reg((old(self).next_temp + 1) as u8) && is_temp_reg(lo)
                    && is_temp_reg(hi) && lo != hi
                &&& Self::adds_code(*old(self), *final(self), Seq::empty(), 2)
            },
            old(self).next_temp + 1 >= TEMP_POOL_END ==> {
                &&& r is Err
                &&& Self::adds_code(
                    *old(self),
                    *final(self),
                    Seq::empty(),
                    if old(self).next_temp < TEMP_POOL_END {
                        1int
                    } else {
                        0int
                    },
                )
            },
    {
        let lo = match self.alloc_temp() {
            Ok(reg) => reg,
            Err(e) => {
                return Err(e);
            },
        };
        let hi = match self.alloc_temp() {
            Ok(reg) => reg,
            Err(e) => {
                return Err(e);
            },
        };
        Ok((lo, hi))
    }

    /// Grow the frame by `size` bytes; returns the new slot's offset from
    /// the frame pointer, negative for locals.
    pub fn alloc_stack(&mut self, size: i32) -> (off: i32)
        requires
            old(self).wf(),
            0 <= size,
            old(self).stack_size + size <= MAX_FRAME,
        ensures
            final(self).wf(),
            final(self).stack_size == old(self).stack_size + size,
            off == -final(self).stack_size,
            -MAX_FRAME <= off <= 0,
            final(self).instructions@ == old(self).instructions@,
            final(self).bindings@ == old(self).bindings@,
            final(self).labels@ == old(self).labels@,
            final(self).fixups@ == old(self).fixups@,
            final(self).next_temp == old(self).next_temp,
            final(self).function_name == old(self).function_name,
            final(self).current_block == old(self).current_block,
    {
        self.stack_size = self.stack_size + size;
        proof {
            lemma_wf_preserve(*old(self), *self);
        }
        -self.stack_size
    }

    /// Bind a name to a location; a later binding shadows an earlier one.
    pub fn bind(&mut self, name: &str, loc: Location)
        requires
            old(self).wf(),
            loc_ok(loc),
        ensures
            final(self).wf(),
            final(self).bindings_map() == old(self).bindings_map().insert(name@, loc),
            final(self).instructions@ == old(self).instructions@,
            final(self).labels@ == old(self).labels@,
            final(self).fixups@ == old(self).fixups@,
            final(self).next_temp == old(self).next_temp,
            final(self).stack_size == old(self).stack_size,
            final(self).function_name == old(self).function_name,
            final(self).current_block == old(self).current_block,
    {
        let owned = name.to_owned();
        proof {
            lemma_assoc_view_push(self.bindings@, owned, loc);
        }
        self.bindings.push((owned, loc));
        proof {
            assert(self.bindings@.drop_last() =~= old(self).bindings@);
            lemma_wf_preserve(*old(self), *self);
        }
    }

    /// ABI location of parameter `index`: the first four live in a0..a3,
    /// the rest in 4-byte stack slots above the frame pointer.
    pub open spec fn spec_param_loc(index: int) -> Location {
        if index < 4 {
            Location::Reg(Reg((4 + index) as u8))
        } else {
            Location::Stack((((index - 4) * 4)) as i32)
        }
    }

    /// Bind parameter `index` to its ABI location.
    pub fn bind_parameter(&mut self, name: &str, _ty: &Type, index: usize) -> (r: TranslateResult<
        (),
    >)
        requires
            old(self).wf(),
            index < 2048,
        ensures
            final(self).wf(),
            r is Ok,
            final(self).bindings_map() == old(self).bindings_map().insert(
                name@,
                Self::spec_param_loc(index as int),
            ),
            final(self).instructions@ == old(self).instructions@,
            final(self).labels@ == old(self).labels@,
            final(self).fixups@ == old(self).fixups@,
            final(self).next_temp == old(self).next_temp,
            final(self).stack_size == old(self).stack_size,
            final(self).function_name == old(self).function_name,
            final(self).current_block == old(self).current_block,
    {
        let loc = if index < 4 {
            Location::Reg(Reg((4 + index) as u8))
        } else {
            Location::Stack(((index - 4) * 4) as i32)
        };
        self.bind(name, loc);
        Ok(())
    }

    /// Location bound to `name`, or `UndefinedValue` when there is none.
    pub fn get_location(&self, name: &str) -> (r: TranslateResult<&Location>)
        ensures
            match r {
                Ok(l) => self.bindings_map().dom().contains(name@) && *l == self.bindings_map()[
                    name@
                ],
                Err(e) => !self.bindings_map().dom().contains(name@) && (
                e matches TranslateError::UndefinedValue(n) && n@ == name@),
            },
    {
        match assoc_get(&self.bindings, name) {
            Some(l) => Ok(l),
            None => Err(TranslateError::UndefinedValue(name.to_owned())),
        }
    }


    /// Instruction sequence the emitter uses to materialize the 32-bit
    /// immediate `v` into `rd`: zero moves from the zero register, small
    /// values use one `Addi`, and everything else uses `Lui` over the upper
    /// twenty bits followed, when needed, by an `Addi` whose sign is
    /// compensated in the upper part.
    pub open spec fn spec_imm_materialization(rd: Reg, v: u32) -> Seq<Instruction> {
        if v == 0 {
            seq![Instruction::Add { rd, rs1: Reg(REG_ZERO), rs2: Reg(REG_ZERO) }]
        } else if v < 2048 {
            seq![Instruction::Addi { rd, rs1: Reg(REG_ZERO), imm: v as i16 }]
        } else {
            let upper = Self::spec_imm_upper(v);
            let lower = Self::spec_imm_lower(v);
            if v & 0xFFF == 0 {
                seq![Instruction::Lui { rd, imm: upper }]
            } else {
                seq![
                    Instruction::Lui { rd, imm: upper },
                    Instruction::Addi { rd, rs1: rd, imm: lower },
                ]
            }
        }
    }

    /// Upper twenty bits of the materialization, rounded up when the lower
    /// twelve bits will be sign-extended negative.
    pub open spec fn spec_imm_upper(v: u32) -> u32 {
        (((v >> 12) + ((v >> 11) & 1)) % 0x100000) as u32
    }

    /// Lower twelve bits of the materialization, as a sign-extended addend.
    pub open spec fn spec_imm_lower(v: u32) -> i16 {
        if (v & 0xFFF) >= 0x800 {
            ((v & 0xFFF) - 0x1000) as i16
        } else {
            (v & 0xFFF) as i16
        }
    }

    /// Emit instructions that leave the 32-bit immediate `value` in `rd`.
    pub fn emit_load_imm(&mut self, rd: Reg, value: u32)
        requires
            old(self).wf(),
            old(self).instructions@.len() + 2 <= MAX_CODE_LEN,
        ensures
            final(self).wf(),
            Self::adds_code(
                *old(self),
                *final(self),
                Self::spec_imm_materialization(rd, value),
                0,
            ),
    {
        if value == 0 {
            self.emit(Instruction::Add { rd, rs1: Reg(REG_ZERO), rs2: Reg(REG_ZERO) });
        } else if value < 2048 {
            self.emit(Instruction::Addi { rd, rs1: Reg(REG_ZERO), imm: value as i16 });
        } else {
            proof {
                assert((value >> 12) <= 0xFFFFF && ((value >> 11) & 1) <= 1 && (value & 0xFFF)
                    <= 0xFFF) by (bit_vector);
            }
            let upper: u32 = ((value >> 12) + ((value >> 11) & 1)) % 0x100000;
            let lower: u32 = value & 0xFFF;
            self.emit(Instruction::Lui { rd, imm: upper });
            if lower != 0 {
                let imm: i16 = if lower >= 0x800 {
                    ((lower as i32) - 0x1000) as i16
                } else {
                    lower as i16
                };
                self.emit(Instruction::Addi { rd, rs1: rd, imm });
                proof {
                    assert(self.instructions@ =~= old(self).instructions@
                        + Self::spec_imm_materialization(rd, value));
                }
            } else {
                proof {
                    assert(self.instructions@ =~= old(self).instructions@
                        + Self::spec_imm_materialization(rd, value));
                }
            }
        }
    }

    /// Whether `load_value` succeeds given the bindings and the temporary
    /// cursor: a local must be bound to a register, a spilled slot or a
    /// known constant, and every case but a register-resident local needs
    /// one free temporary.
    pub open spec fn spec_load_ok(m: Map<Seq<char>, Location>, nt: u8, v: Value) -> bool {
        match v {
            Value::Local(n) => m.dom().contains(n@) && match m[n@] {
                Location::Reg(_) => true,
                Location::Stack(_) => nt < TEMP_POOL_END,
                Location::Const(_) => nt < TEMP_POOL_END,
                _ => false,
            },
            Value::ConstInt { .. } => nt < TEMP_POOL_END,
            Value::ConstBool(_) => nt < TEMP_POOL_END,
            Value::Null => nt < TEMP_POOL_END,
            _ => false,
        }
    }

    /// Register that `load_value` returns on success.
    pub open spec fn spec_load_reg(m: Map<Seq<char>, Location>, nt: u8, v: Value) -> Reg {
        match v {
            Value::Local(n) => match m[n@] {
                Location::Reg(r) => r,
                _ => spec_temp_reg(nt),
            },
            _ => spec_temp_reg(nt),
        }
    }

    /// Instructions that `load_value` emits on success.
    pub open spec fn spec_load_code(m: Map<Seq<char>, Location>, nt: u8, v: Value) -> Seq<
        Instruction,
    > {
        match v {
            Value::Local(n) => match m[n@] {
                Location::Reg(_) => Seq::empty(),
                Location::Stack(off) => seq![
                    Instruction::Lw { rd: spec_temp_reg(nt), rs1: Reg(REG_FP), imm: off as i16 },
                ],
                Location::Const(c) => Self::spec_imm_materialization(spec_temp_reg(nt), c as u32),
                _ => Seq::empty(),
            },
            Value::ConstInt { value, .. } => Self::spec_imm_materialization(
                spec_temp_reg(nt),
                value as u32,
            ),
            Value::ConstBool(b) => Self::spec_imm_materialization(
                spec_temp_reg(nt),
                if b {
                    1u32
                } else {
                    0u32
                },
            ),
            Value::Null => Self::spec_imm_materialization(spec_temp_reg(nt), 0u32),
            _ => Seq::empty(),
        }
    }

    /// Temporaries that `load_value` consumes on success.
    pub open spec fn spec_load_temps(m: Map<Seq<char>, Location>, v: Value) -> int {
        match v {
            Value::Local(n) => match m[n@] {
                Location::Reg(_) => 0int,
                _ => 1int,
            },
            _ => 1int,
        }
    }

    /// Error that `load_value` reports when it cannot succeed.
    pub open spec fn spec_load_err_matches(
        m: Map<Seq<char>, Location>,
        nt: u8,
        v: Value,
        e: TranslateError,
    ) -> bool {
        match v {
            Value::Local(n) => if !m.dom().contains(n@) {
                e matches TranslateError::UndefinedValue(x) && x@ == n@
            } else {
                match m[n@] {
                    Location::Stack(_) => e == TranslateError::OutOfRegisters,
                    Location::Const(_) => e == TranslateError::OutOfRegisters,
                    _ => e == TranslateError::UnsupportedType(Type::Int(64)),
                }
            },
            Value::ConstInt { .. } => e == TranslateError::OutOfRegisters,
            Value::ConstBool(_) => e == TranslateError::OutOfRegisters,
            Value::Null => e == TranslateError::OutOfRegisters,
            _ => e is UnsupportedInstruction,
        }
    }

    /// Materialize a value into a register: a register-resident local is
    /// returned as it stands; a spilled local is reloaded from the frame; a
    /// constant is materialized as an immediate.
    pub fn load_value(&mut self, value: &Value) -> (r: TranslateResult<Reg>)
        requires
            old(self).wf(),
            old(self).instructions@.len() + 2 <= MAX_CODE_LEN,
        ensures
            final(self).wf(),
            Self::spec_load_ok(old(self).bindings_map(), old(self).next_temp, *value) ==> {
                &&& r matches Ok(reg) && reg == Self::spec_load_reg(
                    old(self).bindings_map(),
                    old(self).next_temp,
                    *value,
                ) && reg.is_valid()
                &&& Self::adds_code(
                    *old(self),
                    *final(self),
                    Self::spec_load_code(old(self).bindings_map(), old(self).next_temp, *value),
                    Self::spec_load_temps(old(self).bindings_map(), *value),
                )
            },
            !Self::spec_load_ok(old(self).bindings_map(), old(self).next_temp, *value) ==> {
                &&& *final(self) == *old(self)
                &&& r matches Err(e) && Self::spec_load_err_matches(
                    old(self).bindings_map(),
                    old(self).next_temp,
                    *value,
                    e,
                )
            },
    {
        match value {
            Value::Local(name) => {
                let loc = match self.get_location(name.as_str()) {
                    Ok(l) => *l,
                    Err(e) => {
                        return Err(e);
                    },
                };
                match loc {
                    Location::Reg(r) => Ok(r),
                    Location::Stack(offset) => {
                        let rd = match self.alloc_temp() {
                            Ok(reg) => reg,
                            Err(e) => {
                                return Err(e);
                            },
                        };
                        self.emit(Instruction::Lw {
                            rd,
                            rs1: Reg(REG_FP),
                            imm: offset as i16,
                        });
                        Ok(rd)
                    },
                    Location::Const(c) => {
                        let rd = match self.alloc_temp() {
                            Ok(reg) => reg,
                            Err(e) => {
                                return Err(e);
                            },
                        };
                        self.emit_load_imm(rd, c as u32);
                        Ok(rd)
                    },
                    _ => Err(TranslateError::UnsupportedType(Type::Int(64))),
                }
            },
            Value::ConstInt { value: v, .. } => {
                let rd = match self.alloc_temp() {
                    Ok(reg) => reg,
                    Err(e) => {
                        return Err(e);
                    },
                };
                self.emit_load_imm(rd, *v as u32);
                Ok(rd)
            },
            Value::ConstBool(b) => {
                let rd = match self.alloc_temp() {
                    Ok(reg) => reg,
                    Err(e) => {
                        return Err(e);
                    },
                };
                self.emit_load_imm(rd, if *b { 1 } else { 0 });
                Ok(rd)
            },
            Value::Null => {
                let rd = match self.alloc_temp() {
                    Ok(reg) => reg,
                    Err(e) => {
                        return Err(e);
                    },
                };
                self.emit_load_imm(rd, 0);
                Ok(rd)
            },
            _ => Err(TranslateError::UnsupportedInstruction(String::new())),
        }
    }

    /// Whether `load_value_pair` succeeds: a local must be bound to a
    /// register pair; an integer constant needs two free temporaries.
    pub open spec fn spec_load_pair_ok(m: Map<Seq<char>, Location>, nt: u8, v: Value) -> bool {
        match v {
            Value::Local(n) => m.dom().contains(n@) && m[n@] is RegPair,
            Value::ConstInt { .. } => nt + 1 < TEMP_POOL_END,
            _ => false,
        }
    }

    /// Register pair that `load_value_pair` returns on success.
    pub open spec fn spec_load_pair_regs(m: Map<Seq<char>, Location>, nt: u8, v: Value) -> (
        Reg,
        Reg,
    ) {
        match v {
            Value::Local(n) => match m[n@] {
                Location::RegPair { lo, hi } => (lo, hi),
                _ => (spec_temp_reg(nt), spec_temp_reg((nt + 1) as u8)),
            },
            _ => (spec_temp_reg(nt), spec_temp_reg((nt + 1) as u8)),
        }
    }

    /// Instructions that `load_value_pair` emits on success.
    pub open spec fn spec_load_pair_code(m: Map<Seq<char>, Location>, nt: u8, v: Value) -> Seq<
        Instruction,
    > {
        match v {
            Value::ConstInt { value, .. } => Self::spec_imm_materialization(
                spec_temp_reg(nt),
                (value & 0xFFFFFFFF) as u32,
            ) + Self::spec_imm_materialization(
                spec_temp_reg((nt + 1) as u8),
                ((value >> 32) & 0xFFFFFFFF) as u32,
            ),
            _ => Seq::empty(),
        }
    }

    /// Temporaries that `load_value_pair` consumes on success.
    pub open spec fn spec_load_pair_temps(v: Value) -> int {
        match v {
            Value::Local(_) => 0int,
            _ => 2int,
        }
    }

    /// Materialize a 64-bit value as a low/high register pair.
    pub fn load_value_pair(&mut self, value: &Value) -> (r: TranslateResult<(Reg, Reg)>)
        requires
            old(self).wf(),
            old(self).instructions@.len() + 4 <= MAX_CODE_LEN,
        ensures
            final(self).wf(),
            Self::spec_load_pair_ok(old(self).bindings_map(), old(self).next_temp, *value) ==> {
                &&& r matches Ok(p) && p == Self::spec_load_pair_regs(
                    old(self).bindings_map(),
                    old(self).next_temp,
                    *value,
                )
                &&& Self::adds_code(
                    *old(self),
                    *final(self),
                    Self::spec_load_pair_code(
                        old(self).bindings_map(),
                        old(self).next_temp,
                        *value,
                    ),
                    Self::spec_load_pair_temps(*value),
                )
            },
            !Self::spec_load_pair_ok(old(self).bindings_map(), old(self).next_temp, *value) ==> {
                &&& r is Err
                &&& Self::adds_code(
                    *old(self),
                    *final(self),
                    Seq::empty(),
                    if *value is ConstInt && old(self).next_temp < TEMP_POOL_END {
                        1int
                    } else {
                        0int
                    },
                )
            },
    {
        match value {
            Value::Local(name) => {
                let loc = match self.get_location(name.as_str()) {
                    Ok(l) => *l,
                    Err(e) => {
                        return Err(e);
                    },
                };
                match loc {
                    Location::RegPair { lo, hi } => Ok((lo, hi)),
                    _ => Err(TranslateError::UnsupportedType(Type::Int(64))),
                }
            },
            Value::ConstInt { value: v, .. } => {
                let lo = match self.alloc_temp() {
                    Ok(reg) => reg,
                    Err(e) => {
                        return Err(e);
                    },
                };
                let hi = match self.alloc_temp() {
                    Ok(reg) => reg,
                    Err(e) => {
                        return Err(e);
                    },
                };
                self.emit_load_imm(lo, (*v & 0xFFFFFFFF) as u32);
                self.emit_load_imm(hi, ((*v >> 32) & 0xFFFFFFFF) as u32);
                proof {
                    assert(self.instructions@ =~= old(self).instructions@
                        + Self::spec_load_pair_code(
                        old(self).bindings_map(),
                        old(self).next_temp,
                        *value,
                    ));
                }
                Ok((lo, hi))
            },
            _ => Err(TranslateError::UnsupportedInstruction(String::new())),
        }
    }

    /// Record that the last-emitted instruction refers to a block label
    /// whose position may not be known yet.
    pub fn add_fixup(&mut self, label: &str)
        requires
            old(self).wf(),
            old(self).instructions@.len() > 0,
        ensures
            final(self).wf(),
            final(self).fixups@.len() == old(self).fixups@.len() + 1,
            final(self).fixups@.drop_last() == old(self).fixups@,
            final(self).fixups@.last().0 == old(self).instructions@.len() - 1,
            final(self).fixups@.last().1@ == label@,
            final(self).instructions@ == old(self).instructions@,
            final(self).bindings@ == old(self).bindings@,
            final(self).labels@ == old(self).labels@,
            final(self).next_temp == old(self).next_temp,
            final(self).stack_size == old(self).stack_size,
            final(self).function_name == old(self).function_name,
            final(self).current_block == old(self).current_block,
    {
        let index = self.instructions.len() - 1;
        self.fixups.push((index, label.to_owned()));
        proof {
            assert(self.fixups@.drop_last() =~= old(self).fixups@);
            lemma_wf_preserve(*old(self), *self);
        }
    }

    /// A branch or jump patched with its resolved offset; any other
    /// instruction is left as it is.
    pub open spec fn spec_patch(ins: Instruction, off: int) -> Instruction {
        match ins {
            Instruction::Bne { rs1, rs2, .. } => Instruction::Bne { rs1, rs2, offset: off as i32 },
            Instruction::Jal { rd, .. } => Instruction::Jal { rd, offset: off as i32 },
            _ => ins,
        }
    }

    /// One fixup applied to the code: the instruction it names is patched
    /// with the branch offset to its label, scaled by the 4-byte
    /// instruction size.
    pub open spec fn spec_apply_one(
        code: Seq<Instruction>,
        idx: int,
        label: Seq<char>,
        labels: Map<Seq<char>, u32>,
    ) -> Seq<Instruction> {
        if labels.dom().contains(label) && 0 <= idx < code.len() {
            code.update(idx, Self::spec_patch(code[idx], (labels[label] - idx) * 4))
        } else {
            code
        }
    }

    /// All fixups applied in order.
    pub open spec fn spec_apply_fixups(
        code: Seq<Instruction>,
        fixups: Seq<(usize, String)>,
        labels: Map<Seq<char>, u32>,
    ) -> Seq<Instruction>
        decreases fixups.len(),
    {
        if fixups.len() == 0 {
            code
        } else {
            Self::spec_apply_one(
                Self::spec_apply_fixups(code, fixups.drop_last(), labels),
                fixups.last().0 as int,
                fixups.last().1@,
                labels,
            )
        }
    }

    /// Applying fixups keeps the code length.
    pub proof fn lemma_apply_fixups_len(
        code: Seq<Instruction>,
        fixups: Seq<(usize, String)>,
        labels: Map<Seq<char>, u32>,
    )
        ensures
            Self::spec_apply_fixups(code, fixups, labels).len() == code.len(),
        decreases fixups.len(),
    {
        if fixups.len() > 0 {
            Self::lemma_apply_fixups_len(code, fixups.drop_last(), labels);
        }
    }

    /// Resolve every recorded fixup: each referenced label must be defined,
    /// and each fixed-up branch is patched with its relative offset. After
    /// success no fixups remain.
    pub fn resolve_labels(&mut self) -> (r: TranslateResult<()>)
        requires
            old(self).wf(),
        ensures
            final(self).wf(),
            (forall|i: int|
                0 <= i < old(self).fixups@.len() ==> old(self).labels_map().dom().contains(
                    #[trigger] old(self).fixups@[i].1@,
                )) <==> r is Ok,
            r is Ok ==> {
                &&& final(self).instructions@ == Self::spec_apply_fixups(
                    old(self).instructions@,
                    old(self).fixups@,
                    old(self).labels_map(),
                )
                &&& final(self).fixups@.len() == 0
                &&& final(self).bindings@ == old(self).bindings@
                &&& final(self).labels@ == old(self).labels@
                &&& final(self).next_temp == old(self).next_temp
                &&& final(self).stack_size == old(self).stack_size
                &&& final(self).function_name == old(self).function_name
            },
            r matches Err(e) ==> *final(self) == *old(self) && (
            e matches TranslateError::InvalidBranch(l) && exists|i: int|
                0 <= i < old(self).fixups@.len() && old(self).fixups@[i].1@ == l@
                    && !old(self).labels_map().dom().contains(l@)),
    {
        let ghost labels_map = self.labels_map();
        let mut i: usize = 0;
        while i < self.fixups.len()
            invariant
                *self == *old(self),
                self.wf(),
                0 <= i <= self.fixups@.len(),
                forall|j: int|
                    0 <= j < i ==> self.labels_map().dom().contains(
                        #[trigger] self.fixups@[j].1@,
                    ),
            decreases self.fixups@.len() - i,
        {
            if assoc_get(&self.labels, self.fixups[i].1.as_str()).is_none() {
                return Err(TranslateError::InvalidBranch(self.fixups[i].1.clone()));
            }
            i = i + 1;
        }
        let mut k: usize = 0;
        while k < self.fixups.len()
            invariant
                old(self).wf(),
                self.wf(),
                0 <= k <= self.fixups@.len(),
                self.fixups@ == old(self).fixups@,
                self.labels@ == old(self).labels@,
                self.bindings@ == old(self).bindings@,
                self.next_temp == old(self).next_temp,
                self.stack_size == old(self).stack_size,
                self.function_name == old(self).function_name,
                self.current_block == old(self).current_block,
                self.instructions@.len() == old(self).instructions@.len(),
                forall|j: int|
                    0 <= j < self.fixups@.len() ==> self.labels_map().dom().contains(
                        #[trigger] self.fixups@[j].1@,
                    ),
                self.instructions@ == Self::spec_apply_fixups(
                    old(self).instructions@,
                    old(self).fixups@.subrange(0, k as int),
                    old(self).labels_map(),
                ),
            decreases self.fixups@.len() - k,
        {
            let idx = self.fixups[k].0;
            let target: u32 = match assoc_get(&self.labels, self.fixups[k].1.as_str()) {
                Some(t) => *t,
                None => {
                    proof {
                        assert(self.labels_map().dom().contains(self.fixups@[k as int].1@));
                    }
                    return Err(TranslateError::InvalidBranch(self.fixups[k].1.clone()));
                },
            };
            let offset: i32 = (target as i32 - idx as i32) * 4;
            let patched = match self.instructions[idx] {
                Instruction::Bne { rs1, rs2, .. } => Instruction::Bne { rs1, rs2, offset },
                Instruction::Jal { rd, .. } => Instruction::Jal { rd, offset },
                other => other,
            };
            self.instructions.set(idx, patched);
            proof {
                let pre = old(self).fixups@.subrange(0, k as int);
                let post = old(self).fixups@.subrange(0, k + 1);
                assert(post.drop_last() =~= pre);
                assert(post.last() == old(self).fixups@[k as int]);
                lemma_wf_preserve(*old(self), *self);
            }
            k = k + 1;
        }
        proof {
            assert(old(self).fixups@.subrange(0, old(self).fixups@.len() as int) =~= old(
                self,
            ).fixups@);
        }
        self.fixups = Vec::new();
        proof {
            lemma_wf_preserve(*old(self), *self);
        }
        Ok(())
    }

    /// The translated instructions, by value.
    pub fn into_instructions(self) -> (r: Vec<Instruction>)
        ensures
            r == self.instructions,
    {
        self.instructions
    }

    /// Name of the function being translated.
    pub fn function_name(&self) -> (r: &str)
        ensures
            r@ == self.function_name@,
    {
        self.function_name.as_str()
    }

    /// Index the next emitted instruction will receive.
    pub fn current_index(&self) -> (r: u32)
        requires
            self.wf(),
        ensures
            r == self.instructions@.len(),
    {
        self.instructions.len() as u32
    }
}


/// Value a register holds after executing a materialization sequence, under
/// the target machine's semantics for the instruction shapes the emitter
/// uses: `Add rd, zero, zero` clears, `Addi rd, zero, imm` loads a
/// sign-extended immediate, `Lui` loads a shifted upper immediate, and a
/// following `Addi rd, rd, imm` adds a sign-extended immediate with 32-bit
/// wraparound.
pub open spec fn spec_materialized_value(s: Seq<Instruction>, rd: Reg) -> Option<u32> {
    if s.len() == 1 {
        match s[0] {
            Instruction::Add { rd: d, rs1, rs2 } => if d == rd && rs1 == Reg(REG_ZERO) && rs2
                == Reg(REG_ZERO) {
                Some(0u32)
            } else {
                None
            },
            Instruction::Addi { rd: d, rs1, imm } => if d == rd && rs1 == Reg(REG_ZERO) {
                Some(imm as u32)
            } else {
                None
            },
            Instruction::Lui { rd: d, imm } => if d == rd {
                Some((imm & 0xFFFFF) << 12)
            } else {
                None
            },
            _ => None,
        }
    } else if s.len() == 2 {
        match (s[0], s[1]) {
            (Instruction::Lui { rd: d1, imm: up }, Instruction::Addi { rd: d2, rs1, imm }) => if d1
                == rd && d2 == rd && rs1 == rd {
                Some((((((up & 0xFFFFF) << 12) as u64 + (imm as u32) as u64) as u64) & 0xFFFFFFFF) as u32)
            } else {
                None
            },
            _ => None,
        }
    } else {
        None
    }
}

/// Immediate materialization identity: executing the sequence that
/// `emit_load_imm` produces for `v` leaves exactly `v` in the destination
/// register.
pub proof fn lemma_immediate_materialization_identity(rd: Reg, v: u32)
    ensures
        spec_materialized_value(TranslationContext::spec_imm_materialization(rd, v), rd) == Some(
            v,
        ),
{
    if v == 0 {
    } else if v < 2048 {
        assert((v as i16) as u32 == v) by (bit_vector)
            requires
                0 < v < 2048,
        ;
    } else {
        let upper = TranslationContext::spec_imm_upper(v);
        let lower = TranslationContext::spec_imm_lower(v);
        assert(upper == ((v >> 12) + ((v >> 11) & 1)) % 0x100000);
        if v & 0xFFF == 0 {
            assert((((((v >> 12) + ((v >> 11) & 1)) % 0x100000) as u32) & 0xFFFFF) << 12 == v)
                by (bit_vector)
                requires
                    v & 0xFFF == 0,
                    v >= 2048,
            ;
        } else if (v & 0xFFF) >= 0x800 {
            assert(lower == ((v & 0xFFF) - 0x1000) as i16);
            assert((((((((((v >> 12) + ((v >> 11) & 1)) % 0x100000) as u32) & 0xFFFFF)
                << 12) as u64 + ((((v & 0xFFF) - 0x1000) as i16) as u32) as u64) as u64)
                & 0xFFFFFFFF) as u32 == v) by (bit_vector)
                requires
                    (v & 0xFFF) >= 0x800,
                    v >= 2048,
            ;
        } else {
            assert(lower == (v & 0xFFF) as i16);
            assert((((((((((v >> 12) + ((v >> 11) & 1)) % 0x100000) as u32) & 0xFFFFF)
                << 12) as u64 + (((v & 0xFFF) as i16) as u32) as u64) as u64) & 0xFFFFFFFF) as u32
                == v) by (bit_vector)
                requires
                    (v & 0xFFF) < 0x800,
                    v & 0xFFF != 0,
                    v >= 2048,
            ;
        }
    }
}

} // verus!
