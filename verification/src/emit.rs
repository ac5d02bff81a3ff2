//! Serialization of target programs to bytes, and back.
//!
//! The layout is fixed and versioned: a four-byte magic, a version word,
//! the entry offset, the instruction count, then eight bytes per
//! instruction (opcode, three register fields, and a 32-bit immediate),
//! all words little-endian. Deserializing an emitted program yields the
//! program back.

use vstd::prelude::*;
use crate::target::{Instruction, Program, Reg};

verus! {

broadcast use vstd::seq::group_seq_axioms;

/// First magic byte.
pub const MAGIC0: u8 = 0x5A;

/// Second magic byte.
pub const MAGIC1: u8 = 0x4B;

/// Third magic byte.
pub const MAGIC2: u8 = 0x50;

/// Fourth magic byte.
pub const MAGIC3: u8 = 0x52;

/// Format version.
pub const FORMAT_VERSION: u32 = 1;

/// Failure to serialize or deserialize a program.
#[derive(Debug, PartialEq, Eq)]
pub enum EmitError {
    /// The program holds more instructions than the count field can carry.
    TooLarge,
    /// The bytes do not start with the magic and version.
    BadHeader,
    /// The bytes end inside a field.
    Truncated,
    /// An instruction field holds an unknown opcode.
    BadOpcode,
}

/// Little-endian bytes of a 32-bit word.
pub open spec fn spec_le32(v: u32) -> Seq<u8> {
    seq![
        (v & 0xFF) as u8,
        ((v >> 8) & 0xFF) as u8,
        ((v >> 16) & 0xFF) as u8,
        ((v >> 24) & 0xFF) as u8,
    ]
}

/// The 32-bit word read from four little-endian bytes.
pub open spec fn spec_read32(b0: u8, b1: u8, b2: u8, b3: u8) -> u32 {
    (b0 as u32) | ((b1 as u32) << 8) | ((b2 as u32) << 16) | ((b3 as u32) << 24)
}

/// Reading the bytes of a word gives the word back.
proof fn lemma_le32_round_trip(v: u32)
    ensures
        spec_read32(
            (v & 0xFF) as u8,
            ((v >> 8) & 0xFF) as u8,
            ((v >> 16) & 0xFF) as u8,
            ((v >> 24) & 0xFF) as u8,
        ) == v,
{
    assert((((v & 0xFF) as u8) as u32) | ((((v >> 8) & 0xFF) as u8) as u32) << 8 | ((((v >> 16)
        & 0xFF) as u8) as u32) << 16 | ((((v >> 24) & 0xFF) as u8) as u32) << 24 == v)
        by (bit_vector);
}

/// A sign-extended 16-bit immediate as a 32-bit word.
pub open spec fn spec_imm16(imm: i16) -> u32 {
    imm as u32
}

/// The fields of one encoded instruction: opcode, three register or zero
/// bytes, and the immediate word.
pub open spec fn spec_fields(i: Instruction) -> (u8, u8, u8, u8, u32) {
    match i {
        Instruction::Add { rd, rs1, rs2 } => (1u8, rd.0, rs1.0, rs2.0, 0u32),
        Instruction::Sub { rd, rs1, rs2 } => (2u8, rd.0, rs1.0, rs2.0, 0u32),
        Instruction::Mul { rd, rs1, rs2 } => (3u8, rd.0, rs1.0, rs2.0, 0u32),
        Instruction::Div { rd, rs1, rs2 } => (4u8, rd.0, rs1.0, rs2.0, 0u32),
        Instruction::Divu { rd, rs1, rs2 } => (5u8, rd.0, rs1.0, rs2.0, 0u32),
        Instruction::Rem { rd, rs1, rs2 } => (6u8, rd.0, rs1.0, rs2.0, 0u32),
        Instruction::Remu { rd, rs1, rs2 } => (7u8, rd.0, rs1.0, rs2.0, 0u32),
        Instruction::And { rd, rs1, rs2 } => (8u8, rd.0, rs1.0, rs2.0, 0u32),
        Instruction::Or { rd, rs1, rs2 } => (9u8, rd.0, rs1.0, rs2.0, 0u32),
        Instruction::Xor { rd, rs1, rs2 } => (10u8, rd.0, rs1.0, rs2.0, 0u32),
        Instruction::Sll { rd, rs1, rs2 } => (11u8, rd.0, rs1.0, rs2.0, 0u32),
        Instruction::Srl { rd, rs1, rs2 } => (12u8, rd.0, rs1.0, rs2.0, 0u32),
        Instruction::Sra { rd, rs1, rs2 } => (13u8, rd.0, rs1.0, rs2.0, 0u32),
        Instruction::Slt { rd, rs1, rs2 } => (14u8, rd.0, rs1.0, rs2.0, 0u32),
        Instruction::Sltu { rd, rs1, rs2 } => (15u8, rd.0, rs1.0, rs2.0, 0u32),
        Instruction::Addi { rd, rs1, imm } => (16u8, rd.0, rs1.0, 0u8, spec_imm16(imm)),
        Instruction::Sltiu { rd, rs1, imm } => (17u8, rd.0, rs1.0, 0u8, spec_imm16(imm)),
        Instruction::Xori { rd, rs1, imm } => (18u8, rd.0, rs1.0, 0u8, spec_imm16(imm)),
        Instruction::Lui { rd, imm } => (19u8, rd.0, 0u8, 0u8, imm),
        Instruction::Lw { rd, rs1, imm } => (20u8, rd.0, rs1.0, 0u8, spec_imm16(imm)),
        Instruction::Sw { rs1, rs2, imm } => (21u8, rs1.0, rs2.0, 0u8, spec_imm16(imm)),
        Instruction::Lbu { rd, rs1, imm } => (22u8, rd.0, rs1.0, 0u8, spec_imm16(imm)),
        Instruction::Lhu { rd, rs1, imm } => (23u8, rd.0, rs1.0, 0u8, spec_imm16(imm)),
        Instruction::Sb { rs1, rs2, imm } => (24u8, rs1.0, rs2.0, 0u8, spec_imm16(imm)),
        Instruction::Sh { rs1, rs2, imm } => (25u8, rs1.0, rs2.0, 0u8, spec_imm16(imm)),
        Instruction::Bne { rs1, rs2, offset } => (26u8, rs1.0, rs2.0, 0u8, offset as u32),
        Instruction::Jal { rd, offset } => (27u8, rd.0, 0u8, 0u8, offset as u32),
        Instruction::Ret => (28u8, 0u8, 0u8, 0u8, 0u32),
        Instruction::Mulhu { rd, rs1, rs2 } => (29u8, rd.0, rs1.0, rs2.0, 0u32),
    }
}

/// The eight bytes of one instruction.
pub open spec fn spec_encode_instr(i: Instruction) -> Seq<u8> {
    let f = spec_fields(i);
    seq![f.0, f.1, f.2, f.3] + spec_le32(f.4)
}

/// The instruction read back from decoded fields, if the opcode is known.
pub open spec fn spec_decode_fields(op: u8, a: u8, b: u8, c: u8, imm: u32) -> Option<
    Instruction,
> {
    if op == 1 {
        Some(Instruction::Add { rd: Reg(a), rs1: Reg(b), rs2: Reg(c) })
    } else if op == 2 {
        Some(Instruction::Sub { rd: Reg(a), rs1: Reg(b), rs2: Reg(c) })
    } else if op == 3 {
        Some(Instruction::Mul { rd: Reg(a), rs1: Reg(b), rs2: Reg(c) })
    } else if op == 4 {
        Some(Instruction::Div { rd: Reg(a), rs1: Reg(b), rs2: Reg(c) })
    } else if op == 5 {
        Some(Instruction::Divu { rd: Reg(a), rs1: Reg(b), rs2: Reg(c) })
    } else if op == 6 {
        Some(Instruction::Rem { rd: Reg(a), rs1: Reg(b), rs2: Reg(c) })
    } else if op == 7 {
        Some(Instruction::Remu { rd: Reg(a), rs1: Reg(b), rs2: Reg(c) })
    } else if op == 8 {
        Some(Instruction::And { rd: Reg(a), rs1: Reg(b), rs2: Reg(c) })
    } else if op == 9 {
        Some(Instruction::Or { rd: Reg(a), rs1: Reg(b), rs2: Reg(c) })
    } else if op == 10 {
        Some(Instruction::Xor { rd: Reg(a), rs1: Reg(b), rs2: Reg(c) })
    } else if op == 11 {
        Some(Instruction::Sll { rd: Reg(a), rs1: Reg(b), rs2: Reg(c) })
    } else if op == 12 {
        Some(Instruction::Srl { rd: Reg(a), rs1: Reg(b), rs2: Reg(c) })
    } else if op == 13 {
        Some(Instruction::Sra { rd: Reg(a), rs1: Reg(b), rs2: Reg(c) })
    } else if op == 14 {
        Some(Instruction::Slt { rd: Reg(a), rs1: Reg(b), rs2: Reg(c) })
    } else if op == 15 {
        Some(Instruction::Sltu { rd: Reg(a), rs1: Reg(b), rs2: Reg(c) })
    } else if op == 16 {
        Some(Instruction::Addi { rd: Reg(a), rs1: Reg(b), imm: (imm & 0xFFFF) as i16 })
    } else if op == 17 {
        Some(Instruction::Sltiu { rd: Reg(a), rs1: Reg(b), imm: (imm & 0xFFFF) as i16 })
    } else if op == 18 {
        Some(Instruction::Xori { rd: Reg(a), rs1: Reg(b), imm: (imm & 0xFFFF) as i16 })
    } else if op == 19 {
        Some(Instruction::Lui { rd: Reg(a), imm })
    } else if op == 20 {
        Some(Instruction::Lw { rd: Reg(a), rs1: Reg(b), imm: (imm & 0xFFFF) as i16 })
    } else if op == 21 {
        Some(Instruction::Sw { rs1: Reg(a), rs2: Reg(b), imm: (imm & 0xFFFF) as i16 })
    } else if op == 22 {
        Some(Instruction::Lbu { rd: Reg(a), rs1: Reg(b), imm: (imm & 0xFFFF) as i16 })
    } else if op == 23 {
        Some(Instruction::Lhu { rd: Reg(a), rs1: Reg(b), imm: (imm & 0xFFFF) as i16 })
    } else if op == 24 {
        Some(Instruction::Sb { rs1: Reg(a), rs2: Reg(b), imm: (imm & 0xFFFF) as i16 })
    } else if op == 25 {
        Some(Instruction::Sh { rs1: Reg(a), rs2: Reg(b), imm: (imm & 0xFFFF) as i16 })
    } else if op == 26 {
        Some(Instruction::Bne { rs1: Reg(a), rs2: Reg(b), offset: imm as i32 })
    } else if op == 27 {
        Some(Instruction::Jal { rd: Reg(a), offset: imm as i32 })
    } else if op == 28 {
        Some(Instruction::Ret)
    } else if op == 29 {
        Some(Instruction::Mulhu { rd: Reg(a), rs1: Reg(b), rs2: Reg(c) })
    } else {
        None
    }
}

/// Decoding an encoded instruction gives the instruction back.
proof fn lemma_instr_round_trip(i: Instruction)
    ensures
        spec_decode_fields(
            spec_fields(i).0,
            spec_fields(i).1,
            spec_fields(i).2,
            spec_fields(i).3,
            spec_fields(i).4,
        ) == Some(i),
{
    match i {
        Instruction::Addi { rd, rs1, imm } => {
            assert(((imm as u32) & 0xFFFF) as i16 == imm) by (bit_vector);
        },
        Instruction::Sltiu { rd, rs1, imm } => {
            assert(((imm as u32) & 0xFFFF) as i16 == imm) by (bit_vector);
        },
        Instruction::Xori { rd, rs1, imm } => {
            assert(((imm as u32) & 0xFFFF) as i16 == imm) by (bit_vector);
        },
        Instruction::Lw { rd, rs1, imm } => {
            assert(((imm as u32) & 0xFFFF) as i16 == imm) by (bit_vector);
        },
        Instruction::Sw { rs1, rs2, imm } => {
            assert(((imm as u32) & 0xFFFF) as i16 == imm) by (bit_vector);
        },
        Instruction::Lbu { rd, rs1, imm } => {
            assert(((imm as u32) & 0xFFFF) as i16 == imm) by (bit_vector);
        },
        Instruction::Lhu { rd, rs1, imm } => {
            assert(((imm as u32) & 0xFFFF) as i16 == imm) by (bit_vector);
        },
        Instruction::Sb { rs1, rs2, imm } => {
            assert(((imm as u32) & 0xFFFF) as i16 == imm) by (bit_vector);
        },
        Instruction::Sh { rs1, rs2, imm } => {
            assert(((imm as u32) & 0xFFFF) as i16 == imm) by (bit_vector);
        },
        Instruction::Bne { rs1, rs2, offset } => {
            assert((offset as u32) as i32 == offset) by (bit_vector);
        },
        Instruction::Jal { rd, offset } => {
            assert((offset as u32) as i32 == offset) by (bit_vector);
        },
        _ => {},
    }
}

/// Concatenated encodings of an instruction sequence.
pub open spec fn spec_encode_all(code: Seq<Instruction>) -> Seq<u8>
    decreases code.len(),
{
    if code.len() == 0 {
        Seq::empty()
    } else {
        spec_encode_instr(code[0]) + spec_encode_all(code.drop_first())
    }
}

/// Each instruction takes eight bytes.
proof fn lemma_encode_all_len(code: Seq<Instruction>)
    ensures
        spec_encode_all(code).len() == 8 * code.len(),
    decreases code.len(),
{
    if code.len() > 0 {
        lemma_encode_all_len(code.drop_first());
    }
}

/// The whole byte image of a program.
pub open spec fn spec_emit(code: Seq<Instruction>, entry: u32) -> Seq<u8> {
    seq![MAGIC0, MAGIC1, MAGIC2, MAGIC3] + spec_le32(FORMAT_VERSION) + spec_le32(entry)
        + spec_le32(code.len() as u32) + spec_encode_all(code)
}

/// Instructions decoded from a byte run, eight bytes each.
pub open spec fn spec_decode_all(bytes: Seq<u8>, n: int) -> Option<Seq<Instruction>>
    decreases n,
{
    if n <= 0 {
        Some(Seq::empty())
    } else if bytes.len() < 8 {
        None
    } else {
        match spec_decode_fields(
            bytes[0],
            bytes[1],
            bytes[2],
            bytes[3],
            spec_read32(bytes[4], bytes[5], bytes[6], bytes[7]),
        ) {
            None => None,
            Some(i) => match spec_decode_all(bytes.skip(8), n - 1) {
                None => None,
                Some(rest) => Some(seq![i] + rest),
            },
        }
    }
}

/// Decoding the concatenated encodings gives the instructions back.
proof fn lemma_decode_all_round_trip(code: Seq<Instruction>, extra: Seq<u8>)
    ensures
        spec_decode_all(spec_encode_all(code) + extra, code.len() as int) == Some(code),
    decreases code.len(),
{
    if code.len() == 0 {
        assert(spec_decode_all(spec_encode_all(code) + extra, 0) == Some(
            Seq::<Instruction>::empty(),
        ));
        assert(code =~= Seq::<Instruction>::empty());
    } else {
        let bytes = spec_encode_all(code) + extra;
        let head = spec_encode_instr(code[0]);
        let f = spec_fields(code[0]);
        lemma_encode_all_len(code);
        assert(bytes.len() >= 8);
        assert forall|k: int| 0 <= k < 8 implies bytes[k] == head[k] by {
            assert(spec_encode_all(code)[k] == head[k]);
        }
        lemma_le32_round_trip(f.4);
        lemma_instr_round_trip(code[0]);
        assert(spec_read32(bytes[4], bytes[5], bytes[6], bytes[7]) == f.4);
        assert(spec_decode_fields(bytes[0], bytes[1], bytes[2], bytes[3], f.4) == Some(code[0]));
        lemma_decode_all_round_trip(code.drop_first(), extra);
        assert(bytes.skip(8) =~= spec_encode_all(code.drop_first()) + extra);
        assert(seq![code[0]] + code.drop_first() =~= code);
    }
}

/// The bytes of a program decode back to it: the program's instructions and
/// entry offset are read off exactly.
pub proof fn lemma_emission_round_trip(code: Seq<Instruction>, entry: u32)
    requires
        code.len() <= u32::MAX,
    ensures
        spec_decode_program(spec_emit(code, entry)) == Some((code, entry)),
{
    let bytes = spec_emit(code, entry);
    lemma_encode_all_len(code);
    lemma_le32_round_trip(FORMAT_VERSION);
    lemma_le32_round_trip(entry);
    lemma_le32_round_trip(code.len() as u32);
    assert(spec_read32(bytes[4], bytes[5], bytes[6], bytes[7]) == FORMAT_VERSION);
    assert(spec_read32(bytes[8], bytes[9], bytes[10], bytes[11]) == entry);
    assert(spec_read32(bytes[12], bytes[13], bytes[14], bytes[15]) == code.len() as u32);
    lemma_decode_all_round_trip(code, Seq::empty());
    assert(bytes.skip(16) =~= spec_encode_all(code) + Seq::<u8>::empty());
}

/// The program read from a byte image: its instructions and entry offset.
pub open spec fn spec_decode_program(bytes: Seq<u8>) -> Option<(Seq<Instruction>, u32)> {
    if bytes.len() < 16 {
        None
    } else if bytes[0] != MAGIC0 || bytes[1] != MAGIC1 || bytes[2] != MAGIC2 || bytes[3]
        != MAGIC3 {
        None
    } else if spec_read32(bytes[4], bytes[5], bytes[6], bytes[7]) != FORMAT_VERSION {
        None
    } else {
        let entry = spec_read32(bytes[8], bytes[9], bytes[10], bytes[11]);
        let n = spec_read32(bytes[12], bytes[13], bytes[14], bytes[15]);
        if bytes.len() != 16 + 8 * n {
            None
        } else {
            match spec_decode_all(bytes.skip(16), n as int) {
                None => None,
                Some(code) => Some((code, entry)),
            }
        }
    }
}

/// Append the little-endian bytes of a word.
fn push_le32(out: &mut Vec<u8>, v: u32)
    ensures
        final(out)@ == old(out)@ + spec_le32(v),
{
    out.push((v & 0xFF) as u8);
    out.push(((v >> 8) & 0xFF) as u8);
    out.push(((v >> 16) & 0xFF) as u8);
    out.push(((v >> 24) & 0xFF) as u8);
    proof {
        assert(final(out)@ =~= old(out)@ + spec_le32(v));
    }
}

/// The encoded fields of one instruction.
fn instr_fields(i: &Instruction) -> (r: (u8, u8, u8, u8, u32))
    ensures
        r == spec_fields(*i),
{
    match i {
        Instruction::Add { rd, rs1, rs2 } => (1u8, rd.0, rs1.0, rs2.0, 0u32),
        Instruction::Sub { rd, rs1, rs2 } => (2u8, rd.0, rs1.0, rs2.0, 0u32),
        Instruction::Mul { rd, rs1, rs2 } => (3u8, rd.0, rs1.0, rs2.0, 0u32),
        Instruction::Div { rd, rs1, rs2 } => (4u8, rd.0, rs1.0, rs2.0, 0u32),
        Instruction::Divu { rd, rs1, rs2 } => (5u8, rd.0, rs1.0, rs2.0, 0u32),
        Instruction::Rem { rd, rs1, rs2 } => (6u8, rd.0, rs1.0, rs2.0, 0u32),
        Instruction::Remu { rd, rs1, rs2 } => (7u8, rd.0, rs1.0, rs2.0, 0u32),
        Instruction::And { rd, rs1, rs2 } => (8u8, rd.0, rs1.0, rs2.0, 0u32),
        Instruction::Or { rd, rs1, rs2 } => (9u8, rd.0, rs1.0, rs2.0, 0u32),
        Instruction::Xor { rd, rs1, rs2 } => (10u8, rd.0, rs1.0, rs2.0, 0u32),
        Instruction::Sll { rd, rs1, rs2 } => (11u8, rd.0, rs1.0, rs2.0, 0u32),
        Instruction::Srl { rd, rs1, rs2 } => (12u8, rd.0, rs1.0, rs2.0, 0u32),
        Instruction::Sra { rd, rs1, rs2 } => (13u8, rd.0, rs1.0, rs2.0, 0u32),
        Instruction::Slt { rd, rs1, rs2 } => (14u8, rd.0, rs1.0, rs2.0, 0u32),
        Instruction::Sltu { rd, rs1, rs2 } => (15u8, rd.0, rs1.0, rs2.0, 0u32),
        Instruction::Addi { rd, rs1, imm } => (16u8, rd.0, rs1.0, 0u8, *imm as u32),
        Instruction::Sltiu { rd, rs1, imm } => (17u8, rd.0, rs1.0, 0u8, *imm as u32),
        Instruction::Xori { rd, rs1, imm } => (18u8, rd.0, rs1.0, 0u8, *imm as u32),
        Instruction::Lui { rd, imm } => (19u8, rd.0, 0u8, 0u8, *imm),
        Instruction::Lw { rd, rs1, imm } => (20u8, rd.0, rs1.0, 0u8, *imm as u32),
        Instruction::Sw { rs1, rs2, imm } => (21u8, rs1.0, rs2.0, 0u8, *imm as u32),
        Instruction::Lbu { rd, rs1, imm } => (22u8, rd.0, rs1.0, 0u8, *imm as u32),
        Instruction::Lhu { rd, rs1, imm } => (23u8, rd.0, rs1.0, 0u8, *imm as u32),
        Instruction::Sb { rs1, rs2, imm } => (24u8, rs1.0, rs2.0, 0u8, *imm as u32),
        Instruction::Sh { rs1, rs2, imm } => (25u8, rs1.0, rs2.0, 0u8, *imm as u32),
        Instruction::Bne { rs1, rs2, offset } => (26u8, rs1.0, rs2.0, 0u8, *offset as u32),
        Instruction::Jal { rd, offset } => (27u8, rd.0, 0u8, 0u8, *offset as u32),
        Instruction::Ret => (28u8, 0u8, 0u8, 0u8, 0u32),
        Instruction::Mulhu { rd, rs1, rs2 } => (29u8, rd.0, rs1.0, rs2.0, 0u32),
    }
}

/// Serialize a program to bytes under the fixed layout.
pub fn emit_program(program: &Program) -> (r: Result<Vec<u8>, EmitError>)
    ensures
        program.code@.len() <= u32::MAX ==> (r matches Ok(bytes) && bytes@ == spec_emit(
            program.code@,
            program.entry,
        )),
        program.code@.len() > u32::MAX ==> r == Result::<Vec<u8>, EmitError>::Err(
            EmitError::TooLarge,
        ),
{
    if program.code.len() as u64 > u32::MAX as u64 {
        return Err(EmitError::TooLarge);
    }
    let mut out: Vec<u8> = Vec::new();
    out.push(MAGIC0);
    out.push(MAGIC1);
    out.push(MAGIC2);
    out.push(MAGIC3);
    push_le32(&mut out, FORMAT_VERSION);
    push_le32(&mut out, program.entry);
    push_le32(&mut out, program.code.len() as u32);
    let ghost header = out@;
    let mut i: usize = 0;
    while i < program.code.len()
        invariant
            0 <= i <= program.code@.len(),
            out@ == header + spec_encode_all(program.code@.subrange(0, i as int)),
        decreases program.code@.len() - i,
    {
        let f = instr_fields(&program.code[i]);
        out.push(f.0);
        out.push(f.1);
        out.push(f.2);
        out.push(f.3);
        push_le32(&mut out, f.4);
        proof {
            lemma_encode_all_snoc(program.code@, i as int);
            assert(out@ =~= header + spec_encode_all(program.code@.subrange(0, i + 1)));
        }
        i = i + 1;
    }
    proof {
        assert(program.code@.subrange(0, program.code@.len() as int) =~= program.code@);
        assert(out@ =~= spec_emit(program.code@, program.entry));
    }
    Ok(out)
}

/// Encoding one more instruction appends its bytes.
proof fn lemma_encode_all_snoc(code: Seq<Instruction>, i: int)
    requires
        0 <= i < code.len(),
    ensures
        spec_encode_all(code.subrange(0, i + 1)) == spec_encode_all(code.subrange(0, i))
            + spec_encode_instr(code[i]),
    decreases i,
{
    if i == 0 {
        assert(code.subrange(0, 1).drop_first() =~= Seq::<Instruction>::empty());
        assert(code.subrange(0, 1)[0] == code[0]);
        assert(code.subrange(0, 0) =~= Seq::<Instruction>::empty());
        assert(spec_encode_all(Seq::<Instruction>::empty()) == Seq::<u8>::empty());
        assert(spec_encode_all(code.subrange(0, 1)) == spec_encode_instr(code[0])
            + Seq::<u8>::empty());
        assert(spec_encode_instr(code[0]) + Seq::<u8>::empty() =~= spec_encode_instr(code[0]));
        assert(Seq::<u8>::empty() + spec_encode_instr(code[0]) =~= spec_encode_instr(code[0]));
    } else {
        let t = code.drop_first();
        lemma_encode_all_snoc(t, i - 1);
        assert(code.subrange(0, i + 1)[0] == code[0]);
        assert(code.subrange(0, i + 1).drop_first() =~= t.subrange(0, i));
        assert(code.subrange(0, i)[0] == code[0]);
        assert(code.subrange(0, i).drop_first() =~= t.subrange(0, i - 1));
        assert(t[i - 1] == code[i]);
        assert(spec_encode_all(code.subrange(0, i + 1)) =~= spec_encode_all(
            code.subrange(0, i),
        ) + spec_encode_instr(code[i]));
    }
}

/// A successful decode yields exactly `n` instructions.
proof fn lemma_decode_all_len(bytes: Seq<u8>, n: int)
    requires
        n >= 0,
    ensures
        spec_decode_all(bytes, n) matches Some(v) ==> v.len() == n,
    decreases n,
{
    if n > 0 && bytes.len() >= 8 {
        lemma_decode_all_len(bytes.skip(8), n - 1);
    }
}

/// Read a little-endian word at `pos`.
fn read_le32(bytes: &[u8], pos: usize) -> (r: u32)
    requires
        pos + 4 <= bytes@.len(),
    ensures
        r == spec_read32(bytes@[pos as int], bytes@[pos + 1], bytes@[pos + 2], bytes@[pos + 3]),
{
    (bytes[pos] as u32) | ((bytes[pos + 1] as u32) << 8) | ((bytes[pos + 2] as u32) << 16) | ((
    bytes[pos + 3] as u32) << 24)
}

/// Deserialize a byte image back into a program.
pub fn deserialize_program(bytes: &[u8]) -> (r: Result<Program, EmitError>)
    ensures
        match spec_decode_program(bytes@) {
            Some(p) => r matches Ok(prog) && prog.code@ == p.0 && prog.entry == p.1,
            None => r is Err,
        },
{
    if bytes.len() < 16 {
        return Err(EmitError::Truncated);
    }
    if bytes[0] != MAGIC0 || bytes[1] != MAGIC1 || bytes[2] != MAGIC2 || bytes[3] != MAGIC3 {
        return Err(EmitError::BadHeader);
    }
    if read_le32(bytes, 4) != FORMAT_VERSION {
        return Err(EmitError::BadHeader);
    }
    let entry = read_le32(bytes, 8);
    let n = read_le32(bytes, 12);
    if (bytes.len() as u64) != 16 + 8 * (n as u64) {
        return Err(EmitError::Truncated);
    }
    let mut code: Vec<Instruction> = Vec::new();
    let byte_len = bytes.len();
    let mut k: u32 = 0;
    while k < n
        invariant
            0 <= k <= n,
            byte_len == bytes@.len(),
            bytes@.len() == 16 + 8 * n,
            match spec_decode_all(bytes@.skip(16 + 8 * k), n - k) {
                Some(rest) => spec_decode_all(bytes@.skip(16), n as int) matches Some(all)
                    && all.len() == code@.len() + rest.len() && code@ == all.subrange(
                    0,
                    code@.len() as int,
                ) && (forall|j: int|
                    0 <= j < rest.len() ==> all[code@.len() + j] == #[trigger] rest[j]),
                None => spec_decode_all(bytes@.skip(16), n as int) is None,
            },
            code@.len() == k,
        decreases n - k,
    {
        proof {
            lemma_decode_all_len(bytes@.skip(16 + 8 * k), n - k);
            lemma_decode_all_len(bytes@.skip(16), n as int);
            assert(16 + 8 * (k as int) + 8 <= bytes@.len());
        }
        let base = 16 + 8 * (k as usize);
        let op = bytes[base];
        let a = bytes[base + 1];
        let b = bytes[base + 2];
        let c = bytes[base + 3];
        let imm = read_le32(bytes, base + 4);
        let ghost chunk = bytes@.skip(16 + 8 * k);
        proof {
            assert(chunk.len() == 8 * (n - k));
            assert(chunk[0] == bytes@[base as int]);
            assert(chunk[1] == bytes@[base + 1]);
            assert(chunk[2] == bytes@[base + 2]);
            assert(chunk[3] == bytes@[base + 3]);
            assert(chunk[4] == bytes@[base + 4]);
            assert(chunk[5] == bytes@[base + 5]);
            assert(chunk[6] == bytes@[base + 6]);
            assert(chunk[7] == bytes@[base + 7]);
        }
        let ins = match decode_fields(op, a, b, c, imm) {
            Some(i) => i,
            None => {
                return Err(EmitError::BadOpcode);
            },
        };
        let ghost prev_code = code@;
        code.push(ins);
        proof {
            assert(chunk.skip(8) =~= bytes@.skip(16 + 8 * (k + 1)));
            match spec_decode_all(chunk, n - k) {
                Some(rest) => {
                    let all = spec_decode_all(bytes@.skip(16), n as int)->Some_0;
                    let tail = spec_decode_all(chunk.skip(8), n - k - 1)->Some_0;
                    assert(rest == seq![ins] + tail);
                    assert(rest[0] == ins);
                    assert(all[prev_code.len() as int] == rest[0]);
                    assert forall|j: int| 0 <= j < tail.len() implies all[code@.len() + j]
                        == #[trigger] tail[j] by {
                        assert(rest[j + 1] == tail[j]);
                        assert(all[prev_code.len() + (j + 1)] == rest[j + 1]);
                    }
                    assert(code@ =~= all.subrange(0, code@.len() as int));
                },
                None => {},
            }
        }
        k = k + 1;
    }
    proof {
        assert(bytes@.skip(16 + 8 * n).len() == 0);
        assert(spec_decode_all(bytes@.skip(16 + 8 * n), 0) == Some(Seq::<Instruction>::empty()));
        let all = spec_decode_all(bytes@.skip(16), n as int)->Some_0;
        assert(code@ =~= all);
    }
    Ok(Program { code, entry })
}

/// Decode one instruction's fields.
fn decode_fields(op: u8, a: u8, b: u8, c: u8, imm: u32) -> (r: Option<Instruction>)
    ensures
        r == spec_decode_fields(op, a, b, c, imm),
{
    if op == 1 {
        Some(Instruction::Add { rd: Reg(a), rs1: Reg(b), rs2: Reg(c) })
    } else if op == 2 {
        Some(Instruction::Sub { rd: Reg(a), rs1: Reg(b), rs2: Reg(c) })
    } else if op == 3 {
        Some(Instruction::Mul { rd: Reg(a), rs1: Reg(b), rs2: Reg(c) })
    } else if op == 4 {
        Some(Instruction::Div { rd: Reg(a), rs1: Reg(b), rs2: Reg(c) })
    } else if op == 5 {
        Some(Instruction::Divu { rd: Reg(a), rs1: Reg(b), rs2: Reg(c) })
    } else if op == 6 {
        Some(Instruction::Rem { rd: Reg(a), rs1: Reg(b), rs2: Reg(c) })
    } else if op == 7 {
        Some(Instruction::Remu { rd: Reg(a), rs1: Reg(b), rs2: Reg(c) })
    } else if op == 8 {
        Some(Instruction::And { rd: Reg(a), rs1: Reg(b), rs2: Reg(c) })
    } else if op == 9 {
        Some(Instruction::Or { rd: Reg(a), rs1: Reg(b), rs2: Reg(c) })
    } else if op == 10 {
        Some(Instruction::Xor { rd: Reg(a), rs1: Reg(b), rs2: Reg(c) })
    } else if op == 11 {
        Some(Instruction::Sll { rd: Reg(a), rs1: Reg(b), rs2: Reg(c) })
    } else if op == 12 {
        Some(Instruction::Srl { rd: Reg(a), rs1: Reg(b), rs2: Reg(c) })
    } else if op == 13 {
        Some(Instruction::Sra { rd: Reg(a), rs1: Reg(b), rs2: Reg(c) })
    } else if op == 14 {
        Some(Instruction::Slt { rd: Reg(a), rs1: Reg(b), rs2: Reg(c) })
    } else if op == 15 {
        Some(Instruction::Sltu { rd: Reg(a), rs1: Reg(b), rs2: Reg(c) })
    } else if op == 16 {
        Some(Instruction::Addi { rd: Reg(a), rs1: Reg(b), imm: (imm & 0xFFFF) as i16 })
    } else if op == 17 {
        Some(Instruction::Sltiu { rd: Reg(a), rs1: Reg(b), imm: (imm & 0xFFFF) as i16 })
    } else if op == 18 {
        Some(Instruction::Xori { rd: Reg(a), rs1: Reg(b), imm: (imm & 0xFFFF) as i16 })
    } else if op == 19 {
        Some(Instruction::Lui { rd: Reg(a), imm })
    } else if op == 20 {
        Some(Instruction::Lw { rd: Reg(a), rs1: Reg(b), imm: (imm & 0xFFFF) as i16 })
    } else if op == 21 {
        Some(Instruction::Sw { rs1: Reg(a), rs2: Reg(b), imm: (imm & 0xFFFF) as i16 })
    } else if op == 22 {
        Some(Instruction::Lbu { rd: Reg(a), rs1: Reg(b), imm: (imm & 0xFFFF) as i16 })
    } else if op == 23 {
        Some(Instruction::Lhu { rd: Reg(a), rs1: Reg(b), imm: (imm & 0xFFFF) as i16 })
    } else if op == 24 {
        Some(Instruction::Sb { rs1: Reg(a), rs2: Reg(b), imm: (imm & 0xFFFF) as i16 })
    } else if op == 25 {
        Some(Instruction::Sh { rs1: Reg(a), rs2: Reg(b), imm: (imm & 0xFFFF) as i16 })
    } else if op == 26 {
        Some(Instruction::Bne { rs1: Reg(a), rs2: Reg(b), offset: imm as i32 })
    } else if op == 27 {
        Some(Instruction::Jal { rd: Reg(a), offset: imm as i32 })
    } else if op == 28 {
        Some(Instruction::Ret)
    } else if op == 29 {
        Some(Instruction::Mulhu { rd: Reg(a), rs1: Reg(b), rs2: Reg(c) })
    } else {
        None
    }
}

} // verus!
