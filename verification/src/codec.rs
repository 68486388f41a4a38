//! Encoding of resolved instructions into 32-bit words and decoding back.

use vstd::prelude::*;
use crate::bits::{
    bit_field, lemma_bit_field_value, fits_in_signed_bits, fits_in_unsigned_bits, fits_signed, fits_unsigned, get_bits,
    placed_field, set_bits, sign_extend, sign_extended,
};
use crate::consts::REGISTER_LIMIT;
use crate::text::{decimal, push_decimal, push_signed_decimal, push_str, signed_decimal, string_from_chars};
use vstd::arithmetic::power2::pow2;
use crate::format_spec::{
    field_range, format_fields, get_format_spec, lemma_format_fields_well_formed, opcode_range,
    range_bits, reg1_range, reg2_range, reg3_range, FieldSpec,
};
use crate::traits::{Decodable, Encodable};
use crate::types::{
    lemma_opcode_code_roundtrip, InstrFormat,
    immediate_sign, opcode_code, opcode_format, opcode_of_code, operand_value, InstrModel, Opcode,
    Operand, ResolvedInstruction,
};

verus! {

/// Why an instruction could not be encoded or a word could not be decoded.
#[derive(Debug, Clone, Copy, PartialEq, Eq, Structural)]
pub enum EncodeError {
    RegisterOutOfRange(u8),
    SignedImmediateOutOfRange { bits: u8, value: isize },
    UnsignedImmediateOutOfRange { bits: u8, value: usize },
    InvalidOpcode(u8),
    ExpectedUnsignedImmediate { bits: u8, value: isize },
}

/// The value written into field `f` for the operand at `index`, or the
/// error that rejects it. Register fields take the operand's value as it
/// stands (the field keeps its low bits); immediates are range-checked with
/// the signedness that the opcode gives them.
pub open spec fn operand_word(opcode: Opcode, index: int, f: FieldSpec, o: Operand) -> Result<u32, EncodeError> {
    match f {
        FieldSpec::Immediate(r) => {
            let w = range_bits(r);
            let v = operand_value(o);
            if immediate_sign(opcode, index) == Some(true) {
                if fits_signed(v, w as nat) {
                    Ok(v as u32)
                } else {
                    Err(EncodeError::SignedImmediateOutOfRange { bits: w as u8, value: v as isize })
                }
            } else if v < 0 {
                Err(EncodeError::ExpectedUnsignedImmediate { bits: w as u8, value: v as isize })
            } else if fits_unsigned(v, w as nat) {
                Ok(v as u32)
            } else {
                Err(EncodeError::UnsignedImmediateOutOfRange { bits: w as u8, value: v as usize })
            }
        },
        _ => Ok(operand_value(o) as u32),
    }
}

/// Encodes operands `i..` into `acc`, pairing operand `i` with field
/// `i + 1`; stops at the first rejected operand, and when either the
/// operands or the fields run out.
pub open spec fn encode_fields(
    opcode: Opcode,
    fields: Seq<FieldSpec>,
    operands: Seq<Operand>,
    i: nat,
    acc: u32,
) -> Result<u32, EncodeError>
    decreases operands.len() - i,
{
    if i >= operands.len() || i + 1 >= fields.len() {
        Ok(acc)
    } else {
        let f = fields[i + 1 as int];
        match operand_word(opcode, i as int, f, operands[i as int]) {
            Err(e) => Err(e),
            Ok(v) => encode_fields(
                opcode,
                fields,
                operands,
                i + 1,
                acc | placed_field(field_range(f).hi, field_range(f).lo, v),
            ),
        }
    }
}

/// The encoding of an instruction: the opcode code in bits 31..=28, then
/// each operand in its field of the opcode's format.
pub open spec fn spec_encode(m: InstrModel) -> Result<u32, EncodeError> {
    encode_fields(
        m.opcode,
        format_fields(opcode_format(m.opcode)),
        m.operands,
        0,
        placed_field(31, 28, opcode_code(m.opcode) as u32),
    )
}

/// The operand read from field `f` of `word` at operand position `index`.
pub open spec fn decode_field(opcode: Opcode, index: int, f: FieldSpec, word: u32) -> Operand {
    let r = field_range(f);
    let raw = bit_field(word, r.hi, r.lo);
    match f {
        FieldSpec::Immediate(_) => if immediate_sign(opcode, index) == Some(true) {
            Operand::Immediate(sign_extended(raw, range_bits(r) as nat) as isize)
        } else {
            Operand::Immediate(raw as isize)
        },
        _ => Operand::Register(raw as u8),
    }
}

/// The opcode held in bits 31..=28 of a word.
pub open spec fn decoded_opcode(word: u32) -> Opcode {
    opcode_of_code(bit_field(word, 31, 28) as u8)->0
}

/// The instruction that a word decodes to: its opcode, and one operand per
/// field of the opcode's format.
pub open spec fn spec_decode(word: u32) -> InstrModel {
    let op = decoded_opcode(word);
    let fields = format_fields(opcode_format(op));
    InstrModel {
        opcode: op,
        operands: Seq::new((fields.len() - 1) as nat, |i: int| decode_field(op, i, fields[i + 1], word)),
    }
}

proof fn lemma_opcode_field(word: u32)
    ensures
        bit_field(word, 31, 28) < 16,
        opcode_of_code(bit_field(word, 31, 28) as u8) is Some,
{
    lemma_bit_field_value(word, 31, 28);
    vstd::arithmetic::power2::lemma2_to64();
}

impl Encodable for ResolvedInstruction {
    type EncodingError = EncodeError;

    /// Encodes the instruction into a 32-bit word. Operand `i` goes into
    /// field `i + 1` of the opcode's format; extra operands or fields are
    /// left out.
    fn encode(&self) -> (r: Result<u32, EncodeError>)
        ensures
            r == spec_encode(self@),
    {
        let format = self.opcode.instruction_format();
        let format_spec = get_format_spec(format);
        let ghost fields = format_fields(format);
        let ghost ops = self.operands@;
        proof {
            lemma_format_fields_well_formed(format);
        }
        let mut res: u32 = 0;
        let opcode_field = format_spec.fields[0];
        let opcode_range = opcode_field.bit_range();
        set_bits(&mut res, opcode_range.hi, opcode_range.lo, self.opcode.code() as u32);
        proof {
            let p = placed_field(31, 28, opcode_code(self.opcode) as u32);
            assert(0u32 | p == p) by (bit_vector);
        }
        let n = self.operands.len();
        let nf = format_spec.fields.len();
        let mut operand_index: usize = 0;
        while operand_index < n && operand_index + 1 < nf
            invariant
                n == ops.len(),
                nf == fields.len(),
                ops == self.operands@,
                fields == format_spec.fields@,
                fields == format_fields(opcode_format(self.opcode)),
                fields.len() >= 1,
                forall|i: int|
                    0 <= i < fields.len() ==> {
                        let r = field_range(#[trigger] fields[i]);
                        r.lo <= r.hi < 32
                    },
                forall|i: int| 1 <= i < fields.len() ==> !(#[trigger] fields[i] is Opcode),
                operand_index <= n,
                spec_encode(self@) == encode_fields(self.opcode, fields, ops, operand_index as nat, res),
            decreases n - operand_index,
        {
            let field = format_spec.fields[operand_index + 1];
            let range = field.bit_range();
            let operand = self.operands[operand_index];
            match field {
                FieldSpec::Register(_) => {
                    let val = operand.get_val() as u32;
                    set_bits(&mut res, range.hi, range.lo, val);
                },
                FieldSpec::Immediate(_) => {
                    let sign = self.opcode.immediate_signedness(operand_index);
                    let width = range.width();
                    let unsigned_val = if sign == Some(true) {
                        let signed_val = operand.get_val();
                        if !fits_in_signed_bits(signed_val, width) {
                            return Err(
                                EncodeError::SignedImmediateOutOfRange { bits: width, value: signed_val },
                            );
                        }
                        signed_val as u32
                    } else {
                        let val = operand.get_val();
                        if val < 0 {
                            return Err(EncodeError::ExpectedUnsignedImmediate { bits: width, value: val });
                        }
                        let val = val as usize;
                        if !fits_in_unsigned_bits(val, width) {
                            return Err(EncodeError::UnsignedImmediateOutOfRange { bits: width, value: val });
                        }
                        val as u32
                    };
                    set_bits(&mut res, range.hi, range.lo, unsigned_val);
                },
                FieldSpec::Opcode(_) => {
                    proof {
                        assert(fields[operand_index + 1] is Opcode);
                    }
                },
            }
            operand_index = operand_index + 1;
        }
        Ok(res)
    }
}

impl Decodable for u32 {
    type EncodingError = EncodeError;

    /// Decodes a word: the opcode from bits 31..=28, then one operand per
    /// field of the opcode's format. Every word decodes.
    fn decode(&self) -> (r: Result<ResolvedInstruction, EncodeError>)
        ensures
            r matches Ok(instr) && instr@ == spec_decode(*self),
    {
        let word = *self;
        let opcode_range = opcode_range();
        let op_num = get_bits(word, opcode_range.hi, opcode_range.lo) as u8;
        proof {
            lemma_opcode_field(word);
        }
        let opcode = match Opcode::from_code(op_num) {
            Some(op) => op,
            None => {
                return Err(EncodeError::InvalidOpcode(op_num));
            },
        };
        let format = opcode.instruction_format();
        let format_spec = get_format_spec(format);
        let ghost fields = format_fields(format);
        proof {
            lemma_format_fields_well_formed(format);
        }
        let mut operands: Vec<Operand> = Vec::new();
        let nf = format_spec.fields.len();
        let mut index: usize = 1;
        while index < nf
            invariant
                nf == fields.len(),
                fields == format_spec.fields@,
                fields == format_fields(opcode_format(opcode)),
                opcode == decoded_opcode(word),
                forall|i: int|
                    0 <= i < fields.len() ==> {
                        let r = field_range(#[trigger] fields[i]);
                        r.lo <= r.hi < 32
                    },
                forall|i: int| 1 <= i < fields.len() ==> !(#[trigger] fields[i] is Opcode),
                1 <= index <= nf,
                operands@.len() == index - 1,
                forall|i: int|
                    0 <= i < index - 1 ==> operands@[i] == decode_field(opcode, i, fields[i + 1], word),
            decreases nf - index,
        {
            let field_spec = format_spec.fields[index];
            let bit_range = field_spec.bit_range();
            match field_spec {
                FieldSpec::Opcode(_) => {
                    proof {
                        assert(fields[index as int] is Opcode);
                    }
                },
                FieldSpec::Register(_) => {
                    let reg_val = get_bits(word, bit_range.hi, bit_range.lo);
                    proof {
                        assert(bit_range == reg1_range() || bit_range == reg2_range() || bit_range
                            == reg3_range());
                        lemma_bit_field_value(word, bit_range.hi, bit_range.lo);
                        vstd::arithmetic::power2::lemma2_to64();
                    }
                    if reg_val > REGISTER_LIMIT as u32 {
                        return Err(EncodeError::RegisterOutOfRange(reg_val as u8));
                    }
                    operands.push(Operand::Register(reg_val as u8));
                },
                FieldSpec::Immediate(_) => {
                    let operand_index = index - 1;
                    let sign = opcode.immediate_signedness(operand_index);
                    let imm_unsigned = get_bits(word, bit_range.hi, bit_range.lo);
                    if sign == Some(true) {
                        let width = bit_range.width();
                        let imm_signed = sign_extend(imm_unsigned, width);
                        operands.push(Operand::Immediate(imm_signed));
                    } else {
                        operands.push(Operand::Immediate(imm_unsigned as isize));
                    }
                },
            }
            index = index + 1;
        }
        let instr = ResolvedInstruction { opcode, operands };
        proof {
            assert(instr@.operands =~= spec_decode(word).operands);
        }
        Ok(instr)
    }
}

/// Whether operand `o` at position `index` suits field `f` exactly: a
/// register number below 32 in a register field, and in an immediate field
/// an immediate in the field's range for the signedness the opcode gives it.
pub open spec fn operand_conforms(opcode: Opcode, index: int, f: FieldSpec, o: Operand) -> bool {
    match f {
        FieldSpec::Immediate(r) => {
            &&& o is Immediate
            &&& if immediate_sign(opcode, index) == Some(true) {
                fits_signed(operand_value(o), range_bits(r) as nat)
            } else {
                0 <= operand_value(o) && fits_unsigned(operand_value(o), range_bits(r) as nat)
            }
        },
        _ => o matches Operand::Register(n) && n < 32,
    }
}

/// Whether an instruction has exactly the operands its format asks for,
/// each in range.
pub open spec fn conforms(m: InstrModel) -> bool {
    let fields = format_fields(opcode_format(m.opcode));
    &&& m.operands.len() + 1 == fields.len()
    &&& forall|i: int|
        0 <= i < m.operands.len() ==> operand_conforms(m.opcode, i, fields[i + 1], #[trigger] m.operands[i])
}

/// The bits of a word that its format gives a meaning to.
pub open spec fn format_mask(f: InstrFormat) -> u32 {
    match f {
        InstrFormat::R2 => 0xFFFC_0000,
        InstrFormat::R3 => 0xFFFF_E000,
        InstrFormat::RI => 0xFF83_FFFF,
        InstrFormat::RRI => 0xFFFF_FFFF,
        InstrFormat::I => 0xFFFF_FFFF,
        InstrFormat::NoOP => 0xF000_0000,
    }
}

proof fn lemma_layout_small(c: u32, a: u32, b: u32, w: u32)
    by (bit_vector)
    ensures
        bit_field(placed_field(31, 28, c), 31, 28) == c & 15,
        bit_field(placed_field(31, 28, c) | placed_field(27, 0, a), 31, 28) == c & 15,
        bit_field(placed_field(31, 28, c) | placed_field(27, 0, a), 27, 0) == a & 0x0FFF_FFFF,
        placed_field(31, 28, bit_field(w, 31, 28)) == w & 0xF000_0000,
        placed_field(31, 28, bit_field(w, 31, 28)) | placed_field(27, 0, bit_field(w, 27, 0)) == w,
        bit_field(placed_field(31, 28, c) | placed_field(27, 23, a) | placed_field(17, 0, b), 31, 28) == c & 15,
        bit_field(placed_field(31, 28, c) | placed_field(27, 23, a) | placed_field(17, 0, b), 27, 23) == a & 31,
        bit_field(placed_field(31, 28, c) | placed_field(27, 23, a) | placed_field(17, 0, b), 17, 0) == b & 0x3FFFF,
        placed_field(31, 28, bit_field(w, 31, 28)) | placed_field(27, 23, bit_field(w, 27, 23))
            | placed_field(17, 0, bit_field(w, 17, 0)) == w & 0xFF83_FFFF,
{
}

proof fn lemma_layout_r2(c: u32, a: u32, b: u32, w: u32)
    by (bit_vector)
    ensures
        bit_field(placed_field(31, 28, c) | placed_field(27, 23, a) | placed_field(22, 18, b), 31, 28) == c & 15,
        bit_field(placed_field(31, 28, c) | placed_field(27, 23, a) | placed_field(22, 18, b), 27, 23) == a & 31,
        bit_field(placed_field(31, 28, c) | placed_field(27, 23, a) | placed_field(22, 18, b), 22, 18) == b & 31,
        placed_field(31, 28, bit_field(w, 31, 28)) | placed_field(27, 23, bit_field(w, 27, 23))
            | placed_field(22, 18, bit_field(w, 22, 18)) == w & 0xFFFC_0000,
{
}

proof fn lemma_layout_r3(c: u32, a: u32, b: u32, d: u32, w: u32)
    by (bit_vector)
    ensures
        ({
            let x = placed_field(31, 28, c) | placed_field(27, 23, a) | placed_field(22, 18, b)
                | placed_field(17, 13, d);
            &&& bit_field(x, 31, 28) == c & 15
            &&& bit_field(x, 27, 23) == a & 31
            &&& bit_field(x, 22, 18) == b & 31
            &&& bit_field(x, 17, 13) == d & 31
        }),
        placed_field(31, 28, bit_field(w, 31, 28)) | placed_field(27, 23, bit_field(w, 27, 23))
            | placed_field(22, 18, bit_field(w, 22, 18)) | placed_field(17, 13, bit_field(w, 17, 13))
            == w & 0xFFFF_E000,
{
}

proof fn lemma_layout_rri(c: u32, a: u32, b: u32, d: u32, w: u32)
    by (bit_vector)
    ensures
        ({
            let x = placed_field(31, 28, c) | placed_field(27, 23, a) | placed_field(22, 18, b)
                | placed_field(17, 0, d);
            &&& bit_field(x, 31, 28) == c & 15
            &&& bit_field(x, 27, 23) == a & 31
            &&& bit_field(x, 22, 18) == b & 31
            &&& bit_field(x, 17, 0) == d & 0x3FFFF
        }),
        placed_field(31, 28, bit_field(w, 31, 28)) | placed_field(27, 23, bit_field(w, 27, 23))
            | placed_field(22, 18, bit_field(w, 22, 18)) | placed_field(17, 0, bit_field(w, 17, 0)) == w,
{
}

proof fn lemma_small_values(x: u32)
    by (bit_vector)
    ensures
        x < 16 ==> x & 15 == x,
        x < 32 ==> x & 31 == x,
        x < 0x4_0000 ==> x & 0x3FFFF == x,
        x < 0x1000_0000 ==> x & 0x0FFF_FFFF == x,
{
}

/// An 18-bit signed immediate is recovered by sign extension from its low
/// 18 bits.
proof fn lemma_signed18_roundtrip(v: isize)
    requires
        fits_signed(v as int, 18),
    ensures
        sign_extended((v as u32) & 0x3FFFF, 18) == v as int,
{
    vstd::arithmetic::power2::lemma2_to64();
    let u = (v as u32) & 0x3FFFF;
    if v >= 0 {
        assert(0 <= v < 0x2_0000 ==> (v as u32) & 0x3FFFF == v as u32) by (bit_vector);
        assert(u as int / 0x2_0000 == 0);
    } else {
        assert(-0x2_0000 <= v < 0 ==> ((v as u32) & 0x3FFFF) as int == v as int + 0x4_0000)
            by (bit_vector);
        assert(u as int / 0x2_0000 == 1);
        assert(u as int % 0x4_0000 == u as int);
    }
}

/// The sign extension of an 18-bit field is an 18-bit signed value, and its
/// low 18 bits are the field.
proof fn lemma_signed18_from_field(u: u32)
    requires
        u < 0x4_0000,
    ensures
        fits_signed(sign_extended(u, 18), 18),
        ((sign_extended(u, 18) as isize) as u32) & 0x3FFFF == u,
{
    vstd::arithmetic::power2::lemma2_to64();
    if u < 0x2_0000 {
        assert(u as int / 0x2_0000 == 0);
        let s = sign_extended(u, 18);
        assert(s == u as int);
        assert(u < 0x2_0000 ==> ((u as isize) as u32) & 0x3FFFF == u) by (bit_vector);
    } else {
        assert(u as int / 0x2_0000 == 1);
        assert(u as int % 0x4_0000 == u as int);
        let s = sign_extended(u, 18);
        assert(s == u as int - 0x4_0000);
        let t = (u as int - 0x4_0000) as isize;
        assert(0x2_0000 <= u < 0x4_0000 ==> (((u as int - 0x4_0000) as isize) as u32) & 0x3FFFF == u)
            by (bit_vector);
    }
}

/// Decoding the encoding of a conforming instruction gives the instruction
/// back; encoding a conforming instruction never fails.
#[verifier::rlimit(50)]
#[verifier::spinoff_prover]
pub proof fn lemma_decode_encode(m: InstrModel)
    requires
        conforms(m),
    ensures
        spec_encode(m) matches Ok(w) && spec_decode(w) == m,
{
    reveal_with_fuel(encode_fields, 5);
    vstd::arithmetic::power2::lemma2_to64();
    let op = m.opcode;
    let fields = format_fields(opcode_format(op));
    let c = opcode_code(op) as u32;
    lemma_opcode_code_roundtrip(op, 0);
    lemma_small_values(c);
    let ops = m.operands;
    match opcode_format(op) {
        InstrFormat::NoOP => {
            lemma_layout_small(c, 0, 0, 0);
            assert(spec_decode(placed_field(31, 28, c)) =~= m);
        },
        InstrFormat::I => {
            assert(operand_conforms(op, 0, fields[1], ops[0]));
            let v = operand_value(ops[0]);
            let a = v as u32;
            assert(a as int == v);
            lemma_small_values(a);
            lemma_layout_small(c, a, 0, 0);
            let w = placed_field(31, 28, c) | placed_field(27, 0, a);
            assert(spec_encode(m) == Ok::<u32, EncodeError>(w));
            assert(spec_decode(w).operands =~= ops);
        },
        InstrFormat::R2 => {
            assert(operand_conforms(op, 0, fields[1], ops[0]));
            assert(operand_conforms(op, 1, fields[2], ops[1]));
            let a = operand_value(ops[0]) as u32;
            let b = operand_value(ops[1]) as u32;
            lemma_small_values(a);
            lemma_small_values(b);
            lemma_layout_r2(c, a, b, 0);
            let w = placed_field(31, 28, c) | placed_field(27, 23, a) | placed_field(22, 18, b);
            assert(spec_encode(m) == Ok::<u32, EncodeError>(w));
            assert(spec_decode(w).operands =~= ops);
        },
        InstrFormat::R3 => {
            assert(operand_conforms(op, 0, fields[1], ops[0]));
            assert(operand_conforms(op, 1, fields[2], ops[1]));
            assert(operand_conforms(op, 2, fields[3], ops[2]));
            let a = operand_value(ops[0]) as u32;
            let b = operand_value(ops[1]) as u32;
            let d = operand_value(ops[2]) as u32;
            lemma_small_values(a);
            lemma_small_values(b);
            lemma_small_values(d);
            lemma_layout_r3(c, a, b, d, 0);
            let w = placed_field(31, 28, c) | placed_field(27, 23, a) | placed_field(22, 18, b)
                | placed_field(17, 13, d);
            assert(spec_encode(m) == Ok::<u32, EncodeError>(w));
            assert(spec_decode(w).operands =~= ops);
        },
        InstrFormat::RI => {
            assert(operand_conforms(op, 0, fields[1], ops[0]));
            assert(operand_conforms(op, 1, fields[2], ops[1]));
            let a = operand_value(ops[0]) as u32;
            let v = ops[1]->Immediate_0;
            let b = v as u32;
            lemma_small_values(a);
            lemma_signed18_roundtrip(v);
            lemma_layout_small(c, a, b, 0);
            let w = placed_field(31, 28, c) | placed_field(27, 23, a) | placed_field(17, 0, b);
            assert(spec_encode(m) == Ok::<u32, EncodeError>(w));
            assert(spec_decode(w).operands =~= ops);
        },
        InstrFormat::RRI => {
            assert(operand_conforms(op, 0, fields[1], ops[0]));
            assert(operand_conforms(op, 1, fields[2], ops[1]));
            assert(operand_conforms(op, 2, fields[3], ops[2]));
            let a = operand_value(ops[0]) as u32;
            let b = operand_value(ops[1]) as u32;
            let v = ops[2]->Immediate_0;
            let d = v as u32;
            lemma_small_values(a);
            lemma_small_values(b);
            lemma_small_values(d);
            if immediate_sign(op, 2) == Some(true) {
                lemma_signed18_roundtrip(v);
            }
            lemma_layout_rri(c, a, b, d, 0);
            let w = placed_field(31, 28, c) | placed_field(27, 23, a) | placed_field(22, 18, b)
                | placed_field(17, 0, d);
            assert(spec_encode(m) == Ok::<u32, EncodeError>(w));
            assert(spec_decode(w).operands =~= ops);
        },
    }
}

/// Facts on the fields of a word that every format shares.
proof fn lemma_decoded_fields(w: u32)
    ensures
        opcode_code(decoded_opcode(w)) as u32 == bit_field(w, 31, 28),
        bit_field(w, 27, 23) < 32,
        bit_field(w, 22, 18) < 32,
        bit_field(w, 17, 13) < 32,
        bit_field(w, 17, 0) < 0x4_0000,
        bit_field(w, 27, 0) < 0x1000_0000,
        w & 0xFFFF_FFFFu32 == w,
        spec_decode(w).operands.len() + 1 == format_fields(opcode_format(decoded_opcode(w))).len(),
{
    vstd::arithmetic::power2::lemma2_to64();
    lemma_opcode_field(w);
    lemma_opcode_code_roundtrip(decoded_opcode(w), bit_field(w, 31, 28) as u8);
    lemma_bit_field_value(w, 27, 23);
    lemma_bit_field_value(w, 22, 18);
    lemma_bit_field_value(w, 17, 13);
    lemma_bit_field_value(w, 17, 0);
    lemma_bit_field_value(w, 27, 0);
    assert(w & 0xFFFF_FFFFu32 == w) by (bit_vector);
}

/// The word that an 18-bit signed immediate field re-encodes to.
proof fn lemma_signed18_reencode(y: u32)
    requires
        y < 0x4_0000,
    ensures
        fits_signed(sign_extended(y, 18), 18),
        placed_field(17, 0, (sign_extended(y, 18) as isize) as u32) == y,
        placed_field(17, 0, y) == y,
{
    lemma_signed18_from_field(y);
    let x = (sign_extended(y, 18) as isize) as u32;
    assert(placed_field(17, 0, x) == x & 0x3FFFF) by (bit_vector);
    assert(y < 0x4_0000 ==> placed_field(17, 0, y) == y) by (bit_vector);
}

proof fn lemma_encode_decode_short(w: u32)
    requires
        opcode_format(decoded_opcode(w)) == InstrFormat::NoOP || opcode_format(decoded_opcode(w))
            == InstrFormat::I,
    ensures
        conforms(spec_decode(w)),
        spec_encode(spec_decode(w)) == Ok::<u32, EncodeError>(
            w & format_mask(opcode_format(decoded_opcode(w))),
        ),
{
    reveal_with_fuel(encode_fields, 3);
    vstd::arithmetic::power2::lemma2_to64();
    lemma_decoded_fields(w);
    let m = spec_decode(w);
    let op = m.opcode;
    let fields = format_fields(opcode_format(op));
    lemma_layout_small(0, 0, 0, w);
    if opcode_format(op) == InstrFormat::I {
        assert(operand_conforms(op, 0, fields[1], m.operands[0]));
        assert(operand_word(op, 0, fields[1], m.operands[0]) == Ok::<u32, EncodeError>(bit_field(w, 27, 0)));
    }
}

proof fn lemma_encode_decode_regs(w: u32)
    requires
        opcode_format(decoded_opcode(w)) == InstrFormat::R2 || opcode_format(decoded_opcode(w))
            == InstrFormat::R3,
    ensures
        conforms(spec_decode(w)),
        spec_encode(spec_decode(w)) == Ok::<u32, EncodeError>(
            w & format_mask(opcode_format(decoded_opcode(w))),
        ),
{
    reveal_with_fuel(encode_fields, 4);
    lemma_decoded_fields(w);
    let m = spec_decode(w);
    let op = m.opcode;
    let fields = format_fields(opcode_format(op));
    assert(operand_conforms(op, 0, fields[1], m.operands[0]));
    assert(operand_conforms(op, 1, fields[2], m.operands[1]));
    assert(operand_word(op, 0, fields[1], m.operands[0]) == Ok::<u32, EncodeError>(bit_field(w, 27, 23)));
    assert(operand_word(op, 1, fields[2], m.operands[1]) == Ok::<u32, EncodeError>(bit_field(w, 22, 18)));
    if opcode_format(op) == InstrFormat::R2 {
        lemma_layout_r2(0, 0, 0, w);
    } else {
        lemma_layout_r3(0, 0, 0, 0, w);
        assert(operand_conforms(op, 2, fields[3], m.operands[2]));
        assert(operand_word(op, 2, fields[3], m.operands[2]) == Ok::<u32, EncodeError>(bit_field(w, 17, 13)));
    }
}

proof fn lemma_encode_decode_ri(w: u32)
    requires
        opcode_format(decoded_opcode(w)) == InstrFormat::RI,
    ensures
        conforms(spec_decode(w)),
        spec_encode(spec_decode(w)) == Ok::<u32, EncodeError>(
            w & format_mask(opcode_format(decoded_opcode(w))),
        ),
{
    reveal_with_fuel(encode_fields, 3);
    lemma_decoded_fields(w);
    let m = spec_decode(w);
    let op = m.opcode;
    let fields = format_fields(opcode_format(op));
    lemma_layout_small(0, 0, 0, w);
    let y = bit_field(w, 17, 0);
    lemma_signed18_reencode(y);
    assert(operand_conforms(op, 0, fields[1], m.operands[0]));
    assert(operand_conforms(op, 1, fields[2], m.operands[1]));
    assert(operand_word(op, 0, fields[1], m.operands[0]) == Ok::<u32, EncodeError>(bit_field(w, 27, 23)));
    assert(operand_word(op, 1, fields[2], m.operands[1]) == Ok::<u32, EncodeError>(
        (sign_extended(y, 18) as isize) as u32,
    ));
}

proof fn lemma_encode_decode_rri(w: u32)
    requires
        opcode_format(decoded_opcode(w)) == InstrFormat::RRI,
    ensures
        conforms(spec_decode(w)),
        spec_encode(spec_decode(w)) == Ok::<u32, EncodeError>(
            w & format_mask(opcode_format(decoded_opcode(w))),
        ),
{
    reveal_with_fuel(encode_fields, 4);
    vstd::arithmetic::power2::lemma2_to64();
    lemma_decoded_fields(w);
    let m = spec_decode(w);
    let op = m.opcode;
    let fields = format_fields(opcode_format(op));
    lemma_layout_rri(0, 0, 0, 0, w);
    let y = bit_field(w, 17, 0);
    lemma_signed18_reencode(y);
    assert(operand_conforms(op, 0, fields[1], m.operands[0]));
    assert(operand_conforms(op, 1, fields[2], m.operands[1]));
    assert(operand_conforms(op, 2, fields[3], m.operands[2]));
    assert(operand_word(op, 0, fields[1], m.operands[0]) == Ok::<u32, EncodeError>(bit_field(w, 27, 23)));
    assert(operand_word(op, 1, fields[2], m.operands[1]) == Ok::<u32, EncodeError>(bit_field(w, 22, 18)));
    if immediate_sign(op, 2) == Some(true) {
        assert(operand_word(op, 2, fields[3], m.operands[2]) == Ok::<u32, EncodeError>(
            (sign_extended(y, 18) as isize) as u32,
        ));
    } else {
        assert(operand_word(op, 2, fields[3], m.operands[2]) == Ok::<u32, EncodeError>(y));
    }
}

/// Every word decodes to a conforming instruction, and encoding that
/// instruction gives back the word with the bits that its format leaves
/// unused cleared.
pub proof fn lemma_encode_decode(w: u32)
    ensures
        conforms(spec_decode(w)),
        spec_encode(spec_decode(w)) == Ok::<u32, EncodeError>(
            w & format_mask(opcode_format(decoded_opcode(w))),
        ),
{
    match opcode_format(decoded_opcode(w)) {
        InstrFormat::NoOP | InstrFormat::I => lemma_encode_decode_short(w),
        InstrFormat::R2 | InstrFormat::R3 => lemma_encode_decode_regs(w),
        InstrFormat::RI => lemma_encode_decode_ri(w),
        InstrFormat::RRI => lemma_encode_decode_rri(w),
    }
}

/// Whether the error's numbers can be shown: a signed range of 1 to 63 bits,
/// an unsigned range below 64 bits.
pub open spec fn message_defined(e: EncodeError) -> bool {
    match e {
        EncodeError::SignedImmediateOutOfRange { bits, value } => 1 <= bits <= 63,
        EncodeError::UnsignedImmediateOutOfRange { bits, value } => bits < 64,
        _ => true,
    }
}

/// The text that describes an encoding error.
pub open spec fn encode_error_text(e: EncodeError) -> Seq<char> {
    match e {
        EncodeError::RegisterOutOfRange(r) => "Encode error: register R"@ + decimal(r as nat)
            + " is out of range (1..="@ + decimal(REGISTER_LIMIT as nat) + ")"@,
        EncodeError::SignedImmediateOutOfRange { bits, value } => "Encode error: immediate value "@
            + signed_decimal(value as int) + " does not fit in "@ + decimal(bits as nat)
            + " signed bits (range: "@ + signed_decimal(-pow2((bits - 1) as nat)) + " to "@
            + signed_decimal(pow2((bits - 1) as nat) - 1) + ")"@,
        EncodeError::InvalidOpcode(w) => "Encode error: Opcode for "@ + decimal(w as nat) + " not found!"@,
        EncodeError::UnsignedImmediateOutOfRange { bits, value } => "Encode error: immediate value "@
            + decimal(value as nat) + " does not fit in "@ + decimal(bits as nat) + " unsigned bits (max: "@
            + decimal((pow2(bits as nat) - 1) as nat) + ")"@,
        EncodeError::ExpectedUnsignedImmediate { bits, value } =>
            "Encode error: expected unsigned immediate value for "@ + decimal(bits as nat)
            + " bits, but got negative value "@ + signed_decimal(value as int),
    }
}

impl EncodeError {
    /// The human-readable description of the error.
    pub fn message(&self) -> (r: String)
        requires
            message_defined(*self),
        ensures
            r@ == encode_error_text(*self),
    {
        let mut out: Vec<char> = Vec::new();
        match *self {
            EncodeError::RegisterOutOfRange(r) => {
                push_str(&mut out, "Encode error: register R");
                push_decimal(&mut out, r as u128);
                push_str(&mut out, " is out of range (1..=");
                push_decimal(&mut out, REGISTER_LIMIT as u128);
                push_str(&mut out, ")");
            },
            EncodeError::SignedImmediateOutOfRange { bits, value } => {
                let shift = (bits - 1) as u64;
                proof {
                    vstd::bits::lemma_u64_pow2_no_overflow(shift as nat);
                    vstd::bits::lemma_u64_shl_is_mul(1u64, shift);
                }
                let half = (1u64 << shift) as i128;
                push_str(&mut out, "Encode error: immediate value ");
                push_signed_decimal(&mut out, value as i128);
                push_str(&mut out, " does not fit in ");
                push_decimal(&mut out, bits as u128);
                push_str(&mut out, " signed bits (range: ");
                push_signed_decimal(&mut out, -half);
                push_str(&mut out, " to ");
                push_signed_decimal(&mut out, half - 1);
                push_str(&mut out, ")");
            },
            EncodeError::InvalidOpcode(w) => {
                push_str(&mut out, "Encode error: Opcode for ");
                push_decimal(&mut out, w as u128);
                push_str(&mut out, " not found!");
            },
            EncodeError::UnsignedImmediateOutOfRange { bits, value } => {
                proof {
                    vstd::bits::lemma_u64_pow2_no_overflow(bits as nat);
                    vstd::bits::lemma_u64_shl_is_mul(1u64, bits as u64);
                }
                let max = (1u64 << (bits as u64)) - 1;
                push_str(&mut out, "Encode error: immediate value ");
                push_decimal(&mut out, value as u128);
                push_str(&mut out, " does not fit in ");
                push_decimal(&mut out, bits as u128);
                push_str(&mut out, " unsigned bits (max: ");
                push_decimal(&mut out, max as u128);
                push_str(&mut out, ")");
            },
            EncodeError::ExpectedUnsignedImmediate { bits, value } => {
                push_str(&mut out, "Encode error: expected unsigned immediate value for ");
                push_decimal(&mut out, bits as u128);
                push_str(&mut out, " bits, but got negative value ");
                push_signed_decimal(&mut out, value as i128);
            },
        }
        proof {
            assert(out@ =~= encode_error_text(*self));
        }
        string_from_chars(&out)
    }
}

} // verus!
