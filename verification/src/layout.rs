//! A field-by-field description of an instruction, in the five-bit-opcode
//! layout: opcode in bits 31..=27, register slots of five bits below it.

use vstd::prelude::*;
use crate::types::{format_size, opcode_code, opcode_format, operand_value, InstrFormat, InstrModel, Operand, ResolvedInstruction};

verus! {

/// The kind of value a bit field holds.
#[derive(Debug, Clone, Copy, PartialEq, Eq, Structural)]
pub enum FieldKind {
    Opcode,
    Register,
    Immediate,
}

/// One field of an instruction layout: its kind, its value and its bit range
/// `hi_bit..=lo_bit` (both inclusive, bits numbered 0 to 31).
#[derive(Debug, Clone, Copy, PartialEq, Eq, Structural)]
pub struct BitField {
    pub kind: FieldKind,
    pub value: u32,
    pub hi_bit: u8,
    pub lo_bit: u8,
}

/// The fields of an instruction, opcode first.
pub struct InstructionLayout {
    pub format: InstrFormat,
    pub fields: Vec<BitField>,
}

impl BitField {
    /// Number of bits of the field (both ends included).
    pub fn width(&self) -> (r: u8)
        requires
            self.lo_bit <= self.hi_bit,
            self.hi_bit - self.lo_bit < 255,
        ensures
            r == self.hi_bit - self.lo_bit + 1,
    {
        self.hi_bit - self.lo_bit + 1
    }
}

/// The operand's value as a 32-bit word (two's complement for negatives).
pub open spec fn operand_word_value(op: Operand) -> u32 {
    operand_value(op) as u32
}

fn to_u32(op: Operand) -> (r: u32)
    ensures
        r == operand_word_value(op),
{
    match op {
        Operand::Register(n) => n as u32,
        Operand::Immediate(n) => n as u32,
    }
}

/// A field of the given kind holding `value` in bits `hi..=lo`.
pub open spec fn field_at(kind: FieldKind, value: u32, hi: u8, lo: u8) -> BitField {
    BitField { kind, value, hi_bit: hi, lo_bit: lo }
}

/// The layout of an instruction: the opcode in bits 31..=27, registers in
/// five-bit slots from bit 26 down, and immediates in the bits that remain.
pub open spec fn layout_fields(m: InstrModel) -> Seq<BitField> {
    let o = m.operands;
    let opf = field_at(FieldKind::Opcode, opcode_code(m.opcode) as u32, 31, 27);
    let reg = FieldKind::Register;
    let imm = FieldKind::Immediate;
    match opcode_format(m.opcode) {
        InstrFormat::R2 => seq![
            opf,
            field_at(reg, operand_word_value(o[0]), 26, 22),
            field_at(reg, operand_word_value(o[1]), 21, 17),
        ],
        InstrFormat::R3 => seq![
            opf,
            field_at(reg, operand_word_value(o[0]), 26, 22),
            field_at(reg, operand_word_value(o[1]), 21, 17),
            field_at(reg, operand_word_value(o[2]), 16, 12),
        ],
        InstrFormat::RI => seq![
            opf,
            field_at(reg, operand_word_value(o[0]), 26, 22),
            field_at(imm, operand_word_value(o[1]), 21, 0),
        ],
        InstrFormat::RRI => seq![
            opf,
            field_at(reg, operand_word_value(o[0]), 26, 22),
            field_at(reg, operand_word_value(o[1]), 21, 17),
            field_at(imm, operand_word_value(o[2]), 16, 0),
        ],
        InstrFormat::I => seq![opf, field_at(imm, operand_word_value(o[0]), 26, 0)],
        InstrFormat::NoOP => seq![opf, field_at(imm, 0, 26, 0)],
    }
}

/// The fields of a layout cover disjoint bit ranges from the top down: the
/// opcode field comes first in bits 31..=27, every field has `lo <= hi <= 31`,
/// and each field lies wholly below the one before it. The fields after the
/// opcode hold the operands in order, as 32-bit words; an instruction
/// without operands has one padding immediate field of value 0.
pub proof fn lemma_layout_fields_descend(m: InstrModel)
    ensures
        layout_fields(m).len() >= 2,
        layout_fields(m)[0] == field_at(FieldKind::Opcode, opcode_code(m.opcode) as u32, 31, 27),
        forall|k: int|
            0 <= k < layout_fields(m).len() ==> #[trigger] layout_fields(m)[k].lo_bit <= layout_fields(m)[k].hi_bit
                <= 31,
        forall|k: int|
            0 <= k < layout_fields(m).len() - 1 ==> #[trigger] layout_fields(m)[k].lo_bit > layout_fields(
                m,
            )[k + 1].hi_bit,
        opcode_format(m.opcode) != InstrFormat::NoOP && m.operands.len() + 1 == format_size(opcode_format(m.opcode))
            ==> layout_fields(m).len() == m.operands.len() + 1 && forall|k: int|
            0 <= k < m.operands.len() ==> #[trigger] layout_fields(m)[k + 1].value == operand_word_value(
                m.operands[k],
            ),
        opcode_format(m.opcode) == InstrFormat::NoOP ==> layout_fields(m) == seq![
            field_at(FieldKind::Opcode, opcode_code(m.opcode) as u32, 31, 27),
            field_at(FieldKind::Immediate, 0, 26, 0),
        ],
{
    let f = layout_fields(m);
    match opcode_format(m.opcode) {
        InstrFormat::R2 => {
            assert(f.len() == 3);
        },
        InstrFormat::R3 => {
            assert(f.len() == 4);
        },
        InstrFormat::RI => {
            assert(f.len() == 3);
        },
        InstrFormat::RRI => {
            assert(f.len() == 4);
        },
        InstrFormat::I => {
            assert(f.len() == 2);
        },
        InstrFormat::NoOP => {
            assert(f.len() == 2);
        },
    }
}

impl InstructionLayout {
    /// The layout of a resolved instruction, which must have as many
    /// operands as its format has operand fields.
    pub fn from(value: &ResolvedInstruction) -> (r: Self)
        requires
            value.operands@.len() + 1 == format_size(opcode_format(value.opcode)),
        ensures
            r.format == opcode_format(value.opcode),
            r.fields@ == layout_fields(value@),
    {
        let format = value.opcode.instruction_format();
        let opcode_value = value.opcode.code();
        let mut fields: Vec<BitField> = Vec::new();
        fields.push(BitField { kind: FieldKind::Opcode, value: opcode_value as u32, hi_bit: 31, lo_bit: 27 });
        match format {
            InstrFormat::R2 => {
                let r1 = to_u32(value.operands[0]);
                let r2 = to_u32(value.operands[1]);
                fields.push(BitField { kind: FieldKind::Register, value: r1, hi_bit: 26, lo_bit: 22 });
                fields.push(BitField { kind: FieldKind::Register, value: r2, hi_bit: 21, lo_bit: 17 });
            },
            InstrFormat::R3 => {
                let r1 = to_u32(value.operands[0]);
                let r2 = to_u32(value.operands[1]);
                let r3 = to_u32(value.operands[2]);
                fields.push(BitField { kind: FieldKind::Register, value: r1, hi_bit: 26, lo_bit: 22 });
                fields.push(BitField { kind: FieldKind::Register, value: r2, hi_bit: 21, lo_bit: 17 });
                fields.push(BitField { kind: FieldKind::Register, value: r3, hi_bit: 16, lo_bit: 12 });
            },
            InstrFormat::RI => {
                let r = to_u32(value.operands[0]);
                let imm = to_u32(value.operands[1]);
                fields.push(BitField { kind: FieldKind::Register, value: r, hi_bit: 26, lo_bit: 22 });
                fields.push(BitField { kind: FieldKind::Immediate, value: imm, hi_bit: 21, lo_bit: 0 });
            },
            InstrFormat::RRI => {
                let r1 = to_u32(value.operands[0]);
                let r2 = to_u32(value.operands[1]);
                let imm = to_u32(value.operands[2]);
                fields.push(BitField { kind: FieldKind::Register, value: r1, hi_bit: 26, lo_bit: 22 });
                fields.push(BitField { kind: FieldKind::Register, value: r2, hi_bit: 21, lo_bit: 17 });
                fields.push(BitField { kind: FieldKind::Immediate, value: imm, hi_bit: 16, lo_bit: 0 });
            },
            InstrFormat::I => {
                let imm = to_u32(value.operands[0]);
                fields.push(BitField { kind: FieldKind::Immediate, value: imm, hi_bit: 26, lo_bit: 0 });
            },
            InstrFormat::NoOP => {
                fields.push(BitField { kind: FieldKind::Immediate, value: 0, hi_bit: 26, lo_bit: 0 });
            },
        }
        proof {
            assert(fields@ =~= layout_fields(value@));
        }
        InstructionLayout { format, fields }
    }
}

} // verus!
