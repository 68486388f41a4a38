//! The bit layout of every instruction format, in one place.

use vstd::prelude::*;
use crate::types::InstrFormat;

verus! {

/// An inclusive bit range `hi..=lo` of a 32-bit word.
#[derive(Debug, Clone, Copy, PartialEq, Eq, Structural)]
pub struct BitRange {
    pub hi: u8,
    pub lo: u8,
}

/// Which kind of field occupies a bit range.
#[derive(Debug, Clone, Copy, PartialEq, Eq, Structural)]
pub enum FieldSpec {
    Opcode(BitRange),
    Register(BitRange),
    Immediate(BitRange),
}

/// The field list of an instruction format, opcode field first.
pub struct FormatSpec {
    pub format: InstrFormat,
    pub fields: Vec<FieldSpec>,
}

/// The range of a field, whatever its kind.
pub open spec fn field_range(f: FieldSpec) -> BitRange {
    match f {
        FieldSpec::Opcode(r) => r,
        FieldSpec::Register(r) => r,
        FieldSpec::Immediate(r) => r,
    }
}

/// Number of bits in a range.
pub open spec fn range_bits(r: BitRange) -> int {
    r.hi - r.lo + 1
}

impl BitRange {
    /// The range `hi..=lo`.
    pub fn new(hi: u8, lo: u8) -> (r: Self)
        ensures
            r.hi == hi,
            r.lo == lo,
    {
        Self { hi, lo }
    }

    /// Number of bits in the range (both ends included).
    pub fn width(&self) -> (r: u8)
        requires
            self.lo <= self.hi,
            self.hi - self.lo < 255,
        ensures
            r == range_bits(*self),
    {
        self.hi - self.lo + 1
    }
}

impl FieldSpec {
    /// The bit range of the field.
    pub fn bit_range(&self) -> (r: BitRange)
        ensures
            r == field_range(*self),
    {
        match self {
            FieldSpec::Opcode(r) => *r,
            FieldSpec::Register(r) => *r,
            FieldSpec::Immediate(r) => *r,
        }
    }
}

/// The opcode always occupies bits 31..=28.
pub open spec fn spec_opcode_range() -> BitRange {
    BitRange { hi: 31, lo: 28 }
}

/// Register slots: five bits each.
pub open spec fn reg1_range() -> BitRange {
    BitRange { hi: 27, lo: 23 }
}

pub open spec fn reg2_range() -> BitRange {
    BitRange { hi: 22, lo: 18 }
}

pub open spec fn reg3_range() -> BitRange {
    BitRange { hi: 17, lo: 13 }
}

/// The 28-bit immediate of the I format.
pub open spec fn imm28_range() -> BitRange {
    BitRange { hi: 27, lo: 0 }
}

/// The 18-bit immediate of the RI and RRI formats.
pub open spec fn imm18_range() -> BitRange {
    BitRange { hi: 17, lo: 0 }
}

/// The fields of each format, opcode first, in encoding order.
pub open spec fn format_fields(format: InstrFormat) -> Seq<FieldSpec> {
    match format {
        InstrFormat::R2 => seq![
            FieldSpec::Opcode(spec_opcode_range()),
            FieldSpec::Register(reg1_range()),
            FieldSpec::Register(reg2_range()),
        ],
        InstrFormat::R3 => seq![
            FieldSpec::Opcode(spec_opcode_range()),
            FieldSpec::Register(reg1_range()),
            FieldSpec::Register(reg2_range()),
            FieldSpec::Register(reg3_range()),
        ],
        InstrFormat::RI => seq![
            FieldSpec::Opcode(spec_opcode_range()),
            FieldSpec::Register(reg1_range()),
            FieldSpec::Immediate(imm18_range()),
        ],
        InstrFormat::RRI => seq![
            FieldSpec::Opcode(spec_opcode_range()),
            FieldSpec::Register(reg1_range()),
            FieldSpec::Register(reg2_range()),
            FieldSpec::Immediate(imm18_range()),
        ],
        InstrFormat::I => seq![FieldSpec::Opcode(spec_opcode_range()), FieldSpec::Immediate(imm28_range())],
        InstrFormat::NoOP => seq![FieldSpec::Opcode(spec_opcode_range())],
    }
}

/// The range of the opcode field, bits 31..=28.
pub fn opcode_range() -> (r: BitRange)
    ensures
        r == spec_opcode_range(),
{
    BitRange::new(31, 28)
}

/// The format specification (its field list) of a format.
pub fn get_format_spec(format: InstrFormat) -> (r: FormatSpec)
    ensures
        r.format == format,
        r.fields@ == format_fields(format),
{
    let op = FieldSpec::Opcode(opcode_range());
    let r1 = FieldSpec::Register(BitRange::new(27, 23));
    let r2 = FieldSpec::Register(BitRange::new(22, 18));
    let r3 = FieldSpec::Register(BitRange::new(17, 13));
    let imm18 = FieldSpec::Immediate(BitRange::new(17, 0));
    let imm28 = FieldSpec::Immediate(BitRange::new(27, 0));
    let fields = match format {
        InstrFormat::R2 => vec![op, r1, r2],
        InstrFormat::R3 => vec![op, r1, r2, r3],
        InstrFormat::RI => vec![op, r1, imm18],
        InstrFormat::RRI => vec![op, r1, r2, imm18],
        InstrFormat::I => vec![op, imm28],
        InstrFormat::NoOP => vec![op],
    };
    FormatSpec { format, fields }
}

/// Every field of every format is a well-formed range within the word, and
/// only the first field is the opcode field, at bits 31..=28.
pub proof fn lemma_format_fields_well_formed(format: InstrFormat)
    ensures
        format_fields(format).len() >= 1,
        format_fields(format)[0] == FieldSpec::Opcode(spec_opcode_range()),
        forall|i: int|
            0 <= i < format_fields(format).len() ==> {
                let r = field_range(#[trigger] format_fields(format)[i]);
                r.lo <= r.hi < 32
            },
        forall|i: int|
            1 <= i < format_fields(format).len() ==> !(#[trigger] format_fields(format)[i] is Opcode),
{
}

} // verus!
