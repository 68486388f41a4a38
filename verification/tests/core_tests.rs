use isa_utils::bits::{fits_in_signed_bits, fits_in_unsigned_bits, get_bits, set_bits, sign_extend};
use isa_utils::codec::EncodeError;
use isa_utils::format_spec::{get_format_spec, BitRange, FieldSpec};
use isa_utils::layout::{BitField, FieldKind, InstructionLayout};
use isa_utils::traits::{Decodable, Encodable};
use isa_utils::types::{InstrFormat, Opcode, Operand, ResolvedInstruction};

#[test]
fn tests_test_opcode_roundtrip() {
    for opcode in [
        Opcode::ADD,
        Opcode::SUB,
        Opcode::MULT,
        Opcode::LI,
        Opcode::LD,
        Opcode::JR,
        Opcode::NOP,
        Opcode::END,
    ] {
        let code = opcode.code();
        assert_eq!(Opcode::from_code(code), Some(opcode));
    }
}

#[test]
fn tests_test_instruction_decode_encode() {
    // R3 format: ADD R1, R2, R3 and MULT R1, R2, R3
    for opcode in [Opcode::ADD, Opcode::MULT] {
        let instr = ResolvedInstruction {
            opcode,
            operands: vec![
                Operand::Register(1),
                Operand::Register(2),
                Operand::Register(3),
            ],
        };
        let encoded = instr.encode().unwrap();
        let decoded = encoded.decode().unwrap();
        assert_eq!(instr, decoded);
    }

    // RI format: LI R4, 100
    let instr = ResolvedInstruction {
        opcode: Opcode::LI,
        operands: vec![Operand::Register(4), Operand::Immediate(100)],
    };
    let encoded = instr.encode().unwrap();
    let decoded = encoded.decode().unwrap();
    assert_eq!(instr, decoded);
}

#[test]
fn tests_test_bit_manipulation() {
    let mut word = 0u32;
    set_bits(&mut word, 31, 27, 0b11111);
    assert_eq!(get_bits(word, 31, 27), 0b11111);

    set_bits(&mut word, 26, 22, 0b10101);
    assert_eq!(get_bits(word, 26, 22), 0b10101);
    assert_eq!(get_bits(word, 31, 27), 0b11111); // Previous bits unchanged
}

#[test]
fn signed_bit_widths() {
    assert!(fits_in_signed_bits(131071, 18));
    assert!(!fits_in_signed_bits(131072, 18));
    assert!(fits_in_signed_bits(-131072, 18));
    assert!(!fits_in_signed_bits(-131073, 18));
    assert!(fits_in_signed_bits(0, 0));
    assert!(!fits_in_signed_bits(1, 0));
    assert!(fits_in_signed_bits(isize::MAX, 64));
    assert!(fits_in_signed_bits(isize::MIN, 64));
    assert!(fits_in_signed_bits(-1, 1));
    assert!(!fits_in_signed_bits(1, 1));
}

#[test]
fn unsigned_bit_widths() {
    assert!(fits_in_unsigned_bits(15, 4));
    assert!(!fits_in_unsigned_bits(16, 4));
    assert!(fits_in_unsigned_bits(0, 0));
    assert!(!fits_in_unsigned_bits(1, 0));
    assert!(fits_in_unsigned_bits((1 << 28) - 1, 28));
    assert!(!fits_in_unsigned_bits(1 << 28, 28));
    assert!(!fits_in_unsigned_bits(1 << 31, 31));
    assert!(fits_in_unsigned_bits((1 << 31) - 1, 31));
    assert!(!fits_in_unsigned_bits(usize::MAX, 63));
    assert!(fits_in_unsigned_bits(usize::MAX, 64));
}

#[test]
fn sign_extension() {
    assert_eq!(sign_extend(0x3FFFF, 18), -1);
    assert_eq!(sign_extend(0x1FFFF, 18), 131071);
    assert_eq!(sign_extend(0x20000, 18), -131072);
    assert_eq!(sign_extend(5, 0), 0);
    assert_eq!(sign_extend(0b101, 3), -3);
    assert_eq!(sign_extend(0b011, 3), 3);
}

#[test]
fn set_bits_ors_into_the_word() {
    let mut word = 0xF000_0000u32;
    set_bits(&mut word, 27, 23, 0b111111); // the value is cut to the field width
    assert_eq!(word, 0xFF80_0000);
    set_bits(&mut word, 31, 0, 0x0000_00FF);
    assert_eq!(word, 0xFF80_00FF);
    assert_eq!(get_bits(0xDEAD_BEEF, 31, 0), 0xDEAD_BEEF);
    assert_eq!(get_bits(0xDEAD_BEEF, 31, 28), 0xD);
    assert_eq!(get_bits(0xDEAD_BEEF, 3, 0), 0xF);
}

#[test]
fn format_specs_have_expected_fields() {
    let rri = get_format_spec(InstrFormat::RRI);
    assert_eq!(rri.format, InstrFormat::RRI);
    assert_eq!(
        rri.fields,
        vec![
            FieldSpec::Opcode(BitRange { hi: 31, lo: 28 }),
            FieldSpec::Register(BitRange { hi: 27, lo: 23 }),
            FieldSpec::Register(BitRange { hi: 22, lo: 18 }),
            FieldSpec::Immediate(BitRange { hi: 17, lo: 0 }),
        ]
    );
    let i = get_format_spec(InstrFormat::I);
    assert_eq!(
        i.fields,
        vec![
            FieldSpec::Opcode(BitRange { hi: 31, lo: 28 }),
            FieldSpec::Immediate(BitRange { hi: 27, lo: 0 }),
        ]
    );
    assert_eq!(get_format_spec(InstrFormat::NoOP).fields.len(), 1);
    assert_eq!(BitRange::new(17, 0).width(), 18);
    assert_eq!(FieldSpec::Register(BitRange::new(22, 18)).bit_range(), BitRange { hi: 22, lo: 18 });
}

#[test]
fn opcode_names_and_formats() {
    assert_eq!(Opcode::MULT.to_string(), "MULT");
    assert_eq!(Opcode::JEQ.code(), 13);
    assert_eq!(Opcode::from_code(15), Some(Opcode::END));
    assert_eq!(Opcode::from_code(16), None);
    assert_eq!(Opcode::ADDI.instruction_format(), InstrFormat::RRI);
    assert_eq!(Opcode::NOT.instruction_format(), InstrFormat::R2);
    assert_eq!(Opcode::ADDI.immediate_signedness(2), Some(true));
    assert_eq!(Opcode::JLT.immediate_signedness(2), Some(false));
    assert_eq!(Opcode::ADD.immediate_signedness(2), None);
    assert_eq!(InstrFormat::RRI.size(), 4);
    assert_eq!(InstrFormat::NoOP.size(), 1);
    assert_eq!(Operand::Immediate(-7).get_val(), -7);
    assert_eq!(Operand::Register(9).get_val(), 9);
}

#[test]
fn every_code_decodes_to_an_opcode() {
    for code in 0u8..16 {
        let op = Opcode::from_code(code).unwrap();
        assert_eq!(op.code(), code);
    }
}

#[test]
fn encode_error_variants() {
    let li = ResolvedInstruction {
        opcode: Opcode::LI,
        operands: vec![Operand::Register(0), Operand::Immediate(isize::MAX)],
    };
    assert_eq!(
        li.encode(),
        Err(EncodeError::SignedImmediateOutOfRange { bits: 18, value: isize::MAX })
    );

    let jr = ResolvedInstruction { opcode: Opcode::JR, operands: vec![Operand::Immediate(1 << 30)] };
    assert_eq!(
        jr.encode(),
        Err(EncodeError::UnsignedImmediateOutOfRange { bits: 28, value: 1 << 30 })
    );

    let jr = ResolvedInstruction { opcode: Opcode::JR, operands: vec![Operand::Immediate(-1)] };
    assert_eq!(jr.encode(), Err(EncodeError::ExpectedUnsignedImmediate { bits: 28, value: -1 }));

    let jeq = ResolvedInstruction {
        opcode: Opcode::JEQ,
        operands: vec![Operand::Register(1), Operand::Register(2), Operand::Immediate(1 << 18)],
    };
    assert_eq!(
        jeq.encode(),
        Err(EncodeError::UnsignedImmediateOutOfRange { bits: 18, value: 1 << 18 })
    );
}

#[test]
fn encode_error_messages() {
    assert_eq!(
        EncodeError::RegisterOutOfRange(40).message(),
        "Encode error: register R40 is out of range (1..=32)"
    );
    assert_eq!(
        EncodeError::SignedImmediateOutOfRange { bits: 18, value: 200000 }.message(),
        "Encode error: immediate value 200000 does not fit in 18 signed bits (range: -131072 to 131071)"
    );
    assert_eq!(
        EncodeError::UnsignedImmediateOutOfRange { bits: 28, value: 1 << 30 }.message(),
        "Encode error: immediate value 1073741824 does not fit in 28 unsigned bits (max: 268435455)"
    );
    assert_eq!(EncodeError::InvalidOpcode(17).message(), "Encode error: Opcode for 17 not found!");
    assert_eq!(
        EncodeError::ExpectedUnsignedImmediate { bits: 28, value: -1 }.message(),
        "Encode error: expected unsigned immediate value for 28 bits, but got negative value -1"
    );
}

#[test]
fn exact_encodings() {
    let add = ResolvedInstruction {
        opcode: Opcode::ADD,
        operands: vec![Operand::Register(1), Operand::Register(2), Operand::Register(3)],
    };
    assert_eq!(add.encode(), Ok(0x1088_6000));
    let li = ResolvedInstruction { opcode: Opcode::LI, operands: vec![Operand::Register(20), Operand::Immediate(-1)] };
    assert_eq!(li.encode(), Ok(0x9A03_FFFF));
    let jr = ResolvedInstruction { opcode: Opcode::JR, operands: vec![Operand::Immediate(0x0ABC_DEF0)] };
    assert_eq!(jr.encode(), Ok(0xCABC_DEF0));
    let end = ResolvedInstruction { opcode: Opcode::END, operands: vec![] };
    assert_eq!(end.encode(), Ok(0xF000_0000));
}

#[test]
fn decode_ignores_unused_bits_and_reencodes_masked() {
    // ADD with every bit set: the 13 unused low bits are dropped.
    let word = 0x1FFF_FFFFu32;
    let decoded = word.decode().unwrap();
    assert_eq!(
        decoded,
        ResolvedInstruction {
            opcode: Opcode::ADD,
            operands: vec![Operand::Register(31), Operand::Register(31), Operand::Register(31)],
        }
    );
    assert_eq!(decoded.encode(), Ok(0x1FFF_E000));

    // LI with a negative immediate and a set unused register field.
    let word = 0x9A7F_FFFFu32;
    let decoded = word.decode().unwrap();
    assert_eq!(
        decoded,
        ResolvedInstruction { opcode: Opcode::LI, operands: vec![Operand::Register(20), Operand::Immediate(-1)] }
    );
    assert_eq!(decoded.encode(), Ok(0x9A03_FFFF));

    // NOP ignores everything below the opcode.
    let decoded = 0x0123_4567u32.decode().unwrap();
    assert_eq!(decoded, ResolvedInstruction { opcode: Opcode::NOP, operands: vec![] });
}

#[test]
fn layout_of_instructions() {
    let add = ResolvedInstruction {
        opcode: Opcode::ADD,
        operands: vec![Operand::Register(1), Operand::Register(2), Operand::Register(3)],
    };
    let layout = InstructionLayout::from(&add);
    assert_eq!(layout.format, InstrFormat::R3);
    assert_eq!(
        layout.fields,
        vec![
            BitField { kind: FieldKind::Opcode, value: 1, hi_bit: 31, lo_bit: 27 },
            BitField { kind: FieldKind::Register, value: 1, hi_bit: 26, lo_bit: 22 },
            BitField { kind: FieldKind::Register, value: 2, hi_bit: 21, lo_bit: 17 },
            BitField { kind: FieldKind::Register, value: 3, hi_bit: 16, lo_bit: 12 },
        ]
    );
    assert_eq!(layout.fields[1].width(), 5);

    let end = ResolvedInstruction { opcode: Opcode::END, operands: vec![] };
    let layout = InstructionLayout::from(&end);
    assert_eq!(layout.format, InstrFormat::NoOP);
    assert_eq!(
        layout.fields,
        vec![
            BitField { kind: FieldKind::Opcode, value: 15, hi_bit: 31, lo_bit: 27 },
            BitField { kind: FieldKind::Immediate, value: 0, hi_bit: 26, lo_bit: 0 },
        ]
    );
}

#[test]
fn sign_extension_recovers_fitting_values() {
    for width in 1u8..=31 {
        let half: isize = 1 << (width - 1);
        let mask: u32 = ((1u64 << width) - 1) as u32;
        for v in [-half, -1, 0, half - 1] {
            if fits_in_signed_bits(v, width) {
                assert_eq!(sign_extend((v as u32) & mask, width), v);
            }
        }
    }
}

// The three tests below once expected 22- and 27-bit fields, from an older
// layout with a 5-bit opcode and a second register in the immediate formats.
// The instruction formats give LI (RI) an 18-bit and JR (I) a 28-bit
// immediate, and these tests expect those widths.

#[test]
fn test_signed_immediate_too_large() {
    let instr = ResolvedInstruction {
        opcode: Opcode::LI,
        operands: vec![Operand::Register(0), Operand::Immediate(isize::MAX)],
    };
    let result = instr.encode();
    assert!(result.is_err());
    let err = instr.encode().unwrap_err();
    assert!(matches!(err, EncodeError::SignedImmediateOutOfRange { bits: 18, value: _ }));
}

#[test]
fn test_unsigned_immediate_too_large() {
    let instr = ResolvedInstruction {
        opcode: Opcode::JR,
        operands: vec![Operand::Immediate(1 << 30)],
    };
    let result = instr.encode();
    assert!(result.is_err());
    let err = instr.encode().unwrap_err();
    assert!(matches!(err, EncodeError::UnsignedImmediateOutOfRange { bits: 28, value: _ }));
}

#[test]
fn test_negative_val_when_unsigned_expected() {
    let instr = ResolvedInstruction {
        opcode: Opcode::JR,
        operands: vec![Operand::Immediate(-1)],
    };
    let result = instr.encode();
    assert!(result.is_err());
    let err = instr.encode().unwrap_err();
    assert!(matches!(err, EncodeError::ExpectedUnsignedImmediate { bits: 28, value: _ }));
}
