//! What the instruction set means, stated apart from the tables and the step
//! function that implement it: the code of every opcode, which immediates
//! are signed, and what each instruction does to registers and memory.

use vstd::prelude::*;
use crate::bits::{bit_field, fits_signed, lemma_bit_field_value, lemma_sign_extended_value};
use vstd::arithmetic::power2::pow2;
use crate::codec::{
    conforms, decode_field, lemma_decode_encode, operand_conforms, spec_decode, spec_encode, EncodeError,
};
use crate::format_spec::format_fields;
use crate::types::{
    immediate_sign, opcode_code, opcode_format, opcode_name, opcode_of_code, operand_value, InstrFormat,
    InstrModel, Opcode, Operand,
};
use crate::vm::{can_step, current, executable, step, MachineModel, VMError};

verus! {

/// The mnemonics of the instruction set in the order of their 4-bit codes:
/// `NOP` is 0b0000, `ADD` 0b0001, ..., `END` 0b1111.
pub open spec fn isa_code_table() -> Seq<Seq<char>> {
    seq![
        "NOP"@,
        "ADD"@,
        "SUB"@,
        "MULT"@,
        "ADDI"@,
        "SUBI"@,
        "OR"@,
        "NOT"@,
        "AND"@,
        "LI"@,
        "LD"@,
        "SD"@,
        "JR"@,
        "JEQ"@,
        "JLT"@,
        "END"@,
    ]
}

/// Every opcode's code is the position of its mnemonic in the instruction
/// set's code table, and every code below 16 names the opcode listed there.
pub proof fn lemma_opcode_codes(op: Opcode, code: u8)
    ensures
        opcode_code(op) < 16,
        isa_code_table()[opcode_code(op) as int] == opcode_name(op),
        code < 16 ==> opcode_of_code(code) is Some && opcode_name(opcode_of_code(code)->Some_0)
            == isa_code_table()[code as int],
        code >= 16 ==> opcode_of_code(code) is None,
{
    reveal_strlit("NOP");
    reveal_strlit("ADD");
    reveal_strlit("SUB");
    reveal_strlit("MULT");
    reveal_strlit("ADDI");
    reveal_strlit("SUBI");
    reveal_strlit("OR");
    reveal_strlit("NOT");
    reveal_strlit("AND");
    reveal_strlit("LI");
    reveal_strlit("LD");
    reveal_strlit("SD");
    reveal_strlit("JR");
    reveal_strlit("JEQ");
    reveal_strlit("JLT");
    reveal_strlit("END");
}

/// Decoding reads the opcode from bits 31..=28 through the code table: the
/// decoded opcode's mnemonic is the table's entry for those four bits.
pub proof fn lemma_decode_reads_code_table(word: u32)
    ensures
        opcode_name(spec_decode(word).opcode) == isa_code_table()[bit_field(word, 31, 28) as int],
{
    lemma_bit_field_value(word, 31, 28);
    vstd::arithmetic::power2::lemma2_to64();
    let c = bit_field(word, 31, 28);
    assert(c < 16);
    lemma_opcode_codes(Opcode::NOP, c as u8);
}

/// Encoding writes the opcode's entry of the code table into bits 31..=28:
/// for every instruction with well-formed operands, the mnemonic at the
/// encoded word's top four bits is the instruction's own.
pub proof fn lemma_encode_writes_code_table(m: InstrModel)
    requires
        conforms(m),
    ensures
        spec_encode(m) is Ok,
        isa_code_table()[bit_field(spec_encode(m)->Ok_0, 31, 28) as int] == opcode_name(m.opcode),
{
    lemma_decode_encode(m);
    lemma_decode_reads_code_table(spec_encode(m)->Ok_0);
}

/// The immediates of `ADDI`, `SUBI` (operand 2) and `LI` (operand 1) are
/// signed; jump targets (`JR` operand 0, `JEQ` and `JLT` operand 2) are
/// unsigned; every other operand is a register.
pub proof fn lemma_immediate_signs(op: Opcode, i: int)
    ensures
        immediate_sign(op, i) == Some(true) <==> ((op == Opcode::ADDI || op == Opcode::SUBI) && i == 2) || (op
            == Opcode::LI && i == 1),
        immediate_sign(op, i) == Some(false) <==> (op == Opcode::JR && i == 0) || ((op == Opcode::JEQ || op
            == Opcode::JLT) && i == 2),
{
}

/// `ADDI`, `SUBI` and `LI` take every immediate of 18 signed bits,
/// negative ones included: with registers below 32, the instruction encodes,
/// and its word decodes back to it.
pub proof fn lemma_signed_immediates_roundtrip(m: InstrModel)
    requires
        m.opcode == Opcode::ADDI || m.opcode == Opcode::SUBI || m.opcode == Opcode::LI,
        m.opcode == Opcode::LI ==> m.operands.len() == 2,
        m.opcode != Opcode::LI ==> m.operands.len() == 3,
        forall|i: int| 0 <= i < m.operands.len() - 1 ==> ((#[trigger] m.operands[i]) matches Operand::Register(r) && r < 32),
        m.operands.last() is Immediate,
        -0x2_0000 <= operand_value(m.operands.last()) < 0x2_0000,
    ensures
        spec_encode(m) is Ok,
        spec_decode(spec_encode(m)->Ok_0) == m,
{
    vstd::arithmetic::power2::lemma2_to64();
    let fields = format_fields(opcode_format(m.opcode));
    assert forall|i: int| 0 <= i < m.operands.len() implies operand_conforms(
        m.opcode,
        i,
        fields[i + 1],
        #[trigger] m.operands[i],
    ) by {
        if i == m.operands.len() - 1 {
            assert(fits_signed(operand_value(m.operands[i]), 18));
        }
    }
    lemma_decode_encode(m);
}

/// A jump with a negative target does not encode.
pub proof fn lemma_negative_jump_target(m: InstrModel)
    requires
        m.opcode == Opcode::JR ==> m.operands.len() == 1,
        m.opcode == Opcode::JEQ || m.opcode == Opcode::JLT ==> m.operands.len() == 3 && m.operands[0] is Register
            && m.operands[1] is Register,
        m.opcode == Opcode::JR || m.opcode == Opcode::JEQ || m.opcode == Opcode::JLT,
        m.operands.last() is Immediate,
        operand_value(m.operands.last()) < 0,
    ensures
        (spec_encode(m) matches Err(e) && (e matches EncodeError::ExpectedUnsignedImmediate { .. })),
{
    reveal_with_fuel(crate::codec::encode_fields, 4);
}

/// Where encoding puts each operand: the first register in bits 27..=23,
/// the second in 22..=18, a third in 17..=13; an 18-bit immediate in bits
/// 17..=0 as its two's complement (equal to the value modulo `2^18`), and a
/// 28-bit jump target in bits 27..=0.
pub proof fn lemma_field_positions(m: InstrModel)
    requires
        conforms(m),
    ensures
        spec_encode(m) is Ok,
        ({
            let w = spec_encode(m)->Ok_0;
            let f = opcode_format(m.opcode);
            let v = |i: int| operand_value(m.operands[i]);
            &&& (f == InstrFormat::R2 || f == InstrFormat::R3 || f == InstrFormat::RI || f == InstrFormat::RRI) ==> bit_field(
                w,
                27,
                23,
            ) == v(0)
            &&& (f == InstrFormat::R2 || f == InstrFormat::R3 || f == InstrFormat::RRI) ==> bit_field(w, 22, 18) == v(1)
            &&& f == InstrFormat::R3 ==> bit_field(w, 17, 13) == v(2)
            &&& f == InstrFormat::RI ==> (bit_field(w, 17, 0) - v(1)) % 0x4_0000 == 0
            &&& f == InstrFormat::RRI ==> (bit_field(w, 17, 0) - v(2)) % 0x4_0000 == 0
            &&& f == InstrFormat::I ==> bit_field(w, 27, 0) == v(0)
        }),
{
    lemma_decode_encode(m);
    let w = spec_encode(m)->Ok_0;
    vstd::arithmetic::power2::lemma2_to64();
    lemma_bit_field_value(w, 27, 23);
    lemma_bit_field_value(w, 22, 18);
    lemma_bit_field_value(w, 17, 13);
    lemma_bit_field_value(w, 17, 0);
    lemma_bit_field_value(w, 27, 0);
    let f = opcode_format(m.opcode);
    let fields = format_fields(f);
    assert(spec_decode(w).operands == m.operands);
    if f == InstrFormat::RI || f == InstrFormat::RRI {
        let k = m.operands.len() - 1;
        assert(m.operands[k] == decode_field(m.opcode, k, fields[k + 1], w));
        let raw = bit_field(w, 17, 0);
        if immediate_sign(m.opcode, k) == Some(true) {
            lemma_sign_extended_value(raw, 18);
            assert(pow2(17) == 0x2_0000 && pow2(18) == 0x4_0000);
        }
    }
    if f == InstrFormat::I {
        assert(m.operands[0] == decode_field(m.opcode, 0, fields[1], w));
    }
    if f == InstrFormat::R2 || f == InstrFormat::R3 || f == InstrFormat::RI || f == InstrFormat::RRI {
        assert(m.operands[0] == decode_field(m.opcode, 0, fields[1], w));
    }
    if f == InstrFormat::R2 || f == InstrFormat::R3 || f == InstrFormat::RRI {
        assert(m.operands[1] == decode_field(m.opcode, 1, fields[2], w));
    }
    if f == InstrFormat::R3 {
        assert(m.operands[2] == decode_field(m.opcode, 2, fields[3], w));
    }
}

/// Whether `a` and `b` are the same 32-bit word: equal modulo `2^32`.
pub open spec fn same_word(a: int, b: int) -> bool {
    (a - b) % 0x1_0000_0000 == 0
}

proof fn lemma_i32_same_word_unique(r: i32, a: int)
    requires
        i32::MIN <= a <= i32::MAX,
        same_word(r as int, a),
    ensures
        r == a,
{
    let d = r as int - a;
    assert(-0x1_0000_0000 < d < 0x1_0000_0000);
    assert(d % 0x1_0000_0000 == 0 ==> d == 0) by (nonlinear_arith)
        requires
            -0x1_0000_0000 < d < 0x1_0000_0000,
    ;
}

proof fn lemma_wrap_add(x: i32, y: i32)
    ensures
        same_word(x.wrapping_add(y) as int, x + y),
        same_word(x.wrapping_sub(y) as int, x - y),
        same_word(x.wrapping_mul(y) as int, x * y),
{
    let p = x as int * y as int;
    let m = p % 0x1_0000_0000;
    assert(0 <= m < 0x1_0000_0000);
    assert((m - p) % 0x1_0000_0000 == 0) by (nonlinear_arith)
        requires
            m == p % 0x1_0000_0000,
    ;
    assert(((m - 0x1_0000_0000) - p) % 0x1_0000_0000 == 0) by (nonlinear_arith)
        requires
            (m - p) % 0x1_0000_0000 == 0,
    ;
}

/// The register an operand names.
pub open spec fn named(m: MachineModel, i: int) -> int {
    m.registers[operand_value(current(m).operands[i])] as int
}

/// What a completed step of an arithmetic, logic or load instruction writes
/// into its destination register (operand 0), as 32-bit words:
/// `ADD`/`SUB`/`MULT` the sum, difference or product of the two source
/// registers, `ADDI`/`SUBI` the source register plus or minus the signed
/// immediate, `NOT` the complement `-a - 1`, `LI` the immediate, `LD` the
/// memory word at the address in the source register. Every other register
/// keeps its value, and memory is unchanged.
pub proof fn lemma_register_results(m: MachineModel)
    requires
        m.pc < m.program.len(),
        m.registers.len() == 32,
        executable(current(m)),
        step(m) is Ok,
        i32::MIN <= operand_value(current(m).operands.last()) <= i32::MAX,
        (current(m).opcode == Opcode::ADD || current(m).opcode == Opcode::SUB || current(m).opcode == Opcode::MULT
            || current(m).opcode == Opcode::ADDI || current(m).opcode == Opcode::SUBI || current(m).opcode
            == Opcode::NOT || current(m).opcode == Opcode::LI || current(m).opcode == Opcode::LD || current(
            m,
        ).opcode == Opcode::AND || current(m).opcode == Opcode::OR),
    ensures
        ({
            let ins = current(m);
            let d = operand_value(ins.operands[0]);
            let r = step(m)->Ok_0.registers[d] as int;
            let imm = operand_value(ins.operands.last());
            &&& ins.opcode == Opcode::ADD ==> same_word(r, named(m, 1) + named(m, 2))
            &&& ins.opcode == Opcode::SUB ==> same_word(r, named(m, 1) - named(m, 2))
            &&& ins.opcode == Opcode::MULT ==> same_word(r, named(m, 1) * named(m, 2))
            &&& ins.opcode == Opcode::ADDI ==> same_word(r, named(m, 1) + imm)
            &&& ins.opcode == Opcode::SUBI ==> same_word(r, named(m, 1) - imm)
            &&& ins.opcode == Opcode::NOT ==> r == -named(m, 1) - 1
            &&& ins.opcode == Opcode::LI ==> r == imm
            &&& ins.opcode == Opcode::LD ==> 0 <= named(m, 1) < m.memory.len() && r == m.memory[named(m, 1)]
            &&& step(m)->Ok_0.registers.len() == 32
            &&& forall|k: int| 0 <= k < 32 && k != d ==> step(m)->Ok_0.registers[k] == m.registers[k]
            &&& step(m)->Ok_0.memory == m.memory
        }),
{
    let ins = current(m);
    let a = m.registers[operand_value(ins.operands[1])];
    if ins.opcode == Opcode::ADD || ins.opcode == Opcode::SUB || ins.opcode == Opcode::MULT {
        lemma_wrap_add(a, m.registers[operand_value(ins.operands[2])]);
    }
    if ins.opcode == Opcode::ADDI || ins.opcode == Opcode::SUBI {
        let imm = operand_value(ins.operands[2]);
        assert((imm as i32) as int == imm);
        lemma_wrap_add(a, imm as i32);
    }
    if ins.opcode == Opcode::NOT {
        assert(!a == -a - 1) by (bit_vector);
    }
    if ins.opcode == Opcode::LI {
        let imm = operand_value(ins.operands[1]);
        assert((imm as i32) as int == imm);
    }
}

/// `AND` and `OR` act bit by bit: bit `k` of the result is set exactly
/// when bit `k` is set in both source registers (`AND`) or in either (`OR`).
pub proof fn lemma_bitwise_results(m: MachineModel, k: u32)
    requires
        m.pc < m.program.len(),
        m.registers.len() == 32,
        executable(current(m)),
        step(m) is Ok,
        current(m).opcode == Opcode::AND || current(m).opcode == Opcode::OR,
        k < 32,
    ensures
        ({
            let ins = current(m);
            let r = step(m)->Ok_0.registers[operand_value(ins.operands[0])];
            let a = m.registers[operand_value(ins.operands[1])];
            let b = m.registers[operand_value(ins.operands[2])];
            &&& ins.opcode == Opcode::AND ==> ((r >> k) & 1 == 1 <==> ((a >> k) & 1 == 1 && (b >> k) & 1 == 1))
            &&& ins.opcode == Opcode::OR ==> ((r >> k) & 1 == 1 <==> ((a >> k) & 1 == 1 || (b >> k) & 1 == 1))
        }),
{
    let ins = current(m);
    let a = m.registers[operand_value(ins.operands[1])];
    let b = m.registers[operand_value(ins.operands[2])];
    assert(k < 32 ==> ((((a & b) >> k) & 1 == 1) <==> ((a >> k) & 1 == 1 && (b >> k) & 1 == 1))) by (bit_vector);
    assert(k < 32 ==> ((((a | b) >> k) & 1 == 1) <==> ((a >> k) & 1 == 1 || (b >> k) & 1 == 1))) by (bit_vector);
}

/// A completed `SD` writes the word of its first register at the address in
/// its second and leaves every register and every other memory word as it
/// was.
pub proof fn lemma_store_result(m: MachineModel)
    requires
        m.pc < m.program.len(),
        executable(current(m)),
        step(m) is Ok,
        current(m).opcode == Opcode::SD,
    ensures
        ({
            let a = named(m, 1);
            let m2 = step(m)->Ok_0;
            &&& 0 <= a < m.memory.len()
            &&& m2.memory.len() == m.memory.len()
            &&& m2.memory[a] == named(m, 0)
            &&& forall|i: int| 0 <= i < m.memory.len() && i != a ==> m2.memory[i] == m.memory[i]
            &&& m2.registers == m.registers
        }),
{
}

} // verus!
