//! Core instruction-set types: opcodes, instruction formats and operands.

use vstd::prelude::*;

verus! {

/// The sixteen operations of the instruction set; each has a 4-bit code.
#[derive(Clone, Copy, Debug, PartialEq, Eq, Structural)]
pub enum Opcode {
    NOP,
    ADD,
    SUB,
    MULT,
    ADDI,
    SUBI,
    OR,
    NOT,
    AND,
    LI,
    LD,
    SD,
    JR,
    JEQ,
    JLT,
    END,
}

/// Instruction formats: they depend on the opcode and say how the 32-bit
/// word is split into fields.
#[derive(Debug, Clone, Copy, PartialEq, Eq, Structural)]
#[allow(clippy::upper_case_acronyms)]
pub enum InstrFormat {
    /// opcode + reg + reg
    R2,
    /// opcode + reg + reg + reg
    R3,
    /// opcode + reg + imm
    RI,
    /// opcode + reg + reg + imm
    RRI,
    /// opcode + imm
    I,
    /// opcode only
    NoOP,
}

/// An operand of a resolved instruction.
#[derive(Debug, Clone, Copy, PartialEq, Eq, Structural)]
pub enum Operand {
    /// A register number (0..31 for encodable instructions).
    Register(u8),
    /// An immediate value that must fit the instruction's immediate field.
    Immediate(isize),
}

/// A decoded (or fully resolved) instruction.
#[derive(Debug, Clone, PartialEq, Eq)]
pub struct ResolvedInstruction {
    pub opcode: Opcode,
    pub operands: Vec<Operand>,
}

/// The mathematical content of a resolved instruction.
#[verifier::ext_equal]
pub struct InstrModel {
    pub opcode: Opcode,
    pub operands: Seq<Operand>,
}

impl View for ResolvedInstruction {
    type V = InstrModel;

    open spec fn view(&self) -> InstrModel {
        InstrModel { opcode: self.opcode, operands: self.operands@ }
    }
}

/// Number of fields (opcode included) of a format.
pub open spec fn format_size(f: InstrFormat) -> nat {
    match f {
        InstrFormat::R2 => 3,
        InstrFormat::R3 => 4,
        InstrFormat::RI => 3,
        InstrFormat::RRI => 4,
        InstrFormat::I => 2,
        InstrFormat::NoOP => 1,
    }
}

impl InstrFormat {
    /// Number of fields of the format, the opcode field included.
    pub fn size(&self) -> (r: usize)
        ensures
            r == format_size(*self),
    {
        match self {
            InstrFormat::R2 => 3,
            InstrFormat::R3 => 4,
            InstrFormat::RI => 3,
            InstrFormat::RRI => 4,
            InstrFormat::I => 2,
            InstrFormat::NoOP => 1,
        }
    }
}

/// The integer an operand carries.
pub open spec fn operand_value(op: Operand) -> int {
    match op {
        Operand::Register(n) => n as int,
        Operand::Immediate(n) => n as int,
    }
}

impl Operand {
    /// The register number or the immediate value.
    pub fn get_val(self) -> (r: isize)
        ensures
            r as int == operand_value(self),
    {
        match self {
            Operand::Register(n) => n as isize,
            Operand::Immediate(n) => n,
        }
    }
}

/// The 4-bit code of an opcode.
pub open spec fn opcode_code(op: Opcode) -> u8 {
    match op {
        Opcode::NOP => 0,
        Opcode::ADD => 1,
        Opcode::SUB => 2,
        Opcode::MULT => 3,
        Opcode::ADDI => 4,
        Opcode::SUBI => 5,
        Opcode::OR => 6,
        Opcode::NOT => 7,
        Opcode::AND => 8,
        Opcode::LI => 9,
        Opcode::LD => 10,
        Opcode::SD => 11,
        Opcode::JR => 12,
        Opcode::JEQ => 13,
        Opcode::JLT => 14,
        Opcode::END => 15,
    }
}

/// The opcode with a given code, if any.
pub open spec fn opcode_of_code(code: u8) -> Option<Opcode> {
    if code == 0 {
        Some(Opcode::NOP)
    } else if code == 1 {
        Some(Opcode::ADD)
    } else if code == 2 {
        Some(Opcode::SUB)
    } else if code == 3 {
        Some(Opcode::MULT)
    } else if code == 4 {
        Some(Opcode::ADDI)
    } else if code == 5 {
        Some(Opcode::SUBI)
    } else if code == 6 {
        Some(Opcode::OR)
    } else if code == 7 {
        Some(Opcode::NOT)
    } else if code == 8 {
        Some(Opcode::AND)
    } else if code == 9 {
        Some(Opcode::LI)
    } else if code == 10 {
        Some(Opcode::LD)
    } else if code == 11 {
        Some(Opcode::SD)
    } else if code == 12 {
        Some(Opcode::JR)
    } else if code == 13 {
        Some(Opcode::JEQ)
    } else if code == 14 {
        Some(Opcode::JLT)
    } else if code == 15 {
        Some(Opcode::END)
    } else {
        None
    }
}

/// The assembly mnemonic of an opcode.
pub open spec fn opcode_name(op: Opcode) -> Seq<char> {
    match op {
        Opcode::ADD => "ADD"@,
        Opcode::SUB => "SUB"@,
        Opcode::MULT => "MULT"@,
        Opcode::ADDI => "ADDI"@,
        Opcode::SUBI => "SUBI"@,
        Opcode::OR => "OR"@,
        Opcode::AND => "AND"@,
        Opcode::NOT => "NOT"@,
        Opcode::LI => "LI"@,
        Opcode::LD => "LD"@,
        Opcode::SD => "SD"@,
        Opcode::JR => "JR"@,
        Opcode::JEQ => "JEQ"@,
        Opcode::JLT => "JLT"@,
        Opcode::NOP => "NOP"@,
        Opcode::END => "END"@,
    }
}

/// For the operand at `index`, whether it is an immediate and, if so,
/// whether it is signed: `Some(true)` signed, `Some(false)` unsigned,
/// `None` when the operand is no immediate.
pub open spec fn immediate_sign(op: Opcode, index: int) -> Option<bool> {
    match op {
        Opcode::ADDI | Opcode::SUBI => if index == 2 { Some(true) } else { None },
        Opcode::LI => if index == 1 { Some(true) } else { None },
        Opcode::JR => if index == 0 { Some(false) } else { None },
        Opcode::JEQ | Opcode::JLT => if index == 2 { Some(false) } else { None },
        _ => None,
    }
}

/// The format in which an opcode's instructions are encoded.
pub open spec fn opcode_format(op: Opcode) -> InstrFormat {
    match op {
        Opcode::ADD | Opcode::SUB | Opcode::MULT | Opcode::OR | Opcode::AND => InstrFormat::R3,
        Opcode::NOT | Opcode::LD | Opcode::SD => InstrFormat::R2,
        Opcode::LI => InstrFormat::RI,
        Opcode::ADDI | Opcode::SUBI | Opcode::JEQ | Opcode::JLT => InstrFormat::RRI,
        Opcode::JR => InstrFormat::I,
        Opcode::NOP | Opcode::END => InstrFormat::NoOP,
    }
}

impl Opcode {
    /// The 4-bit code of the opcode.
    pub fn code(self) -> (r: u8)
        ensures
            r == opcode_code(self),
            r < 16,
    {
        match self {
            Opcode::NOP => 0,
            Opcode::ADD => 1,
            Opcode::SUB => 2,
            Opcode::MULT => 3,
            Opcode::ADDI => 4,
            Opcode::SUBI => 5,
            Opcode::OR => 6,
            Opcode::NOT => 7,
            Opcode::AND => 8,
            Opcode::LI => 9,
            Opcode::LD => 10,
            Opcode::SD => 11,
            Opcode::JR => 12,
            Opcode::JEQ => 13,
            Opcode::JLT => 14,
            Opcode::END => 15,
        }
    }

    /// The opcode whose code is `code`; `None` for codes of 16 and above.
    pub fn from_code(code: u8) -> (r: Option<Self>)
        ensures
            r == opcode_of_code(code),
    {
        match code {
            0 => Some(Opcode::NOP),
            1 => Some(Opcode::ADD),
            2 => Some(Opcode::SUB),
            3 => Some(Opcode::MULT),
            4 => Some(Opcode::ADDI),
            5 => Some(Opcode::SUBI),
            6 => Some(Opcode::OR),
            7 => Some(Opcode::NOT),
            8 => Some(Opcode::AND),
            9 => Some(Opcode::LI),
            10 => Some(Opcode::LD),
            11 => Some(Opcode::SD),
            12 => Some(Opcode::JR),
            13 => Some(Opcode::JEQ),
            14 => Some(Opcode::JLT),
            15 => Some(Opcode::END),
            _ => None,
        }
    }

    /// The assembly mnemonic of the opcode.
    pub fn to_string(self) -> (r: &'static str)
        ensures
            r@ == opcode_name(self),
    {
        match self {
            Opcode::ADD => "ADD",
            Opcode::SUB => "SUB",
            Opcode::MULT => "MULT",
            Opcode::ADDI => "ADDI",
            Opcode::SUBI => "SUBI",
            Opcode::OR => "OR",
            Opcode::AND => "AND",
            Opcode::NOT => "NOT",
            Opcode::LI => "LI",
            Opcode::LD => "LD",
            Opcode::SD => "SD",
            Opcode::JR => "JR",
            Opcode::JEQ => "JEQ",
            Opcode::JLT => "JLT",
            Opcode::NOP => "NOP",
            Opcode::END => "END",
        }
    }

    /// Signedness of the immediate at `operand_index`, `None` when that
    /// operand is no immediate.
    pub fn immediate_signedness(self, operand_index: usize) -> (r: Option<bool>)
        ensures
            r == immediate_sign(self, operand_index as int),
    {
        match self {
            Opcode::ADDI | Opcode::SUBI => {
                if operand_index == 2 {
                    Some(true)
                } else {
                    None
                }
            },
            Opcode::LI => {
                if operand_index == 1 {
                    Some(true)
                } else {
                    None
                }
            },
            Opcode::JR => {
                if operand_index == 0 {
                    Some(false)
                } else {
                    None
                }
            },
            Opcode::JEQ => {
                if operand_index == 2 {
                    Some(false)
                } else {
                    None
                }
            },
            Opcode::JLT => {
                if operand_index == 2 {
                    Some(false)
                } else {
                    None
                }
            },
            Opcode::ADD | Opcode::SUB | Opcode::MULT | Opcode::OR | Opcode::AND | Opcode::NOT
            | Opcode::LD | Opcode::SD | Opcode::NOP | Opcode::END => None,
        }
    }

    /// The format of the opcode's instructions.
    pub fn instruction_format(self) -> (r: InstrFormat)
        ensures
            r == opcode_format(self),
    {
        match self {
            Opcode::ADD | Opcode::SUB | Opcode::MULT | Opcode::OR | Opcode::AND => InstrFormat::R3,
            Opcode::NOT => InstrFormat::R2,
            Opcode::LI => InstrFormat::RI,
            Opcode::ADDI | Opcode::SUBI => InstrFormat::RRI,
            Opcode::LD | Opcode::SD => InstrFormat::R2,
            Opcode::JR => InstrFormat::I,
            Opcode::JLT => InstrFormat::RRI,
            Opcode::JEQ => InstrFormat::RRI,
            Opcode::NOP | Opcode::END => InstrFormat::NoOP,
        }
    }
}

/// Every opcode has a code below 16 and is recovered from its code; every code
/// below 16 names an opcode whose code it is.
pub proof fn lemma_opcode_code_roundtrip(op: Opcode, code: u8)
    ensures
        opcode_code(op) < 16,
        opcode_of_code(opcode_code(op)) == Some(op),
        opcode_of_code(code) is Some <==> code < 16,
        opcode_of_code(code) matches Some(o) ==> opcode_code(o) == code,
{
}

} // verus!
