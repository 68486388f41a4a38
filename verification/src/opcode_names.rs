//! Assembly mnemonics of the opcodes.

use vstd::prelude::*;
use crate::text::{chars_eq_str, str_to_chars};
use crate::types::{opcode_name, Opcode};

verus! {

/// The opcode whose mnemonic is `s`, if any (mnemonics are upper case).
pub open spec fn opcode_named(s: Seq<char>) -> Option<Opcode> {
    if s == "ADD"@ {
        Some(Opcode::ADD)
    } else if s == "SUB"@ {
        Some(Opcode::SUB)
    } else if s == "MULT"@ {
        Some(Opcode::MULT)
    } else if s == "ADDI"@ {
        Some(Opcode::ADDI)
    } else if s == "SUBI"@ {
        Some(Opcode::SUBI)
    } else if s == "OR"@ {
        Some(Opcode::OR)
    } else if s == "AND"@ {
        Some(Opcode::AND)
    } else if s == "NOT"@ {
        Some(Opcode::NOT)
    } else if s == "LI"@ {
        Some(Opcode::LI)
    } else if s == "LD"@ {
        Some(Opcode::LD)
    } else if s == "SD"@ {
        Some(Opcode::SD)
    } else if s == "JR"@ {
        Some(Opcode::JR)
    } else if s == "JEQ"@ {
        Some(Opcode::JEQ)
    } else if s == "JLT"@ {
        Some(Opcode::JLT)
    } else if s == "NOP"@ {
        Some(Opcode::NOP)
    } else if s == "END"@ {
        Some(Opcode::END)
    } else {
        None
    }
}

/// The opcode whose mnemonic the characters spell, if any.
pub fn opcode_from_chars(s: &Vec<char>) -> (r: Option<Opcode>)
    ensures
        r == opcode_named(s@),
{
    if chars_eq_str(s, "ADD") {
        Some(Opcode::ADD)
    } else if chars_eq_str(s, "SUB") {
        Some(Opcode::SUB)
    } else if chars_eq_str(s, "MULT") {
        Some(Opcode::MULT)
    } else if chars_eq_str(s, "ADDI") {
        Some(Opcode::ADDI)
    } else if chars_eq_str(s, "SUBI") {
        Some(Opcode::SUBI)
    } else if chars_eq_str(s, "OR") {
        Some(Opcode::OR)
    } else if chars_eq_str(s, "AND") {
        Some(Opcode::AND)
    } else if chars_eq_str(s, "NOT") {
        Some(Opcode::NOT)
    } else if chars_eq_str(s, "LI") {
        Some(Opcode::LI)
    } else if chars_eq_str(s, "LD") {
        Some(Opcode::LD)
    } else if chars_eq_str(s, "SD") {
        Some(Opcode::SD)
    } else if chars_eq_str(s, "JR") {
        Some(Opcode::JR)
    } else if chars_eq_str(s, "JEQ") {
        Some(Opcode::JEQ)
    } else if chars_eq_str(s, "JLT") {
        Some(Opcode::JLT)
    } else if chars_eq_str(s, "NOP") {
        Some(Opcode::NOP)
    } else if chars_eq_str(s, "END") {
        Some(Opcode::END)
    } else {
        None
    }
}

impl Opcode {
    /// The opcode whose mnemonic is `s`, if any.
    pub fn from_name(s: &str) -> (r: Option<Opcode>)
        ensures
            r == opcode_named(s@),
    {
        let chars = str_to_chars(s);
        opcode_from_chars(&chars)
    }
}

impl std::str::FromStr for Opcode {
    type Err = ();

    fn from_str(s: &str) -> (r: Result<Self, Self::Err>)
        ensures
            r == (match opcode_named(s@) {
                Some(op) => Ok::<Opcode, ()>(op),
                None => Err(()),
            }),
    {
        match Opcode::from_name(s) {
            Some(op) => Ok(op),
            None => Err(()),
        }
    }
}

/// Each opcode is named by its mnemonic and by nothing else.
pub proof fn lemma_opcode_named_roundtrip(op: Opcode, s: Seq<char>)
    ensures
        opcode_named(opcode_name(op)) == Some(op),
        opcode_named(s) matches Some(o) ==> opcode_name(o) == s,
{
    reveal_strlit("ADD");
    reveal_strlit("SUB");
    reveal_strlit("MULT");
    reveal_strlit("ADDI");
    reveal_strlit("SUBI");
    reveal_strlit("OR");
    reveal_strlit("AND");
    reveal_strlit("NOT");
    reveal_strlit("LI");
    reveal_strlit("LD");
    reveal_strlit("SD");
    reveal_strlit("JR");
    reveal_strlit("JEQ");
    reveal_strlit("JLT");
    reveal_strlit("NOP");
    reveal_strlit("END");
    assert("ADD"@ =~= seq!['A', 'D', 'D']);
    assert("SUB"@ =~= seq!['S', 'U', 'B']);
    assert("MULT"@ =~= seq!['M', 'U', 'L', 'T']);
    assert("ADDI"@ =~= seq!['A', 'D', 'D', 'I']);
    assert("SUBI"@ =~= seq!['S', 'U', 'B', 'I']);
    assert("OR"@ =~= seq!['O', 'R']);
    assert("AND"@ =~= seq!['A', 'N', 'D']);
    assert("NOT"@ =~= seq!['N', 'O', 'T']);
    assert("LI"@ =~= seq!['L', 'I']);
    assert("LD"@ =~= seq!['L', 'D']);
    assert("SD"@ =~= seq!['S', 'D']);
    assert("JR"@ =~= seq!['J', 'R']);
    assert("JEQ"@ =~= seq!['J', 'E', 'Q']);
    assert("JLT"@ =~= seq!['J', 'L', 'T']);
    assert("NOP"@ =~= seq!['N', 'O', 'P']);
    assert("END"@ =~= seq!['E', 'N', 'D']);
}

} // verus!
