//! Whole-program encoding and decoding.

use vstd::prelude::*;
use crate::codec::{conforms, lemma_decode_encode, spec_decode, spec_encode, EncodeError};
use crate::traits::{Decodable, Encodable};
use crate::types::{InstrModel, ResolvedInstruction};

verus! {

/// Encodes each instruction in order; the first instruction that cannot be
/// encoded decides the error.
pub fn encode_program(program: &[ResolvedInstruction]) -> (r: Result<Vec<u32>, EncodeError>)
    ensures
        match r {
            Ok(words) => {
                &&& words@.len() == program@.len()
                &&& forall|i: int|
                    0 <= i < program@.len() ==> spec_encode(#[trigger] program@[i]@) == Ok::<
                        u32,
                        EncodeError,
                    >(words@[i])
            },
            Err(e) => exists|i: int|
                0 <= i < program@.len() && spec_encode(#[trigger] program@[i]@) == Err::<u32, EncodeError>(e)
                    && forall|j: int| 0 <= j < i ==> (#[trigger] spec_encode(program@[j]@)) is Ok,
        },
{
    let mut words: Vec<u32> = Vec::new();
    let mut i: usize = 0;
    while i < program.len()
        invariant
            i <= program@.len(),
            words@.len() == i,
            forall|j: int| 0 <= j < i ==> spec_encode(#[trigger] program@[j]@) == Ok::<u32, EncodeError>(words@[j]),
        decreases program@.len() - i,
    {
        match program[i].encode() {
            Ok(w) => {
                words.push(w);
            },
            Err(e) => {
                return Err(e);
            },
        }
        i = i + 1;
    }
    Ok(words)
}

/// Decodes each word in order; every word decodes.
pub fn decode_program(program: &[u32]) -> (r: Result<Vec<ResolvedInstruction>, EncodeError>)
    ensures
        r matches Ok(instrs) && instrs@.len() == program@.len() && forall|i: int|
            0 <= i < program@.len() ==> (#[trigger] instrs@[i])@ == spec_decode(program@[i]),
{
    let mut instrs: Vec<ResolvedInstruction> = Vec::new();
    let mut i: usize = 0;
    while i < program.len()
        invariant
            i <= program@.len(),
            instrs@.len() == i,
            forall|j: int| 0 <= j < i ==> (#[trigger] instrs@[j])@ == spec_decode(program@[j]),
        decreases program@.len() - i,
    {
        match program[i].decode() {
            Ok(instr) => {
                instrs.push(instr);
            },
            Err(e) => {
                return Err(e);
            },
        }
        i = i + 1;
    }
    Ok(instrs)
}

/// A program whose instructions all conform encodes without error, and
/// decoding its words gives the program back.
pub proof fn lemma_program_roundtrip(program: Seq<InstrModel>)
    requires
        forall|i: int| 0 <= i < program.len() ==> conforms(#[trigger] program[i]),
    ensures
        forall|i: int|
            0 <= i < program.len() ==> ((#[trigger] spec_encode(program[i])) matches Ok(w) && spec_decode(w)
                == program[i]),
{
    assert forall|i: int| 0 <= i < program.len() implies ((#[trigger] spec_encode(program[i])) matches Ok(w)
        && spec_decode(w) == program[i]) by {
        lemma_decode_encode(program[i]);
    }
}

} // verus!
