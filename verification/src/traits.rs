//! Conversions between instruction representations.

use vstd::prelude::*;
use crate::types::ResolvedInstruction;

verus! {

/// Turns an instruction form into a resolved instruction; `None` when it
/// still holds something unresolved.
pub trait ToResolvedInstr {
    fn to_resolved(&self) -> Option<ResolvedInstruction>;
}

/// Encoding into a 32-bit machine word.
pub trait Encodable {
    type EncodingError;

    fn encode(&self) -> Result<u32, Self::EncodingError>;
}

/// Decoding from a 32-bit machine word.
pub trait Decodable {
    type EncodingError;

    fn decode(&self) -> Result<ResolvedInstruction, Self::EncodingError>;
}

} // verus!
