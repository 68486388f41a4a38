//! Constants shared by the assembler and the virtual machine.

use vstd::prelude::*;

verus! {

/// Number of general purpose registers; valid register numbers are below it.
pub const REGISTER_LIMIT: usize = 32;

} // verus!
