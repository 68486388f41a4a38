//! Toolchain library for a small 32-bit instruction set: bit-field helpers,
//! instruction encoding and decoding, an assembler (lexer and parser) and a
//! register/memory virtual machine.

use vstd::prelude::*;

pub mod bits;
pub mod consts;
pub mod types;
pub mod format_spec;
pub mod traits;
pub mod codec;
pub mod encoder;
pub mod layout;
pub mod text;
pub mod opcode_names;
pub mod lexer;
pub mod errors;
pub mod isa;
pub mod parser;
pub mod memory;
pub mod vm;
pub mod executor;
pub mod output;
pub mod assembler;
pub mod semantics;
