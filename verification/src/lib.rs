//! A toolchain and runtime for a small stack-oriented language: a compiler
//! from Forth-like source text to compact bytecode, a linear static verifier
//! for stack shape and operand types, and a stack virtual machine with a
//! mark-style string pool, together with the container format of the next
//! bytecode generation (LEB128 codec and sectioned binaries).

use vstd::prelude::*;

pub mod bytecode;
pub mod checker;
pub mod compiler;
pub mod comptime;
pub mod endian;
pub mod error;
pub mod format;
pub mod leb128;
pub mod parser;
pub mod path;
pub mod runtime;
pub mod soundness;
pub mod source;
pub mod state;
pub mod syntax;
pub mod text;
pub mod util;

verus! {

/// Driver options threaded through compilation and execution.
pub struct Flags {
    /// Whether bytecode verification is enabled; the type-stack escape
    /// hatches are only usable when it is not.
    pub verify: bool,
    /// Initial capacity hint for the input line buffer.
    pub prealloc: usize,
}

} // verus!
