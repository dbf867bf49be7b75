//! Opcode table and the abstract value types shared by the compiler, the
//! bytecode verifier and the virtual machine.
//!
//! Opcodes are 16-bit values, stored little-endian in the code stream. The
//! high nibble selects the family (memory/control, system, arithmetic,
//! comparison) and the second byte is a type suffix: 0x01 integer, 0x02
//! float, 0x03 string.

use vstd::prelude::*;

verus! {

pub const TYPE_I64: u8 = 0x1;

pub const TYPE_F64: u8 = 0x2;

pub const TYPE_STR: u8 = 0x3;

// Memory and control operations
/// Drop top of the stack
pub const INSN_DROP: u16 = 0x0000;

/// Load constant
pub const INSN_LOAD: u16 = 0x0001;

/// Swap top two elements on the stack
pub const INSN_SWAP: u16 = 0x0002;

/// Duplicate top element on the stack
pub const INSN_DUP: u16 = 0x0003;

/// Jump to address on top of the stack
pub const INSN_J: u16 = 0x0004;

/// Jump to address on top of the stack if the second element is non-zero
pub const INSN_JNZ: u16 = 0x0005;

/// Jump to address on top of the stack if the second element is zero
pub const INSN_JZ: u16 = 0x0006;

/// Rotate the top three elements
pub const INSN_TROT: u16 = 0x0007;

/// Duplicate the second element onto the top
pub const INSN_DDUP: u16 = 0x000A;

/// Duplicate the third element onto the top
pub const INSN_TDUP: u16 = 0x000B;

/// Call the address on top of the stack (reserved; not executed by the VM)
pub const INSN_CALL: u16 = 0x000C;

/// Push an immediate i64 onto the stack
pub const INSN_PUSH_I64: u16 = 0x0108;

/// Push an immediate f64 (by bit pattern) onto the stack
pub const INSN_PUSH_F64: u16 = 0x0208;

/// Convert f64 to i64, truncating toward zero
pub const INSN_NUMCONV_I64: u16 = 0x0109;

/// Convert i64 to f64
pub const INSN_NUMCONV_F64: u16 = 0x0209;

// System operations
/// Abort the virtual machine
pub const INSN_ABORT: u16 = 0x1000;

/// Exit the virtual machine with the code on top of the stack
pub const INSN_EXIT: u16 = 0x1001;

/// Panic the virtual machine with the message on top of the stack
pub const INSN_PANIC: u16 = 0x1002;

/// Print a newline to standard output
pub const INSN_PRINTLN: u16 = 0x1003;

/// Read a line from standard input
pub const INSN_INPUT: u16 = 0x1004;

/// Reclaim unused strings in the string pool
pub const INSN_GC: u16 = 0x1005;

/// Print an integer to standard output
pub const INSN_PRINT_I64: u16 = 0x1108;

/// Print a float to standard output
pub const INSN_PRINT_F64: u16 = 0x1208;

/// Print a string to standard output
pub const INSN_PRINT_STR: u16 = 0x1308;

// Arithmetic operations
pub const INSN_ADD_I64: u16 = 0x2100;

pub const INSN_SUB_I64: u16 = 0x2101;

pub const INSN_MUL_I64: u16 = 0x2102;

pub const INSN_DIV_I64: u16 = 0x2103;

pub const INSN_ADD_F64: u16 = 0x2200;

pub const INSN_SUB_F64: u16 = 0x2201;

pub const INSN_MUL_F64: u16 = 0x2202;

pub const INSN_DIV_F64: u16 = 0x2203;

/// String concatenation; the result is left operand followed by right operand
pub const INSN_ADD_STR: u16 = 0x2300;

// Comparison operations; each pushes an integer in {0, 1}
pub const INSN_EQ_I64: u16 = 0x3100;

pub const INSN_LT_I64: u16 = 0x3101;

pub const INSN_GT_I64: u16 = 0x3102;

pub const INSN_LE_I64: u16 = 0x3103;

pub const INSN_GE_I64: u16 = 0x3104;

pub const INSN_EQ_F64: u16 = 0x3200;

pub const INSN_LT_F64: u16 = 0x3201;

pub const INSN_GT_F64: u16 = 0x3202;

pub const INSN_LE_F64: u16 = 0x3203;

pub const INSN_GE_F64: u16 = 0x3204;

pub const INSN_EQ_STR: u16 = 0x3300;

/// Abstract type of a stack cell, as tracked by the compiler's type-stack
/// and by the bytecode verifier.
#[derive(Clone, Copy, Debug, PartialEq, Eq, Structural)]
pub enum Type {
    Int,
    Float,
    String,
    CodeAddress,
}

impl Type {
    pub fn is_int(&self) -> (r: bool)
        ensures
            r == (*self == Type::Int),
    {
        *self == Type::Int
    }

    pub fn is_float(&self) -> (r: bool)
        ensures
            r == (*self == Type::Float),
    {
        *self == Type::Float
    }

    pub fn is_string(&self) -> (r: bool)
        ensures
            r == (*self == Type::String),
    {
        *self == Type::String
    }
}

} // verus!
