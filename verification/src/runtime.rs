//! The virtual machine: a fetch-decode-execute interpreter over a flat,
//! bounded value stack, a read-only constant pool and a mark-style string
//! pool. Blocking work — writes, reads and float arithmetic — is handed to
//! the caller as an event; the caller performs it and resumes the machine
//! with the outcome.

use crate::compiler::{next_insn, InsnRead};
use crate::parser::Insn;
use vstd::prelude::*;

verus! {

/// One 64-bit value cell: an integer, a float (by bit pattern), or a
/// reference to a constant-pool or string-pool entry. The tag stands in
/// for the static type assignment that verification provides.
#[derive(Clone, Copy, Debug, PartialEq, Eq, Structural)]
pub enum Cell {
    Int(i64),
    Float(u64),
    Const(usize),
    Pool(usize),
}

/// A fatal machine fault; each halts the machine.
#[derive(Clone, Copy, Debug, PartialEq, Eq, Structural)]
pub enum VmFatal {
    /// An opcode outside the table.
    IllegalInstruction(u16),
    /// `LOAD` with an index outside the constant pool.
    InvalidConstant(i64),
    /// An instruction needed more cells than the stack holds.
    StackUnderflow,
    /// A push beyond the preallocated stack size.
    StackOverflow,
    /// A cell of the wrong kind where the opcode's operand type demands
    /// another; impossible on verified code.
    OperandKind,
    /// Integer division by zero.
    DivideByZero,
    /// Integer arithmetic outside the 64-bit range.
    IntegerOverflow,
    /// The code ends inside an opcode or an immediate.
    TruncatedCode,
}

/// The four float arithmetic operators.
#[derive(Clone, Copy, Debug, PartialEq, Eq, Structural)]
pub enum FloatOp {
    Add,
    Sub,
    Mul,
    Div,
}

/// The five float comparisons.
#[derive(Clone, Copy, Debug, PartialEq, Eq, Structural)]
pub enum FloatCmp {
    Eq,
    Lt,
    Gt,
    Le,
    Ge,
}

/// Float work the machine cannot do itself; the caller computes it and
/// resumes with the result. Operands are IEEE-754 binary64 bit patterns;
/// `left` is always the deeper stack cell, `right` the former top.
#[derive(Clone, Copy, Debug, PartialEq, Eq, Structural)]
pub enum FloatReq {
    Bin { op: FloatOp, left: u64, right: u64 },
    Cmp { op: FloatCmp, left: u64, right: u64 },
    ToInt { bits: u64 },
    FromInt { value: i64 },
}

/// What a step asks of the caller, or how the machine ended.
#[derive(Clone, Debug, PartialEq)]
pub enum StepEvent {
    /// Nothing; call `step` again.
    Continue,
    /// Write a single newline and flush.
    PrintLn,
    /// Write the decimal form of the integer and flush.
    PrintInt(i64),
    /// Write the textual form of the float with these bits and flush.
    PrintFloat(u64),
    /// Write the string and flush.
    PrintStr(String),
    /// Read one line and call `resume_line`.
    WantLine,
    /// Compute the float request and call the matching resume.
    WantFloat(FloatReq),
    /// Terminated with this exit code.
    Exit(i64),
    /// Aborted; the caller dumps state.
    Abort,
    /// Panicked with this message.
    Panic(String),
    /// Ran past the end of the code.
    Halt,
    /// A fatal fault.
    Fatal(VmFatal),
}

/// What the machine is waiting for between a `Want` event and its resume.
#[derive(Clone, Copy, Debug, PartialEq, Eq, Structural)]
pub enum Pending {
    Idle,
    AwaitLine,
    AwaitFloat,
    AwaitInt,
    AwaitBool,
}

/// The spec-level mirror of a `StepEvent`, with strings as character
/// sequences.
pub enum EventModel {
    Continue,
    PrintLn,
    PrintInt(i64),
    PrintFloat(u64),
    PrintStr(Seq<char>),
    WantLine,
    WantFloat(FloatReq),
    Exit(i64),
    Abort,
    Panic(Seq<char>),
    Halt,
    Fatal(VmFatal),
}

/// The spec view of a `StepEvent`.
pub open spec fn event_model(ev: StepEvent) -> EventModel {
    match ev {
        StepEvent::Continue => EventModel::Continue,
        StepEvent::PrintLn => EventModel::PrintLn,
        StepEvent::PrintInt(v) => EventModel::PrintInt(v),
        StepEvent::PrintFloat(b) => EventModel::PrintFloat(b),
        StepEvent::PrintStr(s) => EventModel::PrintStr(s@),
        StepEvent::WantLine => EventModel::WantLine,
        StepEvent::WantFloat(q) => EventModel::WantFloat(q),
        StepEvent::Exit(c) => EventModel::Exit(c),
        StepEvent::Abort => EventModel::Abort,
        StepEvent::Panic(s) => EventModel::Panic(s@),
        StepEvent::Halt => EventModel::Halt,
        StepEvent::Fatal(f) => EventModel::Fatal(f),
    }
}

/// The machine state.
pub struct Runtime {
    /// The value stack; its length never exceeds `stack_size`.
    pub stack: Vec<Cell>,
    /// Byte offset of the next instruction.
    pub pc: usize,
    /// The code region.
    pub code: Vec<u8>,
    /// The preallocated stack capacity, in cells.
    pub stack_size: usize,
    /// The read-only constant pool.
    pub constants: Vec<String>,
    /// The runtime string pool.
    pub string_pool: Vec<String>,
    /// One mark byte per pool slot; zero means free.
    pub string_pool_marks: Vec<u8>,
    /// What the machine waits for, if anything.
    pub pending: Pending,
    /// Whether a terminal state was reached.
    pub halted: bool,
}

/// The spec view of a whole machine.
#[verifier::ext_equal]
pub struct VmModel {
    pub stack: Seq<Cell>,
    pub pc: int,
    pub code: Seq<u8>,
    pub stack_size: int,
    pub constants: Seq<Seq<char>>,
    pub pool: Seq<Seq<char>>,
    pub marks: Seq<u8>,
    pub pending: Pending,
    pub halted: bool,
}

impl Runtime {
    /// The machine's spec view.
    pub open spec fn model(&self) -> VmModel {
        VmModel {
            stack: self.stack@,
            pc: self.pc as int,
            code: self.code@,
            stack_size: self.stack_size as int,
            constants: self.constants.deep_view(),
            pool: self.string_pool.deep_view(),
            marks: self.string_pool_marks@,
            pending: self.pending,
            halted: self.halted,
        }
    }

    /// Well-formedness: the stack respects its bound, marks parallel the
    /// pool, and every reference cell points into its pool.
    pub open spec fn wf(&self) -> bool {
        vm_wf(self.model())
    }
}

/// Well-formedness of a machine model.
pub open spec fn vm_wf(m: VmModel) -> bool {
    &&& m.stack.len() <= m.stack_size
    &&& m.pool.len() == m.marks.len()
    &&& 0 <= m.pc <= m.code.len()
    &&& forall|i: int| 0 <= i < m.stack.len() ==> cell_ok(#[trigger] m.stack[i], m)
}

/// A cell's references stay inside the pools.
pub open spec fn cell_ok(c: Cell, m: VmModel) -> bool {
    match c {
        Cell::Const(k) => k < m.constants.len(),
        Cell::Pool(k) => k < m.pool.len(),
        _ => true,
    }
}

/// The string a reference cell designates, if it is one and it is valid.
pub open spec fn resolve(m: VmModel, c: Cell) -> Option<Seq<char>> {
    match c {
        Cell::Const(k) => if k < m.constants.len() {
            Some(m.constants[k as int])
        } else {
            None
        },
        Cell::Pool(k) => if k < m.pool.len() {
            Some(m.pool[k as int])
        } else {
            None
        },
        _ => None,
    }
}

/// Halts the machine with a fault.
pub open spec fn vm_fatal(m: VmModel, f: VmFatal) -> (VmModel, EventModel) {
    (VmModel { halted: true, ..m }, EventModel::Fatal(f))
}

/// Whether some live stack cell references pool slot `s`.
pub open spec fn live(stack: Seq<Cell>, s: int) -> bool {
    exists|j: int| 0 <= j < stack.len() && stack[j] == Cell::Pool(s as usize)
}

/// The pool and marks after a collection: live slots keep their string and
/// are marked, every other slot is cleared and unmarked.
pub open spec fn spec_gc(stack: Seq<Cell>, pool: Seq<Seq<char>>, marks: Seq<u8>) -> (
    Seq<Seq<char>>,
    Seq<u8>,
) {
    (
        Seq::new(pool.len(), |i: int| if live(stack, i) {
            pool[i]
        } else {
            Seq::empty()
        }),
        Seq::new(marks.len(), |i: int| if live(stack, i) {
            1u8
        } else {
            0u8
        }),
    )
}

/// The first free pool slot (mark zero) at or after `i`, or the pool
/// length when every slot is taken.
pub open spec fn first_free_from(marks: Seq<u8>, i: int) -> int
    decreases marks.len() - i,
{
    if i < 0 || i >= marks.len() {
        marks.len() as int
    } else if marks[i] == 0 {
        i
    } else {
        first_free_from(marks, i + 1)
    }
}

/// Interning a fresh string: reuse the first free slot, leaving its mark,
/// or grow the pool with a marked slot. Yields pool, marks and the slot.
pub open spec fn spec_alloc(pool: Seq<Seq<char>>, marks: Seq<u8>, s: Seq<char>) -> (
    Seq<Seq<char>>,
    Seq<u8>,
    int,
) {
    let i = first_free_from(marks, 0);
    if i < marks.len() {
        (pool.update(i, s), marks, i)
    } else {
        (pool.push(s), marks.push(1), pool.len() as int)
    }
}

/// Executes one decoded instruction; `m.pc` is already past it.
pub open spec fn vm_exec(m: VmModel, insn: Insn) -> (VmModel, EventModel) {
    match insn {
        Insn::Drop => {
            if m.stack.len() < 1 {
                vm_fatal(m, VmFatal::StackUnderflow)
            } else {
                (VmModel { stack: m.stack.drop_last(), ..m }, EventModel::Continue)
            }
        },
        Insn::Load => {
            if m.stack.len() < 1 {
                vm_fatal(m, VmFatal::StackUnderflow)
            } else {
                match m.stack.last() {
                    Cell::Int(i) => {
                        if i < 0 || i >= m.constants.len() {
                            vm_fatal(m, VmFatal::InvalidConstant(i))
                        } else {
                            (
                                VmModel {
                                    stack: m.stack.drop_last().push(Cell::Const(i as usize)),
                                    ..m
                                },
                                EventModel::Continue,
                            )
                        }
                    },
                    _ => vm_fatal(m, VmFatal::OperandKind),
                }
            }
        },
        Insn::Swap => {
            if m.stack.len() < 2 {
                vm_fatal(m, VmFatal::StackUnderflow)
            } else {
                let x = m.stack[m.stack.len() - 1];
                let y = m.stack[m.stack.len() - 2];
                (
                    VmModel { stack: m.stack.drop_last().drop_last().push(x).push(y), ..m },
                    EventModel::Continue,
                )
            }
        },
        Insn::TriRot => {
            if m.stack.len() < 3 {
                vm_fatal(m, VmFatal::StackUnderflow)
            } else {
                let x = m.stack[m.stack.len() - 1];
                let y = m.stack[m.stack.len() - 2];
                let z = m.stack[m.stack.len() - 3];
                (
                    VmModel {
                        stack: m.stack.drop_last().drop_last().drop_last().push(y).push(x).push(
                            z,
                        ),
                        ..m
                    },
                    EventModel::Continue,
                )
            }
        },
        Insn::Dup => vm_dup(m, 1),
        Insn::DiDup => vm_dup(m, 2),
        Insn::TriDup => vm_dup(m, 3),
        Insn::Jump => {
            if m.stack.len() < 1 {
                vm_fatal(m, VmFatal::StackUnderflow)
            } else {
                match m.stack.last() {
                    Cell::Int(t) => (
                        VmModel { stack: m.stack.drop_last(), pc: jump_target(m, t), ..m },
                        EventModel::Continue,
                    ),
                    _ => vm_fatal(m, VmFatal::OperandKind),
                }
            }
        },
        Insn::JumpNotZero => vm_cond_jump(m, true),
        Insn::JumpZero => vm_cond_jump(m, false),
        Insn::Call => vm_fatal(m, VmFatal::IllegalInstruction(crate::bytecode::INSN_CALL)),
        Insn::PushInt(v) => vm_push(m, Cell::Int(v)),
        Insn::PushFloat(bits) => vm_push(m, Cell::Float(bits)),
        Insn::NumConvInt => {
            if m.stack.len() < 1 {
                vm_fatal(m, VmFatal::StackUnderflow)
            } else {
                match m.stack.last() {
                    Cell::Float(b) => (
                        VmModel { stack: m.stack.drop_last(), pending: Pending::AwaitInt, ..m },
                        EventModel::WantFloat(FloatReq::ToInt { bits: b }),
                    ),
                    _ => vm_fatal(m, VmFatal::OperandKind),
                }
            }
        },
        Insn::NumConvFloat => {
            if m.stack.len() < 1 {
                vm_fatal(m, VmFatal::StackUnderflow)
            } else {
                match m.stack.last() {
                    Cell::Int(v) => (
                        VmModel { stack: m.stack.drop_last(), pending: Pending::AwaitFloat, ..m },
                        EventModel::WantFloat(FloatReq::FromInt { value: v }),
                    ),
                    _ => vm_fatal(m, VmFatal::OperandKind),
                }
            }
        },
        Insn::Abort => (VmModel { halted: true, ..m }, EventModel::Abort),
        Insn::Exit => {
            if m.stack.len() < 1 {
                vm_fatal(m, VmFatal::StackUnderflow)
            } else {
                match m.stack.last() {
                    Cell::Int(c) => (
                        VmModel { stack: m.stack.drop_last(), halted: true, ..m },
                        EventModel::Exit(c),
                    ),
                    _ => vm_fatal(m, VmFatal::OperandKind),
                }
            }
        },
        Insn::Panic => {
            if m.stack.len() < 1 {
                vm_fatal(m, VmFatal::StackUnderflow)
            } else {
                match resolve(m, m.stack.last()) {
                    Some(s) => (
                        VmModel { stack: m.stack.drop_last(), halted: true, ..m },
                        EventModel::Panic(s),
                    ),
                    None => vm_fatal(m, VmFatal::OperandKind),
                }
            }
        },
        Insn::Println => (m, EventModel::PrintLn),
        Insn::Input => (
            VmModel { pending: Pending::AwaitLine, ..m },
            EventModel::WantLine,
        ),
        Insn::Gc => {
            let (pool2, marks2) = spec_gc(m.stack, m.pool, m.marks);
            (VmModel { pool: pool2, marks: marks2, ..m }, EventModel::Continue)
        },
        Insn::PrintInt => {
            if m.stack.len() < 1 {
                vm_fatal(m, VmFatal::StackUnderflow)
            } else {
                match m.stack.last() {
                    Cell::Int(v) => (
                        VmModel { stack: m.stack.drop_last(), ..m },
                        EventModel::PrintInt(v),
                    ),
                    _ => vm_fatal(m, VmFatal::OperandKind),
                }
            }
        },
        Insn::PrintFloat => {
            if m.stack.len() < 1 {
                vm_fatal(m, VmFatal::StackUnderflow)
            } else {
                match m.stack.last() {
                    Cell::Float(b) => (
                        VmModel { stack: m.stack.drop_last(), ..m },
                        EventModel::PrintFloat(b),
                    ),
                    _ => vm_fatal(m, VmFatal::OperandKind),
                }
            }
        },
        Insn::PrintString => {
            if m.stack.len() < 1 {
                vm_fatal(m, VmFatal::StackUnderflow)
            } else {
                match resolve(m, m.stack.last()) {
                    Some(s) => (
                        VmModel { stack: m.stack.drop_last(), ..m },
                        EventModel::PrintStr(s),
                    ),
                    None => vm_fatal(m, VmFatal::OperandKind),
                }
            }
        },
        Insn::AddInt => vm_int_arith(m, Insn::AddInt),
        Insn::SubInt => vm_int_arith(m, Insn::SubInt),
        Insn::MulInt => vm_int_arith(m, Insn::MulInt),
        Insn::DivInt => vm_int_arith(m, Insn::DivInt),
        Insn::AddFloat => vm_float_bin(m, FloatOp::Add),
        Insn::SubFloat => vm_float_bin(m, FloatOp::Sub),
        Insn::MulFloat => vm_float_bin(m, FloatOp::Mul),
        Insn::DivFloat => vm_float_bin(m, FloatOp::Div),
        Insn::AddString => {
            if m.stack.len() < 2 {
                vm_fatal(m, VmFatal::StackUnderflow)
            } else {
                let cx = m.stack[m.stack.len() - 1];
                let cy = m.stack[m.stack.len() - 2];
                match (resolve(m, cy), resolve(m, cx)) {
                    (Some(sy), Some(sx)) => {
                        let (pool2, marks2, slot) = spec_alloc(m.pool, m.marks, sy + sx);
                        (
                            VmModel {
                                stack: m.stack.drop_last().drop_last().push(
                                    Cell::Pool(slot as usize),
                                ),
                                pool: pool2,
                                marks: marks2,
                                ..m
                            },
                            EventModel::Continue,
                        )
                    },
                    _ => vm_fatal(m, VmFatal::OperandKind),
                }
            }
        },
        Insn::EqInt => vm_int_cmp(m, Insn::EqInt),
        Insn::LtInt => vm_int_cmp(m, Insn::LtInt),
        Insn::GtInt => vm_int_cmp(m, Insn::GtInt),
        Insn::LeInt => vm_int_cmp(m, Insn::LeInt),
        Insn::GeInt => vm_int_cmp(m, Insn::GeInt),
        Insn::EqFloat => vm_float_cmp(m, FloatCmp::Eq),
        Insn::LtFloat => vm_float_cmp(m, FloatCmp::Lt),
        Insn::GtFloat => vm_float_cmp(m, FloatCmp::Gt),
        Insn::LeFloat => vm_float_cmp(m, FloatCmp::Le),
        Insn::GeFloat => vm_float_cmp(m, FloatCmp::Ge),
        Insn::EqString => {
            if m.stack.len() < 2 {
                vm_fatal(m, VmFatal::StackUnderflow)
            } else {
                let cx = m.stack[m.stack.len() - 1];
                let cy = m.stack[m.stack.len() - 2];
                match (resolve(m, cy), resolve(m, cx)) {
                    (Some(sy), Some(sx)) => (
                        VmModel {
                            stack: m.stack.drop_last().drop_last().push(
                                Cell::Int(
                                    if sx == sy {
                                        1
                                    } else {
                                        0
                                    },
                                ),
                            ),
                            ..m
                        },
                        EventModel::Continue,
                    ),
                    _ => vm_fatal(m, VmFatal::OperandKind),
                }
            }
        },
    }
}

/// Duplicates the cell `depth` below the top.
pub open spec fn vm_dup(m: VmModel, depth: int) -> (VmModel, EventModel) {
    if m.stack.len() < depth {
        vm_fatal(m, VmFatal::StackUnderflow)
    } else if m.stack.len() >= m.stack_size {
        vm_fatal(m, VmFatal::StackOverflow)
    } else {
        (
            VmModel { stack: m.stack.push(m.stack[m.stack.len() - depth]), ..m },
            EventModel::Continue,
        )
    }
}

/// Pushes one cell, within the stack bound.
pub open spec fn vm_push(m: VmModel, c: Cell) -> (VmModel, EventModel) {
    if m.stack.len() >= m.stack_size {
        vm_fatal(m, VmFatal::StackOverflow)
    } else {
        (VmModel { stack: m.stack.push(c), ..m }, EventModel::Continue)
    }
}

/// The program counter a jump lands on: the target if it lies within the
/// code, else the end of the code (which halts on the next fetch), as an
/// out-of-range address does.
pub open spec fn jump_target(m: VmModel, t: i64) -> int {
    if 0 <= t <= m.code.len() {
        t as int
    } else {
        m.code.len() as int
    }
}

/// The conditional jumps: address on top, condition beneath.
pub open spec fn vm_cond_jump(m: VmModel, when_nonzero: bool) -> (VmModel, EventModel) {
    if m.stack.len() < 2 {
        vm_fatal(m, VmFatal::StackUnderflow)
    } else {
        match (m.stack[m.stack.len() - 1], m.stack[m.stack.len() - 2]) {
            (Cell::Int(t), Cell::Int(c)) => {
                let taken = if when_nonzero {
                    c != 0
                } else {
                    c == 0
                };
                (
                    VmModel {
                        stack: m.stack.drop_last().drop_last(),
                        pc: if taken {
                            jump_target(m, t)
                        } else {
                            m.pc
                        },
                        ..m
                    },
                    EventModel::Continue,
                )
            },
            _ => vm_fatal(m, VmFatal::OperandKind),
        }
    }
}

/// Integer arithmetic: `x` is the top cell, `y` beneath; the result is
/// `y OP x`. Division truncates toward zero; overflow and division by
/// zero are fatal.
pub open spec fn vm_int_arith(m: VmModel, insn: Insn) -> (VmModel, EventModel) {
    if m.stack.len() < 2 {
        vm_fatal(m, VmFatal::StackUnderflow)
    } else {
        match (m.stack[m.stack.len() - 1], m.stack[m.stack.len() - 2]) {
            (Cell::Int(x), Cell::Int(y)) => {
                let res = match insn {
                    Insn::AddInt => y.checked_add(x),
                    Insn::SubInt => y.checked_sub(x),
                    Insn::MulInt => y.checked_mul(x),
                    _ => y.checked_div(x),
                };
                if insn == Insn::DivInt && x == 0 {
                    vm_fatal(m, VmFatal::DivideByZero)
                } else {
                    match res {
                        Some(v) => (
                            VmModel {
                                stack: m.stack.drop_last().drop_last().push(Cell::Int(v)),
                                ..m
                            },
                            EventModel::Continue,
                        ),
                        None => vm_fatal(m, VmFatal::IntegerOverflow),
                    }
                }
            },
            _ => vm_fatal(m, VmFatal::OperandKind),
        }
    }
}

/// Integer comparison: pushes 1 when `y OP x` holds, 0 otherwise.
pub open spec fn vm_int_cmp(m: VmModel, insn: Insn) -> (VmModel, EventModel) {
    if m.stack.len() < 2 {
        vm_fatal(m, VmFatal::StackUnderflow)
    } else {
        match (m.stack[m.stack.len() - 1], m.stack[m.stack.len() - 2]) {
            (Cell::Int(x), Cell::Int(y)) => {
                let truth = match insn {
                    Insn::EqInt => x == y,
                    Insn::LtInt => y < x,
                    Insn::GtInt => y > x,
                    Insn::LeInt => y <= x,
                    _ => y >= x,
                };
                (
                    VmModel {
                        stack: m.stack.drop_last().drop_last().push(
                            Cell::Int(
                                if truth {
                                    1
                                } else {
                                    0
                                },
                            ),
                        ),
                        ..m
                    },
                    EventModel::Continue,
                )
            },
            _ => vm_fatal(m, VmFatal::OperandKind),
        }
    }
}

/// Float arithmetic leaves the machine awaiting the caller's result;
/// the event names `left` (the deeper cell) and `right` (the former top).
pub open spec fn vm_float_bin(m: VmModel, op: FloatOp) -> (VmModel, EventModel) {
    if m.stack.len() < 2 {
        vm_fatal(m, VmFatal::StackUnderflow)
    } else {
        match (m.stack[m.stack.len() - 1], m.stack[m.stack.len() - 2]) {
            (Cell::Float(rx), Cell::Float(ly)) => (
                VmModel {
                    stack: m.stack.drop_last().drop_last(),
                    pending: Pending::AwaitFloat,
                    ..m
                },
                EventModel::WantFloat(FloatReq::Bin { op, left: ly, right: rx }),
            ),
            _ => vm_fatal(m, VmFatal::OperandKind),
        }
    }
}

/// Float comparison: the machine awaits a boolean.
pub open spec fn vm_float_cmp(m: VmModel, op: FloatCmp) -> (VmModel, EventModel) {
    if m.stack.len() < 2 {
        vm_fatal(m, VmFatal::StackUnderflow)
    } else {
        match (m.stack[m.stack.len() - 1], m.stack[m.stack.len() - 2]) {
            (Cell::Float(rx), Cell::Float(ly)) => (
                VmModel {
                    stack: m.stack.drop_last().drop_last(),
                    pending: Pending::AwaitBool,
                    ..m
                },
                EventModel::WantFloat(FloatReq::Cmp { op, left: ly, right: rx }),
            ),
            _ => vm_fatal(m, VmFatal::OperandKind),
        }
    }
}

/// One whole fetch-decode-execute step from an idle, running machine.
pub open spec fn spec_vm_step(m: VmModel) -> (VmModel, EventModel) {
    match next_insn(m.code, m.pc) {
        InsnRead::AtEnd => (VmModel { halted: true, ..m }, EventModel::Halt),
        InsnRead::Short => vm_fatal(m, VmFatal::TruncatedCode),
        InsnRead::TruncImm => vm_fatal(m, VmFatal::TruncatedCode),
        InsnRead::Unknown(op) => vm_fatal(m, VmFatal::IllegalInstruction(op)),
        InsnRead::Next(insn, p2) => vm_exec(VmModel { pc: p2, ..m }, insn),
    }
}

/// The line, stripped of at most one trailing newline and then one
/// trailing carriage return, that `INPUT` interns.
pub open spec fn strip_line(s: Seq<char>) -> Seq<char> {
    let s1 = if s.len() > 0 && s.last() == '\n' {
        s.drop_last()
    } else {
        s
    };
    if s1.len() > 0 && s1.last() == '\r' {
        s1.drop_last()
    } else {
        s1
    }
}

/// Resuming after `WantLine`: the stripped line is interned and a
/// reference to it pushed.
pub open spec fn spec_resume_line(m: VmModel, line: Seq<char>) -> (VmModel, EventModel) {
    if m.stack.len() >= m.stack_size {
        (
            VmModel { pending: Pending::Idle, halted: true, ..m },
            EventModel::Fatal(VmFatal::StackOverflow),
        )
    } else {
        let (pool2, marks2, slot) = spec_alloc(m.pool, m.marks, strip_line(line));
        (
            VmModel {
                stack: m.stack.push(Cell::Pool(slot as usize)),
                pool: pool2,
                marks: marks2,
                pending: Pending::Idle,
                ..m
            },
            EventModel::Continue,
        )
    }
}

/// Resuming with a single cell to push.
pub open spec fn spec_resume_push(m: VmModel, c: Cell) -> (VmModel, EventModel) {
    if m.stack.len() >= m.stack_size {
        (
            VmModel { pending: Pending::Idle, halted: true, ..m },
            EventModel::Fatal(VmFatal::StackOverflow),
        )
    } else {
        (
            VmModel { stack: m.stack.push(c), pending: Pending::Idle, ..m },
            EventModel::Continue,
        )
    }
}

/// The instructions the shuffle helper executes.
pub open spec fn is_vm_shuffle(insn: Insn) -> bool {
    match insn {
        Insn::Drop | Insn::Swap | Insn::TriRot | Insn::Dup | Insn::DiDup | Insn::TriDup
        | Insn::PushInt(_) | Insn::PushFloat(_) => true,
        _ => false,
    }
}

/// The instructions the system helper executes.
pub open spec fn is_vm_system(insn: Insn) -> bool {
    match insn {
        Insn::Jump | Insn::JumpNotZero | Insn::JumpZero | Insn::Call | Insn::Abort | Insn::Exit
        | Insn::Println | Insn::Input | Insn::Gc | Insn::NumConvInt | Insn::NumConvFloat
        | Insn::PrintInt | Insn::PrintFloat => true,
        _ => false,
    }
}

/// The instructions the integer helper executes.
pub open spec fn is_vm_int(insn: Insn) -> bool {
    match insn {
        Insn::AddInt | Insn::SubInt | Insn::MulInt | Insn::DivInt | Insn::EqInt | Insn::LtInt
        | Insn::GtInt | Insn::LeInt | Insn::GeInt => true,
        _ => false,
    }
}

/// The instructions the float helper executes.
pub open spec fn is_vm_float(insn: Insn) -> bool {
    match insn {
        Insn::AddFloat | Insn::SubFloat | Insn::MulFloat | Insn::DivFloat | Insn::EqFloat
        | Insn::LtFloat | Insn::GtFloat | Insn::LeFloat | Insn::GeFloat => true,
        _ => false,
    }
}

impl Runtime {
    /// Builds a machine over a code region with an empty stack of the
    /// given capacity.
    pub fn new(code: Vec<u8>, pc: usize, stack_size: usize, constants: Vec<String>) -> (r:
        Runtime)
        requires
            pc <= code@.len(),
        ensures
            r.wf(),
            r.model() == (VmModel {
                stack: Seq::empty(),
                pc: pc as int,
                code: code@,
                stack_size: stack_size as int,
                constants: constants.deep_view(),
                pool: Seq::empty(),
                marks: Seq::empty(),
                pending: Pending::Idle,
                halted: false,
            }),
    {
        let r = Runtime {
            stack: Vec::new(),
            pc,
            code,
            stack_size,
            constants,
            string_pool: Vec::new(),
            string_pool_marks: Vec::new(),
            pending: Pending::Idle,
            halted: false,
        };
        proof {
            assert(r.string_pool.deep_view() =~= Seq::<Seq<char>>::empty());
        }
        r
    }

    /// Whether the machine can take another step without a resume.
    pub fn is_running(&self) -> (r: bool)
        ensures
            r == (!self.halted && self.pending == Pending::Idle),
    {
        !self.halted && self.pending == Pending::Idle
    }

    /// The string a reference cell designates.
    fn resolve_cell(&self, c: Cell) -> (r: Option<String>)
        ensures
            match r {
                Some(s) => resolve(self.model(), c) == Some(s@),
                None => resolve(self.model(), c) == None::<Seq<char>>,
            },
    {
        match c {
            Cell::Const(k) => {
                if k < self.constants.len() {
                    proof {
                        assert(self.constants.deep_view()[k as int] =~= self.constants@[k as int]@);
                    }
                    Some(self.constants[k].clone())
                } else {
                    None
                }
            },
            Cell::Pool(k) => {
                if k < self.string_pool.len() {
                    proof {
                        assert(self.string_pool.deep_view()[k as int] =~= self.string_pool@[
                            k as int
                        ]@);
                    }
                    Some(self.string_pool[k].clone())
                } else {
                    None
                }
            },
            _ => None,
        }
    }

    /// The program counter a jump to `t` lands on.
    fn clamp_target(&self, t: i64) -> (r: usize)
        ensures
            r as int == jump_target(self.model(), t),
            r <= self.code@.len(),
    {
        let len = self.code.len();
        if t < 0 {
            len
        } else if (t as u64) > (len as u64) {
            len
        } else {
            t as usize
        }
    }

    /// Interns a string: the first free slot is reused, else the pool
    /// grows by one marked slot.
    fn alloc_string(&mut self, value: String) -> (slot: usize)
        requires
            old(self).wf(),
        ensures
            ({
                let (pool2, marks2, s) = spec_alloc(
                    old(self).string_pool.deep_view(),
                    old(self).string_pool_marks@,
                    value@,
                );
                &&& final(self).string_pool.deep_view() == pool2
                &&& final(self).string_pool_marks@ == marks2
                &&& slot as int == s
                &&& slot < final(self).string_pool@.len()
            }),
            final(self).stack == old(self).stack,
            final(self).pc == old(self).pc,
            final(self).code == old(self).code,
            final(self).stack_size == old(self).stack_size,
            final(self).constants == old(self).constants,
            final(self).pending == old(self).pending,
            final(self).halted == old(self).halted,
            final(self).string_pool@.len() >= old(self).string_pool@.len(),
            final(self).string_pool@.len() == final(self).string_pool_marks@.len(),
    {
        let ghost marks0 = self.string_pool_marks@;
        let ghost pool0 = self.string_pool.deep_view();
        let n = self.string_pool_marks.len();
        let mut i: usize = 0;
        while i < n
            invariant
                0 <= i <= n,
                n == self.string_pool_marks@.len(),
                self.string_pool_marks@ == marks0,
                self.string_pool@.len() == n,
                self.string_pool.deep_view() == pool0,
                marks0 == old(self).string_pool_marks@,
                pool0 == old(self).string_pool.deep_view(),
                n == old(self).string_pool@.len(),
                final_frame(*self, *old(self)),
                first_free_from(marks0, 0) == first_free_from(marks0, i as int),
            decreases n - i,
        {
            if self.string_pool_marks[i] == 0 {
                proof {
                    assert(first_free_from(marks0, i as int) == i);
                }
                let ghost dpre = self.string_pool.deep_view();
                self.string_pool.set(i, value);
                proof {
                    assert(self.string_pool.deep_view() =~~= dpre.update(i as int, value@));
                }
                return i;
            }
            i = i + 1;
        }
        proof {
            assert(first_free_from(marks0, n as int) == n);
        }
        let ghost dpre = self.string_pool.deep_view();
        self.string_pool.push(value);
        self.string_pool_marks.push(1);
        proof {
            assert(self.string_pool.deep_view() =~~= dpre.push(value@));
        }
        self.string_pool.len() - 1
    }

    /// The mark-style reclamation: zero every mark, mark each slot a live
    /// stack cell references, and clear every unmarked slot.
    fn collect_garbage(&mut self)
        requires
            old(self).wf(),
        ensures
            ({
                let (pool2, marks2) = spec_gc(
                    old(self).stack@,
                    old(self).string_pool.deep_view(),
                    old(self).string_pool_marks@,
                );
                &&& final(self).string_pool.deep_view() == pool2
                &&& final(self).string_pool_marks@ == marks2
            }),
            final(self).stack == old(self).stack,
            final(self).pc == old(self).pc,
            final(self).code == old(self).code,
            final(self).stack_size == old(self).stack_size,
            final(self).constants == old(self).constants,
            final(self).pending == old(self).pending,
            final(self).halted == old(self).halted,
            final(self).string_pool@.len() == old(self).string_pool@.len(),
            final(self).string_pool_marks@.len() == old(self).string_pool_marks@.len(),
    {
        let ghost stack0 = self.stack@;
        let ghost pool0 = self.string_pool.deep_view();
        let n = self.string_pool_marks.len();
        let mut marks: Vec<u8> = Vec::new();
        let mut i: usize = 0;
        while i < n
            invariant
                0 <= i <= n,
                marks@.len() == i,
                forall|s: int| 0 <= s < i ==> marks@[s] == 0u8,
            decreases n - i,
        {
            marks.push(0);
            i = i + 1;
        }
        let mut j: usize = 0;
        while j < self.stack.len()
            invariant
                0 <= j <= self.stack@.len(),
                self.stack@ == stack0,
                self.string_pool@.len() == n,
                marks@.len() == n,
                forall|i2: int| 0 <= i2 < stack0.len() ==> cell_ok(#[trigger] stack0[i2], old(self).model()),
                forall|s: int|
                    0 <= s < n ==> marks@[s] == (if exists|q: int|
                        0 <= q < j && stack0[q] == Cell::Pool(s as usize) {
                        1u8
                    } else {
                        0u8
                    }),
            decreases self.stack@.len() - j,
        {
            let c = self.stack[j];
            match c {
                Cell::Pool(k) => {
                    marks.set(k, 1);
                },
                _ => {},
            }
            proof {
                assert forall|s: int| 0 <= s < n implies marks@[s] == (if exists|q: int|
                    0 <= q < j + 1 && stack0[q] == Cell::Pool(s as usize) {
                    1u8
                } else {
                    0u8
                }) by {
                    if marks@[s] == 1 {
                        if stack0[j as int] == Cell::Pool(s as usize) {
                        } else {
                            assert(exists|q: int| 0 <= q < j && stack0[q] == Cell::Pool(
                                s as usize,
                            ));
                        }
                    } else {
                        assert(forall|q: int|
                            0 <= q < j + 1 ==> stack0[q] != Cell::Pool(s as usize));
                    }
                }
            }
            j = j + 1;
        }
        proof {
            assert forall|s: int| 0 <= s < n implies marks@[s] == (if live(stack0, s) {
                1u8
            } else {
                0u8
            }) by {
            }
        }
        let mut k: usize = 0;
        while k < n
            invariant
                0 <= k <= n,
                marks@.len() == n,
                self.string_pool@.len() == n,
                forall|s: int| 0 <= s < n ==> marks@[s] == (if live(stack0, s) {
                    1u8
                } else {
                    0u8
                }),
                forall|s: int|
                    k <= s < n ==> #[trigger] self.string_pool.deep_view()[s] == pool0[s],
                forall|s: int|
                    0 <= s < k ==> #[trigger] self.string_pool.deep_view()[s] == (if live(
                        stack0,
                        s,
                    ) {
                        pool0[s]
                    } else {
                        Seq::<char>::empty()
                    }),
                final_frame(*self, *old(self)),
            decreases n - k,
        {
            if marks[k] == 0 {
                let ghost dpre = self.string_pool.deep_view();
                self.string_pool.set(k, String::new());
                proof {
                    assert(self.string_pool.deep_view() =~~= dpre.update(
                        k as int,
                        Seq::<char>::empty(),
                    ));
                }
            }
            k = k + 1;
        }
        self.string_pool_marks = marks;
        proof {
            let (pool2, marks2) = spec_gc(stack0, pool0, old(self).string_pool_marks@);
            assert(self.string_pool.deep_view() =~= pool2);
            assert(self.string_pool_marks@ =~= marks2);
        }
    }
}

/// The parts of the machine a pool operation leaves alone.
pub open spec fn final_frame(now: Runtime, before: Runtime) -> bool {
    &&& now.stack == before.stack
    &&& now.pc == before.pc
    &&& now.code == before.code
    &&& now.stack_size == before.stack_size
    &&& now.constants == before.constants
    &&& now.pending == before.pending
    &&& now.halted == before.halted
}

impl Runtime {
    /// Halts with a fault.
    fn fail(&mut self, f: VmFatal) -> (ev: StepEvent)
        ensures
            final(self).model() == vm_fatal(old(self).model(), f).0,
            event_model(ev) == vm_fatal(old(self).model(), f).1,
    {
        self.halted = true;
        proof {
            assert(self.model() =~= vm_fatal(old(self).model(), f).0);
        }
        StepEvent::Fatal(f)
    }

    /// One fetch-decode-execute step. The machine must be idle and
    /// running; the caller performs whatever the returned event asks.
    pub fn step(&mut self) -> (ev: StepEvent)
        requires
            old(self).wf(),
            !old(self).halted,
            old(self).pending == Pending::Idle,
        ensures
            final(self).wf(),
            final(self).model() == spec_vm_step(old(self).model()).0,
            event_model(ev) == spec_vm_step(old(self).model()).1,
    {
        let len = self.code.len();
        if self.pc >= len {
            self.halted = true;
            proof {
                assert(self.model() =~= spec_vm_step(old(self).model()).0);
            }
            return StepEvent::Halt;
        }
        if len - self.pc < 2 {
            let ev = self.fail(VmFatal::TruncatedCode);
            return ev;
        }
        let op = crate::endian::get_u16_le(&self.code, self.pc);
        let insn: Insn;
        let next: usize;
        if op == crate::bytecode::INSN_PUSH_I64 {
            if len - self.pc < 10 {
                let ev = self.fail(VmFatal::TruncatedCode);
                return ev;
            }
            let v = crate::endian::get_i64_le(&self.code, self.pc + 2);
            insn = Insn::PushInt(v);
            next = self.pc + 10;
        } else if op == crate::bytecode::INSN_PUSH_F64 {
            if len - self.pc < 10 {
                let ev = self.fail(VmFatal::TruncatedCode);
                return ev;
            }
            let bits = crate::endian::get_u64_le(&self.code, self.pc + 2);
            insn = Insn::PushFloat(bits);
            next = self.pc + 10;
        } else {
            match crate::util::opcode_insn(op) {
                Some(i) => {
                    insn = i;
                    next = self.pc + 2;
                },
                None => {
                    let ev = self.fail(VmFatal::IllegalInstruction(op));
                    return ev;
                },
            }
        }
        proof {
            assert(next_insn(old(self).model().code, old(self).model().pc) == InsnRead::Next(
                insn,
                next as int,
            ));
        }
        self.pc = next;
        let ghost m1 = VmModel { pc: next as int, ..old(self).model() };
        proof {
            assert(self.model() =~= m1);
            assert(vm_wf(m1));
        }
        let ev = match insn {
            Insn::Drop | Insn::Swap | Insn::TriRot | Insn::Dup | Insn::DiDup | Insn::TriDup
            | Insn::PushInt(_) | Insn::PushFloat(_) => self.exec_shuffle(insn),
            Insn::AddInt | Insn::SubInt | Insn::MulInt | Insn::DivInt | Insn::EqInt
            | Insn::LtInt | Insn::GtInt | Insn::LeInt | Insn::GeInt => self.exec_int(insn),
            Insn::AddFloat | Insn::SubFloat | Insn::MulFloat | Insn::DivFloat | Insn::EqFloat
            | Insn::LtFloat | Insn::GtFloat | Insn::LeFloat | Insn::GeFloat => self.exec_float(
                insn,
            ),
            Insn::Jump | Insn::JumpNotZero | Insn::JumpZero | Insn::Call | Insn::Abort
            | Insn::Exit | Insn::Println | Insn::Input | Insn::Gc | Insn::NumConvInt
            | Insn::NumConvFloat | Insn::PrintInt | Insn::PrintFloat => self.exec_system(insn),
            _ => self.exec_string(insn),
        };
        ev
    }

    /// The stack-shuffling and pushing instructions.
    #[verifier::rlimit(100)]
    #[verifier::spinoff_prover]
    fn exec_shuffle(&mut self, insn: Insn) -> (ev: StepEvent)
        requires
            vm_wf(old(self).model()),
            is_vm_shuffle(insn),
        ensures
            final(self).wf(),
            final(self).model() == vm_exec(old(self).model(), insn).0,
            event_model(ev) == vm_exec(old(self).model(), insn).1,
    {
        let n = self.stack.len();
        match insn {
            Insn::Drop => {
                if n < 1 {
                    return self.fail(VmFatal::StackUnderflow);
                }
                let _ = self.stack.pop();
                proof {
                    assert(self.model() =~= vm_exec(old(self).model(), insn).0);
                }
                StepEvent::Continue
            },
            Insn::Swap => {
                if n < 2 {
                    return self.fail(VmFatal::StackUnderflow);
                }
                let x = self.stack[n - 1];
                let y = self.stack[n - 2];
                let _ = self.stack.pop();
                let _ = self.stack.pop();
                self.stack.push(x);
                self.stack.push(y);
                proof {
                    assert(self.stack@ =~= old(self).stack@.drop_last().drop_last().push(x).push(
                        y,
                    ));
                    assert(self.model() =~= vm_exec(old(self).model(), insn).0);
                }
                StepEvent::Continue
            },
            Insn::TriRot => {
                if n < 3 {
                    return self.fail(VmFatal::StackUnderflow);
                }
                let x = self.stack[n - 1];
                let y = self.stack[n - 2];
                let z = self.stack[n - 3];
                let _ = self.stack.pop();
                let _ = self.stack.pop();
                let _ = self.stack.pop();
                self.stack.push(y);
                self.stack.push(x);
                self.stack.push(z);
                proof {
                    assert(self.stack@ =~= old(self).stack@.drop_last().drop_last().drop_last()
                        .push(y).push(x).push(z));
                    assert(self.model() =~= vm_exec(old(self).model(), insn).0);
                }
                StepEvent::Continue
            },
            Insn::Dup => {
                if n < 1 {
                    return self.fail(VmFatal::StackUnderflow);
                }
                if n >= self.stack_size {
                    return self.fail(VmFatal::StackOverflow);
                }
                let x = self.stack[n - 1];
                self.stack.push(x);
                proof {
                    assert(self.model() =~= vm_exec(old(self).model(), insn).0);
                }
                StepEvent::Continue
            },
            Insn::DiDup => {
                if n < 2 {
                    return self.fail(VmFatal::StackUnderflow);
                }
                if n >= self.stack_size {
                    return self.fail(VmFatal::StackOverflow);
                }
                let x = self.stack[n - 2];
                self.stack.push(x);
                proof {
                    assert(self.model() =~= vm_exec(old(self).model(), insn).0);
                }
                StepEvent::Continue
            },
            Insn::TriDup => {
                if n < 3 {
                    return self.fail(VmFatal::StackUnderflow);
                }
                if n >= self.stack_size {
                    return self.fail(VmFatal::StackOverflow);
                }
                let x = self.stack[n - 3];
                self.stack.push(x);
                proof {
                    assert(self.model() =~= vm_exec(old(self).model(), insn).0);
                }
                StepEvent::Continue
            },
            Insn::PushInt(v) => {
                if n >= self.stack_size {
                    return self.fail(VmFatal::StackOverflow);
                }
                self.stack.push(Cell::Int(v));
                proof {
                    assert(self.model() =~= vm_exec(old(self).model(), insn).0);
                }
                StepEvent::Continue
            },
            _ => {
                let bits = match insn {
                    Insn::PushFloat(b) => b,
                    _ => 0,
                };
                if n >= self.stack_size {
                    return self.fail(VmFatal::StackOverflow);
                }
                self.stack.push(Cell::Float(bits));
                proof {
                    assert(self.model() =~= vm_exec(old(self).model(), insn).0);
                }
                StepEvent::Continue
            },
        }
    }

    /// The integer arithmetic and comparison instructions.
    #[verifier::rlimit(100)]
    #[verifier::spinoff_prover]
    fn exec_int(&mut self, insn: Insn) -> (ev: StepEvent)
        requires
            vm_wf(old(self).model()),
            is_vm_int(insn),
        ensures
            final(self).wf(),
            final(self).model() == vm_exec(old(self).model(), insn).0,
            event_model(ev) == vm_exec(old(self).model(), insn).1,
    {
        let n = self.stack.len();
        if n < 2 {
            return self.fail(VmFatal::StackUnderflow);
        }
        let cx = self.stack[n - 1];
        let cy = self.stack[n - 2];
        let x: i64;
        let y: i64;
        match (cx, cy) {
            (Cell::Int(a), Cell::Int(b)) => {
                x = a;
                y = b;
            },
            _ => {
                return self.fail(VmFatal::OperandKind);
            },
        }
        let arith = match insn {
            Insn::AddInt | Insn::SubInt | Insn::MulInt | Insn::DivInt => true,
            _ => false,
        };
        if arith {
            let res: Option<i64> = match insn {
                Insn::AddInt => y.checked_add(x),
                Insn::SubInt => y.checked_sub(x),
                Insn::MulInt => y.checked_mul(x),
                _ => y.checked_div(x),
            };
            let is_div = match insn {
                Insn::DivInt => true,
                _ => false,
            };
            if is_div && x == 0 {
                return self.fail(VmFatal::DivideByZero);
            }
            match res {
                Some(v) => {
                    let _ = self.stack.pop();
                    let _ = self.stack.pop();
                    self.stack.push(Cell::Int(v));
                    proof {
                        assert(self.stack@ =~= old(self).stack@.drop_last().drop_last().push(
                            Cell::Int(v),
                        ));
                        assert(self.model() =~= vm_exec(old(self).model(), insn).0);
                    }
                    StepEvent::Continue
                },
                None => {
                    return self.fail(VmFatal::IntegerOverflow);
                },
            }
        } else {
            let truth = match insn {
                Insn::EqInt => x == y,
                Insn::LtInt => y < x,
                Insn::GtInt => y > x,
                Insn::LeInt => y <= x,
                _ => y >= x,
            };
            let _ = self.stack.pop();
            let _ = self.stack.pop();
            self.stack.push(Cell::Int(if truth { 1 } else { 0 }));
            proof {
                assert(self.stack@ =~= old(self).stack@.drop_last().drop_last().push(
                    Cell::Int(if truth { 1i64 } else { 0i64 }),
                ));
                assert(self.model() =~= vm_exec(old(self).model(), insn).0);
            }
            StepEvent::Continue
        }
    }

    /// The float instructions, which hand the arithmetic to the caller.
    #[verifier::rlimit(100)]
    #[verifier::spinoff_prover]
    fn exec_float(&mut self, insn: Insn) -> (ev: StepEvent)
        requires
            vm_wf(old(self).model()),
            is_vm_float(insn),
        ensures
            final(self).wf(),
            final(self).model() == vm_exec(old(self).model(), insn).0,
            event_model(ev) == vm_exec(old(self).model(), insn).1,
    {
        let n = self.stack.len();
        if n < 2 {
            return self.fail(VmFatal::StackUnderflow);
        }
        let cx = self.stack[n - 1];
        let cy = self.stack[n - 2];
        let rx: u64;
        let ly: u64;
        match (cx, cy) {
            (Cell::Float(a), Cell::Float(b)) => {
                rx = a;
                ly = b;
            },
            _ => {
                return self.fail(VmFatal::OperandKind);
            },
        }
        let _ = self.stack.pop();
        let _ = self.stack.pop();
        proof {
            assert(self.stack@ =~= old(self).stack@.drop_last().drop_last());
        }
        match insn {
            Insn::AddFloat | Insn::SubFloat | Insn::MulFloat | Insn::DivFloat => {
                let op = match insn {
                    Insn::AddFloat => FloatOp::Add,
                    Insn::SubFloat => FloatOp::Sub,
                    Insn::MulFloat => FloatOp::Mul,
                    _ => FloatOp::Div,
                };
                self.pending = Pending::AwaitFloat;
                proof {
                    assert(self.model() =~= vm_exec(old(self).model(), insn).0);
                }
                StepEvent::WantFloat(FloatReq::Bin { op, left: ly, right: rx })
            },
            _ => {
                let op = match insn {
                    Insn::EqFloat => FloatCmp::Eq,
                    Insn::LtFloat => FloatCmp::Lt,
                    Insn::GtFloat => FloatCmp::Gt,
                    Insn::LeFloat => FloatCmp::Le,
                    _ => FloatCmp::Ge,
                };
                self.pending = Pending::AwaitBool;
                proof {
                    assert(self.model() =~= vm_exec(old(self).model(), insn).0);
                }
                StepEvent::WantFloat(FloatReq::Cmp { op, left: ly, right: rx })
            },
        }
    }

    /// Control flow, conversions, reclamation and the simple system
    /// instructions.
    #[verifier::rlimit(100)]
    #[verifier::spinoff_prover]
    fn exec_system(&mut self, insn: Insn) -> (ev: StepEvent)
        requires
            vm_wf(old(self).model()),
            is_vm_system(insn),
        ensures
            final(self).wf(),
            final(self).model() == vm_exec(old(self).model(), insn).0,
            event_model(ev) == vm_exec(old(self).model(), insn).1,
    {
        let n = self.stack.len();
        match insn {
            Insn::Jump => {
                if n < 1 {
                    return self.fail(VmFatal::StackUnderflow);
                }
                match self.stack[n - 1] {
                    Cell::Int(t) => {
                        let tgt = self.clamp_target(t);
                        let _ = self.stack.pop();
                        self.pc = tgt;
                        proof {
                            assert(self.model() =~= vm_exec(old(self).model(), insn).0);
                        }
                        StepEvent::Continue
                    },
                    _ => self.fail(VmFatal::OperandKind),
                }
            },
            Insn::JumpNotZero | Insn::JumpZero => {
                if n < 2 {
                    return self.fail(VmFatal::StackUnderflow);
                }
                let when_nonzero = match insn {
                    Insn::JumpNotZero => true,
                    _ => false,
                };
                match (self.stack[n - 1], self.stack[n - 2]) {
                    (Cell::Int(t), Cell::Int(c)) => {
                        let taken = if when_nonzero {
                            c != 0
                        } else {
                            c == 0
                        };
                        let tgt = self.clamp_target(t);
                        let _ = self.stack.pop();
                        let _ = self.stack.pop();
                        if taken {
                            self.pc = tgt;
                        }
                        proof {
                            assert(self.stack@ =~= old(self).stack@.drop_last().drop_last());
                            assert(self.model() =~= vm_exec(old(self).model(), insn).0);
                        }
                        StepEvent::Continue
                    },
                    _ => self.fail(VmFatal::OperandKind),
                }
            },
            Insn::Call => self.fail(VmFatal::IllegalInstruction(crate::bytecode::INSN_CALL)),
            Insn::Abort => {
                self.halted = true;
                proof {
                    assert(self.model() =~= vm_exec(old(self).model(), insn).0);
                }
                StepEvent::Abort
            },
            Insn::Exit => {
                if n < 1 {
                    return self.fail(VmFatal::StackUnderflow);
                }
                match self.stack[n - 1] {
                    Cell::Int(c) => {
                        let _ = self.stack.pop();
                        self.halted = true;
                        proof {
                            assert(self.model() =~= vm_exec(old(self).model(), insn).0);
                        }
                        StepEvent::Exit(c)
                    },
                    _ => self.fail(VmFatal::OperandKind),
                }
            },
            Insn::Println => {
                proof {
                    assert(self.model() =~= vm_exec(old(self).model(), insn).0);
                }
                StepEvent::PrintLn
            },
            Insn::Input => {
                self.pending = Pending::AwaitLine;
                proof {
                    assert(self.model() =~= vm_exec(old(self).model(), insn).0);
                }
                StepEvent::WantLine
            },
            Insn::Gc => {
                self.collect_garbage();
                proof {
                    assert(self.model() =~= vm_exec(old(self).model(), insn).0);
                }
                StepEvent::Continue
            },
            Insn::NumConvInt => {
                if n < 1 {
                    return self.fail(VmFatal::StackUnderflow);
                }
                match self.stack[n - 1] {
                    Cell::Float(b) => {
                        let _ = self.stack.pop();
                        self.pending = Pending::AwaitInt;
                        proof {
                            assert(self.model() =~= vm_exec(old(self).model(), insn).0);
                        }
                        StepEvent::WantFloat(FloatReq::ToInt { bits: b })
                    },
                    _ => self.fail(VmFatal::OperandKind),
                }
            },
            Insn::NumConvFloat => {
                if n < 1 {
                    return self.fail(VmFatal::StackUnderflow);
                }
                match self.stack[n - 1] {
                    Cell::Int(v) => {
                        let _ = self.stack.pop();
                        self.pending = Pending::AwaitFloat;
                        proof {
                            assert(self.model() =~= vm_exec(old(self).model(), insn).0);
                        }
                        StepEvent::WantFloat(FloatReq::FromInt { value: v })
                    },
                    _ => self.fail(VmFatal::OperandKind),
                }
            },
            Insn::PrintInt => {
                if n < 1 {
                    return self.fail(VmFatal::StackUnderflow);
                }
                match self.stack[n - 1] {
                    Cell::Int(v) => {
                        let _ = self.stack.pop();
                        proof {
                            assert(self.model() =~= vm_exec(old(self).model(), insn).0);
                        }
                        StepEvent::PrintInt(v)
                    },
                    _ => self.fail(VmFatal::OperandKind),
                }
            },
            _ => {
                if n < 1 {
                    return self.fail(VmFatal::StackUnderflow);
                }
                match self.stack[n - 1] {
                    Cell::Float(b) => {
                        let _ = self.stack.pop();
                        proof {
                            assert(self.model() =~= vm_exec(old(self).model(), insn).0);
                        }
                        StepEvent::PrintFloat(b)
                    },
                    _ => self.fail(VmFatal::OperandKind),
                }
            },
        }
    }

    /// The instructions that touch strings: constant loading, printing,
    /// panicking, concatenation and equality.
    #[verifier::rlimit(100)]
    #[verifier::spinoff_prover]
    fn exec_string(&mut self, insn: Insn) -> (ev: StepEvent)
        requires
            vm_wf(old(self).model()),
            !is_vm_shuffle(insn),
            !is_vm_int(insn),
            !is_vm_float(insn),
            !is_vm_system(insn),
        ensures
            final(self).wf(),
            final(self).model() == vm_exec(old(self).model(), insn).0,
            event_model(ev) == vm_exec(old(self).model(), insn).1,
    {
        let n = self.stack.len();
        match insn {
            Insn::Load => {
                if n < 1 {
                    return self.fail(VmFatal::StackUnderflow);
                }
                match self.stack[n - 1] {
                    Cell::Int(i) => {
                        if i < 0 {
                            return self.fail(VmFatal::InvalidConstant(i));
                        }
                        if (i as u64) >= (self.constants.len() as u64) {
                            return self.fail(VmFatal::InvalidConstant(i));
                        }
                        let _ = self.stack.pop();
                        self.stack.push(Cell::Const(i as usize));
                        proof {
                            assert(self.model() =~= vm_exec(old(self).model(), insn).0);
                        }
                        StepEvent::Continue
                    },
                    _ => self.fail(VmFatal::OperandKind),
                }
            },
            Insn::Panic => {
                if n < 1 {
                    return self.fail(VmFatal::StackUnderflow);
                }
                let c = self.stack[n - 1];
                match self.resolve_cell(c) {
                    Some(s) => {
                        let _ = self.stack.pop();
                        self.halted = true;
                        proof {
                            assert(self.model() =~= vm_exec(old(self).model(), insn).0);
                        }
                        StepEvent::Panic(s)
                    },
                    None => self.fail(VmFatal::OperandKind),
                }
            },
            Insn::PrintString => {
                if n < 1 {
                    return self.fail(VmFatal::StackUnderflow);
                }
                let c = self.stack[n - 1];
                match self.resolve_cell(c) {
                    Some(s) => {
                        let _ = self.stack.pop();
                        proof {
                            assert(self.model() =~= vm_exec(old(self).model(), insn).0);
                        }
                        StepEvent::PrintStr(s)
                    },
                    None => self.fail(VmFatal::OperandKind),
                }
            },
            Insn::AddString => {
                if n < 2 {
                    return self.fail(VmFatal::StackUnderflow);
                }
                let cx = self.stack[n - 1];
                let cy = self.stack[n - 2];
                let sy = match self.resolve_cell(cy) {
                    Some(s) => s,
                    None => {
                        return self.fail(VmFatal::OperandKind);
                    },
                };
                let sx = match self.resolve_cell(cx) {
                    Some(s) => s,
                    None => {
                        return self.fail(VmFatal::OperandKind);
                    },
                };
                let joined = sy.concat(sx.as_str());
                let _ = self.stack.pop();
                let _ = self.stack.pop();
                let slot = self.alloc_string(joined);
                self.stack.push(Cell::Pool(slot));
                proof {
                    assert(self.stack@ =~= old(self).stack@.drop_last().drop_last().push(
                        Cell::Pool(slot),
                    ));
                    assert(self.model() =~= vm_exec(old(self).model(), insn).0);
                }
                StepEvent::Continue
            },
            _ => {
                if n < 2 {
                    return self.fail(VmFatal::StackUnderflow);
                }
                let cx = self.stack[n - 1];
                let cy = self.stack[n - 2];
                let sy = match self.resolve_cell(cy) {
                    Some(s) => s,
                    None => {
                        return self.fail(VmFatal::OperandKind);
                    },
                };
                let sx = match self.resolve_cell(cx) {
                    Some(s) => s,
                    None => {
                        return self.fail(VmFatal::OperandKind);
                    },
                };
                let truth = sx == sy;
                let _ = self.stack.pop();
                let _ = self.stack.pop();
                self.stack.push(Cell::Int(if truth { 1 } else { 0 }));
                proof {
                    assert(self.stack@ =~= old(self).stack@.drop_last().drop_last().push(
                        Cell::Int(if truth { 1i64 } else { 0i64 }),
                    ));
                    assert(self.model() =~= vm_exec(old(self).model(), insn).0);
                }
                StepEvent::Continue
            },
        }
    }

    /// Resumes after `WantLine`: strips at most one trailing newline and
    /// then one carriage return, interns the line and pushes a reference.
    pub fn resume_line(&mut self, line: String) -> (ev: StepEvent)
        requires
            old(self).wf(),
            !old(self).halted,
            old(self).pending == Pending::AwaitLine,
        ensures
            final(self).wf(),
            final(self).model() == spec_resume_line(old(self).model(), line@).0,
            event_model(ev) == spec_resume_line(old(self).model(), line@).1,
    {
        if self.stack.len() >= self.stack_size {
            self.pending = Pending::Idle;
            self.halted = true;
            proof {
                assert(self.model() =~= spec_resume_line(old(self).model(), line@).0);
            }
            return StepEvent::Fatal(VmFatal::StackOverflow);
        }
        let mut v = crate::text::str_to_chars(line.as_str());
        if v.len() > 0 {
            if v[v.len() - 1] == '\n' {
                let _ = v.pop();
            }
        }
        if v.len() > 0 {
            if v[v.len() - 1] == '\r' {
                let _ = v.pop();
            }
        }
        proof {
            assert(v@ == strip_line(line@));
        }
        let s = crate::text::chars_to_string(&v);
        let slot = self.alloc_string(s);
        self.stack.push(Cell::Pool(slot));
        self.pending = Pending::Idle;
        proof {
            assert(self.model() =~= spec_resume_line(old(self).model(), line@).0);
        }
        StepEvent::Continue
    }

    /// Resumes after a float arithmetic or int-to-float request with the
    /// result's bit pattern.
    pub fn resume_float(&mut self, bits: u64) -> (ev: StepEvent)
        requires
            old(self).wf(),
            !old(self).halted,
            old(self).pending == Pending::AwaitFloat,
        ensures
            final(self).wf(),
            final(self).model() == spec_resume_push(old(self).model(), Cell::Float(bits)).0,
            event_model(ev) == spec_resume_push(old(self).model(), Cell::Float(bits)).1,
    {
        self.resume_push(Cell::Float(bits))
    }

    /// Resumes after a float-to-int request with the truncated value.
    pub fn resume_int(&mut self, value: i64) -> (ev: StepEvent)
        requires
            old(self).wf(),
            !old(self).halted,
            old(self).pending == Pending::AwaitInt,
        ensures
            final(self).wf(),
            final(self).model() == spec_resume_push(old(self).model(), Cell::Int(value)).0,
            event_model(ev) == spec_resume_push(old(self).model(), Cell::Int(value)).1,
    {
        self.resume_push(Cell::Int(value))
    }

    /// Resumes after a float comparison with its truth value; the machine
    /// pushes 1 or 0.
    pub fn resume_bool(&mut self, truth: bool) -> (ev: StepEvent)
        requires
            old(self).wf(),
            !old(self).halted,
            old(self).pending == Pending::AwaitBool,
        ensures
            final(self).wf(),
            final(self).model() == spec_resume_push(
                old(self).model(),
                Cell::Int(
                    if truth {
                        1
                    } else {
                        0
                    },
                ),
            ).0,
            event_model(ev) == spec_resume_push(
                old(self).model(),
                Cell::Int(
                    if truth {
                        1
                    } else {
                        0
                    },
                ),
            ).1,
    {
        if truth {
            self.resume_push(Cell::Int(1))
        } else {
            self.resume_push(Cell::Int(0))
        }
    }

    /// Pushes the cell a resume supplies and returns to the idle state.
    fn resume_push(&mut self, c: Cell) -> (ev: StepEvent)
        requires
            old(self).wf(),
            cell_ok(c, old(self).model()),
        ensures
            final(self).wf(),
            final(self).model() == spec_resume_push(old(self).model(), c).0,
            event_model(ev) == spec_resume_push(old(self).model(), c).1,
    {
        if self.stack.len() >= self.stack_size {
            self.pending = Pending::Idle;
            self.halted = true;
            proof {
                assert(self.model() =~= spec_resume_push(old(self).model(), c).0);
            }
            return StepEvent::Fatal(VmFatal::StackOverflow);
        }
        self.stack.push(c);
        self.pending = Pending::Idle;
        proof {
            assert(self.model() =~= spec_resume_push(old(self).model(), c).0);
        }
        StepEvent::Continue
    }
}

/// After a collection, every pool slot a live stack cell references keeps
/// its string and is marked; every other slot is unmarked and its string
/// released.
pub proof fn lemma_gc_preserves_live(stack: Seq<Cell>, pool: Seq<Seq<char>>, marks: Seq<u8>)
    requires
        pool.len() == marks.len(),
    ensures
        spec_gc(stack, pool, marks).0.len() == pool.len(),
        spec_gc(stack, pool, marks).1.len() == marks.len(),
        forall|s: int|
            0 <= s < pool.len() && live(stack, s) ==> #[trigger] spec_gc(stack, pool, marks).0[s]
                == pool[s] && spec_gc(stack, pool, marks).1[s] == 1u8,
        forall|s: int|
            0 <= s < pool.len() && !live(stack, s) ==> #[trigger] spec_gc(
                stack,
                pool,
                marks,
            ).0[s] == Seq::<char>::empty() && spec_gc(stack, pool, marks).1[s] == 0u8,
{
}

/// Binary integer arithmetic is left-biased: with `x` the top cell and `y`
/// beneath it, the machine computes `y OP x` — in particular `y - x` and
/// `y / x` (truncating toward zero) — and leaves it as an integer cell.
pub proof fn lemma_int_arith_left_biased(m: VmModel, x: i64, y: i64)
    requires
        m.stack.len() >= 2,
        m.stack[m.stack.len() - 1] == Cell::Int(x),
        m.stack[m.stack.len() - 2] == Cell::Int(y),
    ensures
        i64::MIN <= y + x <= i64::MAX ==> vm_exec(m, Insn::AddInt) == (
            VmModel { stack: m.stack.drop_last().drop_last().push(Cell::Int((y + x) as i64)), ..m },
            EventModel::Continue,
        ),
        i64::MIN <= y - x <= i64::MAX ==> vm_exec(m, Insn::SubInt) == (
            VmModel { stack: m.stack.drop_last().drop_last().push(Cell::Int((y - x) as i64)), ..m },
            EventModel::Continue,
        ),
        i64::MIN <= y * x <= i64::MAX ==> vm_exec(m, Insn::MulInt) == (
            VmModel { stack: m.stack.drop_last().drop_last().push(Cell::Int((y * x) as i64)), ..m },
            EventModel::Continue,
        ),
        x != 0 ==> vm_exec(m, Insn::DivInt) == (match y.checked_div(x) {
            Some(v) => (
                VmModel { stack: m.stack.drop_last().drop_last().push(Cell::Int(v)), ..m },
                EventModel::Continue,
            ),
            None => vm_fatal(m, VmFatal::IntegerOverflow),
        }),
        x == 0 ==> vm_exec(m, Insn::DivInt) == vm_fatal(m, VmFatal::DivideByZero),
{
}

/// Integer comparisons push 1 exactly when `y OP x` holds of the deeper
/// cell `y` and the former top `x`; the result is always the integer 0 or
/// 1.
pub proof fn lemma_int_cmp_results(m: VmModel, x: i64, y: i64)
    requires
        m.stack.len() >= 2,
        m.stack[m.stack.len() - 1] == Cell::Int(x),
        m.stack[m.stack.len() - 2] == Cell::Int(y),
    ensures
        vm_exec(m, Insn::EqInt) == (
            VmModel {
                stack: m.stack.drop_last().drop_last().push(cmp_cell(x == y)),
                ..m
            },
            EventModel::Continue,
        ),
        vm_exec(m, Insn::LtInt) == (
            VmModel {
                stack: m.stack.drop_last().drop_last().push(cmp_cell(y < x)),
                ..m
            },
            EventModel::Continue,
        ),
        vm_exec(m, Insn::GtInt) == (
            VmModel {
                stack: m.stack.drop_last().drop_last().push(cmp_cell(y > x)),
                ..m
            },
            EventModel::Continue,
        ),
        vm_exec(m, Insn::LeInt) == (
            VmModel {
                stack: m.stack.drop_last().drop_last().push(cmp_cell(y <= x)),
                ..m
            },
            EventModel::Continue,
        ),
        vm_exec(m, Insn::GeInt) == (
            VmModel {
                stack: m.stack.drop_last().drop_last().push(cmp_cell(y >= x)),
                ..m
            },
            EventModel::Continue,
        ),
{
}

/// The integer cell a comparison leaves.
pub open spec fn cmp_cell(truth: bool) -> Cell {
    Cell::Int(
        if truth {
            1
        } else {
            0
        },
    )
}

/// Float operators keep the operand order at the boundary: the event
/// names the deeper cell `left` and the former top `right`, so the caller
/// computes `left OP right`; the resumes push the declared result kind
/// (a float cell after arithmetic, an integer 0 or 1 after a comparison).
pub proof fn lemma_float_ops_order(m: VmModel, x: u64, y: u64, op: FloatOp, cmp: FloatCmp)
    requires
        m.stack.len() >= 2,
        m.stack[m.stack.len() - 1] == Cell::Float(x),
        m.stack[m.stack.len() - 2] == Cell::Float(y),
    ensures
        vm_float_bin(m, op) == (
            VmModel { stack: m.stack.drop_last().drop_last(), pending: Pending::AwaitFloat, ..m },
            EventModel::WantFloat(FloatReq::Bin { op, left: y, right: x }),
        ),
        vm_float_cmp(m, cmp) == (
            VmModel { stack: m.stack.drop_last().drop_last(), pending: Pending::AwaitBool, ..m },
            EventModel::WantFloat(FloatReq::Cmp { op: cmp, left: y, right: x }),
        ),
        m.stack.len() <= m.stack_size ==> spec_resume_push(
            vm_float_bin(m, op).0,
            Cell::Float(0),
        ).0.stack.last() == Cell::Float(0u64),
{
}

/// String concatenation forms `y ++ x` — the deeper string first, the
/// former top second — and interns it as a fresh pool entry the new top
/// cell references.
pub proof fn lemma_add_str_concat(m: VmModel, sx: Seq<char>, sy: Seq<char>)
    requires
        m.pool.len() == m.marks.len(),
        m.stack.len() >= 2,
        resolve(m, m.stack[m.stack.len() - 1]) == Some(sx),
        resolve(m, m.stack[m.stack.len() - 2]) == Some(sy),
    ensures
        ({
            let (m2, ev) = vm_exec(m, Insn::AddString);
            let slot = spec_alloc(m.pool, m.marks, sy + sx).2;
            &&& ev == EventModel::Continue
            &&& 0 <= slot < m2.pool.len()
            &&& m2.stack == m.stack.drop_last().drop_last().push(Cell::Pool(slot as usize))
            &&& m2.pool[slot] == sy + sx
        }),
{
    lemma_first_free_bounds(m.marks, 0);
}

/// `first_free_from` stays within the marks.
pub proof fn lemma_first_free_bounds(marks: Seq<u8>, i: int)
    requires
        0 <= i <= marks.len(),
    ensures
        i <= first_free_from(marks, i) <= marks.len(),
    decreases marks.len() - i,
{
    if i < marks.len() && marks[i] != 0 {
        lemma_first_free_bounds(marks, i + 1);
    }
}

/// Loading a constant and printing it emits exactly that constant: from
/// any idle machine whose next instructions are `PUSH_I64 k; LOAD;
/// PRINT_STR` with `k` a valid index and one free stack cell, three steps
/// produce the constant on the output and leave the stack as it was.
pub proof fn lemma_const_print_roundtrip(m: VmModel, k: i64)
    requires
        vm_wf(m),
        !m.halted,
        m.pending == Pending::Idle,
        0 <= k < m.constants.len(),
        m.constants.len() <= usize::MAX,
        m.stack.len() < m.stack_size,
        m.pc + 14 <= m.code.len(),
        m.code.subrange(m.pc, m.pc + 14) == crate::compiler::insn_bytes(Insn::PushInt(k))
            + crate::compiler::insn_bytes(Insn::Load) + crate::compiler::insn_bytes(
            Insn::PrintString,
        ),
    ensures
        ({
            let (m1, e1) = spec_vm_step(m);
            let (m2, e2) = spec_vm_step(m1);
            let (m3, e3) = spec_vm_step(m2);
            &&& e1 == EventModel::Continue
            &&& e2 == EventModel::Continue
            &&& e3 == EventModel::PrintStr(m.constants[k as int])
            &&& m3.stack == m.stack
            &&& !m3.halted
        }),
{
    let b_push = crate::compiler::insn_bytes(Insn::PushInt(k));
    let b_load = crate::compiler::insn_bytes(Insn::Load);
    let b_print = crate::compiler::insn_bytes(Insn::PrintString);
    let whole = m.code.subrange(m.pc, m.pc + 14);
    crate::endian::lemma_u16_le_bytes_roundtrip(crate::compiler::spec_opcode(Insn::PushInt(k)));
    crate::endian::lemma_u16_le_bytes_roundtrip(crate::compiler::spec_opcode(Insn::Load));
    crate::endian::lemma_u16_le_bytes_roundtrip(crate::compiler::spec_opcode(Insn::PrintString));
    crate::endian::lemma_i64_le_bytes_roundtrip(k);
    assert(b_push.len() == 10 && b_load.len() == 2 && b_print.len() == 2);
    assert(whole == b_push + b_load + b_print);
    assert(m.code.subrange(m.pc, m.pc + 10) =~= whole.subrange(0, 10));
    assert(whole.subrange(0, 10) =~= b_push);
    crate::compiler::lemma_insn_roundtrip(m.code, m.pc, Insn::PushInt(k));
    let (m1, e1) = spec_vm_step(m);
    assert(m1.stack =~= m.stack.push(Cell::Int(k)));
    assert(m.code.subrange(m.pc + 10, m.pc + 12) =~= whole.subrange(10, 12));
    assert(whole.subrange(10, 12) =~= b_load);
    crate::compiler::lemma_insn_roundtrip(m.code, m.pc + 10, Insn::Load);
    let (m2, e2) = spec_vm_step(m1);
    assert(m2.stack =~= m.stack.push(Cell::Const(k as usize)));
    assert(m.code.subrange(m.pc + 12, m.pc + 14) =~= whole.subrange(12, 14));
    assert(whole.subrange(12, 14) =~= b_print);
    crate::compiler::lemma_insn_roundtrip(m.code, m.pc + 12, Insn::PrintString);
    let (m3, e3) = spec_vm_step(m2);
    assert(m3.stack =~= m.stack);
    assert(e1 == EventModel::Continue);
    assert(e2 == EventModel::Continue);
    assert(m2.stack.last() == Cell::Const(k as usize));
    assert(resolve(m2, Cell::Const(k as usize)) == Some(m.constants[k as int]));
    assert(e3 == EventModel::PrintStr(m.constants[k as int]));
    assert(!m3.halted);
}

} // verus!
