//! What the verifier's acceptance buys at run time. The verifier reads
//! the code linearly and does not follow jumps, so its depth bound is a
//! theorem only of straight-line code: for jump-free programs it accepts,
//! the machine's stack depth never exceeds the computed maximum, however
//! many steps run.

use crate::bytecode::Type;
use crate::checker::{abs_step, check_from, spec_check};
use crate::compiler::{next_insn, InsnRead};
use crate::parser::Insn;
use crate::runtime::{cell_ok, spec_vm_step, vm_exec, vm_wf, Cell, EventModel, Pending, VmModel};
use vstd::prelude::*;

verus! {

/// The abstract type of a runtime cell: both string pools hold strings.
pub open spec fn cell_type(c: Cell) -> Type {
    match c {
        Cell::Int(_) => Type::Int,
        Cell::Float(_) => Type::Float,
        Cell::Const(_) => Type::String,
        Cell::Pool(_) => Type::String,
    }
}

/// The abstract type-stack a runtime stack realizes.
pub open spec fn types_of(stack: Seq<Cell>) -> Seq<Type> {
    Seq::new(stack.len(), |i: int| cell_type(stack[i]))
}

/// An instruction that neither branches nor waits on the caller: the
/// machine's next state is the next instruction in byte order, idle.
pub open spec fn direct_insn(i: Insn) -> bool {
    match i {
        Insn::Jump | Insn::JumpNotZero | Insn::JumpZero | Insn::Call | Insn::Input
        | Insn::NumConvInt | Insn::NumConvFloat | Insn::AddFloat | Insn::SubFloat
        | Insn::MulFloat | Insn::DivFloat | Insn::EqFloat | Insn::LtFloat | Insn::GtFloat
        | Insn::LeFloat | Insn::GeFloat => false,
        _ => true,
    }
}

/// Straight-line code from `pos` on: every decodable instruction is
/// direct.
pub open spec fn direct_code(code: Seq<u8>, pos: int) -> bool
    decreases code.len() - pos,
{
    match next_insn(code, pos) {
        InsnRead::Next(i, p2) => direct_insn(i) && (p2 > pos ==> direct_code(code, p2)),
        _ => true,
    }
}

/// The scan's running maximum never shrinks on acceptance.
proof fn lemma_check_from_max(code: Seq<u8>, pos: int, ts: Seq<Type>, dep: int)
    ensures
        match check_from(code, pos, ts, dep) {
            Ok((mx, _)) => dep <= mx,
            Err(_) => true,
        },
    decreases code.len() - pos,
{
    match next_insn(code, pos) {
        InsnRead::Next(insn, p2) => {
            if p2 > pos {
                match abs_step(ts, insn) {
                    Ok(st2) => {
                        lemma_check_from_max(
                            code,
                            p2,
                            st2,
                            if st2.len() > dep {
                                st2.len() as int
                            } else {
                                dep
                            },
                        );
                    },
                    Err(_) => {},
                }
            }
        },
        _ => {},
    }
}

/// One step of the machine under the scan's acceptance: the depth stays
/// within the maximum, the machine stays well formed and idle, and while
/// it runs the scan's acceptance carries to the next position.
#[verifier::rlimit(100)]
#[verifier::spinoff_prover]
proof fn lemma_step_preserves(m: VmModel, dep: int, mx: int, fin: int)
    requires
        vm_wf(m),
        !m.halted,
        m.pending == Pending::Idle,
        m.code.len() % 2 == 0,
        m.pc % 2 == 0,
        direct_code(m.code, m.pc),
        m.stack.len() <= dep,
        m.stack_size >= mx,
        check_from(m.code, m.pc, types_of(m.stack), dep) == Ok::<(int, int), crate::checker::VerifyError>((mx, fin)),
    ensures
        ({
            let (m2, ev) = spec_vm_step(m);
            &&& m2.stack.len() <= mx
            &&& m2.code == m.code
            &&& m2.stack_size == m.stack_size
            &&& m2.pending == Pending::Idle
            &&& m2.pc % 2 == 0
            &&& vm_wf(m2)
            &&& !m2.halted ==> direct_code(m.code, m2.pc) && (exists|dep2: int|
                m2.stack.len() <= dep2 && check_from(
                    m.code,
                    m2.pc,
                    types_of(m2.stack),
                    dep2,
                ) == Ok::<(int, int), crate::checker::VerifyError>((mx, fin)))
        }),
{
    lemma_check_from_max(m.code, m.pc, types_of(m.stack), dep);
    let ts = types_of(m.stack);
    match next_insn(m.code, m.pc) {
        InsnRead::AtEnd => {
        },
        InsnRead::Short => {
            assert(false);
        },
        InsnRead::TruncImm => {
        },
        InsnRead::Unknown(_) => {
        },
        InsnRead::Next(insn, p2) => {
            assert(p2 > m.pc && p2 % 2 == 0 && p2 <= m.code.len());
            let m1 = VmModel { pc: p2, ..m };
            let st2 = match abs_step(ts, insn) {
                Ok(s) => s,
                Err(_) => {
                    assert(false);
                    ts
                },
            };
            let dep2 = if st2.len() > dep {
                st2.len() as int
            } else {
                dep
            };
            lemma_check_from_max(m.code, p2, st2, dep2);
            assert(st2.len() <= mx);
            let (m2, ev) = vm_exec(m1, insn);
            match insn {
                Insn::Drop => {
                    assert(types_of(m.stack.drop_last()) =~= ts.drop_last());
                    assert(ts.drop_last() =~= ts.subrange(0, ts.len() - 1));
                    assert(types_of(m2.stack) == st2);
                },
                Insn::Load => {
                    assert(cell_type(m.stack.last()) == Type::Int);
                    match m.stack.last() {
                        Cell::Int(i) => {
                            if 0 <= i < m.constants.len() {
                                assert(types_of(m.stack.drop_last().push(
                                    Cell::Const(i as usize),
                                )) =~= st2);
                            }
                        },
                        _ => {
                            assert(false);
                        },
                    }
                },
                Insn::Swap => {
                    assert(types_of(m2.stack) =~= st2);
                },
                Insn::TriRot => {
                    assert(types_of(m2.stack) =~= st2);
                },
                Insn::Dup => {
                    assert(st2.len() <= m.stack_size);
                    assert(types_of(m2.stack) =~= st2);
                },
                Insn::DiDup => {
                    assert(st2.len() <= m.stack_size);
                    assert(types_of(m2.stack) =~= st2);
                },
                Insn::TriDup => {
                    assert(st2.len() <= m.stack_size);
                    assert(types_of(m2.stack) =~= st2);
                },
                Insn::PushInt(_) => {
                    assert(st2.len() <= m.stack_size);
                    assert(types_of(m2.stack) =~= st2);
                },
                Insn::PushFloat(_) => {
                    assert(st2.len() <= m.stack_size);
                    assert(types_of(m2.stack) =~= st2);
                },
                Insn::Abort => {
                },
                Insn::Exit => {
                    assert(cell_type(m.stack.last()) == Type::Int);
                },
                Insn::Panic => {
                    assert(cell_type(m.stack.last()) == Type::String);
                    assert(cell_ok(m.stack.last(), m));
                },
                Insn::Println => {
                    assert(types_of(m2.stack) =~= st2);
                },
                Insn::Gc => {
                    assert(types_of(m2.stack) =~= st2);
                    assert(m2.pool.len() == m.pool.len());
                    assert(vm_wf(m2));
                },
                Insn::PrintInt => {
                    assert(cell_type(m.stack.last()) == Type::Int);
                    assert(types_of(m2.stack) =~= st2);
                },
                Insn::PrintFloat => {
                    assert(cell_type(m.stack.last()) == Type::Float);
                    assert(types_of(m2.stack) =~= st2);
                },
                Insn::PrintString => {
                    assert(cell_type(m.stack.last()) == Type::String);
                    assert(cell_ok(m.stack.last(), m));
                    assert(types_of(m2.stack) =~= st2);
                },
                Insn::AddInt | Insn::SubInt | Insn::MulInt | Insn::DivInt => {
                    assert(cell_type(m.stack[m.stack.len() - 1]) == Type::Int);
                    assert(cell_type(m.stack[m.stack.len() - 2]) == Type::Int);
                    if !m2.halted {
                        assert(types_of(m2.stack) =~= st2);
                    }
                },
                Insn::AddString => {
                    assert(cell_type(m.stack[m.stack.len() - 1]) == Type::String);
                    assert(cell_type(m.stack[m.stack.len() - 2]) == Type::String);
                    assert(cell_ok(m.stack[m.stack.len() - 1], m));
                    assert(cell_ok(m.stack[m.stack.len() - 2], m));
                    crate::runtime::lemma_first_free_bounds(m.marks, 0);
                    assert(types_of(m2.stack) =~= st2);
                    assert(vm_wf(m2)) by {
                        assert(forall|q: int|
                            0 <= q < m2.stack.len() ==> cell_ok(#[trigger] m2.stack[q], m2));
                    }
                },
                Insn::EqString => {
                    assert(cell_type(m.stack[m.stack.len() - 1]) == Type::String);
                    assert(cell_type(m.stack[m.stack.len() - 2]) == Type::String);
                    assert(cell_ok(m.stack[m.stack.len() - 1], m));
                    assert(cell_ok(m.stack[m.stack.len() - 2], m));
                    assert(types_of(m2.stack) =~= st2);
                },
                Insn::EqInt | Insn::LtInt | Insn::GtInt | Insn::LeInt | Insn::GeInt => {
                    assert(cell_type(m.stack[m.stack.len() - 1]) == Type::Int);
                    assert(cell_type(m.stack[m.stack.len() - 2]) == Type::Int);
                    assert(types_of(m2.stack) =~= st2);
                },
                _ => {
                    assert(false);
                },
            }
            assert(m2.stack.len() <= mx);
            if !m2.halted {
                assert(types_of(m2.stack) == st2);
                assert(m2.stack.len() <= dep2);
            }
        },
    }
}

/// The machine after `n` steps, stepping only while it is running and
/// idle.
pub open spec fn run_n(m: VmModel, n: nat) -> VmModel
    decreases n,
{
    if n == 0 {
        m
    } else if m.halted || m.pending != Pending::Idle {
        m
    } else {
        run_n(spec_vm_step(m).0, (n - 1) as nat)
    }
}

proof fn lemma_run_n_depth(m: VmModel, dep: int, mx: int, fin: int, n: nat)
    requires
        vm_wf(m),
        m.pending == Pending::Idle,
        m.code.len() % 2 == 0,
        m.pc % 2 == 0,
        m.stack.len() <= dep,
        dep <= mx,
        m.stack_size >= mx,
        !m.halted ==> direct_code(m.code, m.pc) && check_from(
            m.code,
            m.pc,
            types_of(m.stack),
            dep,
        ) == Ok::<(int, int), crate::checker::VerifyError>((mx, fin)),
    ensures
        run_n(m, n).stack.len() <= mx,
    decreases n,
{
    if n == 0 || m.halted {
    } else {
        lemma_step_preserves(m, dep, mx, fin);
        let (m2, _) = spec_vm_step(m);
        if m2.halted {
            lemma_run_halted(m2, (n - 1) as nat);
        } else {
            let dep2 = choose|dep2: int|
                m2.stack.len() <= dep2 && check_from(m.code, m2.pc, types_of(m2.stack), dep2)
                    == Ok::<(int, int), crate::checker::VerifyError>((mx, fin));
            lemma_check_from_max(m.code, m2.pc, types_of(m2.stack), dep2);
            lemma_run_n_depth(m2, dep2, mx, fin, (n - 1) as nat);
        }
    }
}

proof fn lemma_run_halted(m: VmModel, n: nat)
    requires
        m.halted,
    ensures
        run_n(m, n) == m,
    decreases n,
{
    if n > 0 {
        lemma_run_halted(m, (n - 1) as nat);
    }
}

/// The freshly created machine over a code region.
pub open spec fn init_model(code: Seq<u8>, constants: Seq<Seq<char>>, stack_size: int) -> VmModel {
    VmModel {
        stack: Seq::empty(),
        pc: 0,
        code,
        stack_size,
        constants,
        pool: Seq::empty(),
        marks: Seq::empty(),
        pending: Pending::Idle,
        halted: false,
    }
}

/// Verification bounds the run-time stack: on straight-line code the
/// verifier accepts with maximum depth `mx`, a machine whose stack holds
/// at least `mx` cells never exceeds depth `mx`, however many steps it
/// takes — and the stack pointer never dips below its base, since the
/// depth is a length.
pub proof fn lemma_verified_depth_bound(
    code: Seq<u8>,
    constants: Seq<Seq<char>>,
    stack_size: int,
    mx: int,
    fin: int,
    n: nat,
)
    requires
        direct_code(code, 0),
        spec_check(code) == Ok::<(int, int), crate::checker::VerifyError>((mx, fin)),
        stack_size >= mx,
    ensures
        run_n(init_model(code, constants, stack_size), n).stack.len() <= mx,
{
    let m0 = init_model(code, constants, stack_size);
    assert(types_of(m0.stack) =~= Seq::<Type>::empty());
    lemma_check_from_max(code, 0, types_of(m0.stack), 0);
    lemma_run_n_depth(m0, 0, mx, fin, n);
}

} // verus!
