//! The bytecode verifier: a linear scan over the code bytes that replays
//! the program over abstract types, checking every instruction's arity and
//! operand types and computing the maximum stack depth. It does not follow
//! jumps; §the code is read strictly in byte order.

use crate::bytecode::Type;
use crate::compiler::{next_insn, InsnRead};
use crate::parser::Insn;
use vstd::prelude::*;

verus! {

/// Why verification rejected a binary.
#[derive(Clone, Copy, Debug, PartialEq, Eq, Structural)]
pub enum VerifyError {
    /// The code region's byte length is odd.
    MisalignedCode,
    /// An opcode outside the table.
    UnknownOpcode,
    /// An instruction needs more operands than the abstract stack holds.
    StackUnderflow,
    /// An operand's abstract type differs from the one the opcode declares.
    OperandTypeMismatch,
    /// A push opcode whose 8-byte immediate runs past the end of the code.
    TruncatedImmediate,
}

/// What one instruction does to the abstract type-stack.
pub open spec fn abs_step(stack: Seq<Type>, insn: Insn) -> Result<Seq<Type>, VerifyError> {
    match insn {
        Insn::Drop => {
            if stack.len() < 1 {
                Err(VerifyError::StackUnderflow)
            } else {
                Ok(stack.drop_last())
            }
        },
        Insn::Load => abs_take(stack, seq![Type::Int], Some(Type::String)),
        Insn::Swap => {
            if stack.len() < 2 {
                Err(VerifyError::StackUnderflow)
            } else {
                Ok(
                    stack.drop_last().drop_last().push(stack[stack.len() - 1]).push(
                        stack[stack.len() - 2],
                    ),
                )
            }
        },
        Insn::TriRot => {
            if stack.len() < 3 {
                Err(VerifyError::StackUnderflow)
            } else {
                let x = stack[stack.len() - 1];
                let y = stack[stack.len() - 2];
                let z = stack[stack.len() - 3];
                Ok(stack.drop_last().drop_last().drop_last().push(y).push(x).push(z))
            }
        },
        Insn::Dup => {
            if stack.len() < 1 {
                Err(VerifyError::StackUnderflow)
            } else {
                Ok(stack.push(stack[stack.len() - 1]))
            }
        },
        Insn::DiDup => {
            if stack.len() < 2 {
                Err(VerifyError::StackUnderflow)
            } else {
                Ok(stack.push(stack[stack.len() - 2]))
            }
        },
        Insn::TriDup => {
            if stack.len() < 3 {
                Err(VerifyError::StackUnderflow)
            } else {
                Ok(stack.push(stack[stack.len() - 3]))
            }
        },
        Insn::Jump => abs_take(stack, seq![Type::Int], None),
        Insn::JumpNotZero => abs_take(stack, seq![Type::Int, Type::Int], None),
        Insn::JumpZero => abs_take(stack, seq![Type::Int, Type::Int], None),
        Insn::Call => abs_take(stack, seq![Type::Int], None),
        Insn::PushInt(_) => Ok(stack.push(Type::Int)),
        Insn::PushFloat(_) => Ok(stack.push(Type::Float)),
        Insn::NumConvInt => abs_take(stack, seq![Type::Float], Some(Type::Int)),
        Insn::NumConvFloat => abs_take(stack, seq![Type::Int], Some(Type::Float)),
        Insn::Abort => Ok(stack),
        Insn::Exit => abs_take(stack, seq![Type::Int], None),
        Insn::Panic => abs_take(stack, seq![Type::String], None),
        Insn::Println => Ok(stack),
        Insn::Input => Ok(stack.push(Type::String)),
        Insn::Gc => Ok(stack),
        Insn::PrintInt => abs_take(stack, seq![Type::Int], None),
        Insn::PrintFloat => abs_take(stack, seq![Type::Float], None),
        Insn::PrintString => abs_take(stack, seq![Type::String], None),
        Insn::AddInt => abs_take(stack, seq![Type::Int, Type::Int], Some(Type::Int)),
        Insn::SubInt => abs_take(stack, seq![Type::Int, Type::Int], Some(Type::Int)),
        Insn::MulInt => abs_take(stack, seq![Type::Int, Type::Int], Some(Type::Int)),
        Insn::DivInt => abs_take(stack, seq![Type::Int, Type::Int], Some(Type::Int)),
        Insn::AddFloat => abs_take(stack, seq![Type::Float, Type::Float], Some(Type::Float)),
        Insn::SubFloat => abs_take(stack, seq![Type::Float, Type::Float], Some(Type::Float)),
        Insn::MulFloat => abs_take(stack, seq![Type::Float, Type::Float], Some(Type::Float)),
        Insn::DivFloat => abs_take(stack, seq![Type::Float, Type::Float], Some(Type::Float)),
        Insn::AddString => abs_take(stack, seq![Type::String, Type::String], Some(Type::String)),
        Insn::EqInt => abs_take(stack, seq![Type::Int, Type::Int], Some(Type::Int)),
        Insn::LtInt => abs_take(stack, seq![Type::Int, Type::Int], Some(Type::Int)),
        Insn::GtInt => abs_take(stack, seq![Type::Int, Type::Int], Some(Type::Int)),
        Insn::LeInt => abs_take(stack, seq![Type::Int, Type::Int], Some(Type::Int)),
        Insn::GeInt => abs_take(stack, seq![Type::Int, Type::Int], Some(Type::Int)),
        Insn::EqFloat => abs_take(stack, seq![Type::Float, Type::Float], Some(Type::Int)),
        Insn::LtFloat => abs_take(stack, seq![Type::Float, Type::Float], Some(Type::Int)),
        Insn::GtFloat => abs_take(stack, seq![Type::Float, Type::Float], Some(Type::Int)),
        Insn::LeFloat => abs_take(stack, seq![Type::Float, Type::Float], Some(Type::Int)),
        Insn::GeFloat => abs_take(stack, seq![Type::Float, Type::Float], Some(Type::Int)),
        Insn::EqString => abs_take(stack, seq![Type::String, Type::String], Some(Type::Int)),
    }
}

/// Consumes up to two operands of the given types (checked from the top
/// down) and pushes the result type if there is one.
pub open spec fn abs_take(stack: Seq<Type>, need: Seq<Type>, res: Option<Type>) -> Result<
    Seq<Type>,
    VerifyError,
> {
    if stack.len() < need.len() {
        Err(VerifyError::StackUnderflow)
    } else if need.len() >= 1 && stack[stack.len() - 1] != need[0] {
        Err(VerifyError::OperandTypeMismatch)
    } else if need.len() >= 2 && stack[stack.len() - 2] != need[1] {
        Err(VerifyError::OperandTypeMismatch)
    } else {
        let rest = stack.subrange(0, stack.len() - need.len());
        Ok(
            match res {
                Some(t) => rest.push(t),
                None => rest,
            },
        )
    }
}

/// The verifier's linear scan from `pos`: the abstract stack so far and the
/// running maximum depth, ending with the maximum and the final depth.
pub open spec fn check_from(code: Seq<u8>, pos: int, stack: Seq<Type>, mx: int) -> Result<
    (int, int),
    VerifyError,
>
    decreases code.len() - pos,
{
    match next_insn(code, pos) {
        InsnRead::AtEnd => Ok((mx, stack.len() as int)),
        InsnRead::Short => Ok((mx, stack.len() as int)),
        InsnRead::Unknown(_) => Err(VerifyError::UnknownOpcode),
        InsnRead::TruncImm => Err(VerifyError::TruncatedImmediate),
        InsnRead::Next(insn, p2) => {
            if p2 <= pos {
                Err(VerifyError::UnknownOpcode)
            } else {
                match abs_step(stack, insn) {
                    Err(e) => Err(e),
                    Ok(st2) => check_from(
                        code,
                        p2,
                        st2,
                        if st2.len() > mx {
                            st2.len() as int
                        } else {
                            mx
                        },
                    ),
                }
            }
        },
    }
}

/// What `check` returns on a code region: the maximum and final abstract
/// stack depth, or the first fault in byte order.
pub open spec fn spec_check(code: Seq<u8>) -> Result<(int, int), VerifyError> {
    if code.len() % 2 != 0 {
        Err(VerifyError::MisalignedCode)
    } else {
        check_from(code, 0, Seq::empty(), 0)
    }
}


/// The instructions handled by the shuffle group.
spec fn is_shuffle_insn(insn: Insn) -> bool {
    match insn {
        Insn::Drop | Insn::Swap | Insn::TriRot | Insn::Dup | Insn::DiDup | Insn::TriDup
        | Insn::PushInt(_) | Insn::PushFloat(_) | Insn::Abort | Insn::Println | Insn::Gc
        | Insn::Input => true,
        _ => false,
    }
}

/// The instructions handled by the one-operand group.
spec fn is_unary_insn(insn: Insn) -> bool {
    match insn {
        Insn::Load | Insn::Jump | Insn::Call | Insn::Exit | Insn::Panic | Insn::NumConvInt
        | Insn::NumConvFloat | Insn::PrintInt | Insn::PrintFloat | Insn::PrintString => true,
        _ => false,
    }
}

/// Applies one instruction to the executable abstract stack.
fn exec_abs_step(stack: &mut Vec<Type>, insn: Insn) -> (r: Result<(), VerifyError>)
    ensures
        match r {
            Ok(()) => abs_step(old(stack)@, insn) == Ok::<Seq<Type>, VerifyError>(final(stack)@)
                && final(stack)@.len() <= old(stack)@.len() + 1,
            Err(e) => abs_step(old(stack)@, insn) == Err::<Seq<Type>, VerifyError>(e)
                && final(stack)@ == old(stack)@,
        },
{
    match insn {
        Insn::Drop | Insn::Swap | Insn::TriRot | Insn::Dup | Insn::DiDup | Insn::TriDup
        | Insn::PushInt(_) | Insn::PushFloat(_) | Insn::Abort | Insn::Println | Insn::Gc
        | Insn::Input => exec_abs_shuffle(stack, insn),
        Insn::Load | Insn::Jump | Insn::Call | Insn::Exit | Insn::Panic | Insn::NumConvInt
        | Insn::NumConvFloat | Insn::PrintInt | Insn::PrintFloat | Insn::PrintString =>
            exec_abs_unary(stack, insn),
        _ => exec_abs_binary(stack, insn),
    }
}

/// The stack-shuffling and pushing instructions.
#[verifier::rlimit(100)]
#[verifier::spinoff_prover]
fn exec_abs_shuffle(stack: &mut Vec<Type>, insn: Insn) -> (r: Result<(), VerifyError>)
    requires
        is_shuffle_insn(insn),
    ensures
        match r {
            Ok(()) => abs_step(old(stack)@, insn) == Ok::<Seq<Type>, VerifyError>(final(stack)@)
                && final(stack)@.len() <= old(stack)@.len() + 1,
            Err(e) => abs_step(old(stack)@, insn) == Err::<Seq<Type>, VerifyError>(e)
                && final(stack)@ == old(stack)@,
        },
{
    match insn {
        Insn::Drop => {
            if stack.len() < 1 {
                return Err(VerifyError::StackUnderflow);
            }
            let _ = stack.pop();
            Ok(())
        },
        Insn::Swap => {
            if stack.len() < 2 {
                return Err(VerifyError::StackUnderflow);
            }
            let x = stack[stack.len() - 1];
            let y = stack[stack.len() - 2];
            let _ = stack.pop();
            let _ = stack.pop();
            stack.push(x);
            stack.push(y);
            proof {
                assert(stack@ =~= old(stack)@.drop_last().drop_last().push(x).push(y));
            }
            Ok(())
        },
        Insn::TriRot => {
            if stack.len() < 3 {
                return Err(VerifyError::StackUnderflow);
            }
            let x = stack[stack.len() - 1];
            let y = stack[stack.len() - 2];
            let z = stack[stack.len() - 3];
            let _ = stack.pop();
            let _ = stack.pop();
            let _ = stack.pop();
            stack.push(y);
            stack.push(x);
            stack.push(z);
            proof {
                assert(stack@ =~= old(stack)@.drop_last().drop_last().drop_last().push(y).push(
                    x,
                ).push(z));
            }
            Ok(())
        },
        Insn::Dup => {
            if stack.len() < 1 {
                return Err(VerifyError::StackUnderflow);
            }
            let x = stack[stack.len() - 1];
            stack.push(x);
            Ok(())
        },
        Insn::DiDup => {
            if stack.len() < 2 {
                return Err(VerifyError::StackUnderflow);
            }
            let x = stack[stack.len() - 2];
            stack.push(x);
            Ok(())
        },
        Insn::TriDup => {
            if stack.len() < 3 {
                return Err(VerifyError::StackUnderflow);
            }
            let x = stack[stack.len() - 3];
            stack.push(x);
            Ok(())
        },
        Insn::PushInt(_) => {
            stack.push(Type::Int);
            Ok(())
        },
        Insn::PushFloat(_) => {
            stack.push(Type::Float);
            Ok(())
        },
        Insn::Abort => Ok(()),
        Insn::Println => Ok(()),
        Insn::Gc => Ok(()),
        Insn::Input => {
            stack.push(Type::String);
            Ok(())
        },
        _ => Err(VerifyError::StackUnderflow),
    }
}

/// The instructions that take one typed operand.
#[verifier::rlimit(100)]
#[verifier::spinoff_prover]
fn exec_abs_unary(stack: &mut Vec<Type>, insn: Insn) -> (r: Result<(), VerifyError>)
    requires
        is_unary_insn(insn),
    ensures
        match r {
            Ok(()) => abs_step(old(stack)@, insn) == Ok::<Seq<Type>, VerifyError>(final(stack)@)
                && final(stack)@.len() <= old(stack)@.len() + 1,
            Err(e) => abs_step(old(stack)@, insn) == Err::<Seq<Type>, VerifyError>(e)
                && final(stack)@ == old(stack)@,
        },
{
    match insn {
        Insn::Load => exec_abs_take1(stack, Type::Int, Some(Type::String)),
        Insn::Jump => exec_abs_take1(stack, Type::Int, None),
        Insn::Call => exec_abs_take1(stack, Type::Int, None),
        Insn::Exit => exec_abs_take1(stack, Type::Int, None),
        Insn::Panic => exec_abs_take1(stack, Type::String, None),
        Insn::NumConvInt => exec_abs_take1(stack, Type::Float, Some(Type::Int)),
        Insn::NumConvFloat => exec_abs_take1(stack, Type::Int, Some(Type::Float)),
        Insn::PrintInt => exec_abs_take1(stack, Type::Int, None),
        Insn::PrintFloat => exec_abs_take1(stack, Type::Float, None),
        Insn::PrintString => exec_abs_take1(stack, Type::String, None),
        _ => Err(VerifyError::StackUnderflow),
    }
}

/// The instructions that take two typed operands.
#[verifier::rlimit(100)]
#[verifier::spinoff_prover]
fn exec_abs_binary(stack: &mut Vec<Type>, insn: Insn) -> (r: Result<(), VerifyError>)
    requires
        !is_shuffle_insn(insn),
        !is_unary_insn(insn),
    ensures
        match r {
            Ok(()) => abs_step(old(stack)@, insn) == Ok::<Seq<Type>, VerifyError>(final(stack)@)
                && final(stack)@.len() <= old(stack)@.len() + 1,
            Err(e) => abs_step(old(stack)@, insn) == Err::<Seq<Type>, VerifyError>(e)
                && final(stack)@ == old(stack)@,
        },
{
    match insn {
        Insn::JumpNotZero => exec_abs_take2(stack, Type::Int, Type::Int, None),
        Insn::JumpZero => exec_abs_take2(stack, Type::Int, Type::Int, None),
        Insn::AddInt => exec_abs_take2(stack, Type::Int, Type::Int, Some(Type::Int)),
        Insn::SubInt => exec_abs_take2(stack, Type::Int, Type::Int, Some(Type::Int)),
        Insn::MulInt => exec_abs_take2(stack, Type::Int, Type::Int, Some(Type::Int)),
        Insn::DivInt => exec_abs_take2(stack, Type::Int, Type::Int, Some(Type::Int)),
        Insn::AddFloat => exec_abs_take2(stack, Type::Float, Type::Float, Some(Type::Float)),
        Insn::SubFloat => exec_abs_take2(stack, Type::Float, Type::Float, Some(Type::Float)),
        Insn::MulFloat => exec_abs_take2(stack, Type::Float, Type::Float, Some(Type::Float)),
        Insn::DivFloat => exec_abs_take2(stack, Type::Float, Type::Float, Some(Type::Float)),
        Insn::AddString => exec_abs_take2(stack, Type::String, Type::String, Some(Type::String)),
        Insn::EqInt => exec_abs_take2(stack, Type::Int, Type::Int, Some(Type::Int)),
        Insn::LtInt => exec_abs_take2(stack, Type::Int, Type::Int, Some(Type::Int)),
        Insn::GtInt => exec_abs_take2(stack, Type::Int, Type::Int, Some(Type::Int)),
        Insn::LeInt => exec_abs_take2(stack, Type::Int, Type::Int, Some(Type::Int)),
        Insn::GeInt => exec_abs_take2(stack, Type::Int, Type::Int, Some(Type::Int)),
        Insn::EqFloat => exec_abs_take2(stack, Type::Float, Type::Float, Some(Type::Int)),
        Insn::LtFloat => exec_abs_take2(stack, Type::Float, Type::Float, Some(Type::Int)),
        Insn::GtFloat => exec_abs_take2(stack, Type::Float, Type::Float, Some(Type::Int)),
        Insn::LeFloat => exec_abs_take2(stack, Type::Float, Type::Float, Some(Type::Int)),
        Insn::GeFloat => exec_abs_take2(stack, Type::Float, Type::Float, Some(Type::Int)),
        Insn::EqString => exec_abs_take2(stack, Type::String, Type::String, Some(Type::Int)),
        _ => Err(VerifyError::StackUnderflow),
    }
}

/// Consumes one typed operand and pushes the result type if any.
fn exec_abs_take1(stack: &mut Vec<Type>, need: Type, res: Option<Type>) -> (r: Result<
    (),
    VerifyError,
>)
    ensures
        match r {
            Ok(()) => abs_take(old(stack)@, seq![need], res) == Ok::<Seq<Type>, VerifyError>(
                final(stack)@,
            ),
            Err(e) => abs_take(old(stack)@, seq![need], res) == Err::<Seq<Type>, VerifyError>(e)
                && final(stack)@ == old(stack)@,
        },
{
    if stack.len() < 1 {
        return Err(VerifyError::StackUnderflow);
    }
    let x = stack[stack.len() - 1];
    if x != need {
        return Err(VerifyError::OperandTypeMismatch);
    }
    let _ = stack.pop();
    match res {
        Some(t) => stack.push(t),
        None => {},
    }
    Ok(())
}

/// Consumes two typed operands (top first) and pushes the result type if
/// any.
fn exec_abs_take2(stack: &mut Vec<Type>, top: Type, second: Type, res: Option<Type>) -> (r: Result<
    (),
    VerifyError,
>)
    ensures
        match r {
            Ok(()) => abs_take(old(stack)@, seq![top, second], res) == Ok::<
                Seq<Type>,
                VerifyError,
            >(final(stack)@),
            Err(e) => abs_take(old(stack)@, seq![top, second], res) == Err::<
                Seq<Type>,
                VerifyError,
            >(e) && final(stack)@ == old(stack)@,
        },
{
    if stack.len() < 2 {
        return Err(VerifyError::StackUnderflow);
    }
    let x = stack[stack.len() - 1];
    if x != top {
        return Err(VerifyError::OperandTypeMismatch);
    }
    let y = stack[stack.len() - 2];
    if y != second {
        return Err(VerifyError::OperandTypeMismatch);
    }
    let _ = stack.pop();
    let _ = stack.pop();
    match res {
        Some(t) => stack.push(t),
        None => {},
    }
    proof {
        assert(stack@ =~= (match res {
            Some(t) => old(stack)@.subrange(0, old(stack)@.len() - 2).push(t),
            None => old(stack)@.subrange(0, old(stack)@.len() - 2),
        }));
    }
    Ok(())
}

/// Verifies a code region: checks alignment, replays the instructions over
/// abstract types in byte order, and returns the maximum and final stack
/// depth.
pub fn check(bytes: &Vec<u8>) -> (r: Result<(usize, usize), VerifyError>)
    ensures
        match r {
            Ok((mx, fin)) => spec_check(bytes@) == Ok::<(int, int), VerifyError>(
                (mx as int, fin as int),
            ),
            Err(e) => spec_check(bytes@) == Err::<(int, int), VerifyError>(e),
        },
{
    let len = bytes.len();
    if len % 2 != 0 {
        return Err(VerifyError::MisalignedCode);
    }
    let mut stack: Vec<Type> = Vec::new();
    let mut mx: usize = 0;
    let mut pos: usize = 0;
    while len - pos >= 2
        invariant
            0 <= pos <= len,
            len == bytes@.len(),
            len % 2 == 0,
            check_from(bytes@, pos as int, stack@, mx as int) == check_from(
                bytes@,
                0,
                Seq::<Type>::empty(),
                0,
            ),
        decreases len - pos,
    {
        let op = crate::endian::get_u16_le(bytes, pos);
        let ghost gpos = pos as int;
        let insn: Insn;
        let next: usize;
        if op == crate::bytecode::INSN_PUSH_I64 {
            if len - pos < 10 {
                return Err(VerifyError::TruncatedImmediate);
            }
            let v = crate::endian::get_i64_le(bytes, pos + 2);
            insn = Insn::PushInt(v);
            next = pos + 10;
        } else if op == crate::bytecode::INSN_PUSH_F64 {
            if len - pos < 10 {
                return Err(VerifyError::TruncatedImmediate);
            }
            let bits = crate::endian::get_u64_le(bytes, pos + 2);
            insn = Insn::PushFloat(bits);
            next = pos + 10;
        } else {
            match crate::util::opcode_insn(op) {
                Some(i) => {
                    insn = i;
                    next = pos + 2;
                },
                None => {
                    return Err(VerifyError::UnknownOpcode);
                },
            }
        }
        proof {
            assert(next_insn(bytes@, gpos) == InsnRead::Next(insn, next as int));
        }
        match exec_abs_step(&mut stack, insn) {
            Ok(()) => {},
            Err(e) => {
                return Err(e);
            },
        }
        if stack.len() > mx {
            mx = stack.len();
        }
        pos = next;
    }
    Ok((mx, stack.len()))
}

} // verus!
