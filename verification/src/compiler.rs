//! Serialization of a `PreBinary` into the on-wire form: a little-endian
//! 64-bit count of constants, then each constant as a 64-bit byte length
//! followed by its UTF-8 bytes, then the raw instruction stream of 2-byte
//! opcodes with 0 or 8 bytes of immediate.

use crate::bytecode::{INSN_ABORT, INSN_ADD_F64, INSN_ADD_I64, INSN_ADD_STR, INSN_CALL, INSN_DDUP,
    INSN_DIV_F64, INSN_DIV_I64, INSN_DROP, INSN_DUP, INSN_EQ_F64, INSN_EQ_I64, INSN_EQ_STR,
    INSN_EXIT, INSN_GC, INSN_GE_F64, INSN_GE_I64, INSN_GT_F64, INSN_GT_I64, INSN_INPUT, INSN_J,
    INSN_JNZ, INSN_JZ, INSN_LE_F64, INSN_LE_I64, INSN_LOAD, INSN_LT_F64, INSN_LT_I64,
    INSN_MUL_F64, INSN_MUL_I64, INSN_NUMCONV_F64, INSN_NUMCONV_I64, INSN_PANIC, INSN_PRINTLN,
    INSN_PRINT_F64, INSN_PRINT_I64, INSN_PRINT_STR, INSN_PUSH_F64, INSN_PUSH_I64, INSN_SUB_F64,
    INSN_SUB_I64, INSN_SWAP, INSN_TDUP, INSN_TROT};
use crate::parser::{Insn, PreBinary};
use vstd::bytes::{spec_u16_from_le_bytes, spec_u16_to_le_bytes, spec_u64_from_le_bytes,
    spec_u64_to_le_bytes};
use vstd::prelude::*;
use vstd::string::StrSliceExecFns;
use vstd::utf8::encode_utf8;

verus! {

/// The 16-bit opcode of an instruction.
pub open spec fn spec_opcode(i: Insn) -> u16 {
    match i {
        Insn::Drop => INSN_DROP,
        Insn::Load => INSN_LOAD,
        Insn::Swap => INSN_SWAP,
        Insn::Dup => INSN_DUP,
        Insn::Jump => INSN_J,
        Insn::JumpNotZero => INSN_JNZ,
        Insn::JumpZero => INSN_JZ,
        Insn::Call => INSN_CALL,
        Insn::PushInt(_) => INSN_PUSH_I64,
        Insn::PushFloat(_) => INSN_PUSH_F64,
        Insn::NumConvInt => INSN_NUMCONV_I64,
        Insn::NumConvFloat => INSN_NUMCONV_F64,
        Insn::TriRot => INSN_TROT,
        Insn::DiDup => INSN_DDUP,
        Insn::TriDup => INSN_TDUP,
        Insn::Abort => INSN_ABORT,
        Insn::Exit => INSN_EXIT,
        Insn::Panic => INSN_PANIC,
        Insn::Println => INSN_PRINTLN,
        Insn::Input => INSN_INPUT,
        Insn::Gc => INSN_GC,
        Insn::PrintInt => INSN_PRINT_I64,
        Insn::PrintFloat => INSN_PRINT_F64,
        Insn::PrintString => INSN_PRINT_STR,
        Insn::AddInt => INSN_ADD_I64,
        Insn::SubInt => INSN_SUB_I64,
        Insn::MulInt => INSN_MUL_I64,
        Insn::DivInt => INSN_DIV_I64,
        Insn::AddFloat => INSN_ADD_F64,
        Insn::SubFloat => INSN_SUB_F64,
        Insn::MulFloat => INSN_MUL_F64,
        Insn::DivFloat => INSN_DIV_F64,
        Insn::AddString => INSN_ADD_STR,
        Insn::EqInt => INSN_EQ_I64,
        Insn::LtInt => INSN_LT_I64,
        Insn::GtInt => INSN_GT_I64,
        Insn::LeInt => INSN_LE_I64,
        Insn::GeInt => INSN_GE_I64,
        Insn::EqFloat => INSN_EQ_F64,
        Insn::LtFloat => INSN_LT_F64,
        Insn::GtFloat => INSN_GT_F64,
        Insn::LeFloat => INSN_LE_F64,
        Insn::GeFloat => INSN_GE_F64,
        Insn::EqString => INSN_EQ_STR,
    }
}

/// The nullary instruction an opcode denotes, if any; the two push opcodes
/// carry immediates and are decoded separately.
pub open spec fn insn_of_opcode(op: u16) -> Option<Insn> {
    if op == INSN_DROP {
        Some(Insn::Drop)
    } else if op == INSN_LOAD {
        Some(Insn::Load)
    } else if op == INSN_SWAP {
        Some(Insn::Swap)
    } else if op == INSN_DUP {
        Some(Insn::Dup)
    } else if op == INSN_J {
        Some(Insn::Jump)
    } else if op == INSN_JNZ {
        Some(Insn::JumpNotZero)
    } else if op == INSN_JZ {
        Some(Insn::JumpZero)
    } else if op == INSN_CALL {
        Some(Insn::Call)
    } else if op == INSN_NUMCONV_I64 {
        Some(Insn::NumConvInt)
    } else if op == INSN_NUMCONV_F64 {
        Some(Insn::NumConvFloat)
    } else if op == INSN_TROT {
        Some(Insn::TriRot)
    } else if op == INSN_DDUP {
        Some(Insn::DiDup)
    } else if op == INSN_TDUP {
        Some(Insn::TriDup)
    } else if op == INSN_ABORT {
        Some(Insn::Abort)
    } else if op == INSN_EXIT {
        Some(Insn::Exit)
    } else if op == INSN_PANIC {
        Some(Insn::Panic)
    } else if op == INSN_PRINTLN {
        Some(Insn::Println)
    } else if op == INSN_INPUT {
        Some(Insn::Input)
    } else if op == INSN_GC {
        Some(Insn::Gc)
    } else if op == INSN_PRINT_I64 {
        Some(Insn::PrintInt)
    } else if op == INSN_PRINT_F64 {
        Some(Insn::PrintFloat)
    } else if op == INSN_PRINT_STR {
        Some(Insn::PrintString)
    } else if op == INSN_ADD_I64 {
        Some(Insn::AddInt)
    } else if op == INSN_SUB_I64 {
        Some(Insn::SubInt)
    } else if op == INSN_MUL_I64 {
        Some(Insn::MulInt)
    } else if op == INSN_DIV_I64 {
        Some(Insn::DivInt)
    } else if op == INSN_ADD_F64 {
        Some(Insn::AddFloat)
    } else if op == INSN_SUB_F64 {
        Some(Insn::SubFloat)
    } else if op == INSN_MUL_F64 {
        Some(Insn::MulFloat)
    } else if op == INSN_DIV_F64 {
        Some(Insn::DivFloat)
    } else if op == INSN_ADD_STR {
        Some(Insn::AddString)
    } else if op == INSN_EQ_I64 {
        Some(Insn::EqInt)
    } else if op == INSN_LT_I64 {
        Some(Insn::LtInt)
    } else if op == INSN_GT_I64 {
        Some(Insn::GtInt)
    } else if op == INSN_LE_I64 {
        Some(Insn::LeInt)
    } else if op == INSN_GE_I64 {
        Some(Insn::GeInt)
    } else if op == INSN_EQ_F64 {
        Some(Insn::EqFloat)
    } else if op == INSN_LT_F64 {
        Some(Insn::LtFloat)
    } else if op == INSN_GT_F64 {
        Some(Insn::GtFloat)
    } else if op == INSN_LE_F64 {
        Some(Insn::LeFloat)
    } else if op == INSN_GE_F64 {
        Some(Insn::GeFloat)
    } else if op == INSN_EQ_STR {
        Some(Insn::EqString)
    } else {
        None
    }
}

/// The bytes one instruction occupies: the opcode, then an 8-byte
/// little-endian immediate for the two pushes.
pub open spec fn insn_bytes(i: Insn) -> Seq<u8> {
    match i {
        Insn::PushInt(v) => spec_u16_to_le_bytes(INSN_PUSH_I64) + crate::endian::spec_i64_to_le_bytes(v),
        Insn::PushFloat(bits) => spec_u16_to_le_bytes(INSN_PUSH_F64) + spec_u64_to_le_bytes(bits),
        _ => spec_u16_to_le_bytes(spec_opcode(i)),
    }
}

/// The raw concatenation of the instructions' bytes.
pub open spec fn insns_bytes(s: Seq<Insn>) -> Seq<u8>
    decreases s.len(),
{
    if s.len() == 0 {
        Seq::empty()
    } else {
        insn_bytes(s[0]) + insns_bytes(s.drop_first())
    }
}

/// One serialized constant: its UTF-8 byte length as a little-endian u64,
/// then those bytes.
pub open spec fn const_bytes(c: Seq<char>) -> Seq<u8> {
    spec_u64_to_le_bytes(encode_utf8(c).len() as u64) + encode_utf8(c)
}

/// The serialized constant table, in order.
pub open spec fn consts_bytes(cs: Seq<Seq<char>>) -> Seq<u8>
    decreases cs.len(),
{
    if cs.len() == 0 {
        Seq::empty()
    } else {
        const_bytes(cs[0]) + consts_bytes(cs.drop_first())
    }
}

/// The whole binary: constant count, constant table, instruction stream.
pub open spec fn spec_compile(constants: Seq<Seq<char>>, instructions: Seq<Insn>) -> Seq<u8> {
    spec_u64_to_le_bytes(constants.len() as u64) + consts_bytes(constants) + insns_bytes(
        instructions,
    )
}

proof fn lemma_insns_bytes_snoc(s: Seq<Insn>, x: Insn)
    ensures
        insns_bytes(s.push(x)) == insns_bytes(s) + insn_bytes(x),
    decreases s.len(),
{
    if s.len() == 0 {
        assert(s.push(x)[0] == x);
        assert(s.push(x).drop_first() =~= Seq::<Insn>::empty());
        assert(insns_bytes(Seq::<Insn>::empty()) =~= Seq::<u8>::empty());
        assert(insns_bytes(s.push(x)) =~= insn_bytes(x));
        assert(insns_bytes(s) + insn_bytes(x) =~= insn_bytes(x));
    } else {
        assert(s.push(x)[0] == s[0]);
        assert(s.push(x).drop_first() =~= s.drop_first().push(x));
        lemma_insns_bytes_snoc(s.drop_first(), x);
        assert(insns_bytes(s.push(x)) =~= insns_bytes(s) + insn_bytes(x));
    }
}

proof fn lemma_consts_bytes_snoc(cs: Seq<Seq<char>>, x: Seq<char>)
    ensures
        consts_bytes(cs.push(x)) == consts_bytes(cs) + const_bytes(x),
    decreases cs.len(),
{
    if cs.len() == 0 {
        assert(cs.push(x)[0] == x);
        assert(cs.push(x).drop_first() =~= Seq::<Seq<char>>::empty());
        assert(consts_bytes(Seq::<Seq<char>>::empty()) =~= Seq::<u8>::empty());
        assert(consts_bytes(cs.push(x)) =~= const_bytes(x));
        assert(consts_bytes(cs) + const_bytes(x) =~= const_bytes(x));
    } else {
        assert(cs.push(x)[0] == cs[0]);
        assert(cs.push(x).drop_first() =~= cs.drop_first().push(x));
        lemma_consts_bytes_snoc(cs.drop_first(), x);
        assert(consts_bytes(cs.push(x)) =~= consts_bytes(cs) + const_bytes(x));
    }
}

/// Serializes a `PreBinary` to the on-wire byte form, appending to `write`.
pub fn compile(write: &mut Vec<u8>, pre_binary: &PreBinary)
    ensures
        final(write)@ == old(write)@ + spec_compile(
            pre_binary.constants.deep_view(),
            pre_binary.instructions@,
        ),
{
    let ghost base = write@;
    let ghost cd = pre_binary.constants.deep_view();
    proof {
        assert(cd.len() == pre_binary.constants@.len());
    }
    crate::endian::put_u64_le(write, pre_binary.constants.len() as u64);
    let ghost hdr = write@;
    let mut i: usize = 0;
    proof {
        assert(consts_bytes(cd.take(0)) =~= Seq::<u8>::empty());
        assert(write@ =~= hdr + consts_bytes(cd.take(0)));
    }
    while i < pre_binary.constants.len()
        invariant
            0 <= i <= pre_binary.constants@.len(),
            cd == pre_binary.constants.deep_view(),
            cd.len() == pre_binary.constants@.len(),
            write@ == hdr + consts_bytes(cd.take(i as int)),
        decreases cd.len() - i,
    {
        let c: &String = &pre_binary.constants[i];
        proof {
            assert(cd[i as int] =~= c@);
        }
        let bs = c.as_str().as_bytes();
        crate::endian::put_u64_le(write, bs.len() as u64);
        write.extend_from_slice(bs);
        proof {
            assert(cd.take(i as int + 1).drop_last() =~= cd.take(i as int));
            lemma_consts_bytes_snoc(cd.take(i as int), cd[i as int]);
            assert(cd.take(i as int + 1) =~= cd.take(i as int).push(cd[i as int]));
            assert(write@ =~= hdr + consts_bytes(cd.take(i as int + 1)));
        }
        i = i + 1;
    }
    proof {
        assert(cd.take(cd.len() as int) =~= cd);
    }
    let ghost mid = write@;
    let mut j: usize = 0;
    proof {
        assert(insns_bytes(pre_binary.instructions@.take(0)) =~= Seq::<u8>::empty());
        assert(write@ =~= mid + insns_bytes(pre_binary.instructions@.take(0)));
    }
    while j < pre_binary.instructions.len()
        invariant
            0 <= j <= pre_binary.instructions@.len(),
            mid == hdr + consts_bytes(cd),
            cd == pre_binary.constants.deep_view(),
            write@ == mid + insns_bytes(pre_binary.instructions@.take(j as int)),
        decreases pre_binary.instructions@.len() - j,
    {
        let insn = pre_binary.instructions[j];
        emit_insn(write, insn);
        proof {
            let iv = pre_binary.instructions@;
            assert(iv.take(j as int + 1) =~= iv.take(j as int).push(iv[j as int]));
            lemma_insns_bytes_snoc(iv.take(j as int), iv[j as int]);
            assert(write@ =~= mid + insns_bytes(iv.take(j as int + 1)));
        }
        j = j + 1;
    }
    proof {
        let iv = pre_binary.instructions@;
        assert(iv.take(iv.len() as int) =~= iv);
        assert(write@ =~= base + spec_compile(cd, iv));
    }
}

/// Emits one instruction's opcode and immediate.
fn emit_insn(write: &mut Vec<u8>, insn: Insn)
    ensures
        final(write)@ == old(write)@ + insn_bytes(insn),
{
    match insn {
        Insn::PushInt(v) => {
            crate::endian::put_u16_le(write, INSN_PUSH_I64);
            crate::endian::put_i64_le(write, v);
            proof {
                assert(write@ =~= old(write)@ + insn_bytes(insn));
            }
        },
        Insn::PushFloat(bits) => {
            crate::endian::put_u16_le(write, INSN_PUSH_F64);
            crate::endian::put_u64_le(write, bits);
            proof {
                assert(write@ =~= old(write)@ + insn_bytes(insn));
            }
        },
        Insn::Drop => crate::endian::put_u16_le(write, INSN_DROP),
        Insn::Load => crate::endian::put_u16_le(write, INSN_LOAD),
        Insn::Swap => crate::endian::put_u16_le(write, INSN_SWAP),
        Insn::Dup => crate::endian::put_u16_le(write, INSN_DUP),
        Insn::Jump => crate::endian::put_u16_le(write, INSN_J),
        Insn::JumpNotZero => crate::endian::put_u16_le(write, INSN_JNZ),
        Insn::JumpZero => crate::endian::put_u16_le(write, INSN_JZ),
        Insn::Call => crate::endian::put_u16_le(write, INSN_CALL),
        Insn::NumConvInt => crate::endian::put_u16_le(write, INSN_NUMCONV_I64),
        Insn::NumConvFloat => crate::endian::put_u16_le(write, INSN_NUMCONV_F64),
        Insn::TriRot => crate::endian::put_u16_le(write, INSN_TROT),
        Insn::DiDup => crate::endian::put_u16_le(write, INSN_DDUP),
        Insn::TriDup => crate::endian::put_u16_le(write, INSN_TDUP),
        Insn::Abort => crate::endian::put_u16_le(write, INSN_ABORT),
        Insn::Exit => crate::endian::put_u16_le(write, INSN_EXIT),
        Insn::Panic => crate::endian::put_u16_le(write, INSN_PANIC),
        Insn::Println => crate::endian::put_u16_le(write, INSN_PRINTLN),
        Insn::Input => crate::endian::put_u16_le(write, INSN_INPUT),
        Insn::Gc => crate::endian::put_u16_le(write, INSN_GC),
        Insn::PrintInt => crate::endian::put_u16_le(write, INSN_PRINT_I64),
        Insn::PrintFloat => crate::endian::put_u16_le(write, INSN_PRINT_F64),
        Insn::PrintString => crate::endian::put_u16_le(write, INSN_PRINT_STR),
        Insn::AddInt => crate::endian::put_u16_le(write, INSN_ADD_I64),
        Insn::SubInt => crate::endian::put_u16_le(write, INSN_SUB_I64),
        Insn::MulInt => crate::endian::put_u16_le(write, INSN_MUL_I64),
        Insn::DivInt => crate::endian::put_u16_le(write, INSN_DIV_I64),
        Insn::AddFloat => crate::endian::put_u16_le(write, INSN_ADD_F64),
        Insn::SubFloat => crate::endian::put_u16_le(write, INSN_SUB_F64),
        Insn::MulFloat => crate::endian::put_u16_le(write, INSN_MUL_F64),
        Insn::DivFloat => crate::endian::put_u16_le(write, INSN_DIV_F64),
        Insn::AddString => crate::endian::put_u16_le(write, INSN_ADD_STR),
        Insn::EqInt => crate::endian::put_u16_le(write, INSN_EQ_I64),
        Insn::LtInt => crate::endian::put_u16_le(write, INSN_LT_I64),
        Insn::GtInt => crate::endian::put_u16_le(write, INSN_GT_I64),
        Insn::LeInt => crate::endian::put_u16_le(write, INSN_LE_I64),
        Insn::GeInt => crate::endian::put_u16_le(write, INSN_GE_I64),
        Insn::EqFloat => crate::endian::put_u16_le(write, INSN_EQ_F64),
        Insn::LtFloat => crate::endian::put_u16_le(write, INSN_LT_F64),
        Insn::GtFloat => crate::endian::put_u16_le(write, INSN_GT_F64),
        Insn::LeFloat => crate::endian::put_u16_le(write, INSN_LE_F64),
        Insn::GeFloat => crate::endian::put_u16_le(write, INSN_GE_F64),
        Insn::EqString => crate::endian::put_u16_le(write, INSN_EQ_STR),
    }
}

/// What sits at a code position: the end of the stream, a lone trailing
/// byte, an unknown opcode, a push whose immediate is cut short, or one
/// decoded instruction with the following position.
pub enum InsnRead {
    AtEnd,
    Short,
    Unknown(u16),
    TruncImm,
    Next(Insn, int),
}

/// Decodes the instruction starting at `pos`.
pub open spec fn next_insn(code: Seq<u8>, pos: int) -> InsnRead {
    if pos < 0 || pos >= code.len() {
        InsnRead::AtEnd
    } else if pos + 2 > code.len() {
        InsnRead::Short
    } else {
        let op = spec_u16_from_le_bytes(code.subrange(pos, pos + 2));
        if op == INSN_PUSH_I64 {
            if pos + 10 > code.len() {
                InsnRead::TruncImm
            } else {
                InsnRead::Next(
                    Insn::PushInt(
                        crate::endian::spec_i64_from_le_bytes(code.subrange(pos + 2, pos + 10)),
                    ),
                    pos + 10,
                )
            }
        } else if op == INSN_PUSH_F64 {
            if pos + 10 > code.len() {
                InsnRead::TruncImm
            } else {
                InsnRead::Next(
                    Insn::PushFloat(spec_u64_from_le_bytes(code.subrange(pos + 2, pos + 10))),
                    pos + 10,
                )
            }
        } else {
            match insn_of_opcode(op) {
                Some(i) => InsnRead::Next(i, pos + 2),
                None => InsnRead::Unknown(op),
            }
        }
    }
}

/// Decoding makes progress: a decoded instruction ends after it begins.
pub proof fn lemma_next_insn_advances(code: Seq<u8>, pos: int)
    ensures
        match next_insn(code, pos) {
            InsnRead::Next(_, p2) => pos + 2 <= p2 <= code.len(),
            _ => true,
        },
{
}

/// The instruction sequence a whole code region decodes to.
pub open spec fn read_insns_from(code: Seq<u8>, pos: int) -> Option<Seq<Insn>>
    decreases code.len() - pos,
{
    match next_insn(code, pos) {
        InsnRead::AtEnd => Some(Seq::empty()),
        InsnRead::Next(i, p2) => {
            if p2 <= pos {
                None
            } else {
                match read_insns_from(code, p2) {
                    Some(rest) => Some(seq![i] + rest),
                    None => None,
                }
            }
        },
        _ => None,
    }
}

/// Serializing one instruction and decoding it yields the instruction back.
pub proof fn lemma_insn_roundtrip(bytes: Seq<u8>, pos: int, i: Insn)
    requires
        0 <= pos,
        pos + insn_bytes(i).len() <= bytes.len(),
        bytes.subrange(pos, pos + insn_bytes(i).len()) == insn_bytes(i),
    ensures
        next_insn(bytes, pos) == InsnRead::Next(i, pos + insn_bytes(i).len()),
{
    let enc = insn_bytes(i);
    crate::endian::lemma_u16_le_bytes_roundtrip(spec_opcode(i));
    assert(bytes.subrange(pos, pos + 2) =~= spec_u16_to_le_bytes(spec_opcode(i))) by {
        assert forall|q: int| 0 <= q < 2 implies bytes.subrange(pos, pos + 2)[q]
            == spec_u16_to_le_bytes(spec_opcode(i))[q] by {
            assert(bytes.subrange(pos, pos + enc.len() as int)[q] == enc[q]);
        }
    }
    match i {
        Insn::PushInt(v) => {
            crate::endian::lemma_i64_le_bytes_roundtrip(v);
            assert(bytes.subrange(pos + 2, pos + 10) =~= crate::endian::spec_i64_to_le_bytes(
                v,
            )) by {
                assert forall|q: int| 0 <= q < 8 implies bytes.subrange(pos + 2, pos + 10)[q]
                    == crate::endian::spec_i64_to_le_bytes(v)[q] by {
                    assert(bytes.subrange(pos, pos + 10)[2 + q] == insn_bytes(i)[2 + q]);
                }
            }
        },
        Insn::PushFloat(bits) => {
            crate::endian::lemma_u64_le_bytes_roundtrip(bits);
            assert(bytes.subrange(pos + 2, pos + 10) =~= spec_u64_to_le_bytes(bits)) by {
                assert forall|q: int| 0 <= q < 8 implies bytes.subrange(pos + 2, pos + 10)[q]
                    == spec_u64_to_le_bytes(bits)[q] by {
                    assert(bytes.subrange(pos, pos + 10)[2 + q] == insn_bytes(i)[2 + q]);
                }
            }
        },
        _ => {
            assert(insn_of_opcode(spec_opcode(i)) == Some(i));
        },
    }
}

/// Decoding inverts serialization on a whole instruction stream that runs
/// to the end of the byte string.
pub proof fn lemma_insns_roundtrip(bytes: Seq<u8>, pos: int, s: Seq<Insn>)
    requires
        0 <= pos,
        pos + insns_bytes(s).len() == bytes.len(),
        bytes.subrange(pos, bytes.len() as int) == insns_bytes(s),
    ensures
        read_insns_from(bytes, pos) == Some(s),
    decreases s.len(),
{
    if s.len() == 0 {
        assert(pos == bytes.len());
    } else {
        let first = insn_bytes(s[0]);
        let rest = insns_bytes(s.drop_first());
        assert(insns_bytes(s) == first + rest);
        assert(bytes.subrange(pos, pos + first.len() as int) =~= first) by {
            assert forall|q: int| 0 <= q < first.len() implies bytes.subrange(
                pos,
                pos + first.len() as int,
            )[q] == first[q] by {
                assert(bytes.subrange(pos, bytes.len() as int)[q] == first[q]);
            }
        }
        assert(first.len() >= 2) by {
            crate::endian::lemma_u16_le_bytes_roundtrip(spec_opcode(s[0]));
        }
        lemma_insn_roundtrip(bytes, pos, s[0]);
        let p2 = pos + first.len() as int;
        assert(bytes.subrange(p2, bytes.len() as int) =~= rest) by {
            assert forall|q: int| 0 <= q < rest.len() implies bytes.subrange(
                p2,
                bytes.len() as int,
            )[q] == rest[q] by {
                assert(bytes.subrange(pos, bytes.len() as int)[first.len() + q] == rest[q]);
            }
        }
        lemma_insns_roundtrip(bytes, p2, s.drop_first());
        assert(seq![s[0]] + s.drop_first() =~= s);
    }
}

} // verus!
