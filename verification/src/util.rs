//! Re-reading the on-wire form: the length-prefixed string-constant table
//! and the raw instruction stream, with the round trip against the
//! serializer.

use crate::bytecode::{INSN_PUSH_F64, INSN_PUSH_I64};
use crate::compiler::{consts_bytes, const_bytes, insn_of_opcode, insns_bytes, next_insn,
    read_insns_from, spec_compile, InsnRead};
use crate::parser::Insn;
use vstd::bytes::{spec_u64_from_le_bytes, spec_u64_to_le_bytes};
use vstd::prelude::*;
use vstd::slice::{slice_subrange, slice_to_vec};
use vstd::utf8::{decode_utf8, encode_utf8, valid_utf8};

verus! {

/// Why re-reading a binary failed.
#[derive(Clone, Copy, Debug, PartialEq, Eq, Structural)]
pub enum ReadError {
    /// The input ended inside a length field, a constant's bytes, an
    /// opcode, or an immediate.
    Truncated,
    /// A constant's bytes are not valid UTF-8.
    InvalidUtf8,
    /// An opcode outside the table.
    UnknownOpcode,
}

/// Reads `n` length-prefixed strings starting at `pos`.
pub open spec fn read_n_consts(bytes: Seq<u8>, pos: int, n: int) -> Result<
    (Seq<Seq<char>>, int),
    ReadError,
>
    decreases n,
{
    if n <= 0 {
        Ok((Seq::empty(), pos))
    } else if pos < 0 || pos + 8 > bytes.len() {
        Err(ReadError::Truncated)
    } else {
        let l = spec_u64_from_le_bytes(bytes.subrange(pos, pos + 8)) as int;
        if pos + 8 + l > bytes.len() {
            Err(ReadError::Truncated)
        } else {
            let b = bytes.subrange(pos + 8, pos + 8 + l);
            if !valid_utf8(b) {
                Err(ReadError::InvalidUtf8)
            } else {
                match read_n_consts(bytes, pos + 8 + l, n - 1) {
                    Ok((rest, e)) => Ok((seq![decode_utf8(b)] + rest, e)),
                    Err(err) => Err(err),
                }
            }
        }
    }
}

/// Reads the whole constant table: a 64-bit count, then that many strings.
pub open spec fn spec_read_consts(bytes: Seq<u8>, pos: int) -> Result<
    (Seq<Seq<char>>, int),
    ReadError,
> {
    if pos < 0 || pos + 8 > bytes.len() {
        Err(ReadError::Truncated)
    } else {
        read_n_consts(
            bytes,
            pos + 8,
            spec_u64_from_le_bytes(bytes.subrange(pos, pos + 8)) as int,
        )
    }
}

/// Reads the string-constant table at `pos`; returns the constants and the
/// position where the code region starts.
pub fn read_string_constants(read: &Vec<u8>, pos: usize) -> (r: Result<
    (Vec<String>, usize),
    ReadError,
>)
    requires
        pos <= read@.len(),
    ensures
        match r {
            Ok((cs, e)) => spec_read_consts(read@, pos as int) == Ok::<
                (Seq<Seq<char>>, int),
                ReadError,
            >((cs.deep_view(), e as int)) && e <= read@.len(),
            Err(err) => spec_read_consts(read@, pos as int) == Err::<
                (Seq<Seq<char>>, int),
                ReadError,
            >(err),
        },
{
    let len = read.len();
    if len - pos < 8 {
        return Err(ReadError::Truncated);
    }
    let n = crate::endian::get_u64_le(read, pos);
    let mut out: Vec<String> = Vec::new();
    let mut cur: usize = pos + 8;
    let mut i: u64 = 0;
    while i < n
        invariant
            0 <= i <= n,
            pos + 8 <= cur <= read@.len(),
            len == read@.len(),
            match read_n_consts(read@, cur as int, n - i) {
                Ok((rest, e)) => spec_read_consts(read@, pos as int) == Ok::<
                    (Seq<Seq<char>>, int),
                    ReadError,
                >((out.deep_view() + rest, e)),
                Err(err) => spec_read_consts(read@, pos as int) == Err::<
                    (Seq<Seq<char>>, int),
                    ReadError,
                >(err),
            },
        decreases n - i,
    {
        if len - cur < 8 {
            return Err(ReadError::Truncated);
        }
        let l = crate::endian::get_u64_le(read, cur);
        let avail: usize = len - cur - 8;
        if l > avail as u64 {
            return Err(ReadError::Truncated);
        }
        let lu = l as usize;
        let sub = slice_subrange(read.as_slice(), cur + 8, cur + 8 + lu);
        let v = slice_to_vec(sub);
        let ghost b = read@.subrange(cur as int + 8, cur as int + 8 + l as int);
        proof {
            assert(v@ == b);
        }
        match crate::text::string_from_utf8(v) {
            Some(s) => {
                let ghost dpre = out.deep_view();
                out.push(s);
                proof {
                    assert(out.deep_view() =~~= dpre.push(decode_utf8(b)));
                    assert(dpre.push(decode_utf8(b)) + read_rest_of(
                        read@,
                        cur as int + 8 + l as int,
                        n - i - 1,
                    ) =~= dpre + (seq![decode_utf8(b)] + read_rest_of(
                        read@,
                        cur as int + 8 + l as int,
                        n - i - 1,
                    )));
                }
            },
            None => {
                return Err(ReadError::InvalidUtf8);
            },
        }
        cur = cur + 8 + lu;
        i = i + 1;
    }
    Ok((out, cur))
}

/// The constants still ahead when reading is under way; a helper for the
/// loop's bookkeeping.
pub open spec fn read_rest_of(bytes: Seq<u8>, pos: int, n: int) -> Seq<Seq<char>> {
    match read_n_consts(bytes, pos, n) {
        Ok((rest, _)) => rest,
        Err(_) => Seq::empty(),
    }
}

/// Decides which instruction a nullary opcode denotes.
pub(crate) fn opcode_insn(op: u16) -> (r: Option<Insn>)
    ensures
        r == insn_of_opcode(op),
{
    if op == crate::bytecode::INSN_DROP {
        Some(Insn::Drop)
    } else if op == crate::bytecode::INSN_LOAD {
        Some(Insn::Load)
    } else if op == crate::bytecode::INSN_SWAP {
        Some(Insn::Swap)
    } else if op == crate::bytecode::INSN_DUP {
        Some(Insn::Dup)
    } else if op == crate::bytecode::INSN_J {
        Some(Insn::Jump)
    } else if op == crate::bytecode::INSN_JNZ {
        Some(Insn::JumpNotZero)
    } else if op == crate::bytecode::INSN_JZ {
        Some(Insn::JumpZero)
    } else if op == crate::bytecode::INSN_CALL {
        Some(Insn::Call)
    } else if op == crate::bytecode::INSN_NUMCONV_I64 {
        Some(Insn::NumConvInt)
    } else if op == crate::bytecode::INSN_NUMCONV_F64 {
        Some(Insn::NumConvFloat)
    } else if op == crate::bytecode::INSN_TROT {
        Some(Insn::TriRot)
    } else if op == crate::bytecode::INSN_DDUP {
        Some(Insn::DiDup)
    } else if op == crate::bytecode::INSN_TDUP {
        Some(Insn::TriDup)
    } else if op == crate::bytecode::INSN_ABORT {
        Some(Insn::Abort)
    } else if op == crate::bytecode::INSN_EXIT {
        Some(Insn::Exit)
    } else if op == crate::bytecode::INSN_PANIC {
        Some(Insn::Panic)
    } else if op == crate::bytecode::INSN_PRINTLN {
        Some(Insn::Println)
    } else if op == crate::bytecode::INSN_INPUT {
        Some(Insn::Input)
    } else if op == crate::bytecode::INSN_GC {
        Some(Insn::Gc)
    } else if op == crate::bytecode::INSN_PRINT_I64 {
        Some(Insn::PrintInt)
    } else if op == crate::bytecode::INSN_PRINT_F64 {
        Some(Insn::PrintFloat)
    } else if op == crate::bytecode::INSN_PRINT_STR {
        Some(Insn::PrintString)
    } else if op == crate::bytecode::INSN_ADD_I64 {
        Some(Insn::AddInt)
    } else if op == crate::bytecode::INSN_SUB_I64 {
        Some(Insn::SubInt)
    } else if op == crate::bytecode::INSN_MUL_I64 {
        Some(Insn::MulInt)
    } else if op == crate::bytecode::INSN_DIV_I64 {
        Some(Insn::DivInt)
    } else if op == crate::bytecode::INSN_ADD_F64 {
        Some(Insn::AddFloat)
    } else if op == crate::bytecode::INSN_SUB_F64 {
        Some(Insn::SubFloat)
    } else if op == crate::bytecode::INSN_MUL_F64 {
        Some(Insn::MulFloat)
    } else if op == crate::bytecode::INSN_DIV_F64 {
        Some(Insn::DivFloat)
    } else if op == crate::bytecode::INSN_ADD_STR {
        Some(Insn::AddString)
    } else if op == crate::bytecode::INSN_EQ_I64 {
        Some(Insn::EqInt)
    } else if op == crate::bytecode::INSN_LT_I64 {
        Some(Insn::LtInt)
    } else if op == crate::bytecode::INSN_GT_I64 {
        Some(Insn::GtInt)
    } else if op == crate::bytecode::INSN_LE_I64 {
        Some(Insn::LeInt)
    } else if op == crate::bytecode::INSN_GE_I64 {
        Some(Insn::GeInt)
    } else if op == crate::bytecode::INSN_EQ_F64 {
        Some(Insn::EqFloat)
    } else if op == crate::bytecode::INSN_LT_F64 {
        Some(Insn::LtFloat)
    } else if op == crate::bytecode::INSN_GT_F64 {
        Some(Insn::GtFloat)
    } else if op == crate::bytecode::INSN_LE_F64 {
        Some(Insn::LeFloat)
    } else if op == crate::bytecode::INSN_GE_F64 {
        Some(Insn::GeFloat)
    } else if op == crate::bytecode::INSN_EQ_STR {
        Some(Insn::EqString)
    } else {
        None
    }
}

/// Decodes the raw instruction stream from `pos` to the end of the input.
pub fn read_instructions(read: &Vec<u8>, pos: usize) -> (r: Result<Vec<Insn>, ReadError>)
    requires
        pos <= read@.len(),
    ensures
        match r {
            Ok(insns) => read_insns_from(read@, pos as int) == Some(insns@),
            Err(_) => read_insns_from(read@, pos as int) == None::<Seq<Insn>>,
        },
{
    let len = read.len();
    let mut out: Vec<Insn> = Vec::new();
    let mut cur: usize = pos;
    while cur < len
        invariant
            pos <= cur <= read@.len(),
            len == read@.len(),
            match read_insns_from(read@, cur as int) {
                Some(rest) => read_insns_from(read@, pos as int) == Some(out@ + rest),
                None => read_insns_from(read@, pos as int) == None::<Seq<Insn>>,
            },
        decreases read@.len() - cur,
    {
        if len - cur < 2 {
            return Err(ReadError::Truncated);
        }
        let op = crate::endian::get_u16_le(read, cur);
        let ghost gpre = out@;
        if op == INSN_PUSH_I64 {
            if len - cur < 10 {
                return Err(ReadError::Truncated);
            }
            let v = crate::endian::get_i64_le(read, cur + 2);
            out.push(Insn::PushInt(v));
            cur = cur + 10;
            proof {
                assert(gpre + (seq![Insn::PushInt(v)] + rest_insns(read@, cur as int)) =~= gpre.push(
                    Insn::PushInt(v),
                ) + rest_insns(read@, cur as int));
            }
        } else if op == INSN_PUSH_F64 {
            if len - cur < 10 {
                return Err(ReadError::Truncated);
            }
            let bits = crate::endian::get_u64_le(read, cur + 2);
            out.push(Insn::PushFloat(bits));
            cur = cur + 10;
            proof {
                assert(gpre + (seq![Insn::PushFloat(bits)] + rest_insns(read@, cur as int))
                    =~= gpre.push(Insn::PushFloat(bits)) + rest_insns(read@, cur as int));
            }
        } else {
            match opcode_insn(op) {
                Some(insn) => {
                    out.push(insn);
                    cur = cur + 2;
                    proof {
                        assert(gpre + (seq![insn] + rest_insns(read@, cur as int)) =~= gpre.push(
                            insn,
                        ) + rest_insns(read@, cur as int));
                    }
                },
                None => {
                    return Err(ReadError::UnknownOpcode);
                },
            }
        }
    }
    proof {
        assert(out@ + Seq::<Insn>::empty() =~= out@);
    }
    Ok(out)
}

/// The instructions still ahead of a position; a helper for the loop's
/// bookkeeping.
pub open spec fn rest_insns(bytes: Seq<u8>, pos: int) -> Seq<Insn> {
    match read_insns_from(bytes, pos) {
        Some(rest) => rest,
        None => Seq::empty(),
    }
}

proof fn lemma_read_n_consts_roundtrip(bytes: Seq<u8>, pos: int, cs: Seq<Seq<char>>)
    requires
        0 <= pos,
        pos + consts_bytes(cs).len() <= bytes.len(),
        bytes.subrange(pos, pos + consts_bytes(cs).len()) == consts_bytes(cs),
        forall|i: int|
            0 <= i < cs.len() ==> encode_utf8(#[trigger] cs[i]).len() <= 0xFFFF_FFFF_FFFF_FFFF,
    ensures
        read_n_consts(bytes, pos, cs.len() as int) == Ok::<(Seq<Seq<char>>, int), ReadError>(
            (cs, pos + consts_bytes(cs).len()),
        ),
    decreases cs.len(),
{
    broadcast use vstd::utf8::encode_utf8_valid_utf8, vstd::utf8::encode_utf8_decode_utf8;

    if cs.len() > 0 {
        let first = const_bytes(cs[0]);
        let rest = consts_bytes(cs.drop_first());
        assert(consts_bytes(cs) == first + rest);
        let enc = encode_utf8(cs[0]);
        crate::endian::lemma_u64_le_bytes_roundtrip(enc.len() as u64);
        assert(bytes.subrange(pos, pos + 8) =~= spec_u64_to_le_bytes(enc.len() as u64)) by {
            assert forall|q: int| 0 <= q < 8 implies #[trigger] bytes.subrange(pos, pos + 8)[q]
                == spec_u64_to_le_bytes(enc.len() as u64)[q] by {
                assert(bytes.subrange(pos, pos + consts_bytes(cs).len() as int)[q] == first[q]);
            }
        }
        assert(enc.len() as u64 as int == enc.len() as int);
        assert(bytes.subrange(pos + 8, pos + 8 + enc.len() as int) =~= enc) by {
            assert forall|q: int| 0 <= q < enc.len() implies bytes.subrange(
                pos + 8,
                pos + 8 + enc.len() as int,
            )[q] == enc[q] by {
                assert(bytes.subrange(pos, pos + consts_bytes(cs).len() as int)[8 + q] == first[8
                    + q]);
            }
        }
        let p2 = pos + 8 + enc.len() as int;
        assert(bytes.subrange(p2, p2 + rest.len() as int) =~= rest) by {
            assert forall|q: int| 0 <= q < rest.len() implies bytes.subrange(
                p2,
                p2 + rest.len() as int,
            )[q] == rest[q] by {
                assert(bytes.subrange(pos, pos + consts_bytes(cs).len() as int)[first.len() + q]
                    == rest[q]);
            }
        }
        assert(forall|i: int|
            0 <= i < cs.drop_first().len() ==> encode_utf8(#[trigger] cs.drop_first()[i]).len()
                <= 0xFFFF_FFFF_FFFF_FFFF);
        lemma_read_n_consts_roundtrip(bytes, p2, cs.drop_first());
        assert(read_n_consts(bytes, p2, cs.len() - 1) == Ok::<(Seq<Seq<char>>, int), ReadError>(
            (cs.drop_first(), p2 + rest.len()),
        ));
        assert(spec_u64_from_le_bytes(bytes.subrange(pos, pos + 8)) as int == enc.len() as int);
        assert(valid_utf8(bytes.subrange(pos + 8, pos + 8 + enc.len() as int)));
        assert(decode_utf8(enc) == cs[0]);
        assert(seq![cs[0]] + cs.drop_first() =~= cs);
        assert(read_n_consts(bytes, pos, cs.len() as int) == Ok::<
            (Seq<Seq<char>>, int),
            ReadError,
        >((cs, pos + consts_bytes(cs).len())));
    } else {
        assert(cs =~= Seq::<Seq<char>>::empty());
    }
}

/// Serializing a `PreBinary` and re-reading the result yields the same
/// constants and the same instructions: the round trip of the wire format.
pub proof fn lemma_compile_roundtrip(constants: Seq<Seq<char>>, instructions: Seq<Insn>)
    requires
        constants.len() <= 0xFFFF_FFFF_FFFF_FFFF,
        forall|i: int|
            0 <= i < constants.len() ==> encode_utf8(#[trigger] constants[i]).len()
                <= 0xFFFF_FFFF_FFFF_FFFF,
    ensures
        ({
            let bytes = spec_compile(constants, instructions);
            let k = 8 + consts_bytes(constants).len() as int;
            &&& spec_read_consts(bytes, 0) == Ok::<(Seq<Seq<char>>, int), ReadError>(
                (constants, k),
            )
            &&& read_insns_from(bytes, k) == Some(instructions)
        }),
{
    let bytes = spec_compile(constants, instructions);
    let hdr = spec_u64_to_le_bytes(constants.len() as u64);
    let cb = consts_bytes(constants);
    let ib = insns_bytes(instructions);
    crate::endian::lemma_u64_le_bytes_roundtrip(constants.len() as u64);
    assert(bytes.subrange(0, 8) =~= hdr);
    assert(constants.len() as u64 as int == constants.len() as int);
    assert(bytes.subrange(8, 8 + cb.len() as int) =~= cb);
    lemma_read_n_consts_roundtrip(bytes, 8, constants);
    let k = 8 + cb.len() as int;
    assert(bytes.subrange(k, bytes.len() as int) =~= ib);
    crate::compiler::lemma_insns_roundtrip(bytes, k, instructions);
}

} // verus!
