//! LEB128 codec for unsigned 64-bit values: each output byte carries seven
//! payload bits, least significant group first, with the high bit set on
//! every byte except the last.

use vstd::arithmetic::power2::pow2;
use vstd::prelude::*;

verus! {

/// Why a LEB128 read failed.
#[derive(Clone, Copy, Debug, PartialEq, Eq, Structural)]
pub enum DecodeError {
    /// The input ended before a terminating byte (high bit clear) was seen.
    Truncated,
    /// More than ten continuation bytes: the value cannot fit in 64 bits.
    TooLong,
}

/// The LEB128 encoding of `value`: seven bits per byte, low group first.
pub open spec fn spec_encode(value: u64) -> Seq<u8>
    decreases value,
{
    if value < 128 {
        seq![value as u8]
    } else {
        seq![(128 + value % 128) as u8] + spec_encode(value / 128)
    }
}

/// The value and end position read from `bytes` at `pos`, `depth` groups in.
/// Groups beyond the tenth are rejected; the tenth group's bits above bit 63
/// fall away, as they do when shifted out of a 64-bit accumulator.
pub open spec fn spec_decode_at(bytes: Seq<u8>, pos: int, depth: int) -> Result<
    (u64, int),
    DecodeError,
>
    decreases 11 - depth,
{
    if pos < 0 || pos >= bytes.len() {
        Err(DecodeError::Truncated)
    } else if depth >= 10 {
        Err(DecodeError::TooLong)
    } else {
        let b = bytes[pos];
        let part = (b % 128) as u64;
        if b < 128 {
            Ok((part, pos + 1))
        } else {
            match spec_decode_at(bytes, pos + 1, depth + 1) {
                Ok((rest, end)) => Ok((part | (rest << 7), end)),
                Err(e) => Err(e),
            }
        }
    }
}

/// The value and end position of the LEB128 group starting at `pos`.
pub open spec fn spec_decode(bytes: Seq<u8>, pos: int) -> Result<(u64, int), DecodeError> {
    spec_decode_at(bytes, pos, 0)
}

/// Appends the LEB128 encoding of `value`.
pub fn encode(write: &mut Vec<u8>, value: u64)
    ensures
        final(write)@ == old(write)@ + spec_encode(value),
{
    let mut tmp = value;
    while tmp >= 128
        invariant
            old(write)@ + spec_encode(value) == write@ + spec_encode(tmp),
        decreases tmp,
    {
        write.push((128 + tmp % 128) as u8);
        tmp = tmp / 128;
    }
    write.push(tmp as u8);
    proof {
        assert(final(write)@ =~= old(write)@ + spec_encode(value));
    }
}

/// Reads one LEB128-encoded value from `read` starting at `pos`; returns the
/// value and the position just past it.
pub fn decode(read: &Vec<u8>, pos: usize) -> (r: Result<(u64, usize), DecodeError>)
    ensures
        match r {
            Ok((value, end)) => spec_decode(read@, pos as int) == Ok::<(u64, int), DecodeError>(
                (value, end as int),
            ) && end <= read@.len(),
            Err(e) => spec_decode(read@, pos as int) == Err::<(u64, int), DecodeError>(e),
        },
{
    decode_at(read, pos, 0)
}

fn decode_at(read: &Vec<u8>, pos: usize, depth: usize) -> (r: Result<(u64, usize), DecodeError>)
    requires
        depth <= 10,
    ensures
        match r {
            Ok((value, end)) => spec_decode_at(read@, pos as int, depth as int) == Ok::<
                (u64, int),
                DecodeError,
            >((value, end as int)) && end <= read@.len(),
            Err(e) => spec_decode_at(read@, pos as int, depth as int) == Err::<
                (u64, int),
                DecodeError,
            >(e),
        },
    decreases read@.len() - pos,
{
    if pos >= read.len() {
        return Err(DecodeError::Truncated);
    }
    if depth >= 10 {
        return Err(DecodeError::TooLong);
    }
    let b = read[pos];
    let part = (b % 128) as u64;
    if b < 128 {
        Ok((part, pos + 1))
    } else {
        match decode_at(read, pos + 1, depth + 1) {
            Ok((rest, end)) => Ok((part | (rest << 7u64), end)),
            Err(e) => Err(e),
        }
    }
}

proof fn lemma_pow2_div128(n: nat, value: u64)
    requires
        7 <= n <= 64,
        value < pow2(n),
    ensures
        value / 128 < pow2((n - 7) as nat),
{
    vstd::arithmetic::power2::lemma_pow2_adds((n - 7) as nat, 7);
    assert(pow2(7) == 128) by {
        vstd::arithmetic::power2::lemma2_to64();
    }
    assert(value < 128 * pow2((n - 7) as nat)) by {
        vstd::arithmetic::mul::lemma_mul_is_commutative(pow2((n - 7) as nat) as int, 128);
    }
    vstd::arithmetic::div_mod::lemma_multiply_divide_lt(
        value as int,
        128,
        pow2((n - 7) as nat) as int,
    );
}

/// Decoding inverts encoding: wherever the bytes of `spec_encode(value)` sit
/// in a stream, reading at that position yields `value` back and stops just
/// past them.
pub proof fn lemma_leb128_roundtrip(bytes: Seq<u8>, pos: int, value: u64)
    requires
        0 <= pos,
        pos + spec_encode(value).len() <= bytes.len(),
        bytes.subrange(pos, pos + spec_encode(value).len()) == spec_encode(value),
    ensures
        spec_decode(bytes, pos) == Ok::<(u64, int), DecodeError>(
            (value, pos + spec_encode(value).len()),
        ),
{
    assert(value < pow2(64)) by {
        vstd::arithmetic::power2::lemma2_to64_rest();
    }
    lemma_leb128_roundtrip_at(bytes, pos, 0, value);
}

proof fn lemma_leb128_roundtrip_at(bytes: Seq<u8>, pos: int, depth: int, value: u64)
    requires
        0 <= pos,
        0 <= depth <= 9,
        value < pow2((64 - 7 * depth) as nat),
        pos + spec_encode(value).len() <= bytes.len(),
        bytes.subrange(pos, pos + spec_encode(value).len()) == spec_encode(value),
    ensures
        spec_decode_at(bytes, pos, depth) == Ok::<(u64, int), DecodeError>(
            (value, pos + spec_encode(value).len()),
        ),
    decreases value,
{
    let enc = spec_encode(value);
    let len = enc.len();
    assert(bytes[pos] == enc[0]);
    if value < 128 {
        assert(bytes[pos] == value as u8);
        assert((value as u8) % 128 == value as u8) by (bit_vector)
            requires
                value < 128,
        ;
    } else {
        let b = (128 + value % 128) as u8;
        assert((128 + value % 128) as u8 >= 128) by (bit_vector);
        let rest = value / 128;
        assert(depth < 9) by {
            if depth == 9 {
                assert(pow2(1) == 2) by {
                    vstd::arithmetic::power2::lemma2_to64();
                }
            }
        }
        assert(rest < pow2((64 - 7 * (depth + 1)) as nat)) by {
            lemma_pow2_div128((64 - 7 * depth) as nat, value);
        }
        let rest_enc = spec_encode(rest);
        assert(enc == seq![b] + rest_enc);
        assert(bytes.subrange(pos + 1, pos + 1 + rest_enc.len()) =~= rest_enc) by {
            assert forall|i: int| 0 <= i < rest_enc.len() implies bytes.subrange(
                pos + 1,
                pos + 1 + rest_enc.len(),
            )[i] == rest_enc[i] by {
                assert(bytes[pos + 1 + i] == enc[1 + i]);
            }
        }
        lemma_leb128_roundtrip_at(bytes, pos + 1, depth + 1, rest);
        let part = (b % 128) as u64;
        assert(part | (rest << 7) == value) by (bit_vector)
            requires
                part == ((128 + value % 128) as u8 % 128) as u64,
                rest == value / 128,
        ;
    }
}

} // verus!
