//! Little-endian packing of the fixed-width fields in the wire format: the
//! 16-bit opcodes and the 64-bit counts, lengths and immediates.

use vstd::bytes::{
    lemma_auto_spec_u16_to_from_le_bytes, lemma_auto_spec_u64_to_from_le_bytes,
    spec_u16_from_le_bytes, spec_u16_to_le_bytes, spec_u64_from_le_bytes, spec_u64_to_le_bytes,
    u16_from_le_bytes, u16_to_le_bytes, u64_from_le_bytes, u64_to_le_bytes,
};
use vstd::prelude::*;
use vstd::slice::slice_subrange;

verus! {

/// The little-endian bytes of an i64, by way of its two's-complement bit
/// pattern.
pub open spec fn spec_i64_to_le_bytes(x: i64) -> Seq<u8> {
    spec_u64_to_le_bytes(x as u64)
}

/// The i64 read back from eight little-endian bytes.
pub open spec fn spec_i64_from_le_bytes(s: Seq<u8>) -> i64
    recommends
        s.len() == 8,
{
    spec_u64_from_le_bytes(s) as i64
}

/// Round trips between an i64 and its eight little-endian bytes.
pub proof fn lemma_i64_le_bytes_roundtrip(x: i64)
    ensures
        spec_i64_to_le_bytes(x).len() == 8,
        spec_i64_from_le_bytes(spec_i64_to_le_bytes(x)) == x,
{
    lemma_auto_spec_u64_to_from_le_bytes();
    assert((x as u64) as i64 == x) by (bit_vector);
}

/// Appends the two little-endian bytes of a 16-bit value.
pub fn put_u16_le(out: &mut Vec<u8>, x: u16)
    ensures
        final(out)@ == old(out)@ + spec_u16_to_le_bytes(x),
{
    let bytes = u16_to_le_bytes(x);
    out.extend_from_slice(bytes.as_slice());
    proof {
        assert(out@ =~= old(out)@ + spec_u16_to_le_bytes(x));
    }
}

/// Appends the eight little-endian bytes of a 64-bit value.
pub fn put_u64_le(out: &mut Vec<u8>, x: u64)
    ensures
        final(out)@ == old(out)@ + spec_u64_to_le_bytes(x),
{
    let bytes = u64_to_le_bytes(x);
    out.extend_from_slice(bytes.as_slice());
    proof {
        assert(out@ =~= old(out)@ + spec_u64_to_le_bytes(x));
    }
}

/// Appends the eight little-endian bytes of a signed 64-bit value.
pub fn put_i64_le(out: &mut Vec<u8>, x: i64)
    ensures
        final(out)@ == old(out)@ + spec_i64_to_le_bytes(x),
{
    put_u64_le(out, i64_bits(x));
}

/// Reads the 16-bit value whose little-endian bytes sit at `pos`.
pub fn get_u16_le(bytes: &Vec<u8>, pos: usize) -> (r: u16)
    requires
        pos + 2 <= bytes@.len(),
    ensures
        r == spec_u16_from_le_bytes(bytes@.subrange(pos as int, pos + 2)),
{
    let _n = bytes.len();
    let sub = slice_subrange(bytes.as_slice(), pos, pos + 2);
    u16_from_le_bytes(sub)
}

/// Reads the 64-bit value whose little-endian bytes sit at `pos`.
pub fn get_u64_le(bytes: &Vec<u8>, pos: usize) -> (r: u64)
    requires
        pos + 8 <= bytes@.len(),
    ensures
        r == spec_u64_from_le_bytes(bytes@.subrange(pos as int, pos + 8)),
{
    let _n = bytes.len();
    let sub = slice_subrange(bytes.as_slice(), pos, pos + 8);
    u64_from_le_bytes(sub)
}

/// Reads the signed 64-bit value whose little-endian bytes sit at `pos`.
pub fn get_i64_le(bytes: &Vec<u8>, pos: usize) -> (r: i64)
    requires
        pos + 8 <= bytes@.len(),
    ensures
        r == spec_i64_from_le_bytes(bytes@.subrange(pos as int, pos + 8)),
{
    let x = get_u64_le(bytes, pos);
    u64_as_i64(x)
}

/// The two's-complement bit pattern of an i64, as a u64.
pub fn i64_bits(x: i64) -> (r: u64)
    ensures
        r == x as u64,
        spec_u64_to_le_bytes(r) == spec_i64_to_le_bytes(x),
{
    #[verifier::truncate] (x as u64)
}

/// The i64 with the given two's-complement bit pattern.
pub fn u64_as_i64(x: u64) -> (r: i64)
    ensures
        r == x as i64,
        x == r as u64,
{
    proof {
        assert((x as i64) as u64 == x) by (bit_vector);
    }
    #[verifier::truncate] (x as i64)
}

/// The spec-level round trips for 16-bit fields, re-exposed where callers
/// reason about opcode bytes.
pub proof fn lemma_u16_le_bytes_roundtrip(x: u16)
    ensures
        spec_u16_to_le_bytes(x).len() == 2,
        spec_u16_from_le_bytes(spec_u16_to_le_bytes(x)) == x,
{
    lemma_auto_spec_u16_to_from_le_bytes();
    assert(spec_u16_to_le_bytes(x).len() == 2);
}

/// The spec-level round trips for 64-bit fields.
pub proof fn lemma_u64_le_bytes_roundtrip(x: u64)
    ensures
        spec_u64_to_le_bytes(x).len() == 8,
        spec_u64_from_le_bytes(spec_u64_to_le_bytes(x)) == x,
{
    lemma_auto_spec_u64_to_from_le_bytes();
}

} // verus!
