use roth::leb128::{decode, encode, DecodeError};

#[test]
fn leb128_encode() {
    let a = 0xCAFEBABEu64;
    let mut bytes = Vec::with_capacity(9);
    encode(&mut bytes, a);
    assert_eq!(bytes, [0xBE, 0xF5, 0xFA, 0xD7, 0x0C]);
}

#[test]
fn leb128_decode() {
    const BYTES: [u8; 5] = [0xBE, 0xF5, 0xFA, 0xD7, 0x0C];
    let (a, _) = decode(&BYTES.to_vec(), 0).expect("Decode to u64");
    assert_eq!(a, 0xCAFEBABEu64);
}

#[test]
fn leb128_encode_max() {
    let a = u64::MAX;
    let mut bytes = Vec::with_capacity(9);
    encode(&mut bytes, a);
    assert_eq!(
        bytes,
        [0xFF, 0xFF, 0xFF, 0xFF, 0xFF, 0xFF, 0xFF, 0xFF, 0xFF, 0x01]
    );
}

#[test]
fn leb128_decode_max() {
    const BYTES: [u8; 10] = [0xFF, 0xFF, 0xFF, 0xFF, 0xFF, 0xFF, 0xFF, 0xFF, 0xFF, 0x01];
    let (a, _) = decode(&BYTES.to_vec(), 0).expect("Decode to u64");
    assert_eq!(a, u64::MAX);
}

#[test]
fn leb128_encode_min() {
    let a = 0u64;
    let mut bytes = Vec::with_capacity(9);
    encode(&mut bytes, a);
    assert_eq!(bytes, [0x00]);
}

#[test]
fn leb128_decode_min() {
    const BYTES: [u8; 1] = [0x00];
    let (a, _) = decode(&BYTES.to_vec(), 0).expect("Decode to u64");
    assert_eq!(a, 0u64);
}

#[test]
fn leb128_roundtrip_values() {
    for v in [0u64, 1, 127, 128, 300, 16383, 16384, u64::MAX / 2, u64::MAX - 1, u64::MAX] {
        let mut bytes = Vec::new();
        encode(&mut bytes, v);
        let (back, end) = decode(&bytes, 0).expect("roundtrip decode");
        assert_eq!(back, v);
        assert_eq!(end, bytes.len());
    }
}

#[test]
fn leb128_decode_empty_is_truncated() {
    let bytes: Vec<u8> = Vec::new();
    assert_eq!(decode(&bytes, 0), Err(DecodeError::Truncated));
}

#[test]
fn leb128_decode_eleven_continuations_too_long() {
    let bytes: Vec<u8> = vec![0xFF; 11];
    assert_eq!(decode(&bytes, 0), Err(DecodeError::TooLong));
}
