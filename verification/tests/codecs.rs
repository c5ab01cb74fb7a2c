//! Codec behaviour: round trips, byte-order-preserving keys, and the
//! error conditions of each decoder.

use heed::fixed::{FixedBytes, BEU32, LEU32};
use heed::traits::{BytesDecode, BytesEncode};
use heed::types::{CowSlice, DecodeIgnore, OwnedType, Str, UnalignedSlice, UnalignedType, Unit};
use heed::{CodecError, Error};

#[test]
fn beu32_round_trip() {
    for x in [0u32, 1, 0xff, 0x100, 0x01020304, u32::MAX] {
        let bytes = OwnedType::<BEU32>::bytes_encode(&BEU32::new(x)).unwrap();
        assert_eq!(bytes.len(), 4);
        let back = OwnedType::<BEU32>::bytes_decode(&bytes).unwrap();
        assert_eq!(back.get(), x);
    }
    assert_eq!(
        OwnedType::<BEU32>::bytes_encode(&BEU32::new(0x01020304)).unwrap(),
        vec![1, 2, 3, 4]
    );
}

#[test]
fn leu32_round_trip() {
    for x in [0u32, 1, 0xff, 0x100, 0x01020304, u32::MAX] {
        let bytes = OwnedType::<LEU32>::bytes_encode(&LEU32::new(x)).unwrap();
        let back = OwnedType::<LEU32>::bytes_decode(&bytes).unwrap();
        assert_eq!(back.get(), x);
    }
    assert_eq!(
        OwnedType::<LEU32>::bytes_encode(&LEU32::new(0x01020304)).unwrap(),
        vec![4, 3, 2, 1]
    );
}

#[test]
fn unaligned_type_round_trip() {
    let bytes = UnalignedType::<BEU32>::bytes_encode(&BEU32::new(7)).unwrap();
    let back = UnalignedType::<BEU32>::bytes_decode(&bytes).unwrap();
    assert_eq!(back.get(), 7);
}

#[test]
fn fixed_size_mismatch_is_reported() {
    let r = OwnedType::<BEU32>::bytes_decode(&[1, 2, 3]);
    assert_eq!(r, Err(Error::Decoding(CodecError::SizeMismatch)));
    let r = UnalignedType::<BEU32>::bytes_decode(&[1, 2, 3, 4, 5]);
    assert_eq!(r, Err(Error::Decoding(CodecError::SizeMismatch)));
}

#[test]
fn big_endian_keys_sort_numerically() {
    let pairs = [(0u32, 1u32), (1, 2), (255, 256), (0x01020304, 0x01020305), (7, u32::MAX)];
    for (a, b) in pairs {
        let ea = BEU32::new(a).to_bytes();
        let eb = BEU32::new(b).to_bytes();
        assert!(ea < eb, "{a} should encode below {b}");
    }
}

#[test]
fn little_endian_keys_do_not_sort_numerically() {
    // 1 < 256, but the little-endian bytes compare the other way round.
    let ea = LEU32::new(1).to_bytes();
    let eb = LEU32::new(256).to_bytes();
    assert!(ea > eb);
}

#[test]
fn str_round_trip() {
    for text in ["", "hello", "caf\u{e9} na\u{ef}ve", "\u{1f600}"] {
        let s = String::from(text);
        let bytes = Str::bytes_encode(&s).unwrap();
        assert_eq!(bytes, text.as_bytes());
        let back = Str::bytes_decode(&bytes).unwrap();
        assert_eq!(back, s);
    }
}

#[test]
fn str_rejects_invalid_utf8() {
    let r = Str::bytes_decode(&[0xff, 0xfe, 0x41]);
    assert_eq!(r, Err(Error::Decoding(CodecError::InvalidEncoding)));
}

#[test]
fn unit_round_trip() {
    let bytes = Unit::bytes_encode(&()).unwrap();
    assert!(bytes.is_empty());
    assert_eq!(Unit::bytes_decode(&bytes), Ok(()));
}

#[test]
fn unit_rejects_nonempty_input() {
    assert_eq!(Unit::bytes_decode(&[0]), Err(Error::Decoding(CodecError::SizeMismatch)));
}

#[test]
fn decode_ignore_accepts_anything() {
    assert_eq!(DecodeIgnore::bytes_decode(&[]), Ok(()));
    assert_eq!(DecodeIgnore::bytes_decode(&[1, 2, 3]), Ok(()));
}

#[test]
fn cow_slice_round_trip() {
    let items = vec![BEU32::new(1), BEU32::new(0x01020304), BEU32::new(u32::MAX)];
    let bytes = CowSlice::<BEU32>::bytes_encode(&items).unwrap();
    assert_eq!(bytes.len(), 12);
    let back = CowSlice::<BEU32>::bytes_decode(&bytes).unwrap();
    assert_eq!(back, items);

    let empty: Vec<BEU32> = Vec::new();
    let bytes = CowSlice::<BEU32>::bytes_encode(&empty).unwrap();
    assert!(bytes.is_empty());
    let back = CowSlice::<BEU32>::bytes_decode(&bytes).unwrap();
    assert!(back.is_empty());
}

#[test]
fn unaligned_slice_round_trip() {
    let items: Vec<u8> = vec![1, 2, 3, 4, 5];
    let bytes = UnalignedSlice::<u8>::bytes_encode(&items).unwrap();
    assert_eq!(bytes, items);
    let back = UnalignedSlice::<u8>::bytes_decode(&bytes).unwrap();
    assert_eq!(back, items);
}

#[test]
fn slice_rejects_ragged_length() {
    let r = CowSlice::<BEU32>::bytes_decode(&[1, 2, 3, 4, 5]);
    assert_eq!(r, Err(Error::Decoding(CodecError::SizeMismatch)));
    let r = UnalignedSlice::<BEU32>::bytes_decode(&[1, 2, 3]);
    assert_eq!(r, Err(Error::Decoding(CodecError::SizeMismatch)));
}
