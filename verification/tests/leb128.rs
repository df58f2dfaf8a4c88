use wasm_decode::bin_util::{decode_u32_leb128, BinaryReadable, ModuleBytes};

#[test]
fn single_byte_value() {
    let bytes = vec![0x07u8, 0xff];
    assert_eq!(decode_u32_leb128(&bytes, 0), Ok((7, 1)));
}

#[test]
fn multi_byte_value() {
    // 624485 = 0xE5 0x8E 0x26 in LEB128.
    let bytes = vec![0xe5u8, 0x8e, 0x26];
    assert_eq!(decode_u32_leb128(&bytes, 0), Ok((624485, 3)));
}

#[test]
fn value_at_offset() {
    let bytes = vec![0x00u8, 0x00, 0x80, 0x01];
    assert_eq!(decode_u32_leb128(&bytes, 2), Ok((128, 2)));
}

#[test]
fn max_u32() {
    let bytes = vec![0xffu8, 0xff, 0xff, 0xff, 0x0f];
    assert_eq!(decode_u32_leb128(&bytes, 0), Ok((u32::MAX, 5)));
}

#[test]
fn high_bits_discarded() {
    // The fifth byte contributes only four bits; the rest fall off.
    let bytes = vec![0xffu8, 0xff, 0xff, 0xff, 0x7f];
    assert_eq!(decode_u32_leb128(&bytes, 0), Ok((u32::MAX, 5)));
}

#[test]
fn truncated_encoding_fails() {
    let bytes = vec![0x80u8, 0x80];
    assert!(decode_u32_leb128(&bytes, 0).is_err());
}

#[test]
fn six_byte_run_fails() {
    let bytes = vec![0x80u8, 0x80, 0x80, 0x80, 0x80, 0x01];
    assert!(decode_u32_leb128(&bytes, 0).is_err());
}

#[test]
fn out_of_range_position_fails() {
    let bytes = vec![0x01u8];
    assert!(decode_u32_leb128(&bytes, 1).is_err());
}

#[test]
fn read_through_source_trait() {
    let src = ModuleBytes { bytes: vec![0xaau8, 0xc0, 0x02, 0x05] };
    assert_eq!(src.read_u32_leb128(1), Ok((320, 2)));
    assert_eq!(src.read_u32_leb128(3), Ok((5, 1)));
    assert!(src.read_u32_leb128(4).is_err());
}
