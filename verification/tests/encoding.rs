use aic::encoding::{encode_mutf8, encode_sleb128, encode_uleb128, ByteWriter, DexError};

#[test]
fn leb128_examples_and_boundaries() {
    assert_eq!(encode_uleb128(0), [0]);
    assert_eq!(encode_uleb128(0x7f), [0x7f]);
    assert_eq!(encode_uleb128(0x80), [0x80, 1]);
    assert_eq!(encode_uleb128(0x3fff), [0xff, 0x7f]);
    assert_eq!(encode_uleb128(u32::MAX), [0xff, 0xff, 0xff, 0xff, 0x0f]);
    assert_eq!(encode_sleb128(0), [0]);
    assert_eq!(encode_sleb128(-1), [0x7f]);
    assert_eq!(encode_sleb128(63), [0x3f]);
    assert_eq!(encode_sleb128(64), [0xc0, 0]);
    assert_eq!(encode_sleb128(-65), [0xbf, 0x7f]);
}

#[test]
fn mutf8_handles_null_bmp_and_supplementary_values() {
    assert_eq!(encode_mutf8("A\0é"), [0x41, 0xc0, 0x80, 0xc3, 0xa9, 0]);
    assert_eq!(encode_mutf8("😀"), [0xed, 0xa0, 0xbd, 0xed, 0xb8, 0x80, 0]);
}

#[test]
fn checked_alignment_and_patch() {
    let mut writer = ByteWriter::new();
    writer.write_u8(1);
    writer.align(4).unwrap();
    assert_eq!(writer.bytes(), [1, 0, 0, 0]);
    assert!(matches!(writer.align(3), Err(DexError::InvalidAlignment(3))));
    assert!(matches!(
        writer.patch_u32(2, 9),
        Err(DexError::InvalidOffset { .. })
    ));
}

#[test]
fn leb128_round_trips_through_a_reader() {
    fn read_uleb(bytes: &[u8]) -> u64 {
        let mut value = 0u64;
        for (i, b) in bytes.iter().enumerate() {
            value |= u64::from(b & 0x7f) << (7 * i);
        }
        value
    }
    for v in [0u32, 1, 127, 128, 300, 16383, 16384, 0x0fff_ffff, 0x1000_0000, u32::MAX] {
        let bytes = encode_uleb128(v);
        assert!(bytes.len() <= 5);
        assert_eq!(read_uleb(&bytes), u64::from(v));
    }
    assert_eq!(encode_sleb128(i32::MIN), [0x80, 0x80, 0x80, 0x80, 0x78]);
    assert_eq!(encode_sleb128(i32::MAX), [0xff, 0xff, 0xff, 0xff, 0x07]);
}

#[test]
fn writer_emits_little_endian_words_and_patches_in_place() {
    let mut writer = ByteWriter::new();
    writer.write_u16(0x1234);
    writer.write_u32(0xdead_beef);
    writer.write_bytes(&[9, 8]);
    assert_eq!(writer.position(), 8);
    writer.patch_u32(2, 0x0102_0304).unwrap();
    assert_eq!(writer.into_bytes(), vec![0x34, 0x12, 4, 3, 2, 1, 9, 8]);
    let mut writer = ByteWriter::new();
    assert!(matches!(writer.patch_u32(usize::MAX - 1, 0), Err(DexError::ArithmeticOverflow)));
    writer.align(8).unwrap();
    assert_eq!(writer.position(), 0);
}
