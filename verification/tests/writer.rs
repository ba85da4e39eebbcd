use aic::encoding::DexError;
use aic::integrity::{adler32, sha1};
use aic::ir::MinimalClass;
use aic::writer::{encode_minimal_dex, Indexes};
use std::collections::BTreeSet;

fn read_u32(bytes: &[u8], offset: usize) -> u32 {
    u32::from_le_bytes(bytes[offset..offset + 4].try_into().unwrap())
}

#[test]
fn output_is_deterministic_and_integrity_fields_match() {
    let class = MinimalClass::new("Ldev/aic/Minimal;").unwrap();
    let first = encode_minimal_dex(&class).unwrap();
    let second = encode_minimal_dex(&class).unwrap();
    assert_eq!(first, second);
    assert_eq!(&first[..8], b"dex\n035\0");
    assert_eq!(read_u32(&first, 32) as usize, first.len());
    assert_eq!(&first[12..32], &sha1(&first[32..]));
    assert_eq!(read_u32(&first, 8), adler32(&first[12..]));
}

#[test]
fn indexes_are_sorted_and_deduplicated() {
    let indexes = Indexes::build(&MinimalClass::new("Ldev/aic/Minimal;").unwrap()).unwrap();
    assert!(indexes
        .strings
        .windows(2)
        .all(|v| v[0].encode_utf16().cmp(v[1].encode_utf16()).is_lt()));
    assert!(indexes.types.windows(2).all(|v| v[0] < v[1]));
}

#[test]
fn rejects_a_root_class_redefinition_without_panicking() {
    let class = MinimalClass::new("Ljava/lang/Object;").unwrap();
    assert!(matches!(encode_minimal_dex(&class), Err(DexError::InvalidInput(_))));
}

#[test]
fn aligned_sections_and_map_are_layout_derived() {
    let bytes = encode_minimal_dex(&MinimalClass::new("Ldev/aic/Minimal;").unwrap()).unwrap();
    let map_off = read_u32(&bytes, 52) as usize;
    assert_eq!(map_off % 4, 0);
    let count = read_u32(&bytes, map_off) as usize;
    let offsets: Vec<_> = (0..count).map(|i| read_u32(&bytes, map_off + 4 + i * 12 + 8)).collect();
    assert!(offsets.windows(2).all(|v| v[0] < v[1]));
}

#[test]
fn generated_fixture_has_a_coherent_independent_structure() {
    let bytes = encode_minimal_dex(&MinimalClass::new("Ldev/aic/generated/Minimal;").unwrap()).unwrap();
    let b = bytes.as_slice();
    assert_eq!(&b[..8], b"dex\n035\0");
    assert_eq!(read_u32(b, 32) as usize, b.len());
    assert_eq!(read_u32(b, 36), 0x70);
    assert_eq!(read_u32(b, 40), 0x1234_5678);
    let string_ids = read_u32(b, 60) as usize;
    let proto_ids = read_u32(b, 76) as usize;
    let shorty_idx = read_u32(b, proto_ids) as usize;
    let shorty_data = read_u32(b, string_ids + shorty_idx * 4) as usize;
    let mut shorty_text = shorty_data;
    while b[shorty_text] & 0x80 != 0 {
        shorty_text += 1;
    }
    shorty_text += 1;
    assert_eq!(&b[shorty_text..shorty_text + 2], b"V\0");
    let map = read_u32(b, 52) as usize;
    assert!(map < b.len() && map % 4 == 0);
    let entries = read_u32(b, map) as usize;
    assert_eq!(entries, 10);
    let mut kinds = BTreeSet::new();
    let mut last = None;
    for i in 0..entries {
        let p = map + 4 + i * 12;
        let kind = u16::from_le_bytes(b[p..p + 2].try_into().unwrap());
        let size = read_u32(b, p + 4);
        let offset = read_u32(b, p + 8);
        assert!(kinds.insert(kind));
        assert!(size > 0);
        assert!((offset as usize) < b.len());
        if let Some(previous) = last {
            assert!(offset > previous);
        }
        last = Some(offset);
    }
    let class_defs = read_u32(b, 100) as usize;
    assert_eq!(read_u32(b, 96), 1);
    let class_data = read_u32(b, class_defs + 24) as usize;
    assert!(class_data > class_defs && class_data < map);
    assert_eq!(&b[class_data..class_data + 5], &[0, 0, 1, 0, 0]);
}

#[test]
fn object_ordering_puts_the_class_after_object() {
    let bytes = encode_minimal_dex(&MinimalClass::new("Lzz/Last;").unwrap()).unwrap();
    assert_eq!(read_u32(&bytes, 32) as usize, bytes.len());
    let indexes = Indexes::build(&MinimalClass::new("Lzz/Last;").unwrap()).unwrap();
    assert_eq!(indexes.strings, vec!["<init>", "Ljava/lang/Object;", "Lzz/Last;", "V"]);
    assert_eq!((indexes.class_type, indexes.object_type), (1, 0));
    assert_eq!((indexes.own_method, indexes.object_method), (1, 0));
}

#[test]
fn supplementary_characters_are_counted_in_utf16_units() {
    let bytes = encode_minimal_dex(&MinimalClass::new("Ldev/\u{1F600};").unwrap()).unwrap();
    assert_eq!(read_u32(&bytes, 32) as usize, bytes.len());
    assert_eq!(read_u32(&bytes, 8), adler32(&bytes[12..]));
}
