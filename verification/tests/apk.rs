use aic::apk::{
    assemble_apk, assemble_apk_files, assemble_apk_resources, crc32, inject_stored_zip, u16_at, u32_at,
    valid_apk_entry, ZipError,
};

fn empty_zip() -> Vec<u8> {
    let mut empty = vec![0x50, 0x4b, 0x05, 0x06];
    empty.resize(22, 0);
    empty
}

#[test]
fn zip_alignment_and_bad_input() {
    let empty = empty_zip();
    for name in ["classes.dex", "x", "abcd"] {
        let zip = inject_stored_zip(&empty, name, b"dex payload").unwrap();
        let offset = 30 + usize::from(u16_at(&zip, 26).unwrap()) + usize::from(u16_at(&zip, 28).unwrap());
        assert_eq!(offset % 4, 0);
        assert_eq!(&zip[offset..offset + 11], b"dex payload");
        assert!(inject_stored_zip(&zip, name, b"again").is_err());
        for len in 0..zip.len() {
            assert!(inject_stored_zip(&zip[..len], "new", b"").is_err());
        }
    }
    assert_eq!(crc32(b"123456789"), 0xcbf4_3926);
}

#[test]
fn missing_end_record_is_reported() {
    assert_eq!(inject_stored_zip(b"not a zip", "x", b""), Err(ZipError("Missing ZIP end record")));
}

#[test]
fn duplicate_entry_is_reported() {
    let zip = inject_stored_zip(&empty_zip(), "a", b"1").unwrap();
    assert_eq!(inject_stored_zip(&zip, "a", b"2"), Err(ZipError("Duplicate ZIP entry")));
}

#[test]
fn apk_entry_count_and_order() {
    let apk = assemble_apk(b"manifest", b"dex").unwrap();
    let end = apk.len() - 22;
    assert_eq!(u32_at(&apk, end).unwrap(), 0x0605_4b50);
    assert_eq!(u16_at(&apk, end + 10).unwrap(), 2);
    assert!(apk.windows(19).any(|w| w == b"AndroidManifest.xml"));
    let files = vec![("classes.dex".to_string(), vec![1u8]), ("classes2.dex".to_string(), vec![2u8, 3])];
    let apk = assemble_apk_files(b"m", &files).unwrap();
    assert_eq!(u16_at(&apk, apk.len() - 12).unwrap(), 3);
}

#[test]
fn resource_entries_must_be_safe_paths_under_res() {
    let dex = vec![("classes.dex".to_string(), vec![0u8])];
    let good = vec![("res/mipmap/launcher.png".to_string(), vec![1u8])];
    let apk = assemble_apk_resources(b"m", b"table", &good, &dex).unwrap();
    assert_eq!(u16_at(&apk, apk.len() - 12).unwrap(), 4);
    for bad in ["res/../x", "assets/x", "res//x", "/res/x", "res\\x", "res/."] {
        let entries = vec![(bad.to_string(), vec![1u8])];
        assert_eq!(
            assemble_apk_resources(b"m", b"", &entries, &dex),
            Err(ZipError("Invalid resource ZIP entry name"))
        );
    }
    assert!(valid_apk_entry("res/a.b/c"));
    assert!(!valid_apk_entry("res/"));
    assert!(!valid_apk_entry(""));
    assert!(!valid_apk_entry("res/ü"));
}

#[test]
fn crc_of_empty_input_is_zero() {
    assert_eq!(crc32(b""), 0);
    assert_eq!(crc32(b"a"), 0xe8b7_be43);
}

#[test]
fn duplicate_dex_names_are_refused() {
    let files = vec![("classes.dex".to_string(), b"a".to_vec()), ("classes.dex".to_string(), b"b".to_vec())];
    assert_eq!(assemble_apk_files(b"<m/>", &files), Err(ZipError("Duplicate ZIP entry")));
    let manifest_clash = vec![("AndroidManifest.xml".to_string(), b"a".to_vec())];
    assert_eq!(assemble_apk_files(b"<m/>", &manifest_clash), Err(ZipError("Duplicate ZIP entry")));
}

#[test]
fn central_directory_lists_entries_in_order() {
    let apk = assemble_apk(b"manifest", b"dex").unwrap();
    let end = apk.len() - 22;
    let mut at = u32_at(&apk, end + 16).unwrap() as usize;
    let mut names = Vec::new();
    for _ in 0..u16_at(&apk, end + 10).unwrap() {
        assert_eq!(u32_at(&apk, at).unwrap(), 0x0201_4b50);
        let n = u16_at(&apk, at + 28).unwrap() as usize;
        let extra = u16_at(&apk, at + 30).unwrap() as usize;
        let comment = u16_at(&apk, at + 32).unwrap() as usize;
        names.push(apk[at + 46..at + 46 + n].to_vec());
        at += 46 + n + extra + comment;
    }
    assert_eq!(at, end);
    assert_eq!(names, vec![b"AndroidManifest.xml".to_vec(), b"classes.dex".to_vec()]);
}
