use aic::res::ids::ResourceIds;
use aic::res::manifest::Manifest;
use aic::res::table::{package_resources, FileResource, StringValue};
use aic::res::{chunk_size, index, ResourceError};

#[test]
fn application_string_ids_are_stable_and_order_independent() {
    let first = ResourceIds::strings(&["greeting", "action_save"]).unwrap();
    let second = ResourceIds::strings(&["action_save", "greeting"]).unwrap();
    assert_eq!(first, second);
    assert_eq!(first.string("action_save"), Some(0x7f01_0000));
    assert_eq!(first.string("greeting"), Some(0x7f01_0001));
    assert_eq!(first.string("missing"), None);
    assert_eq!(first.iter_strings(), vec![("action_save", 0x7f01_0000), ("greeting", 0x7f01_0001)]);
    assert_eq!(
        ResourceIds::strings(&["same", "same"]).unwrap_err(),
        ResourceError("Duplicate string resource name")
    );
}

#[test]
fn bounded_resource_package_is_reproducible() {
    let strings = vec![
        StringValue { name: "greeting".into(), locale: None, value: "Hello".into() },
        StringValue { name: "greeting".into(), locale: Some("zh-TW".into()), value: "你好".into() },
        StringValue { name: "greeting".into(), locale: Some("es-419".into()), value: "Hola".into() },
    ];
    let colors = vec![("accent".into(), 0xff44_5566), ("primary".into(), 0xff11_2233)];
    let files = vec![FileResource { name: "launcher".into(), extension: "png".into(), bytes: vec![1, 2, 3], launcher: true }];
    let first = package_resources("dev.aic.resources", &strings, &colors, &files, Some(("app", "primary", "accent"))).unwrap();
    let second = package_resources("dev.aic.resources", &strings, &colors, &files, Some(("app", "primary", "accent"))).unwrap();
    assert_eq!(first, second);
    assert_eq!(first.ids.string("greeting"), Some(0x7f01_0000));
    assert_eq!(first.ids.color("accent"), Some(0x7f02_0000));
    assert_eq!(first.ids.mipmap("launcher"), Some(0x7f04_0000));
    assert_eq!(first.ids.style("app"), Some(0x7f05_0000));
    assert_eq!(&first.table[..2], &0x0002_u16.to_le_bytes());
}

#[test]
fn limits_invalid_xml_and_typed_attributes() {
    assert!(chunk_size(usize::MAX).is_err());
    assert!(chunk_size(u32::MAX as usize).is_err());
    assert!(Manifest::new("dev.aic.test", "bad\0", "Main").binary().is_err());
    assert!(Manifest::new("dev.aic.test", "bad\u{ffff}", "Main").binary().is_err());
    let bytes = Manifest::new("dev.aic.test", "Label", "Main").binary().unwrap();
    let read = |at: usize| u32::from_le_bytes(bytes[at..at + 4].try_into().unwrap());
    let mut at = 8;
    let mut typed = vec![];
    while at < bytes.len() {
        let kind = u16::from_le_bytes(bytes[at..at + 2].try_into().unwrap());
        if kind == 0x180 {
            let ids: Vec<_> = (at + 8..at + read(at + 4) as usize).step_by(4).map(read).collect();
            assert_eq!(
                ids,
                vec![0x0101_0000, 0x0101_0001, 0x0101_0002, 0x0101_0003, 0x0101_0010, 0x0101_020c, 0x0101_0270]
            );
        }
        if kind == 0x102 {
            let count = u16::from_le_bytes(bytes[at + 28..at + 30].try_into().unwrap());
            for i in 0..usize::from(count) {
                let attr = at + 36 + i * 20;
                assert_eq!(&bytes[attr + 12..attr + 15], &[8, 0, 0]);
                if bytes[attr + 15] != 3 {
                    typed.push((bytes[attr + 15], read(attr + 16)));
                }
            }
        }
        at += read(at + 4) as usize;
    }
    assert_eq!(typed, vec![(0x10, 23), (0x10, 35), (1, 0x0103_0241), (0x12, u32::MAX)]);
}

#[test]
fn unicode_boundaries_and_chunk_layout() {
    for label in [
        "\u{7b46}\u{8a18} \u{1f4dd} &\"<>\r\n\t".to_string(),
        "x".repeat(32767),
        "x".repeat(32768),
        "x".repeat(65536),
    ] {
        let m = Manifest::new("dev.aic.test", &label, "MainActivity");
        let bytes = m.binary().unwrap();
        assert_eq!(bytes, m.binary().unwrap());
        assert_eq!(u32::from_le_bytes(bytes[4..8].try_into().unwrap()) as usize, bytes.len());
        let mut at = 8;
        while at < bytes.len() {
            assert_eq!(at % 4, 0);
            let size = u32::from_le_bytes(bytes[at + 4..at + 8].try_into().unwrap()) as usize;
            assert!(size >= 8);
            at += size;
        }
        assert_eq!(at, bytes.len());
    }
    assert!(Manifest::new("dev.aic.test", "&\"<>", "Main").text().contains("&amp;&quot;&lt;&gt;"));
    assert!(index(&[], "missing").is_err());
}

#[test]
fn manifest_text_lists_activities_in_order() {
    let text = Manifest::new_multi("dev.aic.x", "X", &["Main".to_string(), "Detail".to_string()]).text();
    assert!(text.starts_with("<?xml version=\"1.0\" encoding=\"utf-8\"?>\n<manifest xmlns:android="));
    let main = text.find(".Main").unwrap();
    let detail = text.find(".Detail").unwrap();
    assert!(main < detail);
    assert!(text.contains("android:exported=\"true\""));
    assert!(text.contains("android:exported=\"false\""));
}

#[test]
fn theme_and_icon_resources_reach_the_manifest() {
    let text = Manifest::new_multi_resources("dev.aic.x", "X", &["Main".to_string()], Some(0x7f05_0000), Some(0x7f04_0000)).text();
    assert!(text.contains("@style/app"));
    assert!(text.contains("@mipmap/launcher"));
}

#[test]
fn empty_resources_emit_no_table() {
    let p = package_resources("dev.aic.x", &[], &[], &[], None).unwrap();
    assert!(p.table.is_empty());
    assert!(p.entries.is_empty());
    assert_eq!(p.ids.string("x"), None);
}

#[test]
fn unknown_theme_color_is_reported() {
    let colors = vec![("primary".to_string(), 0xff11_2233)];
    assert_eq!(
        package_resources("dev.aic.x", &[], &colors, &[], Some(("app", "primary", "missing"))).unwrap_err(),
        ResourceError("Unknown accent theme color")
    );
}

#[test]
fn ids_of_all_types_follow_sorted_names() {
    let ids = ResourceIds::all(&["b", "a"], &["z"], &["d2", "d1"], &[], &["app"]).unwrap();
    assert_eq!(ids.string("a"), Some(0x7f01_0000));
    assert_eq!(ids.string("b"), Some(0x7f01_0001));
    assert_eq!(ids.color("z"), Some(0x7f02_0000));
    assert_eq!(ids.drawable("d1"), Some(0x7f03_0000));
    assert_eq!(ids.drawable("d2"), Some(0x7f03_0001));
    assert_eq!(ids.style("app"), Some(0x7f05_0000));
    assert_eq!(ResourceIds::all(&[], &["c", "c"], &[], &[], &[]).unwrap_err(), ResourceError("Duplicate resource name"));
}

#[test]
fn manifest_text_is_exact() {
    let text = Manifest::new_multi("dev.aic.x", "X & Y", &["Main".to_string(), "Detail".to_string()]).text();
    let expected = [
        "<?xml version=\"1.0\" encoding=\"utf-8\"?>\n",
        "<manifest xmlns:android=\"http://schemas.android.com/apk/res/android\" package=\"dev.aic.x\">\n",
        "  <uses-sdk android:minSdkVersion=\"23\" android:targetSdkVersion=\"35\" />\n",
        "  <application android:label=\"X &amp; Y\" android:theme=\"@android:style/Theme.Material.Light.NoActionBar\">\n",
        "    <activity android:name=\".Main\" android:exported=\"true\">\n",
        "      <intent-filter>\n",
        "        <action android:name=\"android.intent.action.MAIN\" />\n",
        "        <category android:name=\"android.intent.category.LAUNCHER\" />\n",
        "      </intent-filter>\n",
        "    </activity>\n",
        "    <activity android:name=\".Detail\" android:exported=\"false\" />\n",
        "  </application>\n",
        "</manifest>\n",
    ]
    .concat();
    assert_eq!(text, expected);
}

#[test]
fn manifest_without_activities_closes_application_inline() {
    let text = Manifest::new_multi_resources("dev.aic.x", "X", &[], Some(0x7f05_0000), Some(0x7f04_0000)).text();
    assert!(text.contains(
        "  <application android:label=\"X\" android:theme=\"@style/app\" android:icon=\"@mipmap/launcher\" />\n"
    ));
}
