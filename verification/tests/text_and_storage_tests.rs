use moments::hashing::content_hash;
use moments::models::{MediaItem, MediaType};
use moments::storage::{
    assemble_metadata, media_item_from_row, media_row, media_type_from_database, media_type_label,
    root_from_row,
};
use moments::text::{decimal_string, lower_hex_string, str_eq_ignore_ascii_case, trim_string};

#[test]
fn trim_removes_unicode_white_space() {
    assert_eq!(trim_string("  a b \t\n"), "a b");
    assert_eq!(trim_string("\u{3000}x\u{a0}"), "x");
    assert_eq!(trim_string("   "), "");
    assert_eq!(trim_string(""), "");
}

#[test]
fn decimal_and_hex_text() {
    assert_eq!(decimal_string(0), "0");
    assert_eq!(decimal_string(1234567890), "1234567890");
    assert_eq!(decimal_string(u64::MAX), "18446744073709551615");
    assert_eq!(lower_hex_string(&[0x00, 0xab, 0x0f, 0xff]), "00ab0fff");
    assert_eq!(lower_hex_string(&[]), "");
}

#[test]
fn ascii_case_insensitive_comparison() {
    assert!(str_eq_ignore_ascii_case("Face Scanning", "face scanning"));
    assert!(!str_eq_ignore_ascii_case("face", "faces"));
    assert!(!str_eq_ignore_ascii_case("Éa", "éa"));
}

#[test]
fn content_hash_is_sha256_hex() {
    assert_eq!(
        content_hash(b"abc"),
        "ba7816bf8f01cfea414140de5dae2223b00361a396177a9cb410ff61f20015ad"
    );
    assert_eq!(
        content_hash(b""),
        "e3b0c44298fc1c149afbf4c8996fb92427ae41e4649b934ca495991b7852b855"
    );
    assert_eq!(content_hash(b"photo bytes").len(), 64);
}

#[test]
fn stored_kind_reads_back() {
    assert_eq!(media_type_from_database("video"), MediaType::Video);
    assert_eq!(media_type_from_database("VIDEO"), MediaType::Video);
    assert_eq!(media_type_from_database("photo"), MediaType::Photo);
    assert_eq!(media_type_from_database("anything"), MediaType::Photo);
    assert_eq!(media_type_label(MediaType::Photo), "photo");
    assert_eq!(media_type_label(MediaType::Video), "video");
    for t in [MediaType::Photo, MediaType::Video] {
        assert_eq!(media_type_from_database(&media_type_label(t)), t);
    }
}

#[test]
fn rows_to_records() {
    let root = root_from_row("root-1".to_string(), "trip".to_string(), "/p/trip".to_string());
    assert_eq!(root.id, "root-1");
    assert_eq!(root.media_count, 0);
    let item = media_item_from_row(
        "m".to_string(),
        "root-1".to_string(),
        "a.mov".to_string(),
        "/p/trip/a.mov".to_string(),
        "Video",
        None,
    );
    assert_eq!(item.media_type, MediaType::Video);
    let stored = MediaItem {
        id: "m2".to_string(),
        root_id: "root-1".to_string(),
        name: "b.jpg".to_string(),
        path: "/p/trip/b.jpg".to_string(),
        media_type: MediaType::Photo,
        content_hash: Some("ff".to_string()),
    };
    let row = media_row(&stored);
    assert_eq!(row, (
        "m2".to_string(),
        "b.jpg".to_string(),
        "/p/trip/b.jpg".to_string(),
        "photo".to_string(),
        Some("ff".to_string())
    ));
}

#[test]
fn metadata_rows_collect_tags_once() {
    let tags = vec![
        ("a".to_string(), "x".to_string()),
        ("b".to_string(), "y".to_string()),
        ("a".to_string(), "z".to_string()),
    ];
    let rows = vec![("a".to_string(), 1), ("b".to_string(), 0), ("a".to_string(), 0), ("c".to_string(), 7)];
    let md = assemble_metadata(&tags, &rows);
    assert_eq!(md.len(), 4);
    assert_eq!(md[0].media_id, "a");
    assert!(md[0].favorite);
    assert_eq!(md[0].tags, vec!["x", "z"]);
    assert_eq!(md[1].tags, vec!["y"]);
    assert!(!md[1].favorite);
    assert!(md[2].tags.is_empty());
    assert!(md[3].favorite);
    assert!(md[3].tags.is_empty());
    assert!(md[3].face_ids.is_empty());
}
