use stt_app::hashing::{sha256_hex, ContentHasher};
use stt_app::naming::{
    asset_file_name, docx_file_name, hex_lower, import_names, import_step, new_run_file_names,
    ImportStep,
    upload_name_for,
};
use stt_app::text::{
    ascii_lowercase, chars_of, i64_to_decimal, parse_i64, split_chars, trim,
    u64_to_decimal,
};

fn is_uuid_shape(s: &str) -> bool {
    let cs: Vec<char> = s.chars().collect();
    cs.len() == 36
        && cs.iter().enumerate().all(|(i, c)| {
            if i == 8 || i == 13 || i == 18 || i == 23 {
                *c == '-'
            } else {
                c.is_ascii_digit() || ('a'..='f').contains(c)
            }
        })
}

#[test]
fn parse_i64_accepts_signs_and_digits() {
    assert_eq!(parse_i64("42"), Some(42));
    assert_eq!(parse_i64("-7"), Some(-7));
    assert_eq!(parse_i64("+5"), Some(5));
    assert_eq!(parse_i64("007"), Some(7));
    assert_eq!(parse_i64("-0"), Some(0));
}

#[test]
fn parse_i64_rejects_malformed_and_out_of_range() {
    assert_eq!(parse_i64(""), None);
    assert_eq!(parse_i64("-"), None);
    assert_eq!(parse_i64("+"), None);
    assert_eq!(parse_i64("1a"), None);
    assert_eq!(parse_i64(" 1"), None);
    assert_eq!(parse_i64("9223372036854775807"), Some(i64::MAX));
    assert_eq!(parse_i64("9223372036854775808"), None);
    assert_eq!(parse_i64("-9223372036854775808"), Some(i64::MIN));
    assert_eq!(parse_i64("-9223372036854775809"), None);
}

#[test]
fn decimal_formatting_matches_to_string() {
    for n in [0i64, 7, 10, 12345, -1, -90, i64::MAX, i64::MIN] {
        assert_eq!(i64_to_decimal(n), n.to_string());
        assert_eq!(parse_i64(&i64_to_decimal(n)), Some(n));
    }
    assert_eq!(u64_to_decimal(0), "0");
    assert_eq!(u64_to_decimal(u64::MAX), u64::MAX.to_string());
}

#[test]
fn ascii_lowercase_folds_only_ascii_letters() {
    assert_eq!(ascii_lowercase("MiXeD.MP3"), "mixed.mp3");
    assert_eq!(ascii_lowercase("ÉCOLE"), "École");
}

#[test]
fn trim_removes_unicode_white_space() {
    assert_eq!(trim("  key \n"), "key");
    assert_eq!(trim("\u{3000}k e y\u{a0}"), "k e y");
    assert_eq!(trim("   "), "");
    assert_eq!(trim(""), "");
}

#[test]
fn split_keeps_empty_pieces() {
    let pieces: Vec<String> = split_chars(&chars_of("a\nb\n"), '\n')
        .into_iter()
        .map(|v| v.into_iter().collect())
        .collect();
    assert_eq!(pieces, vec!["a", "b", ""]);
    let one: Vec<Vec<char>> = split_chars(&chars_of(""), '\n');
    assert_eq!(one, vec![Vec::<char>::new()]);
}

#[test]
fn upload_name_prefixes_and_sanitizes() {
    assert_eq!(
        upload_name_for("0123456789ab", "my file (1).mp3"),
        "01234567_my_file__1_.mp3"
    );
    assert_eq!(upload_name_for("abcdefgh", "a-b_c.wav"), "abcdefgh_a-b_c.wav");
}

#[test]
fn upload_name_keeps_unicode_letters() {
    assert_eq!(upload_name_for("abcdefgh-1", "café 録音.m4a"), "abcdefgh_café_録音.m4a");
}

#[test]
fn upload_names_differ_when_id_prefixes_differ() {
    let a = upload_name_for("aaaaaaaa-1111", "same.mp3");
    let b = upload_name_for("aaaaaaab-1111", "same.mp3");
    assert_ne!(a, b);
}

#[test]
fn new_ids_are_hyphenated_uuids() {
    let (a, _) = new_run_file_names("x.wav");
    let (b, _) = new_run_file_names("x.wav");
    assert!(is_uuid_shape(&a));
    assert!(is_uuid_shape(&b));
    assert_ne!(a, b);
}

#[test]
fn new_run_file_names_use_the_new_id() {
    let (id, name) = new_run_file_names("talk #2.wav");
    assert!(is_uuid_shape(&id));
    assert_eq!(name, format!("{}_talk__2.wav", &id[..8]));
}

#[test]
fn asset_names_are_content_addressed() {
    assert_eq!(asset_file_name("abc123", "mp3"), "abc123.mp3");
    assert_eq!(asset_file_name("abc123", ""), "abc123");
    assert_eq!(asset_file_name("abc123", "mp3"), asset_file_name("abc123", "mp3"));
}

#[test]
fn hex_is_lower_case_two_digits_per_byte() {
    assert_eq!(hex_lower(&vec![0x00, 0xff, 0x1a, 0x09]), "00ff1a09");
    assert_eq!(hex_lower(&vec![]), "");
}

#[test]
fn sha256_of_known_input() {
    let mut h = ContentHasher::new();
    h.update(b"abc");
    assert_eq!(
        sha256_hex(h),
        "ba7816bf8f01cfea414140de5dae2223b00361a396177a9cb410ff61f20015ad"
    );
}

#[test]
fn sha256_does_not_depend_on_chunking() {
    let data: Vec<u8> = (0..1000u32).map(|i| (i % 251) as u8).collect();
    let mut whole = ContentHasher::new();
    whole.update(&data);
    let mut parts = ContentHasher::new();
    for chunk in data.chunks(7) {
        parts.update(chunk);
    }
    assert_eq!(sha256_hex(whole), sha256_hex(parts));
    let empty = ContentHasher::new();
    assert_eq!(
        sha256_hex(empty),
        "e3b0c44298fc1c149afbf4c8996fb92427ae41e4649b934ca495991b7852b855"
    );
}

#[test]
fn docx_names_drop_the_last_extension() {
    assert_eq!(docx_file_name("meeting.mp3"), "meeting.docx");
    assert_eq!(docx_file_name("a.b.wav"), "a.b.docx");
    assert_eq!(docx_file_name("noext"), "noext.docx");
    assert_eq!(docx_file_name(".hidden"), ".hidden.docx");
    assert_eq!(docx_file_name(".."), "...docx");
}

#[test]
fn different_contents_get_different_asset_names() {
    let a = "a".repeat(64);
    let b = format!("{}b", "a".repeat(63));
    assert_ne!(asset_file_name(&a, "mp3"), asset_file_name(&b, "mp3"));
    assert_ne!(asset_file_name(&a, ""), asset_file_name(&b, "wav"));
}

#[test]
fn imported_files_default_their_names() {
    assert_eq!(
        import_names(Some("talk.mp3".into()), Some("mp3".into())),
        ("talk.mp3".to_string(), "mp3".to_string())
    );
    assert_eq!(import_names(None, None), ("audio".to_string(), String::new()));
    assert_eq!(import_names(Some("README".into()), None), ("README".to_string(), String::new()));
}

fn asset(id: &str) -> stt_app::db::AssetDto {
    stt_app::db::AssetDto {
        id: id.into(),
        sha256: "ab".into(),
        original_name: "talk.mp3".into(),
        ext: "mp3".into(),
        size_bytes: 3,
        stored_path: "/audio/ab.mp3".into(),
        imported_at: "t".into(),
    }
}

#[test]
fn imports_reuse_assets_with_the_same_content() {
    match import_step(Some(asset("x1")), "ab", "mp3") {
        ImportStep::Reuse(a) => assert_eq!(a.id, "x1"),
        ImportStep::Store { .. } => panic!("expected reuse"),
    }
    match import_step(None, "ab", "mp3") {
        ImportStep::Store { stored_name } => assert_eq!(stored_name, "ab.mp3"),
        ImportStep::Reuse(_) => panic!("expected store"),
    }
    match import_step(None, "ab", "") {
        ImportStep::Store { stored_name } => assert_eq!(stored_name, "ab"),
        ImportStep::Reuse(_) => panic!("expected store"),
    }
}
