use baasic_media_player::order::{key_compare, sort_keyed, text_compare, Part, Value};
use baasic_media_player::paths::{extension_chars, file_name_chars, path_key_of, split_path, stem_chars};
use baasic_media_player::scanner::{digest_hex, is_audio, select_audio_files};
use baasic_media_player::text::{chars_of, folded_chars, trimmed_chars};
use baasic_media_player::like::like;

fn cs(s: &str) -> Vec<char> {
    s.chars().collect()
}

fn text(v: Option<Vec<char>>) -> Option<String> {
    v.map(|c| c.into_iter().collect())
}

#[test]
fn audio_extensions_in_any_case() {
    assert!(is_audio("/m/song.mp3"));
    assert!(is_audio("/m/song.MP3"));
    assert!(is_audio("/m/a.b.FlAc"));
    for e in ["m4a", "ogg", "opus", "wav", "aac", "wma"] {
        assert!(is_audio(&format!("x.{e}")));
    }
    assert!(!is_audio("/m/cover.jpg"));
    assert!(!is_audio("/m/noext"));
    assert!(!is_audio("/m/.mp3"));
    assert!(!is_audio("/m/song.mp3.txt"));
    assert!(!is_audio(""));
}

#[test]
fn select_keeps_audio_in_path_order() {
    let walked = vec![
        "/m/b.mp3".to_string(),
        "/m/a b.mp3".to_string(),
        "/m/notes.txt".to_string(),
        "/m/a/b.flac".to_string(),
        "/m/A.ogg".to_string(),
    ];
    let got = select_audio_files(walked);
    assert_eq!(got, vec!["/m/A.ogg", "/m/a/b.flac", "/m/a b.mp3", "/m/b.mp3"]);
    assert!(select_audio_files(Vec::new()).is_empty());
}

#[test]
fn digest_is_lowercase_sha256_hex() {
    assert_eq!(digest_hex(b"abc"), "ba7816bf8f01cfea414140de5dae2223b00361a396177a9cb410ff61f20015ad");
    assert_eq!(digest_hex(b""), "e3b0c44298fc1c149afbf4c8996fb92427ae41e4649b934ca495991b7852b855");
    assert_ne!(digest_hex(b"abc"), digest_hex(b"abd"));
}

#[test]
fn path_parts_as_std_reads_them() {
    assert_eq!(text(file_name_chars("/m/song.mp3")), Some("song.mp3".to_string()));
    assert_eq!(text(stem_chars("/m/song.mp3")), Some("song".to_string()));
    assert_eq!(text(extension_chars("/m/song.mp3")), Some("mp3".to_string()));
    assert_eq!(text(stem_chars("/m/a.tar.gz")), Some("a.tar".to_string()));
    assert_eq!(text(extension_chars("/m/a.tar.gz")), Some("gz".to_string()));
    assert_eq!(text(stem_chars("/m/.hidden")), Some(".hidden".to_string()));
    assert_eq!(text(extension_chars("/m/.hidden")), None);
    assert_eq!(text(file_name_chars("/m/dir/")), Some("dir".to_string()));
    assert_eq!(text(file_name_chars("/m/./")), Some("m".to_string()));
    assert_eq!(text(file_name_chars("/m/..")), None);
    assert_eq!(text(file_name_chars("/")), None);
    assert_eq!(text(stem_chars("")), None);
    assert_eq!(split_path("/a//b").len(), 4);
}

#[test]
fn path_keys_order_component_by_component() {
    let a = path_key_of("/m/a/b.flac");
    let b = path_key_of("/m/a b.mp3");
    assert_eq!(key_compare(&a, &b), -1);
    assert_eq!(key_compare(&b, &a), 1);
    assert_eq!(key_compare(&a, &path_key_of("/m//a/./b.flac")), 0);
}

#[test]
fn text_and_value_comparison() {
    assert_eq!(text_compare(&cs("abc"), &cs("abd")), -1);
    assert_eq!(text_compare(&cs("ab"), &cs("abc")), -1);
    assert_eq!(text_compare(&cs("b"), &cs("abc")), 1);
    assert_eq!(text_compare(&cs("B"), &cs("a")), -1);
    assert_eq!(text_compare(&cs("same"), &cs("same")), 0);
    let null = vec![Part::Asc(Value::Null)];
    let one = vec![Part::Asc(Value::Int(1))];
    let txt = vec![Part::Asc(Value::Text(cs("a")))];
    assert_eq!(key_compare(&null, &one), -1);
    assert_eq!(key_compare(&one, &txt), -1);
    let d1 = vec![Part::Desc(Value::Int(1))];
    let d2 = vec![Part::Desc(Value::Int(2))];
    assert_eq!(key_compare(&d2, &d1), -1);
}

#[test]
fn sort_keyed_is_stable_enough_and_ordered() {
    let items = vec![
        (vec![Part::Asc(Value::Int(3))], "c"),
        (vec![Part::Asc(Value::Int(1))], "a"),
        (vec![Part::Asc(Value::Int(2))], "b"),
        (vec![Part::Asc(Value::Null)], "n"),
    ];
    let out: Vec<&str> = sort_keyed(items).into_iter().map(|p| p.1).collect();
    assert_eq!(out, vec!["n", "a", "b", "c"]);
}

#[test]
fn text_helpers() {
    assert_eq!(chars_of("héllo"), cs("héllo"));
    assert_eq!(folded_chars("AbC-Ü"), cs("abc-Ü"));
    assert_eq!(trimmed_chars("  a b \t\n"), cs("a b"));
    assert_eq!(trimmed_chars("\u{3000}x\u{a0}"), cs("x"));
    assert_eq!(trimmed_chars("   "), cs(""));
}

#[test]
fn like_matches_as_sqlite_does() {
    assert!(like(&cs("%abc%"), &cs("xxABCyy")));
    assert!(like(&cs("a_c"), &cs("abc")));
    assert!(!like(&cs("a_c"), &cs("ac")));
    assert!(like(&cs("%"), &cs("")));
    assert!(!like(&cs(""), &cs("a")));
    assert!(like(&cs("ü"), &cs("ü")));
    assert!(!like(&cs("ü"), &cs("Ü")));
    assert!(like(&cs("%b%d"), &cs("abcd")));
    assert!(!like(&cs("%b%d"), &cs("abcde")));
}

#[test]
fn digest_is_sixty_four_digits() {
    assert_eq!(digest_hex(b"some audio bytes").len(), 64);
    assert_eq!(digest_hex(&[0u8; 1000]).len(), 64);
}
