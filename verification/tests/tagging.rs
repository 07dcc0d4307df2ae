use baasic_media_player::import::hash_hint;
use baasic_media_player::metadata::{
    art_path_after, cover_art_file, cover_art_url, decimal_text, identified_from_match, lookup_body,
    metadata_from_tags, pick_cover_image, AcoustidMatch, ArtistInfo, CoverImage, RawTags,
    RecordingInfo, ReleaseInfo,
};

fn tags() -> RawTags {
    RawTags {
        title: Some("Title".to_string()),
        artist: Some("Artist".to_string()),
        album: Some("Album".to_string()),
        album_artist: Some("AA".to_string()),
        genre: Some("Rock".to_string()),
        year: Some(1999),
        track: Some(4),
        disk: Some(1),
    }
}

#[test]
fn untagged_file_gets_defaults() {
    let m = metadata_from_tags(&None, "/m/My Song.mp3", 1500);
    assert_eq!(m.title, "My Song");
    assert_eq!(m.artist, "Unknown Artist");
    assert_eq!(m.album, "Unknown Album");
    assert_eq!(m.album_artist, "");
    assert_eq!(m.genre, "");
    assert_eq!(m.year, None);
    assert_eq!(m.track_number, None);
    assert_eq!(m.duration_ms, 1500);
    assert!(m.needs_identification);
}

#[test]
fn tagged_file_keeps_its_tags() {
    let m = metadata_from_tags(&Some(tags()), "/m/x.flac", 200_000);
    assert_eq!(m.title, "Title");
    assert_eq!(m.artist, "Artist");
    assert_eq!(m.album, "Album");
    assert_eq!(m.album_artist, "AA");
    assert_eq!(m.genre, "Rock");
    assert_eq!(m.year, Some(1999));
    assert_eq!(m.track_number, Some(4));
    assert_eq!(m.disc_number, Some(1));
    assert_eq!(m.duration_ms, 200_000);
    assert!(!m.needs_identification);
}

#[test]
fn blank_tags_count_as_missing() {
    let mut t = tags();
    t.title = Some("   ".to_string());
    t.artist = Some("\t".to_string());
    let m = metadata_from_tags(&Some(t), "/m/file.name.ogg", 0);
    assert_eq!(m.title, "file.name");
    assert_eq!(m.artist, "Unknown Artist");
    assert_eq!(m.album, "Album");
    assert!(m.needs_identification);
    let mut t = tags();
    t.album = None;
    let m = metadata_from_tags(&Some(t), "/m/a.mp3", 0);
    assert_eq!(m.album, "Unknown Album");
    assert!(m.needs_identification);
    let m = metadata_from_tags(&None, "/", 0);
    assert_eq!(m.title, "Unknown Title");
}

fn full_match() -> AcoustidMatch {
    AcoustidMatch {
        id: Some("acid".to_string()),
        recordings: Some(vec![RecordingInfo {
            id: Some("rec".to_string()),
            title: Some("Real Title".to_string()),
            artists: Some(vec![ArtistInfo { name: Some("Real Artist".to_string()) }]),
            releases: Some(vec![ReleaseInfo {
                id: Some("rel".to_string()),
                title: Some("Real Album".to_string()),
                year: Some(2004),
            }]),
        }]),
    }
}

#[test]
fn identification_reads_the_first_recording() {
    let id = identified_from_match(&Some(full_match())).ok().unwrap();
    assert_eq!(id.title, "Real Title");
    assert_eq!(id.artist, "Real Artist");
    assert_eq!(id.album, "Real Album");
    assert_eq!(id.year, Some(2004));
    assert_eq!(id.acoustid, Some("acid".to_string()));
    assert_eq!(id.recording_id, Some("rec".to_string()));
    assert_eq!(id.release_id, Some("rel".to_string()));
    assert_eq!(id.art_path, None);
}

#[test]
fn identification_fills_unknowns() {
    let m = AcoustidMatch {
        id: None,
        recordings: Some(vec![RecordingInfo { id: None, title: None, artists: Some(Vec::new()), releases: None }]),
    };
    let id = identified_from_match(&Some(m)).ok().unwrap();
    assert_eq!(id.title, "Unknown Title");
    assert_eq!(id.artist, "Unknown Artist");
    assert_eq!(id.album, "Unknown Album");
    assert_eq!(id.year, None);
    assert_eq!(id.release_id, None);
}

#[test]
fn identification_errors() {
    assert_eq!(identified_from_match(&None).err().unwrap(), "no AcoustID match found");
    let m = AcoustidMatch { id: Some("x".to_string()), recordings: None };
    assert_eq!(identified_from_match(&Some(m)).err().unwrap(), "no recording in AcoustID result");
    let m = AcoustidMatch { id: Some("x".to_string()), recordings: Some(Vec::new()) };
    assert_eq!(identified_from_match(&Some(m)).err().unwrap(), "no recording in AcoustID result");
}

#[test]
fn lookup_body_encodes_key_and_fingerprint() {
    assert_eq!(
        lookup_body("k y", 215, "AQAB+/="),
        "client=k%20y&meta=recordings+releasegroups+compress&duration=215&fingerprint=AQAB%2B%2F%3D"
    );
    assert_eq!(
        lookup_body("abc-_.~", 0, "x"),
        "client=abc-_.~&meta=recordings+releasegroups+compress&duration=0&fingerprint=x"
    );
}

#[test]
fn decimal_text_writes_integers() {
    assert_eq!(decimal_text(0), "0");
    assert_eq!(decimal_text(42), "42");
    assert_eq!(decimal_text(-7), "-7");
    assert_eq!(decimal_text(i64::MAX), "9223372036854775807");
    assert_eq!(decimal_text(i64::MIN), "-9223372036854775808");
}

#[test]
fn cover_choice_prefers_front_thumbnail() {
    let img = |front: Option<bool>, image: Option<&str>, large: Option<&str>| CoverImage {
        front,
        image: image.map(|s| s.to_string()),
        large_thumbnail: large.map(|s| s.to_string()),
    };
    let images = vec![
        img(Some(false), Some("back"), Some("back-l")),
        img(Some(true), Some("front"), Some("front-l")),
        img(Some(true), Some("front2"), None),
    ];
    assert_eq!(pick_cover_image(&images), Some("front-l".to_string()));
    let images = vec![img(None, Some("x"), None), img(Some(true), Some("front"), None)];
    assert_eq!(pick_cover_image(&images), Some("front".to_string()));
    let images = vec![img(Some(true), None, None), img(Some(true), Some("later"), None)];
    assert_eq!(pick_cover_image(&images), None);
    assert_eq!(pick_cover_image(&Vec::new()), None);
}

#[test]
fn cover_locations() {
    assert_eq!(cover_art_url("abc"), "https://coverartarchive.org/release/abc");
    assert_eq!(cover_art_file("/art", "0123456789ab"), "/art/0123456789ab.jpg");
    assert_eq!(hash_hint("0123456789abcdef"), "0123456789ab");
    assert_eq!(hash_hint("short"), "short");
}

#[test]
fn art_path_kept_only_with_a_release() {
    assert_eq!(art_path_after(&Some("rel".to_string()), Some("/art/x.jpg".to_string())), Some("/art/x.jpg".to_string()));
    assert_eq!(art_path_after(&Some("rel".to_string()), None), None);
    assert_eq!(art_path_after(&None, Some("/art/x.jpg".to_string())), None);
}
