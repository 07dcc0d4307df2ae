use baasic_media_player::db::{Database, DbError, InsertTrack};

fn track(path: &str, title: &str, artist: &str, album: &str, number: Option<i32>) -> InsertTrack {
    InsertTrack {
        path: path.to_string(),
        title: title.to_string(),
        artist: artist.to_string(),
        album: album.to_string(),
        album_artist: String::new(),
        genre: String::new(),
        year: None,
        track_number: number,
        disc_number: None,
        duration_ms: 0,
        file_hash: format!("hash:{path}"),
        fingerprint: None,
        acoustid: None,
        musicbrainz_recording_id: None,
        musicbrainz_release_id: None,
        art_path: None,
        file_size: 0,
        added_at: 0,
    }
}

fn library() -> Database {
    let mut db = Database::new();
    db.insert_track(&track("/1.mp3", "Song Two", "beta", "Hits", Some(2))).unwrap();
    db.insert_track(&track("/2.mp3", "Song One", "Beta", "Hits", Some(1))).unwrap();
    db.insert_track(&track("/3.mp3", "Intro", "alpha", "Zed", None)).unwrap();
    db.insert_track(&track("/4.mp3", "Outro", "Alpha", "abc", Some(9))).unwrap();
    db
}

fn titles(v: &[baasic_media_player::models::Track]) -> Vec<String> {
    v.iter().map(|t| t.title.clone()).collect()
}

#[test]
fn all_tracks_order_ignores_case_of_artist_and_album() {
    let db = library();
    assert_eq!(titles(&db.all_tracks()), vec!["Outro", "Intro", "Song One", "Song Two"]);
}

#[test]
fn missing_track_number_sorts_first() {
    let mut db = Database::new();
    db.insert_track(&track("/a.mp3", "B", "X", "Y", Some(1))).unwrap();
    db.insert_track(&track("/b.mp3", "A", "X", "Y", None)).unwrap();
    assert_eq!(titles(&db.all_tracks()), vec!["A", "B"]);
}

#[test]
fn search_matches_title_artist_album_or_genre_in_any_case() {
    let db = library();
    assert_eq!(titles(&db.search_tracks("song").unwrap()), vec!["Song One", "Song Two"]);
    assert_eq!(titles(&db.search_tracks("ALPHA").unwrap()), vec!["Outro", "Intro"]);
    assert_eq!(titles(&db.search_tracks("zed").unwrap()), vec!["Intro"]);
    assert!(db.search_tracks("nothing here").unwrap().is_empty());
    assert_eq!(db.search_tracks("").unwrap().len(), 4);
}

#[test]
fn search_wildcards_act_as_like() {
    let db = library();
    // `_` stands for one character, `%` for any run
    assert_eq!(titles(&db.search_tracks("S_ng O").unwrap()), vec!["Song One"]);
    assert_eq!(titles(&db.search_tracks("In%ro").unwrap()), vec!["Intro"]);
}

#[test]
fn search_refuses_an_overlong_pattern() {
    let db = library();
    let long = "x".repeat(50_000);
    assert_eq!(db.search_tracks(&long), Err(DbError::PatternTooComplex));
    let fits = "x".repeat(49_998);
    assert!(db.search_tracks(&fits).unwrap().is_empty());
    // an empty library never tests the pattern
    let empty = Database::new();
    assert!(empty.search_tracks(&long).unwrap().is_empty());
}

#[test]
fn tracks_by_album_and_artist_match_exactly() {
    let db = library();
    assert_eq!(titles(&db.tracks_by_album("Hits", "beta")), vec!["Song Two"]);
    assert!(db.tracks_by_album("hits", "beta").is_empty());
    assert_eq!(titles(&db.tracks_by_artist("Alpha")), vec!["Outro"]);
    assert_eq!(titles(&db.tracks_by_artist("alpha")), vec!["Intro"]);
}

#[test]
fn tracks_by_album_order_by_track_number() {
    let mut db = Database::new();
    db.insert_track(&track("/a.mp3", "Third", "X", "Y", Some(3))).unwrap();
    db.insert_track(&track("/b.mp3", "First", "X", "Y", Some(1))).unwrap();
    db.insert_track(&track("/c.mp3", "Second", "X", "Y", Some(2))).unwrap();
    assert_eq!(titles(&db.tracks_by_album("Y", "X")), vec!["First", "Second", "Third"]);
    assert_eq!(titles(&db.tracks_by_artist("X")), vec!["First", "Second", "Third"]);
}

#[test]
fn artists_group_by_exact_name() {
    let db = library();
    let a = db.artists();
    let names: Vec<String> = a.iter().map(|x| x.0.clone()).collect();
    assert_eq!(names.len(), 4);
    let alpha = a.iter().find(|x| x.0 == "Alpha").unwrap();
    assert_eq!((alpha.1, alpha.2), (1, 1));
    // case-insensitive order
    assert!(names[0].eq_ignore_ascii_case("alpha"));
    assert!(names[1].eq_ignore_ascii_case("alpha"));
    assert!(names[2].eq_ignore_ascii_case("beta"));
}

#[test]
fn artist_counts_tracks_and_distinct_albums() {
    let mut db = Database::new();
    db.insert_track(&track("/a.mp3", "1", "X", "A1", None)).unwrap();
    db.insert_track(&track("/b.mp3", "2", "X", "A1", None)).unwrap();
    db.insert_track(&track("/c.mp3", "3", "X", "A2", None)).unwrap();
    let a = db.artists();
    assert_eq!(a, vec![("X".to_string(), 3, 2)]);
}

#[test]
fn albums_group_by_album_and_artist() {
    let mut db = Database::new();
    let mut t = track("/a.mp3", "1", "X", "Hits", None);
    t.year = Some(2001);
    t.art_path = Some("/art/b.jpg".to_string());
    db.insert_track(&t).unwrap();
    let mut t = track("/b.mp3", "2", "X", "Hits", None);
    t.year = Some(1999);
    t.art_path = Some("/art/a.jpg".to_string());
    db.insert_track(&t).unwrap();
    db.insert_track(&track("/c.mp3", "3", "Y", "Hits", None)).unwrap();
    let albums = db.albums();
    assert_eq!(albums.len(), 2);
    assert_eq!(albums[0], ("Hits".to_string(), "X".to_string(), 2, Some("/art/a.jpg".to_string()), Some(1999)));
    assert_eq!(albums[1], ("Hits".to_string(), "Y".to_string(), 1, None, None));
}

#[test]
fn stats_count_tracks_albums_artists_favorites() {
    let mut db = library();
    db.set_favorite(1, true);
    db.set_favorite(3, true);
    // albums: Hits|beta, Hits|Beta, Zed|alpha, abc|Alpha
    assert_eq!(db.stats(), (4, 4, 4, 2));
    assert_eq!(Database::new().stats(), (0, 0, 0, 0));
}

#[test]
fn stats_agree_with_listings() {
    let mut db = library();
    db.set_favorite(2, true);
    let s = db.stats();
    assert_eq!(s.0 as usize, db.all_tracks().len());
    assert_eq!(s.3 as usize, db.favorites().len());
}

#[test]
fn album_and_artist_counts_agree_with_summaries() {
    let db = library();
    let s = db.stats();
    assert_eq!(s.1 as usize, db.albums().len());
    assert_eq!(s.2 as usize, db.artists().len());
    let total: i64 = db.albums().iter().map(|a| a.2).sum();
    assert_eq!(total as usize, db.all_tracks().len());
}

#[test]
fn playlist_size_agrees_with_its_listing() {
    let mut db = library();
    let p = db.create_playlist("p", 1).unwrap();
    db.add_to_playlist(p, 1, 2).unwrap();
    db.add_to_playlist(p, 3, 3).unwrap();
    let line = db.playlists().into_iter().find(|l| l.0 == p).unwrap();
    assert_eq!(line.2 as usize, db.playlist_tracks(p).len());
}
