use baasic_media_player::db::{Database, DbError, InsertTrack, PlaylistEntry, PlaylistRow, TrackRow};

fn track(path: &str, title: &str, artist: &str, album: &str, number: Option<i32>, hash: &str) -> InsertTrack {
    InsertTrack {
        path: path.to_string(),
        title: title.to_string(),
        artist: artist.to_string(),
        album: album.to_string(),
        album_artist: String::new(),
        genre: String::new(),
        year: None,
        track_number: number,
        disc_number: None,
        duration_ms: 1000,
        file_hash: hash.to_string(),
        fingerprint: None,
        acoustid: None,
        musicbrainz_recording_id: None,
        musicbrainz_release_id: None,
        art_path: None,
        file_size: 10,
        added_at: 5,
    }
}

fn row(id: i64, path: &str) -> TrackRow {
    TrackRow {
        id,
        path: path.to_string(),
        title: "t".to_string(),
        artist: "a".to_string(),
        album: "b".to_string(),
        album_artist: String::new(),
        genre: String::new(),
        year: None,
        track_number: None,
        disc_number: None,
        duration_ms: 0,
        file_hash: format!("h{id}"),
        fingerprint: None,
        acoustid: None,
        musicbrainz_recording_id: None,
        musicbrainz_release_id: None,
        art_path: None,
        file_size: 0,
        added_at: 0,
        favorite: 0,
        play_count: 0,
        last_played_at: None,
    }
}

#[test]
fn insert_numbers_tracks_from_one() {
    let mut db = Database::new();
    assert_eq!(db.insert_track(&track("/m/a.mp3", "A", "X", "Y", None, "ha")), Ok(1));
    assert_eq!(db.insert_track(&track("/m/b.mp3", "B", "X", "Y", None, "hb")), Ok(2));
    assert_eq!(db.track_rows().len(), 2);
    assert_eq!(db.track_sequence(), 2);
}

#[test]
fn stored_track_is_found_again() {
    let mut db = Database::new();
    let mut t = track("/m/a.mp3", "A", "X", "Y", Some(3), "abc123");
    t.fingerprint = Some("FP1".to_string());
    let id = db.insert_track(&t).unwrap();
    assert!(db.path_exists("/m/a.mp3"));
    assert!(db.hash_exists("abc123"));
    assert!(db.fingerprint_exists("FP1"));
    assert!(!db.path_exists("/m/other.mp3"));
    assert!(!db.hash_exists("abc"));
    assert!(!db.fingerprint_exists("FP"));
    let all = db.all_tracks();
    assert_eq!(all.len(), 1);
    assert_eq!(all[0].id, id);
    assert_eq!(all[0].title, "A");
    assert_eq!(all[0].track_number, Some(3));
    assert!(!all[0].favorite);
    assert_eq!(all[0].play_count, 0);
    assert_eq!(all[0].last_played_at, None);
    assert_eq!(all[0].added_at, 5);
}

#[test]
fn duplicate_path_is_refused() {
    let mut db = Database::new();
    db.insert_track(&track("/m/a.mp3", "A", "X", "Y", None, "h1")).unwrap();
    let r = db.insert_track(&track("/m/a.mp3", "Other", "X", "Y", None, "h2"));
    assert_eq!(r, Err(DbError::DuplicatePath));
    assert_eq!(db.track_rows().len(), 1);
    assert_eq!(db.track_sequence(), 1);
    assert!(!db.hash_exists("h2"));
    // the id that was refused is not used up
    assert_eq!(db.insert_track(&track("/m/b.mp3", "B", "X", "Y", None, "h3")), Ok(2));
}

#[test]
fn error_messages_read_as_sqlite_words_them() {
    assert_eq!(DbError::DuplicatePath.message(), "UNIQUE constraint failed: tracks.path");
    assert_eq!(DbError::IdSpaceExhausted.message(), "database or disk is full");
    assert_eq!(DbError::IntegerOverflow.message(), "integer overflow");
    assert_eq!(DbError::PatternTooComplex.message(), "LIKE or GLOB pattern too complex");
    assert_eq!(DbError::Malformed.message(), "database disk image is malformed");
}

#[test]
fn id_space_exhausted_when_counter_is_at_max() {
    let mut db = Database::load(Vec::new(), Vec::new(), Vec::new(), i64::MAX, i64::MAX).ok().unwrap();
    assert_eq!(
        db.insert_track(&track("/m/a.mp3", "A", "X", "Y", None, "h")),
        Err(DbError::IdSpaceExhausted)
    );
    assert_eq!(db.create_playlist("p", 1), Err(DbError::IdSpaceExhausted));
    assert_eq!(db.track_rows().len(), 0);
}

#[test]
fn load_accepts_valid_rows() {
    let db = Database::load(vec![row(1, "/a"), row(4, "/b")], Vec::new(), Vec::new(), 7, 0).ok().unwrap();
    assert_eq!(db.track_rows().len(), 2);
    assert_eq!(db.track_sequence(), 7);
}

#[test]
fn load_refuses_broken_rows() {
    // duplicate path
    assert!(matches!(
        Database::load(vec![row(1, "/a"), row(2, "/a")], Vec::new(), Vec::new(), 2, 0),
        Err(DbError::Malformed)
    ));
    // ids out of order
    assert!(matches!(
        Database::load(vec![row(2, "/a"), row(1, "/b")], Vec::new(), Vec::new(), 2, 0),
        Err(DbError::Malformed)
    ));
    // id past the counter
    assert!(matches!(
        Database::load(vec![row(3, "/a")], Vec::new(), Vec::new(), 2, 0),
        Err(DbError::Malformed)
    ));
    // the same track twice in a playlist
    let p = PlaylistRow { id: 1, name: "p".to_string(), created_at: 0, updated_at: 0 };
    let e = PlaylistEntry { playlist_id: 1, track_id: 1, position: 0 };
    let e2 = PlaylistEntry { playlist_id: 1, track_id: 1, position: 1 };
    assert!(matches!(
        Database::load(vec![row(1, "/a")], vec![p], vec![e, e2], 1, 1),
        Err(DbError::Malformed)
    ));
}

#[test]
fn set_favorite_marks_and_unmarks() {
    let mut db = Database::new();
    let a = db.insert_track(&track("/m/a.mp3", "A", "X", "Y", None, "h1")).unwrap();
    let b = db.insert_track(&track("/m/b.mp3", "B", "X", "Y", None, "h2")).unwrap();
    db.set_favorite(b, true);
    db.set_favorite(b, true);
    let favs = db.favorites();
    assert_eq!(favs.len(), 1);
    assert_eq!(favs[0].id, b);
    assert!(favs[0].favorite);
    assert_eq!(db.stats().3, 1);
    db.set_favorite(b, false);
    assert!(db.favorites().is_empty());
    // an unknown id changes nothing
    db.set_favorite(99, true);
    assert!(db.favorites().is_empty());
    assert_eq!(db.all_tracks().iter().filter(|t| t.id == a && t.favorite).count(), 0);
}

#[test]
fn record_play_counts_and_stamps() {
    let mut db = Database::new();
    let a = db.insert_track(&track("/m/a.mp3", "A", "X", "Y", None, "h1")).unwrap();
    let b = db.insert_track(&track("/m/b.mp3", "B", "X", "Y", None, "h2")).unwrap();
    db.record_play(a, 100).unwrap();
    db.record_play(a, 200).unwrap();
    db.record_play(b, 150).unwrap();
    let all = db.all_tracks();
    let ta = all.iter().find(|t| t.id == a).unwrap();
    assert_eq!(ta.play_count, 2);
    assert_eq!(ta.last_played_at, Some(200));
    let recent = db.recently_played(10);
    assert_eq!(recent.iter().map(|t| t.id).collect::<Vec<_>>(), vec![a, b]);
    let most = db.most_played(1);
    assert_eq!(most.len(), 1);
    assert_eq!(most[0].id, a);
    // a play of an unknown track is no error
    assert_eq!(db.record_play(42, 300), Ok(()));
}

#[test]
fn record_play_refuses_overflow() {
    let mut r = row(1, "/a");
    r.play_count = i64::MAX;
    let mut db = Database::load(vec![r], Vec::new(), Vec::new(), 1, 0).ok().unwrap();
    assert_eq!(db.record_play(1, 5), Err(DbError::IntegerOverflow));
    assert_eq!(db.track_rows()[0].play_count, i64::MAX);
    assert_eq!(db.track_rows()[0].last_played_at, None);
}

#[test]
fn recently_played_skips_unplayed_and_honours_limit() {
    let mut db = Database::new();
    let a = db.insert_track(&track("/m/a.mp3", "A", "X", "Y", None, "h1")).unwrap();
    let b = db.insert_track(&track("/m/b.mp3", "B", "X", "Y", None, "h2")).unwrap();
    let _c = db.insert_track(&track("/m/c.mp3", "C", "X", "Y", None, "h3")).unwrap();
    db.record_play(a, 10).unwrap();
    db.record_play(b, 20).unwrap();
    assert_eq!(db.recently_played(1).iter().map(|t| t.id).collect::<Vec<_>>(), vec![b]);
    assert_eq!(db.recently_played(10).len(), 2);
    assert_eq!(db.recently_played(-1).len(), 2);
    assert_eq!(db.recently_played(0).len(), 0);
    assert_eq!(db.most_played(10).len(), 2);
}

#[test]
fn playlists_add_remove_and_delete() {
    let mut db = Database::new();
    let a = db.insert_track(&track("/m/a.mp3", "A", "X", "Y", None, "h1")).unwrap();
    let b = db.insert_track(&track("/m/b.mp3", "B", "X", "Y", None, "h2")).unwrap();
    let p = db.create_playlist("Road", 10).unwrap();
    assert_eq!(p, 1);
    db.add_to_playlist(p, b, 11).unwrap();
    db.add_to_playlist(p, a, 12).unwrap();
    // adding again is ignored
    db.add_to_playlist(p, b, 13).unwrap();
    let listed = db.playlist_tracks(p);
    assert_eq!(listed.iter().map(|t| t.id).collect::<Vec<_>>(), vec![b, a]);
    let entries = db.entry_rows();
    assert_eq!(entries.len(), 2);
    assert_eq!(entries[0].position, 0);
    assert_eq!(entries[1].position, 1);
    let lines = db.playlists();
    assert_eq!(lines.len(), 1);
    assert_eq!(lines[0].0, p);
    assert_eq!(lines[0].1, "Road");
    assert_eq!(lines[0].2, 2);
    assert_eq!(lines[0].3, 10);
    assert_eq!(lines[0].4, 13);
    db.remove_from_playlist(p, b, 14);
    assert_eq!(db.playlist_tracks(p).iter().map(|t| t.id).collect::<Vec<_>>(), vec![a]);
    // a new entry goes after the largest position
    db.add_to_playlist(p, b, 15).unwrap();
    assert_eq!(db.playlist_tracks(p).iter().map(|t| t.id).collect::<Vec<_>>(), vec![a, b]);
    db.delete_playlist(p);
    assert!(db.playlists().is_empty());
    assert!(db.playlist_tracks(p).is_empty());
    assert!(db.entry_rows().is_empty());
    assert_eq!(db.all_tracks().len(), 2);
}

#[test]
fn rename_playlist_changes_name_and_stamp() {
    let mut db = Database::new();
    let p = db.create_playlist("Old", 1).unwrap();
    let q = db.create_playlist("Other", 2).unwrap();
    db.rename_playlist(p, "New", 3);
    let lines = db.playlists();
    let lp = lines.iter().find(|l| l.0 == p).unwrap();
    assert_eq!(lp.1, "New");
    assert_eq!(lp.3, 1);
    assert_eq!(lp.4, 3);
    let lq = lines.iter().find(|l| l.0 == q).unwrap();
    assert_eq!(lq.1, "Other");
    // most recently updated first
    assert_eq!(lines[0].0, p);
}

#[test]
fn playlist_position_overflow_is_refused() {
    let p = PlaylistRow { id: 1, name: "p".to_string(), created_at: 0, updated_at: 0 };
    let e = PlaylistEntry { playlist_id: 1, track_id: 1, position: i64::MAX };
    let mut db = Database::load(vec![row(1, "/a"), row(2, "/b")], vec![p], vec![e], 2, 1).ok().unwrap();
    assert_eq!(db.add_to_playlist(1, 2, 9), Err(DbError::IntegerOverflow));
    assert_eq!(db.entry_rows().len(), 1);
    // a pair already present is still accepted
    assert_eq!(db.add_to_playlist(1, 1, 9), Ok(()));
}

#[test]
fn playlist_listing_drops_missing_tracks() {
    let p = PlaylistRow { id: 1, name: "p".to_string(), created_at: 0, updated_at: 0 };
    let e1 = PlaylistEntry { playlist_id: 1, track_id: 9, position: 0 };
    let e2 = PlaylistEntry { playlist_id: 1, track_id: 1, position: 1 };
    let db = Database::load(vec![row(1, "/a")], vec![p], vec![e1, e2], 1, 1).ok().unwrap();
    let listed = db.playlist_tracks(1);
    assert_eq!(listed.len(), 1);
    assert_eq!(listed[0].id, 1);
    // the count counts entries, stored or not
    assert_eq!(db.playlists()[0].2, 2);
}

#[test]
fn add_then_remove_restores_entries() {
    let mut db = Database::new();
    let a = db.insert_track(&track("/m/a.mp3", "A", "X", "Y", None, "h1")).unwrap();
    let b = db.insert_track(&track("/m/b.mp3", "B", "X", "Y", None, "h2")).unwrap();
    let p = db.create_playlist("p", 1).unwrap();
    db.add_to_playlist(p, a, 2).unwrap();
    let before: Vec<(i64, i64, i64)> = db.entry_rows().iter().map(|e| (e.playlist_id, e.track_id, e.position)).collect();
    db.add_to_playlist(p, b, 3).unwrap();
    db.remove_from_playlist(p, b, 4);
    let after: Vec<(i64, i64, i64)> = db.entry_rows().iter().map(|e| (e.playlist_id, e.track_id, e.position)).collect();
    assert_eq!(before, after);
}

#[test]
fn add_to_playlist_twice_is_the_same_as_once() {
    let mut db = Database::new();
    let a = db.insert_track(&track("/m/a.mp3", "A", "X", "Y", None, "h1")).unwrap();
    let p = db.create_playlist("p", 1).unwrap();
    db.add_to_playlist(p, a, 2).unwrap();
    db.add_to_playlist(p, a, 2).unwrap();
    assert_eq!(db.entry_rows().len(), 1);
    assert_eq!(db.playlist_tracks(p).len(), 1);
    assert_eq!(db.playlists()[0].4, 2);
}
