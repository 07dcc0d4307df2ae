use baasic_media_player::db::{Database, InsertTrack};
use baasic_media_player::import::{ImportEvent, ImportRun, ImportStage, ImportStep};
use baasic_media_player::metadata::{metadata_from_tags, IdentifiedMetadata, RawTags};
use baasic_media_player::models::{AppConfig, ImportProgress};

fn stored(path: &str, hash: &str, fingerprint: Option<&str>) -> InsertTrack {
    InsertTrack {
        path: path.to_string(),
        title: "old".to_string(),
        artist: "A".to_string(),
        album: "B".to_string(),
        album_artist: String::new(),
        genre: String::new(),
        year: None,
        track_number: None,
        disc_number: None,
        duration_ms: 0,
        file_hash: hash.to_string(),
        fingerprint: fingerprint.map(|s| s.to_string()),
        acoustid: None,
        musicbrainz_recording_id: None,
        musicbrainz_release_id: None,
        art_path: None,
        file_size: 0,
        added_at: 0,
    }
}

fn tagged() -> RawTags {
    RawTags {
        title: Some("T".to_string()),
        artist: Some("Ar".to_string()),
        album: Some("Al".to_string()),
        album_artist: None,
        genre: None,
        year: None,
        track: Some(1),
        disk: None,
    }
}

fn config(key: Option<&str>) -> AppConfig {
    let mut c = AppConfig::default();
    c.acoustid_api_key = key.map(|k| k.to_string());
    c
}

fn path_of(s: &ImportStep) -> String {
    match s {
        ImportStep::ComputeHash(p)
        | ImportStep::ReadTags(p)
        | ImportStep::ComputeFingerprint(p)
        | ImportStep::ReadFileSize(p) => p.clone(),
        ImportStep::Identify { path, .. } => path.clone(),
        _ => String::new(),
    }
}

#[test]
fn import_run_handles_new_duplicate_and_identified_files() {
    let mut db = Database::new();
    db.insert_track(&stored("/m/b.mp3", "hb", None)).unwrap();
    let walked = vec![
        "/m/c.flac".to_string(),
        "/m/b.mp3".to_string(),
        "/m/readme.txt".to_string(),
        "/m/a.mp3".to_string(),
    ];
    let mut run = ImportRun::new(walked, &config(Some("KEY")), 77, ImportProgress::default());
    assert_eq!(run.files, vec!["/m/a.mp3", "/m/b.mp3", "/m/c.flac"]);
    assert_eq!(run.progress.total, 3);
    assert!(run.progress.active);
    assert_eq!(run.progress.phase, "Scanning");

    // a.mp3: new, tagged, fingerprinted, no identification needed
    let s = run.step(&mut db, ImportEvent::Proceed);
    assert!(matches!(s, ImportStep::ComputeHash(_)));
    assert_eq!(path_of(&s), "/m/a.mp3");
    assert_eq!(run.progress.phase, "Processing");
    assert_eq!(run.progress.current_file, "/m/a.mp3");
    let s = run.step(&mut db, ImportEvent::Hashed(Ok("ha".to_string())));
    assert!(matches!(s, ImportStep::ReadTags(_)));
    let m = metadata_from_tags(&Some(tagged()), "/m/a.mp3", 3000);
    let s = run.step(&mut db, ImportEvent::TagsRead(Ok(m)));
    assert!(matches!(s, ImportStep::ComputeFingerprint(_)));
    let s = run.step(&mut db, ImportEvent::Fingerprinted(Some("FPA".to_string())));
    assert!(matches!(s, ImportStep::ReadFileSize(_)));
    let s = run.step(&mut db, ImportEvent::Sized(1234));
    assert!(matches!(s, ImportStep::Proceed));
    assert_eq!(run.result.imported, 1);
    assert_eq!(run.progress.processed, 1);

    // b.mp3: its path is already stored
    let s = run.step(&mut db, ImportEvent::Proceed);
    assert!(matches!(s, ImportStep::Proceed));
    assert_eq!(run.result.skipped_duplicates, 1);

    // c.flac: untagged, identified
    let s = run.step(&mut db, ImportEvent::Proceed);
    assert_eq!(path_of(&s), "/m/c.flac");
    run.step(&mut db, ImportEvent::Hashed(Ok("0123456789abcdef".to_string())));
    let m = metadata_from_tags(&None, "/m/c.flac", 10);
    run.step(&mut db, ImportEvent::TagsRead(Ok(m)));
    let s = run.step(&mut db, ImportEvent::Fingerprinted(Some("FPC".to_string())));
    match &s {
        ImportStep::Identify { path, fingerprint, api_key, hint } => {
            assert_eq!(path, "/m/c.flac");
            assert_eq!(fingerprint, "FPC");
            assert_eq!(api_key, "KEY");
            assert_eq!(hint, "0123456789ab");
        }
        _ => panic!("expected identification"),
    }
    assert_eq!(run.progress.phase, "Fingerprinting");
    assert!(matches!(run.pending(), ImportStep::Identify { .. }));
    let id = IdentifiedMetadata {
        title: "Named".to_string(),
        artist: "Someone".to_string(),
        album: "Record".to_string(),
        year: Some(2010),
        acoustid: Some("ac".to_string()),
        recording_id: Some("rec".to_string()),
        release_id: Some("rel".to_string()),
        art_path: Some("/art/0123456789ab.jpg".to_string()),
    };
    let s = run.step(&mut db, ImportEvent::Identified(Some(id)));
    assert!(matches!(s, ImportStep::ReadFileSize(_)));
    run.step(&mut db, ImportEvent::Sized(99));
    let s = run.step(&mut db, ImportEvent::Proceed);
    assert!(matches!(s, ImportStep::Finished));
    assert_eq!(run.stage, ImportStage::Done);
    assert_eq!(run.result.imported, 2);
    assert_eq!(run.result.skipped_duplicates, 1);
    assert_eq!(run.result.tagged, 1);
    assert!(run.result.errors.is_empty());
    assert!(!run.progress.active);
    assert_eq!(run.progress.phase, "Done");
    assert_eq!(run.progress.processed, 3);
    assert_eq!(run.progress.tagged, 1);

    assert!(db.hash_exists("ha"));
    assert!(db.fingerprint_exists("FPA"));
    let all = db.all_tracks();
    assert_eq!(all.len(), 3);
    let c = all.iter().find(|t| t.path == "/m/c.flac").unwrap();
    assert_eq!(c.title, "Named");
    assert_eq!(c.artist, "Someone");
    assert_eq!(c.year, Some(2010));
    assert_eq!(c.art_path, Some("/art/0123456789ab.jpg".to_string()));
    assert_eq!(c.added_at, 77);
    let row = db.track_rows().iter().find(|r| r.path == "/m/c.flac").unwrap();
    assert_eq!(row.file_size, 99);
    assert_eq!(row.musicbrainz_release_id, Some("rel".to_string()));
}

#[test]
fn import_skips_known_hash_and_fingerprint() {
    let mut db = Database::new();
    db.insert_track(&stored("/old/x.mp3", "hx", Some("FPX"))).unwrap();
    let walked = vec!["/m/1.mp3".to_string(), "/m/2.mp3".to_string()];
    let mut run = ImportRun::new(walked, &config(None), 0, ImportProgress::default());
    run.step(&mut db, ImportEvent::Proceed);
    let s = run.step(&mut db, ImportEvent::Hashed(Ok("hx".to_string())));
    assert!(matches!(s, ImportStep::Proceed));
    assert_eq!(run.result.skipped_duplicates, 1);
    run.step(&mut db, ImportEvent::Proceed);
    run.step(&mut db, ImportEvent::Hashed(Ok("new".to_string())));
    run.step(&mut db, ImportEvent::TagsRead(Ok(metadata_from_tags(&None, "/m/2.mp3", 0))));
    let s = run.step(&mut db, ImportEvent::Fingerprinted(Some("FPX".to_string())));
    assert!(matches!(s, ImportStep::Proceed));
    assert_eq!(run.result.skipped_duplicates, 2);
    let s = run.step(&mut db, ImportEvent::Proceed);
    assert!(matches!(s, ImportStep::Finished));
    assert_eq!(run.result.imported, 0);
    assert_eq!(db.track_rows().len(), 1);
}

#[test]
fn import_counts_errors_and_skips_identification_without_key() {
    let mut db = Database::new();
    let walked = vec!["/m/1.mp3".to_string(), "/m/2.mp3".to_string(), "/m/3.mp3".to_string()];
    let mut run = ImportRun::new(walked, &config(Some("")), 0, ImportProgress::default());
    assert!(run.api_key.is_none());
    run.step(&mut db, ImportEvent::Proceed);
    run.step(&mut db, ImportEvent::Hashed(Err("denied".to_string())));
    run.step(&mut db, ImportEvent::Proceed);
    run.step(&mut db, ImportEvent::Hashed(Ok("h2".to_string())));
    run.step(&mut db, ImportEvent::TagsRead(Err("bad header".to_string())));
    run.step(&mut db, ImportEvent::Proceed);
    run.step(&mut db, ImportEvent::Hashed(Ok("h3".to_string())));
    run.step(&mut db, ImportEvent::TagsRead(Ok(metadata_from_tags(&None, "/m/3.mp3", 0))));
    // untagged, but with no key there is no identification
    let s = run.step(&mut db, ImportEvent::Fingerprinted(None));
    assert!(matches!(s, ImportStep::ReadFileSize(_)));
    run.step(&mut db, ImportEvent::Sized(0));
    run.step(&mut db, ImportEvent::Proceed);
    assert_eq!(run.stage, ImportStage::Done);
    assert_eq!(
        run.result.errors,
        vec!["/m/1.mp3: hash failed: denied", "/m/2.mp3: metadata failed: bad header"]
    );
    assert_eq!(run.result.imported, 1);
    assert_eq!(run.result.tagged, 0);
    let t = &db.all_tracks()[0];
    assert_eq!(t.title, "3");
    assert_eq!(t.fingerprint, None);
}

#[test]
fn an_event_that_does_not_answer_changes_nothing() {
    let mut db = Database::new();
    let mut run = ImportRun::new(vec!["/m/1.mp3".to_string()], &config(None), 0, ImportProgress::default());
    run.step(&mut db, ImportEvent::Proceed);
    let s = run.step(&mut db, ImportEvent::Sized(5));
    assert!(matches!(s, ImportStep::ComputeHash(_)));
    assert_eq!(run.stage, ImportStage::Hashing);
    assert_eq!(run.index, 0);
    assert!(db.track_rows().is_empty());
}

#[test]
fn empty_folder_finishes_at_once() {
    let mut db = Database::new();
    let mut run = ImportRun::new(vec!["/m/a.txt".to_string()], &config(None), 0, ImportProgress::default());
    assert!(run.files.is_empty());
    let s = run.step(&mut db, ImportEvent::Proceed);
    assert!(matches!(s, ImportStep::Finished));
    assert!(matches!(run.pending(), ImportStep::Finished));
    assert_eq!(run.result.imported + run.result.skipped_duplicates + run.result.errors.len(), 0);
}

#[test]
fn insert_failure_is_counted_as_error() {
    // a path taken between the path check and the insert
    let mut db = Database::new();
    let mut run = ImportRun::new(vec!["/m/1.mp3".to_string()], &config(None), 0, ImportProgress::default());
    run.step(&mut db, ImportEvent::Proceed);
    db.insert_track(&stored("/m/1.mp3", "other", None)).unwrap();
    run.step(&mut db, ImportEvent::Hashed(Ok("h".to_string())));
    run.step(&mut db, ImportEvent::TagsRead(Ok(metadata_from_tags(&None, "/m/1.mp3", 0))));
    run.step(&mut db, ImportEvent::Fingerprinted(None));
    run.step(&mut db, ImportEvent::Sized(1));
    assert_eq!(run.result.errors, vec!["insert failed: UNIQUE constraint failed: tracks.path"]);
    assert_eq!(run.result.imported, 0);
}

#[test]
fn no_key_stores_no_identification() {
    let mut db = Database::new();
    let mut run = ImportRun::new(vec!["/m/1.mp3".to_string()], &config(None), 0, ImportProgress::default());
    run.step(&mut db, ImportEvent::Proceed);
    run.step(&mut db, ImportEvent::Hashed(Ok("h".to_string())));
    run.step(&mut db, ImportEvent::TagsRead(Ok(metadata_from_tags(&None, "/m/1.mp3", 0))));
    let s = run.step(&mut db, ImportEvent::Fingerprinted(Some("FP".to_string())));
    assert!(matches!(s, ImportStep::ReadFileSize(_)));
    run.step(&mut db, ImportEvent::Sized(1));
    let row = &db.track_rows()[0];
    assert_eq!(row.acoustid, None);
    assert_eq!(row.musicbrainz_recording_id, None);
    assert_eq!(row.musicbrainz_release_id, None);
    assert_eq!(row.art_path, None);
    assert_eq!(run.result.tagged, 0);
}

#[test]
fn reimporting_a_stored_folder_imports_nothing() {
    let mut db = Database::new();
    let files = vec!["/m/1.mp3".to_string(), "/m/2.mp3".to_string()];
    let mut run = ImportRun::new(files.clone(), &config(None), 0, ImportProgress::default());
    for (i, p) in ["/m/1.mp3", "/m/2.mp3"].iter().enumerate() {
        run.step(&mut db, ImportEvent::Proceed);
        run.step(&mut db, ImportEvent::Hashed(Ok(format!("h{i}"))));
        run.step(&mut db, ImportEvent::TagsRead(Ok(metadata_from_tags(&None, p, 0))));
        run.step(&mut db, ImportEvent::Fingerprinted(None));
        run.step(&mut db, ImportEvent::Sized(1));
    }
    assert!(matches!(run.step(&mut db, ImportEvent::Proceed), ImportStep::Finished));
    assert_eq!(run.result.imported, 2);
    let before = db.track_rows().len();
    let mut again = ImportRun::new(files, &config(None), 1, ImportProgress::default());
    assert!(matches!(again.step(&mut db, ImportEvent::Proceed), ImportStep::Proceed));
    assert!(matches!(again.step(&mut db, ImportEvent::Proceed), ImportStep::Proceed));
    assert!(matches!(again.step(&mut db, ImportEvent::Proceed), ImportStep::Finished));
    assert_eq!(again.result.imported, 0);
    assert_eq!(again.result.skipped_duplicates, 2);
    assert_eq!(db.track_rows().len(), before);
}

#[test]
fn reimport_skips_files_known_by_hash_and_fingerprint() {
    let mut db = Database::new();
    db.insert_track(&stored("/old/a.mp3", "ha", None)).unwrap();
    db.insert_track(&stored("/old/b.mp3", "hb0", Some("FPB"))).unwrap();
    let files = vec!["/m/a.mp3".to_string(), "/m/b.mp3".to_string(), "/m/c.mp3".to_string()];
    let answers = [("ha", Some("FPA")), ("hb", Some("FPB")), ("hc", None)];
    let mut totals = Vec::new();
    for pass in 0..2 {
        let mut run = ImportRun::new(files.clone(), &config(None), pass, ImportProgress::default());
        let mut processed = vec![run.progress.processed];
        let mut event = ImportEvent::Proceed;
        loop {
            let i = run.index.min(2);
            let s = run.step(&mut db, event);
            processed.push(run.progress.processed);
            event = match s {
                ImportStep::Proceed => ImportEvent::Proceed,
                ImportStep::ComputeHash(_) => ImportEvent::Hashed(Ok(answers[i].0.to_string())),
                ImportStep::ReadTags(p) => ImportEvent::TagsRead(Ok(metadata_from_tags(&None, &p, 0))),
                ImportStep::ComputeFingerprint(_) => ImportEvent::Fingerprinted(answers[i].1.map(|f| f.to_string())),
                ImportStep::ReadFileSize(_) => ImportEvent::Sized(1),
                ImportStep::Identify { .. } => ImportEvent::Identified(None),
                ImportStep::Finished => break,
            };
        }
        assert!(processed.windows(2).all(|w| w[1] == w[0] || w[1] == w[0] + 1));
        assert_eq!(*processed.last().unwrap(), 3);
        assert!(run.result.errors.is_empty());
        totals.push((run.result.imported, run.result.skipped_duplicates, db.track_rows().len()));
    }
    assert_eq!(totals[0], (1, 2, 3));
    assert_eq!(totals[1], (0, 3, 3));
}
