//! Importing a folder, one decision at a time: the run says which file work
//! it needs next (hash, tags, fingerprint, identification, size), is told
//! the outcome, and decides whether the file is a duplicate, an error or a
//! new track.

use vstd::prelude::*;
use vstd::string::StringExecFns;

use crate::db::{
    after_insert, db_error_text, fingerprint_taken, hash_taken, insert_outcome, path_taken, wf,
    Database, DbState, InsertTrack,
};
use crate::metadata::{FileMetadata, IdentifiedMetadata};
use crate::models::{AppConfig, ImportProgress, ImportResult};
use crate::scanner::{is_audio_selection, select_audio_files};
use crate::text::{chars_of, string_of};

verus! {

/// Where a run stands.
#[derive(Debug, Clone, Copy, PartialEq, Eq)]
pub enum ImportStage {
    /// Ready to look at the next file.
    Ready,
    /// Waiting for the current file's hash.
    Hashing,
    /// Waiting for the current file's tags.
    ReadingTags,
    /// Waiting for the current file's audio fingerprint.
    Fingerprinting,
    /// Waiting for the current file's identification.
    Identifying,
    /// Waiting for the current file's size.
    Sizing,
    /// Every file has been handled.
    Done,
}

/// The file work a run asks for.
pub enum ImportStep {
    /// Nothing to fetch: call `step` again with `Proceed`.
    Proceed,
    /// Hash the file's bytes (`digest_hex`).
    ComputeHash(String),
    /// Read the file's tags (`metadata_from_tags`).
    ReadTags(String),
    /// Compute the file's audio fingerprint.
    ComputeFingerprint(String),
    /// Identify the recording by its fingerprint with this API key, save its
    /// cover under this hint and write the new tags into the file.
    Identify { path: String, fingerprint: String, api_key: String, hint: String },
    /// Read the file's size in bytes.
    ReadFileSize(String),
    /// The run is over.
    Finished,
}

/// The outcome of the file work a run asked for.
pub enum ImportEvent {
    Proceed,
    Hashed(Result<String, String>),
    TagsRead(Result<FileMetadata, String>),
    /// The fingerprint, or `None` when it could not be computed.
    Fingerprinted(Option<String>),
    /// What identification found, or `None` when it failed.
    Identified(Option<IdentifiedMetadata>),
    /// The file's size (0 when it could not be read).
    Sized(i64),
}

/// An import of a folder's audio files into the library.
pub struct ImportRun {
    /// The audio files, in path order.
    pub files: Vec<String>,
    /// The file being handled (or the next one, when ready).
    pub index: usize,
    /// The import's time stamp, stored as each track's `added_at`.
    pub now: i64,
    /// The AcoustID key, when one is set and not empty.
    pub api_key: Option<String>,
    pub stage: ImportStage,
    /// The current file's hash, tags, fingerprint and identification.
    pub hash: String,
    pub meta: Option<FileMetadata>,
    pub fingerprint: Option<String>,
    pub acoustid: Option<String>,
    pub recording_id: Option<String>,
    pub release_id: Option<String>,
    pub art_path: Option<String>,
    /// Whether the current file was identified (and counted as tagged).
    pub tagged_current: bool,
    pub result: ImportResult,
    pub progress: ImportProgress,
}

/// The run's bookkeeping: every file before `index` has been counted once,
/// as imported, skipped or failed, and the progress mirrors the counts.
pub open spec fn import_inv(r: ImportRun) -> bool {
    &&& r.index <= r.files@.len()
    &&& r.progress.total == r.files@.len()
    &&& r.progress.processed == r.index
    &&& r.result.imported + r.result.skipped_duplicates + r.result.errors@.len() == r.index
    &&& r.progress.imported == r.result.imported
    &&& r.progress.skipped_duplicates == r.result.skipped_duplicates
    &&& r.result.tagged == r.progress.tagged + (if r.tagged_current { 1int } else { 0 })
    &&& r.progress.tagged <= r.index
    &&& r.tagged_current ==> r.stage == ImportStage::Sizing
    &&& r.progress.errors@.len() == 0
    &&& (r.stage != ImportStage::Ready && r.stage != ImportStage::Done) ==> r.index < r.files@.len()
    &&& (r.stage == ImportStage::Fingerprinting || r.stage == ImportStage::Identifying || r.stage
        == ImportStage::Sizing) ==> r.meta is Some
    &&& (r.stage == ImportStage::Identifying ==> r.fingerprint is Some && r.api_key is Some)
    &&& (r.stage == ImportStage::Ready || r.stage == ImportStage::Hashing || r.stage
        == ImportStage::ReadingTags || r.stage == ImportStage::Fingerprinting) ==> r.fingerprint is None
    &&& (r.stage == ImportStage::Done <==> !r.progress.active)
    &&& r.stage == ImportStage::Done ==> r.index == r.files@.len()
    &&& r.api_key matches Some(k) ==> k@.len() > 0
    &&& !r.tagged_current ==> {
        &&& r.acoustid is None
        &&& r.recording_id is None
        &&& r.release_id is None
        &&& r.art_path is None
    }
    &&& r.tagged_current ==> r.api_key is Some
    &&& r.api_key is None ==> r.result.tagged == 0
    &&& r.result.tagged <= r.result.imported + r.result.errors@.len() + (if r.tagged_current {
        1int
    } else {
        0
    })
}

/// The key that identification uses: the configured one unless it is empty.
pub open spec fn usable_key(config: AppConfig) -> Option<Seq<char>> {
    match config.acoustid_api_key {
        Some(k) => if k@.len() > 0 {
            Some(k@)
        } else {
            None
        },
        None => None,
    }
}

pub open spec fn opt_text(o: Option<String>) -> Option<Seq<char>> {
    match o {
        Some(s) => Some(s@),
        None => None,
    }
}

/// The progress after a file has been counted.
pub open spec fn bumped(p: ImportProgress, q: ImportProgress, r: ImportResult) -> bool {
    &&& q.processed == p.processed + 1
    &&& q.imported == r.imported
    &&& q.skipped_duplicates == r.skipped_duplicates
    &&& q.tagged == r.tagged
    &&& q.total == p.total
    &&& q.active == p.active
    &&& q.phase == p.phase
    &&& q.current_file == p.current_file
    &&& q.errors == p.errors
}

/// The first `n` characters of a text (all of it when shorter).
pub open spec fn prefix_of(s: Seq<char>, n: int) -> Seq<char> {
    if s.len() <= n {
        s
    } else {
        s.take(n)
    }
}

/// What storing the current file inserts.
pub open spec fn track_to_insert(r: ImportRun, size: i64, t: InsertTrack) -> bool {
    let m = r.meta.unwrap();
    &&& t.path@ == r.files@[r.index as int]@
    &&& t.title@ == m.title@
    &&& t.artist@ == m.artist@
    &&& t.album@ == m.album@
    &&& t.album_artist@ == m.album_artist@
    &&& t.genre@ == m.genre@
    &&& t.year == m.year
    &&& t.track_number == m.track_number
    &&& t.disc_number == m.disc_number
    &&& t.duration_ms == m.duration_ms
    &&& t.file_hash@ == r.hash@
    &&& opt_text(t.fingerprint) == opt_text(r.fingerprint)
    &&& opt_text(t.acoustid) == opt_text(r.acoustid)
    &&& opt_text(t.musicbrainz_recording_id) == opt_text(r.recording_id)
    &&& opt_text(t.musicbrainz_release_id) == opt_text(r.release_id)
    &&& opt_text(t.art_path) == opt_text(r.art_path)
    &&& t.file_size == size
    &&& t.added_at == r.now
}

fn clone_text(o: &Option<String>) -> (r: Option<String>)
    ensures
        r == *o,
{
    crate::db::clone_text(o)
}

fn joined3(a: &str, b: &str, c: &str) -> (r: String)
    ensures
        r@ == a@ + b@ + c@,
{
    let mut r = String::from_str(a);
    r.append(b);
    r.append(c);
    r
}

impl ImportRun {
    /// Starts importing the audio files among the walked paths (in path
    /// order). The progress handed in is reset as a new run begins: active,
    /// in the `Scanning` phase, with no counts and no errors.
    pub fn new(walked: Vec<String>, config: &AppConfig, now: i64, progress: ImportProgress) -> (r:
        ImportRun)
        ensures
            import_inv(r),
            is_audio_selection(walked@, r.files@),
            r.index == 0,
            r.now == now,
            r.stage == ImportStage::Ready,
            opt_text(r.api_key) == usable_key(*config),
            r.result.imported == 0 && r.result.skipped_duplicates == 0 && r.result.tagged == 0,
            r.result.errors@.len() == 0,
            !r.tagged_current,
            r.acoustid is None && r.recording_id is None && r.release_id is None && r.art_path is None,
            r.progress.active,
            r.progress.phase@ == "Scanning"@,
            r.progress.current_file == progress.current_file,
    {
        let files = select_audio_files(walked);
        let api_key = match &config.acoustid_api_key {
            Some(k) => {
                if k.as_str().is_empty() {
                    None
                } else {
                    Some(k.clone())
                }
            },
            None => None,
        };
        let total = files.len();
        let mut progress = progress;
        progress.active = true;
        progress.phase = String::from_str("Scanning");
        progress.total = total;
        progress.processed = 0;
        progress.imported = 0;
        progress.skipped_duplicates = 0;
        progress.tagged = 0;
        progress.errors = Vec::new();
        ImportRun {
            files,
            index: 0,
            now,
            api_key,
            stage: ImportStage::Ready,
            hash: String::new(),
            meta: None,
            fingerprint: None,
            acoustid: None,
            recording_id: None,
            release_id: None,
            art_path: None,
            tagged_current: false,
            result: ImportResult {
                imported: 0,
                skipped_duplicates: 0,
                tagged: 0,
                errors: Vec::new(),
            },
            progress,
        }
    }

    /// Counts the current file and moves on to the next one.
    fn finish_file(&mut self)
        requires
            old(self).index < old(self).files@.len(),
            old(self).progress.processed == old(self).index,
            old(self).result.imported + old(self).result.skipped_duplicates
                + old(self).result.errors@.len() == old(self).index + 1,
        ensures
            final(self).index == old(self).index + 1,
            bumped(old(self).progress, final(self).progress, old(self).result),
            final(self).stage == ImportStage::Ready,
            final(self).result == old(self).result,
            final(self).files == old(self).files,
            final(self).now == old(self).now,
            final(self).api_key == old(self).api_key,
            !final(self).tagged_current,
            final(self).meta is None,
            final(self).fingerprint is None,
            final(self).acoustid is None,
            final(self).recording_id is None,
            final(self).release_id is None,
            final(self).art_path is None,
    {
        let n = self.files.len();
        assert(self.index < n);
        self.progress.processed = self.progress.processed + 1;
        self.progress.imported = self.result.imported;
        self.progress.skipped_duplicates = self.result.skipped_duplicates;
        self.progress.tagged = self.result.tagged;
        self.index = self.index + 1;
        self.stage = ImportStage::Ready;
        self.tagged_current = false;
        self.meta = None;
        self.fingerprint = None;
        self.acoustid = None;
        self.recording_id = None;
        self.release_id = None;
        self.art_path = None;
    }

    /// The step the run is waiting on.
    pub fn pending(&self) -> (s: ImportStep)
        requires
            import_inv(*self),
        ensures
            pending_step(*self, s),
    {
        let i = self.index;
        match self.stage {
            ImportStage::Ready => ImportStep::Proceed,
            ImportStage::Done => ImportStep::Finished,
            ImportStage::Hashing => ImportStep::ComputeHash(self.files[i].clone()),
            ImportStage::ReadingTags => ImportStep::ReadTags(self.files[i].clone()),
            ImportStage::Fingerprinting => ImportStep::ComputeFingerprint(self.files[i].clone()),
            ImportStage::Sizing => ImportStep::ReadFileSize(self.files[i].clone()),
            ImportStage::Identifying => {
                let fp = match &self.fingerprint {
                    Some(f) => f.clone(),
                    None => String::new(),
                };
                let key = match &self.api_key {
                    Some(k) => k.clone(),
                    None => String::new(),
                };
                ImportStep::Identify {
                    path: self.files[i].clone(),
                    fingerprint: fp,
                    api_key: key,
                    hint: hash_hint(self.hash.as_str()),
                }
            },
        }
    }

    /// Takes the outcome of the work asked for and decides what comes next.
    /// An outcome that does not answer the pending step changes nothing and
    /// asks for that step again.
    pub fn step(&mut self, db: &mut Database, event: ImportEvent) -> (s: ImportStep)
        requires
            import_inv(*old(self)),
            wf(old(db)@),
        ensures
            import_inv(*final(self)),
            wf(final(db)@),
            step_taken(*old(self), old(db)@, event, *final(self), final(db)@, s),
    {
        match (self.stage, event) {
            (ImportStage::Ready, ImportEvent::Proceed) => {
                if self.index >= self.files.len() {
                    self.stage = ImportStage::Done;
                    self.progress.active = false;
                    self.progress.phase = String::from_str("Done");
                    self.progress.processed = self.progress.total;
                    return ImportStep::Finished;
                }
                let path = self.files[self.index].clone();
                self.progress.current_file = path.clone();
                self.progress.phase = String::from_str("Processing");
                if db.path_exists(path.as_str()) {
                    self.result.skipped_duplicates = self.result.skipped_duplicates + 1;
                    self.finish_file();
                    ImportStep::Proceed
                } else {
                    self.stage = ImportStage::Hashing;
                    ImportStep::ComputeHash(path)
                }
            },
            (ImportStage::Hashing, ImportEvent::Hashed(outcome)) => {
                let path = self.files[self.index].clone();
                match outcome {
                    Err(e) => {
                        let ghost before = self.result.errors@;
                        self.result.errors.push(joined3(path.as_str(), ": hash failed: ", e.as_str()));
                        assert(self.result.errors@.take(before.len() as int) =~= before);
                        self.finish_file();
                        ImportStep::Proceed
                    },
                    Ok(h) => {
                        if db.hash_exists(h.as_str()) {
                            self.result.skipped_duplicates = self.result.skipped_duplicates + 1;
                            self.finish_file();
                            ImportStep::Proceed
                        } else {
                            self.hash = h;
                            self.stage = ImportStage::ReadingTags;
                            ImportStep::ReadTags(path)
                        }
                    },
                }
            },
            (ImportStage::ReadingTags, ImportEvent::TagsRead(outcome)) => {
                let path = self.files[self.index].clone();
                match outcome {
                    Err(e) => {
                        let ghost before = self.result.errors@;
                        self.result.errors.push(
                            joined3(path.as_str(), ": metadata failed: ", e.as_str()),
                        );
                        assert(self.result.errors@.take(before.len() as int) =~= before);
                        self.finish_file();
                        ImportStep::Proceed
                    },
                    Ok(m) => {
                        self.meta = Some(m);
                        self.stage = ImportStage::Fingerprinting;
                        ImportStep::ComputeFingerprint(path)
                    },
                }
            },
            (ImportStage::Fingerprinting, ImportEvent::Fingerprinted(outcome)) => {
                let path = self.files[self.index].clone();
                match outcome {
                    None => {
                        self.stage = ImportStage::Sizing;
                        ImportStep::ReadFileSize(path)
                    },
                    Some(f) => {
                        if db.fingerprint_exists(f.as_str()) {
                            self.result.skipped_duplicates = self.result.skipped_duplicates + 1;
                            self.finish_file();
                            return ImportStep::Proceed;
                        }
                        self.fingerprint = Some(f.clone());
                        let needs = match &self.meta {
                            Some(m) => m.needs_identification,
                            None => false,
                        };
                        match &self.api_key {
                            Some(k) => {
                                if needs {
                                    let key = k.clone();
                                    self.progress.phase = String::from_str("Fingerprinting");
                                    self.stage = ImportStage::Identifying;
                                    return ImportStep::Identify {
                                        path,
                                        fingerprint: f,
                                        api_key: key,
                                        hint: hash_hint(self.hash.as_str()),
                                    };
                                }
                            },
                            None => {},
                        }
                        self.stage = ImportStage::Sizing;
                        ImportStep::ReadFileSize(path)
                    },
                }
            },
            (ImportStage::Identifying, ImportEvent::Identified(outcome)) => {
                let path = self.files[self.index].clone();
                match outcome {
                    None => {},
                    Some(id) => {
                        let mut m = match self.meta.take() {
                            Some(m) => m,
                            None => {
                                return self.pending();
                            },
                        };
                        m.title = id.title;
                        m.artist = id.artist;
                        m.album = id.album;
                        m.year = id.year;
                        self.meta = Some(m);
                        self.acoustid = id.acoustid;
                        self.recording_id = id.recording_id;
                        self.release_id = id.release_id;
                        self.art_path = id.art_path;
                        self.result.tagged = self.result.tagged + 1;
                        self.tagged_current = true;
                    },
                }
                self.stage = ImportStage::Sizing;
                ImportStep::ReadFileSize(path)
            },
            (ImportStage::Sizing, ImportEvent::Sized(size)) => {
                let track = match &self.meta {
                    Some(m) => InsertTrack {
                        path: self.files[self.index].clone(),
                        title: m.title.clone(),
                        artist: m.artist.clone(),
                        album: m.album.clone(),
                        album_artist: m.album_artist.clone(),
                        genre: m.genre.clone(),
                        year: m.year,
                        track_number: m.track_number,
                        disc_number: m.disc_number,
                        duration_ms: m.duration_ms,
                        file_hash: self.hash.clone(),
                        fingerprint: clone_text(&self.fingerprint),
                        acoustid: clone_text(&self.acoustid),
                        musicbrainz_recording_id: clone_text(&self.recording_id),
                        musicbrainz_release_id: clone_text(&self.release_id),
                        art_path: clone_text(&self.art_path),
                        file_size: size,
                        added_at: self.now,
                    },
                    None => {
                        return self.pending();
                    },
                };
                let ghost t = track;
                let ghost a = *self;
                let ghost d = db@;
                let outcome = db.insert_track(&track);
                match outcome {
                    Ok(_) => {
                        self.result.imported = self.result.imported + 1;
                    },
                    Err(e) => {
                        let msg = e.message();
                        let ghost before = self.result.errors@;
                        let mut line = String::from_str("insert failed: ");
                        line.append(msg.as_str());
                        self.result.errors.push(line);
                        assert(self.result.errors@.take(before.len() as int) =~= before);
                    },
                }
                self.finish_file();
                assert(track_to_insert(a, size, t));
                ImportStep::Proceed
            },
            (_, _) => self.pending(),
        }
    }
}

/// The first twelve characters of a hash, which name its cover file.
pub fn hash_hint(hash: &str) -> (r: String)
    ensures
        r@ == prefix_of(hash@, 12),
{
    let cs = chars_of(hash);
    if cs.len() <= 12 {
        return string_of(cs.as_slice());
    }
    let mut v: Vec<char> = Vec::new();
    let mut i: usize = 0;
    while i < 12
        invariant
            0 <= i <= 12 < cs@.len(),
            v@ == cs@.take(i as int),
        decreases 12 - i,
    {
        v.push(cs[i]);
        assert(cs@.take(i + 1) =~= cs@.take(i as int).push(cs@[i as int]));
        i = i + 1;
    }
    string_of(v.as_slice())
}

/// `s` is the step that a run in state `r` waits on.
pub open spec fn pending_step(r: ImportRun, s: ImportStep) -> bool {
    match r.stage {
        ImportStage::Ready => s is Proceed,
        ImportStage::Done => s is Finished,
        ImportStage::Hashing => s matches ImportStep::ComputeHash(p) && p@ == r.files@[r.index as int]@,
        ImportStage::ReadingTags => s matches ImportStep::ReadTags(p) && p@ == r.files@[r.index as int]@,
        ImportStage::Fingerprinting => s matches ImportStep::ComputeFingerprint(p) && p@
            == r.files@[r.index as int]@,
        ImportStage::Sizing => s matches ImportStep::ReadFileSize(p) && p@ == r.files@[r.index as int]@,
        ImportStage::Identifying => s matches ImportStep::Identify { path, fingerprint, api_key, hint } && {
            &&& path@ == r.files@[r.index as int]@
            &&& Some(fingerprint@) == opt_text(r.fingerprint)
            &&& Some(api_key@) == opt_text(r.api_key)
            &&& hint@ == prefix_of(r.hash@, 12)
        },
    }
}

/// The parts of a run that only the current file's handling changes.
pub open spec fn same_run(a: ImportRun, b: ImportRun) -> bool {
    &&& a.files == b.files
    &&& a.now == b.now
    &&& a.api_key == b.api_key
}

pub open spec fn skip_counted(r: ImportResult, q: ImportResult) -> bool {
    q == ImportResult { skipped_duplicates: (r.skipped_duplicates + 1) as usize, ..r }
}

pub open spec fn error_counted(r: ImportResult, q: ImportResult, msg: Seq<char>) -> bool {
    &&& q.imported == r.imported
    &&& q.skipped_duplicates == r.skipped_duplicates
    &&& q.tagged == r.tagged
    &&& q.errors@.len() == r.errors@.len() + 1
    &&& q.errors@.take(r.errors@.len() as int) == r.errors@
    &&& q.errors@.last()@ == msg
}

/// One decision of the import, for each stage and the outcome it was given.
pub open spec fn step_taken(
    a: ImportRun,
    d: DbState,
    e: ImportEvent,
    b: ImportRun,
    d2: DbState,
    s: ImportStep,
) -> bool {
    &&& same_run(a, b)
    &&& (!(e is Sized && a.stage == ImportStage::Sizing) ==> d2 == d)
    &&& match (a.stage, e) {
        (ImportStage::Ready, ImportEvent::Proceed) => if a.index >= a.files@.len() {
            &&& b.stage == ImportStage::Done
            &&& !b.progress.active
            &&& b.progress.phase@ == "Done"@
            &&& b.result == a.result
            &&& s is Finished
        } else {
            let path = a.files@[a.index as int]@;
            if path_taken(d, path) {
                &&& b.index == a.index + 1
                &&& b.stage == ImportStage::Ready
                &&& skip_counted(a.result, b.result)
                &&& b.progress.current_file@ == path
                &&& b.progress.phase@ == "Processing"@
                &&& b.progress.processed == a.progress.processed + 1
                &&& s is Proceed
            } else {
                &&& b.index == a.index
                &&& b.stage == ImportStage::Hashing
                &&& b.result == a.result
                &&& b.progress.current_file@ == path
                &&& b.progress.phase@ == "Processing"@
                &&& s matches ImportStep::ComputeHash(p) && p@ == path
            }
        },
        (ImportStage::Hashing, ImportEvent::Hashed(Err(err))) => {
            &&& b.index == a.index + 1
            &&& b.stage == ImportStage::Ready
            &&& error_counted(a.result, b.result, a.files@[a.index as int]@ + ": hash failed: "@ + err@)
            &&& s is Proceed
        },
        (ImportStage::Hashing, ImportEvent::Hashed(Ok(h))) => if hash_taken(d, h@) {
            &&& b.index == a.index + 1
            &&& b.stage == ImportStage::Ready
            &&& skip_counted(a.result, b.result)
            &&& s is Proceed
        } else {
            &&& b.index == a.index
            &&& b.stage == ImportStage::ReadingTags
            &&& b.hash@ == h@
            &&& b.result == a.result
            &&& s matches ImportStep::ReadTags(p) && p@ == a.files@[a.index as int]@
        },
        (ImportStage::ReadingTags, ImportEvent::TagsRead(Err(err))) => {
            &&& b.index == a.index + 1
            &&& b.stage == ImportStage::Ready
            &&& error_counted(
                a.result,
                b.result,
                a.files@[a.index as int]@ + ": metadata failed: "@ + err@,
            )
            &&& s is Proceed
        },
        (ImportStage::ReadingTags, ImportEvent::TagsRead(Ok(m))) => {
            &&& b.index == a.index
            &&& b.stage == ImportStage::Fingerprinting
            &&& b.meta == Some(m)
            &&& b.hash == a.hash
            &&& b.result == a.result
            &&& s matches ImportStep::ComputeFingerprint(p) && p@ == a.files@[a.index as int]@
        },
        (ImportStage::Fingerprinting, ImportEvent::Fingerprinted(None)) => {
            &&& b.index == a.index
            &&& b.stage == ImportStage::Sizing
            &&& b.meta == a.meta
            &&& b.hash == a.hash
            &&& b.fingerprint == a.fingerprint
            &&& b.result == a.result
            &&& s matches ImportStep::ReadFileSize(p) && p@ == a.files@[a.index as int]@
        },
        (ImportStage::Fingerprinting, ImportEvent::Fingerprinted(Some(f))) => if fingerprint_taken(
            d,
            f@,
        ) {
            &&& b.index == a.index + 1
            &&& b.stage == ImportStage::Ready
            &&& skip_counted(a.result, b.result)
            &&& s is Proceed
        } else {
            &&& b.index == a.index
            &&& b.meta == a.meta
            &&& b.hash == a.hash
            &&& b.result == a.result
            &&& opt_text(b.fingerprint) == Some(f@)
            &&& if a.meta.unwrap().needs_identification && a.api_key is Some {
                &&& b.stage == ImportStage::Identifying
                &&& b.progress.phase@ == "Fingerprinting"@
                &&& pending_step(b, s)
            } else {
                &&& b.stage == ImportStage::Sizing
                &&& s matches ImportStep::ReadFileSize(p) && p@ == a.files@[a.index as int]@
            }
        },
        (ImportStage::Identifying, ImportEvent::Identified(None)) => {
            &&& b.index == a.index
            &&& b.stage == ImportStage::Sizing
            &&& b.meta == a.meta
            &&& b.hash == a.hash
            &&& b.fingerprint == a.fingerprint
            &&& b.result == a.result
            &&& s matches ImportStep::ReadFileSize(p) && p@ == a.files@[a.index as int]@
        },
        (ImportStage::Identifying, ImportEvent::Identified(Some(id))) => {
            let m = a.meta.unwrap();
            &&& b.index == a.index
            &&& b.stage == ImportStage::Sizing
            &&& b.meta == Some(
                FileMetadata { title: id.title, artist: id.artist, album: id.album, year: id.year, ..m },
            )
            &&& b.acoustid == id.acoustid
            &&& b.recording_id == id.recording_id
            &&& b.release_id == id.release_id
            &&& b.art_path == id.art_path
            &&& b.hash == a.hash
            &&& b.fingerprint == a.fingerprint
            &&& b.result == ImportResult { tagged: (a.result.tagged + 1) as usize, ..a.result }
            &&& s matches ImportStep::ReadFileSize(p) && p@ == a.files@[a.index as int]@
        },
        (ImportStage::Sizing, ImportEvent::Sized(size)) => exists|t: InsertTrack|
            {
                &&& track_to_insert(a, size, t)
                &&& d2 == after_insert(d, t)
                &&& b.index == a.index + 1
                &&& b.stage == ImportStage::Ready
                &&& s is Proceed
                &&& match insert_outcome(d, t) {
                    Ok(_) => b.result == ImportResult { imported: (a.result.imported + 1) as usize, ..a.result },
                    Err(x) => error_counted(a.result, b.result, "insert failed: "@ + db_error_text(x)),
                }
            },
        _ => b == a && pending_step(a, s),
    }
}

} // verus!
