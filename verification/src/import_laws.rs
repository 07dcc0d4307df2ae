//! What holds of an import over a whole run: every file is counted once,
//! the library grows by exactly the files imported, the files it stores are
//! new to the library and to each other, unidentified files carry no
//! identification, and a folder whose files are all stored imports nothing.

use vstd::prelude::*;

use crate::db::{
    after_insert, fingerprint_taken, hash_taken, insert_outcome, opt_text_is, path_taken, row_of, wf,
    DbState, InsertTrack, TrackRow,
};
use crate::import::{
    import_inv, opt_text, skip_counted, step_taken, track_to_insert, ImportEvent, ImportRun, ImportStage,
    ImportStep,
};
use crate::laws::{checked_new, law_import_only_appends, law_import_step_keeps_checks, law_import_stores_only_new};

verus! {

/// The track that a Sizing step stores, when it stores one.
proof fn lemma_sized_track(a: ImportRun, d: DbState, e: ImportEvent, b: ImportRun, d2: DbState, s: ImportStep)
    -> (t: InsertTrack)
    requires
        import_inv(a),
        step_taken(a, d, e, b, d2, s),
        e is Sized,
        a.stage == ImportStage::Sizing,
    ensures
        track_to_insert(a, e->Sized_0, t),
        d2 == after_insert(d, t),
        insert_outcome(d, t) is Ok ==> b.result.imported == a.result.imported + 1,
        insert_outcome(d, t) is Err ==> b.result.imported == a.result.imported,
{
    let size = e->Sized_0;
    choose|t: InsertTrack|
        {
            &&& track_to_insert(a, size, t)
            &&& d2 == after_insert(d, t)
            &&& b.index == a.index + 1
            &&& b.stage == ImportStage::Ready
            &&& s is Proceed
            &&& match insert_outcome(d, t) {
                Ok(_) => b.result == crate::models::ImportResult {
                    imported: (a.result.imported + 1) as usize,
                    ..a.result
                },
                Err(x) => crate::import::error_counted(
                    a.result,
                    b.result,
                    "insert failed: "@ + crate::db::db_error_text(x),
                ),
            }
        }
}

/// One step grows the library by the files it counts as imported, and a
/// track it stores carries identification only when the file was
/// identified.
pub proof fn law_step_growth(a: ImportRun, d: DbState, e: ImportEvent, b: ImportRun, d2: DbState, s: ImportStep)
    requires
        import_inv(a),
        wf(d),
        step_taken(a, d, e, b, d2, s),
    ensures
        b.result.imported >= a.result.imported,
        d2.tracks.len() == d.tracks.len() + (b.result.imported - a.result.imported),
        d2.tracks.len() == d.tracks.len() + 1 && !a.tagged_current ==> {
            &&& d2.tracks.last().acoustid is None
            &&& d2.tracks.last().musicbrainz_recording_id is None
            &&& d2.tracks.last().musicbrainz_release_id is None
            &&& d2.tracks.last().art_path is None
        },
{
    law_import_only_appends(a, d, e, b, d2, s);
    if e is Sized && a.stage == ImportStage::Sizing {
        let t = lemma_sized_track(a, d, e, b, d2, s);
        if insert_outcome(d, t) is Ok {
            assert(d2.tracks.last() == row_of(t, insert_outcome(d, t)->Ok_0));
        }
    }
}

/// A run without an API key never asks to identify a file, tags none, and
/// stores every file without AcoustID or MusicBrainz ids or cover.
pub proof fn law_no_key_no_identification(
    a: ImportRun,
    d: DbState,
    e: ImportEvent,
    b: ImportRun,
    d2: DbState,
    s: ImportStep,
)
    requires
        import_inv(a),
        import_inv(b),
        wf(d),
        a.api_key is None,
        step_taken(a, d, e, b, d2, s),
    ensures
        !(s is Identify),
        b.api_key is None,
        b.result.tagged == 0,
        d2.tracks.len() == d.tracks.len() + 1 ==> {
            &&& d2.tracks.last().acoustid is None
            &&& d2.tracks.last().musicbrainz_recording_id is None
            &&& d2.tracks.last().musicbrainz_release_id is None
            &&& d2.tracks.last().art_path is None
        },
{
    law_step_growth(a, d, e, b, d2, s);
}

// ------------------------------------------------------------------- runs

/// A run of the import: the states that the step's contract allows, from
/// its first state through each event to its last.
pub open spec fn is_run(
    runs: Seq<ImportRun>,
    dbs: Seq<DbState>,
    events: Seq<ImportEvent>,
    steps: Seq<ImportStep>,
) -> bool {
    &&& runs.len() == events.len() + 1
    &&& dbs.len() == runs.len()
    &&& steps.len() == events.len()
    &&& forall|k: int| 0 <= k < runs.len() ==> import_inv(#[trigger] runs[k]) && wf(dbs[k])
    &&& forall|k: int|
        #![trigger events[k]]
        0 <= k < events.len() ==> step_taken(runs[k], dbs[k], events[k], runs[k + 1], dbs[k + 1], steps[k])
}

/// A track stored at index `j` differs from every earlier track in path and
/// hash, and in fingerprint when it has one.
pub open spec fn fresh_at(rows: Seq<TrackRow>, j: int) -> bool {
    forall|i: int|
        0 <= i < j ==> {
            &&& (#[trigger] rows[i]).path@ != rows[j].path@
            &&& rows[i].file_hash@ != rows[j].file_hash@
            &&& (rows[j].fingerprint matches Some(f) ==> !opt_text_is(rows[i].fingerprint, f@))
        }
}

/// What holds after the first `n` steps of a run.
proof fn lemma_run_prefix(
    runs: Seq<ImportRun>,
    dbs: Seq<DbState>,
    events: Seq<ImportEvent>,
    steps: Seq<ImportStep>,
    n: int,
)
    requires
        is_run(runs, dbs, events, steps),
        runs[0].stage == ImportStage::Ready,
        0 <= n < runs.len(),
    ensures
        runs[n].files == runs[0].files,
        runs[n].api_key == runs[0].api_key,
        runs[n].result.imported >= runs[0].result.imported,
        dbs[n].tracks.len() == dbs[0].tracks.len() + (runs[n].result.imported - runs[0].result.imported),
        dbs[0].tracks.is_prefix_of(dbs[n].tracks),
        dbs[n].playlists == dbs[0].playlists,
        dbs[n].entries == dbs[0].entries,
        checked_new(runs[n], dbs[n]),
        forall|j: int| dbs[0].tracks.len() <= j < dbs[n].tracks.len() ==> fresh_at(dbs[n].tracks, j),
    decreases n,
{
    if n == 0 {
        assert(dbs[0].tracks.is_prefix_of(dbs[0].tracks)) by {
            assert(dbs[0].tracks.take(dbs[0].tracks.len() as int) =~= dbs[0].tracks);
        }
    } else {
        let k = n - 1;
        lemma_run_prefix(runs, dbs, events, steps, k);
        let (a, d, e, b, d2, s) = (runs[k], dbs[k], events[k], runs[n], dbs[n], steps[k]);
        assert(step_taken(a, d, e, b, d2, s));
        assert(import_inv(a) && wf(d) && import_inv(b));
        law_step_growth(a, d, e, b, d2, s);
        law_import_only_appends(a, d, e, b, d2, s);
        law_import_step_keeps_checks(a, d, e, b, d2, s);
        let n0 = dbs[0].tracks.len() as int;
        let l = d.tracks.len() as int;
        assert(forall|i: int| 0 <= i < l ==> #[trigger] d2.tracks[i] == d.tracks[i]);
        assert(dbs[0].tracks.is_prefix_of(d2.tracks)) by {
            assert forall|i: int| 0 <= i < n0 implies #[trigger] d2.tracks[i] == dbs[0].tracks[i] by {
                assert(d2.tracks[i] == d.tracks[i]);
            }
        }
        if d2.tracks.len() == l + 1 {
            law_import_stores_only_new(a, d, e, b, d2, s);
            let r = d2.tracks[l];
            assert(r == d2.tracks.last());
            assert forall|i: int| 0 <= i < l implies {
                &&& (#[trigger] d2.tracks[i]).path@ != d2.tracks[l].path@
                &&& d2.tracks[i].file_hash@ != d2.tracks[l].file_hash@
                &&& (d2.tracks[l].fingerprint matches Some(f) ==> !opt_text_is(d2.tracks[i].fingerprint, f@))
            } by {
                assert(d2.tracks[i] == d.tracks[i]);
                if d.tracks[i].path@ == r.path@ {
                    assert(path_taken(d, r.path@));
                }
                if d.tracks[i].file_hash@ == r.file_hash@ {
                    assert(crate::db::hash_taken(d, r.file_hash@));
                }
                if let Some(f) = r.fingerprint {
                    if opt_text_is(d.tracks[i].fingerprint, f@) {
                        assert(crate::db::fingerprint_taken(d, f@));
                    }
                }
            }
            assert(fresh_at(d2.tracks, l));
        }
        assert forall|j: int| n0 <= j < d2.tracks.len() implies fresh_at(d2.tracks, j) by {
            if j < l {
                assert(fresh_at(d.tracks, j));
                assert forall|i: int| 0 <= i < j implies {
                    &&& (#[trigger] d2.tracks[i]).path@ != d2.tracks[j].path@
                    &&& d2.tracks[i].file_hash@ != d2.tracks[j].file_hash@
                    &&& (d2.tracks[j].fingerprint matches Some(f) ==> !opt_text_is(d2.tracks[i].fingerprint, f@))
                } by {
                    assert(d2.tracks[i] == d.tracks[i]);
                    assert(d2.tracks[j] == d.tracks[j]);
                }
            }
        }
    }
}

/// Over a whole run from a fresh start: when it is done every audio file has
/// been counted once (imported, skipped as a duplicate, or failed), no more
/// files were tagged than were imported or failed, the library grew by
/// exactly the files imported and kept every track it had, and each track
/// the run added has a path, a hash and a fingerprint that no earlier track
/// has.
pub proof fn law_run_accounting(
    runs: Seq<ImportRun>,
    dbs: Seq<DbState>,
    events: Seq<ImportEvent>,
    steps: Seq<ImportStep>,
)
    requires
        is_run(runs, dbs, events, steps),
        runs[0].stage == ImportStage::Ready,
        runs[0].index == 0,
        runs[0].result.imported == 0,
        runs[0].result.skipped_duplicates == 0,
        runs[0].result.tagged == 0,
        runs[0].result.errors@.len() == 0,
    ensures
        dbs.last().tracks.len() == dbs[0].tracks.len() + runs.last().result.imported,
        dbs[0].tracks.is_prefix_of(dbs.last().tracks),
        forall|j: int| dbs[0].tracks.len() <= j < dbs.last().tracks.len() ==> fresh_at(dbs.last().tracks, j),
        runs.last().stage == ImportStage::Done ==> {
            &&& runs.last().result.imported + runs.last().result.skipped_duplicates
                + runs.last().result.errors@.len() == runs[0].files@.len()
            &&& runs.last().result.tagged <= runs.last().result.imported + runs.last().result.errors@.len()
        },
        runs[0].api_key is None ==> runs.last().result.tagged == 0,
{
    let n = runs.len() - 1;
    lemma_run_prefix(runs, dbs, events, steps, n);
    assert(import_inv(runs[n]));
}

/// A run over a folder whose audio files are all stored already imports
/// nothing: it skips every file by its path, asks for no file work and
/// leaves the library as it was.
pub proof fn law_stored_folder_imports_nothing(
    runs: Seq<ImportRun>,
    dbs: Seq<DbState>,
    events: Seq<ImportEvent>,
    steps: Seq<ImportStep>,
    n: int,
)
    requires
        is_run(runs, dbs, events, steps),
        runs[0].stage == ImportStage::Ready,
        runs[0].index == 0,
        runs[0].result.imported == 0,
        runs[0].result.skipped_duplicates == 0,
        runs[0].result.tagged == 0,
        runs[0].result.errors@.len() == 0,
        forall|i: int| 0 <= i < runs[0].files@.len() ==> path_taken(dbs[0], (#[trigger] runs[0].files@[i])@),
        0 <= n < runs.len(),
    ensures
        dbs[n] == dbs[0],
        runs[n].stage == ImportStage::Ready || runs[n].stage == ImportStage::Done,
        runs[n].result.imported == 0,
        runs[n].result.tagged == 0,
        runs[n].result.errors@.len() == 0,
        runs[n].result.skipped_duplicates == runs[n].index,
        runs[n].stage == ImportStage::Done ==> runs[n].result.skipped_duplicates == runs[0].files@.len(),
        n > 0 ==> steps[n - 1] is Proceed || steps[n - 1] is Finished,
    decreases n,
{
    if n > 0 {
        let k = n - 1;
        lemma_stored_folder_step(runs, dbs, events, steps, k);
        law_stored_folder_imports_nothing(runs, dbs, events, steps, k);
        lemma_run_prefix(runs, dbs, events, steps, k);
        let (a, d, e, b, d2, s) = (runs[k], dbs[k], events[k], runs[n], dbs[n], steps[k]);
        assert(step_taken(a, d, e, b, d2, s));
        assert(import_inv(a) && import_inv(b));
        if a.stage == ImportStage::Ready && e is Proceed && a.index < a.files@.len() {
            assert(a.files@[a.index as int] == runs[0].files@[a.index as int]);
            assert(path_taken(d, a.files@[a.index as int]@));
        }
    }
}

proof fn lemma_stored_folder_step(
    runs: Seq<ImportRun>,
    dbs: Seq<DbState>,
    events: Seq<ImportEvent>,
    steps: Seq<ImportStep>,
    k: int,
)
    requires
        is_run(runs, dbs, events, steps),
        0 <= k < events.len(),
    ensures
        step_taken(runs[k], dbs[k], events[k], runs[k + 1], dbs[k + 1], steps[k]),
        import_inv(runs[k]),
        import_inv(runs[k + 1]),
        wf(dbs[k]),
{
    assert(import_inv(runs[k]) && wf(dbs[k]));
    assert(import_inv(runs[k + 1]));
}

// --------------------------------------------------------------- progress

/// One step moves on by at most one file.
proof fn lemma_step_index(a: ImportRun, d: DbState, e: ImportEvent, b: ImportRun, d2: DbState, s: ImportStep)
    requires
        import_inv(a),
        import_inv(b),
        step_taken(a, d, e, b, d2, s),
    ensures
        b.index == a.index || b.index == a.index + 1,
        a.stage == ImportStage::Done ==> b == a,
        b.stage == ImportStage::Done && a.stage != ImportStage::Done ==> b.progress.phase@ == "Done"@,
{
    if e is Sized && a.stage == ImportStage::Sizing {
        let t = lemma_sized_track(a, d, e, b, d2, s);
    }
}

/// The progress over a run from a fresh start: the total stays the number
/// of audio files, the processed count starts at 0 and rises by at most one
/// per step up to the total, the run stays active until it is done, and once
/// done it stays done, inactive, in the `Done` phase with every file
/// processed.
pub proof fn law_run_progress(
    runs: Seq<ImportRun>,
    dbs: Seq<DbState>,
    events: Seq<ImportEvent>,
    steps: Seq<ImportStep>,
    n: int,
)
    requires
        is_run(runs, dbs, events, steps),
        runs[0].stage == ImportStage::Ready,
        runs[0].index == 0,
        0 <= n < runs.len(),
    ensures
        runs[n].progress.total == runs[0].files@.len(),
        runs[n].progress.processed <= runs[n].progress.total,
        runs[0].progress.processed == 0,
        n > 0 ==> runs[n].progress.processed == runs[n - 1].progress.processed
            || runs[n].progress.processed == runs[n - 1].progress.processed + 1,
        runs[n].stage != ImportStage::Done ==> runs[n].progress.active,
        runs[n].stage == ImportStage::Done ==> {
            &&& !runs[n].progress.active
            &&& runs[n].progress.phase@ == "Done"@
            &&& runs[n].progress.processed == runs[n].progress.total
            &&& forall|m: int| n <= m < runs.len() ==> #[trigger] runs[m] == runs[n]
        },
    decreases n,
{
    lemma_run_prefix(runs, dbs, events, steps, n);
    assert(import_inv(runs[0]) && import_inv(runs[n]));
    if n > 0 {
        let k = n - 1;
        lemma_stored_folder_step(runs, dbs, events, steps, k);
        lemma_step_index(runs[k], dbs[k], events[k], runs[n], dbs[n], steps[k]);
    }
    if runs[n].stage == ImportStage::Done {
        lemma_done_stays(runs, dbs, events, steps, n);
        if n > 0 && runs[n - 1].stage == ImportStage::Done {
            law_run_progress(runs, dbs, events, steps, n - 1);
        } else if n == 0 {
        } else {
            lemma_stored_folder_step(runs, dbs, events, steps, n - 1);
            lemma_step_index(runs[n - 1], dbs[n - 1], events[n - 1], runs[n], dbs[n], steps[n - 1]);
        }
    }
}

/// A run that is done stays as it is.
proof fn lemma_done_stays(
    runs: Seq<ImportRun>,
    dbs: Seq<DbState>,
    events: Seq<ImportEvent>,
    steps: Seq<ImportStep>,
    n: int,
)
    requires
        is_run(runs, dbs, events, steps),
        0 <= n < runs.len(),
        runs[n].stage == ImportStage::Done,
    ensures
        forall|m: int| n <= m < runs.len() ==> #[trigger] runs[m] == runs[n],
    decreases runs.len() - n,
{
    if n + 1 < runs.len() {
        lemma_stored_folder_step(runs, dbs, events, steps, n);
        lemma_step_index(runs[n], dbs[n], events[n], runs[n + 1], dbs[n + 1], steps[n]);
        lemma_done_stays(runs, dbs, events, steps, n + 1);
        assert forall|m: int| n <= m < runs.len() implies #[trigger] runs[m] == runs[n] by {
            if m > n {
                assert(runs[m] == runs[n + 1]);
            }
        }
    }
}

// ------------------------------------------------------------- re-import

/// The file work answers as given: the `i`-th file hashes to `hashes[i]`,
/// its tags read, and its fingerprint is `fingerprints[i]` (`None` when it
/// cannot be computed).
pub open spec fn answers_as(
    runs: Seq<ImportRun>,
    events: Seq<ImportEvent>,
    hashes: Seq<Seq<char>>,
    fingerprints: Seq<Option<Seq<char>>>,
) -> bool {
    forall|k: int|
        #![trigger events[k]]
        0 <= k < events.len() ==> {
            let i = runs[k].index as int;
            &&& runs[k].stage == ImportStage::Hashing ==> (events[k] matches ImportEvent::Hashed(Ok(h))
                && h@ == hashes[i])
            &&& runs[k].stage == ImportStage::ReadingTags ==> (events[k] matches ImportEvent::TagsRead(Ok(_)))
            &&& runs[k].stage == ImportStage::Fingerprinting ==> (events[k] matches ImportEvent::Fingerprinted(f)
                && opt_text(f) == fingerprints[i])
        }
}

/// The library knows a file by its path, its hash or its fingerprint.
pub open spec fn known(d: DbState, path: Seq<char>, hash: Seq<char>, fingerprint: Option<Seq<char>>) -> bool {
    ||| path_taken(d, path)
    ||| hash_taken(d, hash)
    ||| (fingerprint matches Some(f) && fingerprint_taken(d, f))
}

pub open spec fn all_known(
    d: DbState,
    files: Seq<String>,
    hashes: Seq<Seq<char>>,
    fingerprints: Seq<Option<Seq<char>>>,
    upto: int,
) -> bool {
    forall|i: int| 0 <= i < upto ==> known(d, (#[trigger] files[i])@, hashes[i], fingerprints[i])
}

proof fn lemma_known_grows(d: DbState, d2: DbState, path: Seq<char>, hash: Seq<char>, fp: Option<Seq<char>>)
    requires
        d.tracks.is_prefix_of(d2.tracks),
        known(d, path, hash, fp),
    ensures
        known(d2, path, hash, fp),
{
    if path_taken(d, path) {
        let i = choose|i: int| 0 <= i < d.tracks.len() && (#[trigger] d.tracks[i]).path@ == path;
        assert(d2.tracks[i] == d.tracks[i]);
    } else if hash_taken(d, hash) {
        let i = choose|i: int| 0 <= i < d.tracks.len() && (#[trigger] d.tracks[i]).file_hash@ == hash;
        assert(d2.tracks[i] == d.tracks[i]);
    } else {
        let f = fp->Some_0;
        let i = choose|i: int| 0 <= i < d.tracks.len() && opt_text_is((#[trigger] d.tracks[i]).fingerprint, f);
        assert(d2.tracks[i] == d.tracks[i]);
    }
}

/// The errors of a run are never taken back.
proof fn lemma_errors_grow(a: ImportRun, d: DbState, e: ImportEvent, b: ImportRun, d2: DbState, s: ImportStep)
    requires
        import_inv(a),
        import_inv(b),
        step_taken(a, d, e, b, d2, s),
    ensures
        b.result.errors@.len() >= a.result.errors@.len(),
{
    if e is Sized && a.stage == ImportStage::Sizing {
        let t = lemma_sized_track(a, d, e, b, d2, s);
    }
}

/// While a run with the given answers has met no error, every file it has
/// finished is known to the library.
proof fn lemma_first_run(
    runs: Seq<ImportRun>,
    dbs: Seq<DbState>,
    events: Seq<ImportEvent>,
    steps: Seq<ImportStep>,
    hashes: Seq<Seq<char>>,
    fingerprints: Seq<Option<Seq<char>>>,
    n: int,
)
    requires
        is_run(runs, dbs, events, steps),
        answers_as(runs, events, hashes, fingerprints),
        hashes.len() == runs[0].files@.len(),
        fingerprints.len() == runs[0].files@.len(),
        runs[0].stage == ImportStage::Ready,
        runs[0].index == 0,
        0 <= n < runs.len(),
    ensures
        runs[n].result.errors@.len() >= runs[0].result.errors@.len(),
        runs[n].result.errors@.len() == 0 ==> all_known(dbs[n], runs[0].files@, hashes, fingerprints, runs[n].index as int),
        (runs[n].stage == ImportStage::ReadingTags || runs[n].stage == ImportStage::Fingerprinting
            || runs[n].stage == ImportStage::Identifying || runs[n].stage == ImportStage::Sizing)
            ==> runs[n].hash@ == hashes[runs[n].index as int],
    decreases n,
{
    lemma_run_prefix(runs, dbs, events, steps, n);
    if n > 0 {
        let k = n - 1;
        lemma_first_run(runs, dbs, events, steps, hashes, fingerprints, k);
        lemma_run_prefix(runs, dbs, events, steps, k);
        lemma_stored_folder_step(runs, dbs, events, steps, k);
        let (a, d, e, b, d2, s) = (runs[k], dbs[k], events[k], runs[n], dbs[n], steps[k]);
        lemma_errors_grow(a, d, e, b, d2, s);
        lemma_step_index(a, d, e, b, d2, s);
        law_import_only_appends(a, d, e, b, d2, s);
        let files = runs[0].files@;
        assert(a.files == runs[0].files && b.files == runs[0].files);
        if b.result.errors@.len() == 0 {
            assert(a.result.errors@.len() == 0);
            assert forall|i: int| 0 <= i < b.index implies known(d2, (#[trigger] files[i])@, hashes[i], fingerprints[i]) by {
                if i < a.index {
                    lemma_known_grows(d, d2, files[i]@, hashes[i], fingerprints[i]);
                } else {
                    assert(i == a.index && b.index == a.index + 1);
                    lemma_finished_known(a, d, e, b, d2, s, hashes[i], fingerprints[i]);
                    assert(a.files@[i] == files[i]);
                    assert(events[k] == e);
                }
            }
        }
    }
}

/// The file a step finishes without an error is known to the library
/// afterwards.
proof fn lemma_finished_known(
    a: ImportRun,
    d: DbState,
    e: ImportEvent,
    b: ImportRun,
    d2: DbState,
    s: ImportStep,
    hash: Seq<char>,
    fp: Option<Seq<char>>,
)
    requires
        import_inv(a),
        import_inv(b),
        wf(d),
        step_taken(a, d, e, b, d2, s),
        b.index == a.index + 1,
        b.result.errors@.len() == a.result.errors@.len(),
        a.stage == ImportStage::Hashing ==> (e matches ImportEvent::Hashed(Ok(h)) && h@ == hash),
        a.stage == ImportStage::Fingerprinting ==> (e matches ImportEvent::Fingerprinted(f) && opt_text(f) == fp),
    ensures
        known(d2, a.files@[a.index as int]@, hash, fp),
{
    let path = a.files@[a.index as int]@;
    law_import_only_appends(a, d, e, b, d2, s);
    if e is Sized && a.stage == ImportStage::Sizing {
        let t = lemma_sized_track(a, d, e, b, d2, s);
        if insert_outcome(d, t) is Ok {
            let l = d.tracks.len() as int;
            assert(d2.tracks[l] == row_of(t, insert_outcome(d, t)->Ok_0));
            assert(d2.tracks[l].path@ == path);
        }
    } else {
        assert(d2 == d);
        if a.stage == ImportStage::Fingerprinting {
            let f = e->Fingerprinted_0;
            if let Some(g) = f {
                assert(fp == Some(g@));
            }
        }
    }
}

/// With the same answers, a run over files that the library all knows by
/// path, hash or fingerprint imports nothing: it skips every file, tags
/// none, meets no error and leaves the library as it was.
proof fn lemma_known_run(
    runs: Seq<ImportRun>,
    dbs: Seq<DbState>,
    events: Seq<ImportEvent>,
    steps: Seq<ImportStep>,
    hashes: Seq<Seq<char>>,
    fingerprints: Seq<Option<Seq<char>>>,
    n: int,
)
    requires
        is_run(runs, dbs, events, steps),
        answers_as(runs, events, hashes, fingerprints),
        hashes.len() == runs[0].files@.len(),
        fingerprints.len() == runs[0].files@.len(),
        runs[0].stage == ImportStage::Ready,
        runs[0].index == 0,
        runs[0].result.imported == 0,
        runs[0].result.skipped_duplicates == 0,
        runs[0].result.tagged == 0,
        runs[0].result.errors@.len() == 0,
        all_known(dbs[0], runs[0].files@, hashes, fingerprints, runs[0].files@.len() as int),
        0 <= n < runs.len(),
    ensures
        dbs[n] == dbs[0],
        runs[n].files == runs[0].files,
        runs[n].stage != ImportStage::Identifying && runs[n].stage != ImportStage::Sizing,
        runs[n].result.imported == 0,
        runs[n].result.tagged == 0,
        runs[n].result.errors@.len() == 0,
        runs[n].result.skipped_duplicates == runs[n].index,
        runs[n].stage == ImportStage::Hashing || runs[n].stage == ImportStage::ReadingTags
            || runs[n].stage == ImportStage::Fingerprinting ==> !path_taken(dbs[0], runs[n].files@[runs[n].index as int]@),
        runs[n].stage == ImportStage::ReadingTags || runs[n].stage == ImportStage::Fingerprinting ==> {
            &&& runs[n].hash@ == hashes[runs[n].index as int]
            &&& !hash_taken(dbs[0], runs[n].hash@)
        },
    decreases n,
{
    lemma_run_prefix(runs, dbs, events, steps, n);
    if n > 0 {
        let k = n - 1;
        lemma_known_run(runs, dbs, events, steps, hashes, fingerprints, k);
        lemma_stored_folder_step(runs, dbs, events, steps, k);
        let (a, d, e, b, d2, s) = (runs[k], dbs[k], events[k], runs[n], dbs[n], steps[k]);
        lemma_step_index(a, d, e, b, d2, s);
        let i = a.index as int;
        assert(events[k] == e);
        if a.stage == ImportStage::Fingerprinting {
            let files = runs[0].files@;
            assert(known(dbs[0], files[i]@, hashes[i], fingerprints[i]));
            assert(files[i] == a.files@[i]);
            let f = e->Fingerprinted_0;
            let x = fingerprints[i]->Some_0;
            assert(f is Some);
            assert(f->Some_0@ == x);
        }
        if a.stage == ImportStage::Ready && e is Proceed && a.index < a.files@.len() {
            assert(a.files@[i] == runs[0].files@[i]);
        }
        if a.stage == ImportStage::Hashing {
            assert(a.files@[i] == runs[0].files@[i]);
        }
    }
}

/// Re-importing: after a run from a fresh start that finished with no
/// error, a second fresh run over the same files, with the same answers
/// from the file work and nothing else changing the library, imports
/// nothing, tags nothing, meets no error, skips as many files as the first
/// run imported and skipped together, and leaves the library as the first
/// run left it.
pub proof fn law_reimport_changes_nothing(
    runs1: Seq<ImportRun>,
    dbs1: Seq<DbState>,
    events1: Seq<ImportEvent>,
    steps1: Seq<ImportStep>,
    runs2: Seq<ImportRun>,
    dbs2: Seq<DbState>,
    events2: Seq<ImportEvent>,
    steps2: Seq<ImportStep>,
    hashes: Seq<Seq<char>>,
    fingerprints: Seq<Option<Seq<char>>>,
    n: int,
)
    requires
        is_run(runs1, dbs1, events1, steps1),
        answers_as(runs1, events1, hashes, fingerprints),
        runs1[0].stage == ImportStage::Ready,
        runs1[0].index == 0,
        runs1[0].result.imported == 0,
        runs1[0].result.skipped_duplicates == 0,
        runs1[0].result.tagged == 0,
        runs1[0].result.errors@.len() == 0,
        runs1.last().stage == ImportStage::Done,
        runs1.last().result.errors@.len() == 0,
        hashes.len() == runs1[0].files@.len(),
        fingerprints.len() == runs1[0].files@.len(),
        is_run(runs2, dbs2, events2, steps2),
        answers_as(runs2, events2, hashes, fingerprints),
        runs2[0].files == runs1[0].files,
        dbs2[0] == dbs1.last(),
        runs2[0].stage == ImportStage::Ready,
        runs2[0].index == 0,
        runs2[0].result.imported == 0,
        runs2[0].result.skipped_duplicates == 0,
        runs2[0].result.tagged == 0,
        runs2[0].result.errors@.len() == 0,
        0 <= n < runs2.len(),
    ensures
        dbs2[n] == dbs1.last(),
        runs2[n].result.imported == 0,
        runs2[n].result.tagged == 0,
        runs2[n].result.errors@.len() == 0,
        runs2[n].stage == ImportStage::Done ==> runs2[n].result.skipped_duplicates
            == runs1.last().result.imported + runs1.last().result.skipped_duplicates,
{
    let last = runs1.len() - 1;
    lemma_first_run(runs1, dbs1, events1, steps1, hashes, fingerprints, last);
    lemma_run_prefix(runs1, dbs1, events1, steps1, last);
    law_run_accounting(runs1, dbs1, events1, steps1);
    assert(import_inv(runs1[last]));
    assert(runs1[last].index == runs1[0].files@.len());
    lemma_known_run(runs2, dbs2, events2, steps2, hashes, fingerprints, n);
    assert(import_inv(runs2[n]));
}

} // verus!
