//! The library's three tables (tracks, playlists and playlist entries) and
//! what each operation does to them.

use vstd::prelude::*;

use crate::models::Track;
use crate::seq_facts::{lemma_filter_member, lemma_filter_pairwise, lemma_filter_take_step};
use vstd::string::StringExecFns;

verus! {

/// Why an operation on the library was refused.
#[derive(Debug, Clone, Copy, PartialEq, Eq)]
pub enum DbError {
    /// A track with the same path is already in the library (`path` is unique).
    DuplicatePath,
    /// The largest id has been handed out; no new row can be numbered.
    IdSpaceExhausted,
    /// A counter or a position would pass `i64::MAX`.
    IntegerOverflow,
    /// A search pattern is longer than the LIKE pattern limit.
    PatternTooComplex,
    /// Rows handed to `Database::load` break the tables' invariants.
    Malformed,
}

/// The text that reports an error, as SQLite words it.
pub open spec fn db_error_text(e: DbError) -> Seq<char> {
    match e {
        DbError::DuplicatePath => "UNIQUE constraint failed: tracks.path"@,
        DbError::IdSpaceExhausted => "database or disk is full"@,
        DbError::IntegerOverflow => "integer overflow"@,
        DbError::PatternTooComplex => "LIKE or GLOB pattern too complex"@,
        DbError::Malformed => "database disk image is malformed"@,
    }
}

impl DbError {
    /// The error's text.
    pub fn message(&self) -> (r: String)
        ensures
            r@ == db_error_text(*self),
    {
        match self {
            DbError::DuplicatePath => String::from_str("UNIQUE constraint failed: tracks.path"),
            DbError::IdSpaceExhausted => String::from_str("database or disk is full"),
            DbError::IntegerOverflow => String::from_str("integer overflow"),
            DbError::PatternTooComplex => String::from_str("LIKE or GLOB pattern too complex"),
            DbError::Malformed => String::from_str("database disk image is malformed"),
        }
    }
}

/// The columns of a new track row.
pub struct InsertTrack {
    pub path: String,
    pub title: String,
    pub artist: String,
    pub album: String,
    pub album_artist: String,
    pub genre: String,
    pub year: Option<i32>,
    pub track_number: Option<i32>,
    pub disc_number: Option<i32>,
    pub duration_ms: i64,
    pub file_hash: String,
    pub fingerprint: Option<String>,
    pub acoustid: Option<String>,
    pub musicbrainz_recording_id: Option<String>,
    pub musicbrainz_release_id: Option<String>,
    pub art_path: Option<String>,
    pub file_size: i64,
    pub added_at: i64,
}

/// A stored row of the `tracks` table.
pub struct TrackRow {
    pub id: i64,
    pub path: String,
    pub title: String,
    pub artist: String,
    pub album: String,
    pub album_artist: String,
    pub genre: String,
    pub year: Option<i32>,
    pub track_number: Option<i32>,
    pub disc_number: Option<i32>,
    pub duration_ms: i64,
    pub file_hash: String,
    pub fingerprint: Option<String>,
    pub acoustid: Option<String>,
    pub musicbrainz_recording_id: Option<String>,
    pub musicbrainz_release_id: Option<String>,
    pub art_path: Option<String>,
    pub file_size: i64,
    pub added_at: i64,
    pub favorite: i64,
    pub play_count: i64,
    pub last_played_at: Option<i64>,
}

/// A stored row of the `playlists` table.
pub struct PlaylistRow {
    pub id: i64,
    pub name: String,
    pub created_at: i64,
    pub updated_at: i64,
}

/// A stored row of the `playlist_tracks` table.
#[derive(Clone, Copy, Debug, PartialEq, Eq)]
pub struct PlaylistEntry {
    pub playlist_id: i64,
    pub track_id: i64,
    pub position: i64,
}

/// The contents of the three tables, with the `AUTOINCREMENT` counters.
pub struct DbState {
    pub tracks: Seq<TrackRow>,
    pub playlists: Seq<PlaylistRow>,
    pub entries: Seq<PlaylistEntry>,
    pub track_seq: int,
    pub playlist_seq: int,
}

/// The music library: its tracks, playlists and playlist entries.
pub struct Database {
    tracks: Vec<TrackRow>,
    playlists: Vec<PlaylistRow>,
    entries: Vec<PlaylistEntry>,
    track_seq: i64,
    playlist_seq: i64,
}

impl View for Database {
    type V = DbState;

    closed spec fn view(&self) -> DbState {
        DbState {
            tracks: self.tracks@,
            playlists: self.playlists@,
            entries: self.entries@,
            track_seq: self.track_seq as int,
            playlist_seq: self.playlist_seq as int,
        }
    }
}

pub open spec fn same_pair(a: PlaylistEntry, b: PlaylistEntry) -> bool {
    a.playlist_id == b.playlist_id && a.track_id == b.track_id
}

/// The tables' invariants: ids increase in table order and never pass the
/// counter, paths are unique, and a track stands in a playlist at most once.
pub open spec fn wf(st: DbState) -> bool {
    &&& 0 <= st.track_seq <= i64::MAX
    &&& 0 <= st.playlist_seq <= i64::MAX
    &&& st.tracks.len() <= st.track_seq
    &&& st.playlists.len() <= st.playlist_seq
    &&& st.entries.len() < i64::MAX
    &&& forall|i: int| 0 <= i < st.tracks.len() ==> 1 <= #[trigger] st.tracks[i].id <= st.track_seq
    &&& forall|i: int, j: int|
        0 <= i < j < st.tracks.len() ==> #[trigger] st.tracks[i].id < #[trigger] st.tracks[j].id
    &&& forall|i: int, j: int|
        0 <= i < j < st.tracks.len() ==> #[trigger] st.tracks[i].path@ != #[trigger] st.tracks[j].path@
    &&& forall|i: int|
        0 <= i < st.playlists.len() ==> 1 <= #[trigger] st.playlists[i].id <= st.playlist_seq
    &&& forall|i: int, j: int|
        0 <= i < j < st.playlists.len() ==> #[trigger] st.playlists[i].id
            < #[trigger] st.playlists[j].id
    &&& forall|i: int, j: int|
        0 <= i < j < st.entries.len() ==> !same_pair(#[trigger] st.entries[i], #[trigger] st.entries[j])
}

/// How a stored row reads as a `Track`.
pub open spec fn track_of(r: TrackRow) -> Track {
    Track {
        id: r.id,
        path: r.path,
        title: r.title,
        artist: r.artist,
        album: r.album,
        album_artist: r.album_artist,
        genre: r.genre,
        year: r.year,
        track_number: r.track_number,
        duration_ms: r.duration_ms,
        file_hash: r.file_hash,
        fingerprint: r.fingerprint,
        art_path: r.art_path,
        added_at: r.added_at,
        favorite: r.favorite != 0,
        play_count: r.play_count,
        last_played_at: r.last_played_at,
    }
}

/// The row that inserting `t` stores under `id`: not a favorite, never played.
pub open spec fn row_of(t: InsertTrack, id: i64) -> TrackRow {
    TrackRow {
        id: id,
        path: t.path,
        title: t.title,
        artist: t.artist,
        album: t.album,
        album_artist: t.album_artist,
        genre: t.genre,
        year: t.year,
        track_number: t.track_number,
        disc_number: t.disc_number,
        duration_ms: t.duration_ms,
        file_hash: t.file_hash,
        fingerprint: t.fingerprint,
        acoustid: t.acoustid,
        musicbrainz_recording_id: t.musicbrainz_recording_id,
        musicbrainz_release_id: t.musicbrainz_release_id,
        art_path: t.art_path,
        file_size: t.file_size,
        added_at: t.added_at,
        favorite: 0,
        play_count: 0,
        last_played_at: None,
    }
}

pub open spec fn opt_text_is(o: Option<String>, s: Seq<char>) -> bool {
    match o {
        Some(x) => x@ == s,
        None => false,
    }
}

pub open spec fn path_taken(st: DbState, path: Seq<char>) -> bool {
    exists|i: int| 0 <= i < st.tracks.len() && (#[trigger] st.tracks[i]).path@ == path
}

pub open spec fn hash_taken(st: DbState, hash: Seq<char>) -> bool {
    exists|i: int| 0 <= i < st.tracks.len() && (#[trigger] st.tracks[i]).file_hash@ == hash
}

pub open spec fn fingerprint_taken(st: DbState, fp: Seq<char>) -> bool {
    exists|i: int| 0 <= i < st.tracks.len() && opt_text_is((#[trigger] st.tracks[i]).fingerprint, fp)
}

pub open spec fn has_track(st: DbState, id: i64) -> bool {
    exists|i: int| 0 <= i < st.tracks.len() && (#[trigger] st.tracks[i]).id == id
}

/// What inserting `t` answers: the id it was stored under, or why it was not.
pub open spec fn insert_outcome(st: DbState, t: InsertTrack) -> Result<i64, DbError> {
    if st.track_seq >= i64::MAX {
        Err(DbError::IdSpaceExhausted)
    } else if path_taken(st, t.path@) {
        Err(DbError::DuplicatePath)
    } else {
        Ok((st.track_seq + 1) as i64)
    }
}

pub open spec fn after_insert(st: DbState, t: InsertTrack) -> DbState {
    match insert_outcome(st, t) {
        Ok(id) => DbState { tracks: st.tracks.push(row_of(t, id)), track_seq: id as int, ..st },
        Err(_) => st,
    }
}

pub open spec fn with_favorite(r: TrackRow, id: i64, favorite: bool) -> TrackRow {
    if r.id == id {
        TrackRow { favorite: if favorite { 1 } else { 0 }, ..r }
    } else {
        r
    }
}

pub open spec fn after_set_favorite(st: DbState, id: i64, favorite: bool) -> DbState {
    DbState { tracks: st.tracks.map_values(|r: TrackRow| with_favorite(r, id, favorite)), ..st }
}

/// Recording a play of a track whose count is already `i64::MAX` is refused.
pub open spec fn play_overflows(st: DbState, id: i64) -> bool {
    exists|i: int|
        0 <= i < st.tracks.len() && (#[trigger] st.tracks[i]).id == id && st.tracks[i].play_count
            == i64::MAX
}

pub open spec fn with_play(r: TrackRow, id: i64, now: i64) -> TrackRow {
    if r.id == id {
        TrackRow { play_count: (r.play_count + 1) as i64, last_played_at: Some(now), ..r }
    } else {
        r
    }
}

pub open spec fn after_record_play(st: DbState, id: i64, now: i64) -> DbState {
    if play_overflows(st, id) {
        st
    } else {
        DbState { tracks: st.tracks.map_values(|r: TrackRow| with_play(r, id, now)), ..st }
    }
}

pub open spec fn create_outcome(st: DbState) -> Result<i64, DbError> {
    if st.playlist_seq >= i64::MAX {
        Err(DbError::IdSpaceExhausted)
    } else {
        Ok((st.playlist_seq + 1) as i64)
    }
}

pub open spec fn after_create_playlist(st: DbState, name: String, now: i64) -> DbState {
    match create_outcome(st) {
        Ok(id) => DbState {
            playlists: st.playlists.push(
                PlaylistRow { id: id, name: name, created_at: now, updated_at: now },
            ),
            playlist_seq: id as int,
            ..st
        },
        Err(_) => st,
    }
}

pub open spec fn renamed(p: PlaylistRow, id: i64, name: String, now: i64) -> PlaylistRow {
    if p.id == id {
        PlaylistRow { name: name, updated_at: now, ..p }
    } else {
        p
    }
}

pub open spec fn after_rename_playlist(st: DbState, id: i64, name: String, now: i64) -> DbState {
    DbState { playlists: st.playlists.map_values(|p: PlaylistRow| renamed(p, id, name, now)), ..st }
}

pub open spec fn other_playlist(id: i64) -> spec_fn(PlaylistRow) -> bool {
    |p: PlaylistRow| p.id != id
}

pub open spec fn outside_playlist(id: i64) -> spec_fn(PlaylistEntry) -> bool {
    |e: PlaylistEntry| e.playlist_id != id
}

pub open spec fn other_pair(playlist_id: i64, track_id: i64) -> spec_fn(PlaylistEntry) -> bool {
    |e: PlaylistEntry| !(e.playlist_id == playlist_id && e.track_id == track_id)
}

/// Deleting a playlist removes it and all of its entries.
pub open spec fn after_delete_playlist(st: DbState, id: i64) -> DbState {
    DbState {
        playlists: st.playlists.filter(other_playlist(id)),
        entries: st.entries.filter(outside_playlist(id)),
        ..st
    }
}

pub open spec fn touched(p: PlaylistRow, id: i64, now: i64) -> PlaylistRow {
    if p.id == id {
        PlaylistRow { updated_at: now, ..p }
    } else {
        p
    }
}

/// `MAX(position)` over the playlist's entries, if it has any.
pub open spec fn max_position(entries: Seq<PlaylistEntry>, playlist_id: i64) -> Option<i64>
    decreases entries.len(),
{
    if entries.len() == 0 {
        None
    } else {
        let rest = max_position(entries.drop_last(), playlist_id);
        let e = entries.last();
        if e.playlist_id != playlist_id {
            rest
        } else {
            match rest {
                Some(m) => Some(if e.position > m { e.position } else { m }),
                None => Some(e.position),
            }
        }
    }
}

/// `COALESCE(MAX(position), -1) + 1`: where a new entry of the playlist goes.
pub open spec fn next_position(entries: Seq<PlaylistEntry>, playlist_id: i64) -> int {
    match max_position(entries, playlist_id) {
        Some(m) => m + 1,
        None => 0,
    }
}

pub open spec fn has_pair(entries: Seq<PlaylistEntry>, playlist_id: i64, track_id: i64) -> bool {
    exists|i: int|
        0 <= i < entries.len() && (#[trigger] entries[i]).playlist_id == playlist_id
            && entries[i].track_id == track_id
}

/// A pair already in the playlist is left alone; a new one is refused when
/// its position would pass `i64::MAX` or the entries would be too many to
/// count.
pub open spec fn add_outcome(st: DbState, playlist_id: i64, track_id: i64) -> Result<(), DbError> {
    if has_pair(st.entries, playlist_id, track_id) {
        Ok(())
    } else if next_position(st.entries, playlist_id) > i64::MAX {
        Err(DbError::IntegerOverflow)
    } else if st.entries.len() + 1 >= i64::MAX {
        Err(DbError::IdSpaceExhausted)
    } else {
        Ok(())
    }
}

/// Adding a track appends an entry at the next position unless the pair is
/// already there (`INSERT OR IGNORE`), and stamps the playlist's `updated_at`.
/// Neither the playlist nor the track has to exist.
pub open spec fn after_add_to_playlist(
    st: DbState,
    playlist_id: i64,
    track_id: i64,
    now: i64,
) -> DbState {
    if add_outcome(st, playlist_id, track_id) is Err {
        st
    } else {
        DbState {
            entries: if has_pair(st.entries, playlist_id, track_id) {
                st.entries
            } else {
                st.entries.push(
                    PlaylistEntry {
                        playlist_id: playlist_id,
                        track_id: track_id,
                        position: next_position(st.entries, playlist_id) as i64,
                    },
                )
            },
            playlists: st.playlists.map_values(|p: PlaylistRow| touched(p, playlist_id, now)),
            ..st
        }
    }
}

pub open spec fn after_remove_from_playlist(
    st: DbState,
    playlist_id: i64,
    track_id: i64,
    now: i64,
) -> DbState {
    DbState {
        entries: st.entries.filter(other_pair(playlist_id, track_id)),
        playlists: st.playlists.map_values(|p: PlaylistRow| touched(p, playlist_id, now)),
        ..st
    }
}

pub fn clone_text(o: &Option<String>) -> (r: Option<String>)
    ensures
        r == *o,
{
    match o {
        Some(s) => Some(s.clone()),
        None => None,
    }
}

impl InsertTrack {
    pub fn duplicate(&self) -> (r: InsertTrack)
        ensures
            r == *self,
    {
        InsertTrack {
            path: self.path.clone(),
            title: self.title.clone(),
            artist: self.artist.clone(),
            album: self.album.clone(),
            album_artist: self.album_artist.clone(),
            genre: self.genre.clone(),
            year: self.year,
            track_number: self.track_number,
            disc_number: self.disc_number,
            duration_ms: self.duration_ms,
            file_hash: self.file_hash.clone(),
            fingerprint: clone_text(&self.fingerprint),
            acoustid: clone_text(&self.acoustid),
            musicbrainz_recording_id: clone_text(&self.musicbrainz_recording_id),
            musicbrainz_release_id: clone_text(&self.musicbrainz_release_id),
            art_path: clone_text(&self.art_path),
            file_size: self.file_size,
            added_at: self.added_at,
        }
    }
}

impl TrackRow {
    pub fn duplicate(&self) -> (r: TrackRow)
        ensures
            r == *self,
    {
        TrackRow {
            id: self.id,
            path: self.path.clone(),
            title: self.title.clone(),
            artist: self.artist.clone(),
            album: self.album.clone(),
            album_artist: self.album_artist.clone(),
            genre: self.genre.clone(),
            year: self.year,
            track_number: self.track_number,
            disc_number: self.disc_number,
            duration_ms: self.duration_ms,
            file_hash: self.file_hash.clone(),
            fingerprint: clone_text(&self.fingerprint),
            acoustid: clone_text(&self.acoustid),
            musicbrainz_recording_id: clone_text(&self.musicbrainz_recording_id),
            musicbrainz_release_id: clone_text(&self.musicbrainz_release_id),
            art_path: clone_text(&self.art_path),
            file_size: self.file_size,
            added_at: self.added_at,
            favorite: self.favorite,
            play_count: self.play_count,
            last_played_at: self.last_played_at,
        }
    }

    /// The row as a `Track`.
    pub fn to_track(&self) -> (t: Track)
        ensures
            t == track_of(*self),
    {
        Track {
            id: self.id,
            path: self.path.clone(),
            title: self.title.clone(),
            artist: self.artist.clone(),
            album: self.album.clone(),
            album_artist: self.album_artist.clone(),
            genre: self.genre.clone(),
            year: self.year,
            track_number: self.track_number,
            duration_ms: self.duration_ms,
            file_hash: self.file_hash.clone(),
            fingerprint: clone_text(&self.fingerprint),
            art_path: clone_text(&self.art_path),
            added_at: self.added_at,
            favorite: self.favorite != 0,
            play_count: self.play_count,
            last_played_at: self.last_played_at,
        }
    }
}

impl PlaylistRow {
    pub fn duplicate(&self) -> (r: PlaylistRow)
        ensures
            r == *self,
    {
        PlaylistRow {
            id: self.id,
            name: self.name.clone(),
            created_at: self.created_at,
            updated_at: self.updated_at,
        }
    }
}

impl Database {
    /// An empty library.
    pub fn new() -> (db: Database)
        ensures
            wf(db@),
            db@.tracks.len() == 0,
            db@.playlists.len() == 0,
            db@.entries.len() == 0,
            db@.track_seq == 0,
            db@.playlist_seq == 0,
    {
        Database {
            tracks: Vec::new(),
            playlists: Vec::new(),
            entries: Vec::new(),
            track_seq: 0,
            playlist_seq: 0,
        }
    }

    /// The library holding the given rows, if they meet the tables' invariants.
    pub fn load(
        tracks: Vec<TrackRow>,
        playlists: Vec<PlaylistRow>,
        entries: Vec<PlaylistEntry>,
        track_seq: i64,
        playlist_seq: i64,
    ) -> (r: Result<Database, DbError>)
        ensures
            ({
                let st = DbState {
                    tracks: tracks@,
                    playlists: playlists@,
                    entries: entries@,
                    track_seq: track_seq as int,
                    playlist_seq: playlist_seq as int,
                };
                match r {
                    Ok(db) => wf(db@) && db@ == st,
                    Err(e) => e == DbError::Malformed && !wf(st),
                }
            }),
    {
        let ghost st = DbState {
            tracks: tracks@,
            playlists: playlists@,
            entries: entries@,
            track_seq: track_seq as int,
            playlist_seq: playlist_seq as int,
        };
        if track_seq < 0 || playlist_seq < 0 || tracks.len() as u64 > track_seq as u64
            || playlists.len() as u64 > playlist_seq as u64 || entries.len() as u64
            >= i64::MAX as u64 {
            return Err(DbError::Malformed);
        }
        let mut i: usize = 0;
        while i < tracks.len()
            invariant
                0 <= i <= tracks.len(),
                st.tracks == tracks@,
                forall|k: int| 0 <= k < i ==> 1 <= #[trigger] tracks@[k].id <= track_seq,
                forall|k: int, l: int| 0 <= k < l < i ==> #[trigger] tracks@[k].id < #[trigger] tracks@[l].id,
                forall|k: int, l: int|
                    0 <= k < l < i ==> #[trigger] tracks@[k].path@ != #[trigger] tracks@[l].path@,
            decreases tracks.len() - i,
        {
            let id = tracks[i].id;
            if id < 1 || id > track_seq {
                return Err(DbError::Malformed);
            }
            if i > 0 && tracks[i - 1].id >= id {
                assert(!wf(st)) by {
                    assert(st.tracks[i - 1].id >= st.tracks[i as int].id);
                }
                return Err(DbError::Malformed);
            }
            let mut j: usize = 0;
            while j < i
                invariant
                    0 <= j <= i < tracks.len(),
                    st.tracks == tracks@,
                    forall|l: int| 0 <= l < j ==> tracks@[l].path@ != tracks@[i as int].path@,
                decreases i - j,
            {
                if tracks[j].path == tracks[i].path {
                    assert(!wf(st)) by {
                        assert(st.tracks[j as int].path@ == st.tracks[i as int].path@);
                    }
                    return Err(DbError::Malformed);
                }
                j = j + 1;
            }
            assert forall|k: int, l: int| 0 <= k < l < i + 1 implies #[trigger] tracks@[k].id
                < #[trigger] tracks@[l].id by {
                if l == i && k < i - 1 {
                    assert(tracks@[k].id < tracks@[i - 1].id);
                }
            }
            i = i + 1;
        }
        let mut i: usize = 0;
        while i < playlists.len()
            invariant
                0 <= i <= playlists.len(),
                st.playlists == playlists@,
                forall|k: int| 0 <= k < i ==> 1 <= #[trigger] playlists@[k].id <= playlist_seq,
                forall|k: int, l: int|
                    0 <= k < l < i ==> #[trigger] playlists@[k].id < #[trigger] playlists@[l].id,
            decreases playlists.len() - i,
        {
            let id = playlists[i].id;
            if id < 1 || id > playlist_seq {
                return Err(DbError::Malformed);
            }
            if i > 0 && playlists[i - 1].id >= id {
                assert(!wf(st)) by {
                    assert(st.playlists[i - 1].id >= st.playlists[i as int].id);
                }
                return Err(DbError::Malformed);
            }
            assert forall|k: int, l: int| 0 <= k < l < i + 1 implies #[trigger] playlists@[k].id
                < #[trigger] playlists@[l].id by {
                if l == i && k < i - 1 {
                    assert(playlists@[k].id < playlists@[i - 1].id);
                }
            }
            i = i + 1;
        }
        let mut i: usize = 0;
        while i < entries.len()
            invariant
                0 <= i <= entries.len(),
                st.entries == entries@,
                forall|k: int, l: int|
                    0 <= k < l < i ==> !same_pair(#[trigger] entries@[k], #[trigger] entries@[l]),
            decreases entries.len() - i,
        {
            let mut j: usize = 0;
            while j < i
                invariant
                    0 <= j <= i < entries.len(),
                    st.entries == entries@,
                    forall|l: int| 0 <= l < j ==> !same_pair(entries@[l], entries@[i as int]),
                decreases i - j,
            {
                if entries[j].playlist_id == entries[i].playlist_id && entries[j].track_id
                    == entries[i].track_id {
                    assert(!wf(st)) by {
                        assert(same_pair(st.entries[j as int], st.entries[i as int]));
                    }
                    return Err(DbError::Malformed);
                }
                j = j + 1;
            }
            i = i + 1;
        }
        let db = Database { tracks, playlists, entries, track_seq, playlist_seq };
        assert(db@ == st);
        Ok(db)
    }

    /// The stored track rows, in id order.
    pub fn track_rows(&self) -> (r: &Vec<TrackRow>)
        ensures
            r@ == self@.tracks,
    {
        &self.tracks
    }

    /// The stored playlist rows, in id order.
    pub fn playlist_rows(&self) -> (r: &Vec<PlaylistRow>)
        ensures
            r@ == self@.playlists,
    {
        &self.playlists
    }

    /// The stored playlist entries.
    pub fn entry_rows(&self) -> (r: &Vec<PlaylistEntry>)
        ensures
            r@ == self@.entries,
    {
        &self.entries
    }

    /// The largest track id handed out so far.
    pub fn track_sequence(&self) -> (r: i64)
        ensures
            r == self@.track_seq,
    {
        self.track_seq
    }

    /// The largest playlist id handed out so far.
    pub fn playlist_sequence(&self) -> (r: i64)
        ensures
            r == self@.playlist_seq,
    {
        self.playlist_seq
    }

    /// Whether a track with this file hash is stored.
    pub fn hash_exists(&self, hash: &str) -> (b: bool)
        ensures
            b == hash_taken(self@, hash@),
    {
        let key = String::from_str(hash);
        let mut i: usize = 0;
        while i < self.tracks.len()
            invariant
                0 <= i <= self.tracks.len(),
                key@ == hash@,
                forall|k: int| 0 <= k < i ==> self.tracks@[k].file_hash@ != hash@,
            decreases self.tracks.len() - i,
        {
            if self.tracks[i].file_hash == key {
                assert(self@.tracks[i as int].file_hash@ == hash@);
                return true;
            }
            i = i + 1;
        }
        false
    }

    /// Whether a track with this fingerprint is stored (a missing fingerprint
    /// matches nothing).
    pub fn fingerprint_exists(&self, fingerprint: &str) -> (b: bool)
        ensures
            b == fingerprint_taken(self@, fingerprint@),
    {
        let key = String::from_str(fingerprint);
        let mut i: usize = 0;
        while i < self.tracks.len()
            invariant
                0 <= i <= self.tracks.len(),
                key@ == fingerprint@,
                forall|k: int| 0 <= k < i ==> !opt_text_is(self.tracks@[k].fingerprint, fingerprint@),
            decreases self.tracks.len() - i,
        {
            match &self.tracks[i].fingerprint {
                Some(f) => {
                    if *f == key {
                        assert(opt_text_is(self@.tracks[i as int].fingerprint, fingerprint@));
                        return true;
                    }
                },
                None => {},
            }
            i = i + 1;
        }
        false
    }

    /// Whether a track with this path is stored.
    pub fn path_exists(&self, path: &str) -> (b: bool)
        ensures
            b == path_taken(self@, path@),
    {
        let key = String::from_str(path);
        let mut i: usize = 0;
        while i < self.tracks.len()
            invariant
                0 <= i <= self.tracks.len(),
                key@ == path@,
                forall|k: int| 0 <= k < i ==> self.tracks@[k].path@ != path@,
            decreases self.tracks.len() - i,
        {
            if self.tracks[i].path == key {
                assert(self@.tracks[i as int].path@ == path@);
                return true;
            }
            i = i + 1;
        }
        false
    }

    /// Stores a new track and answers its id.
    pub fn insert_track(&mut self, track: &InsertTrack) -> (r: Result<i64, DbError>)
        requires
            wf(old(self)@),
        ensures
            r == insert_outcome(old(self)@, *track),
            final(self)@ == after_insert(old(self)@, *track),
            wf(final(self)@),
    {
        if self.track_seq == i64::MAX {
            return Err(DbError::IdSpaceExhausted);
        }
        if self.path_exists(track.path.as_str()) {
            return Err(DbError::DuplicatePath);
        }
        let id = self.track_seq + 1;
        let t = track.duplicate();
        let row = TrackRow {
            id,
            path: t.path,
            title: t.title,
            artist: t.artist,
            album: t.album,
            album_artist: t.album_artist,
            genre: t.genre,
            year: t.year,
            track_number: t.track_number,
            disc_number: t.disc_number,
            duration_ms: t.duration_ms,
            file_hash: t.file_hash,
            fingerprint: t.fingerprint,
            acoustid: t.acoustid,
            musicbrainz_recording_id: t.musicbrainz_recording_id,
            musicbrainz_release_id: t.musicbrainz_release_id,
            art_path: t.art_path,
            file_size: t.file_size,
            added_at: t.added_at,
            favorite: 0,
            play_count: 0,
            last_played_at: None,
        };
        assert(row == row_of(*track, id));
        self.tracks.push(row);
        self.track_seq = id;
        assert(self@ == after_insert(old(self)@, *track));
        Ok(id)
    }

    /// Sets or clears a track's favorite flag; an unknown id changes nothing.
    pub fn set_favorite(&mut self, id: i64, favorite: bool)
        requires
            wf(old(self)@),
        ensures
            final(self)@ == after_set_favorite(old(self)@, id, favorite),
            wf(final(self)@),
    {
        let value: i64 = if favorite { 1 } else { 0 };
        let mut i: usize = 0;
        let ghost orig = self@;
        while i < self.tracks.len()
            invariant
                0 <= i <= self.tracks.len(),
                self.tracks.len() == orig.tracks.len(),
                self.playlists@ == orig.playlists,
                self.entries@ == orig.entries,
                self.track_seq == orig.track_seq,
                self.playlist_seq == orig.playlist_seq,
                value == (if favorite { 1i64 } else { 0i64 }),
                forall|k: int|
                    0 <= k < i ==> #[trigger] self.tracks@[k] == with_favorite(
                        orig.tracks[k],
                        id,
                        favorite,
                    ),
                forall|k: int| i <= k < self.tracks.len() ==> #[trigger] self.tracks@[k] == orig.tracks[k],
            decreases self.tracks.len() - i,
        {
            if self.tracks[i].id == id {
                self.tracks[i].favorite = value;
            }
            i = i + 1;
        }
        assert(self@.tracks =~= orig.tracks.map_values(
            |r: TrackRow| with_favorite(r, id, favorite),
        ));
    }

    /// Counts one more play of a track and stamps when it happened.
    pub fn record_play(&mut self, id: i64, now: i64) -> (r: Result<(), DbError>)
        requires
            wf(old(self)@),
        ensures
            r is Err <==> play_overflows(old(self)@, id),
            r is Err ==> r == Err::<(), DbError>(DbError::IntegerOverflow),
            final(self)@ == after_record_play(old(self)@, id, now),
            wf(final(self)@),
    {
        let mut i: usize = 0;
        let ghost orig = self@;
        while i < self.tracks.len()
            invariant
                0 <= i <= self.tracks.len(),
                self@ == orig,
                wf(orig),
                forall|k: int|
                    0 <= k < i ==> !(#[trigger] orig.tracks[k].id == id && orig.tracks[k].play_count
                        == i64::MAX),
            decreases self.tracks.len() - i,
        {
            if self.tracks[i].id == id && self.tracks[i].play_count == i64::MAX {
                assert(play_overflows(orig, id)) by {
                    assert(orig.tracks[i as int].id == id);
                }
                return Err(DbError::IntegerOverflow);
            }
            i = i + 1;
        }
        let mut i: usize = 0;
        while i < self.tracks.len()
            invariant
                0 <= i <= self.tracks.len(),
                !play_overflows(orig, id),
                self.tracks.len() == orig.tracks.len(),
                self.playlists@ == orig.playlists,
                self.entries@ == orig.entries,
                self.track_seq == orig.track_seq,
                self.playlist_seq == orig.playlist_seq,
                forall|k: int|
                    0 <= k < i ==> #[trigger] self.tracks@[k] == with_play(orig.tracks[k], id, now),
                forall|k: int| i <= k < self.tracks.len() ==> #[trigger] self.tracks@[k] == orig.tracks[k],
            decreases self.tracks.len() - i,
        {
            if self.tracks[i].id == id {
                assert(orig.tracks[i as int].play_count != i64::MAX);
                self.tracks[i].play_count = self.tracks[i].play_count + 1;
                self.tracks[i].last_played_at = Some(now);
            }
            i = i + 1;
        }
        assert(self@.tracks =~= orig.tracks.map_values(|r: TrackRow| with_play(r, id, now)));
        Ok(())
    }

    /// Creates an empty playlist and answers its id.
    pub fn create_playlist(&mut self, name: &str, now: i64) -> (r: Result<i64, DbError>)
        requires
            wf(old(self)@),
        ensures
            r == create_outcome(old(self)@),
            exists|n: String|
                n@ == name@ && final(self)@ == after_create_playlist(old(self)@, n, now),
            wf(final(self)@),
    {
        let n = String::from_str(name);
        let ghost gn = n;
        if self.playlist_seq == i64::MAX {
            assert(self@ == after_create_playlist(old(self)@, gn, now));
            return Err(DbError::IdSpaceExhausted);
        }
        let id = self.playlist_seq + 1;
        self.playlists.push(PlaylistRow { id, name: n, created_at: now, updated_at: now });
        self.playlist_seq = id;
        assert(self@ == after_create_playlist(old(self)@, gn, now));
        Ok(id)
    }

    /// Renames a playlist and stamps its `updated_at`; an unknown id changes
    /// nothing.
    pub fn rename_playlist(&mut self, id: i64, name: &str, now: i64)
        requires
            wf(old(self)@),
        ensures
            exists|n: String|
                n@ == name@ && final(self)@ == after_rename_playlist(old(self)@, id, n, now),
            wf(final(self)@),
    {
        let ghost orig = self@;
        let n = String::from_str(name);
        let ghost gn = n;
        let mut i: usize = 0;
        while i < self.playlists.len()
            invariant
                0 <= i <= self.playlists.len(),
                gn@ == name@,
                n == gn,
                self.playlists.len() == orig.playlists.len(),
                self.tracks@ == orig.tracks,
                self.entries@ == orig.entries,
                self.track_seq == orig.track_seq,
                self.playlist_seq == orig.playlist_seq,
                forall|k: int|
                    0 <= k < i ==> #[trigger] self.playlists@[k] == renamed(
                        orig.playlists[k],
                        id,
                        gn,
                        now,
                    ),
                forall|k: int|
                    i <= k < self.playlists.len() ==> #[trigger] self.playlists@[k]
                        == orig.playlists[k],
            decreases self.playlists.len() - i,
        {
            if self.playlists[i].id == id {
                self.playlists[i].name = n.clone();
                self.playlists[i].updated_at = now;
            }
            i = i + 1;
        }
        assert(self@.playlists =~= orig.playlists.map_values(
            |p: PlaylistRow| renamed(p, id, gn, now),
        ));
        assert(self@ == after_rename_playlist(orig, id, gn, now));
    }

    /// Deletes a playlist and its entries.
    pub fn delete_playlist(&mut self, id: i64)
        requires
            wf(old(self)@),
        ensures
            final(self)@ == after_delete_playlist(old(self)@, id),
            wf(final(self)@),
    {
        let ghost orig = self@;
        let ghost pe = outside_playlist(id);
        let ghost pp = other_playlist(id);
        let mut kept: Vec<PlaylistEntry> = Vec::new();
        let mut i: usize = 0;
        while i < self.entries.len()
            invariant
                0 <= i <= self.entries.len(),
                self@ == orig,
                pe == outside_playlist(id),
                kept@ == orig.entries.take(i as int).filter(pe),
            decreases self.entries.len() - i,
        {
            proof {
                lemma_filter_take_step(orig.entries, pe, i as int);
            }
            if self.entries[i].playlist_id != id {
                kept.push(self.entries[i]);
            }
            i = i + 1;
        }
        let mut kept_lists: Vec<PlaylistRow> = Vec::new();
        let mut i: usize = 0;
        while i < self.playlists.len()
            invariant
                0 <= i <= self.playlists.len(),
                self@ == orig,
                pp == other_playlist(id),
                kept_lists@ == orig.playlists.take(i as int).filter(pp),
            decreases self.playlists.len() - i,
        {
            proof {
                lemma_filter_take_step(orig.playlists, pp, i as int);
            }
            if self.playlists[i].id != id {
                kept_lists.push(self.playlists[i].duplicate());
            }
            i = i + 1;
        }
        assert(orig.entries.take(orig.entries.len() as int) =~= orig.entries);
        assert(orig.playlists.take(orig.playlists.len() as int) =~= orig.playlists);
        self.entries = kept;
        self.playlists = kept_lists;
        proof {
            let rel_e = |a: PlaylistEntry, b: PlaylistEntry| !same_pair(a, b);
            lemma_filter_pairwise(orig.entries, pe, rel_e);
            let rel_p = |a: PlaylistRow, b: PlaylistRow| a.id < b.id;
            lemma_filter_pairwise(orig.playlists, pp, rel_p);
            orig.entries.lemma_filter_len(pe);
            orig.playlists.lemma_filter_len(pp);
            assert forall|k: int| 0 <= k < self@.playlists.len() implies 1
                <= #[trigger] self@.playlists[k].id <= self@.playlist_seq by {
                lemma_filter_member(orig.playlists, pp, k);
            }
            assert forall|k: int, l: int| 0 <= k < l < self@.entries.len() implies !same_pair(
                #[trigger] self@.entries[k],
                #[trigger] self@.entries[l],
            ) by {
                assert(rel_e(self@.entries[k], self@.entries[l]));
            }
            assert forall|k: int, l: int| 0 <= k < l < self@.playlists.len() implies #[trigger] self@.playlists[k].id
                < #[trigger] self@.playlists[l].id by {
                assert(rel_p(self@.playlists[k], self@.playlists[l]));
            }
        }
    }

    /// Walks the playlist's entries for `MAX(position)` and for the pair.
    fn scan_playlist(&self, playlist_id: i64, track_id: i64) -> (r: (Option<i64>, bool))
        ensures
            r.0 == max_position(self@.entries, playlist_id),
            r.1 == has_pair(self@.entries, playlist_id, track_id),
    {
        let mut m: Option<i64> = None;
        let mut found = false;
        let mut i: usize = 0;
        while i < self.entries.len()
            invariant
                0 <= i <= self.entries.len(),
                m == max_position(self@.entries.take(i as int), playlist_id),
                found == has_pair(self@.entries.take(i as int), playlist_id, track_id),
            decreases self.entries.len() - i,
        {
            let e = self.entries[i];
            assert(self@.entries.take(i + 1).drop_last() =~= self@.entries.take(i as int));
            assert(self@.entries.take(i + 1).last() == e);
            if e.playlist_id == playlist_id {
                m = match m {
                    Some(x) => Some(if e.position > x { e.position } else { x }),
                    None => Some(e.position),
                };
                if e.track_id == track_id {
                    found = true;
                    assert(self@.entries.take(i + 1)[i as int] == e);
                }
            }
            proof {
                let t = self@.entries.take(i + 1);
                let t0 = self@.entries.take(i as int);
                if has_pair(t, playlist_id, track_id) && !(e.playlist_id == playlist_id && e.track_id == track_id) {
                    let k = choose|k: int| 0 <= k < t.len() && (#[trigger] t[k]).playlist_id == playlist_id && t[k].track_id == track_id;
                    assert(k < i);
                    assert(t0[k] == t[k]);
                }
                if has_pair(t0, playlist_id, track_id) {
                    let k = choose|k: int| 0 <= k < t0.len() && (#[trigger] t0[k]).playlist_id == playlist_id && t0[k].track_id == track_id;
                    assert(t[k] == t0[k]);
                }
            }
            i = i + 1;
        }
        assert(self@.entries.take(self@.entries.len() as int) =~= self@.entries);
        (m, found)
    }

    /// Stamps the playlist's `updated_at`.
    fn touch_playlist(&mut self, playlist_id: i64, now: i64)
        requires
            wf(old(self)@),
        ensures
            final(self)@ == (DbState {
                playlists: old(self)@.playlists.map_values(|p: PlaylistRow| touched(p, playlist_id, now)),
                ..old(self)@
            }),
            wf(final(self)@),
    {
        let ghost orig = self@;
        let mut i: usize = 0;
        while i < self.playlists.len()
            invariant
                0 <= i <= self.playlists.len(),
                self.playlists.len() == orig.playlists.len(),
                self.tracks@ == orig.tracks,
                self.entries@ == orig.entries,
                self.track_seq == orig.track_seq,
                self.playlist_seq == orig.playlist_seq,
                forall|k: int|
                    0 <= k < i ==> #[trigger] self.playlists@[k] == touched(orig.playlists[k], playlist_id, now),
                forall|k: int|
                    i <= k < self.playlists.len() ==> #[trigger] self.playlists@[k]
                        == orig.playlists[k],
            decreases self.playlists.len() - i,
        {
            if self.playlists[i].id == playlist_id {
                self.playlists[i].updated_at = now;
            }
            i = i + 1;
        }
        assert(self@.playlists =~= orig.playlists.map_values(
            |p: PlaylistRow| touched(p, playlist_id, now),
        ));
    }

    /// Appends a track to a playlist (once) and stamps the playlist.
    pub fn add_to_playlist(&mut self, playlist_id: i64, track_id: i64, now: i64) -> (r: Result<(), DbError>)
        requires
            wf(old(self)@),
        ensures
            r == add_outcome(old(self)@, playlist_id, track_id),
            final(self)@ == after_add_to_playlist(old(self)@, playlist_id, track_id, now),
            wf(final(self)@),
    {
        let (m, found) = self.scan_playlist(playlist_id, track_id);
        if !found {
            let pos: i64 = match m {
                Some(x) => {
                    if x == i64::MAX {
                        return Err(DbError::IntegerOverflow);
                    }
                    x + 1
                },
                None => 0,
            };
            assert(pos == next_position(self@.entries, playlist_id));
            if self.entries.len() as u64 + 1 >= i64::MAX as u64 {
                return Err(DbError::IdSpaceExhausted);
            }
            let ghost before = self@;
            self.entries.push(PlaylistEntry { playlist_id, track_id, position: pos });
            assert forall|k: int, l: int| 0 <= k < l < self@.entries.len() implies !same_pair(
                #[trigger] self@.entries[k],
                #[trigger] self@.entries[l],
            ) by {
                if l == before.entries.len() {
                    assert(self@.entries[k] == before.entries[k]);
                    if same_pair(before.entries[k], self@.entries[l]) {
                        assert(has_pair(before.entries, playlist_id, track_id));
                    }
                }
            }
        }
        self.touch_playlist(playlist_id, now);
        Ok(())
    }

    /// Takes a track out of a playlist and stamps the playlist.
    pub fn remove_from_playlist(&mut self, playlist_id: i64, track_id: i64, now: i64)
        requires
            wf(old(self)@),
        ensures
            final(self)@ == after_remove_from_playlist(old(self)@, playlist_id, track_id, now),
            wf(final(self)@),
    {
        let ghost orig = self@;
        let ghost pe = other_pair(playlist_id, track_id);
        let mut kept: Vec<PlaylistEntry> = Vec::new();
        let mut i: usize = 0;
        while i < self.entries.len()
            invariant
                0 <= i <= self.entries.len(),
                self@ == orig,
                pe == other_pair(playlist_id, track_id),
                kept@ == orig.entries.take(i as int).filter(pe),
            decreases self.entries.len() - i,
        {
            proof {
                lemma_filter_take_step(orig.entries, pe, i as int);
            }
            if !(self.entries[i].playlist_id == playlist_id && self.entries[i].track_id == track_id) {
                kept.push(self.entries[i]);
            }
            i = i + 1;
        }
        assert(orig.entries.take(orig.entries.len() as int) =~= orig.entries);
        self.entries = kept;
        proof {
            let rel_e = |a: PlaylistEntry, b: PlaylistEntry| !same_pair(a, b);
            lemma_filter_pairwise(orig.entries, pe, rel_e);
            orig.entries.lemma_filter_len(pe);
            assert forall|k: int, l: int| 0 <= k < l < self@.entries.len() implies !same_pair(
                #[trigger] self@.entries[k],
                #[trigger] self@.entries[l],
            ) by {
                assert(rel_e(self@.entries[k], self@.entries[l]));
            }
        }
        self.touch_playlist(playlist_id, now);
    }
}

} // verus!
