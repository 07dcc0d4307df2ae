//! The library's track listings: which rows each one picks and in what order.

use vstd::prelude::*;

use crate::db::{track_of, wf, Database, DbError, DbState, TrackRow};
use crate::like::{like, like_match, LIKE_PATTERN_LIMIT};
use crate::models::Track;
use crate::order::{key_le, key_view, sort_keyed, KeyPart, KeyValue, Part, Value};
use crate::seq_facts::{lemma_filter_take_step, lemma_multiset_map, lemma_multiset_member};
use crate::text::{chars_of, fold_text, folded_chars};
use vstd::string::{StringExecFns, StringSliceAdditionalSpecFns};

verus! {

// ---------------------------------------------------------------- sort keys

pub open spec fn text_key(s: Seq<char>) -> KeyValue {
    KeyValue::Text(s)
}

/// `COLLATE NOCASE`: the text with ASCII letters lowered.
pub open spec fn nocase_key(s: Seq<char>) -> KeyValue {
    KeyValue::Text(fold_text(s))
}

pub open spec fn opt32_key(o: Option<i32>) -> KeyValue {
    match o {
        Some(n) => KeyValue::Int(n as int),
        None => KeyValue::Null,
    }
}

pub open spec fn opt64_key(o: Option<i64>) -> KeyValue {
    match o {
        Some(n) => KeyValue::Int(n as int),
        None => KeyValue::Null,
    }
}

/// `ORDER BY artist COLLATE NOCASE, album COLLATE NOCASE, track_number, title`
pub open spec fn library_key() -> spec_fn(TrackRow) -> Seq<KeyPart> {
    |r: TrackRow|
        seq![
            KeyPart::Asc(nocase_key(r.artist@)),
            KeyPart::Asc(nocase_key(r.album@)),
            KeyPart::Asc(opt32_key(r.track_number)),
            KeyPart::Asc(text_key(r.title@)),
        ]
}

/// `ORDER BY artist COLLATE NOCASE, album COLLATE NOCASE, track_number`
pub open spec fn listing_key() -> spec_fn(TrackRow) -> Seq<KeyPart> {
    |r: TrackRow|
        seq![
            KeyPart::Asc(nocase_key(r.artist@)),
            KeyPart::Asc(nocase_key(r.album@)),
            KeyPart::Asc(opt32_key(r.track_number)),
        ]
}

/// `ORDER BY last_played_at DESC`
pub open spec fn recent_key() -> spec_fn(TrackRow) -> Seq<KeyPart> {
    |r: TrackRow| seq![KeyPart::Desc(opt64_key(r.last_played_at))]
}

/// `ORDER BY play_count DESC, last_played_at DESC`
pub open spec fn most_played_key() -> spec_fn(TrackRow) -> Seq<KeyPart> {
    |r: TrackRow|
        seq![
            KeyPart::Desc(KeyValue::Int(r.play_count as int)),
            KeyPart::Desc(opt64_key(r.last_played_at)),
        ]
}

/// `ORDER BY disc_number, track_number, title`
pub open spec fn album_key() -> spec_fn(TrackRow) -> Seq<KeyPart> {
    |r: TrackRow|
        seq![
            KeyPart::Asc(opt32_key(r.disc_number)),
            KeyPart::Asc(opt32_key(r.track_number)),
            KeyPart::Asc(text_key(r.title@)),
        ]
}

/// `ORDER BY album COLLATE NOCASE, track_number, title`
pub open spec fn artist_key() -> spec_fn(TrackRow) -> Seq<KeyPart> {
    |r: TrackRow|
        seq![
            KeyPart::Asc(nocase_key(r.album@)),
            KeyPart::Asc(opt32_key(r.track_number)),
            KeyPart::Asc(text_key(r.title@)),
        ]
}

// ------------------------------------------------------------ selections

pub open spec fn every_row() -> spec_fn(TrackRow) -> bool {
    |r: TrackRow| true
}

pub open spec fn favorite_row() -> spec_fn(TrackRow) -> bool {
    |r: TrackRow| r.favorite == 1
}

pub open spec fn played_row() -> spec_fn(TrackRow) -> bool {
    |r: TrackRow| r.last_played_at is Some
}

pub open spec fn counted_row() -> spec_fn(TrackRow) -> bool {
    |r: TrackRow| r.play_count > 0
}

pub open spec fn album_row(album: Seq<char>, artist: Seq<char>) -> spec_fn(TrackRow) -> bool {
    |r: TrackRow| r.album@ == album && r.artist@ == artist
}

pub open spec fn artist_row(artist: Seq<char>) -> spec_fn(TrackRow) -> bool {
    |r: TrackRow| r.artist@ == artist
}

/// The pattern `%query%`.
pub open spec fn contains_pattern(query: Seq<char>) -> Seq<char> {
    seq!['%'] + query + seq!['%']
}

/// `title LIKE p OR artist LIKE p OR album LIKE p OR genre LIKE p`
pub open spec fn search_row(query: Seq<char>) -> spec_fn(TrackRow) -> bool {
    |r: TrackRow|
        {
            let p = contains_pattern(query);
            like_match(p, r.title@) || like_match(p, r.artist@) || like_match(p, r.album@)
                || like_match(p, r.genre@)
        }
}

// ---------------------------------------------------------------- results

pub open spec fn tracks_of(rows: Seq<TrackRow>) -> Seq<Track> {
    rows.map_values(|r: TrackRow| track_of(r))
}

/// `out` holds exactly the rows of `rows` that `sel` picks (each as often as
/// it occurs), ordered by `key`; rows with equal keys may come in any order.
pub open spec fn ordered_pick(
    rows: Seq<TrackRow>,
    sel: spec_fn(TrackRow) -> bool,
    key: spec_fn(TrackRow) -> Seq<KeyPart>,
    out: Seq<TrackRow>,
) -> bool {
    &&& out.to_multiset() == rows.filter(sel).to_multiset()
    &&& forall|i: int, j: int| 0 <= i < j < out.len() ==> key_le(key(out[i]), key(out[j]))
}

/// `LIMIT limit`: a negative limit keeps every row.
pub open spec fn limited<A>(s: Seq<A>, limit: i64) -> Seq<A> {
    if limit < 0 || limit >= s.len() {
        s
    } else {
        s.take(limit as int)
    }
}

/// `res` is what `SELECT ... WHERE sel ORDER BY key LIMIT limit` answers.
pub open spec fn is_listing(
    rows: Seq<TrackRow>,
    sel: spec_fn(TrackRow) -> bool,
    key: spec_fn(TrackRow) -> Seq<KeyPart>,
    limit: i64,
    res: Seq<Track>,
) -> bool {
    exists|out: Seq<TrackRow>| ordered_pick(rows, sel, key, out) && res == limited(tracks_of(out), limit)
}

/// The entries of the playlist, in table order, joined with the track each
/// names; entries whose track is not stored drop out.
pub open spec fn joined(
    entries: Seq<crate::db::PlaylistEntry>,
    tracks: Seq<TrackRow>,
    playlist_id: i64,
) -> Seq<(i64, TrackRow)>
    decreases entries.len(),
{
    if entries.len() == 0 {
        Seq::empty()
    } else {
        let rest = joined(entries.drop_last(), tracks, playlist_id);
        let e = entries.last();
        if e.playlist_id == playlist_id && exists|i: int|
            0 <= i < tracks.len() && (#[trigger] tracks[i]).id == e.track_id {
            let i = choose|i: int| 0 <= i < tracks.len() && (#[trigger] tracks[i]).id == e.track_id;
            rest.push((e.position, tracks[i]))
        } else {
            rest
        }
    }
}

/// `res` is the playlist's tracks ordered by position (equal positions in any
/// order).
pub open spec fn is_playlist_listing(st: DbState, playlist_id: i64, res: Seq<Track>) -> bool {
    exists|out: Seq<(i64, TrackRow)>|
        {
            &&& #[trigger] out.to_multiset() == joined(st.entries, st.tracks, playlist_id).to_multiset()
            &&& (forall|i: int, j: int| 0 <= i < j < out.len() ==> out[i].0 <= out[j].0)
            &&& res == out.map_values(|p: (i64, TrackRow)| track_of(p.1))
        }
}

pub open spec fn search_refused(st: DbState, query: &str) -> bool {
    st.tracks.len() > 0 && query.spec_bytes().len() + 2 > LIKE_PATTERN_LIMIT
}

// ------------------------------------------------------------ executable

fn text_value(s: &str, nocase: bool) -> (v: Value)
    ensures
        v@ == (if nocase {
            nocase_key(s@)
        } else {
            text_key(s@)
        }),
{
    if nocase {
        Value::Text(folded_chars(s))
    } else {
        Value::Text(chars_of(s))
    }
}

fn opt32_value(o: Option<i32>) -> (v: Value)
    ensures
        v@ == opt32_key(o),
{
    match o {
        Some(n) => Value::Int(n as i64),
        None => Value::Null,
    }
}

fn opt64_value(o: Option<i64>) -> (v: Value)
    ensures
        v@ == opt64_key(o),
{
    match o {
        Some(n) => Value::Int(n),
        None => Value::Null,
    }
}

pub open spec fn payload<T>() -> spec_fn((Vec<Part>, T)) -> T {
    |p: (Vec<Part>, T)| p.1
}

/// Orders keyed items by their keys.
pub(crate) fn order_items<T>(items: Vec<(Vec<Part>, T)>, Ghost(kf): Ghost<spec_fn(T) -> Seq<KeyPart>>) -> (sorted: Vec<
    (Vec<Part>, T),
>)
    requires
        forall|k: int| 0 <= k < items@.len() ==> key_view(#[trigger] items@[k].0) == kf(items@[k].1),
    ensures
        sorted@.map_values(payload::<T>()).to_multiset() == items@.map_values(
            payload::<T>(),
        ).to_multiset(),
        forall|i: int, j: int|
            0 <= i < j < sorted@.len() ==> key_le(kf(#[trigger] sorted@[i].1), kf(#[trigger] sorted@[j].1)),
        sorted@.len() == items@.len(),
{
    let ghost orig = items@;
    let sorted = sort_keyed(items);
    proof {
        lemma_multiset_map(sorted@, orig, payload::<T>());
        vstd::seq_lib::to_multiset_len(sorted@);
        vstd::seq_lib::to_multiset_len(orig);
        assert forall|k: int| 0 <= k < sorted@.len() implies key_view(#[trigger] sorted@[k].0) == kf(
            sorted@[k].1,
        ) by {
            lemma_multiset_member(sorted@, orig, k);
        }
        assert forall|i: int, j: int| 0 <= i < j < sorted@.len() implies key_le(
            kf(#[trigger] sorted@[i].1),
            kf(#[trigger] sorted@[j].1),
        ) by {
            assert(key_view(sorted@[i].0) == kf(sorted@[i].1));
            assert(key_view(sorted@[j].0) == kf(sorted@[j].1));
        }
    }
    sorted
}

/// Picks the rows that `pick` accepts and lists them by the key that `key`
/// builds.
fn pick_ordered<P, K>(
    rows: &Vec<TrackRow>,
    pick: P,
    key: K,
    limit: i64,
    Ghost(sel): Ghost<spec_fn(TrackRow) -> bool>,
    Ghost(kf): Ghost<spec_fn(TrackRow) -> Seq<KeyPart>>,
) -> (out: Vec<Track>) where P: Fn(&TrackRow) -> bool, K: Fn(&TrackRow) -> Vec<Part>
    requires
        forall|r: &TrackRow| #[trigger] pick.requires((r,)),
        forall|r: &TrackRow, b: bool| pick.ensures((r,), b) ==> b == sel(*r),
        forall|r: &TrackRow| #[trigger] key.requires((r,)),
        forall|r: &TrackRow, k: Vec<Part>| key.ensures((r,), k) ==> key_view(k) == kf(*r),
    ensures
        is_listing(rows@, sel, kf, limit, out@),
{
    let mut items: Vec<(Vec<Part>, TrackRow)> = Vec::new();
    let mut i: usize = 0;
    while i < rows.len()
        invariant
            0 <= i <= rows.len(),
            forall|r: &TrackRow| #[trigger] pick.requires((r,)),
            forall|r: &TrackRow, b: bool| pick.ensures((r,), b) ==> b == sel(*r),
            forall|r: &TrackRow| #[trigger] key.requires((r,)),
            forall|r: &TrackRow, k: Vec<Part>| key.ensures((r,), k) ==> key_view(k) == kf(*r),
            items@.map_values(payload::<TrackRow>()) == rows@.take(i as int).filter(sel),
            forall|k: int| 0 <= k < items@.len() ==> key_view(#[trigger] items@[k].0) == kf(items@[k].1),
        decreases rows.len() - i,
    {
        proof {
            lemma_filter_take_step(rows@, sel, i as int);
        }
        let r = &rows[i];
        if pick(r) {
            let k = key(r);
            let ghost before = items@;
            items.push((k, r.duplicate()));
            assert(items@.map_values(payload::<TrackRow>()) =~= before.map_values(
                payload::<TrackRow>(),
            ).push(rows@[i as int]));
        }
        i = i + 1;
    }
    assert(rows@.take(rows@.len() as int) =~= rows@);
    let ghost picked = items@.map_values(payload::<TrackRow>());
    let sorted = order_items(items, Ghost(kf));
    let ghost outrows = sorted@.map_values(payload::<TrackRow>());
    let n: usize = if limit < 0 || limit as u64 >= sorted.len() as u64 {
        sorted.len()
    } else {
        limit as usize
    };
    let mut out: Vec<Track> = Vec::new();
    let mut i: usize = 0;
    while i < n
        invariant
            0 <= i <= n <= sorted@.len(),
            out@ == tracks_of(outrows).take(i as int),
            outrows == sorted@.map_values(payload::<TrackRow>()),
        decreases n - i,
    {
        out.push(sorted[i].1.to_track());
        assert(out@ =~= tracks_of(outrows).take(i + 1));
        i = i + 1;
    }
    proof {
        assert(ordered_pick(rows@, sel, kf, outrows));
        assert(out@ =~= limited(tracks_of(outrows), limit));
    }
    out
}

impl Database {
    /// Every track: `ORDER BY artist NOCASE, album NOCASE, track_number, title`.
    pub fn all_tracks(&self) -> (r: Vec<Track>)
        requires
            wf(self@),
        ensures
            is_listing(self@.tracks, every_row(), library_key(), -1i64, r@),
    {
        let pick = |r: &TrackRow| -> (b: bool)
            ensures
                b == every_row()(*r),
            { true };
        let key = |r: &TrackRow| -> (k: Vec<Part>)
            ensures
                key_view(k) == library_key()(*r),
            {
                let k = vec![
                    Part::Asc(text_value(r.artist.as_str(), true)),
                    Part::Asc(text_value(r.album.as_str(), true)),
                    Part::Asc(opt32_value(r.track_number)),
                    Part::Asc(text_value(r.title.as_str(), false)),
                ];
                assert(key_view(k) =~= library_key()(*r));
                k
            };
        pick_ordered(self.track_rows(), pick, key, -1, Ghost(every_row()), Ghost(library_key()))
    }

    /// Tracks whose title, artist, album or genre is `LIKE '%query%'`:
    /// `ORDER BY artist NOCASE, album NOCASE, track_number`. A pattern over the
    /// `LIKE` length limit is refused once there is a row to test it on.
    pub fn search_tracks(&self, query: &str) -> (r: Result<Vec<Track>, DbError>)
        requires
            wf(self@),
        ensures
            r is Err <==> search_refused(self@, query),
            r is Err ==> r == Err::<Vec<Track>, DbError>(DbError::PatternTooComplex),
            r matches Ok(v) ==> is_listing(self@.tracks, search_row(query@), listing_key(), -1i64, v@),
    {
        if self.track_rows().len() > 0 && query.as_bytes().len() > LIKE_PATTERN_LIMIT - 2 {
            return Err(DbError::PatternTooComplex);
        }
        let q = chars_of(query);
        let mut pat: Vec<char> = Vec::new();
        pat.push('%');
        let mut i: usize = 0;
        while i < q.len()
            invariant
                0 <= i <= q.len(),
                pat@ == seq!['%'] + q@.take(i as int),
            decreases q.len() - i,
        {
            pat.push(q[i]);
            assert(q@.take(i + 1) =~= q@.take(i as int).push(q@[i as int]));
            assert(pat@ =~= seq!['%'] + q@.take(i + 1));
            i = i + 1;
        }
        pat.push('%');
        assert(q@.take(q@.len() as int) =~= q@);
        assert(pat@ =~= contains_pattern(query@));
        let pick = |r: &TrackRow| -> (b: bool)
            ensures
                b == (like_match(pat@, r.title@) || like_match(pat@, r.artist@) || like_match(
                    pat@,
                    r.album@,
                ) || like_match(pat@, r.genre@)),
            {
                like(&pat, &chars_of(r.title.as_str())) || like(&pat, &chars_of(r.artist.as_str()))
                    || like(&pat, &chars_of(r.album.as_str())) || like(
                    &pat,
                    &chars_of(r.genre.as_str()),
                )
            };
        let key = |r: &TrackRow| -> (k: Vec<Part>)
            ensures
                key_view(k) == listing_key()(*r),
            {
                let k = vec![
                    Part::Asc(text_value(r.artist.as_str(), true)),
                    Part::Asc(text_value(r.album.as_str(), true)),
                    Part::Asc(opt32_value(r.track_number)),
                ];
                assert(key_view(k) =~= listing_key()(*r));
                k
            };
        Ok(pick_ordered(self.track_rows(), pick, key, -1, Ghost(search_row(query@)), Ghost(listing_key())))
    }

    /// Favorite tracks (`favorite = 1`): `ORDER BY artist NOCASE, album NOCASE,
    /// track_number`.
    pub fn favorites(&self) -> (r: Vec<Track>)
        requires
            wf(self@),
        ensures
            is_listing(self@.tracks, favorite_row(), listing_key(), -1i64, r@),
    {
        let pick = |r: &TrackRow| -> (b: bool)
            ensures
                b == favorite_row()(*r),
            { r.favorite == 1 };
        let key = |r: &TrackRow| -> (k: Vec<Part>)
            ensures
                key_view(k) == listing_key()(*r),
            {
                let k = vec![
                    Part::Asc(text_value(r.artist.as_str(), true)),
                    Part::Asc(text_value(r.album.as_str(), true)),
                    Part::Asc(opt32_value(r.track_number)),
                ];
                assert(key_view(k) =~= listing_key()(*r));
                k
            };
        pick_ordered(self.track_rows(), pick, key, -1, Ghost(favorite_row()), Ghost(listing_key()))
    }

    /// Played tracks, latest play first, at most `limit` of them (a negative
    /// limit lists all).
    pub fn recently_played(&self, limit: i64) -> (r: Vec<Track>)
        requires
            wf(self@),
        ensures
            is_listing(self@.tracks, played_row(), recent_key(), limit, r@),
    {
        let pick = |r: &TrackRow| -> (b: bool)
            ensures
                b == played_row()(*r),
            { r.last_played_at.is_some() };
        let key = |r: &TrackRow| -> (k: Vec<Part>)
            ensures
                key_view(k) == recent_key()(*r),
            {
                let k = vec![Part::Desc(opt64_value(r.last_played_at))];
                assert(key_view(k) =~= recent_key()(*r));
                k
            };
        pick_ordered(self.track_rows(), pick, key, limit, Ghost(played_row()), Ghost(recent_key()))
    }

    /// Tracks played at least once, most played first (then latest played), at
    /// most `limit` of them (a negative limit lists all).
    pub fn most_played(&self, limit: i64) -> (r: Vec<Track>)
        requires
            wf(self@),
        ensures
            is_listing(self@.tracks, counted_row(), most_played_key(), limit, r@),
    {
        let pick = |r: &TrackRow| -> (b: bool)
            ensures
                b == counted_row()(*r),
            { r.play_count > 0 };
        let key = |r: &TrackRow| -> (k: Vec<Part>)
            ensures
                key_view(k) == most_played_key()(*r),
            {
                let k = vec![
                    Part::Desc(Value::Int(r.play_count)),
                    Part::Desc(opt64_value(r.last_played_at)),
                ];
                assert(key_view(k) =~= most_played_key()(*r));
                k
            };
        pick_ordered(
            self.track_rows(),
            pick,
            key,
            limit,
            Ghost(counted_row()),
            Ghost(most_played_key()),
        )
    }

    /// The tracks of one album by one artist: `ORDER BY disc_number,
    /// track_number, title`.
    pub fn tracks_by_album(&self, album: &str, artist: &str) -> (r: Vec<Track>)
        requires
            wf(self@),
        ensures
            is_listing(self@.tracks, album_row(album@, artist@), album_key(), -1i64, r@),
    {
        let al = String::from_str(album);
        let ar = String::from_str(artist);
        let pick = |r: &TrackRow| -> (b: bool)
            ensures
                b == (r.album@ == al@ && r.artist@ == ar@),
            { r.album == al && r.artist == ar };
        let key = |r: &TrackRow| -> (k: Vec<Part>)
            ensures
                key_view(k) == album_key()(*r),
            {
                let k = vec![
                    Part::Asc(opt32_value(r.disc_number)),
                    Part::Asc(opt32_value(r.track_number)),
                    Part::Asc(text_value(r.title.as_str(), false)),
                ];
                assert(key_view(k) =~= album_key()(*r));
                k
            };
        pick_ordered(
            self.track_rows(),
            pick,
            key,
            -1,
            Ghost(album_row(album@, artist@)),
            Ghost(album_key()),
        )
    }

    /// The tracks of one artist: `ORDER BY album NOCASE, track_number, title`.
    pub fn tracks_by_artist(&self, artist: &str) -> (r: Vec<Track>)
        requires
            wf(self@),
        ensures
            is_listing(self@.tracks, artist_row(artist@), artist_key(), -1i64, r@),
    {
        let ar = String::from_str(artist);
        let pick = |r: &TrackRow| -> (b: bool)
            ensures
                b == (r.artist@ == ar@),
            { r.artist == ar };
        let key = |r: &TrackRow| -> (k: Vec<Part>)
            ensures
                key_view(k) == artist_key()(*r),
            {
                let k = vec![
                    Part::Asc(text_value(r.album.as_str(), true)),
                    Part::Asc(opt32_value(r.track_number)),
                    Part::Asc(text_value(r.title.as_str(), false)),
                ];
                assert(key_view(k) =~= artist_key()(*r));
                k
            };
        pick_ordered(self.track_rows(), pick, key, -1, Ghost(artist_row(artist@)), Ghost(artist_key()))
    }

    /// The tracks of a playlist in position order (`JOIN` on the track id).
    pub fn playlist_tracks(&self, playlist_id: i64) -> (r: Vec<Track>)
        requires
            wf(self@),
        ensures
            is_playlist_listing(self@, playlist_id, r@),
    {
        let tracks = self.track_rows();
        let entries = self.entry_rows();
        let ghost st = self@;
        let ghost kf = position_key();
        let mut items: Vec<(Vec<Part>, (i64, TrackRow))> = Vec::new();
        let mut i: usize = 0;
        while i < entries.len()
            invariant
                0 <= i <= entries.len(),
                wf(st),
                tracks@ == st.tracks,
                entries@ == st.entries,
                kf == position_key(),
                items@.map_values(payload::<(i64, TrackRow)>()) == joined(
                    entries@.take(i as int),
                    tracks@,
                    playlist_id,
                ),
                forall|k: int|
                    0 <= k < items@.len() ==> key_view(#[trigger] items@[k].0) == kf(items@[k].1),
            decreases entries.len() - i,
        {
            let e = entries[i];
            let ghost t1 = entries@.take(i + 1);
            assert(t1.drop_last() =~= entries@.take(i as int));
            assert(t1.last() == e);
            if e.playlist_id == playlist_id {
                match find_track(tracks, e.track_id) {
                    Some(k) => {
                        proof {
                            let c = choose|c: int|
                                0 <= c < tracks@.len() && (#[trigger] tracks@[c]).id == e.track_id;
                            if c < k {
                                assert(tracks@[c].id < tracks@[k as int].id);
                            } else if c > k {
                                assert(tracks@[k as int].id < tracks@[c].id);
                            }
                        }
                        let key = vec![Part::Asc(Value::Int(e.position))];
                        assert(key_view(key) =~= kf((e.position, tracks@[k as int])));
                        let ghost before = items@;
                        items.push((key, (e.position, tracks[k].duplicate())));
                        assert(items@.map_values(payload::<(i64, TrackRow)>()) =~= before.map_values(
                            payload::<(i64, TrackRow)>(),
                        ).push((e.position, tracks@[k as int])));
                    },
                    None => {},
                }
            }
            i = i + 1;
        }
        assert(entries@.take(entries@.len() as int) =~= entries@);
        let sorted = order_items(items, Ghost(kf));
        let ghost out = sorted@.map_values(payload::<(i64, TrackRow)>());
        let mut res: Vec<Track> = Vec::new();
        let mut i: usize = 0;
        while i < sorted.len()
            invariant
                0 <= i <= sorted@.len(),
                out == sorted@.map_values(payload::<(i64, TrackRow)>()),
                res@ == out.take(i as int).map_values(|p: (i64, TrackRow)| track_of(p.1)),
            decreases sorted.len() - i,
        {
            res.push(sorted[i].1.1.to_track());
            assert(res@ =~= out.take(i + 1).map_values(|p: (i64, TrackRow)| track_of(p.1)));
            i = i + 1;
        }
        proof {
            assert(out.take(out.len() as int) =~= out);
            assert forall|a: int, b: int| 0 <= a < b < out.len() implies out[a].0 <= out[b].0 by {
                assert(key_le(kf(sorted@[a].1), kf(sorted@[b].1)));
                let ka = kf(sorted@[a].1);
                let kb = kf(sorted@[b].1);
                assert(ka.drop_first() =~= Seq::<KeyPart>::empty());
                assert(kb.drop_first() =~= Seq::<KeyPart>::empty());
            }
            assert(is_playlist_listing(st, playlist_id, res@));
        }
        res
    }
}

/// `ORDER BY position`
pub open spec fn position_key() -> spec_fn((i64, TrackRow)) -> Seq<KeyPart> {
    |p: (i64, TrackRow)| seq![KeyPart::Asc(KeyValue::Int(p.0 as int))]
}

/// The index of the track row with this id.
fn find_track(tracks: &Vec<TrackRow>, id: i64) -> (r: Option<usize>)
    ensures
        r matches Some(k) ==> k < tracks@.len() && tracks@[k as int].id == id,
        r is None ==> !(exists|i: int| 0 <= i < tracks@.len() && (#[trigger] tracks@[i]).id == id),
{
    let mut i: usize = 0;
    while i < tracks.len()
        invariant
            0 <= i <= tracks.len(),
            forall|k: int| 0 <= k < i ==> tracks@[k].id != id,
        decreases tracks.len() - i,
    {
        if tracks[i].id == id {
            return Some(i);
        }
        i = i + 1;
    }
    None
}

} // verus!
