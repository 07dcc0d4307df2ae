//! What holds of the library across its operations: a stored track is found
//! again, a path is stored once, marking and playing a track shows in the
//! listings, playlist edits undo one another, and the counts agree.

use vstd::prelude::*;

use crate::db::{
    after_add_to_playlist, after_create_playlist, after_delete_playlist, after_insert,
    after_record_play, after_rename_playlist, create_outcome, renamed,
    after_remove_from_playlist, after_set_favorite, add_outcome, fingerprint_taken, has_pair,
    has_track, hash_taken, insert_outcome, opt_text_is, other_pair, path_taken, play_overflows,
    row_of, touched, wf, DbState, InsertTrack, PlaylistRow, TrackRow,
};
use crate::acquire::{commands_spec, installed_tool, manual_command, spot_command, yt_commands};
use crate::groups::{
    album_tags, artist_names, entry_count, has_album, has_artist, in_playlist, is_album_summary,
    is_artist_summary, is_playlist_summary, playlist_line, stats_of,
};
use crate::queries::album_row;
use crate::import::{import_inv, step_taken, ImportEvent, ImportRun, ImportStage, ImportStep};
use crate::like::like_match;
use crate::metadata::{blank, metadata_of, FileMetadata, RawTags};
use crate::models::AcquireTool;
use crate::text::trim;
use crate::models::Track;
use crate::queries::{
    contains_pattern, every_row, favorite_row, is_listing, search_row, is_playlist_listing, joined, library_key, limited,
    listing_key, ordered_pick, played_row, recent_key, tracks_of,
};
use crate::seq_facts::{lemma_filter_all, lemma_filter_member, lemma_multiset_member};

verus! {

/// A track that was stored is found again by its path, its hash, its
/// fingerprint (when it has one) and the id it was given, and that id is
/// larger than every id before it.
pub proof fn law_stored_track_found(st: DbState, t: InsertTrack)
    requires
        wf(st),
        insert_outcome(st, t) is Ok,
    ensures
        path_taken(after_insert(st, t), t.path@),
        hash_taken(after_insert(st, t), t.file_hash@),
        t.fingerprint matches Some(f) ==> fingerprint_taken(after_insert(st, t), f@),
        has_track(after_insert(st, t), insert_outcome(st, t)->Ok_0),
        forall|i: int|
            0 <= i < st.tracks.len() ==> #[trigger] st.tracks[i].id < insert_outcome(st, t)->Ok_0,
{
    let id = insert_outcome(st, t)->Ok_0;
    let after = after_insert(st, t);
    let n = st.tracks.len() as int;
    assert(after.tracks[n] == row_of(t, id));
    if let Some(f) = t.fingerprint {
        assert(opt_text_is(after.tracks[n].fingerprint, f@));
    }
}

/// Storing keeps the tables' invariants.
pub proof fn law_insert_keeps_wf(st: DbState, t: InsertTrack)
    requires
        wf(st),
    ensures
        wf(after_insert(st, t)),
{
    if let Ok(id) = insert_outcome(st, t) {
        let after = after_insert(st, t);
        let n = st.tracks.len() as int;
        assert forall|i: int, j: int|
            0 <= i < j < after.tracks.len() implies #[trigger] after.tracks[i].path@
            != #[trigger] after.tracks[j].path@ by {
            assert(after.tracks[i] == st.tracks[i]);
            if j == n {
                assert(after.tracks[j].path == t.path);
                assert(!path_taken(st, t.path@));
                if st.tracks[i].path@ == t.path@ {
                    assert(path_taken(st, t.path@));
                }
            } else {
                assert(after.tracks[j] == st.tracks[j]);
            }
        }
        assert forall|i: int, j: int|
            0 <= i < j < after.tracks.len() implies #[trigger] after.tracks[i].id
            < #[trigger] after.tracks[j].id by {
            if j == n {
                assert(after.tracks[i] == st.tracks[i]);
            }
        }
    }
}

/// A path is stored once: after a track is stored, another track with the
/// same path is refused as a duplicate and changes nothing.
pub proof fn law_path_stored_once(st: DbState, t: InsertTrack, u: InsertTrack)
    requires
        wf(st),
        insert_outcome(st, t) is Ok,
        u.path@ == t.path@,
    ensures
        insert_outcome(after_insert(st, t), u) is Err,
        after_insert(after_insert(st, t), u) == after_insert(st, t),
{
    law_stored_track_found(st, t);
}

/// A refused insert leaves the library as it was.
pub proof fn law_refused_insert_changes_nothing(st: DbState, t: InsertTrack)
    requires
        insert_outcome(st, t) is Err,
    ensures
        after_insert(st, t) == st,
{
}

/// Marking a track twice is the same as marking it once.
pub proof fn law_favorite_idempotent(st: DbState, id: i64, favorite: bool)
    ensures
        after_set_favorite(after_set_favorite(st, id, favorite), id, favorite)
            == after_set_favorite(st, id, favorite),
{
    let once = after_set_favorite(st, id, favorite);
    let twice = after_set_favorite(once, id, favorite);
    assert(twice.tracks =~= once.tracks);
}

/// Marking a track sets its flag and leaves every other track alone.
pub proof fn law_favorite_marks_only_that_track(st: DbState, id: i64, favorite: bool, i: int)
    requires
        0 <= i < st.tracks.len(),
    ensures
        after_set_favorite(st, id, favorite).tracks.len() == st.tracks.len(),
        st.tracks[i].id == id ==> after_set_favorite(st, id, favorite).tracks[i].favorite == (if favorite {
            1i64
        } else {
            0i64
        }),
        st.tracks[i].id != id ==> after_set_favorite(st, id, favorite).tracks[i] == st.tracks[i],
{
}

/// Recording a play counts it once and stamps the time on that track alone,
/// unless its count is already at the maximum, when nothing changes.
pub proof fn law_play_counted(st: DbState, id: i64, now: i64, i: int)
    requires
        0 <= i < st.tracks.len(),
    ensures
        after_record_play(st, id, now).tracks.len() == st.tracks.len(),
        play_overflows(st, id) ==> after_record_play(st, id, now) == st,
        !play_overflows(st, id) && st.tracks[i].id == id ==> {
            &&& after_record_play(st, id, now).tracks[i].play_count == st.tracks[i].play_count + 1
            &&& after_record_play(st, id, now).tracks[i].last_played_at == Some(now)
        },
        st.tracks[i].id != id ==> after_record_play(st, id, now).tracks[i] == st.tracks[i],
{
    if !play_overflows(st, id) && st.tracks[i].id == id {
        assert(st.tracks[i].play_count != i64::MAX);
    }
}

proof fn lemma_touched_twice(ps: Seq<PlaylistRow>, id: i64, now: i64)
    ensures
        ps.map_values(|p: PlaylistRow| touched(p, id, now)).map_values(
            |p: PlaylistRow| touched(p, id, now),
        ) == ps.map_values(|p: PlaylistRow| touched(p, id, now)),
{
    let once = ps.map_values(|p: PlaylistRow| touched(p, id, now));
    assert(once.map_values(|p: PlaylistRow| touched(p, id, now)) =~= once);
}

/// Adding a track to a playlist puts the pair there, and adding it again at
/// the same moment changes nothing more.
pub proof fn law_add_to_playlist_idempotent(st: DbState, playlist_id: i64, track_id: i64, now: i64)
    requires
        wf(st),
        add_outcome(st, playlist_id, track_id) is Ok,
    ensures
        has_pair(after_add_to_playlist(st, playlist_id, track_id, now).entries, playlist_id, track_id),
        after_add_to_playlist(after_add_to_playlist(st, playlist_id, track_id, now), playlist_id, track_id, now)
            == after_add_to_playlist(st, playlist_id, track_id, now),
{
    let once = after_add_to_playlist(st, playlist_id, track_id, now);
    if !has_pair(st.entries, playlist_id, track_id) {
        let n = st.entries.len() as int;
        assert(once.entries[n].playlist_id == playlist_id && once.entries[n].track_id == track_id);
    }
    assert(has_pair(once.entries, playlist_id, track_id));
    assert(add_outcome(once, playlist_id, track_id) is Ok);
    lemma_touched_twice(st.playlists, playlist_id, now);
}

/// Removing a track that was just added to a playlist leaves the playlist's
/// entries as they were before.
pub proof fn law_add_then_remove(
    st: DbState,
    playlist_id: i64,
    track_id: i64,
    now: i64,
    later: i64,
)
    requires
        wf(st),
        !has_pair(st.entries, playlist_id, track_id),
    ensures
        after_remove_from_playlist(
            after_add_to_playlist(st, playlist_id, track_id, now),
            playlist_id,
            track_id,
            later,
        ).entries == st.entries,
{
    let pred = other_pair(playlist_id, track_id);
    assert forall|i: int| 0 <= i < st.entries.len() implies pred(#[trigger] st.entries[i]) by {
        if !pred(st.entries[i]) {
            assert(st.entries[i].playlist_id == playlist_id && st.entries[i].track_id == track_id);
        }
    }
    lemma_filter_all(st.entries, pred);
    let once = after_add_to_playlist(st, playlist_id, track_id, now);
    if add_outcome(st, playlist_id, track_id) is Ok {
        let e = once.entries.last();
        assert(once.entries == st.entries.push(e));
        st.entries.lemma_filter_push(e, pred);
    }
}

/// After a removal the pair is no longer in the playlist.
pub proof fn law_removed_pair_gone(st: DbState, playlist_id: i64, track_id: i64, now: i64)
    ensures
        !has_pair(
            after_remove_from_playlist(st, playlist_id, track_id, now).entries,
            playlist_id,
            track_id,
        ),
{
    let pred = other_pair(playlist_id, track_id);
    let f = st.entries.filter(pred);
    assert forall|i: int| 0 <= i < f.len() implies !((#[trigger] f[i]).playlist_id == playlist_id
        && f[i].track_id == track_id) by {
        st.entries.lemma_filter_pred(pred, i);
    }
}

/// Deleting a playlist removes it and every one of its entries, and leaves
/// the tracks alone.
pub proof fn law_delete_playlist_clears(st: DbState, id: i64)
    ensures
        forall|i: int|
            0 <= i < after_delete_playlist(st, id).playlists.len() ==> (#[trigger] after_delete_playlist(
                st,
                id,
            ).playlists[i]).id != id,
        forall|i: int|
            0 <= i < after_delete_playlist(st, id).entries.len() ==> (#[trigger] after_delete_playlist(
                st,
                id,
            ).entries[i]).playlist_id != id,
        after_delete_playlist(st, id).tracks == st.tracks,
{
    let after = after_delete_playlist(st, id);
    assert forall|i: int| 0 <= i < after.playlists.len() implies (#[trigger] after.playlists[i]).id
        != id by {
        st.playlists.lemma_filter_pred(crate::db::other_playlist(id), i);
    }
    assert forall|i: int| 0 <= i < after.entries.len() implies (#[trigger] after.entries[i]).playlist_id
        != id by {
        st.entries.lemma_filter_pred(crate::db::outside_playlist(id), i);
    }
}

/// An unlimited listing holds as many tracks as its selection picks.
proof fn lemma_listing_len(
    rows: Seq<TrackRow>,
    sel: spec_fn(TrackRow) -> bool,
    key: spec_fn(TrackRow) -> Seq<crate::order::KeyPart>,
    res: Seq<Track>,
)
    requires
        is_listing(rows, sel, key, -1i64, res),
    ensures
        res.len() == rows.filter(sel).len(),
{
    let out = choose|out: Seq<TrackRow>|
        ordered_pick(rows, sel, key, out) && res == limited(tracks_of(out), -1i64);
    vstd::seq_lib::to_multiset_len(out);
    vstd::seq_lib::to_multiset_len(rows.filter(sel));
}

/// A track marked as a favorite is listed among the favorites, and a track
/// whose mark was taken away is not.
pub proof fn law_favorite_listed(st: DbState, id: i64, favorite: bool, res: Seq<Track>)
    requires
        wf(st),
        is_listing(after_set_favorite(st, id, favorite).tracks, favorite_row(), listing_key(), -1i64, res),
    ensures
        favorite && has_track(st, id) ==> exists|k: int| 0 <= k < res.len() && (#[trigger] res[k]).id == id,
        !favorite ==> forall|k: int| 0 <= k < res.len() ==> (#[trigger] res[k]).id != id,
{
    let rows = after_set_favorite(st, id, favorite).tracks;
    let sel = favorite_row();
    let f = rows.filter(sel);
    let out = choose|out: Seq<TrackRow>|
        ordered_pick(rows, sel, listing_key(), out) && res == limited(tracks_of(out), -1i64);
    assert(res == tracks_of(out));
    if favorite && has_track(st, id) {
        let i = choose|i: int| 0 <= i < st.tracks.len() && (#[trigger] st.tracks[i]).id == id;
        assert(sel(rows[i]));
        rows.lemma_filter_contains(sel, i);
        let j = choose|j: int| 0 <= j < f.len() && f[j] == rows[i];
        lemma_multiset_member(f, out, j);
        let k = choose|k: int| 0 <= k < out.len() && out[k] == f[j];
        assert(res[k].id == id);
    }
    if !favorite {
        assert forall|k: int| 0 <= k < res.len() implies (#[trigger] res[k]).id != id by {
            lemma_multiset_member(out, f, k);
            let j = choose|j: int| 0 <= j < f.len() && f[j] == out[k];
            lemma_filter_member(rows, sel, j);
            let i = choose|i: int| 0 <= i < rows.len() && rows[i] == f[j];
            assert(rows[i] == crate::db::with_favorite(st.tracks[i], id, false));
        }
    }
}

/// The library's counts agree with its listings: as many tracks as the full
/// listing holds, as many favorites as the favorites listing holds.
pub proof fn law_counts_agree_with_listings(st: DbState, all: Seq<Track>, favorites: Seq<Track>)
    requires
        is_listing(st.tracks, every_row(), library_key(), -1i64, all),
        is_listing(st.tracks, favorite_row(), listing_key(), -1i64, favorites),
    ensures
        all.len() == stats_of(st.tracks).0,
        favorites.len() == stats_of(st.tracks).3,
{
    lemma_listing_len(st.tracks, every_row(), library_key(), all);
    lemma_listing_len(st.tracks, favorite_row(), listing_key(), favorites);
    lemma_filter_all(st.tracks, every_row());
}

proof fn lemma_joined_without_entries(entries: Seq<crate::db::PlaylistEntry>, tracks: Seq<TrackRow>, id: i64)
    requires
        forall|i: int| 0 <= i < entries.len() ==> (#[trigger] entries[i]).playlist_id != id,
    ensures
        joined(entries, tracks, id).len() == 0,
    decreases entries.len(),
{
    if entries.len() > 0 {
        let init = entries.drop_last();
        assert forall|i: int| 0 <= i < init.len() implies (#[trigger] init[i]).playlist_id != id by {
            assert(init[i] == entries[i]);
        }
        lemma_joined_without_entries(init, tracks, id);
        assert(entries.last() == entries[entries.len() - 1]);
    }
}

/// A deleted playlist lists no tracks.
pub proof fn law_deleted_playlist_lists_nothing(st: DbState, id: i64, res: Seq<Track>)
    requires
        is_playlist_listing(after_delete_playlist(st, id), id, res),
    ensures
        res.len() == 0,
{
    let after = after_delete_playlist(st, id);
    law_delete_playlist_clears(st, id);
    lemma_joined_without_entries(after.entries, after.tracks, id);
    let out = choose|out: Seq<(i64, TrackRow)>|
        {
            &&& #[trigger] out.to_multiset() == joined(after.entries, after.tracks, id).to_multiset()
            &&& (forall|i: int, j: int| 0 <= i < j < out.len() ==> out[i].0 <= out[j].0)
            &&& res == out.map_values(|p: (i64, TrackRow)| crate::db::track_of(p.1))
        };
    vstd::seq_lib::to_multiset_len(out);
    vstd::seq_lib::to_multiset_len(joined(after.entries, after.tracks, id));
}

// ------------------------------------------------------------------ search

/// `%` matches any text.
pub proof fn lemma_percent_matches(s: Seq<char>)
    ensures
        like_match(seq!['%'], s),
    decreases s.len(),
{
    let p = seq!['%'];
    assert(p.len() == 1 && p[0] == '%');
    assert(p.drop_first() =~= Seq::<char>::empty());
    if s.len() > 0 {
        lemma_percent_matches(s.drop_first());
        assert(like_match(p, s.drop_first()));
    } else {
        assert(like_match(p.drop_first(), s));
    }
}

/// A pattern made of `q` (with no wildcard) and then `%` matches every text
/// that starts with `q`.
proof fn lemma_literal_then_any(q: Seq<char>, b: Seq<char>)
    requires
        forall|i: int| 0 <= i < q.len() ==> #[trigger] q[i] != '%' && q[i] != '_',
    ensures
        like_match(q + seq!['%'], q + b),
    decreases q.len(),
{
    if q.len() == 0 {
        assert(q + seq!['%'] =~= seq!['%']);
        assert(q + b =~= b);
        lemma_percent_matches(b);
    } else {
        let rest = q.drop_first();
        assert forall|i: int| 0 <= i < rest.len() implies #[trigger] rest[i] != '%' && rest[i] != '_' by {
            assert(rest[i] == q[i + 1]);
        }
        lemma_literal_then_any(rest, b);
        assert((q + seq!['%']).drop_first() =~= rest + seq!['%']);
        assert((q + b).drop_first() =~= rest + b);
        assert((q + seq!['%'])[0] == q[0]);
        assert((q + b)[0] == q[0]);
    }
}

/// A pattern that starts with `%` matches `a + s` whenever the rest of the
/// pattern matches `s`.
pub proof fn lemma_any_prefix(r: Seq<char>, a: Seq<char>, s: Seq<char>)
    requires
        like_match(r, s),
    ensures
        like_match(seq!['%'] + r, a + s),
    decreases a.len(),
{
    let p = seq!['%'] + r;
    assert(p[0] == '%');
    assert(p.drop_first() =~= r);
    if a.len() == 0 {
        assert(a + s =~= s);
    } else {
        lemma_any_prefix(r, a.drop_first(), s);
        assert((a + s).drop_first() =~= a.drop_first() + s);
    }
}

/// Searching for a text with no `%` or `_` in it matches every text that
/// contains it.
pub proof fn law_search_pattern_finds_substring(query: Seq<char>, a: Seq<char>, b: Seq<char>)
    requires
        forall|i: int| 0 <= i < query.len() ==> #[trigger] query[i] != '%' && query[i] != '_',
    ensures
        like_match(contains_pattern(query), a + query + b),
{
    lemma_literal_then_any(query, b);
    lemma_any_prefix(query + seq!['%'], a, query + b);
    assert(seq!['%'] + (query + seq!['%']) =~= contains_pattern(query));
    assert(a + (query + b) =~= a + query + b);
}

/// A track whose title contains the searched text (with no `%` or `_` in
/// it) is among the search's results.
pub proof fn law_search_finds_title(
    st: DbState,
    query: Seq<char>,
    res: Seq<Track>,
    i: int,
    a: Seq<char>,
    b: Seq<char>,
)
    requires
        is_listing(st.tracks, search_row(query), listing_key(), -1i64, res),
        0 <= i < st.tracks.len(),
        st.tracks[i].title@ == a + query + b,
        forall|k: int| 0 <= k < query.len() ==> #[trigger] query[k] != '%' && query[k] != '_',
    ensures
        exists|k: int| 0 <= k < res.len() && res[k] == crate::db::track_of(st.tracks[i]),
{
    let rows = st.tracks;
    let sel = search_row(query);
    let f = rows.filter(sel);
    law_search_pattern_finds_substring(query, a, b);
    assert(sel(rows[i]));
    rows.lemma_filter_contains(sel, i);
    let j = choose|j: int| 0 <= j < f.len() && f[j] == rows[i];
    let out = choose|out: Seq<TrackRow>|
        ordered_pick(rows, sel, listing_key(), out) && res == limited(tracks_of(out), -1i64);
    lemma_multiset_member(f, out, j);
    let k = choose|k: int| 0 <= k < out.len() && out[k] == f[j];
    assert(res[k] == crate::db::track_of(st.tracks[i]));
}

/// An empty search lists every track.
pub proof fn law_empty_search_lists_all(st: DbState, res: Seq<Track>)
    requires
        is_listing(st.tracks, search_row(Seq::empty()), listing_key(), -1i64, res),
    ensures
        res.len() == st.tracks.len(),
{
    let sel = search_row(Seq::empty());
    assert forall|i: int| 0 <= i < st.tracks.len() implies sel(#[trigger] st.tracks[i]) by {
        law_search_pattern_finds_substring(Seq::empty(), Seq::empty(), st.tracks[i].title@);
        assert(Seq::<char>::empty() + Seq::<char>::empty() + st.tracks[i].title@ =~= st.tracks[i].title@);
    }
    lemma_filter_all(st.tracks, sel);
    lemma_listing_len(st.tracks, sel, listing_key(), res);
}

// ---------------------------------------------------------------- commands

/// A query with text in it always gets at least one command, and every
/// command downloads into the folder it was built for; with no tool
/// installed the one command is the install hint.
pub proof fn law_commands_offered(query: Seq<char>, mode: Seq<char>, out: Seq<char>, tools: Seq<AcquireTool>)
    ensures
        trim(query).len() > 0 ==> commands_spec(query, mode, out, tools).len() > 0,
        forall|k: int|
            0 <= k < commands_spec(query, mode, out, tools).len() ==> (#[trigger] commands_spec(
                query,
                mode,
                out,
                tools,
            )[k]).3 == out,
        trim(query).len() > 0 && installed_tool(tools, "yt-dlp"@) is None && installed_tool(tools, "spotdl"@)
            is None ==> commands_spec(query, mode, out, tools) == seq![manual_command(out)],
{
    reveal(yt_commands);
    reveal(spot_command);
    reveal(manual_command);
}

// ---------------------------------------------------------------- metadata

proof fn lemma_blank_empty(s: Seq<char>)
    requires
        s.len() == 0,
    ensures
        blank(s),
{
    assert(crate::text::trim_start(s) == s);
}

/// Every file read gets an artist and an album, never an empty one.
pub proof fn law_artist_and_album_never_empty(
    m: FileMetadata,
    raw: Option<RawTags>,
    path: Seq<char>,
    millis: u128,
)
    requires
        metadata_of(m, raw, path, millis),
    ensures
        m.artist@.len() > 0,
        m.album@.len() > 0,
{
    reveal_strlit("Unknown Artist");
    reveal_strlit("Unknown Album");
    if m.artist@.len() == 0 {
        lemma_blank_empty(m.artist@);
    }
    if m.album@.len() == 0 {
        lemma_blank_empty(m.album@);
    }
}

// ------------------------------------------------------------------ import

/// A finished import has counted every audio file once: as imported, as a
/// skipped duplicate or as an error.
pub proof fn law_import_counts_every_file(r: ImportRun)
    requires
        import_inv(r),
        r.stage == ImportStage::Done,
    ensures
        r.result.imported + r.result.skipped_duplicates + r.result.errors@.len() == r.files@.len(),
        r.progress.processed == r.progress.total,
        !r.progress.active,
{
}

/// An import step never changes or removes a stored track, nor any playlist:
/// at most it appends the current file as a new track, and only when no
/// stored track has its path.
pub proof fn law_import_only_appends(
    a: ImportRun,
    d: DbState,
    e: ImportEvent,
    b: ImportRun,
    d2: DbState,
    s: ImportStep,
)
    requires
        import_inv(a),
        wf(d),
        step_taken(a, d, e, b, d2, s),
    ensures
        d.tracks.is_prefix_of(d2.tracks),
        d2.tracks.len() <= d.tracks.len() + 1,
        d2.playlists == d.playlists,
        d2.entries == d.entries,
        d2.tracks.len() == d.tracks.len() + 1 ==> {
            &&& a.stage == ImportStage::Sizing
            &&& !path_taken(d, a.files@[a.index as int]@)
            &&& d2.tracks.last().path@ == a.files@[a.index as int]@
        },
{
    if e is Sized && a.stage == ImportStage::Sizing {
        let size = e->Sized_0;
        let t = choose|t: InsertTrack|
            {
                &&& crate::import::track_to_insert(a, size, t)
                &&& d2 == after_insert(d, t)
                &&& b.index == a.index + 1
                &&& b.stage == ImportStage::Ready
                &&& s is Proceed
                &&& match insert_outcome(d, t) {
                    Ok(_) => b.result == crate::models::ImportResult {
                        imported: (a.result.imported + 1) as usize,
                        ..a.result
                    },
                    Err(x) => crate::import::error_counted(
                        a.result,
                        b.result,
                        "insert failed: "@ + crate::db::db_error_text(x),
                    ),
                }
            };
        assert(d.tracks.is_prefix_of(d2.tracks));
    } else {
        assert(d.tracks.is_prefix_of(d2.tracks));
    }
}

// ------------------------------------------------------- reads after writes

/// A stored track is listed among all tracks, as it was stored.
pub proof fn law_stored_track_listed(st: DbState, t: InsertTrack, res: Seq<Track>)
    requires
        wf(st),
        insert_outcome(st, t) is Ok,
        is_listing(after_insert(st, t).tracks, every_row(), library_key(), -1i64, res),
    ensures
        exists|k: int|
            0 <= k < res.len() && res[k] == crate::db::track_of(row_of(t, insert_outcome(st, t)->Ok_0)),
{
    let rows = after_insert(st, t).tracks;
    let n = st.tracks.len() as int;
    let sel = every_row();
    let f = rows.filter(sel);
    assert(rows[n] == row_of(t, insert_outcome(st, t)->Ok_0));
    rows.lemma_filter_contains(sel, n);
    let j = choose|j: int| 0 <= j < f.len() && f[j] == rows[n];
    let out = choose|out: Seq<TrackRow>|
        ordered_pick(rows, sel, library_key(), out) && res == limited(tracks_of(out), -1i64);
    lemma_multiset_member(f, out, j);
    let k = choose|k: int| 0 <= k < out.len() && out[k] == f[j];
    assert(res[k] == crate::db::track_of(rows[n]));
}

/// An entry of the playlist whose track is stored shows in the join.
proof fn lemma_joined_has(
    entries: Seq<crate::db::PlaylistEntry>,
    tracks: Seq<TrackRow>,
    playlist_id: i64,
    j: int,
)
    requires
        0 <= j < entries.len(),
        entries[j].playlist_id == playlist_id,
        exists|m: int| 0 <= m < tracks.len() && (#[trigger] tracks[m]).id == entries[j].track_id,
    ensures
        exists|k: int, m: int|
            0 <= k < joined(entries, tracks, playlist_id).len() && 0 <= m < tracks.len()
                && #[trigger] joined(entries, tracks, playlist_id)[k].1 == #[trigger] tracks[m]
                && tracks[m].id == entries[j].track_id,
    decreases entries.len(),
{
    let init = entries.drop_last();
    let rest = joined(init, tracks, playlist_id);
    let all = joined(entries, tracks, playlist_id);
    if j == entries.len() - 1 {
        let e = entries.last();
        assert(e == entries[j]);
        let m = choose|m: int| 0 <= m < tracks.len() && (#[trigger] tracks[m]).id == e.track_id;
        assert(all == rest.push((e.position, tracks[m])));
        assert(all[rest.len() as int].1 == tracks[m]);
    } else {
        assert(init[j] == entries[j]);
        lemma_joined_has(init, tracks, playlist_id, j);
        let (k, m) = choose|k: int, m: int|
            0 <= k < rest.len() && 0 <= m < tracks.len() && #[trigger] rest[k].1 == #[trigger] tracks[m]
                && tracks[m].id == entries[j].track_id;
        assert(all[k] == rest[k]);
    }
}

/// A stored track added to a playlist is listed among the playlist's tracks.
pub proof fn law_added_track_listed(
    st: DbState,
    playlist_id: i64,
    i: int,
    now: i64,
    res: Seq<Track>,
)
    requires
        wf(st),
        0 <= i < st.tracks.len(),
        add_outcome(st, playlist_id, st.tracks[i].id) is Ok,
        is_playlist_listing(after_add_to_playlist(st, playlist_id, st.tracks[i].id, now), playlist_id, res),
    ensures
        exists|k: int| 0 <= k < res.len() && res[k] == crate::db::track_of(st.tracks[i]),
{
    let track_id = st.tracks[i].id;
    let after = after_add_to_playlist(st, playlist_id, track_id, now);
    law_add_to_playlist_idempotent(st, playlist_id, track_id, now);
    let j = choose|j: int|
        0 <= j < after.entries.len() && (#[trigger] after.entries[j]).playlist_id == playlist_id
            && after.entries[j].track_id == track_id;
    assert(st.tracks[i].id == after.entries[j].track_id);
    lemma_joined_has(after.entries, after.tracks, playlist_id, j);
    let jn = joined(after.entries, after.tracks, playlist_id);
    let (k, m) = choose|k: int, m: int|
        0 <= k < jn.len() && 0 <= m < after.tracks.len() && #[trigger] jn[k].1 == #[trigger] after.tracks[m]
            && after.tracks[m].id == after.entries[j].track_id;
    if m < i {
        assert(st.tracks[m].id < st.tracks[i].id);
    } else if m > i {
        assert(st.tracks[i].id < st.tracks[m].id);
    }
    let out = choose|out: Seq<(i64, TrackRow)>|
        {
            &&& #[trigger] out.to_multiset() == jn.to_multiset()
            &&& (forall|x: int, y: int| 0 <= x < y < out.len() ==> out[x].0 <= out[y].0)
            &&& res == out.map_values(|p: (i64, TrackRow)| crate::db::track_of(p.1))
        };
    lemma_multiset_member(jn, out, k);
    let q = choose|q: int| 0 <= q < out.len() && out[q] == jn[k];
    assert(res[q] == crate::db::track_of(st.tracks[i]));
}

/// What a run waiting on a file's work has already checked against the
/// library: that no stored track has the file's path, once its hash is asked
/// for; nor its hash, once that is known; nor its fingerprint, once that is
/// known.
pub open spec fn checked_new(r: ImportRun, d: DbState) -> bool {
    let waiting = r.stage != ImportStage::Ready && r.stage != ImportStage::Done;
    &&& waiting ==> !path_taken(d, r.files@[r.index as int]@)
    &&& (waiting && r.stage != ImportStage::Hashing) ==> !hash_taken(d, r.hash@)
    &&& waiting ==> (r.fingerprint matches Some(f) ==> !fingerprint_taken(d, f@))
}

/// A run that has not started on a file has checked nothing yet.
pub proof fn law_checked_new_at_start(r: ImportRun, d: DbState)
    requires
        r.stage == ImportStage::Ready,
    ensures
        checked_new(r, d),
{
}

/// Each step keeps what the run has checked true of the library.
pub proof fn law_import_step_keeps_checks(
    a: ImportRun,
    d: DbState,
    e: ImportEvent,
    b: ImportRun,
    d2: DbState,
    s: ImportStep,
)
    requires
        import_inv(a),
        import_inv(b),
        wf(d),
        checked_new(a, d),
        step_taken(a, d, e, b, d2, s),
    ensures
        checked_new(b, d2),
{
    match (a.stage, e) {
        (ImportStage::Fingerprinting, ImportEvent::Fingerprinted(Some(f))) => {
            if !fingerprint_taken(d, f@) {
                let g = b.fingerprint->Some_0;
                assert(g@ == f@);
            }
        },
        _ => {},
    }
}

/// Import dedup: a step stores a file only when no stored track has its
/// path, its hash or (when it has one) its fingerprint.
pub proof fn law_import_stores_only_new(
    a: ImportRun,
    d: DbState,
    e: ImportEvent,
    b: ImportRun,
    d2: DbState,
    s: ImportStep,
)
    requires
        import_inv(a),
        wf(d),
        checked_new(a, d),
        step_taken(a, d, e, b, d2, s),
        d2.tracks.len() == d.tracks.len() + 1,
    ensures
        !path_taken(d, d2.tracks.last().path@),
        !hash_taken(d, d2.tracks.last().file_hash@),
        d2.tracks.last().fingerprint matches Some(f) ==> !fingerprint_taken(d, f@),
{
    law_import_only_appends(a, d, e, b, d2, s);
    let size = e->Sized_0;
    let t = choose|t: InsertTrack|
        {
            &&& crate::import::track_to_insert(a, size, t)
            &&& d2 == after_insert(d, t)
            &&& b.index == a.index + 1
            &&& b.stage == ImportStage::Ready
            &&& s is Proceed
            &&& match insert_outcome(d, t) {
                Ok(_) => b.result == crate::models::ImportResult {
                    imported: (a.result.imported + 1) as usize,
                    ..a.result
                },
                Err(x) => crate::import::error_counted(
                    a.result,
                    b.result,
                    "insert failed: "@ + crate::db::db_error_text(x),
                ),
            }
        };
    let id = insert_outcome(d, t)->Ok_0;
    assert(d2.tracks.last() == row_of(t, id));
    if let Some(f) = t.fingerprint {
        let g = a.fingerprint->Some_0;
        assert(g@ == f@);
    }
}

/// A track just played is listed among the recently played tracks, with the
/// time it was played.
pub proof fn law_played_track_listed(st: DbState, id: i64, now: i64, res: Seq<Track>)
    requires
        has_track(st, id),
        !play_overflows(st, id),
        is_listing(after_record_play(st, id, now).tracks, played_row(), recent_key(), -1i64, res),
    ensures
        exists|k: int|
            0 <= k < res.len() && (#[trigger] res[k]).id == id && res[k].last_played_at == Some(now),
{
    let rows = after_record_play(st, id, now).tracks;
    let sel = played_row();
    let f = rows.filter(sel);
    let i = choose|i: int| 0 <= i < st.tracks.len() && (#[trigger] st.tracks[i]).id == id;
    law_play_counted(st, id, now, i);
    assert(sel(rows[i]));
    rows.lemma_filter_contains(sel, i);
    let j = choose|j: int| 0 <= j < f.len() && f[j] == rows[i];
    let out = choose|out: Seq<TrackRow>|
        ordered_pick(rows, sel, recent_key(), out) && res == limited(tracks_of(out), -1i64);
    lemma_multiset_member(f, out, j);
    let k = choose|k: int| 0 <= k < out.len() && out[k] == f[j];
    assert(res[k] == crate::db::track_of(rows[i]));
}

/// A new playlist is listed among the playlists under its id and name, with
/// the time it was made as both of its stamps.
pub proof fn law_created_playlist_listed(
    st: DbState,
    name: String,
    now: i64,
    res: Seq<(i64, String, i64, i64, i64)>,
)
    requires
        create_outcome(st) is Ok,
        is_playlist_summary(after_create_playlist(st, name, now), res),
    ensures
        exists|k: int|
            0 <= k < res.len() && (#[trigger] res[k]).0 == create_outcome(st)->Ok_0 && res[k].1 == name
                && res[k].3 == now && res[k].4 == now,
{
    let after = after_create_playlist(st, name, now);
    let n = st.playlists.len() as int;
    let out = choose|out: Seq<PlaylistRow>|
        {
            &&& #[trigger] out.to_multiset() == after.playlists.to_multiset()
            &&& (forall|i: int, j: int| 0 <= i < j < out.len() ==> out[i].updated_at >= out[j].updated_at)
            &&& res == out.map_values(|p: PlaylistRow| playlist_line(after, p))
        };
    lemma_multiset_member(after.playlists, out, n);
    let k = choose|k: int| 0 <= k < out.len() && out[k] == after.playlists[n];
    assert(res[k] == playlist_line(after, after.playlists[n]));
}

/// A renamed playlist is listed under its new name, stamped with the time of
/// the change.
pub proof fn law_renamed_playlist_listed(
    st: DbState,
    i: int,
    name: String,
    now: i64,
    res: Seq<(i64, String, i64, i64, i64)>,
)
    requires
        0 <= i < st.playlists.len(),
        is_playlist_summary(after_rename_playlist(st, st.playlists[i].id, name, now), res),
    ensures
        exists|k: int|
            0 <= k < res.len() && (#[trigger] res[k]).0 == st.playlists[i].id && res[k].1 == name
                && res[k].4 == now,
{
    let id = st.playlists[i].id;
    let after = after_rename_playlist(st, id, name, now);
    assert(after.playlists[i] == renamed(st.playlists[i], id, name, now));
    let out = choose|out: Seq<PlaylistRow>|
        {
            &&& #[trigger] out.to_multiset() == after.playlists.to_multiset()
            &&& (forall|x: int, y: int| 0 <= x < y < out.len() ==> out[x].updated_at >= out[y].updated_at)
            &&& res == out.map_values(|p: PlaylistRow| playlist_line(after, p))
        };
    lemma_multiset_member(after.playlists, out, i);
    let k = choose|k: int| 0 <= k < out.len() && out[k] == after.playlists[i];
    assert(res[k] == playlist_line(after, after.playlists[i]));
}

// ------------------------------------------------------------- summaries

/// The artists summary has one line per distinct artist, as many as `stats`
/// counts.
pub proof fn law_artist_count_agrees(rows: Seq<TrackRow>, res: Seq<(String, i64, i64)>)
    requires
        is_artist_summary(rows, res),
    ensures
        res.len() == stats_of(rows).2,
{
    let names = res.map_values(|l: (String, i64, i64)| l.0@);
    assert(names.no_duplicates()) by {
        assert forall|x: int, y: int| 0 <= x < names.len() && 0 <= y < names.len() && x != y implies names[x]
            != names[y] by {
            if x < y {
                assert(res[x].0@ != res[y].0@);
            } else {
                assert(res[y].0@ != res[x].0@);
            }
        }
    }
    assert forall|a: Seq<char>| #[trigger] names.to_set().contains(a) == artist_names(rows).contains(a) by {
        if has_artist(rows, a) {
            let j = choose|j: int| 0 <= j < res.len() && (#[trigger] res[j]).0@ == a;
            assert(names[j] == a);
        }
        if names.to_set().contains(a) {
            assert(names.contains(a));
            let j = choose|j: int| 0 <= j < names.len() && names[j] == a;
            assert(res[j].0@ == a);
            assert(has_artist(rows, a));
        }
    }
    assert(names.to_set() =~= artist_names(rows));
    names.unique_seq_to_set();
}

/// `album|artist` tells the album and artist apart when the album has no `|`.
proof fn lemma_tag_split(al1: Seq<char>, ar1: Seq<char>, al2: Seq<char>, ar2: Seq<char>)
    requires
        !al1.contains('|'),
        !al2.contains('|'),
        al1 + seq!['|'] + ar1 == al2 + seq!['|'] + ar2,
    ensures
        al1 == al2,
        ar1 == ar2,
{
    let t = al1 + seq!['|'] + ar1;
    let u = al2 + seq!['|'] + ar2;
    if al1.len() < al2.len() {
        assert(t[al1.len() as int] == '|');
        assert(u[al1.len() as int] == al2[al1.len() as int]);
        assert(al2.contains(al2[al1.len() as int]));
    } else if al2.len() < al1.len() {
        assert(u[al2.len() as int] == '|');
        assert(t[al2.len() as int] == al1[al2.len() as int]);
        assert(al1.contains(al1[al2.len() as int]));
    } else {
        assert(al1 =~= t.take(al1.len() as int));
        assert(al2 =~= u.take(al2.len() as int));
        assert(ar1 =~= t.skip(al1.len() as int + 1));
        assert(ar2 =~= u.skip(al2.len() as int + 1));
    }
}

/// When no album holds a `|`, the albums summary has as many lines as
/// `stats` counts albums.
pub proof fn law_album_count_agrees(
    rows: Seq<TrackRow>,
    res: Seq<(String, String, i64, Option<String>, Option<i32>)>,
)
    requires
        is_album_summary(rows, res),
        forall|k: int| 0 <= k < rows.len() ==> !(#[trigger] rows[k]).album@.contains('|'),
    ensures
        res.len() == stats_of(rows).1,
{
    let tag = |l: (String, String, i64, Option<String>, Option<i32>)| l.0@ + seq!['|'] + l.1@;
    let tags = res.map_values(tag);
    assert forall|i: int| 0 <= i < res.len() implies !(#[trigger] res[i]).0@.contains('|') by {
        assert(has_album(rows, res[i].0@, res[i].1@));
        let k = choose|k: int| 0 <= k < rows.len() && (#[trigger] rows[k]).album@ == res[i].0@ && rows[k].artist@
            == res[i].1@;
    }
    assert(tags.no_duplicates()) by {
        assert forall|x: int, y: int| 0 <= x < tags.len() && 0 <= y < tags.len() && x != y implies tags[x]
            != tags[y] by {
            if tags[x] == tags[y] {
                assert(!res[x].0@.contains('|'));
                assert(!res[y].0@.contains('|'));
                lemma_tag_split(res[x].0@, res[x].1@, res[y].0@, res[y].1@);
                if x < y {
                    assert(!(res[x].0@ == res[y].0@ && res[x].1@ == res[y].1@));
                } else {
                    assert(!(res[y].0@ == res[x].0@ && res[y].1@ == res[x].1@));
                }
            }
        }
    }
    assert forall|c: Seq<char>| #[trigger] tags.to_set().contains(c) == album_tags(rows).contains(c) by {
        if album_tags(rows).contains(c) {
            let k = choose|k: int| 0 <= k < rows.len() && crate::groups::album_tag(#[trigger] rows[k]) == c;
            assert(has_album(rows, rows[k].album@, rows[k].artist@));
            let j = choose|j: int| 0 <= j < res.len() && (#[trigger] res[j]).0@ == rows[k].album@ && res[j].1@
                == rows[k].artist@;
            assert(tags[j] == c);
        }
        if tags.to_set().contains(c) {
            assert(tags.contains(c));
            let j = choose|j: int| 0 <= j < tags.len() && tags[j] == c;
            assert(has_album(rows, res[j].0@, res[j].1@));
            let k = choose|k: int| 0 <= k < rows.len() && (#[trigger] rows[k]).album@ == res[j].0@ && rows[k].artist@
                == res[j].1@;
            assert(crate::groups::album_tag(rows[k]) == c);
        }
    }
    assert(tags.to_set() =~= album_tags(rows));
    tags.unique_seq_to_set();
}

/// Filtering by either of two predicates that never both hold keeps as many
/// items as filtering by each.
proof fn lemma_filter_disjoint(s: Seq<TrackRow>, p: spec_fn(TrackRow) -> bool, q: spec_fn(TrackRow) -> bool)
    requires
        forall|x: TrackRow| !(#[trigger] p(x) && q(x)),
    ensures
        s.filter(|x: TrackRow| p(x) || q(x)).len() == s.filter(p).len() + s.filter(q).len(),
    decreases s.len(),
{
    reveal(Seq::filter);
    if s.len() > 0 {
        lemma_filter_disjoint(s.drop_last(), p, q);
    }
}

/// The rows that fall into one of the first `m` lines' groups.
pub open spec fn in_first_groups(
    res: Seq<(String, String, i64, Option<String>, Option<i32>)>,
    m: int,
) -> spec_fn(TrackRow) -> bool {
    |r: TrackRow| exists|i: int| 0 <= i < m && r.album@ == (#[trigger] res[i]).0@ && r.artist@ == res[i].1@
}

/// The sum of the first `m` lines' counts.
pub open spec fn count_sum(res: Seq<(String, String, i64, Option<String>, Option<i32>)>, m: int) -> int
    decreases m,
{
    if m <= 0 {
        0
    } else {
        count_sum(res, m - 1) + res[m - 1].2
    }
}

proof fn lemma_count_sum(
    rows: Seq<TrackRow>,
    res: Seq<(String, String, i64, Option<String>, Option<i32>)>,
    m: int,
)
    requires
        is_album_summary(rows, res),
        0 <= m <= res.len(),
    ensures
        count_sum(res, m) == rows.filter(in_first_groups(res, m)).len(),
    decreases m,
{
    if m == 0 {
        assert(rows.filter(in_first_groups(res, 0)) =~= Seq::<TrackRow>::empty()) by {
            assert forall|i: int| 0 <= i < rows.len() implies !in_first_groups(res, 0)(#[trigger] rows[i]) by {}
            rows.lemma_filter_len(in_first_groups(res, 0));
            if rows.filter(in_first_groups(res, 0)).len() > 0 {
                lemma_filter_member(rows, in_first_groups(res, 0), 0);
            }
        }
    } else {
        lemma_count_sum(rows, res, m - 1);
        let p = in_first_groups(res, m - 1);
        let q = album_row(res[m - 1].0@, res[m - 1].1@);
        assert forall|x: TrackRow| !(#[trigger] p(x) && q(x)) by {
            if p(x) && q(x) {
                let i = choose|i: int| 0 <= i < m - 1 && x.album@ == (#[trigger] res[i]).0@ && x.artist@ == res[i].1@;
                assert(!(res[i].0@ == res[m - 1].0@ && res[i].1@ == res[m - 1].1@));
            }
        }
        lemma_filter_disjoint(rows, p, q);
        assert(in_first_groups(res, m) =~= (|x: TrackRow| p(x) || q(x))) by {
            assert forall|x: TrackRow| #[trigger] in_first_groups(res, m)(x) == (p(x) || q(x)) by {
                if in_first_groups(res, m)(x) {
                    let i = choose|i: int| 0 <= i < m && x.album@ == (#[trigger] res[i]).0@ && x.artist@ == res[i].1@;
                    if i < m - 1 {
                        assert(p(x));
                    }
                }
                if p(x) {
                    let i = choose|i: int| 0 <= i < m - 1 && x.album@ == (#[trigger] res[i]).0@ && x.artist@ == res[i].1@;
                    assert(in_first_groups(res, m)(x));
                }
                if q(x) {
                    assert(x.album@ == res[m - 1].0@ && x.artist@ == res[m - 1].1@);
                    assert(in_first_groups(res, m)(x));
                }
            }
        }
        assert(res[m - 1].2 == crate::groups::album_group(rows, res[m - 1].0@, res[m - 1].1@).len());
    }
}

/// The albums' counts add up to the number of tracks.
pub proof fn law_album_counts_sum_to_tracks(
    rows: Seq<TrackRow>,
    res: Seq<(String, String, i64, Option<String>, Option<i32>)>,
)
    requires
        is_album_summary(rows, res),
    ensures
        count_sum(res, res.len() as int) == rows.len(),
{
    lemma_count_sum(rows, res, res.len() as int);
    let all = in_first_groups(res, res.len() as int);
    assert forall|k: int| 0 <= k < rows.len() implies all(#[trigger] rows[k]) by {
        assert(has_album(rows, rows[k].album@, rows[k].artist@));
        let j = choose|j: int| 0 <= j < res.len() && (#[trigger] res[j]).0@ == rows[k].album@ && res[j].1@
            == rows[k].artist@;
    }
    lemma_filter_all(rows, all);
}

/// Whether some stored track has this id.
pub open spec fn track_stored(tracks: Seq<TrackRow>, id: i64) -> bool {
    exists|i: int| 0 <= i < tracks.len() && (#[trigger] tracks[i]).id == id
}

/// Every entry names a stored track.
pub open spec fn entries_stored(entries: Seq<crate::db::PlaylistEntry>, tracks: Seq<TrackRow>) -> bool {
    forall|k: int| 0 <= k < entries.len() ==> track_stored(tracks, (#[trigger] entries[k]).track_id)
}

/// With every entry's track stored, the join keeps every entry of the
/// playlist.
proof fn lemma_joined_len(entries: Seq<crate::db::PlaylistEntry>, tracks: Seq<TrackRow>, id: i64)
    requires
        entries_stored(entries, tracks),
    ensures
        joined(entries, tracks, id).len() == entries.filter(in_playlist(id)).len(),
    decreases entries.len(),
{
    reveal(Seq::filter);
    if entries.len() > 0 {
        let init = entries.drop_last();
        assert forall|k: int| 0 <= k < init.len() implies track_stored(tracks, (#[trigger] init[k]).track_id) by {
            assert(init[k] == entries[k]);
        }
        lemma_joined_len(init, tracks, id);
        assert(entries.last() == entries[entries.len() - 1]);
        assert(track_stored(tracks, entries[entries.len() - 1].track_id));
    }
}

/// When every entry's track is stored, a playlist's size in the summary is
/// the number of tracks it lists.
pub proof fn law_playlist_size_agrees(
    st: DbState,
    lines: Seq<(i64, String, i64, i64, i64)>,
    k: int,
    res: Seq<Track>,
)
    requires
        wf(st),
        entries_stored(st.entries, st.tracks),
        is_playlist_summary(st, lines),
        0 <= k < lines.len(),
        is_playlist_listing(st, lines[k].0, res),
    ensures
        lines[k].2 == res.len(),
{
    let out = choose|out: Seq<PlaylistRow>|
        {
            &&& #[trigger] out.to_multiset() == st.playlists.to_multiset()
            &&& (forall|i: int, j: int| 0 <= i < j < out.len() ==> out[i].updated_at >= out[j].updated_at)
            &&& lines == out.map_values(|p: PlaylistRow| playlist_line(st, p))
        };
    let id = out[k].id;
    assert(lines[k] == playlist_line(st, out[k]));
    lemma_joined_len(st.entries, st.tracks, id);
    st.entries.lemma_filter_len(in_playlist(id));
    let jn = joined(st.entries, st.tracks, id);
    let o2 = choose|o2: Seq<(i64, TrackRow)>|
        {
            &&& #[trigger] o2.to_multiset() == jn.to_multiset()
            &&& (forall|x: int, y: int| 0 <= x < y < o2.len() ==> o2[x].0 <= o2[y].0)
            &&& res == o2.map_values(|p: (i64, TrackRow)| crate::db::track_of(p.1))
        };
    vstd::seq_lib::to_multiset_len(o2);
    vstd::seq_lib::to_multiset_len(jn);
    assert(entry_count(st.entries, id) == jn.len());
}

} // verus!
