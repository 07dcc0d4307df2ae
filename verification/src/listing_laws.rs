//! The listings' orders and selections stated on the tracks' own fields:
//! which files count as audio, which tracks a search finds, and how the
//! library, an artist's and an album's tracks are ordered.

use vstd::prelude::*;

use crate::db::{track_of, DbState, TrackRow};
use crate::laws::{lemma_any_prefix, lemma_percent_matches};
use crate::like::{like_char, like_match};
use crate::models::Track;
use crate::order::{key_le, key_order, part_order, text_order, value_order, KeyPart, KeyValue};
use crate::paths::extension;
use crate::queries::{
    album_key, album_row, artist_key, artist_row, contains_pattern, counted_row, every_row, favorite_row,
    is_listing, library_key, limited, listing_key, most_played_key, nocase_key, opt32_key, opt64_key,
    ordered_pick, played_row, recent_key, search_row, text_key, tracks_of,
};
use crate::groups::{album_group_key, is_album_summary, min_art, min_year, opt_text};
use crate::scanner::{audio_extensions, audio_path, audio_string, is_audio_selection};
use crate::seq_facts::{lemma_filter_member, lemma_multiset_member};
use crate::text::{fold_char, fold_text};

verus! {

// ------------------------------------------------------------------ audio

/// The extensions of audio files: mp3, flac, m4a, ogg, opus, wav, aac, wma.
pub open spec fn audio_extension(e: Seq<char>) -> bool {
    ||| e == seq!['m', 'p', '3']
    ||| e == seq!['f', 'l', 'a', 'c']
    ||| e == seq!['m', '4', 'a']
    ||| e == seq!['o', 'g', 'g']
    ||| e == seq!['o', 'p', 'u', 's']
    ||| e == seq!['w', 'a', 'v']
    ||| e == seq!['a', 'a', 'c']
    ||| e == seq!['w', 'm', 'a']
}

proof fn lemma_extension_list(f: Seq<char>)
    ensures
        audio_extensions().contains(f) <==> audio_extension(f),
{
    reveal_strlit("mp3");
    reveal_strlit("flac");
    reveal_strlit("m4a");
    reveal_strlit("ogg");
    reveal_strlit("opus");
    reveal_strlit("wav");
    reveal_strlit("aac");
    reveal_strlit("wma");
    let xs = audio_extensions();
    assert(xs.len() == 8);
    assert(xs[0] =~= seq!['m', 'p', '3']);
    assert(xs[1] =~= seq!['f', 'l', 'a', 'c']);
    assert(xs[2] =~= seq!['m', '4', 'a']);
    assert(xs[3] =~= seq!['o', 'g', 'g']);
    assert(xs[4] =~= seq!['o', 'p', 'u', 's']);
    assert(xs[5] =~= seq!['w', 'a', 'v']);
    assert(xs[6] =~= seq!['a', 'a', 'c']);
    assert(xs[7] =~= seq!['w', 'm', 'a']);
    if xs.contains(f) {
        let i = choose|i: int| 0 <= i < xs.len() && xs[i] == f;
        assert(i == 0 || i == 1 || i == 2 || i == 3 || i == 4 || i == 5 || i == 6 || i == 7);
    }
    if audio_extension(f) {
        if f == seq!['m', 'p', '3'] {
            assert(xs[0] == f);
        } else if f == seq!['f', 'l', 'a', 'c'] {
            assert(xs[1] == f);
        } else if f == seq!['m', '4', 'a'] {
            assert(xs[2] == f);
        } else if f == seq!['o', 'g', 'g'] {
            assert(xs[3] == f);
        } else if f == seq!['o', 'p', 'u', 's'] {
            assert(xs[4] == f);
        } else if f == seq!['w', 'a', 'v'] {
            assert(xs[5] == f);
        } else if f == seq!['a', 'a', 'c'] {
            assert(xs[6] == f);
        } else {
            assert(xs[7] == f);
        }
    }
}

/// A path is taken as audio exactly when it has an extension that, with
/// its ASCII letters lowered, is one of mp3, flac, m4a, ogg, opus, wav, aac
/// and wma.
pub proof fn law_audio_paths(p: Seq<char>)
    ensures
        audio_path(p) <==> (extension(p) matches Some(e) && audio_extension(fold_text(e))),
{
    if let Some(e) = extension(p) {
        lemma_extension_list(fold_text(e));
    }
}

/// The files an import takes from a folder walk are exactly its audio files:
/// each one has an audio extension and comes from the walk, and each walked
/// path with an audio extension is taken.
pub proof fn law_selection_is_audio(paths: Seq<String>, out: Seq<String>)
    requires
        is_audio_selection(paths, out),
    ensures
        forall|i: int|
            0 <= i < out.len() ==> (extension((#[trigger] out[i])@) matches Some(e) && audio_extension(
                fold_text(e),
            )) && paths.contains(out[i]),
        forall|k: int|
            0 <= k < paths.len() && (extension((#[trigger] paths[k])@) matches Some(e) && audio_extension(
                fold_text(e),
            )) ==> out.contains(paths[k]),
{
    let f = paths.filter(audio_string());
    assert forall|i: int| 0 <= i < out.len() implies (extension((#[trigger] out[i])@) matches Some(e)
        && audio_extension(fold_text(e))) && paths.contains(out[i]) by {
        lemma_multiset_member(out, f, i);
        let j = choose|j: int| 0 <= j < f.len() && f[j] == out[i];
        lemma_filter_member(paths, audio_string(), j);
        law_audio_paths(out[i]@);
    }
    assert forall|k: int|
        0 <= k < paths.len() && (extension((#[trigger] paths[k])@) matches Some(e) && audio_extension(
            fold_text(e),
        )) implies out.contains(paths[k]) by {
        law_audio_paths(paths[k]@);
        paths.lemma_filter_contains(audio_string(), k);
        let j = choose|j: int| 0 <= j < f.len() && f[j] == paths[k];
        lemma_multiset_member(f, out, j);
    }
}

// ----------------------------------------------------------------- search

/// A pattern `q%` matches a text that starts with `m` and where `m`
/// matches `q` character by character.
proof fn lemma_matching_then_any(q: Seq<char>, m: Seq<char>, b: Seq<char>)
    requires
        q.len() == m.len(),
        forall|i: int| 0 <= i < q.len() ==> #[trigger] q[i] != '%' && q[i] != '_' && like_char(q[i], m[i]),
    ensures
        like_match(q + seq!['%'], m + b),
    decreases q.len(),
{
    if q.len() == 0 {
        assert(q + seq!['%'] =~= seq!['%']);
        assert(m + b =~= b);
        lemma_percent_matches(b);
    } else {
        let qr = q.drop_first();
        let mr = m.drop_first();
        assert forall|i: int| 0 <= i < qr.len() implies #[trigger] qr[i] != '%' && qr[i] != '_' && like_char(
            qr[i],
            mr[i],
        ) by {
            assert(qr[i] == q[i + 1] && mr[i] == m[i + 1]);
        }
        lemma_matching_then_any(qr, mr, b);
        assert((q + seq!['%']).drop_first() =~= qr + seq!['%']);
        assert((m + b).drop_first() =~= mr + b);
        assert((q + seq!['%'])[0] == q[0]);
        assert((m + b)[0] == m[0]);
    }
}

/// Whether a text holds the query, ignoring the case of ASCII letters: some
/// stretch of it equals the query up to lowering ASCII letters, where the
/// query and the stretch are ASCII.
pub open spec fn holds_query(text: Seq<char>, query: Seq<char>) -> bool {
    exists|a: Seq<char>, m: Seq<char>, b: Seq<char>|
        {
            &&& text == a + m + b
            &&& m.len() == query.len()
            &&& forall|i: int|
                0 <= i < query.len() ==> (#[trigger] query[i] == m[i] || ((query[i] as u32) < 0x80 && (m[i] as u32)
                    < 0x80 && fold_char(query[i]) == fold_char(m[i])))
        }
}

/// The search pattern for a query with no `%` or `_` matches every text
/// that holds the query.
pub proof fn law_pattern_matches_holder(query: Seq<char>, text: Seq<char>)
    requires
        forall|i: int| 0 <= i < query.len() ==> #[trigger] query[i] != '%' && query[i] != '_',
        holds_query(text, query),
    ensures
        like_match(contains_pattern(query), text),
{
    let (a, m, b) = choose|a: Seq<char>, m: Seq<char>, b: Seq<char>|
        {
            &&& text == a + m + b
            &&& m.len() == query.len()
            &&& forall|i: int|
                0 <= i < query.len() ==> (#[trigger] query[i] == m[i] || ((query[i] as u32) < 0x80 && (m[i] as u32)
                    < 0x80 && fold_char(query[i]) == fold_char(m[i])))
        };
    assert forall|i: int| 0 <= i < query.len() implies #[trigger] query[i] != '%' && query[i] != '_' && like_char(
        query[i],
        m[i],
    ) by {}
    lemma_matching_then_any(query, m, b);
    lemma_any_prefix(query + seq!['%'], a, m + b);
    assert(seq!['%'] + (query + seq!['%']) =~= contains_pattern(query));
    assert(a + (m + b) =~= text);
}

/// A search finds every track whose title, artist, album or genre holds the
/// query (ignoring ASCII case), for a query with no `%` or `_` in it.
pub proof fn law_search_finds_any_column(st: DbState, query: Seq<char>, res: Seq<Track>, i: int)
    requires
        is_listing(st.tracks, search_row(query), listing_key(), -1i64, res),
        0 <= i < st.tracks.len(),
        holds_query(st.tracks[i].title@, query) || holds_query(st.tracks[i].artist@, query) || holds_query(
            st.tracks[i].album@,
            query,
        ) || holds_query(st.tracks[i].genre@, query),
        forall|k: int| 0 <= k < query.len() ==> #[trigger] query[k] != '%' && query[k] != '_',
    ensures
        exists|k: int| 0 <= k < res.len() && res[k] == track_of(st.tracks[i]),
{
    let rows = st.tracks;
    let r = rows[i];
    let sel = search_row(query);
    if holds_query(r.title@, query) {
        law_pattern_matches_holder(query, r.title@);
    } else if holds_query(r.artist@, query) {
        law_pattern_matches_holder(query, r.artist@);
    } else if holds_query(r.album@, query) {
        law_pattern_matches_holder(query, r.album@);
    } else {
        law_pattern_matches_holder(query, r.genre@);
    }
    assert(sel(r));
    let f = rows.filter(sel);
    rows.lemma_filter_contains(sel, i);
    let j = choose|j: int| 0 <= j < f.len() && f[j] == rows[i];
    let out = choose|out: Seq<TrackRow>|
        ordered_pick(rows, sel, listing_key(), out) && res == limited(tracks_of(out), -1i64);
    lemma_multiset_member(f, out, j);
    let k = choose|k: int| 0 <= k < out.len() && out[k] == f[j];
    assert(res[k] == track_of(rows[i]));
}

// ----------------------------------------------------------------- orders

/// SQLite's order of nullable numbers: NULL first, then by value.
pub open spec fn number_before(a: Option<i32>, b: Option<i32>) -> bool {
    match (a, b) {
        (None, Some(_)) => true,
        (Some(x), Some(y)) => x < y,
        _ => false,
    }
}

pub proof fn lemma_text_order_zero(a: Seq<char>, b: Seq<char>)
    ensures
        text_order(a, b) == 0 <==> a == b,
    decreases a.len(),
{
    if a.len() > 0 && b.len() > 0 {
        lemma_text_order_zero(a.drop_first(), b.drop_first());
        if a.drop_first() == b.drop_first() && a[0] == b[0] {
            assert forall|i: int| 0 <= i < a.len() implies a[i] == b[i] by {
                if i > 0 {
                    assert(a[i] == a.drop_first()[i - 1]);
                    assert(b[i] == b.drop_first()[i - 1]);
                }
            }
            assert(a =~= b);
        }
        if a == b {
            assert(a.drop_first() == b.drop_first());
        }
        if text_order(a, b) == 0 {
            assert((a[0] as u32) == (b[0] as u32));
            vstd::utf8::char_u32_cast(a[0], a[0] as u32);
            vstd::utf8::char_u32_cast(b[0], b[0] as u32);
            assert(a[0] == b[0]);
            assert(a.drop_first() == b.drop_first());
        }
    } else if a.len() == 0 && b.len() == 0 {
        assert(a =~= b);
    }
}

proof fn lemma_number_part(a: Option<i32>, b: Option<i32>)
    ensures
        part_order(KeyPart::Asc(opt32_key(a)), KeyPart::Asc(opt32_key(b))) < 0 <==> number_before(a, b),
        part_order(KeyPart::Asc(opt32_key(a)), KeyPart::Asc(opt32_key(b))) == 0 <==> a == b,
{
}

proof fn lemma_text_part(a: Seq<char>, b: Seq<char>)
    ensures
        part_order(KeyPart::Asc(KeyValue::Text(a)), KeyPart::Asc(KeyValue::Text(b))) == text_order(a, b),
        text_order(a, b) == 0 <==> a == b,
{
    lemma_text_order_zero(a, b);
}

/// A key that is not after another: its first term is before, or equal
/// with the rest not after.
proof fn lemma_key_step(p: Seq<KeyPart>, q: Seq<KeyPart>)
    requires
        p.len() > 0,
        q.len() > 0,
        key_le(p, q),
    ensures
        part_order(p[0], q[0]) < 0 || (part_order(p[0], q[0]) == 0 && key_le(p.drop_first(), q.drop_first())),
{
}

/// The tracks of an album in the order the album listing gives: by disc
/// number, then track number (a missing number first), then title by code
/// point. The listing holds exactly the album's tracks (by album and artist).
pub proof fn law_album_listing_order(
    rows: Seq<TrackRow>,
    album: Seq<char>,
    artist: Seq<char>,
    res: Seq<Track>,
)
    requires
        is_listing(rows, album_row(album, artist), album_key(), -1i64, res),
    ensures
        exists|out: Seq<TrackRow>|
            {
                &&& res == #[trigger] tracks_of(out)
                &&& forall|i: int| 0 <= i < out.len() ==> (#[trigger] out[i]).album@ == album && out[i].artist@ == artist && rows.contains(out[i])
                &&& forall|i: int, j: int|
                    0 <= i < j < out.len() ==> {
                        ||| number_before((#[trigger] out[i]).disc_number, (#[trigger] out[j]).disc_number)
                        ||| (out[i].disc_number == out[j].disc_number && number_before(out[i].track_number, out[j].track_number))
                        ||| (out[i].disc_number == out[j].disc_number && out[i].track_number == out[j].track_number
                            && text_order(out[i].title@, out[j].title@) <= 0)
                    }
            },
{
    let sel = album_row(album, artist);
    let out = choose|out: Seq<TrackRow>|
        ordered_pick(rows, sel, album_key(), out) && res == limited(tracks_of(out), -1i64);
    let f = rows.filter(sel);
    assert forall|i: int| 0 <= i < out.len() implies (#[trigger] out[i]).album@ == album && out[i].artist@ == artist && rows.contains(out[i]) by {
        lemma_multiset_member(out, f, i);
        let j = choose|j: int| 0 <= j < f.len() && f[j] == out[i];
        lemma_filter_member(rows, sel, j);
    }
    assert forall|i: int, j: int| 0 <= i < j < out.len() implies {
        ||| number_before((#[trigger] out[i]).disc_number, (#[trigger] out[j]).disc_number)
        ||| (out[i].disc_number == out[j].disc_number && number_before(out[i].track_number, out[j].track_number))
        ||| (out[i].disc_number == out[j].disc_number && out[i].track_number == out[j].track_number
            && text_order(out[i].title@, out[j].title@) <= 0)
    } by {
        let p = album_key()(out[i]);
        let q = album_key()(out[j]);
        assert(key_le(p, q));
        lemma_number_part(out[i].disc_number, out[j].disc_number);
        lemma_number_part(out[i].track_number, out[j].track_number);
        lemma_key_step(p, q);
        if part_order(p[0], q[0]) == 0 {
            lemma_key_step(p.drop_first(), q.drop_first());
            assert(p.drop_first()[0] == p[1] && q.drop_first()[0] == q[1]);
            if part_order(p[1], q[1]) == 0 {
                let p2 = p.drop_first().drop_first();
                let q2 = q.drop_first().drop_first();
                assert(p2 =~= seq![KeyPart::Asc(text_key(out[i].title@))]);
                assert(q2 =~= seq![KeyPart::Asc(text_key(out[j].title@))]);
                lemma_key_step(p2, q2);
                assert(p2.drop_first().len() == 0 && q2.drop_first().len() == 0);
            }
        }
    }
    assert(res == tracks_of(out));
}

/// An artist's tracks in the order the artist listing gives: by album
/// ignoring ASCII case, then track number (a missing number first), then
/// title by code point. The listing holds exactly the artist's tracks.
pub proof fn law_artist_listing_order(rows: Seq<TrackRow>, artist: Seq<char>, res: Seq<Track>)
    requires
        is_listing(rows, artist_row(artist), artist_key(), -1i64, res),
    ensures
        forall|i: int| 0 <= i < res.len() ==> (#[trigger] res[i]).artist@ == artist,
        forall|i: int, j: int|
            0 <= i < j < res.len() ==> {
                let (x, y) = (#[trigger] res[i], #[trigger] res[j]);
                ||| text_order(fold_text(x.album@), fold_text(y.album@)) < 0
                ||| (fold_text(x.album@) == fold_text(y.album@) && number_before(x.track_number, y.track_number))
                ||| (fold_text(x.album@) == fold_text(y.album@) && x.track_number == y.track_number && text_order(
                    x.title@,
                    y.title@,
                ) <= 0)
            },
{
    let sel = artist_row(artist);
    let out = choose|out: Seq<TrackRow>|
        ordered_pick(rows, sel, artist_key(), out) && res == limited(tracks_of(out), -1i64);
    let f = rows.filter(sel);
    assert(res == tracks_of(out));
    assert forall|i: int| 0 <= i < res.len() implies (#[trigger] res[i]).artist@ == artist by {
        lemma_multiset_member(out, f, i);
        let j = choose|j: int| 0 <= j < f.len() && f[j] == out[i];
        lemma_filter_member(rows, sel, j);
    }
    assert forall|i: int, j: int| 0 <= i < j < res.len() implies {
        let (x, y) = (#[trigger] res[i], #[trigger] res[j]);
        ||| text_order(fold_text(x.album@), fold_text(y.album@)) < 0
        ||| (fold_text(x.album@) == fold_text(y.album@) && number_before(x.track_number, y.track_number))
        ||| (fold_text(x.album@) == fold_text(y.album@) && x.track_number == y.track_number && text_order(
            x.title@,
            y.title@,
        ) <= 0)
    } by {
        let p = artist_key()(out[i]);
        let q = artist_key()(out[j]);
        assert(key_le(p, q));
        assert(res[i] == track_of(out[i]) && res[j] == track_of(out[j]));
        lemma_text_part(fold_text(out[i].album@), fold_text(out[j].album@));
        lemma_number_part(out[i].track_number, out[j].track_number);
        lemma_key_step(p, q);
        if part_order(p[0], q[0]) == 0 {
            lemma_key_step(p.drop_first(), q.drop_first());
            assert(p.drop_first()[0] == p[1] && q.drop_first()[0] == q[1]);
            if part_order(p[1], q[1]) == 0 {
                let p2 = p.drop_first().drop_first();
                let q2 = q.drop_first().drop_first();
                assert(p2 =~= seq![KeyPart::Asc(text_key(out[i].title@))]);
                assert(q2 =~= seq![KeyPart::Asc(text_key(out[j].title@))]);
                lemma_key_step(p2, q2);
            }
        }
    }
}

/// The whole library in the order its listing gives: by artist, then
/// album (both ignoring ASCII case), then track number (a missing number
/// first), then title by code point. The listing holds every track.
pub proof fn law_library_listing_order(rows: Seq<TrackRow>, res: Seq<Track>)
    requires
        is_listing(rows, every_row(), library_key(), -1i64, res),
    ensures
        res.len() == rows.len(),
        forall|i: int, j: int|
            0 <= i < j < res.len() ==> {
                let (x, y) = (#[trigger] res[i], #[trigger] res[j]);
                ||| text_order(fold_text(x.artist@), fold_text(y.artist@)) < 0
                ||| (fold_text(x.artist@) == fold_text(y.artist@) && text_order(
                    fold_text(x.album@),
                    fold_text(y.album@),
                ) < 0)
                ||| (fold_text(x.artist@) == fold_text(y.artist@) && fold_text(x.album@) == fold_text(y.album@)
                    && number_before(x.track_number, y.track_number))
                ||| (fold_text(x.artist@) == fold_text(y.artist@) && fold_text(x.album@) == fold_text(y.album@)
                    && x.track_number == y.track_number && text_order(x.title@, y.title@) <= 0)
            },
{
    let out = choose|out: Seq<TrackRow>|
        ordered_pick(rows, every_row(), library_key(), out) && res == limited(tracks_of(out), -1i64);
    assert(res == tracks_of(out));
    crate::seq_facts::lemma_filter_all(rows, every_row());
    vstd::seq_lib::to_multiset_len(out);
    vstd::seq_lib::to_multiset_len(rows);
    assert forall|i: int, j: int| 0 <= i < j < res.len() implies {
        let (x, y) = (#[trigger] res[i], #[trigger] res[j]);
        ||| text_order(fold_text(x.artist@), fold_text(y.artist@)) < 0
        ||| (fold_text(x.artist@) == fold_text(y.artist@) && text_order(fold_text(x.album@), fold_text(y.album@))
            < 0)
        ||| (fold_text(x.artist@) == fold_text(y.artist@) && fold_text(x.album@) == fold_text(y.album@)
            && number_before(x.track_number, y.track_number))
        ||| (fold_text(x.artist@) == fold_text(y.artist@) && fold_text(x.album@) == fold_text(y.album@)
            && x.track_number == y.track_number && text_order(x.title@, y.title@) <= 0)
    } by {
        let p = library_key()(out[i]);
        let q = library_key()(out[j]);
        assert(key_le(p, q));
        assert(res[i] == track_of(out[i]) && res[j] == track_of(out[j]));
        lemma_text_part(fold_text(out[i].artist@), fold_text(out[j].artist@));
        lemma_text_part(fold_text(out[i].album@), fold_text(out[j].album@));
        lemma_number_part(out[i].track_number, out[j].track_number);
        lemma_key_step(p, q);
        if part_order(p[0], q[0]) == 0 {
            let p1 = p.drop_first();
            let q1 = q.drop_first();
            lemma_key_step(p1, q1);
            assert(p1[0] == p[1] && q1[0] == q[1]);
            if part_order(p[1], q[1]) == 0 {
                let p2 = p1.drop_first();
                let q2 = q1.drop_first();
                lemma_key_step(p2, q2);
                assert(p2[0] == p[2] && q2[0] == q[2]);
                if part_order(p[2], q[2]) == 0 {
                    let p3 = p2.drop_first();
                    let q3 = q2.drop_first();
                    assert(p3 =~= seq![KeyPart::Asc(text_key(out[i].title@))]);
                    assert(q3 =~= seq![KeyPart::Asc(text_key(out[j].title@))]);
                    lemma_key_step(p3, q3);
                }
            }
        }
    }
}

/// The tracks of a listing stand in the order of their rows' keys, and each
/// comes from a row the selection picks.
proof fn lemma_listing_rows(
    rows: Seq<TrackRow>,
    sel: spec_fn(TrackRow) -> bool,
    key: spec_fn(TrackRow) -> Seq<KeyPart>,
    limit: i64,
    res: Seq<Track>,
) -> (out: Seq<TrackRow>)
    requires
        is_listing(rows, sel, key, limit, res),
    ensures
        res.len() <= out.len(),
        res.len() == (if 0 <= limit < rows.filter(sel).len() { limit as int } else { rows.filter(sel).len() as int }),
        forall|i: int| 0 <= i < res.len() ==> res[i] == track_of(#[trigger] out[i]) && sel(out[i]),
        forall|i: int, j: int| 0 <= i < j < res.len() ==> key_le(key(#[trigger] out[i]), key(#[trigger] out[j])),
{
    let out = choose|out: Seq<TrackRow>| ordered_pick(rows, sel, key, out) && res == limited(tracks_of(out), limit);
    let f = rows.filter(sel);
    vstd::seq_lib::to_multiset_len(out);
    vstd::seq_lib::to_multiset_len(f);
    assert forall|i: int| 0 <= i < res.len() implies res[i] == track_of(#[trigger] out[i]) && sel(out[i]) by {
        lemma_multiset_member(out, f, i);
        let j = choose|j: int| 0 <= j < f.len() && f[j] == out[i];
        lemma_filter_member(rows, sel, j);
    }
    out
}

/// Unfolds a key of three terms that is not after another.
proof fn lemma_key3(p: Seq<KeyPart>, q: Seq<KeyPart>)
    requires
        p.len() == 3,
        q.len() == 3,
        key_le(p, q),
    ensures
        part_order(p[0], q[0]) < 0 || (part_order(p[0], q[0]) == 0 && part_order(p[1], q[1]) < 0) || (
        part_order(p[0], q[0]) == 0 && part_order(p[1], q[1]) == 0 && part_order(p[2], q[2]) <= 0),
{
    lemma_key_step(p, q);
    if part_order(p[0], q[0]) == 0 {
        let p1 = p.drop_first();
        let q1 = q.drop_first();
        lemma_key_step(p1, q1);
        assert(p1[0] == p[1] && q1[0] == q[1]);
        if part_order(p[1], q[1]) == 0 {
            let p2 = p1.drop_first();
            let q2 = q1.drop_first();
            lemma_key_step(p2, q2);
            assert(p2[0] == p[2] && q2[0] == q[2]);
        }
    }
}

/// The order that the favorites and the search results share: by artist,
/// then album (both ignoring ASCII case), then track number (a missing
/// number first). The favorites listing holds only favorites.
pub proof fn law_short_listing_order(
    rows: Seq<TrackRow>,
    sel: spec_fn(TrackRow) -> bool,
    res: Seq<Track>,
)
    requires
        is_listing(rows, sel, listing_key(), -1i64, res),
    ensures
        sel == favorite_row() ==> forall|i: int| 0 <= i < res.len() ==> (#[trigger] res[i]).favorite,
        forall|i: int, j: int|
            0 <= i < j < res.len() ==> {
                let (x, y) = (#[trigger] res[i], #[trigger] res[j]);
                ||| text_order(fold_text(x.artist@), fold_text(y.artist@)) < 0
                ||| (fold_text(x.artist@) == fold_text(y.artist@) && text_order(
                    fold_text(x.album@),
                    fold_text(y.album@),
                ) < 0)
                ||| (fold_text(x.artist@) == fold_text(y.artist@) && fold_text(x.album@) == fold_text(y.album@)
                    && (number_before(x.track_number, y.track_number) || x.track_number == y.track_number))
            },
{
    let out = lemma_listing_rows(rows, sel, listing_key(), -1i64, res);
    assert forall|i: int, j: int| 0 <= i < j < res.len() implies {
        let (x, y) = (#[trigger] res[i], #[trigger] res[j]);
        ||| text_order(fold_text(x.artist@), fold_text(y.artist@)) < 0
        ||| (fold_text(x.artist@) == fold_text(y.artist@) && text_order(fold_text(x.album@), fold_text(y.album@))
            < 0)
        ||| (fold_text(x.artist@) == fold_text(y.artist@) && fold_text(x.album@) == fold_text(y.album@)
            && (number_before(x.track_number, y.track_number) || x.track_number == y.track_number))
    } by {
        assert(res[i] == track_of(out[i]) && res[j] == track_of(out[j]));
        let p = listing_key()(out[i]);
        let q = listing_key()(out[j]);
        lemma_text_part(fold_text(out[i].artist@), fold_text(out[j].artist@));
        lemma_text_part(fold_text(out[i].album@), fold_text(out[j].album@));
        lemma_number_part(out[i].track_number, out[j].track_number);
        lemma_key3(p, q);
    }
    if sel == favorite_row() {
        assert forall|i: int| 0 <= i < res.len() implies (#[trigger] res[i]).favorite by {
            assert(res[i] == track_of(out[i]) && favorite_row()(out[i]));
        }
    }
}

/// Whether a stamp comes no later in a newest-first order: a present stamp
/// before a missing one, later stamps first.
pub open spec fn newer_or_same(a: Option<i64>, b: Option<i64>) -> bool {
    match (a, b) {
        (_, None) => true,
        (None, Some(_)) => false,
        (Some(x), Some(y)) => x >= y,
    }
}

/// The recently played tracks: only played ones, the most recently played
/// first, at most `limit` of them when `limit` is not negative.
pub proof fn law_recent_order(rows: Seq<TrackRow>, limit: i64, res: Seq<Track>)
    requires
        is_listing(rows, played_row(), recent_key(), limit, res),
    ensures
        forall|i: int| 0 <= i < res.len() ==> (#[trigger] res[i]).last_played_at is Some,
        limit >= 0 ==> res.len() <= limit,
        forall|i: int, j: int|
            0 <= i < j < res.len() ==> (#[trigger] res[i]).last_played_at->0 >= (#[trigger] res[j]).last_played_at->0,
{
    let out = lemma_listing_rows(rows, played_row(), recent_key(), limit, res);
    assert forall|i: int| 0 <= i < res.len() implies (#[trigger] res[i]).last_played_at is Some by {
        assert(res[i] == track_of(out[i]) && played_row()(out[i]));
    }
    assert forall|i: int, j: int| 0 <= i < j < res.len() implies (#[trigger] res[i]).last_played_at->0
        >= (#[trigger] res[j]).last_played_at->0 by {
        assert(res[i] == track_of(out[i]) && played_row()(out[i]));
        assert(res[j] == track_of(out[j]) && played_row()(out[j]));
        let p = recent_key()(out[i]);
        let q = recent_key()(out[j]);
        assert(key_le(p, q));
        lemma_key_step(p, q);
    }
}

/// The most played tracks: only played ones, by play count from the
/// highest, ties by the latest play first, at most `limit` of them when
/// `limit` is not negative.
pub proof fn law_most_played_order(rows: Seq<TrackRow>, limit: i64, res: Seq<Track>)
    requires
        is_listing(rows, counted_row(), most_played_key(), limit, res),
    ensures
        forall|i: int| 0 <= i < res.len() ==> (#[trigger] res[i]).play_count > 0,
        limit >= 0 ==> res.len() <= limit,
        forall|i: int, j: int|
            0 <= i < j < res.len() ==> {
                let (x, y) = (#[trigger] res[i], #[trigger] res[j]);
                ||| x.play_count > y.play_count
                ||| (x.play_count == y.play_count && newer_or_same(x.last_played_at, y.last_played_at))
            },
{
    let out = lemma_listing_rows(rows, counted_row(), most_played_key(), limit, res);
    assert forall|i: int| 0 <= i < res.len() implies (#[trigger] res[i]).play_count > 0 by {
        assert(res[i] == track_of(out[i]) && counted_row()(out[i]));
    }
    assert forall|i: int, j: int| 0 <= i < j < res.len() implies {
        let (x, y) = (#[trigger] res[i], #[trigger] res[j]);
        ||| x.play_count > y.play_count
        ||| (x.play_count == y.play_count && newer_or_same(x.last_played_at, y.last_played_at))
    } by {
        assert(res[i] == track_of(out[i]) && res[j] == track_of(out[j]));
        let p = most_played_key()(out[i]);
        let q = most_played_key()(out[j]);
        assert(key_le(p, q));
        lemma_key_step(p, q);
        if part_order(p[0], q[0]) == 0 {
            let p1 = p.drop_first();
            let q1 = q.drop_first();
            lemma_key_step(p1, q1);
            assert(p1[0] == p[1] && q1[0] == q[1]);
        }
    }
}

/// The albums summary in order: by artist, then album, both ignoring ASCII
/// case.
pub proof fn law_album_summary_order(
    rows: Seq<TrackRow>,
    res: Seq<(String, String, i64, Option<String>, Option<i32>)>,
)
    requires
        is_album_summary(rows, res),
    ensures
        forall|i: int, j: int|
            0 <= i < j < res.len() ==> {
                let (x, y) = (#[trigger] res[i], #[trigger] res[j]);
                ||| text_order(fold_text(x.1@), fold_text(y.1@)) < 0
                ||| (fold_text(x.1@) == fold_text(y.1@) && text_order(fold_text(x.0@), fold_text(y.0@)) <= 0)
            },
{
    assert forall|i: int, j: int| 0 <= i < j < res.len() implies {
        let (x, y) = (#[trigger] res[i], #[trigger] res[j]);
        ||| text_order(fold_text(x.1@), fold_text(y.1@)) < 0
        ||| (fold_text(x.1@) == fold_text(y.1@) && text_order(fold_text(x.0@), fold_text(y.0@)) <= 0)
    } by {
        let p = album_group_key(res[i].0@, res[i].1@);
        let q = album_group_key(res[j].0@, res[j].1@);
        assert(key_le(p, q));
        lemma_text_part(fold_text(res[i].1@), fold_text(res[j].1@));
        lemma_key_step(p, q);
        if part_order(p[0], q[0]) == 0 {
            let p1 = p.drop_first();
            let q1 = q.drop_first();
            lemma_key_step(p1, q1);
            assert(p1[0] == p[1] && q1[0] == q[1]);
        }
    }
}

/// `MIN(year)`: the least year among the rows that have one, and none when
/// no row has one.
pub proof fn law_min_year_is_least(rows: Seq<TrackRow>)
    ensures
        forall|k: int| 0 <= k < rows.len() && (#[trigger] rows[k]).year is Some ==> min_year(rows) is Some
            && min_year(rows)->0 <= rows[k].year->0,
        min_year(rows) matches Some(m) ==> exists|k: int| 0 <= k < rows.len() && (#[trigger] rows[k]).year == Some(m),
        min_year(rows) is None ==> forall|k: int| 0 <= k < rows.len() ==> (#[trigger] rows[k]).year is None,
    decreases rows.len(),
{
    if rows.len() > 0 {
        let init = rows.drop_last();
        law_min_year_is_least(init);
        let n = rows.len() - 1;
        assert(rows[n] == rows.last());
        assert forall|k: int| 0 <= k < n implies #[trigger] rows[k] == init[k] by {}
        if let Some(m) = min_year(init) {
            let k = choose|k: int| 0 <= k < init.len() && (#[trigger] init[k]).year == Some(m);
            assert(rows[k] == init[k]);
        }
    }
}

/// `MIN(art_path)`: the least cover path (by code point) among the rows
/// that have one, and none when no row has one.
pub proof fn law_min_art_is_least(rows: Seq<TrackRow>)
    ensures
        forall|k: int| 0 <= k < rows.len() && (#[trigger] rows[k]).art_path is Some ==> min_art(rows) is Some
            && text_order(min_art(rows)->0, rows[k].art_path->0@) <= 0,
        min_art(rows) matches Some(m) ==> exists|k: int|
            0 <= k < rows.len() && opt_text((#[trigger] rows[k]).art_path) == Some(m),
        min_art(rows) is None ==> forall|k: int| 0 <= k < rows.len() ==> (#[trigger] rows[k]).art_path is None,
    decreases rows.len(),
{
    if rows.len() > 0 {
        let init = rows.drop_last();
        law_min_art_is_least(init);
        let n = rows.len() - 1;
        assert(rows[n] == rows.last());
        assert forall|k: int| 0 <= k < n implies #[trigger] rows[k] == init[k] by {}
        if let Some(m) = min_art(init) {
            let k = choose|k: int| 0 <= k < init.len() && opt_text((#[trigger] init[k]).art_path) == Some(m);
            assert(rows[k] == init[k]);
            if let Some(a) = rows[n].art_path {
                crate::order::lemma_text_order(a@, m, m);
                assert forall|k2: int| 0 <= k2 < rows.len() && (#[trigger] rows[k2]).art_path is Some implies text_order(
                    min_art(rows)->0,
                    rows[k2].art_path->0@,
                ) <= 0 by {
                    if k2 < n {
                        assert(rows[k2] == init[k2]);
                        crate::order::lemma_text_order(a@, m, rows[k2].art_path->0@);
                        crate::order::lemma_text_order(m, m, m);
                    } else {
                        crate::order::lemma_text_order(m, a@, a@);
                        crate::order::lemma_text_order(a@, a@, a@);
                    }
                }
            }
        } else if let Some(a) = rows[n].art_path {
            crate::order::lemma_text_order(a@, a@, a@);
        }
    }
}

} // verus!
