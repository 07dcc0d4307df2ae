//! The library's summaries: playlists with their sizes, artists and albums
//! with their counts, and the overall statistics.

use vstd::prelude::*;

use crate::db::{wf, Database, DbState, PlaylistEntry, PlaylistRow, TrackRow};
use crate::order::{
    key_le, key_order, key_view, keyed_sorted, lemma_insert_sorted, text_order, upper_bound, KeyPart,
    KeyValue, Part, Value,
};
use crate::queries::{album_row, artist_row, favorite_row, order_items, payload};
use crate::seq_facts::{lemma_filter_member, lemma_filter_take_step};
use crate::order::text_compare;
use crate::text::{chars_of, fold_text, folded_chars};

verus! {

pub open spec fn in_playlist(id: i64) -> spec_fn(PlaylistEntry) -> bool {
    |e: PlaylistEntry| e.playlist_id == id
}

/// How many entries a playlist has.
pub open spec fn entry_count(entries: Seq<PlaylistEntry>, id: i64) -> int {
    entries.filter(in_playlist(id)).len() as int
}

/// A playlist as the summary lists it: id, name, size, created, updated.
pub open spec fn playlist_line(st: DbState, p: PlaylistRow) -> (i64, String, i64, i64, i64) {
    (p.id, p.name, entry_count(st.entries, p.id) as i64, p.created_at, p.updated_at)
}

/// `ORDER BY updated_at DESC`
pub open spec fn updated_key() -> spec_fn(PlaylistRow) -> Seq<KeyPart> {
    |p: PlaylistRow| seq![KeyPart::Desc(KeyValue::Int(p.updated_at as int))]
}

/// `res` lists every playlist once with its size, most recently updated first
/// (equal stamps in any order).
pub open spec fn is_playlist_summary(st: DbState, res: Seq<(i64, String, i64, i64, i64)>) -> bool {
    exists|out: Seq<PlaylistRow>|
        {
            &&& #[trigger] out.to_multiset() == st.playlists.to_multiset()
            &&& (forall|i: int, j: int|
                0 <= i < j < out.len() ==> out[i].updated_at >= out[j].updated_at)
            &&& res == out.map_values(|p: PlaylistRow| playlist_line(st, p))
        }
}

/// Counts a playlist's entries.
fn count_entries(entries: &Vec<PlaylistEntry>, id: i64) -> (r: i64)
    requires
        entries@.len() < i64::MAX,
    ensures
        r == entry_count(entries@, id),
{
    let mut c: i64 = 0;
    let mut i: usize = 0;
    while i < entries.len()
        invariant
            0 <= i <= entries.len(),
            entries@.len() < i64::MAX,
            c == entries@.take(i as int).filter(in_playlist(id)).len(),
            c <= i,
        decreases entries.len() - i,
    {
        proof {
            lemma_filter_take_step(entries@, in_playlist(id), i as int);
        }
        if entries[i].playlist_id == id {
            c = c + 1;
        }
        i = i + 1;
    }
    assert(entries@.take(entries@.len() as int) =~= entries@);
    c
}

impl Database {
    /// Every playlist with its number of entries, most recently updated first.
    pub fn playlists(&self) -> (r: Vec<(i64, String, i64, i64, i64)>)
        requires
            wf(self@),
        ensures
            is_playlist_summary(self@, r@),
    {
        let rows = self.playlist_rows();
        let entries = self.entry_rows();
        let ghost st = self@;
        let ghost kf = updated_key();
        let mut items: Vec<(Vec<Part>, PlaylistRow)> = Vec::new();
        let mut i: usize = 0;
        while i < rows.len()
            invariant
                0 <= i <= rows.len(),
                kf == updated_key(),
                items@.map_values(payload::<PlaylistRow>()) == rows@.take(i as int),
                forall|k: int|
                    0 <= k < items@.len() ==> key_view(#[trigger] items@[k].0) == kf(items@[k].1),
            decreases rows.len() - i,
        {
            let key = vec![Part::Desc(Value::Int(rows[i].updated_at))];
            assert(key_view(key) =~= kf(rows@[i as int]));
            let ghost before = items@;
            items.push((key, rows[i].duplicate()));
            assert(items@.map_values(payload::<PlaylistRow>()) =~= before.map_values(
                payload::<PlaylistRow>(),
            ).push(rows@[i as int]));
            assert(rows@.take(i + 1) =~= rows@.take(i as int).push(rows@[i as int]));
            i = i + 1;
        }
        assert(rows@.take(rows@.len() as int) =~= rows@);
        let sorted = order_items(items, Ghost(kf));
        let ghost out = sorted@.map_values(payload::<PlaylistRow>());
        let mut res: Vec<(i64, String, i64, i64, i64)> = Vec::new();
        let mut i: usize = 0;
        while i < sorted.len()
            invariant
                0 <= i <= sorted@.len(),
                wf(st),
                entries@ == st.entries,
                out == sorted@.map_values(payload::<PlaylistRow>()),
                res@ == out.take(i as int).map_values(|p: PlaylistRow| playlist_line(st, p)),
            decreases sorted.len() - i,
        {
            let p = &sorted[i].1;
            let line = (p.id, p.name.clone(), count_entries(entries, p.id), p.created_at, p.updated_at);
            res.push(line);
            assert(res@ =~= out.take(i + 1).map_values(|p: PlaylistRow| playlist_line(st, p)));
            i = i + 1;
        }
        proof {
            assert(out.take(out.len() as int) =~= out);
            assert forall|a: int, b: int| 0 <= a < b < out.len() implies out[a].updated_at
                >= out[b].updated_at by {
                assert(key_le(kf(sorted@[a].1), kf(sorted@[b].1)));
                assert(kf(sorted@[a].1).drop_first() =~= Seq::<KeyPart>::empty());
                assert(kf(sorted@[b].1).drop_first() =~= Seq::<KeyPart>::empty());
            }
            assert(is_playlist_summary(st, res@));
        }
        res
    }
}


// ------------------------------------------------------------------ artists

pub open spec fn has_artist(rows: Seq<TrackRow>, a: Seq<char>) -> bool {
    exists|k: int| 0 <= k < rows.len() && (#[trigger] rows[k]).artist@ == a
}

/// `COUNT(*)` of an artist's group.
pub open spec fn artist_count(rows: Seq<TrackRow>, a: Seq<char>) -> int {
    rows.filter(artist_row(a)).len() as int
}

/// The distinct albums of an artist's tracks (`COUNT(DISTINCT album)` counts
/// them).
pub open spec fn artist_albums(rows: Seq<TrackRow>, a: Seq<char>) -> Set<Seq<char>> {
    Set::new(
        |al: Seq<char>|
            exists|k: int| 0 <= k < rows.len() && (#[trigger] rows[k]).artist@ == a && rows[k].album@ == al,
    )
}

/// `res` is `SELECT artist, COUNT(*), COUNT(DISTINCT album) FROM tracks GROUP
/// BY artist ORDER BY artist COLLATE NOCASE`: one line per distinct artist,
/// artists equal but for ASCII case in any order among themselves.
pub open spec fn is_artist_summary(rows: Seq<TrackRow>, res: Seq<(String, i64, i64)>) -> bool {
    &&& forall|i: int, j: int| 0 <= i < j < res.len() ==> (#[trigger] res[i]).0@ != (#[trigger] res[j]).0@
    &&& forall|a: Seq<char>|
        #[trigger] has_artist(rows, a) <==> exists|i: int| 0 <= i < res.len() && (#[trigger] res[i]).0@ == a
    &&& forall|i: int|
        0 <= i < res.len() ==> (#[trigger] res[i]).1 == artist_count(rows, res[i].0@) && res[i].2
            == artist_albums(rows, res[i].0@).len()
    &&& forall|i: int, j: int|
        0 <= i < j < res.len() ==> text_order(fold_text((#[trigger] res[i]).0@), fold_text((#[trigger] res[j]).0@)) <= 0
}

pub proof fn lemma_count_push(s: Seq<TrackRow>, r: TrackRow, a: Seq<char>)
    ensures
        artist_count(s.push(r), a) == artist_count(s, a) + (if r.artist@ == a { 1int } else { 0 }),
        artist_albums(s.push(r), a) == (if r.artist@ == a {
            artist_albums(s, a).insert(r.album@)
        } else {
            artist_albums(s, a)
        }),
        has_artist(s.push(r), a) == (has_artist(s, a) || r.artist@ == a),
{
    reveal(Seq::filter);
    assert(s.push(r).drop_last() =~= s);
    let t = s.push(r);
    if r.artist@ == a {
        assert forall|al: Seq<char>| #[trigger] artist_albums(t, a).contains(al) == artist_albums(s, a).insert(r.album@).contains(al) by {
            if artist_albums(s, a).contains(al) {
                let k = choose|k: int| 0 <= k < s.len() && (#[trigger] s[k]).artist@ == a && s[k].album@ == al;
                assert(t[k] == s[k]);
            }
            if al == r.album@ {
                assert(t[s.len() as int] == r);
            }
            if artist_albums(t, a).contains(al) {
                let k = choose|k: int| 0 <= k < t.len() && (#[trigger] t[k]).artist@ == a && t[k].album@ == al;
                if k < s.len() {
                    assert(s[k] == t[k]);
                }
            }
        }
        assert(artist_albums(t, a) =~= artist_albums(s, a).insert(r.album@));
        assert(t[s.len() as int] == r);
    } else {
        assert forall|al: Seq<char>| #[trigger] artist_albums(t, a).contains(al) == artist_albums(s, a).contains(al) by {
            if artist_albums(s, a).contains(al) {
                let k = choose|k: int| 0 <= k < s.len() && (#[trigger] s[k]).artist@ == a && s[k].album@ == al;
                assert(t[k] == s[k]);
            }
            if artist_albums(t, a).contains(al) {
                let k = choose|k: int| 0 <= k < t.len() && (#[trigger] t[k]).artist@ == a && t[k].album@ == al;
                assert(k < s.len());
                assert(s[k] == t[k]);
            }
        }
        assert(artist_albums(t, a) =~= artist_albums(s, a));
    }
    if has_artist(s, a) {
        let k = choose|k: int| 0 <= k < s.len() && (#[trigger] s[k]).artist@ == a;
        assert(t[k] == s[k]);
    }
    if has_artist(t, a) && r.artist@ != a {
        let k = choose|k: int| 0 <= k < t.len() && (#[trigger] t[k]).artist@ == a;
        assert(k < s.len());
        assert(s[k] == t[k]);
    }
    if r.artist@ == a {
        assert(t[s.len() as int] == r);
    }
}

pub proof fn lemma_absent_artist(s: Seq<TrackRow>, a: Seq<char>)
    requires
        !has_artist(s, a),
    ensures
        artist_count(s, a) == 0,
        artist_albums(s, a) == Set::<Seq<char>>::empty(),
{
    if s.filter(artist_row(a)).len() > 0 {
        lemma_filter_member(s, artist_row(a), 0);
        let k = choose|k: int| 0 <= k < s.len() && s[k] == s.filter(artist_row(a))[0];
        assert(s[k].artist@ == a);
    }
    assert(artist_albums(s, a) =~= Set::<Seq<char>>::empty());
}

struct ArtistAcc {
    name: String,
    count: i64,
    albums: Vec<String>,
}

spec fn text_views(v: Seq<String>) -> Seq<Seq<char>> {
    v.map_values(|s: String| s@)
}

spec fn name_key(name: Seq<char>) -> Seq<KeyPart> {
    seq![KeyPart::Asc(KeyValue::Text(fold_text(name)))]
}

spec fn artist_acc_ok(pre: Seq<TrackRow>, key: Vec<Part>, g: ArtistAcc) -> bool {
    &&& key_view(key) == name_key(g.name@)
    &&& g.count == artist_count(pre, g.name@)
    &&& text_views(g.albums@).no_duplicates()
    &&& text_views(g.albums@).to_set() == artist_albums(pre, g.name@)
    &&& g.albums@.len() <= g.count
    &&& has_artist(pre, g.name@)
}

spec fn artist_groups_ok(pre: Seq<TrackRow>, gs: Seq<(Vec<Part>, ArtistAcc)>) -> bool {
    &&& keyed_sorted(gs)
    &&& forall|g: int| 0 <= g < gs.len() ==> artist_acc_ok(pre, (#[trigger] gs[g]).0, gs[g].1)
    &&& forall|g: int, h: int| 0 <= g < gs.len() && 0 <= h < gs.len() && g != h ==> (#[trigger] gs[g]).1.name@ != (#[trigger] gs[h]).1.name@
    &&& forall|a: Seq<char>| has_artist(pre, a) ==> exists|g: int| 0 <= g < gs.len() && (#[trigger] gs[g]).1.name@ == a
}

fn find_name(v: &Vec<String>, x: &String) -> (r: Option<usize>)
    ensures
        r matches Some(k) ==> k < v@.len() && v@[k as int]@ == x@,
        r is None ==> forall|k: int| 0 <= k < v@.len() ==> v@[k]@ != x@,
{
    let mut i: usize = 0;
    while i < v.len()
        invariant
            0 <= i <= v.len(),
            forall|k: int| 0 <= k < i ==> v@[k]@ != x@,
        decreases v.len() - i,
    {
        if v[i] == *x {
            return Some(i);
        }
        i = i + 1;
    }
    None
}

fn find_artist(gs: &Vec<(Vec<Part>, ArtistAcc)>, x: &String) -> (r: Option<usize>)
    ensures
        r matches Some(k) ==> k < gs@.len() && gs@[k as int].1.name@ == x@,
        r is None ==> forall|k: int| 0 <= k < gs@.len() ==> gs@[k].1.name@ != x@,
{
    let mut i: usize = 0;
    while i < gs.len()
        invariant
            0 <= i <= gs.len(),
            forall|k: int| 0 <= k < i ==> gs@[k].1.name@ != x@,
        decreases gs.len() - i,
    {
        if gs[i].1.name == *x {
            return Some(i);
        }
        i = i + 1;
    }
    None
}

impl Database {
    /// Every artist with its number of tracks and of distinct albums, by
    /// artist name ignoring ASCII case.
    pub fn artists(&self) -> (r: Vec<(String, i64, i64)>)
        requires
            wf(self@),
        ensures
            is_artist_summary(self@.tracks, r@),
    {
        let rows = self.track_rows();
        let ghost st = self@;
        let mut gs: Vec<(Vec<Part>, ArtistAcc)> = Vec::new();
        let mut i: usize = 0;
        while i < rows.len()
            invariant
                0 <= i <= rows.len(),
                rows@ == st.tracks,
                wf(st),
                artist_groups_ok(rows@.take(i as int), gs@),
                forall|g: int| 0 <= g < gs@.len() ==> (#[trigger] gs@[g]).1.count <= i,
            decreases rows.len() - i,
        {
            let r = &rows[i];
            let ghost pre = rows@.take(i as int);
            let ghost post = rows@.take(i + 1);
            assert(post =~= pre.push(rows@[i as int]));
            match find_artist(&gs, &r.artist) {
                Some(g) => {
                    let ghost before = gs@;
                    let found_album = find_name(&gs[g].1.albums, &r.album);
                    assert(gs@[g as int].1.count <= i);
                    gs[g].1.count = gs[g].1.count + 1;
                    match found_album {
                        Some(_) => {},
                        None => {
                            gs[g].1.albums.push(r.album.clone());
                        },
                    }
                    proof {
                        let name = before[g as int].1.name@;
                        lemma_count_push(pre, rows@[i as int], name);
                        assert(gs@.len() == before.len());
                        assert forall|h: int| 0 <= h < gs@.len() && h != g implies #[trigger] gs@[h] == before[h] by {}
                        let old_albums = text_views(before[g as int].1.albums@);
                        let new_albums = text_views(gs@[g as int].1.albums@);
                        match found_album {
                            Some(k) => {
                                assert(new_albums == old_albums);
                                assert(old_albums[k as int] == r.album@);
                                assert(old_albums.to_set().contains(r.album@));
                                assert(artist_albums(post, name) =~= artist_albums(pre, name));
                            },
                            None => {
                                assert(new_albums =~= old_albums.push(r.album@));
                                assert(!old_albums.contains(r.album@));
                                assert(new_albums.to_set() =~= old_albums.to_set().insert(r.album@)) by {
                                    old_albums.lemma_push_to_set_commute(r.album@);
                                }
                            },
                        }
                        assert(artist_acc_ok(post, gs@[g as int].0, gs@[g as int].1));
                        assert forall|h: int| 0 <= h < gs@.len() implies artist_acc_ok(post, (#[trigger] gs@[h]).0, gs@[h].1) by {
                            if h != g {
                                assert(gs@[h].1.name@ != name);
                                lemma_count_push(pre, rows@[i as int], gs@[h].1.name@);
                            }
                        }
                        assert forall|a: Seq<char>| has_artist(post, a) implies exists|h: int| 0 <= h < gs@.len() && (#[trigger] gs@[h]).1.name@ == a by {
                            lemma_count_push(pre, rows@[i as int], a);
                            if has_artist(pre, a) {
                                let h = choose|h: int| 0 <= h < before.len() && (#[trigger] before[h]).1.name@ == a;
                                assert(gs@[h].1.name@ == a);
                            } else {
                                assert(gs@[g as int].1.name@ == a);
                            }
                        }
                        assert(keyed_sorted(gs@)) by {
                            assert forall|x: int, y: int| 0 <= x < y < gs@.len() implies key_le(
                                key_view(#[trigger] gs@[x].0),
                                key_view(#[trigger] gs@[y].0),
                            ) by {
                                assert(gs@[x].0 == before[x].0);
                                assert(gs@[y].0 == before[y].0);
                            }
                        }
                    }
                },
                None => {
                    let name = r.artist.clone();
                    let key = vec![Part::Asc(Value::Text(folded_chars(name.as_str())))];
                    let mut albums: Vec<String> = Vec::new();
                    albums.push(r.album.clone());
                    let acc = ArtistAcc { name, count: 1, albums };
                    let ghost before = gs@;
                    proof {
                        assert(!has_artist(pre, r.artist@));
                        lemma_absent_artist(pre, r.artist@);
                        lemma_count_push(pre, rows@[i as int], r.artist@);
                        assert(key_view(key) =~= name_key(acc.name@));
                        let av = text_views(acc.albums@);
                        assert(av =~= seq![r.album@]);
                        assert(av.to_set() =~= Set::<Seq<char>>::empty().insert(r.album@)) by {
                            assert(av =~= Seq::<Seq<char>>::empty().push(r.album@));
                            Seq::<Seq<char>>::empty().lemma_push_to_set_commute(r.album@);
                            assert(Seq::<Seq<char>>::empty().to_set() =~= Set::<Seq<char>>::empty());
                        }
                        assert(artist_acc_ok(post, key, acc));
                    }
                    let p = upper_bound(&gs, &key);
                    proof {
                        lemma_insert_sorted(before, p as int, (key, acc));
                        before.insert_ensures(p as int, (key, acc));
                    }
                    gs.insert(p, (key, acc));
                    proof {
                        assert forall|h: int| 0 <= h < gs@.len() implies artist_acc_ok(post, (#[trigger] gs@[h]).0, gs@[h].1) by {
                            if h != p {
                                let o = if h < p { h } else { h - 1 };
                                assert(gs@[h] == before[o]);
                                assert(before[o].1.name@ != r.artist@);
                                lemma_count_push(pre, rows@[i as int], before[o].1.name@);
                            }
                        }
                        assert forall|x: int, y: int| 0 <= x < gs@.len() && 0 <= y < gs@.len() && x != y implies (#[trigger] gs@[x]).1.name@ != (#[trigger] gs@[y]).1.name@ by {
                            if x != p && y != p {
                                let ox = if x < p { x } else { x - 1 };
                                let oy = if y < p { y } else { y - 1 };
                                assert(gs@[x] == before[ox]);
                                assert(gs@[y] == before[oy]);
                            } else if x == p {
                                let oy = if y < p { y } else { y - 1 };
                                assert(gs@[y] == before[oy]);
                            } else {
                                let ox = if x < p { x } else { x - 1 };
                                assert(gs@[x] == before[ox]);
                            }
                        }
                        assert forall|a: Seq<char>| has_artist(post, a) implies exists|h: int| 0 <= h < gs@.len() && (#[trigger] gs@[h]).1.name@ == a by {
                            lemma_count_push(pre, rows@[i as int], a);
                            if has_artist(pre, a) {
                                let o = choose|o: int| 0 <= o < before.len() && (#[trigger] before[o]).1.name@ == a;
                                let h = if o < p { o } else { o + 1 };
                                assert(gs@[h] == before[o]);
                            } else {
                                assert(gs@[p as int].1.name@ == a);
                            }
                        }
                        assert forall|g: int| 0 <= g < gs@.len() implies (#[trigger] gs@[g]).1.count <= i + 1 by {
                            if g != p {
                                let o = if g < p { g } else { g - 1 };
                                assert(gs@[g] == before[o]);
                            }
                        }
                    }
                },
            }
            i = i + 1;
        }
        assert(rows@.take(rows@.len() as int) =~= rows@);
        let mut res: Vec<(String, i64, i64)> = Vec::new();
        let mut k: usize = 0;
        while k < gs.len()
            invariant
                0 <= k <= gs.len(),
                rows@ == st.tracks,
                wf(st),
                artist_groups_ok(rows@, gs@),
                forall|g: int| 0 <= g < gs@.len() ==> (#[trigger] gs@[g]).1.count <= rows@.len(),
                res@.len() == k,
                forall|j: int| 0 <= j < k ==> {
                    &&& (#[trigger] res@[j]).0 == gs@[j].1.name
                    &&& res@[j].1 == gs@[j].1.count
                    &&& res@[j].2 == gs@[j].1.albums@.len()
                },
            decreases gs.len() - k,
        {
            assert(artist_acc_ok(rows@, gs@[k as int].0, gs@[k as int].1));
            let line = (gs[k].1.name.clone(), gs[k].1.count, gs[k].1.albums.len() as i64);
            res.push(line);
            k = k + 1;
        }
        proof {
            assert forall|j: int| 0 <= j < res@.len() implies (#[trigger] res@[j]).1 == artist_count(rows@, res@[j].0@) && res@[j].2
                == artist_albums(rows@, res@[j].0@).len() by {
                assert(artist_acc_ok(rows@, gs@[j].0, gs@[j].1));
                text_views(gs@[j].1.albums@).unique_seq_to_set();
            }
            assert forall|x: int, y: int| 0 <= x < y < res@.len() implies text_order(fold_text((#[trigger] res@[x]).0@), fold_text((#[trigger] res@[y]).0@)) <= 0 by {
                assert(key_le(key_view(gs@[x].0), key_view(gs@[y].0)));
                assert(artist_acc_ok(rows@, gs@[x].0, gs@[x].1));
                assert(artist_acc_ok(rows@, gs@[y].0, gs@[y].1));
                assert(name_key(gs@[x].1.name@).drop_first() =~= Seq::<KeyPart>::empty());
                assert(name_key(gs@[y].1.name@).drop_first() =~= Seq::<KeyPart>::empty());
            }
            assert forall|a: Seq<char>| #[trigger] has_artist(rows@, a) <==> exists|j: int| 0 <= j < res@.len() && (#[trigger] res@[j]).0@ == a by {
                if has_artist(rows@, a) {
                    let g = choose|g: int| 0 <= g < gs@.len() && (#[trigger] gs@[g]).1.name@ == a;
                    assert(res@[g].0@ == a);
                }
                if exists|j: int| 0 <= j < res@.len() && (#[trigger] res@[j]).0@ == a {
                    let j = choose|j: int| 0 <= j < res@.len() && (#[trigger] res@[j]).0@ == a;
                    assert(artist_acc_ok(rows@, gs@[j].0, gs@[j].1));
                }
            }
            assert forall|x: int, y: int| 0 <= x < y < res@.len() implies (#[trigger] res@[x]).0@ != (#[trigger] res@[y]).0@ by {
                assert(gs@[x].1.name@ != gs@[y].1.name@);
            }
        }
        res
    }
}


// ------------------------------------------------------------------- albums

pub open spec fn has_album(rows: Seq<TrackRow>, al: Seq<char>, ar: Seq<char>) -> bool {
    exists|k: int| 0 <= k < rows.len() && (#[trigger] rows[k]).album@ == al && rows[k].artist@ == ar
}

/// The tracks of one `GROUP BY album, artist` group, in table order.
pub open spec fn album_group(rows: Seq<TrackRow>, al: Seq<char>, ar: Seq<char>) -> Seq<TrackRow> {
    rows.filter(album_row(al, ar))
}

pub open spec fn opt_text(o: Option<String>) -> Option<Seq<char>> {
    match o {
        Some(s) => Some(s@),
        None => None,
    }
}

/// `MIN` of two nullable texts: NULLs are skipped, texts compare by code point.
pub open spec fn min_text(a: Option<Seq<char>>, b: Option<Seq<char>>) -> Option<Seq<char>> {
    match (a, b) {
        (None, x) => x,
        (x, None) => x,
        (Some(x), Some(y)) => if text_order(y, x) < 0 {
            Some(y)
        } else {
            Some(x)
        },
    }
}

pub open spec fn min_int(a: Option<i32>, b: Option<i32>) -> Option<i32> {
    match (a, b) {
        (None, x) => x,
        (x, None) => x,
        (Some(x), Some(y)) => if y < x {
            Some(y)
        } else {
            Some(x)
        },
    }
}

/// `MIN(art_path)` over rows.
pub open spec fn min_art(rows: Seq<TrackRow>) -> Option<Seq<char>>
    decreases rows.len(),
{
    if rows.len() == 0 {
        None
    } else {
        min_text(min_art(rows.drop_last()), opt_text(rows.last().art_path))
    }
}

/// `MIN(year)` over rows.
pub open spec fn min_year(rows: Seq<TrackRow>) -> Option<i32>
    decreases rows.len(),
{
    if rows.len() == 0 {
        None
    } else {
        min_int(min_year(rows.drop_last()), rows.last().year)
    }
}

/// `ORDER BY artist COLLATE NOCASE, album COLLATE NOCASE`
pub open spec fn album_group_key(al: Seq<char>, ar: Seq<char>) -> Seq<KeyPart> {
    seq![KeyPart::Asc(KeyValue::Text(fold_text(ar))), KeyPart::Asc(KeyValue::Text(fold_text(al)))]
}

/// `res` is `SELECT album, artist, COUNT(*), MIN(art_path), MIN(year) FROM
/// tracks GROUP BY album, artist ORDER BY artist COLLATE NOCASE, album COLLATE
/// NOCASE`: one line per distinct (album, artist), groups that tie in the
/// order in any order among themselves.
pub open spec fn is_album_summary(
    rows: Seq<TrackRow>,
    res: Seq<(String, String, i64, Option<String>, Option<i32>)>,
) -> bool {
    &&& forall|i: int, j: int|
        0 <= i < j < res.len() ==> !((#[trigger] res[i]).0@ == (#[trigger] res[j]).0@ && res[i].1@
            == res[j].1@)
    &&& forall|al: Seq<char>, ar: Seq<char>|
        #[trigger] has_album(rows, al, ar) <==> exists|i: int|
            0 <= i < res.len() && (#[trigger] res[i]).0@ == al && res[i].1@ == ar
    &&& forall|i: int|
        0 <= i < res.len() ==> {
            let g = album_group(rows, (#[trigger] res[i]).0@, res[i].1@);
            &&& res[i].2 == g.len()
            &&& opt_text(res[i].3) == min_art(g)
            &&& res[i].4 == min_year(g)
        }
    &&& forall|i: int, j: int|
        0 <= i < j < res.len() ==> key_le(
            album_group_key((#[trigger] res[i]).0@, res[i].1@),
            album_group_key((#[trigger] res[j]).0@, res[j].1@),
        )
}

pub proof fn lemma_album_push(s: Seq<TrackRow>, r: TrackRow, al: Seq<char>, ar: Seq<char>)
    ensures
        album_group(s.push(r), al, ar) == (if r.album@ == al && r.artist@ == ar {
            album_group(s, al, ar).push(r)
        } else {
            album_group(s, al, ar)
        }),
        has_album(s.push(r), al, ar) == (has_album(s, al, ar) || (r.album@ == al && r.artist@ == ar)),
{
    reveal(Seq::filter);
    let t = s.push(r);
    assert(t.drop_last() =~= s);
    if has_album(s, al, ar) {
        let k = choose|k: int| 0 <= k < s.len() && (#[trigger] s[k]).album@ == al && s[k].artist@ == ar;
        assert(t[k] == s[k]);
    }
    if has_album(t, al, ar) && !(r.album@ == al && r.artist@ == ar) {
        let k = choose|k: int| 0 <= k < t.len() && (#[trigger] t[k]).album@ == al && t[k].artist@ == ar;
        assert(k < s.len());
        assert(s[k] == t[k]);
    }
    if r.album@ == al && r.artist@ == ar {
        assert(t[s.len() as int] == r);
    }
}

pub proof fn lemma_absent_album(s: Seq<TrackRow>, al: Seq<char>, ar: Seq<char>)
    requires
        !has_album(s, al, ar),
    ensures
        album_group(s, al, ar).len() == 0,
{
    if album_group(s, al, ar).len() > 0 {
        lemma_filter_member(s, album_row(al, ar), 0);
        let k = choose|k: int| 0 <= k < s.len() && s[k] == s.filter(album_row(al, ar))[0];
        assert(s[k].album@ == al);
    }
}

struct AlbumAcc {
    album: String,
    artist: String,
    count: i64,
    art: Option<String>,
    year: Option<i32>,
}

spec fn album_acc_ok(pre: Seq<TrackRow>, key: Vec<Part>, g: AlbumAcc) -> bool {
    let grp = album_group(pre, g.album@, g.artist@);
    &&& key_view(key) == album_group_key(g.album@, g.artist@)
    &&& g.count == grp.len()
    &&& opt_text(g.art) == min_art(grp)
    &&& g.year == min_year(grp)
    &&& has_album(pre, g.album@, g.artist@)
}

spec fn album_groups_ok(pre: Seq<TrackRow>, gs: Seq<(Vec<Part>, AlbumAcc)>) -> bool {
    &&& keyed_sorted(gs)
    &&& forall|g: int| 0 <= g < gs.len() ==> album_acc_ok(pre, (#[trigger] gs[g]).0, gs[g].1)
    &&& forall|g: int, h: int|
        0 <= g < gs.len() && 0 <= h < gs.len() && g != h ==> !((#[trigger] gs[g]).1.album@
            == (#[trigger] gs[h]).1.album@ && gs[g].1.artist@ == gs[h].1.artist@)
    &&& forall|al: Seq<char>, ar: Seq<char>|
        has_album(pre, al, ar) ==> exists|g: int|
            0 <= g < gs.len() && (#[trigger] gs[g]).1.album@ == al && gs[g].1.artist@ == ar
}

fn find_album(gs: &Vec<(Vec<Part>, AlbumAcc)>, al: &String, ar: &String) -> (r: Option<usize>)
    ensures
        r matches Some(k) ==> k < gs@.len() && gs@[k as int].1.album@ == al@ && gs@[k as int].1.artist@
            == ar@,
        r is None ==> forall|k: int|
            0 <= k < gs@.len() ==> !(gs@[k].1.album@ == al@ && gs@[k].1.artist@ == ar@),
{
    let mut i: usize = 0;
    while i < gs.len()
        invariant
            0 <= i <= gs.len(),
            forall|k: int| 0 <= k < i ==> !(gs@[k].1.album@ == al@ && gs@[k].1.artist@ == ar@),
        decreases gs.len() - i,
    {
        if gs[i].1.album == *al && gs[i].1.artist == *ar {
            return Some(i);
        }
        i = i + 1;
    }
    None
}

/// `MIN` of a running minimum and one more nullable text.
fn min_text_exec(a: &Option<String>, b: &Option<String>) -> (r: Option<String>)
    ensures
        opt_text(r) == min_text(opt_text(*a), opt_text(*b)),
{
    match (a, b) {
        (None, x) => crate::db::clone_text(x),
        (Some(x), None) => Some(x.clone()),
        (Some(x), Some(y)) => {
            if text_compare(&chars_of(y.as_str()), &chars_of(x.as_str())) < 0 {
                Some(y.clone())
            } else {
                Some(x.clone())
            }
        },
    }
}

fn min_int_exec(a: Option<i32>, b: Option<i32>) -> (r: Option<i32>)
    ensures
        r == min_int(a, b),
{
    match (a, b) {
        (None, x) => x,
        (x, None) => x,
        (Some(x), Some(y)) => if y < x {
            Some(y)
        } else {
            Some(x)
        },
    }
}

impl Database {
    /// Every (album, artist) pair with its number of tracks, its least art path
    /// and its least year, by artist then album ignoring ASCII case.
    pub fn albums(&self) -> (r: Vec<(String, String, i64, Option<String>, Option<i32>)>)
        requires
            wf(self@),
        ensures
            is_album_summary(self@.tracks, r@),
    {
        let rows = self.track_rows();
        let ghost st = self@;
        let mut gs: Vec<(Vec<Part>, AlbumAcc)> = Vec::new();
        let mut i: usize = 0;
        while i < rows.len()
            invariant
                0 <= i <= rows.len(),
                rows@ == st.tracks,
                wf(st),
                album_groups_ok(rows@.take(i as int), gs@),
                forall|g: int| 0 <= g < gs@.len() ==> (#[trigger] gs@[g]).1.count <= i,
            decreases rows.len() - i,
        {
            let r = &rows[i];
            let ghost pre = rows@.take(i as int);
            let ghost post = rows@.take(i + 1);
            assert(post =~= pre.push(rows@[i as int]));
            match find_album(&gs, &r.album, &r.artist) {
                Some(g) => {
                    let ghost before = gs@;
                    assert(gs@[g as int].1.count <= i);
                    let art = min_text_exec(&gs[g].1.art, &r.art_path);
                    let year = min_int_exec(gs[g].1.year, r.year);
                    gs[g].1.count = gs[g].1.count + 1;
                    gs[g].1.art = art;
                    gs[g].1.year = year;
                    proof {
                        let al = before[g as int].1.album@;
                        let ar = before[g as int].1.artist@;
                        lemma_album_push(pre, rows@[i as int], al, ar);
                        let grp = album_group(pre, al, ar);
                        assert(grp.push(rows@[i as int]).drop_last() =~= grp);
                        assert(gs@.len() == before.len());
                        assert forall|h: int| 0 <= h < gs@.len() && h != g implies #[trigger] gs@[h] == before[h] by {}
                        assert(album_acc_ok(post, gs@[g as int].0, gs@[g as int].1));
                        assert forall|h: int| 0 <= h < gs@.len() implies album_acc_ok(post, (#[trigger] gs@[h]).0, gs@[h].1) by {
                            if h != g {
                                lemma_album_push(pre, rows@[i as int], gs@[h].1.album@, gs@[h].1.artist@);
                            }
                        }
                        assert forall|x: Seq<char>, y: Seq<char>| has_album(post, x, y) implies exists|h: int|
                            0 <= h < gs@.len() && (#[trigger] gs@[h]).1.album@ == x && gs@[h].1.artist@ == y by {
                            lemma_album_push(pre, rows@[i as int], x, y);
                            if has_album(pre, x, y) {
                                let h = choose|h: int| 0 <= h < before.len() && (#[trigger] before[h]).1.album@ == x && before[h].1.artist@ == y;
                                assert(gs@[h].1.album@ == x);
                            } else {
                                assert(gs@[g as int].1.album@ == x);
                            }
                        }
                        assert(keyed_sorted(gs@)) by {
                            assert forall|x: int, y: int| 0 <= x < y < gs@.len() implies key_le(
                                key_view(#[trigger] gs@[x].0),
                                key_view(#[trigger] gs@[y].0),
                            ) by {
                                assert(gs@[x].0 == before[x].0);
                                assert(gs@[y].0 == before[y].0);
                            }
                        }
                    }
                },
                None => {
                    let key = vec![
                        Part::Asc(Value::Text(folded_chars(r.artist.as_str()))),
                        Part::Asc(Value::Text(folded_chars(r.album.as_str()))),
                    ];
                    let acc = AlbumAcc {
                        album: r.album.clone(),
                        artist: r.artist.clone(),
                        count: 1,
                        art: crate::db::clone_text(&r.art_path),
                        year: r.year,
                    };
                    let ghost before = gs@;
                    proof {
                        assert(!has_album(pre, r.album@, r.artist@));
                        lemma_absent_album(pre, r.album@, r.artist@);
                        lemma_album_push(pre, rows@[i as int], r.album@, r.artist@);
                        let grp = album_group(pre, r.album@, r.artist@);
                        assert(grp =~= Seq::<TrackRow>::empty());
                        assert(grp.push(rows@[i as int]).drop_last() =~= grp);
                        assert(key_view(key) =~= album_group_key(acc.album@, acc.artist@));
                        let g1 = album_group(post, acc.album@, acc.artist@);
                        assert(g1 == grp.push(rows@[i as int]));
                        assert(g1.len() == 1);
                        assert(min_art(grp) == None::<Seq<char>>);
                        assert(min_year(grp) == None::<i32>);
                        assert(g1.drop_last() =~= grp);
                        assert(g1.last() == rows@[i as int]);
                        assert(opt_text(acc.art) == min_art(g1));
                        assert(acc.year == min_year(g1));
                        assert(has_album(post, acc.album@, acc.artist@));
                        assert(album_acc_ok(post, key, acc));
                    }
                    let p = upper_bound(&gs, &key);
                    proof {
                        lemma_insert_sorted(before, p as int, (key, acc));
                        before.insert_ensures(p as int, (key, acc));
                    }
                    gs.insert(p, (key, acc));
                    proof {
                        assert forall|h: int| 0 <= h < gs@.len() implies album_acc_ok(post, (#[trigger] gs@[h]).0, gs@[h].1) by {
                            if h != p {
                                let o = if h < p { h } else { h - 1 };
                                assert(gs@[h] == before[o]);
                                lemma_album_push(pre, rows@[i as int], before[o].1.album@, before[o].1.artist@);
                            }
                        }
                        assert forall|x: int, y: int| 0 <= x < gs@.len() && 0 <= y < gs@.len() && x != y implies !((#[trigger] gs@[x]).1.album@
                            == (#[trigger] gs@[y]).1.album@ && gs@[x].1.artist@ == gs@[y].1.artist@) by {
                            if x != p && y != p {
                                let ox = if x < p { x } else { x - 1 };
                                let oy = if y < p { y } else { y - 1 };
                                assert(gs@[x] == before[ox]);
                                assert(gs@[y] == before[oy]);
                            } else if x == p {
                                let oy = if y < p { y } else { y - 1 };
                                assert(gs@[y] == before[oy]);
                            } else {
                                let ox = if x < p { x } else { x - 1 };
                                assert(gs@[x] == before[ox]);
                            }
                        }
                        assert forall|a: Seq<char>, b: Seq<char>| has_album(post, a, b) implies exists|h: int|
                            0 <= h < gs@.len() && (#[trigger] gs@[h]).1.album@ == a && gs@[h].1.artist@ == b by {
                            lemma_album_push(pre, rows@[i as int], a, b);
                            if has_album(pre, a, b) {
                                let o = choose|o: int| 0 <= o < before.len() && (#[trigger] before[o]).1.album@ == a && before[o].1.artist@ == b;
                                let h = if o < p { o } else { o + 1 };
                                assert(gs@[h] == before[o]);
                            } else {
                                assert(gs@[p as int].1.album@ == a);
                            }
                        }
                        assert forall|g: int| 0 <= g < gs@.len() implies (#[trigger] gs@[g]).1.count <= i + 1 by {
                            if g != p {
                                let o = if g < p { g } else { g - 1 };
                                assert(gs@[g] == before[o]);
                            }
                        }
                    }
                },
            }
            i = i + 1;
        }
        assert(rows@.take(rows@.len() as int) =~= rows@);
        let mut res: Vec<(String, String, i64, Option<String>, Option<i32>)> = Vec::new();
        let mut k: usize = 0;
        while k < gs.len()
            invariant
                0 <= k <= gs.len(),
                album_groups_ok(rows@, gs@),
                res@.len() == k,
                forall|j: int| 0 <= j < k ==> {
                    &&& (#[trigger] res@[j]).0 == gs@[j].1.album
                    &&& res@[j].1 == gs@[j].1.artist
                    &&& res@[j].2 == gs@[j].1.count
                    &&& res@[j].3 == gs@[j].1.art
                    &&& res@[j].4 == gs@[j].1.year
                },
            decreases gs.len() - k,
        {
            let g = &gs[k].1;
            let line = (g.album.clone(), g.artist.clone(), g.count, crate::db::clone_text(&g.art), g.year);
            res.push(line);
            k = k + 1;
        }
        proof {
            assert forall|j: int| 0 <= j < res@.len() implies {
                let g = album_group(rows@, (#[trigger] res@[j]).0@, res@[j].1@);
                &&& res@[j].2 == g.len()
                &&& opt_text(res@[j].3) == min_art(g)
                &&& res@[j].4 == min_year(g)
            } by {
                assert(album_acc_ok(rows@, gs@[j].0, gs@[j].1));
            }
            assert forall|x: int, y: int| 0 <= x < y < res@.len() implies key_le(
                album_group_key((#[trigger] res@[x]).0@, res@[x].1@),
                album_group_key((#[trigger] res@[y]).0@, res@[y].1@),
            ) by {
                assert(key_le(key_view(gs@[x].0), key_view(gs@[y].0)));
                assert(album_acc_ok(rows@, gs@[x].0, gs@[x].1));
                assert(album_acc_ok(rows@, gs@[y].0, gs@[y].1));
            }
            assert forall|a: Seq<char>, b: Seq<char>| #[trigger] has_album(rows@, a, b) <==> exists|j: int|
                0 <= j < res@.len() && (#[trigger] res@[j]).0@ == a && res@[j].1@ == b by {
                if has_album(rows@, a, b) {
                    let g = choose|g: int| 0 <= g < gs@.len() && (#[trigger] gs@[g]).1.album@ == a && gs@[g].1.artist@ == b;
                    assert(res@[g].0@ == a);
                }
                if exists|j: int| 0 <= j < res@.len() && (#[trigger] res@[j]).0@ == a && res@[j].1@ == b {
                    let j = choose|j: int| 0 <= j < res@.len() && (#[trigger] res@[j]).0@ == a && res@[j].1@ == b;
                    assert(album_acc_ok(rows@, gs@[j].0, gs@[j].1));
                }
            }
            assert forall|x: int, y: int| 0 <= x < y < res@.len() implies !((#[trigger] res@[x]).0@ == (#[trigger] res@[y]).0@ && res@[x].1@
                == res@[y].1@) by {
                assert(!(gs@[x].1.album@ == gs@[y].1.album@ && gs@[x].1.artist@ == gs@[y].1.artist@));
            }
        }
        res
    }
}


// -------------------------------------------------------------------- stats

/// `album || '|' || artist`
pub open spec fn album_tag(r: TrackRow) -> Seq<char> {
    r.album@ + seq!['|'] + r.artist@
}

pub open spec fn album_tags(rows: Seq<TrackRow>) -> Set<Seq<char>> {
    Set::new(|c: Seq<char>| exists|k: int| 0 <= k < rows.len() && album_tag(#[trigger] rows[k]) == c)
}

pub open spec fn artist_names(rows: Seq<TrackRow>) -> Set<Seq<char>> {
    Set::new(|a: Seq<char>| has_artist(rows, a))
}

/// `COUNT(*)`, `COUNT(DISTINCT album || '|' || artist)`, `COUNT(DISTINCT
/// artist)` and `COUNT(*) WHERE favorite = 1` over the tracks.
pub open spec fn stats_of(rows: Seq<TrackRow>) -> (int, int, int, int) {
    (
        rows.len() as int,
        album_tags(rows).len() as int,
        artist_names(rows).len() as int,
        rows.filter(favorite_row()).len() as int,
    )
}

proof fn lemma_tags_push(s: Seq<TrackRow>, r: TrackRow)
    ensures
        album_tags(s.push(r)) == album_tags(s).insert(album_tag(r)),
{
    let t = s.push(r);
    assert forall|c: Seq<char>| #[trigger] album_tags(t).contains(c) == album_tags(s).insert(album_tag(r)).contains(c) by {
        if album_tags(s).contains(c) {
            let k = choose|k: int| 0 <= k < s.len() && album_tag(#[trigger] s[k]) == c;
            assert(t[k] == s[k]);
        }
        if c == album_tag(r) {
            assert(t[s.len() as int] == r);
        }
        if album_tags(t).contains(c) {
            let k = choose|k: int| 0 <= k < t.len() && album_tag(#[trigger] t[k]) == c;
            if k < s.len() {
                assert(s[k] == t[k]);
            }
        }
    }
    assert(album_tags(t) =~= album_tags(s).insert(album_tag(r)));
}

impl Database {
    /// (tracks, albums, artists, favorites): the number of tracks, of distinct
    /// `album|artist` texts, of distinct artists and of favorites.
    pub fn stats(&self) -> (r: (i64, i64, i64, i64))
        requires
            wf(self@),
        ensures
            (r.0 as int, r.1 as int, r.2 as int, r.3 as int) == stats_of(self@.tracks),
    {
        let rows = self.track_rows();
        let ghost st = self@;
        // distinct album tags
        let mut tags: Vec<String> = Vec::new();
        let mut favorites: i64 = 0;
        let mut i: usize = 0;
        while i < rows.len()
            invariant
                0 <= i <= rows.len(),
                rows@ == st.tracks,
                wf(st),
                text_views(tags@).no_duplicates(),
                text_views(tags@).to_set() == album_tags(rows@.take(i as int)),
                tags@.len() <= i,
                favorites == rows@.take(i as int).filter(favorite_row()).len(),
                favorites <= i,
            decreases rows.len() - i,
        {
            let r = &rows[i];
            let ghost pre = rows@.take(i as int);
            assert(rows@.take(i + 1) =~= pre.push(rows@[i as int]));
            proof {
                lemma_filter_take_step(rows@, favorite_row(), i as int);
                lemma_tags_push(pre, rows@[i as int]);
                reveal_strlit("|");
            }
            if r.favorite == 1 {
                favorites = favorites + 1;
            }
            let mut tag = r.album.clone();
            tag.append("|");
            tag.append(r.artist.as_str());
            assert(tag@ == album_tag(rows@[i as int]));
            match find_name(&tags, &tag) {
                Some(k) => {
                    assert(text_views(tags@)[k as int] == tag@);
                    assert(album_tags(rows@.take(i + 1)) =~= album_tags(pre));
                },
                None => {
                    let ghost old_tags = text_views(tags@);
                    tags.push(tag);
                    proof {
                        assert(text_views(tags@) =~= old_tags.push(album_tag(rows@[i as int])));
                        assert(!old_tags.contains(album_tag(rows@[i as int])));
                        old_tags.lemma_push_to_set_commute(album_tag(rows@[i as int]));
                    }
                },
            }
            i = i + 1;
        }
        assert(rows@.take(rows@.len() as int) =~= rows@);
        let artists = self.artists();
        proof {
            text_views(tags@).unique_seq_to_set();
            let names = artists@.map_values(|l: (String, i64, i64)| l.0@);
            assert(names.no_duplicates()) by {
                assert forall|x: int, y: int| 0 <= x < names.len() && 0 <= y < names.len() && x != y implies names[x] != names[y] by {
                    if x < y {
                        assert(artists@[x].0@ != artists@[y].0@);
                    } else {
                        assert(artists@[y].0@ != artists@[x].0@);
                    }
                }
            }
            assert forall|a: Seq<char>| #[trigger] names.to_set().contains(a) == artist_names(rows@).contains(a) by {
                if has_artist(rows@, a) {
                    let j = choose|j: int| 0 <= j < artists@.len() && (#[trigger] artists@[j]).0@ == a;
                    assert(names[j] == a);
                }
                if names.to_set().contains(a) {
                    assert(names.contains(a));
                    let j = choose|j: int| 0 <= j < names.len() && names[j] == a;
                    assert(artists@[j].0@ == a);
                }
            }
            assert(names.to_set() =~= artist_names(rows@));
            names.unique_seq_to_set();
            let all = rows@.map_values(|t: TrackRow| t.artist@);
            assert forall|a: Seq<char>| artist_names(rows@).contains(a) implies #[trigger] all.to_set().contains(a) by {
                let k = choose|k: int| 0 <= k < rows@.len() && (#[trigger] rows@[k]).artist@ == a;
                assert(all[k] == a);
            }
            all.lemma_cardinality_of_set();
            vstd::set_lib::lemma_len_subset(artist_names(rows@), all.to_set());
        }
        let n_tracks = rows.len() as i64;
        let n_albums = tags.len() as i64;
        let n_artists = artists.len() as i64;
        (n_tracks, n_albums, n_artists, favorites)
    }
}

} // verus!
