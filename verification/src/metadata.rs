//! Track metadata: the defaults a file's tags get, what an AcoustID match
//! tells about a track, and the requests that ask for it.

use vstd::prelude::*;
use vstd::string::{StringExecFns, StringSliceAdditionalSpecFns};

use crate::locations::{join_path, path_join};
use crate::paths::{file_stem, stem_chars};
use crate::text::{string_of, trim, trimmed_chars};

verus! {

/// The tags read from an audio file (missing ones are `None`).
pub struct RawTags {
    pub title: Option<String>,
    pub artist: Option<String>,
    pub album: Option<String>,
    pub album_artist: Option<String>,
    pub genre: Option<String>,
    pub year: Option<u32>,
    pub track: Option<u32>,
    pub disk: Option<u32>,
}

/// What the library takes from an audio file.
pub struct FileMetadata {
    pub title: String,
    pub artist: String,
    pub album: String,
    pub album_artist: String,
    pub genre: String,
    pub year: Option<i32>,
    pub track_number: Option<i32>,
    pub disc_number: Option<i32>,
    pub duration_ms: i64,
    pub needs_identification: bool,
}

pub open spec fn text_or_empty(o: Option<String>) -> Seq<char> {
    match o {
        Some(s) => s@,
        None => Seq::empty(),
    }
}

/// A tag value counts as missing when it is empty or only white space.
pub open spec fn blank(s: Seq<char>) -> bool {
    trim(s).len() == 0
}

pub open spec fn tag_text(raw: Option<RawTags>, pick: spec_fn(RawTags) -> Option<String>) -> Seq<char> {
    match raw {
        Some(t) => text_or_empty(pick(t)),
        None => Seq::empty(),
    }
}

pub open spec fn tag_number(raw: Option<RawTags>, pick: spec_fn(RawTags) -> Option<u32>) -> Option<i32> {
    match raw {
        Some(t) => match pick(t) {
            Some(n) => Some(n as i32),
            None => None,
        },
        None => None,
    }
}

/// The title: the tag's, or else the file's stem, or else `Unknown Title`.
pub open spec fn title_for(tag: Seq<char>, path: Seq<char>) -> Seq<char> {
    if blank(tag) {
        match file_stem(path) {
            Some(s) => s,
            None => "Unknown Title"@,
        }
    } else {
        tag
    }
}

pub open spec fn or_default(tag: Seq<char>, default: Seq<char>) -> Seq<char> {
    if blank(tag) {
        default
    } else {
        tag
    }
}

/// What the library takes from a file at `path` with tags `raw` (`None` when
/// the file has no tag at all) and a playing time of `millis` milliseconds.
pub open spec fn metadata_of(m: FileMetadata, raw: Option<RawTags>, path: Seq<char>, millis: u128) -> bool {
    let artist = or_default(tag_text(raw, |t: RawTags| t.artist), "Unknown Artist"@);
    let album = or_default(tag_text(raw, |t: RawTags| t.album), "Unknown Album"@);
    &&& m.title@ == title_for(tag_text(raw, |t: RawTags| t.title), path)
    &&& m.artist@ == artist
    &&& m.album@ == album
    &&& m.album_artist@ == tag_text(raw, |t: RawTags| t.album_artist)
    &&& m.genre@ == tag_text(raw, |t: RawTags| t.genre)
    &&& m.year == tag_number(raw, |t: RawTags| t.year)
    &&& m.track_number == tag_number(raw, |t: RawTags| t.track)
    &&& m.disc_number == tag_number(raw, |t: RawTags| t.disk)
    &&& m.duration_ms == millis as i64
    &&& m.needs_identification == (artist == "Unknown Artist"@ || album == "Unknown Album"@
        || raw is None)
}

fn is_blank(s: &str) -> (b: bool)
    ensures
        b == blank(s@),
{
    trimmed_chars(s).len() == 0
}

fn text_of(o: &Option<String>) -> (r: String)
    ensures
        r@ == text_or_empty(*o),
{
    match o {
        Some(s) => s.clone(),
        None => String::new(),
    }
}

fn or_default_exec(tag: String, default: &str) -> (r: String)
    ensures
        r@ == or_default(tag@, default@),
{
    if is_blank(tag.as_str()) {
        String::from_str(default)
    } else {
        tag
    }
}

fn same_text(a: &String, lit: &str) -> (b: bool)
    ensures
        b == (a@ == lit@),
{
    *a == String::from_str(lit)
}

/// Fills in the defaults for a file's tags: a blank title becomes the file's
/// stem, a blank artist or album becomes `Unknown Artist` / `Unknown Album`,
/// and the file needs identifying when either was unknown or it had no tag.
pub fn metadata_from_tags(raw: &Option<RawTags>, path: &str, millis: u128) -> (m: FileMetadata)
    ensures
        metadata_of(m, *raw, path@, millis),
{
    let (title, artist, album, album_artist, genre, year, track, disk) = match raw {
        Some(t) => (
            text_of(&t.title),
            text_of(&t.artist),
            text_of(&t.album),
            text_of(&t.album_artist),
            text_of(&t.genre),
            match t.year {
                Some(y) => Some(y as i32),
                None => None,
            },
            match t.track {
                Some(y) => Some(y as i32),
                None => None,
            },
            match t.disk {
                Some(y) => Some(y as i32),
                None => None,
            },
        ),
        None => (String::new(), String::new(), String::new(), String::new(), String::new(), None, None, None),
    };
    let title = if is_blank(title.as_str()) {
        match stem_chars(path) {
            Some(s) => string_of(s.as_slice()),
            None => String::from_str("Unknown Title"),
        }
    } else {
        title
    };
    let artist = or_default_exec(artist, "Unknown Artist");
    let album = or_default_exec(album, "Unknown Album");
    let needs = same_text(&artist, "Unknown Artist") || same_text(&album, "Unknown Album") || raw.is_none();
    FileMetadata {
        title,
        artist,
        album,
        album_artist,
        genre,
        year,
        track_number: track,
        disc_number: disk,
        duration_ms: millis as i64,
        needs_identification: needs,
    }
}

// ------------------------------------------------------------------- AcoustID

/// What AcoustID and MusicBrainz say about a track.
pub struct IdentifiedMetadata {
    pub title: String,
    pub artist: String,
    pub album: String,
    pub year: Option<i32>,
    pub acoustid: Option<String>,
    pub recording_id: Option<String>,
    pub release_id: Option<String>,
    pub art_path: Option<String>,
}

pub struct ArtistInfo {
    pub name: Option<String>,
}

/// A release, with the year of its date.
pub struct ReleaseInfo {
    pub id: Option<String>,
    pub title: Option<String>,
    pub year: Option<i32>,
}

pub struct RecordingInfo {
    pub id: Option<String>,
    pub title: Option<String>,
    pub artists: Option<Vec<ArtistInfo>>,
    pub releases: Option<Vec<ReleaseInfo>>,
}

/// The AcoustID result that was chosen as the best match.
pub struct AcoustidMatch {
    pub id: Option<String>,
    pub recordings: Option<Vec<RecordingInfo>>,
}

pub open spec fn opt_text(o: Option<String>) -> Option<Seq<char>> {
    match o {
        Some(s) => Some(s@),
        None => None,
    }
}

pub open spec fn text_or(o: Option<String>, default: Seq<char>) -> Seq<char> {
    match o {
        Some(s) => s@,
        None => default,
    }
}

pub open spec fn first_of<A>(o: Option<Vec<A>>) -> Option<A> {
    match o {
        Some(v) => if v@.len() > 0 {
            Some(v@[0])
        } else {
            None
        },
        None => None,
    }
}

/// What a match says: the first recording's title, its first artist's name
/// and its first release's title, year and id, with `Unknown ...` for what
/// is missing; no match, or a match without recordings, is an error.
pub open spec fn identified_by(best: Option<AcoustidMatch>, r: Result<IdentifiedMetadata, String>) -> bool {
    match best {
        None => r matches Err(e) && e@ == "no AcoustID match found"@,
        Some(m) => match first_of(m.recordings) {
            None => r matches Err(e) && e@ == "no recording in AcoustID result"@,
            Some(rec) => r matches Ok(id) && {
                let artist = match first_of(rec.artists) {
                    Some(a) => a.name,
                    None => None,
                };
                let release = first_of(rec.releases);
                &&& id.title@ == text_or(rec.title, "Unknown Title"@)
                &&& id.artist@ == text_or(artist, "Unknown Artist"@)
                &&& id.album@ == match release {
                    Some(rl) => text_or(rl.title, "Unknown Album"@),
                    None => "Unknown Album"@,
                }
                &&& id.year == match release {
                    Some(rl) => rl.year,
                    None => None,
                }
                &&& opt_text(id.release_id) == match release {
                    Some(rl) => opt_text(rl.id),
                    None => None,
                }
                &&& opt_text(id.recording_id) == opt_text(rec.id)
                &&& opt_text(id.acoustid) == opt_text(m.id)
                &&& id.art_path is None
            },
        },
    }
}

fn text_or_exec(o: &Option<String>, default: &str) -> (r: String)
    ensures
        r@ == text_or(*o, default@),
{
    match o {
        Some(s) => s.clone(),
        None => String::from_str(default),
    }
}

/// Reads the chosen match (its cover art is fetched afterwards).
pub fn identified_from_match(best: &Option<AcoustidMatch>) -> (r: Result<IdentifiedMetadata, String>)
    ensures
        identified_by(*best, r),
{
    let m = match best {
        None => return Err(String::from_str("no AcoustID match found")),
        Some(m) => m,
    };
    let rec = match &m.recordings {
        Some(v) => {
            if v.len() > 0 {
                &v[0]
            } else {
                return Err(String::from_str("no recording in AcoustID result"));
            }
        },
        None => return Err(String::from_str("no recording in AcoustID result")),
    };
    let title = text_or_exec(&rec.title, "Unknown Title");
    let artist_name: Option<String> = match &rec.artists {
        Some(v) => {
            if v.len() > 0 {
                crate::db::clone_text(&v[0].name)
            } else {
                None
            }
        },
        None => None,
    };
    let artist = text_or_exec(&artist_name, "Unknown Artist");
    let (album, year, release_id) = match &rec.releases {
        Some(v) => {
            if v.len() > 0 {
                (text_or_exec(&v[0].title, "Unknown Album"), v[0].year, crate::db::clone_text(&v[0].id))
            } else {
                (String::from_str("Unknown Album"), None, None)
            }
        },
        None => (String::from_str("Unknown Album"), None, None),
    };
    Ok(
        IdentifiedMetadata {
            title,
            artist,
            album,
            year,
            acoustid: crate::db::clone_text(&m.id),
            recording_id: crate::db::clone_text(&rec.id),
            release_id,
            art_path: None,
        },
    )
}

// -------------------------------------------------------------- lookup body

pub open spec fn url_safe(b: u8) -> bool {
    ||| 48 <= b <= 57
    ||| 65 <= b <= 90
    ||| 97 <= b <= 122
    ||| b == 45
    ||| b == 46
    ||| b == 95
    ||| b == 126
}

pub open spec fn upper_hex_digit(n: int) -> char {
    if n < 10 {
        (48 + n) as char
    } else {
        (55 + n) as char
    }
}

/// Percent-encoding: every byte but ASCII letters, digits and `-._~` becomes
/// `%` and two uppercase hexadecimal digits.
pub open spec fn percent_encoded(b: Seq<u8>) -> Seq<char>
    decreases b.len(),
{
    if b.len() == 0 {
        Seq::empty()
    } else {
        let x = b.last();
        percent_encoded(b.drop_last()) + if url_safe(x) {
            seq![x as char]
        } else {
            seq!['%', upper_hex_digit(x as int / 16), upper_hex_digit(x as int % 16)]
        }
    }
}

/// `urlencoding::encode`; trusted to keep ASCII letters, digits and `-._~`
/// and to write every other UTF-8 byte as `%` and two upper-case
/// hexadecimal digits (`percent_encoded`).
#[verifier::external_body]
fn url_encode(s: &str) -> (r: String)
    ensures
        r@ == percent_encoded(s.spec_bytes()),
{
    urlencoding::encode(s).into_owned()
}

pub open spec fn digit_char(d: int) -> char {
    (48 + d) as char
}

/// The decimal digits of a natural number.
pub open spec fn digits(n: nat) -> Seq<char>
    decreases n,
{
    if n < 10 {
        seq![digit_char(n as int)]
    } else {
        digits(n / 10).push(digit_char((n % 10) as int))
    }
}

/// An integer in decimal, with `-` before a negative one.
pub open spec fn decimal(n: int) -> Seq<char> {
    if n < 0 {
        seq!['-'] + digits((-n) as nat)
    } else {
        digits(n as nat)
    }
}

fn push_digits(n: u64, out: &mut Vec<char>)
    ensures
        final(out)@ == old(out)@ + digits(n as nat),
    decreases n,
{
    if n >= 10 {
        push_digits(n / 10, out);
    }
    let d = (n % 10) as u8;
    out.push((48u8 + d) as char);
}

/// `n` in decimal.
pub fn decimal_text(n: i64) -> (r: String)
    ensures
        r@ == decimal(n as int),
{
    let mut v: Vec<char> = Vec::new();
    let m: u64 = if n < 0 {
        v.push('-');
        if n == i64::MIN {
            9223372036854775808u64
        } else {
            (-n) as u64
        }
    } else {
        n as u64
    };
    push_digits(m, &mut v);
    string_of(v.as_slice())
}

/// The form body of an AcoustID lookup: the client key, the metadata asked
/// for, the rounded duration in seconds and the fingerprint.
pub open spec fn lookup_body_text(api_key: &str, duration_secs: i64, fingerprint: &str) -> Seq<char> {
    "client="@ + percent_encoded(api_key.spec_bytes())
        + "&meta=recordings+releasegroups+compress&duration="@ + decimal(duration_secs as int)
        + "&fingerprint="@ + percent_encoded(fingerprint.spec_bytes())
}

pub fn lookup_body(api_key: &str, duration_secs: i64, fingerprint: &str) -> (r: String)
    ensures
        r@ == lookup_body_text(api_key, duration_secs, fingerprint),
{
    let key = url_encode(api_key);
    let fp = url_encode(fingerprint);
    let d = decimal_text(duration_secs);
    let mut r = String::new();
    r.append("client=");
    r.append(key.as_str());
    r.append("&meta=recordings+releasegroups+compress&duration=");
    r.append(d.as_str());
    r.append("&fingerprint=");
    r.append(fp.as_str());
    assert(r@ =~= lookup_body_text(api_key, duration_secs, fingerprint));
    r
}

// ---------------------------------------------------------------- cover art

/// The cover path an identification keeps: the one saved for its release,
/// and none when it named no release (no cover is fetched then).
pub fn art_path_after(release_id: &Option<String>, saved: Option<String>) -> (r: Option<String>)
    ensures
        release_id is None ==> r is None,
        release_id is Some ==> r == saved,
{
    match release_id {
        Some(_) => saved,
        None => None,
    }
}

/// An image that the Cover Art Archive lists for a release.
pub struct CoverImage {
    pub front: Option<bool>,
    pub image: Option<String>,
    pub large_thumbnail: Option<String>,
}

/// The cover to fetch: the first front image's large thumbnail, or that
/// image itself; nothing when there is no front image or it has neither.
pub open spec fn chosen_cover(images: Seq<CoverImage>) -> Option<Seq<char>> {
    if exists|i: int| 0 <= i < images.len() && images[i].front == Some(true) {
        let i = choose|i: int|
            0 <= i < images.len() && images[i].front == Some(true) && forall|j: int|
                0 <= j < i ==> images[j].front != Some(true);
        match images[i].large_thumbnail {
            Some(l) => Some(l@),
            None => opt_text(images[i].image),
        }
    } else {
        None
    }
}

pub fn pick_cover_image(images: &Vec<CoverImage>) -> (r: Option<String>)
    ensures
        opt_text(r) == chosen_cover(images@),
{
    let mut i: usize = 0;
    while i < images.len()
        invariant
            0 <= i <= images.len(),
            forall|j: int| 0 <= j < i ==> images@[j].front != Some(true),
        decreases images.len() - i,
    {
        if images[i].front == Some(true) {
            proof {
                let c = choose|c: int|
                    0 <= c < images@.len() && images@[c].front == Some(true) && forall|j: int|
                        0 <= j < c ==> images@[j].front != Some(true);
                assert(c == i) by {
                    if c < i {
                    }
                    if c > i {
                    }
                }
            }
            return match &images[i].large_thumbnail {
                Some(l) => Some(l.clone()),
                None => crate::db::clone_text(&images[i].image),
            };
        }
        i = i + 1;
    }
    None
}

/// `https://coverartarchive.org/release/<release id>`
pub fn cover_art_url(release_id: &str) -> (r: String)
    ensures
        r@ == "https://coverartarchive.org/release/"@ + release_id@,
{
    let mut r = String::from_str("https://coverartarchive.org/release/");
    r.append(release_id);
    r
}

/// Where a track's cover is saved: `<art dir>/<hint>.jpg`.
pub fn cover_art_file(art_dir: &str, hint: &str) -> (r: String)
    ensures
        r@ == path_join(art_dir@, hint@ + ".jpg"@),
{
    let mut name = String::from_str(hint);
    name.append(".jpg");
    join_path(art_dir, name.as_str())
}

} // verus!
