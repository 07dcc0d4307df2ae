//! Which files an import takes, in what order, and how a file's content is
//! fingerprinted for duplicate detection.

use vstd::prelude::*;
use sha2::Digest;
use vstd::string::StringExecFns;

use crate::order::{key_le, key_view, KeyPart, Part};
use crate::paths::{extension, extension_chars, path_key, path_key_of};
use crate::queries::{order_items, payload};
use crate::seq_facts::lemma_filter_take_step;
use crate::text::{fold_ascii, fold_char, fold_text, string_of};

verus! {

/// The extensions that mark audio files.
pub open spec fn audio_extensions() -> Seq<Seq<char>> {
    seq!["mp3"@, "flac"@, "m4a"@, "ogg"@, "opus"@, "wav"@, "aac"@, "wma"@]
}

/// A path is audio when its extension, lowered, is one of the audio
/// extensions.
pub open spec fn audio_path(p: Seq<char>) -> bool {
    match extension(p) {
        Some(e) => audio_extensions().contains(fold_text(e)),
        None => false,
    }
}

pub open spec fn audio_string() -> spec_fn(String) -> bool {
    |s: String| audio_path(s@)
}

fn is_one_of(e: &String) -> (b: bool)
    ensures
        b == audio_extensions().contains(e@),
{
    let exts = ["mp3", "flac", "m4a", "ogg", "opus", "wav", "aac", "wma"];
    let mut i: usize = 0;
    while i < 8
        invariant
            0 <= i <= 8,
            forall|k: int| 0 <= k < i ==> audio_extensions()[k] != e@,
            exts@.map_values(|x: &str| x@) == audio_extensions(),
        decreases 8 - i,
    {
        assert(exts@[i as int]@ == audio_extensions()[i as int]);
        if String::from_str(exts[i]) == *e {
            return true;
        }
        i = i + 1;
    }
    false
}

/// Whether the path names an audio file.
pub fn is_audio(path: &str) -> (b: bool)
    ensures
        b == audio_path(path@),
{
    match extension_chars(path) {
        None => false,
        Some(e) => {
            let mut lowered: Vec<char> = Vec::new();
            let mut i: usize = 0;
            while i < e.len()
                invariant
                    0 <= i <= e@.len(),
                    lowered@ == fold_text(e@.take(i as int)),
                decreases e@.len() - i,
            {
                lowered.push(fold_ascii(e[i]));
                assert(fold_text(e@.take(i + 1)) =~= fold_text(e@.take(i as int)).push(fold_char(e@[i as int])));
                i = i + 1;
            }
            assert(e@.take(e@.len() as int) =~= e@);
            is_one_of(&string_of(lowered.as_slice()))
        },
    }
}

/// The audio files among the paths, in path order (component by
/// component).
pub open spec fn is_audio_selection(paths: Seq<String>, out: Seq<String>) -> bool {
    &&& out.to_multiset() == paths.filter(audio_string()).to_multiset()
    &&& forall|i: int, j: int| 0 <= i < j < out.len() ==> key_le(path_key(out[i]@), path_key(out[j]@))
}

pub open spec fn string_path_key() -> spec_fn(String) -> Seq<KeyPart> {
    |s: String| path_key(s@)
}

/// Keeps the audio files of a folder walk and sorts them by path.
pub fn select_audio_files(paths: Vec<String>) -> (r: Vec<String>)
    ensures
        is_audio_selection(paths@, r@),
{
    let ghost all = paths@;
    let ghost kf = string_path_key();
    let mut items: Vec<(Vec<Part>, String)> = Vec::new();
    let mut i: usize = 0;
    while i < paths.len()
        invariant
            0 <= i <= paths.len(),
            paths@ == all,
            kf == string_path_key(),
            items@.map_values(payload::<String>()) == all.take(i as int).filter(audio_string()),
            forall|k: int| 0 <= k < items@.len() ==> key_view(#[trigger] items@[k].0) == kf(items@[k].1),
        decreases paths.len() - i,
    {
        proof {
            lemma_filter_take_step(all, audio_string(), i as int);
        }
        if is_audio(paths[i].as_str()) {
            let k = path_key_of(paths[i].as_str());
            let ghost before = items@;
            items.push((k, paths[i].clone()));
            assert(items@.map_values(payload::<String>()) =~= before.map_values(payload::<String>()).push(
                all[i as int],
            ));
        }
        i = i + 1;
    }
    assert(all.take(all.len() as int) =~= all);
    let sorted = order_items(items, Ghost(kf));
    let ghost out = sorted@.map_values(payload::<String>());
    let mut r: Vec<String> = Vec::new();
    let mut i: usize = 0;
    while i < sorted.len()
        invariant
            0 <= i <= sorted@.len(),
            out == sorted@.map_values(payload::<String>()),
            r@ == out.take(i as int),
        decreases sorted.len() - i,
    {
        r.push(sorted[i].1.clone());
        assert(r@ =~= out.take(i + 1));
        i = i + 1;
    }
    assert(out.take(out.len() as int) =~= out);
    r
}

// ------------------------------------------------------------------ digests

/// The SHA-256 digest of the bytes.
pub uninterp spec fn sha256(data: Seq<u8>) -> Seq<u8>;

/// `sha2::Sha256::digest`, as a byte vector; trusted to give the named
/// digest `sha256` of the bytes, which depends on them alone, and to be 32
/// bytes long (sha2 fixes the output size of SHA-256 at 32).
#[verifier::external_body]
fn sha256_digest(data: &[u8]) -> (r: Vec<u8>)
    ensures
        r@ == sha256(data@),
        r@.len() == 32,
{
    sha2::Sha256::digest(data).to_vec()
}

pub open spec fn lower_hex_digit(n: int) -> char {
    if n < 10 {
        (48 + n) as char
    } else {
        (87 + n) as char
    }
}

/// Each byte as two lowercase hexadecimal digits, high half first.
pub open spec fn hex_lower(b: Seq<u8>) -> Seq<char>
    decreases b.len(),
{
    if b.len() == 0 {
        Seq::empty()
    } else {
        hex_lower(b.drop_last()) + seq![
            lower_hex_digit(b.last() as int / 16),
            lower_hex_digit(b.last() as int % 16),
        ]
    }
}

/// Two digits per byte.
pub proof fn lemma_hex_lower_len(b: Seq<u8>)
    ensures
        hex_lower(b).len() == 2 * b.len(),
    decreases b.len(),
{
    if b.len() > 0 {
        lemma_hex_lower_len(b.drop_last());
    }
}

/// `hex::encode`; trusted to write each byte as two lower-case hexadecimal
/// digits, high half first (`hex_lower`).
#[verifier::external_body]
fn hex_encode(data: &[u8]) -> (r: String)
    ensures
        r@ == hex_lower(data@),
{
    hex::encode(data)
}

/// The lowercase hexadecimal SHA-256 digest of a file's bytes, which the
/// library stores as the file's hash.
pub fn digest_hex(data: &[u8]) -> (r: String)
    ensures
        r@ == hex_lower(sha256(data@)),
        r@.len() == 64,
{
    let d = sha256_digest(data);
    proof {
        lemma_hex_lower_len(d@);
    }
    hex_encode(d.as_slice())
}

} // verus!
