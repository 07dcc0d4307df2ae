//! Where the library keeps its files: joining path components as `PathBuf`
//! does on Unix, and the per-user folders that the `dirs` crate reports.

use vstd::prelude::*;
use vstd::string::StringExecFns;

use crate::text::chars_of;

verus! {

/// `PathBuf::push` of a component on Unix: an absolute component replaces
/// the path, otherwise a `/` goes between them unless the path is empty or
/// already ends with one.
pub open spec fn path_join(base: Seq<char>, comp: Seq<char>) -> Seq<char> {
    if comp.len() > 0 && comp[0] == '/' {
        comp
    } else if base.len() == 0 || base.last() == '/' {
        base + comp
    } else {
        base + seq!['/'] + comp
    }
}

pub fn join_path(base: &str, comp: &str) -> (r: String)
    ensures
        r@ == path_join(base@, comp@),
{
    let c = chars_of(comp);
    if c.len() > 0 && c[0] == '/' {
        return String::from_str(comp);
    }
    let b = chars_of(base);
    let mut r = String::from_str(base);
    if b.len() > 0 && b[b.len() - 1] != '/' {
        r.append("/");
        proof {
            reveal_strlit("/");
        }
    }
    r.append(comp);
    r
}

/// The user's home folder from `dirs::home_dir`, as text. It depends on the
/// environment, so nothing is claimed of it.
#[verifier::external_body]
fn home_location() -> (r: Option<String>) {
    dirs::home_dir().map(|p| p.to_string_lossy().to_string())
}

/// The user's data folder from `dirs::data_dir`, as text. It depends on the
/// environment, so nothing is claimed of it.
#[verifier::external_body]
fn data_location() -> (r: Option<String>) {
    dirs::data_dir().map(|p| p.to_string_lossy().to_string())
}

/// The user's config folder from `dirs::config_dir`, as text. It depends on
/// the environment, so nothing is claimed of it.
#[verifier::external_body]
fn config_location() -> (r: Option<String>) {
    dirs::config_dir().map(|p| p.to_string_lossy().to_string())
}

pub open spec fn or_here(base: Option<Seq<char>>) -> Seq<char> {
    match base {
        Some(b) => b,
        None => seq!['.'],
    }
}

pub open spec fn opt_view(o: Option<&str>) -> Option<Seq<char>> {
    match o {
        Some(s) => Some(s@),
        None => None,
    }
}

fn here_or(o: Option<&str>) -> (r: String)
    ensures
        r@ == or_here(opt_view(o)),
{
    match o {
        Some(s) => String::from_str(s),
        None => {
            proof {
                reveal_strlit(".");
            }
            String::from_str(".")
        },
    }
}

/// `<home>/Music/BAASIC`, with `.` for a missing home.
pub open spec fn download_dir_in(home: Option<Seq<char>>) -> Seq<char> {
    path_join(path_join(or_here(home), "Music"@), "BAASIC"@)
}

/// `<data>/baasic-media-player`, with `.` for a missing data folder.
pub open spec fn data_dir_in(data: Option<Seq<char>>) -> Seq<char> {
    path_join(or_here(data), "baasic-media-player"@)
}

/// `<data>/baasic-media-player/art`.
pub open spec fn art_dir_in(data: Option<Seq<char>>) -> Seq<char> {
    path_join(data_dir_in(data), "art"@)
}

/// `<config>/baasic-media-player/config.json`, with `.` for a missing config
/// folder.
pub open spec fn config_path_in(config: Option<Seq<char>>) -> Seq<char> {
    path_join(path_join(or_here(config), "baasic-media-player"@), "config.json"@)
}

/// The download folder under the given home folder.
pub fn download_dir_under(home: Option<&str>) -> (r: String)
    ensures
        r@ == download_dir_in(opt_view(home)),
{
    let h = here_or(home);
    let m = join_path(h.as_str(), "Music");
    join_path(m.as_str(), "BAASIC")
}

/// The app's data folder under the given data folder.
pub fn data_dir_under(data: Option<&str>) -> (r: String)
    ensures
        r@ == data_dir_in(opt_view(data)),
{
    let d = here_or(data);
    join_path(d.as_str(), "baasic-media-player")
}

/// The album art folder under the given data folder.
pub fn art_dir_under(data: Option<&str>) -> (r: String)
    ensures
        r@ == art_dir_in(opt_view(data)),
{
    let d = data_dir_under(data);
    join_path(d.as_str(), "art")
}

/// The settings file under the given config folder.
pub fn config_path_under(config: Option<&str>) -> (r: String)
    ensures
        r@ == config_path_in(opt_view(config)),
{
    let c = here_or(config);
    let a = join_path(c.as_str(), "baasic-media-player");
    join_path(a.as_str(), "config.json")
}

fn as_opt_str(o: &Option<String>) -> (r: Option<&str>)
    ensures
        opt_view(r) == match o {
            Some(s) => Some(s@),
            None => None::<Seq<char>>,
        },
{
    match o {
        Some(s) => Some(s.as_str()),
        None => None,
    }
}

/// Where downloads go by default: `Music/BAASIC` in the user's home folder.
pub fn default_download_dir() -> (r: String)
    ensures
        exists|home: Option<Seq<char>>| r@ == download_dir_in(home),
{
    let home = home_location();
    download_dir_under(as_opt_str(&home))
}

/// The app's data folder.
pub fn data_dir() -> (r: String)
    ensures
        exists|data: Option<Seq<char>>| r@ == data_dir_in(data),
{
    let data = data_location();
    data_dir_under(as_opt_str(&data))
}

/// Where downloaded album art is kept.
pub fn art_dir() -> (r: String)
    ensures
        exists|data: Option<Seq<char>>| r@ == art_dir_in(data),
{
    let data = data_location();
    art_dir_under(as_opt_str(&data))
}

/// Where the settings are kept.
pub fn config_path() -> (r: String)
    ensures
        exists|config: Option<Seq<char>>| r@ == config_path_in(config),
{
    let config = config_location();
    config_path_under(as_opt_str(&config))
}

} // verus!
