//! Finding the download tools and building the shell commands that fetch
//! music into the download folder.

use vstd::prelude::*;
use vstd::string::StringExecFns;

use crate::locations::default_download_dir;
use crate::models::{AcquireCommand, AcquireTool};
use crate::text::{chars_of, is_whitespace, is_ws, string_of, trim, trimmed_chars};

verus! {

/// What running `<tool> --version` showed: whether it ran and exited with
/// success, its standard output as text, and where the program was found on
/// the search path.
pub struct ProbeOutcome {
    pub succeeded: bool,
    pub stdout: String,
    pub located: Option<String>,
}

/// Rust's `Debug` rendering of a string: the text in double quotes with
/// `"`, `\` and unprintable characters escaped.
pub uninterp spec fn debug_quoted(s: Seq<char>) -> Seq<char>;

/// Renders `s` with `format!("{:?}", s)` (std's `Debug` for `str`); trusted
/// to give `debug_quoted` of the text, a rendering that depends on the text
/// alone and is not spelled out here.
#[verifier::external_body]
fn debug_quote(s: &str) -> (r: String)
    ensures
        r@ == debug_quoted(s@),
{
    format!("{:?}", s)
}

/// `str::lines().next()`: the text up to the first line feed (without a
/// `\r` just before it), or nothing for an empty text.
pub open spec fn first_line(s: Seq<char>) -> Option<Seq<char>> {
    if s.len() == 0 {
        None
    } else if exists|i: int| 0 <= i < s.len() && s[i] == '\n' {
        let i = choose|i: int|
            0 <= i < s.len() && s[i] == '\n' && forall|j: int| 0 <= j < i ==> s[j] != '\n';
        let line = s.take(i);
        if line.len() > 0 && line.last() == '\r' {
            Some(line.drop_last())
        } else {
            Some(line)
        }
    } else {
        Some(s)
    }
}

/// The version a successful probe reports: its first output line trimmed,
/// or `installed` when it printed nothing.
pub open spec fn probe_version(stdout: Seq<char>) -> Seq<char> {
    match first_line(stdout) {
        Some(l) => trim(l),
        None => "installed"@,
    }
}

/// The tool as a probe found it.
pub open spec fn tool_from(id: Seq<char>, bin: Seq<char>, o: ProbeOutcome, t: AcquireTool) -> bool {
    &&& t.id@ == id
    &&& t.name@ == bin
    &&& if o.succeeded {
        &&& t.path@ == match o.located {
            Some(p) => p@,
            None => bin,
        }
        &&& t.version@ == probe_version(o.stdout@)
        &&& t.installed
    } else {
        &&& t.path@.len() == 0
        &&& t.version@.len() == 0
        &&& !t.installed
    }
}

fn first_line_chars(s: &str) -> (r: Option<Vec<char>>)
    ensures
        match first_line(s@) {
            Some(l) => r matches Some(v) && v@ == l,
            None => r is None,
        },
{
    let cs = chars_of(s);
    if cs.len() == 0 {
        return None;
    }
    let mut i: usize = 0;
    while i < cs.len() && cs[i] != '\n'
        invariant
            0 <= i <= cs.len(),
            cs@ == s@,
            forall|j: int| 0 <= j < i ==> cs@[j] != '\n',
        decreases cs.len() - i,
    {
        i = i + 1;
    }
    let mut end = i;
    if i < cs.len() && i > 0 && cs[i - 1] == '\r' {
        end = i - 1;
    }
    let mut v: Vec<char> = Vec::new();
    let mut k: usize = 0;
    while k < end
        invariant
            0 <= k <= end <= cs.len(),
            v@ == cs@.take(k as int),
        decreases end - k,
    {
        v.push(cs[k]);
        assert(cs@.take(k + 1) =~= cs@.take(k as int).push(cs@[k as int]));
        k = k + 1;
    }
    proof {
        if i < cs.len() {
            let c = choose|c: int|
                0 <= c < cs@.len() && cs@[c] == '\n' && forall|j: int| 0 <= j < c ==> cs@[j] != '\n';
            assert(c == i) by {
                if c < i {
                    assert(cs@[c] != '\n');
                }
                if c > i {
                    assert(cs@[i as int] != '\n');
                }
            }
            if i > 0 {
                assert(cs@.take(i as int).drop_last() =~= cs@.take(i - 1));
            }
        } else {
            assert(cs@.take(cs@.len() as int) =~= cs@);
        }
    }
    Some(v)
}

fn trimmed(v: &Vec<char>) -> (r: String)
    ensures
        r@ == trim(v@),
{
    let s = string_of(v.as_slice());
    let t = trimmed_chars(s.as_str());
    string_of(t.as_slice())
}

/// The tool as the probe of `bin` found it.
pub fn probe_tool(id: &str, bin: &str, outcome: &ProbeOutcome) -> (t: AcquireTool)
    ensures
        tool_from(id@, bin@, *outcome, t),
{
    if outcome.succeeded {
        let version = match first_line_chars(outcome.stdout.as_str()) {
            Some(l) => trimmed(&l),
            None => {
                proof {
                    reveal_strlit("installed");
                }
                String::from_str("installed")
            },
        };
        let path = match &outcome.located {
            Some(p) => p.clone(),
            None => String::from_str(bin),
        };
        AcquireTool {
            id: String::from_str(id),
            name: String::from_str(bin),
            path,
            version,
            installed: true,
        }
    } else {
        AcquireTool {
            id: String::from_str(id),
            name: String::from_str(bin),
            path: String::new(),
            version: String::new(),
            installed: false,
        }
    }
}

/// The tools that `detect_tools` probes, in order: id, program and the
/// argument that asks for its version.
pub fn probe_plan() -> (r: Vec<(String, String, String)>)
    ensures
        r@.len() == 2,
        r@[0].0@ == "yt-dlp"@ && r@[0].1@ == "yt-dlp"@ && r@[0].2@ == "--version"@,
        r@[1].0@ == "spotdl"@ && r@[1].1@ == "spotdl"@ && r@[1].2@ == "--version"@,
{
    let mut r: Vec<(String, String, String)> = Vec::new();
    r.push((String::from_str("yt-dlp"), String::from_str("yt-dlp"), String::from_str("--version")));
    r.push((String::from_str("spotdl"), String::from_str("spotdl"), String::from_str("--version")));
    r
}

/// The download tools (yt-dlp, then spotdl) as their probes found them.
pub fn detect_tools(yt_dlp: &ProbeOutcome, spotdl: &ProbeOutcome) -> (r: Vec<AcquireTool>)
    ensures
        r@.len() == 2,
        tool_from("yt-dlp"@, "yt-dlp"@, *yt_dlp, r@[0]),
        tool_from("spotdl"@, "spotdl"@, *spotdl, r@[1]),
{
    let mut r: Vec<AcquireTool> = Vec::new();
    r.push(probe_tool("yt-dlp", "yt-dlp", yt_dlp));
    r.push(probe_tool("spotdl", "spotdl", spotdl));
    r
}

// ---------------------------------------------------------------- commands

pub open spec fn needs_quotes(c: char) -> bool {
    is_ws(c) || c == '"' || c == '\'' || c == '\\'
}

/// A query goes into the shell in single quotes when it holds white space, a
/// quote or a backslash; otherwise as it is.
pub open spec fn shell_escaped(s: Seq<char>) -> Seq<char> {
    if exists|i: int| 0 <= i < s.len() && needs_quotes(s[i]) {
        seq!['\''] + s + seq!['\'']
    } else {
        s
    }
}

pub fn shell_escape(s: &str) -> (r: String)
    ensures
        r@ == shell_escaped(s@),
{
    let cs = chars_of(s);
    let mut i: usize = 0;
    let mut quote = false;
    while i < cs.len()
        invariant
            0 <= i <= cs.len(),
            cs@ == s@,
            quote == exists|j: int| 0 <= j < i && needs_quotes(cs@[j]),
        decreases cs.len() - i,
    {
        let c = cs[i];
        if is_whitespace(c) || c == '"' || c == '\'' || c == '\\' {
            quote = true;
        }
        i = i + 1;
    }
    if quote {
        let mut r = String::new();
        r.append("'");
        r.append(s);
        r.append("'");
        proof {
            reveal_strlit("'");
        }
        r
    } else {
        String::from_str(s)
    }
}

/// A command as five texts: tool id, label, command line, output folder and
/// import hint.
pub open spec fn command_text(c: AcquireCommand) -> (Seq<char>, Seq<char>, Seq<char>, Seq<char>, Seq<char>) {
    (c.tool_id@, c.label@, c.command@, c.output_dir@, c.import_hint@)
}

/// The first tool with this id that is installed.
pub open spec fn installed_tool(tools: Seq<AcquireTool>, id: Seq<char>) -> Option<AcquireTool> {
    if exists|i: int| 0 <= i < tools.len() && tools[i].id@ == id && tools[i].installed {
        let i = choose|i: int|
            0 <= i < tools.len() && tools[i].id@ == id && tools[i].installed && forall|j: int|
                0 <= j < i ==> !(tools[j].id@ == id && tools[j].installed);
        Some(tools[i])
    } else {
        None
    }
}

/// The yt-dlp search for a query in a mode: ten results for an album, fifteen
/// for an artist, one otherwise.
pub open spec fn yt_search(query: Seq<char>, mode: Seq<char>) -> Seq<char> {
    if mode == "album"@ {
        "ytsearch10:"@ + query + " full album"@
    } else if mode == "artist"@ {
        "ytsearch15:"@ + query
    } else {
        "ytsearch1:"@ + query
    }
}

/// `<out>/%(artist|Unknown)s - %(title)s.%(ext)s`
pub open spec fn out_template(out: Seq<char>) -> Seq<char> {
    out + "/%(artist|Unknown)s - %(title)s.%(ext)s"@
}

pub open spec fn yt_line(out: Seq<char>, bin: Seq<char>, target: Seq<char>) -> Seq<char> {
    "mkdir -p "@ + debug_quoted(out) + " && "@ + bin + " "@ + debug_quoted(target)
        + " -x --audio-format mp3 --audio-quality 0 --embed-thumbnail --add-metadata -o "@
        + debug_quoted(out_template(out))
}

#[verifier::opaque]
pub open spec fn yt_commands(q: Seq<char>, mode: Seq<char>, out: Seq<char>, yt: AcquireTool) -> Seq<
    (Seq<char>, Seq<char>, Seq<char>, Seq<char>, Seq<char>),
> {
    seq![
        (
            yt.id@,
            "Download with yt-dlp ("@ + mode + ")"@,
            yt_line(out, yt.path@, yt_search(q, mode)),
            out,
            "After download finishes, in BAASIC go to Import → Add Folder → select "@ + debug_quoted(out),
        ),
        (
            yt.id@,
            "Download from URL with yt-dlp"@,
            yt_line(out, yt.path@, q),
            out,
            "Import folder: "@ + debug_quoted(out),
        ),
    ]
}

#[verifier::opaque]
pub open spec fn spot_command(q: Seq<char>, mode: Seq<char>, out: Seq<char>, spot: AcquireTool) -> (
    Seq<char>,
    Seq<char>,
    Seq<char>,
    Seq<char>,
    Seq<char>,
) {
    (
        spot.id@,
        "Download with spotdl ("@ + mode + ")"@,
        "mkdir -p "@ + debug_quoted(out) + " && cd "@ + debug_quoted(out) + " && "@ + spot.path@
            + " download "@ + shell_escaped(q),
        out,
        "Import folder: "@ + debug_quoted(out),
    )
}

#[verifier::opaque]
pub open spec fn manual_command(out: Seq<char>) -> (Seq<char>, Seq<char>, Seq<char>, Seq<char>, Seq<char>) {
    (
        "manual"@,
        "Install yt-dlp first"@,
        "sudo pacman -S yt-dlp ffmpeg"@,
        out,
        "Install yt-dlp, run a download command, then import the BAASIC music folder."@,
    )
}

/// The commands offered for a query in a mode, downloading into `out`, given
/// the tools found: two yt-dlp commands when yt-dlp is installed, one spotdl
/// command when spotdl is, and the install hint when neither is; nothing
/// for a blank query.
pub open spec fn commands_spec(
    query: Seq<char>,
    mode: Seq<char>,
    out: Seq<char>,
    tools: Seq<AcquireTool>,
) -> Seq<(Seq<char>, Seq<char>, Seq<char>, Seq<char>, Seq<char>)> {
    let q = trim(query);
    if q.len() == 0 {
        Seq::empty()
    } else {
        let ys = match installed_tool(tools, "yt-dlp"@) {
            Some(yt) => yt_commands(q, mode, out, yt),
            None => Seq::empty(),
        };
        let all = match installed_tool(tools, "spotdl"@) {
            Some(spot) => ys.push(spot_command(q, mode, out, spot)),
            None => ys,
        };
        if all.len() == 0 {
            seq![manual_command(out)]
        } else {
            all
        }
    }
}

fn find_installed(tools: &[AcquireTool], id: &str) -> (r: Option<usize>)
    ensures
        match installed_tool(tools@, id@) {
            Some(t) => r matches Some(k) && k < tools@.len() && tools@[k as int] == t,
            None => r is None,
        },
{
    let key = String::from_str(id);
    let mut i: usize = 0;
    while i < tools.len()
        invariant
            0 <= i <= tools.len(),
            key@ == id@,
            forall|j: int| 0 <= j < i ==> !(tools@[j].id@ == id@ && tools@[j].installed),
        decreases tools.len() - i,
    {
        if tools[i].installed && tools[i].id == key {
            proof {
                let c = choose|c: int|
                    0 <= c < tools@.len() && tools@[c].id@ == id@ && tools@[c].installed && forall|j: int|
                        0 <= j < c ==> !(tools@[j].id@ == id@ && tools@[j].installed);
                assert(c == i) by {
                    if c < i {
                    }
                    if c > i {
                    }
                }
            }
            return Some(i);
        }
        i = i + 1;
    }
    None
}

fn command(tool_id: String, label: String, line: String, out: &str, hint: String) -> (r: AcquireCommand)
    ensures
        command_text(r) == (tool_id@, label@, line@, out@, hint@),
{
    AcquireCommand { tool_id, label, command: line, output_dir: String::from_str(out), import_hint: hint }
}

fn yt_command_line(out_q: &str, bin: &str, target: &str, template_q: &str) -> (r: String)
    ensures
        r@ == "mkdir -p "@ + out_q@ + " && "@ + bin@ + " "@ + debug_quoted(target@)
            + " -x --audio-format mp3 --audio-quality 0 --embed-thumbnail --add-metadata -o "@
            + template_q@,
{
    let target_q = debug_quote(target);
    let mut line = String::new();
    line.append("mkdir -p ");
    line.append(out_q);
    line.append(" && ");
    line.append(bin);
    line.append(" ");
    line.append(target_q.as_str());
    line.append(" -x --audio-format mp3 --audio-quality 0 --embed-thumbnail --add-metadata -o ");
    line.append(template_q);
    assert(line@ =~= "mkdir -p "@ + out_q@ + " && "@ + bin@ + " "@ + debug_quoted(target@)
        + " -x --audio-format mp3 --audio-quality 0 --embed-thumbnail --add-metadata -o "@
        + template_q@);
    line
}

fn is_text(s: &str, lit: &str) -> (b: bool)
    ensures
        b == (s@ == lit@),
{
    String::from_str(s) == String::from_str(lit)
}

fn yt_pair(q: &str, mode: &str, out_dir: &str, out_q: &str, template_q: &str, yt: &AcquireTool) -> (r: Vec<
    AcquireCommand,
>)
    requires
        out_q@ == debug_quoted(out_dir@),
        template_q@ == debug_quoted(out_template(out_dir@)),
    ensures
        r@.map_values(|c: AcquireCommand| command_text(c)) == yt_commands(q@, mode@, out_dir@, *yt),
{
    reveal(yt_commands);
    let mut search = String::new();
    if is_text(mode, "album") {
        search.append("ytsearch10:");
        search.append(q);
        search.append(" full album");
    } else if is_text(mode, "artist") {
        search.append("ytsearch15:");
        search.append(q);
    } else {
        search.append("ytsearch1:");
        search.append(q);
    }
    assert(search@ =~= yt_search(q@, mode@));
    let mut label = String::new();
    label.append("Download with yt-dlp (");
    label.append(mode);
    label.append(")");
    let line = yt_command_line(out_q, yt.path.as_str(), search.as_str(), template_q);
    let mut hint = String::new();
    hint.append("After download finishes, in BAASIC go to Import → Add Folder → select ");
    hint.append(out_q);
    let mut commands: Vec<AcquireCommand> = Vec::new();
    commands.push(command(yt.id.clone(), label, line, out_dir, hint));
    let url_line = yt_command_line(out_q, yt.path.as_str(), q, template_q);
    let mut hint2 = String::new();
    hint2.append("Import folder: ");
    hint2.append(out_q);
    commands.push(
        command(
            yt.id.clone(),
            String::from_str("Download from URL with yt-dlp"),
            url_line,
            out_dir,
            hint2,
        ),
    );
    assert(commands@.map_values(|c: AcquireCommand| command_text(c)) =~= yt_commands(
        q@,
        mode@,
        out_dir@,
        *yt,
    ));
    commands
}

fn spot_one(q: &str, mode: &str, out_dir: &str, out_q: &str, spot: &AcquireTool) -> (r: AcquireCommand)
    requires
        out_q@ == debug_quoted(out_dir@),
    ensures
        command_text(r) == spot_command(q@, mode@, out_dir@, *spot),
{
    reveal(spot_command);
    let mut label = String::new();
    label.append("Download with spotdl (");
    label.append(mode);
    label.append(")");
    let escaped = shell_escape(q);
    let mut line = String::new();
    line.append("mkdir -p ");
    line.append(out_q);
    line.append(" && cd ");
    line.append(out_q);
    line.append(" && ");
    line.append(spot.path.as_str());
    line.append(" download ");
    line.append(escaped.as_str());
    let mut hint = String::new();
    hint.append("Import folder: ");
    hint.append(out_q);
    assert(line@ =~= spot_command(q@, mode@, out_dir@, *spot).2);
    assert(label@ =~= spot_command(q@, mode@, out_dir@, *spot).1);
    assert(hint@ =~= spot_command(q@, mode@, out_dir@, *spot).4);
    command(spot.id.clone(), label, line, out_dir, hint)
}

/// The commands for a query in a mode, downloading into `out_dir`, with the
/// tools found.
pub fn commands_for(query: &str, mode: &str, out_dir: &str, tools: &[AcquireTool]) -> (r: Vec<
    AcquireCommand,
>)
    ensures
        r@.map_values(|c: AcquireCommand| command_text(c)) == commands_spec(
            query@,
            mode@,
            out_dir@,
            tools@,
        ),
{
    let qv = trimmed_chars(query);
    let mut commands: Vec<AcquireCommand> = Vec::new();
    if qv.len() == 0 {
        assert(commands@.map_values(|c: AcquireCommand| command_text(c)) =~= commands_spec(
            query@,
            mode@,
            out_dir@,
            tools@,
        ));
        return commands;
    }
    let q = string_of(qv.as_slice());
    let out_q = debug_quote(out_dir);
    let mut template = String::from_str(out_dir);
    template.append("/%(artist|Unknown)s - %(title)s.%(ext)s");
    let template_q = debug_quote(template.as_str());
    let ghost qs = trim(query@);
    let ghost ys = match installed_tool(tools@, "yt-dlp"@) {
        Some(yt) => yt_commands(qs, mode@, out_dir@, yt),
        None => Seq::empty(),
    };
    match find_installed(tools, "yt-dlp") {
        Some(k) => {
            commands = yt_pair(q.as_str(), mode, out_dir, out_q.as_str(), template_q.as_str(), &tools[k]);
        },
        None => {},
    }
    assert(commands@.map_values(|c: AcquireCommand| command_text(c)) =~= ys);
    let ghost all = match installed_tool(tools@, "spotdl"@) {
        Some(spot) => ys.push(spot_command(qs, mode@, out_dir@, spot)),
        None => ys,
    };
    match find_installed(tools, "spotdl") {
        Some(k) => {
            let c = spot_one(q.as_str(), mode, out_dir, out_q.as_str(), &tools[k]);
            commands.push(c);
        },
        None => {},
    }
    assert(commands@.map_values(|c: AcquireCommand| command_text(c)) =~= all);
    if commands.len() == 0 {
        commands.push(
            command(
                String::from_str("manual"),
                String::from_str("Install yt-dlp first"),
                String::from_str("sudo pacman -S yt-dlp ffmpeg"),
                out_dir,
                String::from_str(
                    "Install yt-dlp, run a download command, then import the BAASIC music folder.",
                ),
            ),
        );
        assert(commands@.map_values(|c: AcquireCommand| command_text(c)) =~= seq![
            manual_command(out_dir@),
        ]) by {
            reveal(manual_command);
        }
    }
    commands
}

/// The commands offered for a query in a mode. They download into
/// `output_dir`, or into the default download folder when none is given; the
/// tools are the ones `detect_tools` found.
pub fn build_commands(query: &str, mode: &str, output_dir: Option<&str>, tools: &[AcquireTool]) -> (r:
    Vec<AcquireCommand>)
    ensures
        trim(query@).len() == 0 ==> r@.len() == 0,
        output_dir matches Some(d) ==> r@.map_values(|c: AcquireCommand| command_text(c))
            == commands_spec(query@, mode@, d@, tools@),
        output_dir is None ==> exists|home: Option<Seq<char>>|
            r@.map_values(|c: AcquireCommand| command_text(c)) == commands_spec(
                query@,
                mode@,
                crate::locations::download_dir_in(home),
                tools@,
            ),
{
    let qv = trimmed_chars(query);
    if qv.len() == 0 {
        let r: Vec<AcquireCommand> = Vec::new();
        assert(r@.map_values(|c: AcquireCommand| command_text(c)) =~= commands_spec(
            query@,
            mode@,
            crate::locations::download_dir_in(None),
            tools@,
        ));
        return r;
    }
    match output_dir {
        Some(d) => commands_for(query, mode, d, tools),
        None => {
            let d = default_download_dir();
            let r = commands_for(query, mode, d.as_str(), tools);
            let ghost home = choose|home: Option<Seq<char>>| d@ == crate::locations::download_dir_in(home);
            assert(r@.map_values(|c: AcquireCommand| command_text(c)) == commands_spec(
                query@,
                mode@,
                crate::locations::download_dir_in(home),
                tools@,
            ));
            r
        },
    }
}

} // verus!
