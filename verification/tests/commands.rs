use baasic_media_player::acquire::{build_commands, commands_for, detect_tools, probe_plan, probe_tool, shell_escape, ProbeOutcome};
use baasic_media_player::locations::{
    art_dir_under, config_path_under, data_dir_under, download_dir_under, join_path,
};
use baasic_media_player::models::AcquireTool;

fn tool(id: &str, path: &str, installed: bool) -> AcquireTool {
    AcquireTool {
        id: id.to_string(),
        name: id.to_string(),
        path: path.to_string(),
        version: "1".to_string(),
        installed,
    }
}

#[test]
fn blank_query_gives_no_commands() {
    let tools = vec![tool("yt-dlp", "/usr/bin/yt-dlp", true)];
    assert!(build_commands("   ", "track", Some("/out"), &tools).is_empty());
    assert!(build_commands("", "track", None, &tools).is_empty());
}

#[test]
fn yt_dlp_commands_for_a_track() {
    let tools = vec![tool("yt-dlp", "/usr/bin/yt-dlp", true), tool("spotdl", "", false)];
    let cmds = build_commands("  Artist - Song ", "track", Some("/home/u/Music"), &tools);
    assert_eq!(cmds.len(), 2);
    assert_eq!(cmds[0].tool_id, "yt-dlp");
    assert_eq!(cmds[0].label, "Download with yt-dlp (track)");
    assert_eq!(
        cmds[0].command,
        "mkdir -p \"/home/u/Music\" && /usr/bin/yt-dlp \"ytsearch1:Artist - Song\" -x --audio-format mp3 --audio-quality 0 --embed-thumbnail --add-metadata -o \"/home/u/Music/%(artist|Unknown)s - %(title)s.%(ext)s\""
    );
    assert_eq!(cmds[0].output_dir, "/home/u/Music");
    assert_eq!(
        cmds[0].import_hint,
        "After download finishes, in BAASIC go to Import → Add Folder → select \"/home/u/Music\""
    );
    assert_eq!(cmds[1].label, "Download from URL with yt-dlp");
    assert_eq!(
        cmds[1].command,
        "mkdir -p \"/home/u/Music\" && /usr/bin/yt-dlp \"Artist - Song\" -x --audio-format mp3 --audio-quality 0 --embed-thumbnail --add-metadata -o \"/home/u/Music/%(artist|Unknown)s - %(title)s.%(ext)s\""
    );
    assert_eq!(cmds[1].import_hint, "Import folder: \"/home/u/Music\"");
}

#[test]
fn search_depends_on_mode() {
    let tools = vec![tool("yt-dlp", "yt-dlp", true)];
    let album = build_commands("X", "album", Some("/o"), &tools);
    assert!(album[0].command.contains("\"ytsearch10:X full album\""));
    let artist = build_commands("X", "artist", Some("/o"), &tools);
    assert!(artist[0].command.contains("\"ytsearch15:X\""));
    assert_eq!(artist[0].label, "Download with yt-dlp (artist)");
}

#[test]
fn spotdl_command_quotes_the_query() {
    let tools = vec![tool("yt-dlp", "", false), tool("spotdl", "/bin/spotdl", true)];
    let cmds = build_commands("two words", "track", Some("/o"), &tools);
    assert_eq!(cmds.len(), 1);
    assert_eq!(cmds[0].tool_id, "spotdl");
    assert_eq!(cmds[0].label, "Download with spotdl (track)");
    assert_eq!(cmds[0].command, "mkdir -p \"/o\" && cd \"/o\" && /bin/spotdl download 'two words'");
    assert_eq!(cmds[0].import_hint, "Import folder: \"/o\"");
    let one = build_commands("single", "track", Some("/o"), &tools);
    assert_eq!(one[0].command, "mkdir -p \"/o\" && cd \"/o\" && /bin/spotdl download single");
}

#[test]
fn both_tools_give_three_commands() {
    let tools = vec![tool("yt-dlp", "y", true), tool("spotdl", "s", true)];
    let cmds = build_commands("q", "track", Some("/o"), &tools);
    assert_eq!(cmds.iter().map(|c| c.tool_id.as_str()).collect::<Vec<_>>(), vec!["yt-dlp", "yt-dlp", "spotdl"]);
    assert!(cmds.iter().all(|c| c.output_dir == "/o"));
}

#[test]
fn no_tool_gives_the_install_hint() {
    let tools = vec![tool("yt-dlp", "", false), tool("spotdl", "", false)];
    let cmds = build_commands("q", "track", Some("/o"), &tools);
    assert_eq!(cmds.len(), 1);
    assert_eq!(cmds[0].tool_id, "manual");
    assert_eq!(cmds[0].label, "Install yt-dlp first");
    assert_eq!(cmds[0].command, "sudo pacman -S yt-dlp ffmpeg");
    assert_eq!(cmds[0].output_dir, "/o");
    assert_eq!(
        cmds[0].import_hint,
        "Install yt-dlp, run a download command, then import the BAASIC music folder."
    );
    assert_eq!(commands_for("q", "track", "/o", &[]).len(), 1);
}

#[test]
fn output_dir_with_quote_is_debug_escaped() {
    let tools = vec![tool("yt-dlp", "y", true)];
    let cmds = build_commands("q", "track", Some("/a\"b"), &tools);
    assert!(cmds[0].command.starts_with("mkdir -p \"/a\\\"b\" && y "));
}

#[test]
fn default_output_dir_is_used_when_none_given() {
    let tools = vec![tool("yt-dlp", "", false)];
    let cmds = build_commands("q", "track", None, &tools);
    assert_eq!(cmds.len(), 1);
    assert!(cmds[0].output_dir.ends_with("Music/BAASIC"));
}

#[test]
fn shell_escape_quotes_only_when_needed() {
    assert_eq!(shell_escape("plain"), "plain");
    assert_eq!(shell_escape("a b"), "'a b'");
    assert_eq!(shell_escape("it's"), "'it's'");
    assert_eq!(shell_escape("say \"x\""), "'say \"x\"'");
    assert_eq!(shell_escape("back\\slash"), "'back\\slash'");
    assert_eq!(shell_escape("tab\there"), "'tab\there'");
    assert_eq!(shell_escape(""), "");
}

#[test]
fn probe_reads_the_first_line_of_the_version() {
    let ok = ProbeOutcome {
        succeeded: true,
        stdout: "  2024.08.06 \nmore\n".to_string(),
        located: Some("/usr/bin/yt-dlp".to_string()),
    };
    let t = probe_tool("yt-dlp", "yt-dlp", &ok);
    assert_eq!(t, tool_full("yt-dlp", "yt-dlp", "/usr/bin/yt-dlp", "2024.08.06", true));
    let quiet = ProbeOutcome { succeeded: true, stdout: String::new(), located: None };
    let t = probe_tool("spotdl", "spotdl", &quiet);
    assert_eq!(t, tool_full("spotdl", "spotdl", "spotdl", "installed", true));
    let failed = ProbeOutcome { succeeded: false, stdout: "x".to_string(), located: Some("/x".to_string()) };
    let t = probe_tool("spotdl", "spotdl", &failed);
    assert_eq!(t, tool_full("spotdl", "spotdl", "", "", false));
}

fn tool_full(id: &str, name: &str, path: &str, version: &str, installed: bool) -> AcquireTool {
    AcquireTool {
        id: id.to_string(),
        name: name.to_string(),
        path: path.to_string(),
        version: version.to_string(),
        installed,
    }
}

#[test]
fn detect_tools_probes_yt_dlp_then_spotdl() {
    let yes = ProbeOutcome { succeeded: true, stdout: "1.0\n".to_string(), located: None };
    let no = ProbeOutcome { succeeded: false, stdout: String::new(), located: None };
    let tools = detect_tools(&yes, &no);
    assert_eq!(tools.len(), 2);
    assert_eq!(tools[0].id, "yt-dlp");
    assert!(tools[0].installed);
    assert_eq!(tools[0].version, "1.0");
    assert_eq!(tools[1].id, "spotdl");
    assert!(!tools[1].installed);
    let plan = probe_plan();
    assert_eq!(plan[0], ("yt-dlp".to_string(), "yt-dlp".to_string(), "--version".to_string()));
    assert_eq!(plan[1], ("spotdl".to_string(), "spotdl".to_string(), "--version".to_string()));
}

#[test]
fn locations_under_given_folders() {
    assert_eq!(download_dir_under(Some("/home/u")), "/home/u/Music/BAASIC");
    assert_eq!(download_dir_under(None), "./Music/BAASIC");
    assert_eq!(data_dir_under(Some("/home/u/.local/share")), "/home/u/.local/share/baasic-media-player");
    assert_eq!(art_dir_under(Some("/d")), "/d/baasic-media-player/art");
    assert_eq!(config_path_under(Some("/c/")), "/c/baasic-media-player/config.json");
    assert_eq!(config_path_under(None), "./baasic-media-player/config.json");
}

#[test]
fn join_path_follows_path_join() {
    assert_eq!(join_path("/a", "b"), "/a/b");
    assert_eq!(join_path("/a/", "b"), "/a/b");
    assert_eq!(join_path("/a", "/b"), "/b");
    assert_eq!(join_path("", "b"), "b");
}
