//! What the command line says and decides.

use std::collections::HashMap;
use vstd::prelude::*;
use vstd::string::StringExecFns;

use crate::client::join_path;
use crate::models::{HyprClient, SessionFile, TrackedWindow};
use crate::restore::RestoreReport;
use crate::text::{self, contains, decimal_of, str_eq};
use crate::{client, restore};

verus! {

broadcast use {vstd::string::group_string_axioms, vstd::std_specs::hash::group_hash_axioms};

// ---------------------------------------------------------------------------
// Logging
// ---------------------------------------------------------------------------

/// The log level that the flags ask for: nothing at all if `quiet`, otherwise the
/// more the more often `-v` was given.
pub open spec fn level_text(verbose: u8, quiet: bool) -> Seq<char> {
    if quiet {
        "off"@
    } else if verbose == 0 {
        "warn"@
    } else if verbose == 1 {
        "info"@
    } else if verbose == 2 {
        "debug"@
    } else {
        "trace"@
    }
}

/// The log filter that the flags ask for.
pub fn log_filter(verbose: u8, quiet: bool) -> (r: String)
    ensures
        r@ == "hyprresume="@ + level_text(verbose, quiet),
        quiet ==> r@ == "hyprresume=off"@,
{
    let level = if quiet {
        "off"
    } else {
        match verbose {
            0 => "warn",
            1 => "info",
            2 => "debug",
            _ => "trace",
        }
    };
    let mut r = "hyprresume=".to_owned();
    r.append(level);
    proof {
        reveal_strlit("hyprresume=");
        reveal_strlit("off");
        reveal_strlit("hyprresume=off");
    }
    assert("hyprresume="@ + "off"@ =~= "hyprresume=off"@);
    r
}

// ---------------------------------------------------------------------------
// Times
// ---------------------------------------------------------------------------

/// The text of a point in time in UTC by a format, if there is such a point:
/// `secs` seconds and `nanos` nanoseconds after the epoch.
pub uninterp spec fn utc_text(secs: i64, nanos: u32, format: Seq<char>) -> Option<Seq<char>>;

/// The format in which times are shown.
pub open spec fn time_format() -> Seq<char> {
    "%Y-%m-%d %H:%M:%S"@
}

/// `chrono::DateTime::from_timestamp` makes a point in time, and its `format`
/// writes it down. What is written depends on the arguments alone. For fewer
/// nanoseconds than a second has, there is such a point if and only if its date
/// lies between the years -262143 and 262142.
#[verifier::external_body]
fn format_utc(secs: i64, nanos: u32, format: &str) -> (r: Option<String>)
    requires
        format@ == time_format(),
    ensures
        text::opt_view(r) == utc_text(secs, nanos, format@),
        nanos < 1_000_000_000 ==> (r is Some <==> -8_334_601_228_800 <= secs
            <= 8_210_266_876_799),
{
    match chrono::DateTime::from_timestamp(secs, nanos) {
        Some(time) => Some(time.format(format).to_string()),
        None => None,
    }
}

/// How a time is shown that may not exist.
pub open spec fn shown_time(time: Option<Seq<char>>) -> Seq<char> {
    match time {
        Some(t) => t,
        None => "unknown"@,
    }
}

/// How a time is shown that may not exist.
pub fn time_or_unknown(time: Option<String>) -> (r: String)
    ensures
        r@ == shown_time(text::opt_view(time)),
{
    match time {
        Some(t) => t,
        None => "unknown".to_owned(),
    }
}

/// How the time is shown at which a session was saved.
pub open spec fn saved_at_text(timestamp: i64) -> Seq<char> {
    shown_time(utc_text(timestamp, 0, time_format()))
}

/// How the time is shown at which a session was saved.
pub fn saved_at(timestamp: i64) -> (r: String)
    ensures
        r@ == saved_at_text(timestamp),
        !(-8_334_601_228_800 <= timestamp <= 8_210_266_876_799) ==> r@ == "unknown"@,
{
    time_or_unknown(format_utc(timestamp, 0, "%Y-%m-%d %H:%M:%S"))
}

// ---------------------------------------------------------------------------
// Sessions
// ---------------------------------------------------------------------------

/// `n` spaces.
pub open spec fn spaces(n: nat) -> Seq<char> {
    Seq::new(n, |i: int| ' ')
}

/// `s` with spaces behind it, so that it fills `width` places.
pub open spec fn padded(s: Seq<char>, width: nat) -> Seq<char> {
    if s.len() < width {
        s + spaces((width - s.len()) as nat)
    } else {
        s
    }
}

/// `s` with spaces behind it, so that it fills `width` places.
pub fn pad(s: &str, width: usize) -> (r: String)
    ensures
        r@ == padded(s@, width as nat),
{
    let n: usize = text::chars_of(s).len();
    let mut r = s.to_owned();
    let mut i: usize = n;
    assert(s@ + spaces(0) =~= s@);
    while i < width
        invariant
            n == s@.len(),
            n <= i,
            i <= width || i == n,
            r@ == s@ + spaces((i - n) as nat),
        decreases width - i,
    {
        r.push(' ');
        i += 1;
        assert(r@ =~= s@ + spaces((i - n) as nat));
    }
    r
}

/// The name of the session that is meant if none is given.
pub fn session_name(name: Option<&str>) -> (r: &str)
    ensures
        r@ == match name {
            Some(given) => given@,
            None => "last"@,
        },
{
    match name {
        Some(given) => given,
        None => "last",
    }
}

/// The row of a session in the list.
pub open spec fn row_text(name: Seq<char>, time: Seq<char>) -> Seq<char> {
    padded(name, 20) + " "@ + padded(time, 24)
}

/// The lines of a list of sessions.
pub open spec fn list_lines(sessions: Seq<(String, i64)>) -> Seq<Seq<char>> {
    if sessions.len() == 0 {
        seq!["No saved sessions."@]
    } else {
        seq![row_text("NAME"@, "SAVED AT"@) + " "@] + sessions.map_values(
            |s: (String, i64)| row_text(s.0@, saved_at_text(s.1)),
        )
    }
}

/// The row of a session in the list.
pub fn session_row(name: &str, time: &str) -> (r: String)
    ensures
        r@ == row_text(name@, time@),
{
    let mut r = pad(name, 20);
    r.append(" ");
    r.append(pad(time, 24).as_str());
    r
}

/// The lines that list `sessions`, each given by its name and the time at which
/// it was saved.
pub fn cmd_list(sessions: &Vec<(String, i64)>) -> (r: Vec<String>)
    ensures
        text::views(r@) == list_lines(sessions@),
{
    let mut r: Vec<String> = Vec::new();
    if sessions.len() == 0 {
        r.push("No saved sessions.".to_owned());
        assert(text::views(r@) =~= list_lines(sessions@));
        return r;
    }
    let mut header = session_row("NAME", "SAVED AT");
    header.append(" ");
    r.push(header);
    let mut i: usize = 0;
    assert(text::views(r@) =~= list_lines(sessions@).take(1));
    while i < sessions.len()
        invariant
            i <= sessions@.len(),
            sessions@.len() > 0,
            text::views(r@) == list_lines(sessions@).take(i + 1),
        decreases sessions@.len() - i,
    {
        let ghost before = text::views(r@);
        let time = saved_at(sessions[i].1);
        let row = session_row(sessions[i].0.as_str(), time.as_str());
        let ghost shown = row@;
        r.push(row);
        assert(text::views(r@) =~= before.push(shown));
        assert(shown == list_lines(sessions@)[i + 1]);
        i += 1;
        assert(text::views(r@) =~= list_lines(sessions@).take(i + 1));
    }
    assert(list_lines(sessions@).take(i + 1) =~= list_lines(sessions@));
    r
}

/// What is said once a session is saved at `path`.
pub fn saved_message(name: &str, path: &str) -> (r: String)
    ensures
        r@ == "Session '"@ + name@ + "' saved to "@ + path@,
{
    let mut r = "Session '".to_owned();
    r.append(name);
    r.append("' saved to ");
    r.append(path);
    r
}

/// What is said once a session is deleted.
pub fn deleted_message(name: &str) -> (r: String)
    ensures
        r@ == "Deleted session '"@ + name@ + "'."@,
{
    let mut r = "Deleted session '".to_owned();
    r.append(name);
    r.append("'.");
    r
}

/// Why a session that is not in `dir` cannot be restored.
pub fn missing_message(name: &str, dir: &str) -> (r: String)
    ensures
        r@ == "session '"@ + name@ + "' not found in "@ + dir@,
{
    let mut r = "session '".to_owned();
    r.append(name);
    r.append("' not found in ");
    r.append(dir);
    r
}

/// `w` is the window `c` as it is saved: `launch_cmd` starts it, and `monitors`
/// names the monitors by their numbers. What is not known is empty.
pub open spec fn saves(
    w: TrackedWindow,
    c: HyprClient,
    launch_cmd: Option<String>,
    profile: Option<String>,
    monitors: Map<i64, String>,
) -> bool {
    &&& w.address == c.address
    &&& w.app_id == c.class
    &&& w.launch_cmd@ == match launch_cmd {
        Some(cmd) => cmd@,
        None => Seq::empty(),
    }
    &&& w.workspace == c.workspace
    &&& w.monitor@ == if monitors.contains_key(c.monitor) {
        monitors[c.monitor]@
    } else {
        Seq::empty()
    }
    &&& w.position == c.at
    &&& w.size == c.size
    &&& w.floating == c.floating
    &&& w.fullscreen == (c.fullscreen_mode > 0)
    &&& w.pid == c.pid
    &&& w.profile == profile
}

/// The window as it is saved.
pub fn tracked_window(
    c: HyprClient,
    launch_cmd: Option<String>,
    profile: Option<String>,
    monitors: &HashMap<i64, String>,
) -> (r: TrackedWindow)
    ensures
        saves(r, c, launch_cmd, profile, monitors@),
{
    let monitor = match monitors.get(&c.monitor) {
        Some(name) => name.clone(),
        None => String::new(),
    };
    let launch_cmd = match launch_cmd {
        Some(cmd) => cmd,
        None => String::new(),
    };
    TrackedWindow {
        address: c.address,
        app_id: c.class,
        launch_cmd,
        workspace: c.workspace,
        monitor,
        position: c.at,
        size: c.size,
        floating: c.floating,
        fullscreen: c.fullscreen_mode > 0,
        pid: c.pid,
        profile,
    }
}

/// The positions at which `marks` is set, in order.
pub open spec fn marked(marks: Seq<bool>) -> Seq<int>
    decreases marks.len(),
{
    if marks.len() == 0 {
        Seq::empty()
    } else if marks.last() {
        marked(marks.drop_last()).push(marks.len() - 1)
    } else {
        marked(marks.drop_last())
    }
}

/// The windows of a session as they are saved: of all windows of the compositor
/// those that are chosen, in order. The other vectors say of each window
/// whether it is, what starts it, and what browser profile it shows.
pub fn tracked_windows(
    clients: Vec<HyprClient>,
    chosen: Vec<bool>,
    commands: Vec<Option<String>>,
    profiles: Vec<Option<String>>,
    monitors: &HashMap<i64, String>,
) -> (r: Vec<TrackedWindow>)
    requires
        chosen@.len() == clients@.len(),
        commands@.len() == clients@.len(),
        profiles@.len() == clients@.len(),
    ensures
        r@.len() == marked(chosen@).len(),
        forall|k: int|
            0 <= k < r@.len() ==> saves(
                #[trigger] r@[k],
                clients@[marked(chosen@)[k]],
                commands@[marked(chosen@)[k]],
                profiles@[marked(chosen@)[k]],
                monitors@,
            ),
{
    let ghost given = clients@;
    let n: usize = clients.len();
    let mut r: Vec<TrackedWindow> = Vec::new();
    let mut i: usize = 0;
    assert(chosen@.take(0) =~= Seq::<bool>::empty());
    for c in it: clients
        invariant
            it.seq() == given,
            given.len() == n,
            n == chosen@.len(),
            n == commands@.len(),
            n == profiles@.len(),
            i == it.index(),
            r@.len() == marked(chosen@.take(i as int)).len(),
            forall|k: int|
                0 <= k < r@.len() ==> saves(
                    #[trigger] r@[k],
                    given[marked(chosen@.take(i as int))[k]],
                    commands@[marked(chosen@.take(i as int))[k]],
                    profiles@[marked(chosen@.take(i as int))[k]],
                    monitors@,
                ),
    {
        let ghost before = marked(chosen@.take(i as int));
        let ghost after = marked(chosen@.take(i + 1));
        let ghost done = r@;
        assert(chosen@.take(i + 1).drop_last() =~= chosen@.take(i as int));
        assert(given[i as int] == c);
        if chosen[i] {
            let launch_cmd = match &commands[i] {
                Some(cmd) => Some(cmd.clone()),
                None => None,
            };
            let profile = match &profiles[i] {
                Some(profile) => Some(profile.clone()),
                None => None,
            };
            r.push(tracked_window(c, launch_cmd, profile, monitors));
        }
        assert forall|k: int| 0 <= k < r@.len() implies saves(
            #[trigger] r@[k],
            given[after[k]],
            commands@[after[k]],
            profiles@[after[k]],
            monitors@,
        ) by {
            if k < done.len() {
                assert(done[k] == r@[k]);
                assert(after[k] == before[k]);
            }
        }
        i += 1;
    }
    assert(chosen@.take(i as int) =~= chosen@);
    r
}

/// The windows that are saved are exactly those that are chosen, each once
/// and in the order of the compositor.
pub proof fn marked_exactly(marks: Seq<bool>)
    ensures
        forall|k: int|
            0 <= k < marked(marks).len() ==> 0 <= #[trigger] marked(marks)[k] < marks.len()
                && marks[marked(marks)[k]],
        forall|k: int, j: int|
            0 <= k < j < marked(marks).len() ==> marked(marks)[k] < marked(marks)[j],
        forall|i: int|
            0 <= i < marks.len() && #[trigger] marks[i] ==> marked(marks).contains(i),
    decreases marks.len(),
{
    if marks.len() > 0 {
        let head = marks.drop_last();
        marked_exactly(head);
        assert forall|k: int| 0 <= k < marked(marks).len() implies 0 <= #[trigger] marked(marks)[k]
            < marks.len() && marks[marked(marks)[k]] by {
            if k < marked(head).len() {
                assert(head[marked(head)[k]]);
            }
        }
        assert forall|i: int| 0 <= i < marks.len() && #[trigger] marks[i] implies marked(
            marks,
        ).contains(i) by {
            if i < head.len() {
                assert(head[i]);
                let k = choose|k: int| 0 <= k < marked(head).len() && marked(head)[k] == i;
                assert(marked(marks)[k] == i);
            } else {
                assert(marked(marks)[marked(head).len() as int] == i);
            }
        }
    }
}

// ---------------------------------------------------------------------------
// Restores
// ---------------------------------------------------------------------------

/// How a restore with this report went, in one line.
pub open spec fn summary_text(restored: nat, failed: nat) -> Seq<char> {
    "Restored "@ + text::decimal(restored) + "/"@ + text::decimal(restored + failed) + " apps"@ + (
    if failed > 0 {
        " ("@ + text::decimal(failed) + " failed)"@
    } else {
        Seq::empty()
    })
}

/// How a restore with this report went, in one line.
pub fn restore_summary(report: &RestoreReport) -> (r: String)
    ensures
        r@ == summary_text(report.restored as nat, report.failed as nat),
{
    let restored: u128 = report.restored as u128;
    let failed: u128 = report.failed as u128;
    let mut r = "Restored ".to_owned();
    r.append(decimal_of(restored).as_str());
    r.append("/");
    r.append(decimal_of(restored + failed).as_str());
    r.append(" apps");
    if failed > 0 {
        r.append(" (");
        r.append(decimal_of(failed).as_str());
        r.append(" failed)");
    }
    assert(r@ =~= summary_text(report.restored as nat, report.failed as nat));
    r
}

/// The line that says why an application was not restored.
pub open spec fn failure_text(failure: (Seq<char>, Seq<char>)) -> Seq<char> {
    "  "@ + failure.0 + ": "@ + failure.1
}

/// The lines that say why applications were not restored.
pub fn failure_lines(report: &RestoreReport) -> (r: Vec<String>)
    ensures
        text::views(r@) == restore::error_views(report.errors@).map_values(
            |e: (Seq<char>, Seq<char>)| failure_text(e),
        ),
{
    let errors = &report.errors;
    let ghost all = restore::error_views(errors@).map_values(
        |e: (Seq<char>, Seq<char>)| failure_text(e),
    );
    let mut r: Vec<String> = Vec::new();
    let mut i: usize = 0;
    assert(text::views(r@) =~= all.take(0));
    while i < errors.len()
        invariant
            i <= errors@.len(),
            all == restore::error_views(errors@).map_values(
                |e: (Seq<char>, Seq<char>)| failure_text(e),
            ),
            text::views(r@) == all.take(i as int),
        decreases errors@.len() - i,
    {
        let ghost before = text::views(r@);
        let mut line = "  ".to_owned();
        line.append(errors[i].0.as_str());
        line.append(": ");
        line.append(errors[i].1.as_str());
        let ghost shown = line@;
        r.push(line);
        assert(text::views(r@) =~= before.push(shown));
        i += 1;
        assert(text::views(r@) =~= all.take(i as int));
    }
    assert(all.take(i as int) =~= all);
    r
}

// ---------------------------------------------------------------------------
// Resolving commands
// ---------------------------------------------------------------------------

/// The process of the first of `clients` with the class `class`, or -1.
pub open spec fn pid_of(clients: Seq<HyprClient>, class: Seq<char>) -> int
    decreases clients.len(),
{
    if clients.len() == 0 {
        -1
    } else if clients[0].class@ == class {
        clients[0].pid as int
    } else {
        pid_of(clients.drop_first(), class)
    }
}

/// The process of the first of `clients` with the class `class`. It is -1 if
/// there is none, or if the windows are not known.
pub fn class_pid(clients: Option<&Vec<HyprClient>>, class: &str) -> (r: i32)
    ensures
        r == match clients {
            Some(known) => pid_of(known@, class@),
            None => -1int,
        },
{
    match clients {
        None => -1,
        Some(known) => {
            let mut i: usize = 0;
            assert(known@.skip(0) =~= known@);
            while i < known.len()
                invariant
                    i <= known@.len(),
                    clients == Some(known),
                    pid_of(known@, class@) == pid_of(known@.skip(i as int), class@),
                decreases known@.len() - i,
            {
                if str_eq(known[i].class.as_str(), class) {
                    return known[i].pid;
                }
                assert(known@.skip(i as int).drop_first() =~= known@.skip(i + 1));
                i += 1;
            }
            -1
        },
    }
}

/// What is said of the command `cmd` that the class `class` resolves to: an error
/// if there is none.
pub fn resolved_message(class: &str, cmd: Option<&str>) -> (r: Result<String, String>)
    ensures
        cmd matches Some(found) ==> (r matches Ok(line) && line@ == class@ + " → "@ + found@),
        cmd is None ==> (r matches Err(line) && line@ == "Could not resolve '"@ + class@
            + "' to a launch command"@),
{
    match cmd {
        Some(found) => {
            let mut line = class.to_owned();
            line.append(" → ");
            line.append(found);
            Ok(line)
        },
        None => {
            let mut line = "Could not resolve '".to_owned();
            line.append(class);
            line.append("' to a launch command");
            Err(line)
        },
    }
}

// ---------------------------------------------------------------------------
// The plugin
// ---------------------------------------------------------------------------

/// The directory that the plugin is installed in.
pub open spec fn plugin_dir_text(data_dir: Option<Seq<char>>) -> Seq<char> {
    client::path_join(
        match data_dir {
            Some(dir) => dir,
            None => "~/.local/share"@,
        },
        "hyprresume"@,
    )
}

/// The directory that the plugin is installed in, below the user's data
/// directory if that is known.
pub fn plugin_dir(data_dir: Option<&str>) -> (r: String)
    ensures
        r@ == plugin_dir_text(
            match data_dir {
                Some(dir) => Some(dir@),
                None => None,
            },
        ),
{
    let base = match data_dir {
        Some(dir) => dir,
        None => "~/.local/share",
    };
    join_path(base, "hyprresume")
}

/// Where the plugin is installed.
pub fn plugin_path(data_dir: Option<&str>) -> (r: String)
    ensures
        r@ == client::path_join(
            plugin_dir_text(
                match data_dir {
                    Some(dir) => Some(dir@),
                    None => None,
                },
            ),
            "hyprland-sessionctl.so"@,
        ),
{
    join_path(plugin_dir(data_dir).as_str(), "hyprland-sessionctl.so")
}

/// Where a built plugin may be found, the likeliest place first: beside the
/// program, which is in the directory `dir`, and in the directory `above` that.
pub fn bundled_plugin_places(dir: Option<&str>, above: Option<&str>) -> (r: Vec<String>)
    ensures
        text::views(r@) == (match dir {
            Some(d) => seq![client::path_join(d@, "libhyprresume_plugin.so"@)],
            None => Seq::empty(),
        }) + (match above {
            Some(d) => seq![client::path_join(d@, "libhyprresume_plugin.so"@)],
            None => Seq::empty(),
        }),
{
    let mut r: Vec<String> = Vec::new();
    let ghost first: Seq<Seq<char>> = match dir {
        Some(d) => seq![client::path_join(d@, "libhyprresume_plugin.so"@)],
        None => Seq::empty(),
    };
    if let Some(d) = dir {
        r.push(join_path(d, "libhyprresume_plugin.so"));
    }
    assert(text::views(r@) =~= first);
    let ghost before = r@;
    if let Some(d) = above {
        r.push(join_path(d, "libhyprresume_plugin.so"));
        assert(text::views(r@) =~= text::views(before).push(
            client::path_join(d@, "libhyprresume_plugin.so"@),
        ));
    }
    assert(text::views(r@) =~= first + (match above {
        Some(d) => seq![client::path_join(d@, "libhyprresume_plugin.so"@)],
        None => Seq::empty(),
    }));
    r
}

/// What is said once the compositor has answered the request to load the plugin:
/// an error unless the answer is good.
pub fn load_outcome(reply: &str) -> (r: Result<String, String>)
    ensures
        text::has_substring(reply@, "ok"@) ==> (r matches Ok(line) && line@ == "Plugin loaded."@),
        !text::has_substring(reply@, "ok"@) ==> (r matches Err(line) && line@
            == "failed to load plugin: "@ + reply@),
{
    if contains(reply, "ok") {
        Ok("Plugin loaded.".to_owned())
    } else {
        let mut line = "failed to load plugin: ".to_owned();
        line.append(reply);
        Err(line)
    }
}

/// What is said once the plugin is unloaded and its file, if there was one, is
/// gone.
pub fn removed_message(was_installed: bool) -> (r: String)
    ensures
        r@ == if was_installed {
            "Plugin removed."@
        } else {
            "Plugin not installed."@
        },
{
    if was_installed {
        "Plugin removed.".to_owned()
    } else {
        "Plugin not installed.".to_owned()
    }
}

/// Whether the plugin is among those that the compositor lists.
pub fn plugin_listed(list: &str) -> (r: bool)
    ensures
        r == text::has_substring(list@, "hyprland-sessionctl"@),
{
    contains(list, "hyprland-sessionctl")
}

/// The lines that are said of the plugin at `path`.
pub open spec fn plugin_lines(loaded: bool, installed: bool, path: Seq<char>) -> Seq<Seq<char>> {
    if loaded {
        seq!["Plugin is loaded."@]
    } else if installed {
        seq![
            "Plugin is not loaded."@,
            "  Installed at: "@ + path,
            "  Run `hyprresume plugin install` to load it."@,
        ]
    } else {
        seq![
            "Plugin is not loaded."@,
            "  Run `hyprresume plugin install` to install and load it."@,
        ]
    }
}

/// What is said of the plugin at `path`.
pub fn plugin_status(loaded: bool, installed: bool, path: &str) -> (r: Vec<String>)
    ensures
        text::views(r@) == plugin_lines(loaded, installed, path@),
{
    let mut r: Vec<String> = Vec::new();
    if loaded {
        r.push("Plugin is loaded.".to_owned());
    } else {
        r.push("Plugin is not loaded.".to_owned());
        if installed {
            let mut line = "  Installed at: ".to_owned();
            line.append(path);
            r.push(line);
            r.push("  Run `hyprresume plugin install` to load it.".to_owned());
        } else {
            r.push("  Run `hyprresume plugin install` to install and load it.".to_owned());
        }
    }
    assert(text::views(r@) =~= plugin_lines(loaded, installed, path@));
    r
}

// ---------------------------------------------------------------------------
// Status
// ---------------------------------------------------------------------------

/// The session that was saved last.
pub enum LastSession<'a> {
    /// There is none.
    Missing,
    /// It cannot be read, for the given reason.
    Unreadable(&'a str),
    /// It is this one.
    Saved(&'a SessionFile),
}

/// What is said of the session that was saved last.
pub open spec fn last_session_text(last: LastSession<'_>) -> Seq<char> {
    match last {
        LastSession::Missing => "No saved session."@,
        LastSession::Unreadable(reason) => "Last session: error reading ("@ + reason@ + ")"@,
        LastSession::Saved(session) => "Last session: "@ + text::decimal(session.windows@.len())
            + " apps, saved at "@ + saved_at_text(session.session.timestamp),
    }
}

/// What is said of a compositor that shows `windows` windows.
pub fn running_message(windows: usize) -> (r: String)
    ensures
        r@ == "Hyprland is running ("@ + text::decimal(windows as nat) + " windows)"@,
{
    let mut r = "Hyprland is running (".to_owned();
    r.append(decimal_of(windows as u128).as_str());
    r.append(" windows)");
    r
}

/// What is said of a compositor that does not answer.
pub fn unreachable_message(reason: &str) -> (r: String)
    ensures
        r@ == "Cannot connect to Hyprland: "@ + reason@,
{
    let mut r = "Cannot connect to Hyprland: ".to_owned();
    r.append(reason);
    r
}

/// What is said of the session that was saved last, and of the places where
/// sessions and the configuration are kept.
pub fn cmd_status(last: LastSession<'_>, session_dir: &str, config: &str) -> (r: Vec<String>)
    ensures
        text::views(r@) == seq![
            last_session_text(last),
            "Session dir: "@ + session_dir@,
            "Config: "@ + config@,
        ],
{
    let first = match last {
        LastSession::Missing => "No saved session.".to_owned(),
        LastSession::Unreadable(reason) => {
            let mut line = "Last session: error reading (".to_owned();
            line.append(reason);
            line.append(")");
            line
        },
        LastSession::Saved(session) => {
            let mut line = "Last session: ".to_owned();
            line.append(decimal_of(session.windows.len() as u128).as_str());
            line.append(" apps, saved at ");
            line.append(saved_at(session.session.timestamp).as_str());
            line
        },
    };
    let mut second = "Session dir: ".to_owned();
    second.append(session_dir);
    let mut third = "Config: ".to_owned();
    third.append(config);
    let ghost lines = seq![first@, second@, third@];
    let mut r: Vec<String> = Vec::new();
    r.push(first);
    r.push(second);
    r.push(third);
    assert(text::views(r@) =~= lines);
    r
}

// ---------------------------------------------------------------------------
// Laws
// ---------------------------------------------------------------------------

/// A window is saved with what the compositor reports of it: it floats if, and only
/// if, it is reported to float, and so on. What starts it and its profile are those
/// that were found out, and its monitor is named as the list of monitors has it.
pub proof fn saved_as_reported(
    c: HyprClient,
    launch_cmd: Option<String>,
    profile: Option<String>,
    monitors: HashMap<i64, String>,
    w: TrackedWindow,
)
    requires
        call_ensures(tracked_window, (c, launch_cmd, profile, &monitors), w),
    ensures
        w.floating <==> c.floating,
        w.fullscreen <==> c.fullscreen_mode >= 1,
        w.address@ == c.address@,
        w.app_id@ == c.class@,
        w.workspace@ == c.workspace@,
        w.position.0 == c.at.0,
        w.position.1 == c.at.1,
        w.size.0 == c.size.0,
        w.size.1 == c.size.1,
        w.pid == c.pid,
        w.profile == profile,
        launch_cmd matches Some(cmd) ==> w.launch_cmd@ == cmd@,
        launch_cmd is None ==> w.launch_cmd@.len() == 0,
        monitors@.contains_key(c.monitor) ==> w.monitor@ == monitors@[c.monitor]@,
        !monitors@.contains_key(c.monitor) ==> w.monitor@.len() == 0,
{
}

/// Windows that are reported differently are saved differently: whether they float,
/// their workspace, place, size, class, process and address can be told from what
/// is saved.
pub proof fn saved_differently(
    a: HyprClient,
    b: HyprClient,
    launch_cmd: Option<String>,
    profile: Option<String>,
    monitors: HashMap<i64, String>,
    v: TrackedWindow,
    w: TrackedWindow,
)
    requires
        call_ensures(tracked_window, (a, launch_cmd, profile, &monitors), v),
        call_ensures(tracked_window, (b, launch_cmd, profile, &monitors), w),
    ensures
        a.floating != b.floating ==> v.floating != w.floating,
        a.workspace@ != b.workspace@ ==> v.workspace@ != w.workspace@,
        a.at != b.at ==> v.position != w.position,
        a.size != b.size ==> v.size != w.size,
        a.class@ != b.class@ ==> v.app_id@ != w.app_id@,
        a.pid != b.pid ==> v.pid != w.pid,
        a.address@ != b.address@ ==> v.address@ != w.address@,
{
}

/// Of all windows, each one that is chosen is saved as it is reported, with its own
/// command and profile, behind the chosen ones before it; nothing else is saved.
pub proof fn chosen_saved(
    clients: Vec<HyprClient>,
    chosen: Vec<bool>,
    commands: Vec<Option<String>>,
    profiles: Vec<Option<String>>,
    monitors: HashMap<i64, String>,
    r: Vec<TrackedWindow>,
    i: int,
)
    requires
        chosen@.len() == clients@.len(),
        commands@.len() == clients@.len(),
        profiles@.len() == clients@.len(),
        0 <= i < clients@.len(),
        chosen@[i],
        call_ensures(tracked_windows, (clients, chosen, commands, profiles, &monitors), r),
    ensures
        r@.len() == chosen_before(chosen@, chosen@.len() as int),
        chosen_before(chosen@, i) < r@.len(),
        ({
            let w = r@[chosen_before(chosen@, i) as int];
            &&& w.floating <==> clients@[i].floating
            &&& w.fullscreen <==> clients@[i].fullscreen_mode >= 1
            &&& w.address@ == clients@[i].address@
            &&& w.app_id@ == clients@[i].class@
            &&& w.workspace@ == clients@[i].workspace@
            &&& w.position == clients@[i].at
            &&& w.size == clients@[i].size
            &&& w.pid == clients@[i].pid
            &&& w.profile == profiles@[i]
            &&& commands@[i] matches Some(cmd) ==> w.launch_cmd@ == cmd@
            &&& commands@[i] is None ==> w.launch_cmd@.len() == 0
            &&& monitors@.contains_key(clients@[i].monitor) ==> w.monitor@
                == monitors@[clients@[i].monitor]@
            &&& !monitors@.contains_key(clients@[i].monitor) ==> w.monitor@.len() == 0
        }),
{
    marked_in_order(chosen@, i);
    let k = chosen_before(chosen@, i) as int;
    assert(saves(
        r@[k],
        clients@[marked(chosen@)[k]],
        commands@[marked(chosen@)[k]],
        profiles@[marked(chosen@)[k]],
        monitors@,
    ));
}

/// How many of the first `i` windows are chosen.
pub open spec fn chosen_before(chosen: Seq<bool>, i: int) -> nat
    decreases i,
{
    if i <= 0 {
        0
    } else {
        chosen_before(chosen, i - 1) + (if chosen[i - 1] {
            1nat
        } else {
            0nat
        })
    }
}

/// The count depends on the windows before alone.
proof fn chosen_in_prefix(head: Seq<bool>, chosen: Seq<bool>, i: int)
    requires
        0 <= i <= head.len() <= chosen.len(),
        forall|k: int| 0 <= k < head.len() ==> head[k] == chosen[k],
    ensures
        chosen_before(head, i) == chosen_before(chosen, i),
    decreases i,
{
    if i > 0 {
        chosen_in_prefix(head, chosen, i - 1);
        assert(head[i - 1] == chosen[i - 1]);
    }
}

/// The position `i`, if it is marked, stands behind the marked positions before it.
proof fn marked_in_order(marks: Seq<bool>, i: int)
    requires
        0 <= i < marks.len(),
        marks[i],
    ensures
        marked(marks).len() == chosen_before(marks, marks.len() as int),
        chosen_before(marks, i) < marked(marks).len(),
        marked(marks)[chosen_before(marks, i) as int] == i,
    decreases marks.len(),
{
    let head = marks.drop_last();
    marked_len(marks);
    marked_len(head);
    chosen_in_prefix(head, marks, head.len() as int);
    if i < head.len() {
        chosen_in_prefix(head, marks, i);
        assert(head[i]);
        marked_in_order(head, i);
    }
}

/// As many positions are listed as are marked.
proof fn marked_len(marks: Seq<bool>)
    ensures
        marked(marks).len() == chosen_before(marks, marks.len() as int),
    decreases marks.len(),
{
    if marks.len() > 0 {
        let head = marks.drop_last();
        marked_len(head);
        chosen_in_prefix(head, marks, head.len() as int);
    }
}

} // verus!
