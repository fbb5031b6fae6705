//! What the command line says, case by case.

use vstd::prelude::*;

use crate::cli::{self, LastSession};
use crate::client::EnvError;
use crate::models::{HyprClient, SessionFile};
use crate::restore::{self, RestoreReport};
use crate::run::RestoreError;
use crate::text;

verus! {

broadcast use vstd::string::group_string_axioms;

// ---------------------------------------------------------------------------
// Logging and times
// ---------------------------------------------------------------------------

/// A quiet program logs nothing; otherwise each `-v` adds a level, up to the last.
pub proof fn log_levels(verbose: u8, quiet: bool, r: String)
    requires
        call_ensures(cli::log_filter, (verbose, quiet), r),
    ensures
        quiet ==> r@ == "hyprresume=off"@,
        !quiet && verbose == 0 ==> r@ == "hyprresume=warn"@,
        !quiet && verbose == 1 ==> r@ == "hyprresume=info"@,
        !quiet && verbose == 2 ==> r@ == "hyprresume=debug"@,
        !quiet && verbose > 2 ==> r@ == "hyprresume=trace"@,
{
    reveal_strlit("hyprresume=");
    reveal_strlit("warn");
    reveal_strlit("info");
    reveal_strlit("debug");
    reveal_strlit("trace");
    reveal_strlit("hyprresume=warn");
    reveal_strlit("hyprresume=info");
    reveal_strlit("hyprresume=debug");
    reveal_strlit("hyprresume=trace");
    assert("hyprresume="@ + "warn"@ =~= "hyprresume=warn"@);
    assert("hyprresume="@ + "info"@ =~= "hyprresume=info"@);
    assert("hyprresume="@ + "debug"@ =~= "hyprresume=debug"@);
    assert("hyprresume="@ + "trace"@ =~= "hyprresume=trace"@);
}

/// A time is shown in UTC, to the second, or as unknown where there is no such time.
pub proof fn times_shown(timestamp: i64, time: Option<String>, r: String, s: String)
    requires
        call_ensures(cli::saved_at, (timestamp,), r),
        call_ensures(cli::time_or_unknown, (time,), s),
    ensures
        cli::utc_text(timestamp, 0, "%Y-%m-%d %H:%M:%S"@) matches Some(t) ==> r@ == t,
        cli::utc_text(timestamp, 0, "%Y-%m-%d %H:%M:%S"@) is None ==> r@ == "unknown"@,
        time matches Some(t) ==> s@ == t@,
        time is None ==> s@ == "unknown"@,
{
}

// ---------------------------------------------------------------------------
// Sessions
// ---------------------------------------------------------------------------

/// The last session is meant unless another is named.
pub proof fn session_meant(name: Option<&str>, r: &str)
    requires
        call_ensures(cli::session_name, (name,), r),
    ensures
        name matches Some(given) ==> r@ == given@,
        name is None ==> r@ == "last"@,
{
}

/// `shown` is `s` with blanks behind it, at least `width` places long and no longer
/// than needed.
pub open spec fn fills(shown: Seq<char>, s: Seq<char>, width: int) -> bool {
    &&& shown.len() == if s.len() < width {
        width
    } else {
        s.len() as int
    }
    &&& forall|i: int| 0 <= i < s.len() ==> #[trigger] shown[i] == s[i]
    &&& forall|i: int| s.len() <= i < shown.len() ==> #[trigger] shown[i] == ' '
}

/// A text is filled up with blanks, and never cut.
pub proof fn filled_up(s: &str, width: usize, r: String)
    requires
        call_ensures(cli::pad, (s, width), r),
    ensures
        fills(r@, s@, width as int),
{
}

/// `line` is a row of the list: the name in twenty places, a blank, and the time in
/// twenty-four.
pub open spec fn is_row(line: Seq<char>, name: Seq<char>, time: Seq<char>) -> bool {
    let n: int = if name.len() < 20 {
        20
    } else {
        name.len() as int
    };
    &&& line.len() > n
    &&& fills(line.take(n), name, 20)
    &&& line[n] == ' '
    &&& fills(line.skip(n + 1), time, 24)
}

/// A row is made of its two parts.
proof fn row_parts(name: Seq<char>, time: Seq<char>)
    ensures
        is_row(cli::row_text(name, time), name, time),
{
    reveal_strlit(" ");
    let line = cli::row_text(name, time);
    let a = cli::padded(name, 20);
    let b = cli::padded(time, 24);
    let n = a.len() as int;
    assert(line.take(n) =~= a);
    assert(line.skip(n + 1) =~= b);
    assert(line[n] == ' ');
}

/// The row of a session holds its name and its time.
pub proof fn row_made(name: &str, time: &str, r: String)
    requires
        call_ensures(cli::session_row, (name, time), r),
    ensures
        is_row(r@, name@, time@),
{
    row_parts(name@, time@);
}

/// The list has a heading, and a row for each session in order, with its own name and
/// its own time; without sessions it says so.
pub proof fn sessions_listed(sessions: Vec<(String, i64)>, r: Vec<String>, k: int, time: String)
    requires
        call_ensures(cli::cmd_list, (&sessions,), r),
        0 <= k < sessions@.len() ==> call_ensures(cli::saved_at, (sessions@[k].1,), time),
    ensures
        sessions@.len() == 0 ==> r@.len() == 1 && r@[0]@ == "No saved sessions."@,
        sessions@.len() > 0 ==> r@.len() == sessions@.len() + 1 && is_row(
            r@[0]@.drop_last(),
            "NAME"@,
            "SAVED AT"@,
        ) && r@[0]@.last() == ' ',
        0 <= k < sessions@.len() ==> is_row(r@[k + 1]@, sessions@[k].0@, time@),
{
    reveal_strlit(" ");
    let all = cli::list_lines(sessions@);
    assert(text::views(r@).len() == r@.len());
    assert(text::views(r@)[0] == r@[0]@);
    if sessions@.len() > 0 {
        let heading = cli::row_text("NAME"@, "SAVED AT"@);
        row_parts("NAME"@, "SAVED AT"@);
        assert(r@[0]@ == heading + " "@);
        assert((heading + " "@).drop_last() =~= heading);
    }
    if 0 <= k < sessions@.len() {
        assert(text::views(r@)[k + 1] == r@[k + 1]@);
        assert(all[k + 1] == cli::row_text(sessions@[k].0@, cli::saved_at_text(sessions@[k].1)));
        row_parts(sessions@[k].0@, time@);
    }
}

/// Saving, deleting and missing a session are each said with its name.
pub proof fn session_messages(name: &str, place: &str, a: String, b: String, c: String)
    requires
        call_ensures(cli::saved_message, (name, place), a),
        call_ensures(cli::deleted_message, (name,), b),
        call_ensures(cli::missing_message, (name, place), c),
    ensures
        a@ == "Session '"@ + name@ + "' saved to "@ + place@,
        b@ == "Deleted session '"@ + name@ + "'."@,
        c@ == "session '"@ + name@ + "' not found in "@ + place@,
{
}

// ---------------------------------------------------------------------------
// Restores
// ---------------------------------------------------------------------------

/// The summary gives the number of windows that were restored, that of all that were
/// tried, and that of the failures if there are any.
pub proof fn summary_given(report: RestoreReport, r: String)
    requires
        call_ensures(cli::restore_summary, (&report,), r),
    ensures
        report.failed == 0 ==> r@ == "Restored "@ + text::decimal(report.restored as nat) + "/"@
            + text::decimal(report.restored as nat) + " apps"@,
        report.failed > 0 ==> r@ == "Restored "@ + text::decimal(report.restored as nat) + "/"@
            + text::decimal((report.restored + report.failed) as nat) + " apps"@ + (" ("@
            + text::decimal(report.failed as nat) + " failed)"@),
{
    let a = "Restored "@ + text::decimal(report.restored as nat) + "/"@ + text::decimal(
        report.restored as nat,
    ) + " apps"@;
    assert(a + Seq::<char>::empty() =~= a);
}

/// Each failure is said on a line of its own, with its application and its reason.
pub proof fn failures_said(report: RestoreReport, r: Vec<String>, k: int)
    requires
        call_ensures(cli::failure_lines, (&report,), r),
    ensures
        r@.len() == report.errors@.len(),
        0 <= k < r@.len() ==> r@[k]@ == "  "@ + report.errors@[k].0@ + ": "@
            + report.errors@[k].1@,
{
    assert(text::views(r@).len() == r@.len());
    if 0 <= k < r@.len() {
        assert(text::views(r@)[k] == r@[k]@);
        assert(restore::error_views(report.errors@)[k] == (
            report.errors@[k].0@,
            report.errors@[k].1@,
        ));
    }
}

/// Each error has its own message; that of a request that failed is the request's.
pub proof fn restore_errors_said(error: RestoreError, r: Option<String>)
    requires
        call_ensures(RestoreError::message, (&error,), r),
    ensures
        r is None <==> error == RestoreError::Ipc,
        error == RestoreError::Unsupported ==> r->0@
            == "compositor does not support sessionctl — cannot restore session"@,
        error == RestoreError::BeginFailed ==> r->0@ == "sessionctl begin failed"@,
        error == RestoreError::EndFailed ==> r->0@ == "sessionctl end failed"@,
{
}

/// Without an instance, the variable is named that should name it.
pub proof fn environment_error_said(error: EnvError, r: String)
    requires
        call_ensures(EnvError::message, (&error,), r),
    ensures
        r@ == "HYPRLAND_INSTANCE_SIGNATURE not set — is Hyprland running?"@,
{
}

// ---------------------------------------------------------------------------
// Commands
// ---------------------------------------------------------------------------

/// The process of a class is that of the first window with the class.
pub proof fn first_process_found(clients: Vec<HyprClient>, class: &str, i: int, r: i32)
    requires
        0 <= i < clients@.len(),
        clients@[i].class@ == class@,
        forall|j: int| 0 <= j < i ==> (#[trigger] clients@[j]).class@ != class@,
        call_ensures(cli::class_pid, (Some(&clients), class), r),
    ensures
        r == clients@[i].pid,
{
    first_pid(clients@, class@, i);
}

/// The first window with a class gives its process.
proof fn first_pid(clients: Seq<HyprClient>, class: Seq<char>, i: int)
    requires
        0 <= i < clients.len(),
        clients[i].class@ == class,
        forall|j: int| 0 <= j < i ==> (#[trigger] clients[j]).class@ != class,
    ensures
        cli::pid_of(clients, class) == clients[i].pid,
    decreases clients.len(),
{
    if i > 0 {
        let tail = clients.drop_first();
        assert(clients[0].class@ != class);
        assert forall|j: int| 0 <= j < i - 1 implies (#[trigger] tail[j]).class@ != class by {
            assert(clients[j + 1].class@ != class);
        }
        first_pid(tail, class, i - 1);
    }
}

/// A class of which there is no window, or of which that is not known, has no
/// process.
pub proof fn no_process_found(clients: Option<&Vec<HyprClient>>, class: &str, r: i32)
    requires
        clients matches Some(known) ==> forall|j: int|
            0 <= j < known@.len() ==> (#[trigger] known@[j]).class@ != class@,
        call_ensures(cli::class_pid, (clients, class), r),
    ensures
        r == -1,
{
    if let Some(known) = clients {
        no_pid(known@, class@);
    }
}

/// Without a window of the class there is no process.
proof fn no_pid(clients: Seq<HyprClient>, class: Seq<char>)
    requires
        forall|j: int| 0 <= j < clients.len() ==> (#[trigger] clients[j]).class@ != class,
    ensures
        cli::pid_of(clients, class) == -1,
    decreases clients.len(),
{
    if clients.len() > 0 {
        let tail = clients.drop_first();
        assert(clients[0].class@ != class);
        assert forall|j: int| 0 <= j < tail.len() implies (#[trigger] tail[j]).class@ != class by {
            assert(clients[j + 1].class@ != class);
        }
        no_pid(tail, class);
    }
}

/// A class is shown with the command that it resolves to; without one it is an error.
pub proof fn resolution_said(class: &str, cmd: Option<&str>, r: Result<String, String>)
    requires
        call_ensures(cli::resolved_message, (class, cmd), r),
    ensures
        r is Ok <==> cmd is Some,
        cmd matches Some(found) ==> r->Ok_0@ == class@ + " → "@ + found@,
        cmd is None ==> r->Err_0@ == "Could not resolve '"@ + class@
            + "' to a launch command"@,
{
}

// ---------------------------------------------------------------------------
// The plugin
// ---------------------------------------------------------------------------

/// The plugin is installed in the program's directory below the user's data
/// directory.
pub proof fn plugin_installed_at(data_dir: Option<&str>, a: String, b: String)
    requires
        call_ensures(cli::plugin_dir, (data_dir,), a),
        call_ensures(cli::plugin_path, (data_dir,), b),
    ensures
        data_dir is None ==> a@ == "~/.local/share/hyprresume"@,
        data_dir matches Some(dir) ==> a@ == if dir@.len() == 0 || dir@.last() == '/' {
            dir@ + "hyprresume"@
        } else {
            dir@ + "/hyprresume"@
        },
        b@ == a@ + "/hyprland-sessionctl.so"@,
{
    reveal_strlit("~/.local/share");
    reveal_strlit("hyprresume");
    reveal_strlit("/hyprresume");
    reveal_strlit("~/.local/share/hyprresume");
    reveal_strlit("hyprland-sessionctl.so");
    reveal_strlit("/hyprland-sessionctl.so");
    let base = match data_dir {
        Some(dir) => dir@,
        None => "~/.local/share"@,
    };
    if data_dir is None {
        assert(base.push('/') + "hyprresume"@ =~= "~/.local/share/hyprresume"@);
    }
    assert(base.push('/') + "hyprresume"@ =~= base + "/hyprresume"@);
    assert(a@.last() == 'e');
    assert(a@.push('/') + "hyprland-sessionctl.so"@ =~= a@ + "/hyprland-sessionctl.so"@);
}

/// `path` is the file of a built plugin in the directory `dir`.
pub open spec fn built_in(path: Seq<char>, dir: Seq<char>) -> bool {
    path == if dir.len() == 0 || dir.last() == '/' {
        dir + "libhyprresume_plugin.so"@
    } else {
        dir + "/libhyprresume_plugin.so"@
    }
}

/// A built plugin is looked for beside the program first, and then a directory above,
/// as far as these directories are known.
pub proof fn built_plugin_looked_for(dir: Option<&str>, above: Option<&str>, r: Vec<String>)
    requires
        call_ensures(cli::bundled_plugin_places, (dir, above), r),
    ensures
        dir is Some && above is Some ==> r@.len() == 2 && built_in(r@[0]@, dir->0@) && built_in(
            r@[1]@,
            above->0@,
        ),
        dir is Some && above is None ==> r@.len() == 1 && built_in(r@[0]@, dir->0@),
        dir is None && above is Some ==> r@.len() == 1 && built_in(r@[0]@, above->0@),
        dir is None && above is None ==> r@.len() == 0,
{
    reveal_strlit("libhyprresume_plugin.so");
    reveal_strlit("/libhyprresume_plugin.so");
    let file = "libhyprresume_plugin.so"@;
    assert(text::views(r@).len() == r@.len());
    if r@.len() > 0 {
        assert(text::views(r@)[0] == r@[0]@);
    }
    if r@.len() > 1 {
        assert(text::views(r@)[1] == r@[1]@);
    }
    if let Some(d) = dir {
        assert(d@.push('/') + file =~= d@ + "/libhyprresume_plugin.so"@);
    }
    if let Some(d) = above {
        assert(d@.push('/') + file =~= d@ + "/libhyprresume_plugin.so"@);
    }
}

/// Loading has worked if, and only if, the reply says so; otherwise it is given back.
pub proof fn loading_judged(reply: &str, r: Result<String, String>)
    requires
        call_ensures(cli::load_outcome, (reply,), r),
    ensures
        r is Ok <==> exists|before: Seq<char>, after: Seq<char>|
            reply@ == #[trigger] (before + "ok"@ + after),
        r matches Ok(line) ==> line@ == "Plugin loaded."@,
        r matches Err(line) ==> line@ == "failed to load plugin: "@ + reply@,
{
    text::substring_stands_between(Seq::empty(), "ok"@, Seq::empty());
    if exists|before: Seq<char>, after: Seq<char>| reply@ == #[trigger] (before + "ok"@ + after) {
        let (before, after) = choose|before: Seq<char>, after: Seq<char>|
            reply@ == #[trigger] (before + "ok"@ + after);
        text::substring_stands_between(before, "ok"@, after);
    }
}

/// The plugin is loaded if, and only if, its name is in the list.
pub proof fn plugin_found_in_list(list: &str, r: bool)
    requires
        call_ensures(cli::plugin_listed, (list,), r),
    ensures
        r <==> exists|before: Seq<char>, after: Seq<char>|
            list@ == #[trigger] (before + "hyprland-sessionctl"@ + after),
{
    let name = "hyprland-sessionctl"@;
    text::substring_stands_between(Seq::empty(), name, Seq::empty());
    if exists|before: Seq<char>, after: Seq<char>| list@ == #[trigger] (before + name + after) {
        let (before, after) = choose|before: Seq<char>, after: Seq<char>|
            list@ == #[trigger] (before + name + after);
        text::substring_stands_between(before, name, after);
    }
}

/// What is said of the plugin depends on whether it is loaded, and otherwise on
/// whether it is installed; where it is installed is said only if it helps.
pub proof fn plugin_state_said(
    loaded: bool,
    installed: bool,
    path: &str,
    r: Vec<String>,
    s: String,
)
    requires
        call_ensures(cli::plugin_status, (loaded, installed, path), r),
        call_ensures(cli::removed_message, (installed,), s),
    ensures
        loaded ==> r@.len() == 1 && r@[0]@ == "Plugin is loaded."@,
        !loaded && installed ==> r@.len() == 3 && r@[0]@ == "Plugin is not loaded."@ && r@[1]@
            == "  Installed at: "@ + path@ && r@[2]@
            == "  Run `hyprresume plugin install` to load it."@,
        !loaded && !installed ==> r@.len() == 2 && r@[0]@ == "Plugin is not loaded."@ && r@[1]@
            == "  Run `hyprresume plugin install` to install and load it."@,
        installed ==> s@ == "Plugin removed."@,
        !installed ==> s@ == "Plugin not installed."@,
{
    assert(text::views(r@).len() == r@.len());
    assert(text::views(r@)[0] == r@[0]@);
    if !loaded {
        assert(text::views(r@)[1] == r@[1]@);
        if installed {
            assert(text::views(r@)[2] == r@[2]@);
        }
    }
}

// ---------------------------------------------------------------------------
// Status
// ---------------------------------------------------------------------------

/// A running compositor is shown with the number of its windows, and one that does
/// not answer with the reason.
pub proof fn compositor_said(windows: usize, reason: &str, a: String, b: String)
    requires
        call_ensures(cli::running_message, (windows,), a),
        call_ensures(cli::unreachable_message, (reason,), b),
    ensures
        a@ == "Hyprland is running ("@ + text::decimal(windows as nat) + " windows)"@,
        b@ == "Cannot connect to Hyprland: "@ + reason@,
{
}

/// The places where sessions and the configuration are kept are said whatever the
/// last session is.
pub proof fn places_said(last: LastSession<'_>, session_dir: &str, config: &str, r: Vec<String>)
    requires
        call_ensures(cli::cmd_status, (last, session_dir, config), r),
    ensures
        r@.len() == 3,
        r@[1]@ == "Session dir: "@ + session_dir@,
        r@[2]@ == "Config: "@ + config@,
        last is Missing ==> r@[0]@ == "No saved session."@,
        last matches LastSession::Unreadable(reason) ==> r@[0]@ == "Last session: error reading ("@
            + reason@ + ")"@,
{
    assert(text::views(r@).len() == r@.len());
    assert(text::views(r@)[0] == r@[0]@);
    assert(text::views(r@)[1] == r@[1]@);
    assert(text::views(r@)[2] == r@[2]@);
}

/// Of the last session the number of its windows and the time are said at which it
/// was saved.
pub proof fn last_session_said(
    session: SessionFile,
    session_dir: &str,
    config: &str,
    r: Vec<String>,
    time: String,
)
    requires
        call_ensures(cli::cmd_status, (LastSession::Saved(&session), session_dir, config), r),
        call_ensures(cli::saved_at, (session.session.timestamp,), time),
    ensures
        r@.len() == 3,
        r@[0]@ == "Last session: "@ + text::decimal(session.windows@.len()) + " apps, saved at "@
            + time@,
{
    assert(text::views(r@).len() == r@.len());
    assert(text::views(r@)[0] == r@[0]@);
}

} // verus!
