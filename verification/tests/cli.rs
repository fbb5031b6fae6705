use std::collections::HashMap;

use hyprresume::cli::{
    bundled_plugin_places, class_pid, cmd_list, cmd_status, deleted_message, failure_lines,
    load_outcome, log_filter, missing_message, pad, plugin_dir, plugin_listed, plugin_path,
    plugin_status, removed_message, resolved_message, restore_summary, running_message, saved_at,
    saved_message, session_name, session_row, time_or_unknown, tracked_window, tracked_windows,
    unreachable_message, LastSession,
};
use hyprresume::models::{HyprClient, SessionFile, SessionMeta, WindowEntry};
use hyprresume::restore::RestoreReport;

fn client(class: &str, monitor: i64, pid: i32, fullscreen_mode: i32) -> HyprClient {
    HyprClient {
        address: "0x1".to_string(),
        class: class.to_string(),
        workspace: "4".to_string(),
        monitor,
        at: (1, 2),
        size: (3, 4),
        floating: true,
        fullscreen_mode,
        pid,
    }
}

#[test]
fn verbosity_sets_the_log_filter() {
    assert_eq!(log_filter(0, false), "hyprresume=warn");
    assert_eq!(log_filter(1, false), "hyprresume=info");
    assert_eq!(log_filter(2, false), "hyprresume=debug");
    assert_eq!(log_filter(3, false), "hyprresume=trace");
    assert_eq!(log_filter(255, false), "hyprresume=trace");
    assert_eq!(log_filter(0, true), "hyprresume=off");
    assert_eq!(log_filter(3, true), "hyprresume=off");
}

#[test]
fn times_are_shown_in_utc() {
    assert_eq!(saved_at(0), "1970-01-01 00:00:00");
    assert_eq!(saved_at(1_700_000_000), "2023-11-14 22:13:20");
    assert_eq!(saved_at(-1), "1969-12-31 23:59:59");
    assert_eq!(saved_at(-8_334_601_228_800), "-262143-01-01 00:00:00");
    assert_eq!(saved_at(8_210_266_876_799), "+262142-12-31 23:59:59");
}

#[test]
fn times_that_do_not_exist_are_unknown() {
    for secs in [i64::MIN, -8_334_601_228_801, 8_210_266_876_800, i64::MAX] {
        assert_eq!(saved_at(secs), "unknown");
    }
    assert_eq!(time_or_unknown(None), "unknown");
    assert_eq!(time_or_unknown(Some("t".to_string())), "t");
}

#[test]
fn names_are_padded_as_the_standard_library_pads_them() {
    for s in ["", "a", "größe", "exactly-twenty-chars", "more than twenty characters"] {
        assert_eq!(pad(s, 20), format!("{s:<20}"));
        assert_eq!(session_row(s, "t"), format!("{s:<20} {:<24}", "t"));
    }
    assert_eq!(pad("ab", 0), "ab");
}

#[test]
fn sessions_are_listed() {
    assert_eq!(cmd_list(&Vec::new()), ["No saved sessions."]);
    let sessions = vec![("last".to_string(), 0), ("work".to_string(), i64::MAX)];
    assert_eq!(
        cmd_list(&sessions),
        [
            format!("{:<20} {:<24} ", "NAME", "SAVED AT"),
            format!("{:<20} {:<24}", "last", "1970-01-01 00:00:00"),
            format!("{:<20} {:<24}", "work", "unknown"),
        ]
    );
}

#[test]
fn the_last_session_is_meant_unless_another_is_named() {
    assert_eq!(session_name(None), "last");
    assert_eq!(session_name(Some("work")), "work");
    assert_eq!(saved_message("work", "/d/work.toml"), "Session 'work' saved to /d/work.toml");
    assert_eq!(deleted_message("work"), "Deleted session 'work'.");
    assert_eq!(missing_message("work", "/d"), "session 'work' not found in /d");
}

#[test]
fn windows_are_saved_with_their_monitor_by_name() {
    let monitors = HashMap::from([(1, "DP-1".to_string())]);
    let w = tracked_window(
        client("kitty", 1, 9, 2),
        Some("kitty -1".to_string()),
        Some("-P x".to_string()),
        &monitors,
    );
    assert_eq!(w.address, "0x1");
    assert_eq!(w.app_id, "kitty");
    assert_eq!(w.launch_cmd, "kitty -1");
    assert_eq!(w.workspace, "4");
    assert_eq!(w.monitor, "DP-1");
    assert_eq!((w.position, w.size), ((1, 2), (3, 4)));
    assert!(w.floating && w.fullscreen);
    assert_eq!(w.pid, 9);
    assert_eq!(w.profile.as_deref(), Some("-P x"));

    let w = tracked_window(client("kitty", 2, 9, 0), None, None, &monitors);
    assert_eq!(w.launch_cmd, "");
    assert_eq!(w.monitor, "");
    assert!(!w.fullscreen);
    assert_eq!(w.profile, None);
}

#[test]
fn the_windows_that_are_chosen_are_saved_in_order() {
    let clients = vec![
        client("a", 1, 1, 0),
        client("b", 1, 2, 0),
        client("c", 2, 3, 1),
        client("d", 1, 4, 0),
    ];
    let command = |s: &str| Some(s.to_string());
    let windows = tracked_windows(
        clients,
        vec![true, false, true, false],
        vec![command("run-a"), command("run-b"), None, command("run-d")],
        vec![None, None, command("-P x"), None],
        &HashMap::from([(1, "DP-1".to_string())]),
    );
    assert_eq!(windows.len(), 2);
    assert_eq!(windows[0].app_id, "a");
    assert_eq!(windows[0].launch_cmd, "run-a");
    assert_eq!(windows[0].monitor, "DP-1");
    assert_eq!(windows[0].profile, None);
    assert_eq!(windows[1].app_id, "c");
    assert_eq!(windows[1].launch_cmd, "");
    assert_eq!(windows[1].monitor, "");
    assert_eq!(windows[1].profile.as_deref(), Some("-P x"));
    assert!(windows[1].fullscreen);
    let none = tracked_windows(Vec::new(), Vec::new(), Vec::new(), Vec::new(), &HashMap::new());
    assert!(none.is_empty());
}

#[test]
fn a_restore_is_summed_up() {
    let report = |restored, failed, errors| RestoreReport { restored, failed, errors };
    assert_eq!(restore_summary(&report(3, 0, Vec::new())), "Restored 3/3 apps");
    assert_eq!(restore_summary(&report(0, 0, Vec::new())), "Restored 0/0 apps");
    let failed = report(2, 1, vec![("mpv".to_string(), "launching mpv".to_string())]);
    assert_eq!(restore_summary(&failed), "Restored 2/3 apps (1 failed)");
    assert_eq!(failure_lines(&failed), ["  mpv: launching mpv"]);
    assert_eq!(
        restore_summary(&report(usize::MAX, 1, Vec::new())),
        format!("Restored {}/{} apps (1 failed)", usize::MAX, usize::MAX as u128 + 1)
    );
}

#[test]
fn the_first_window_of_a_class_gives_the_process() {
    let clients = vec![client("a", 0, 1, 0), client("b", 0, 2, 0), client("b", 0, 3, 0)];
    assert_eq!(class_pid(Some(&clients), "b"), 2);
    assert_eq!(class_pid(Some(&clients), "c"), -1);
    assert_eq!(class_pid(None, "a"), -1);
}

#[test]
fn resolved_commands_are_shown() {
    assert_eq!(
        resolved_message("kitty", Some("kitty -1")),
        Ok("kitty → kitty -1".to_string())
    );
    assert_eq!(
        resolved_message("x", None),
        Err("Could not resolve 'x' to a launch command".to_string())
    );
}

#[test]
fn the_plugin_has_its_place() {
    assert_eq!(plugin_dir(Some("/d")), "/d/hyprresume");
    assert_eq!(plugin_path(Some("/d/")), "/d/hyprresume/hyprland-sessionctl.so");
    assert_eq!(plugin_path(None), "~/.local/share/hyprresume/hyprland-sessionctl.so");
    assert_eq!(
        bundled_plugin_places(Some("/t/release"), Some("/t")),
        ["/t/release/libhyprresume_plugin.so", "/t/libhyprresume_plugin.so"]
    );
    assert_eq!(bundled_plugin_places(Some("/"), None), ["/libhyprresume_plugin.so"]);
    assert!(bundled_plugin_places(None, None).is_empty());
}

#[test]
fn the_plugin_is_reported_on() {
    assert_eq!(load_outcome("ok\n"), Ok("Plugin loaded.".to_string()));
    assert_eq!(load_outcome("no"), Err("failed to load plugin: no".to_string()));
    assert_eq!(removed_message(true), "Plugin removed.");
    assert_eq!(removed_message(false), "Plugin not installed.");
    assert!(plugin_listed("Plugin hyprland-sessionctl by x"));
    assert!(!plugin_listed("no plugins loaded"));
    assert_eq!(plugin_status(true, false, "/p"), ["Plugin is loaded."]);
    assert_eq!(
        plugin_status(false, true, "/p"),
        [
            "Plugin is not loaded.",
            "  Installed at: /p",
            "  Run `hyprresume plugin install` to load it.",
        ]
    );
    assert_eq!(
        plugin_status(false, false, "/p"),
        [
            "Plugin is not loaded.",
            "  Run `hyprresume plugin install` to install and load it.",
        ]
    );
}

fn session(timestamp: i64) -> SessionFile {
    SessionFile {
        session: SessionMeta { name: "last".to_string(), timestamp },
        windows: vec![WindowEntry {
            app_id: "a".to_string(),
            launch_cmd: "a".to_string(),
            workspace: "1".to_string(),
            monitor: None,
            floating: false,
            fullscreen: false,
            position: None,
            size: None,
            cwd: None,
            profile: None,
        }],
    }
}

#[test]
fn the_status_is_shown() {
    assert_eq!(running_message(12), "Hyprland is running (12 windows)");
    assert_eq!(unreachable_message("gone"), "Cannot connect to Hyprland: gone");
    assert_eq!(
        cmd_status(LastSession::Saved(&session(60)), "/s", "/c"),
        [
            "Last session: 1 apps, saved at 1970-01-01 00:01:00",
            "Session dir: /s",
            "Config: /c",
        ]
    );
    assert_eq!(
        cmd_status(LastSession::Saved(&session(i64::MAX)), "/s", "/c")[0],
        "Last session: 1 apps, saved at unknown"
    );
    assert_eq!(
        cmd_status(LastSession::Unreadable("bad"), "/s", "/c")[0],
        "Last session: error reading (bad)"
    );
    assert_eq!(cmd_status(LastSession::Missing, "/s", "/c")[0], "No saved session.");
}
