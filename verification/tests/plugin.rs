use hyprresume::client::HyprCtl;
use hyprresume::models::WindowEntry;
use hyprresume::plugin::{
    bits_positive, err, geometry_fields, ipc_dispatch, json_escape, ok, on_open, on_pre_map,
    rust_plugin_exit, ParsedGeometry, State,
};
use hyprresume::restore::{no_monitor, window_request};

fn bits(text: &str) -> Option<u64> {
    text.parse::<f64>().ok().map(f64::to_bits)
}

fn request(st: &mut State, args: &str) -> String {
    request_as(st, args, false)
}

fn request_as(st: &mut State, args: &str, json: bool) -> String {
    let geo = match geometry_fields(args) {
        Some(g) => ParsedGeometry {
            x: bits(&g.x),
            y: bits(&g.y),
            w: bits(&g.w),
            h: bits(&g.h),
        },
        None => ParsedGeometry { x: None, y: None, w: None, h: None },
    };
    ipc_dispatch(st, args, json, geo)
}

const USAGE: &str =
    "error: usage: sessionctl expect <app> <ws> <mon> <float> <fs> <max> <x> <y> <w> <h>";

#[test]
fn windows_take_expectations_in_turn_and_the_last_stays() {
    let mut st = State::new();
    assert_eq!(request(&mut st, "sessionctl begin"), "ok");
    assert_eq!(request(&mut st, "sessionctl expect kitty 1 DP-1 0 0 0 0 0 0 0"), "ok");
    assert_eq!(request(&mut st, "sessionctl expect kitty 2 DP-2 0 1 0 0 0 0 0"), "ok");
    assert_eq!(request(&mut st, "sessionctl end"), "ok");

    let first = on_pre_map(&mut st, 10, "kitty").unwrap();
    assert_eq!(first.workspace.as_deref(), Some("1"));
    assert_eq!(first.monitor.as_deref(), Some("DP-1"));
    assert!(!first.floating && !first.fullscreen);
    for window in [11, 12, 13] {
        let next = on_pre_map(&mut st, window, "kitty").unwrap();
        assert_eq!(next.workspace.as_deref(), Some("2"));
        assert_eq!(next.monitor.as_deref(), Some("DP-2"));
        assert!(next.fullscreen);
    }
    assert!(on_pre_map(&mut st, 14, "foot").is_none());
}

#[test]
fn floating_windows_get_their_geometry_once() {
    let mut st = State::new();
    request(&mut st, "begin");
    request(&mut st, "expect mpv 1 DP-1 1 0 0 -10 20.5 640 480");
    assert!(on_pre_map(&mut st, 5, "mpv").unwrap().floating);
    assert!(on_open(&mut st, 6).is_none());
    let geo = on_open(&mut st, 5).unwrap();
    assert_eq!(f64::from_bits(geo.x), -10.0);
    assert_eq!(f64::from_bits(geo.y), 20.5);
    assert_eq!(f64::from_bits(geo.w), 640.0);
    assert_eq!(f64::from_bits(geo.h), 480.0);
    assert!(on_open(&mut st, 5).is_none());
}

#[test]
fn geometry_needs_a_floating_window_of_some_size() {
    for line in [
        "expect a 1 m 0 0 0 1 1 5 5",
        "expect a 1 m 1 0 0 1 1 0 5",
        "expect a 1 m 1 0 0 1 1 5 -5",
        "expect a 1 m 1 0 0 1 1 x 5",
        "expect a 1 m 1 0 0 1 1 NaN 5",
    ] {
        let mut st = State::new();
        request(&mut st, "begin");
        assert_eq!(request(&mut st, line), "ok");
        assert!(on_pre_map(&mut st, 1, "a").is_some());
        assert!(on_open(&mut st, 1).is_none(), "{line}");
    }
}

#[test]
fn signs_are_read_off_the_bits() {
    for x in [
        0.0,
        -0.0,
        1.0,
        -1.0,
        f64::MIN_POSITIVE,
        -f64::MIN_POSITIVE,
        f64::MAX,
        f64::MIN,
        f64::INFINITY,
        f64::NEG_INFINITY,
        f64::NAN,
        -f64::NAN,
    ] {
        assert_eq!(bits_positive(x.to_bits()), x > 0.0, "{x}");
    }
    assert!(bits_positive(1));
    assert!(!bits_positive(u64::MAX));
}

#[test]
fn requests_outside_a_restore_are_refused() {
    let mut st = State::new();
    assert_eq!(
        request(&mut st, "sessionctl expect a 1 m 0 0 0 0 0 0 0"),
        "error: no active restore session (call begin first)"
    );
    assert_eq!(request(&mut st, "sessionctl end"), "error: no active restore session");
    assert_eq!(request(&mut st, "sessionctl finish"), "error: no active restore session");
    assert_eq!(request(&mut st, "sessionctl status"), "active: false\npending: 0\n");
    assert!(!st.active && st.queues.is_empty() && st.pending_geo.is_empty());
}

#[test]
fn too_few_words_are_refused() {
    let mut st = State::new();
    request(&mut st, "begin");
    assert_eq!(request(&mut st, "expect kitty 1 0 0 0 0 0 0 0"), USAGE);
    assert_eq!(request(&mut st, "expect"), USAGE);
    assert!(st.queues.is_empty());
}

#[test]
fn unknown_subcommands_are_refused() {
    let mut st = State::new();
    for args in ["sessionctl", "", "sessionctl stop", "sessionctlbegin x", "begin\t"] {
        let reply = request(&mut st, args);
        if args == "sessionctlbegin x" {
            assert_eq!(reply, "ok");
        } else {
            assert_eq!(
                reply,
                "error: unknown subcommand. usage: sessionctl <begin|expect|end|finish|status>",
                "{args}"
            );
        }
    }
}

#[test]
fn begin_and_finish_forget_everything() {
    let mut st = State::new();
    request(&mut st, "begin");
    request(&mut st, "expect a 1 m 1 0 0 0 0 9 9");
    on_pre_map(&mut st, 1, "a");
    assert_eq!(request(&mut st, "begin"), "ok");
    assert!(st.active);
    assert!(on_pre_map(&mut st, 2, "a").is_none());
    assert!(on_open(&mut st, 1).is_none());

    request(&mut st, "expect a 1 m 1 0 0 0 0 9 9");
    on_pre_map(&mut st, 1, "a");
    assert_eq!(request(&mut st, "finish"), "ok");
    assert!(!st.active);
    assert!(on_pre_map(&mut st, 2, "a").is_none());
    assert!(on_open(&mut st, 1).is_none());

    request(&mut st, "begin");
    request(&mut st, "expect a 1 m 1 0 0 0 0 9 9");
    rust_plugin_exit(&mut st);
    assert!(!st.active && st.queues.is_empty() && st.pending_geo.is_empty());
}

#[test]
fn status_counts_what_is_expected() {
    let mut st = State::new();
    request(&mut st, "begin");
    request(&mut st, "expect a\"b 1 m 0 0 0 0 0 0 0");
    request(&mut st, "expect c\\d 1 m 0 0 0 0 0 0 0");
    request(&mut st, "expect a\"b 2 m 0 0 0 0 0 0 0");
    assert_eq!(
        request(&mut st, "status"),
        "active: true\npending: 3\n  a\"b: 2 remaining\n  c\\d: 1 remaining\n"
    );
    assert_eq!(
        request_as(&mut st, "status", true),
        r#"{"active":true,"pending":3,"expectations":{"a\"b":2,"c\\d":1}}"#
    );
    let mut idle = State::new();
    assert_eq!(
        request_as(&mut idle, "status", true),
        r#"{"active":false,"pending":0,"expectations":{}}"#
    );
}

#[test]
fn json_replies_are_json() {
    assert_eq!(ok(true), r#"{"ok": true}"#);
    assert_eq!(ok(false), "ok");
    assert_eq!(err("a \"b\" \\", true), r#"{"ok": false, "error": "a \"b\" \\"}"#);
    assert_eq!(err("a \"b\"", false), "error: a \"b\"");
    for s in ["", "\\", "\"", "\\\"", "a\\\\b\"c", "plain"] {
        let quoted = format!("\"{}\"", json_escape(s));
        let read: String = serde_json::from_str(&quoted).unwrap();
        assert_eq!(read, s);
    }
}

#[test]
fn names_that_the_compositor_cannot_take_are_left_out() {
    let mut st = State::new();
    request(&mut st, "begin");
    request(&mut st, "expect a w\0s m\0n 0 0 0 0 0 0 0");
    let placement = on_pre_map(&mut st, 1, "a").unwrap();
    assert_eq!(placement.workspace, None);
    assert_eq!(placement.monitor, None);
}

#[test]
fn geometry_is_found_in_expect_requests_alone() {
    let g = geometry_fields("sessionctl expect a 1 m 0 0 0 1.5 -2 3e2 x extra").unwrap();
    assert_eq!((g.x.as_str(), g.y.as_str()), ("1.5", "-2"));
    assert_eq!((g.w.as_str(), g.h.as_str()), ("3e2", "x"));
    assert!(geometry_fields("sessionctl expect a 1 m 0 0 0 1 2 3").is_none());
    assert!(geometry_fields("sessionctl begin a 1 m 0 0 0 1 2 3 4").is_none());
}

fn window(app_id: &str, workspace: &str, monitor: Option<&str>) -> WindowEntry {
    WindowEntry {
        app_id: app_id.to_string(),
        launch_cmd: app_id.to_string(),
        workspace: workspace.to_string(),
        monitor: monitor.map(String::from),
        floating: true,
        fullscreen: false,
        position: Some((-3, 40)),
        size: Some((500, 400)),
        cwd: None,
        profile: None,
    }
}

#[test]
fn a_registered_session_goes_home() {
    let saved = [
        window("kitty", "1", Some("DP-1")),
        window("firefox", "2", Some("DP-2")),
        window("kitty", "3", Some("DP-1")),
    ];
    let mut st = State::new();
    assert!(HyprCtl::sessionctl_available_reply(Some(&request(
        &mut st,
        "sessionctl status"
    ))));
    assert!(HyprCtl::sessionctl_reply(&request(&mut st, "sessionctl begin")));
    for w in &saved {
        assert!(HyprCtl::sessionctl_reply(&request(&mut st, &window_request(w))));
    }
    assert!(HyprCtl::sessionctl_reply(&request(&mut st, "sessionctl end")));
    let mut place = |id: usize, class: &str| {
        let p = on_pre_map(&mut st, id, class).unwrap();
        let geo = on_open(&mut st, id).unwrap();
        assert_eq!(f64::from_bits(geo.x), -3.0);
        assert_eq!(f64::from_bits(geo.y), 40.0);
        assert_eq!(f64::from_bits(geo.w), 500.0);
        assert_eq!(f64::from_bits(geo.h), 400.0);
        p.workspace.unwrap()
    };
    assert_eq!(place(1, "kitty"), "1");
    assert_eq!(place(2, "firefox"), "2");
    assert_eq!(place(3, "kitty"), "3");
    assert_eq!(place(4, "kitty"), "3");
    assert_eq!(place(5, "firefox"), "2");
}

#[test]
fn a_window_without_a_monitor_is_registered() {
    let mut st = State::new();
    request(&mut st, "sessionctl begin");
    let saved = [
        window("kitty", "1", Some("DP-1")),
        window("kitty", "2", None),
        window("kitty", "3", Some(" ")),
        window("mpv", "5", None),
    ];
    assert_eq!(
        window_request(&saved[1]),
        "sessionctl expect kitty 2 - 1 0 0 -3 40 500 400"
    );
    for w in &saved {
        assert!(HyprCtl::sessionctl_reply(&request(&mut st, &window_request(w))));
    }
    assert_eq!(
        request(&mut st, "sessionctl status"),
        "active: true\npending: 4\n  kitty: 3 remaining\n  mpv: 1 remaining\n"
    );
    let mut place = |id, class: &str| {
        let p = on_pre_map(&mut st, id, class).unwrap();
        assert!(p.floating && !p.fullscreen);
        (p.workspace.unwrap(), p.monitor.unwrap())
    };
    assert_eq!(place(1, "kitty"), ("1".to_string(), "DP-1".to_string()));
    assert_eq!(place(2, "kitty"), ("2".to_string(), no_monitor().to_string()));
    assert_eq!(place(3, "kitty"), ("3".to_string(), no_monitor().to_string()));
    assert_eq!(place(4, "mpv"), ("5".to_string(), no_monitor().to_string()));
}

#[test]
fn a_window_is_registered_whatever_its_monitor_is_called() {
    let mut st = State::new();
    request(&mut st, "sessionctl begin");
    for (workspace, monitor) in [("1", "-"), ("2", "two words"), ("3", "a b c"), ("4", "DP-1")] {
        let w = window("kitty", workspace, Some(monitor));
        assert!(HyprCtl::sessionctl_reply(&request(&mut st, &window_request(&w))));
    }
    let mut place = |id| {
        let p = on_pre_map(&mut st, id, "kitty").unwrap();
        (p.workspace.unwrap(), p.monitor.unwrap())
    };
    assert_eq!(place(1), ("1".to_string(), "-".to_string()));
    assert_eq!(place(2), ("2".to_string(), "two".to_string()));
    assert_eq!(place(3), ("3".to_string(), "a".to_string()));
    assert_eq!(place(4), ("4".to_string(), "DP-1".to_string()));
}

#[test]
fn a_window_without_a_workspace_leaves_the_others_alone() {
    let mut st = State::new();
    request(&mut st, "sessionctl begin");
    request(&mut st, &window_request(&window("kitty", "1", None)));
    assert_eq!(request(&mut st, &window_request(&window("kitty", "", None))), USAGE);
    assert_eq!(request(&mut st, &window_request(&window("", "2", None))), USAGE);
    request(&mut st, &window_request(&window("kitty", "4", None)));
    let mut workspace = |id| on_pre_map(&mut st, id, "kitty").unwrap().workspace.unwrap();
    assert_eq!(workspace(1), "1");
    assert_eq!(workspace(2), "4");
    assert_eq!(workspace(3), "4");
}

#[test]
fn the_plugin_is_known_whatever_it_expects() {
    let mut st = State::new();
    request(&mut st, "sessionctl begin");
    request(&mut st, &window_request(&window("error-viewer", "1", None)));
    request(&mut st, &window_request(&window("unknown", "1", None)));
    let status = request(&mut st, "sessionctl status");
    assert!(HyprCtl::sessionctl_available_reply(Some(&status)));
}
