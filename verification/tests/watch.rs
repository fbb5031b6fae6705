use hyprresume::models::HyprEvent;
use hyprresume::watch::{
    parse_event, LateWatch, WatchAction, WatchNews, LATE_WINDOW_GRACE_PERIOD,
};

#[test]
fn late_watcher_catches_delayed_window() {
    let mut watch = LateWatch::new(vec!["slow-app".to_string()]);
    let action = watch.watch_late_windows(WatchNews::Line(
        "openwindow>>abc123,4,slow-app,Slow App Title",
    ));
    assert_eq!(action, WatchAction::Finish);
    assert!(watch.pending.is_empty());
}

/// A window that never appears keeps the watch going until the grace period is
/// over.
#[test]
fn late_watcher_times_out() {
    let mut watch = LateWatch::new(vec!["missing-app".to_string()]);
    let action = watch.watch_late_windows(WatchNews::Line("openwindow>>xyz,1,other-app,Other"));
    assert_eq!(action, WatchAction::Listen);
    assert_eq!(watch.pending, ["missing-app"]);
    assert_eq!(
        watch.watch_late_windows(WatchNews::DeadlinePassed),
        WatchAction::Finish
    );
    assert_eq!(watch.pending, ["missing-app"]);
}

/// Several slow applications: the watch ends as soon as the last has appeared.
#[test]
fn late_watcher_handles_multiple_pending_windows() {
    let mut watch = LateWatch::new(vec!["app-a".to_string(), "app-b".to_string()]);
    assert_eq!(
        watch.watch_late_windows(WatchNews::Line("openwindow>>aaa,1,app-a,App A")),
        WatchAction::Listen
    );
    assert_eq!(watch.pending, ["app-b"]);
    assert_eq!(
        watch.watch_late_windows(WatchNews::Line("openwindow>>bbb,2,app-b,App B")),
        WatchAction::Finish
    );
    assert!(watch.pending.is_empty());
}

#[test]
fn each_window_counts_for_one_of_its_class() {
    let pending = ["a", "b", "a"].map(String::from).to_vec();
    let mut watch = LateWatch::new(pending);
    assert_eq!(
        watch.watch_late_windows(WatchNews::Line("  openwindow>>1,1,a,t\r")),
        WatchAction::Listen
    );
    assert_eq!(watch.pending, ["b", "a"]);
    assert_eq!(
        watch.watch_late_windows(WatchNews::Line("openwindow>>2,1,a,t")),
        WatchAction::Listen
    );
    assert_eq!(watch.pending, ["b"]);
    assert_eq!(
        watch.watch_late_windows(WatchNews::Line("openwindow>>3,1,a,t")),
        WatchAction::Listen
    );
    assert_eq!(watch.pending, ["b"]);
}

#[test]
fn the_watch_ends_with_the_event_stream() {
    let mut watch = LateWatch::new(vec!["a".to_string()]);
    assert_eq!(
        watch.watch_late_windows(WatchNews::Ended),
        WatchAction::Finish
    );
    assert_eq!(LATE_WINDOW_GRACE_PERIOD, 60);
}

#[test]
fn titles_may_hold_commas() {
    match parse_event("openwindow>>5f,special:x,kitty,a, b,,c") {
        HyprEvent::OpenWindow {
            address,
            workspace,
            class,
            title,
        } => {
            assert_eq!(address, "5f");
            assert_eq!(workspace, "special:x");
            assert_eq!(class, "kitty");
            assert_eq!(title, "a, b,,c");
        }
        HyprEvent::Other => panic!("an opened window"),
    }
}

#[test]
fn other_lines_are_other_events() {
    for line in [
        "",
        "openwindow>>",
        "openwindow>>1,2,kitty",
        "closewindow>>5f",
        " openwindow>>1,2,kitty,t",
        "openwindowv2>>1,2,kitty,t",
    ] {
        assert!(matches!(parse_event(line), HyprEvent::Other), "{line}");
    }
    match parse_event("openwindow>>,,,") {
        HyprEvent::OpenWindow { class, title, .. } => {
            assert_eq!(class, "");
            assert_eq!(title, "");
        }
        HyprEvent::Other => panic!("an opened window"),
    }
}
