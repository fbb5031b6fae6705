use hyprresume::models::{HyprClient, HyprEvent, SessionFile, SessionMeta, WindowEntry};
use hyprresume::plan::{
    bind_rule, bind_workspaces_to_monitors, floating_windows, tiled_groups, DwindlePlan,
    MasterPlan, PlaceStep, RatioStep,
};
use hyprresume::plugin::{
    geometry_fields, ipc_dispatch, on_open, on_pre_map, ParsedGeometry, State,
};
use hyprresume::restore::{RestoreEngine, RestoreReport, RestoreRun};
use hyprresume::run::{Action, Reply, RestoreError};

fn window(app_id: &str, workspace: &str) -> WindowEntry {
    WindowEntry {
        app_id: app_id.to_string(),
        launch_cmd: app_id.to_string(),
        workspace: workspace.to_string(),
        monitor: Some("DP-1".to_string()),
        floating: false,
        fullscreen: false,
        position: None,
        size: None,
        cwd: None,
        profile: None,
    }
}

fn session(windows: Vec<WindowEntry>) -> SessionFile {
    SessionFile {
        session: SessionMeta { name: "last".to_string(), timestamp: 0 },
        windows,
    }
}

fn text(s: &str) -> Reply {
    Reply::Text(s.to_string())
}

fn opened(address: &str, class: &str) -> Reply {
    Reply::Event(HyprEvent::OpenWindow {
        address: address.to_string(),
        workspace: "1".to_string(),
        class: class.to_string(),
        title: String::new(),
    })
}

fn shown(action: &Action) -> String {
    match action {
        Action::Send(request) => request.clone(),
        Action::QueryMonitors => "?monitors".to_string(),
        Action::QueryClients => "?clients".to_string(),
        Action::InferDwindle(groups) => format!("?dwindle {}", groups.len()),
        Action::InferMaster(groups) => format!("?master {}", groups.len()),
        Action::AwaitOpen(app_id, seconds) => format!("?open {app_id} {seconds}"),
        Action::Sleep(millis) => format!("?sleep {millis}"),
        Action::Proceed => "?proceed".to_string(),
        Action::Done => "?done".to_string(),
        Action::Stop(error) => format!("?stop {error:?}"),
    }
}

/// How a compositor answers that does what it is asked to.
fn willing(action: &Action, layout: &str) -> Reply {
    match action {
        Action::Send(request) => match request.as_str() {
            "getoption misc:focus_on_activate" => text("int: 1\nset: false"),
            "getoption general:layout" => text(&format!("str: {layout}\nset: true")),
            "sessionctl status" => text("active: false\npending: 0\n"),
            _ => text("ok"),
        },
        Action::QueryMonitors => Reply::Monitors(vec!["DP-1".to_string()]),
        Action::QueryClients => Reply::Clients(Vec::new()),
        Action::InferDwindle(groups) => {
            Reply::DwindlePlans(groups.iter().map(|_| None).collect())
        }
        Action::InferMaster(groups) => Reply::MasterPlans(groups.iter().map(|_| None).collect()),
        Action::AwaitOpen(app_id, _) => opened(&format!("{app_id}-address"), app_id),
        Action::Sleep(_) | Action::Proceed => Reply::Proceed,
        Action::Done | Action::Stop(_) => panic!("nothing to answer"),
    }
}

/// Runs a restore to its end. Returns what was asked for, without the steps that
/// ask for nothing.
fn drive(run: &mut RestoreRun<'_>, mut answer: impl FnMut(&Action) -> Reply) -> Vec<String> {
    let mut trace = Vec::new();
    loop {
        let action = run.poll();
        if !matches!(action, Action::Proceed) {
            trace.push(shown(&action));
        }
        if matches!(action, Action::Done | Action::Stop(_)) {
            return trace;
        }
        let reply = answer(&action);
        assert!(run.accepts(&reply));
        run.advance(reply);
    }
}

const PREAMBLE: [&str; 5] = [
    "?monitors",
    "keyword workspace 1,monitor:DP-1",
    "getoption misc:focus_on_activate",
    "keyword misc:focus_on_activate false",
    "sessionctl status",
];

#[test]
fn a_simple_restore_asks_for_everything_in_order() {
    let mut second = window("mpv", "1");
    second.floating = true;
    second.fullscreen = true;
    second.position = Some((-5, 7));
    second.size = Some((640, 480));
    let session = session(vec![window("firefox", "1"), second]);
    let mut run = RestoreEngine::new(false).restore(&session);
    let trace = drive(&mut run, |a| willing(a, "dwindle"));
    let mut expected = PREAMBLE.map(String::from).to_vec();
    expected.extend(
        [
            "sessionctl begin",
            "sessionctl expect firefox 1 DP-1 0 0 0 0 0 0 0",
            "sessionctl expect mpv 1 DP-1 1 1 0 -5 7 640 480",
            "sessionctl end",
            "dispatch exec firefox",
            "?open firefox 15",
            "dispatch exec mpv",
            "?open mpv 15",
            "keyword misc:focus_on_activate true",
            "sessionctl finish",
            "?done",
        ]
        .map(String::from),
    );
    assert_eq!(trace, expected);
    let report = run.report();
    assert_eq!((report.restored, report.failed), (2, 0));
    assert!(report.errors.is_empty());
    assert!(run.pending().is_empty());
    assert_eq!(run.registered(), 2);
}

#[test]
fn an_empty_session_is_restored() {
    let session = session(Vec::new());
    let mut run = RestoreEngine::new(true).restore(&session);
    let trace = drive(&mut run, |a| willing(a, "dwindle"));
    assert_eq!(trace.last().unwrap(), "?done");
    assert_eq!(run.report().restored, 0);
}

#[test]
fn the_focus_option_is_left_alone_if_it_is_off() {
    let session = session(vec![window("a", "1")]);
    let mut run = RestoreEngine::new(false).restore(&session);
    let trace = drive(&mut run, |a| match a {
        Action::Send(r) if r.starts_with("getoption misc") => text("int: 0"),
        _ => willing(a, ""),
    });
    assert!(!trace.iter().any(|t| t.starts_with("keyword misc")));
}

#[test]
fn the_focus_option_counts_as_on_if_it_is_not_known() {
    let session = session(vec![window("a", "1")]);
    let mut run = RestoreEngine::new(false).restore(&session);
    let trace = drive(&mut run, |a| match a {
        Action::Send(r) if r.starts_with("getoption misc") => Reply::Failed,
        _ => willing(a, ""),
    });
    let at = |line: &str| trace.iter().position(|t| t == line).unwrap();
    assert!(
        at("keyword misc:focus_on_activate false") < at("keyword misc:focus_on_activate true")
    );
}

fn stopped(refused: &str, reply: fn() -> Reply) -> String {
    let session = session(vec![window("a", "1")]);
    let mut run = RestoreEngine::new(false).restore(&session);
    let trace = drive(&mut run, |a| match a {
        Action::Send(r) if r == refused => reply(),
        _ => willing(a, ""),
    });
    assert!(!run.accepts(&Reply::Proceed));
    trace.last().unwrap().clone()
}

#[test]
fn a_refused_registration_ends_the_restore() {
    assert_eq!(stopped("sessionctl status", || text("unknown request")), "?stop Unsupported");
    assert_eq!(stopped("sessionctl status", || Reply::Failed), "?stop Unsupported");
    assert_eq!(stopped("sessionctl begin", || text("error: no")), "?stop BeginFailed");
    assert_eq!(stopped("sessionctl begin", || Reply::Failed), "?stop BeginFailed");
    assert_eq!(stopped("sessionctl end", || text("error: no")), "?stop EndFailed");
    assert_eq!(stopped("sessionctl end", || Reply::Failed), "?stop EndFailed");
}

#[test]
fn a_window_that_is_not_registered_is_still_launched() {
    let session = session(vec![window("a", "1"), window("b", "1")]);
    let mut run = RestoreEngine::new(false).restore(&session);
    drive(&mut run, |a| match a {
        Action::Send(r) if r.starts_with("sessionctl expect a") => text("error: x"),
        Action::Send(r) if r.starts_with("sessionctl expect b") => Reply::Failed,
        _ => willing(a, ""),
    });
    assert_eq!(run.registered(), 0);
    assert_eq!(run.report().restored, 2);
}

#[test]
fn one_command_is_executed_once() {
    let session = session(vec![window("a", "1"), window("a", "2"), window("b", "3")]);
    let mut run = RestoreEngine::new(false).restore(&session);
    let trace = drive(&mut run, |a| willing(a, ""));
    assert_eq!(trace.iter().filter(|t| *t == "dispatch exec a").count(), 1);
    assert_eq!(trace.iter().filter(|t| *t == "?open a 15").count(), 2);
    assert_eq!(run.report().restored, 3);
}

#[test]
fn a_command_that_cannot_be_handed_over_is_an_error() {
    let mut slow = window("a", "1");
    slow.launch_cmd = "a --new".to_string();
    let session = session(vec![slow, window("b", "1")]);
    let mut run = RestoreEngine::new(false).restore(&session);
    drive(&mut run, |a| match a {
        Action::Send(r) if r == "dispatch exec a --new" => Reply::Failed,
        _ => willing(a, ""),
    });
    let report = run.report();
    assert_eq!((report.restored, report.failed), (1, 1));
    assert_eq!(
        report.errors,
        [("a".to_string(), "launching a --new".to_string())]
    );
}

#[test]
fn missing_windows_are_left_to_the_watch() {
    let session = session(vec![window("a", "1"), window("b", "1")]);
    let mut run = RestoreEngine::new(false).restore(&session);
    let trace = drive(&mut run, |a| match a {
        Action::AwaitOpen(app_id, _) if app_id == "a" => Reply::TimedOut,
        _ => willing(a, ""),
    });
    assert_eq!(run.pending(), ["a"]);
    assert_eq!(run.report().restored, 2);
    assert!(!trace.iter().any(|t| t == "sessionctl finish"));
}

#[test]
fn events_of_other_windows_change_nothing() {
    let session = session(vec![window("a", "1")]);
    let mut run = RestoreEngine::new(false).restore(&session);
    let mut seen = 0;
    let trace = drive(&mut run, |a| match a {
        Action::AwaitOpen(_, _) if seen < 3 => {
            seen += 1;
            if seen == 1 {
                Reply::Event(HyprEvent::Other)
            } else {
                opened("9", "other")
            }
        }
        _ => willing(a, ""),
    });
    assert_eq!(trace.iter().filter(|t| *t == "?open a 15").count(), 4);
    assert!(run.pending().is_empty());
}

#[test]
fn an_unknown_layout_falls_back_to_a_simple_restore() {
    for layout in ["scroller", ""] {
        let session = session(vec![window("a", "1")]);
        let mut run = RestoreEngine::new(true).restore(&session);
        let trace = drive(&mut run, |a| willing(a, layout));
        assert!(trace.iter().any(|t| t == "getoption general:layout"));
        assert!(trace.iter().any(|t| t == "dispatch exec a"));
        assert_eq!(run.report().restored, 1);
    }
}

fn dwindle_plan() -> DwindlePlan {
    DwindlePlan {
        steps: vec![
            PlaceStep { window_idx: 0, focus_idx: None, preselect: None },
            PlaceStep { window_idx: 1, focus_idx: Some(0), preselect: Some("r".to_string()) },
        ],
        ratio_steps: vec![
            RatioStep { focus_window_idx: 0, delta: "0.125000".to_string() },
            RatioStep { focus_window_idx: 9, delta: "0.000000".to_string() },
        ],
    }
}

fn client(address: &str, size: (i32, i32)) -> HyprClient {
    HyprClient {
        address: address.to_string(),
        class: String::new(),
        workspace: String::new(),
        monitor: 0,
        at: (0, 0),
        size,
        floating: false,
        fullscreen_mode: 0,
        pid: 0,
    }
}

fn dwindle_session() -> SessionFile {
    let mut first = window("kitty", "1");
    first.launch_cmd = "kitty --single-instance".to_string();
    first.size = Some((100, 50));
    let mut second = window("firefox", "1");
    second.size = Some((200, 50));
    second.fullscreen = true;
    let mut floating = window("mpv", "2");
    floating.floating = true;
    session(vec![first, second, floating, window("code", "2")])
}

#[test]
fn a_dwindle_layout_is_built_up_again() {
    let session = dwindle_session();
    let mut run = RestoreEngine::new(true).restore(&session);
    let trace = drive(&mut run, |a| match a {
        Action::InferDwindle(groups) => {
            assert_eq!(groups.len(), 2);
            assert_eq!(groups[0].workspace, "1");
            assert_eq!(groups[0].indices, [0, 1]);
            assert_eq!(groups[1].indices, [3]);
            Reply::DwindlePlans(vec![Some(dwindle_plan()), None])
        }
        Action::QueryClients => Reply::Clients(vec![
            client("0xkitty-address", (100, 50)),
            client("0xfirefox-address", (206, 44)),
        ]),
        _ => willing(a, "dwindle"),
    });
    let from = trace.iter().position(|t| t == "?dwindle 2").unwrap();
    assert_eq!(
        trace[from + 1..],
        [
            "dispatch workspace 1",
            "dispatch exec kitty",
            "?open kitty 15",
            "dispatch focuswindow address:0xkitty-address",
            "dispatch layoutmsg preselect r",
            "dispatch exec firefox",
            "?open firefox 15",
            "dispatch focuswindow address:0xkitty-address",
            "dispatch layoutmsg splitratio 0.125000",
            "?sleep 30",
            "?clients",
            "?clients",
            "dispatch fullscreen 0,address:0xfirefox-address",
            "dispatch exec code",
            "?open code 15",
            "dispatch exec mpv",
            "?open mpv 15",
            "keyword misc:focus_on_activate true",
            "sessionctl finish",
            "?done",
        ]
    );
    let report = run.report();
    assert_eq!(report.restored + report.failed, session.windows.len());
}

#[test]
fn tiled_windows_are_resized_in_four_passes_at_most() {
    let session = dwindle_session();
    let mut run = RestoreEngine::new(true).restore(&session);
    let trace = drive(&mut run, |a| match a {
        Action::InferDwindle(_) => Reply::DwindlePlans(vec![Some(dwindle_plan()), None]),
        Action::QueryClients => Reply::Clients(vec![
            client("kitty-address", (93, 50)),
            client("firefox-address", (200, 57)),
        ]),
        Action::Send(r) if r.starts_with("dispatch resize") => text("no such window"),
        _ => willing(a, "dwindle"),
    });
    let count = |line: &str| trace.iter().filter(|t| *t == line).count();
    assert_eq!(count("?clients"), 8);
    assert_eq!(count("dispatch resizewindowpixel 7 0,address:0xkitty-address"), 4);
    assert_eq!(count("dispatch resizewindowpixel 0 -7,address:0xfirefox-address"), 4);
    assert_eq!(count("?sleep 60"), 4);
}

#[test]
fn sizes_are_left_alone_where_they_are_not_known() {
    let session = dwindle_session();
    let mut run = RestoreEngine::new(true).restore(&session);
    let mut asked = 0;
    let trace = drive(&mut run, |a| match a {
        Action::InferDwindle(_) => Reply::DwindlePlans(vec![Some(dwindle_plan()), None]),
        Action::QueryClients => {
            asked += 1;
            if asked == 1 {
                Reply::Failed
            } else {
                Reply::Clients(Vec::new())
            }
        }
        _ => willing(a, "dwindle"),
    });
    assert_eq!(asked, 2);
    assert!(!trace.iter().any(|t| t.contains("resizewindowpixel")));
}

#[test]
fn a_layout_request_that_cannot_be_sent_ends_the_restore() {
    for refused in [
        "dispatch workspace 1",
        "dispatch focuswindow address:0xkitty-address",
        "dispatch layoutmsg preselect r",
        "dispatch fullscreen 0,address:0xfirefox-address",
    ] {
        let session = dwindle_session();
        let mut run = RestoreEngine::new(true).restore(&session);
        let trace = drive(&mut run, |a| match a {
            Action::InferDwindle(_) => Reply::DwindlePlans(vec![Some(dwindle_plan()), None]),
            Action::Send(r) if r == refused => Reply::Failed,
            _ => willing(a, "dwindle"),
        });
        assert_eq!(trace.last().unwrap(), "?stop Ipc", "{refused}");
        assert!(matches!(run.poll(), Action::Stop(RestoreError::Ipc)));
    }
}

#[test]
fn without_a_neighbour_a_window_opens_where_it_likes() {
    let session = dwindle_session();
    let mut run = RestoreEngine::new(true).restore(&session);
    let trace = drive(&mut run, |a| match a {
        Action::InferDwindle(_) => Reply::DwindlePlans(vec![Some(dwindle_plan()), None]),
        Action::AwaitOpen(app_id, _) if app_id == "kitty" => Reply::TimedOut,
        _ => willing(a, "dwindle"),
    });
    assert!(!trace.iter().any(|t| t.contains("focuswindow") || t.contains("preselect")));
    assert!(!trace.iter().any(|t| t == "?sleep 30"));
    assert_eq!(run.pending(), ["kitty"]);
}

#[test]
fn a_master_layout_is_built_up_again() {
    let mut floating = window("mpv", "7");
    floating.floating = true;
    let session = session(vec![
        window("b", "7"),
        floating,
        window("a", "7"),
        window("c", "7"),
        window("d", "10"),
    ]);
    let mut run = RestoreEngine::new(true).restore(&session);
    let trace = drive(&mut run, |a| match a {
        Action::InferMaster(groups) => {
            assert_eq!(groups[0].workspace, "10");
            assert_eq!(groups[1].workspace, "7");
            Reply::MasterPlans(vec![
                None,
                Some(MasterPlan {
                    orientation: "left".to_string(),
                    mfact: "0.550000".to_string(),
                    master_indices: vec![2, 0],
                    stack_indices: vec![3],
                }),
            ])
        }
        Action::AwaitOpen(app_id, _) if app_id == "b" => Reply::TimedOut,
        Action::Send(r) if r.starts_with("keyword master") => Reply::Failed,
        Action::Send(r) if r.starts_with("dispatch layoutmsg") => Reply::Failed,
        _ => willing(a, "master"),
    });
    let from = trace.iter().position(|t| t == "?master 2").unwrap();
    assert_eq!(
        trace[from + 1..],
        [
            "keyword master:mfact 0.550000",
            "dispatch workspace 7",
            "dispatch layoutmsg orientationleft",
            "dispatch exec a",
            "?open a 15",
            "dispatch exec b",
            "?open b 15",
            "dispatch layoutmsg addmaster",
            "dispatch exec c",
            "?open c 15",
            "dispatch exec d",
            "?open d 15",
            "dispatch exec mpv",
            "?open mpv 15",
            "keyword misc:focus_on_activate true",
            "?done",
        ]
    );
    assert_eq!(run.report().restored, 5);
}

#[test]
fn answers_that_do_not_fit_are_not_accepted() {
    let session = dwindle_session();
    let mut run = RestoreEngine::new(true).restore(&session);
    assert!(!run.accepts(&text("ok")));
    assert!(!run.accepts(&Reply::Proceed));
    assert!(run.accepts(&Reply::Failed));
    loop {
        let action = run.poll();
        if matches!(action, Action::InferDwindle(_)) {
            break;
        }
        run.advance(willing(&action, "dwindle"));
    }
    let plan = |window_idx| DwindlePlan {
        steps: vec![PlaceStep { window_idx, focus_idx: None, preselect: None }],
        ratio_steps: Vec::new(),
    };
    assert!(!run.accepts(&Reply::DwindlePlans(vec![None])));
    assert!(!run.accepts(&Reply::DwindlePlans(vec![None, Some(plan(4))])));
    assert!(!run.accepts(&Reply::MasterPlans(vec![None, None])));
    assert!(run.accepts(&Reply::DwindlePlans(vec![None, Some(plan(3))])));
}

#[test]
fn plans_part_the_windows_of_a_session() {
    let session = dwindle_session();
    let (floating, plans, left) =
        RestoreEngine::build_dwindle_plans(&session, vec![None, Some(dwindle_plan())]);
    assert_eq!(floating, [2]);
    assert_eq!(plans.len(), 1);
    assert_eq!(plans[0].workspace, "2");
    assert_eq!(left, [0, 1]);
    let (floating, plans, left) = RestoreEngine::build_master_plans(&session, vec![None, None]);
    assert_eq!(floating, [2]);
    assert!(plans.is_empty());
    assert_eq!(left, [0, 1, 3]);
}

#[test]
fn tiled_windows_are_grouped_by_workspace() {
    let mut floating = window("f", "2");
    floating.floating = true;
    let windows = vec![
        window("a", "2"),
        window("b", "10"),
        floating,
        window("c", "2"),
        window("d", "1"),
    ];
    let groups = tiled_groups(&windows);
    let names: Vec<&str> = groups.iter().map(|g| g.workspace.as_str()).collect();
    assert_eq!(names, ["1", "10", "2"]);
    assert_eq!(groups[0].indices, [4]);
    assert_eq!(groups[1].indices, [1]);
    assert_eq!(groups[2].indices, [0, 3]);
    assert_eq!(floating_windows(&windows), [2]);
}

#[test]
fn workspaces_are_bound_once_and_to_connected_monitors() {
    let on = |workspace: &str, monitor: Option<&str>| {
        let mut w = window("a", workspace);
        w.monitor = monitor.map(String::from);
        w
    };
    let session = session(vec![
        on("1", Some("DP-1")),
        on("1", Some("DP-1")),
        on("1", Some("DP-2")),
        on("2", Some("gone")),
        on("3", Some("")),
        on("4", None),
        on("2", Some("DP-1")),
    ]);
    let available = ["DP-2", "DP-1", ""].map(String::from).to_vec();
    assert_eq!(bind_workspaces_to_monitors(&session, &available), [0, 2, 6]);
    assert!(bind_workspaces_to_monitors(&session, &Vec::new()).is_empty());
    assert_eq!(bind_rule(&session.windows[2]), "workspace 1,monitor:DP-2");
}

#[test]
fn errors_have_messages() {
    assert_eq!(
        RestoreError::Unsupported.message().as_deref(),
        Some("compositor does not support sessionctl — cannot restore session")
    );
    assert_eq!(
        RestoreError::BeginFailed.message().as_deref(),
        Some("sessionctl begin failed")
    );
    assert_eq!(
        RestoreError::EndFailed.message().as_deref(),
        Some("sessionctl end failed")
    );
    assert_eq!(RestoreError::Ipc.message(), None);
}

#[test]
fn a_report_starts_empty() {
    let report = RestoreReport::default();
    assert_eq!((report.restored, report.failed), (0, 0));
    assert!(report.errors.is_empty());
}

fn bits(text: &str) -> Option<u64> {
    text.parse::<f64>().ok().map(f64::to_bits)
}

#[test]
fn a_restore_and_the_plugin_put_windows_back() {
    let mut floating = window("mpv", "9");
    floating.floating = true;
    floating.position = Some((10, -20));
    floating.size = Some((300, 200));
    let session = session(vec![
        window("kitty", "1"),
        floating,
        window("kitty", "4"),
        window("firefox", "2"),
    ]);
    let mut plugin = State::new();
    ipc_dispatch(
        &mut plugin,
        "begin",
        false,
        ParsedGeometry { x: None, y: None, w: None, h: None },
    );
    let mut placed = Vec::new();
    let mut run = RestoreEngine::new(false).restore(&session);
    drive(&mut run, |a| match a {
        Action::Send(r) if r.starts_with("sessionctl") => {
            let geo = geometry_fields(r);
            let geo = ParsedGeometry {
                x: geo.as_ref().and_then(|g| bits(&g.x)),
                y: geo.as_ref().and_then(|g| bits(&g.y)),
                w: geo.as_ref().and_then(|g| bits(&g.w)),
                h: geo.as_ref().and_then(|g| bits(&g.h)),
            };
            text(&ipc_dispatch(&mut plugin, r, false, geo))
        }
        Action::AwaitOpen(app_id, _) => {
            let id = placed.len();
            let place = on_pre_map(&mut plugin, id, app_id).unwrap();
            assert!(on_pre_map(&mut plugin, 99, "stranger").is_none());
            let geo = on_open(&mut plugin, id);
            assert_eq!(geo.is_some(), app_id == "mpv");
            placed.push((place.workspace.unwrap(), place.monitor.unwrap()));
            opened("1", app_id)
        }
        _ => willing(a, ""),
    });
    let workspaces: Vec<&str> = placed.iter().map(|p| p.0.as_str()).collect();
    assert_eq!(workspaces, ["1", "9", "4", "2"]);
    assert!(placed.iter().all(|p| p.1 == "DP-1"));
    assert_eq!(run.registered(), 4);
    assert!(!plugin.active && plugin.queues.is_empty());
}
