use std::path::Path;

use hyprresume::client::{
    expect_request, join_path, EnvError, HyprCtl, HyprSocketPaths, SessionctlExpectation,
};
use hyprresume::models::{HyprClient, HyprMonitor};

fn ctl() -> HyprCtl {
    HyprCtl::new(HyprSocketPaths::new("/s1".to_string(), "/s2".to_string()))
}

fn client(address: &str, class: &str) -> HyprClient {
    HyprClient {
        address: address.to_string(),
        class: class.to_string(),
        workspace: "1".to_string(),
        monitor: 0,
        at: (0, 0),
        size: (800, 600),
        floating: false,
        fullscreen_mode: 0,
        pid: 7,
    }
}

#[test]
fn sockets_are_found_by_the_environment() {
    let paths =
        HyprSocketPaths::from_env(Some("abc".to_string()), Some("/run/user/7".to_string()))
            .unwrap();
    assert_eq!(paths.socket1, "/run/user/7/hypr/abc/.socket.sock");
    assert_eq!(paths.socket2, "/run/user/7/hypr/abc/.socket2.sock");

    let ctl = HyprCtl::from_env(Some("abc".to_string()), None).unwrap();
    assert_eq!(ctl.socket_paths().socket1, "/run/user/1000/hypr/abc/.socket.sock");
    assert_eq!(ctl.socket_paths().socket2, "/run/user/1000/hypr/abc/.socket2.sock");
    let copy = ctl.socket_paths().clone();
    assert_eq!(copy.socket1, ctl.paths.socket1);
    assert_eq!(copy.socket2, ctl.paths.socket2);
}

#[test]
fn without_an_instance_there_are_no_sockets() {
    let error = HyprSocketPaths::from_env(None, Some("/run".to_string())).unwrap_err();
    assert_eq!(error, EnvError::NoInstance);
    assert_eq!(
        error.message(),
        "HYPRLAND_INSTANCE_SIGNATURE not set — is Hyprland running?"
    );
    assert!(HyprCtl::from_env(None, None).is_err());
}

#[test]
fn paths_are_joined_as_the_standard_library_joins_them() {
    for base in ["", "/", "/a", "/a/", "a", "~/.local/share"] {
        for part in ["", "b", "/b", "b/c", ".x"] {
            let joined = Path::new(base).join(part);
            assert_eq!(join_path(base, part), joined.to_str().unwrap());
        }
    }
}

#[test]
fn requests_go_to_the_first_socket() {
    let ctl = ctl();
    let cases = [
        (ctl.json("x"), "j/x"),
        (ctl.plain("x"), "x"),
        (ctl.get_clients(), "j/clients"),
        (ctl.get_client_by_address(), "j/clients"),
        (ctl.dispatch("workspace 3"), "dispatch workspace 3"),
        (ctl.keyword("a b"), "keyword a b"),
        (ctl.get_monitors(), "j/monitors"),
        (ctl.get_monitor_map(), "j/monitors"),
        (ctl.get_option("misc:x"), "getoption misc:x"),
        (ctl.get_option_str("misc:y"), "getoption misc:y"),
        (ctl.get_layout(), "getoption general:layout"),
        (ctl.sessionctl_begin(), "sessionctl begin"),
        (ctl.sessionctl_end(), "sessionctl end"),
        (ctl.sessionctl_finish(), "sessionctl finish"),
        (ctl.sessionctl_available(), "sessionctl status"),
        (ctl.sessionctl_status(), "sessionctl status"),
        (ctl.plugin_load("/p.so"), "plugin load /p.so"),
        (ctl.plugin_unload("/p.so"), "plugin unload /p.so"),
        (ctl.plugin_list(), "plugin list"),
    ];
    for (request, payload) in cases {
        assert_eq!(request.socket, "/s1");
        assert_eq!(request.payload, payload);
    }
}

#[test]
fn an_expectation_is_written_field_by_field() {
    let exp = SessionctlExpectation {
        app_id: "kitty",
        workspace: "2",
        monitor: "DP-1",
        floating: true,
        fullscreen: false,
        maximized: true,
        x: -5,
        y: 0,
        w: 1920,
        h: i32::MIN,
    };
    let text = "sessionctl expect kitty 2 DP-1 1 0 1 -5 0 1920 -2147483648";
    assert_eq!(expect_request(&exp), text);
    assert_eq!(ctl().sessionctl_expect(&exp).payload, text);
    assert_eq!(
        text,
        format!(
            "sessionctl expect {} {} {} {} {} {} {} {} {} {}",
            "kitty",
            "2",
            "DP-1",
            u8::from(true),
            u8::from(false),
            u8::from(true),
            f64::from(-5),
            f64::from(0),
            f64::from(1920),
            f64::from(i32::MIN)
        )
    );
}

#[test]
fn names_are_sent_as_they_are() {
    for monitor in ["", "-", "two words"] {
        let exp = SessionctlExpectation {
            app_id: "kitty",
            workspace: "2",
            monitor,
            floating: false,
            fullscreen: false,
            maximized: false,
            x: 0,
            y: 0,
            w: 0,
            h: 0,
        };
        assert_eq!(
            expect_request(&exp),
            format!("sessionctl expect kitty 2 {monitor} 0 0 0 0 0 0 0")
        );
    }
}

#[test]
fn a_client_is_found_with_or_without_the_hexadecimal_mark() {
    let clients = vec![client("0x10", "a"), client("20", "b"), client("0x20", "c")];
    let class = |address: &str| {
        HyprCtl::get_client_by_address_reply(&clients, address).map(|c| c.class.as_str())
    };
    assert_eq!(class("10"), Some("a"));
    assert_eq!(class("0x10"), Some("a"));
    assert_eq!(class("0x0x10"), Some("a"));
    assert_eq!(class("0x20"), Some("b"));
    assert_eq!(class("30"), None);
    assert_eq!(class(""), None);
}

#[test]
fn of_two_monitors_with_one_number_the_later_counts() {
    let monitors = vec![
        HyprMonitor { id: 0, name: "DP-1".to_string() },
        HyprMonitor { id: -1, name: "X".to_string() },
        HyprMonitor { id: 0, name: "DP-2".to_string() },
    ];
    let map = HyprCtl::get_monitor_map_reply(&monitors);
    assert_eq!(map.len(), 2);
    assert_eq!(map[&0], "DP-2");
    assert_eq!(map[&-1], "X");
}

#[test]
fn options_are_read() {
    assert!(HyprCtl::get_option_reply("option: x\nint: 1\nset: true"));
    assert!(!HyprCtl::get_option_reply("option: x\nint: 0\nset: true"));
    assert_eq!(
        HyprCtl::get_option_str_reply("general:layout", "option: l\r\nstr: \"dwindle\" \r\nset: true"),
        Ok("dwindle".to_string())
    );
    assert_eq!(
        HyprCtl::get_option_str_reply("x", "str: a\nstr: b"),
        Ok("a".to_string())
    );
    assert_eq!(HyprCtl::get_option_str_reply("x", "str: "), Ok(String::new()));
    assert_eq!(
        HyprCtl::get_option_str_reply("general:layout", "no such option"),
        Err("no str value in getoption response for general:layout".to_string())
    );
    assert_eq!(
        HyprCtl::get_option_str_reply("x", ""),
        Err("no str value in getoption response for x".to_string())
    );
}

#[test]
fn replies_are_told_apart() {
    assert!(HyprCtl::sessionctl_reply(" ok\n"));
    assert!(!HyprCtl::sessionctl_reply("okay"));
    assert!(!HyprCtl::sessionctl_reply("error: no"));
    assert!(HyprCtl::sessionctl_available_reply(Some("active: false\npending: 0\n")));
    assert!(HyprCtl::sessionctl_available_reply(Some(
        "active: true\npending: 1\n  error-viewer: 1 remaining\n"
    )));
    assert!(!HyprCtl::sessionctl_available_reply(Some("unknown request")));
    assert!(!HyprCtl::sessionctl_available_reply(Some("an error\nactive: true")));
    assert!(HyprCtl::sessionctl_available_reply(Some("fine")));
    assert!(!HyprCtl::sessionctl_available_reply(Some("an error")));
    assert!(!HyprCtl::sessionctl_available_reply(None));
}
