use hyprresume::command::{
    build_independent_cmd, build_launch_cmd, shell_escape, strip_single_instance_flags,
    terminal_cwd_flag,
};
use hyprresume::models::WindowEntry;

fn make_entry(
    app_id: &str,
    launch_cmd: &str,
    profile: Option<&str>,
    cwd: Option<&str>,
) -> WindowEntry {
    WindowEntry {
        app_id: app_id.to_string(),
        launch_cmd: launch_cmd.to_string(),
        workspace: "1".to_string(),
        monitor: None,
        floating: false,
        fullscreen: false,
        position: None,
        size: None,
        cwd: cwd.map(String::from),
        profile: profile.map(String::from),
    }
}

#[test]
fn build_cmd_no_profile_no_cwd() {
    let entry = make_entry("firefox", "firefox", None, None);
    assert_eq!(build_launch_cmd(&entry), "firefox");
}

#[test]
fn build_cmd_with_profile() {
    let entry = make_entry("firefox", "firefox", Some("-P work"), None);
    assert_eq!(build_launch_cmd(&entry), "firefox -P work");
}

#[test]
fn build_cmd_with_no_remote_profile() {
    let entry = make_entry("firefox", "firefox", Some("-no-remote -P dev"), None);
    assert_eq!(build_launch_cmd(&entry), "firefox -no-remote -P dev");
}

#[test]
fn build_cmd_chromium_profile() {
    let entry = make_entry(
        "chromium",
        "chromium",
        Some("--profile-directory=Profile 1"),
        None,
    );
    assert_eq!(
        build_launch_cmd(&entry),
        "chromium --profile-directory=Profile 1"
    );
}

#[test]
fn build_cmd_flatpak_profile() {
    let entry = make_entry(
        "org.mozilla.firefox",
        "flatpak run org.mozilla.firefox",
        Some("-P work"),
        None,
    );
    assert_eq!(
        build_launch_cmd(&entry),
        "flatpak run org.mozilla.firefox -P work"
    );
}

#[test]
fn build_cmd_with_cwd_no_profile() {
    let entry = make_entry("ghostty", "ghostty", None, Some("/home/user/project"));
    assert_eq!(
        build_launch_cmd(&entry),
        "ghostty --working-directory=/home/user/project"
    );
}

#[test]
fn build_cmd_profile_does_not_affect_cwd() {
    let entry = make_entry("ghostty", "ghostty", None, Some("/tmp"));
    let cmd = build_launch_cmd(&entry);
    assert!(cmd.contains("--working-directory=/tmp"));
}

#[test]
fn terminal_loses_single_instance_flags_when_it_gets_a_directory() {
    let entry = make_entry(
        "com.mitchellh.ghostty",
        "/usr/bin/ghostty  --gtk-single-instance=true\t--title=x",
        None,
        Some("/tmp/a b"),
    );
    assert_eq!(
        build_launch_cmd(&entry),
        "/usr/bin/ghostty --title=x --working-directory=/tmp/a b"
    );
}

#[test]
fn other_program_changes_directory_in_a_shell() {
    let entry = make_entry("code", "code --new-window", Some("-n"), Some("/home/u/my-project"));
    assert_eq!(
        build_launch_cmd(&entry),
        "sh -c 'cd '/home/u/my-project' && exec code --new-window -n'"
    );
}

#[test]
fn a_directory_that_needs_quotes_stays_whole() {
    let entry = make_entry("code", "code", None, Some("/my dir"));
    assert_eq!(
        build_launch_cmd(&entry),
        "sh -c 'cd '\\''/my dir'\\'' && exec code'"
    );
}

#[test]
fn a_shell_reads_directory_and_command_back() {
    for cwd in ["/tmp", "/my dir", "/home/it's", "", "/a;b $c `d`", "/x\\y", "~/z", "'"] {
        for cmd in ["code", "code --new-window", "sh -c 'x y'", "a \"b\" && c"] {
            let text = build_launch_cmd(&make_entry("code", cmd, None, Some(cwd)));
            let words = shell_words(&text).unwrap();
            assert_eq!(words.len(), 3, "{text}");
            assert_eq!((words[0].as_str(), words[1].as_str()), ("sh", "-c"));
            let inner = words[2].strip_prefix("cd ").unwrap();
            let path = inner.strip_suffix(&format!(" && exec {cmd}")).unwrap();
            assert_eq!(shell_words(path), Some(vec![cwd.to_string()]), "{text}");
        }
    }
}

#[test]
fn an_independent_process_has_no_single_instance_flags() {
    let cmd = |launch_cmd: &str, cwd: Option<&str>| {
        build_independent_cmd(&make_entry("app", launch_cmd, None, cwd))
    };
    assert_eq!(cmd("app  --single-instance x", None), "app x");
    assert_eq!(
        cmd("app --gtk-single-instance=true", Some("/tmp")),
        "sh -c 'cd '/tmp' && exec app'"
    );
    assert_eq!(
        cmd("app --single-instance", Some("/my  dir")),
        "sh -c 'cd '\\''/my  dir'\\'' && exec app'"
    );
    assert_eq!(
        cmd("kitty --single-instance -1", Some("/a  b")),
        "kitty -1 --directory=/a  b"
    );
    for (launch_cmd, cwd) in [
        ("a --single-instance  b", None),
        ("kitty --single-instance", Some("/tmp")),
        ("/usr/bin/foot -e x", Some("/a,b")),
    ] {
        let entry = make_entry("app", launch_cmd, Some("-p"), cwd);
        assert_eq!(
            build_independent_cmd(&entry),
            strip_single_instance_flags(&build_launch_cmd(&entry))
        );
    }
}

#[test]
fn every_known_terminal_has_its_flag() {
    assert_eq!(terminal_cwd_flag("ghostty"), Some("--working-directory="));
    assert_eq!(terminal_cwd_flag("kitty -1"), Some("--directory="));
    assert_eq!(terminal_cwd_flag("/opt/bin/alacritty"), Some("--working-directory="));
    assert_eq!(terminal_cwd_flag("  wezterm start"), Some("--cwd="));
    assert_eq!(terminal_cwd_flag("foot"), Some("--working-directory="));
    assert_eq!(terminal_cwd_flag("tilix"), Some("--working-directory="));
    assert_eq!(terminal_cwd_flag("terminator"), Some("--working-directory="));
    assert_eq!(terminal_cwd_flag("xterm"), None);
    assert_eq!(terminal_cwd_flag("kitty/"), None);
    assert_eq!(terminal_cwd_flag("   "), None);
    assert_eq!(terminal_cwd_flag(""), None);
}

#[test]
fn stripping_keeps_the_other_words_in_order() {
    assert_eq!(
        strip_single_instance_flags("kitty --single-instance  --title a\u{3000}b"),
        "kitty --title a b"
    );
    assert_eq!(strip_single_instance_flags("--single-instance"), "");
    assert_eq!(
        strip_single_instance_flags("--gtk-single-instance=false --single-instanceX"),
        "--gtk-single-instance=false --single-instanceX"
    );
}

#[test]
fn stripping_twice_is_stripping_once() {
    let once = strip_single_instance_flags(" a  --single-instance b ");
    assert_eq!(once, "a b");
    assert_eq!(strip_single_instance_flags(&once), once);
}

/// Reads words of single-quoted parts, backslashed characters and characters that
/// need neither, as a shell does.
fn shell_words(s: &str) -> Option<Vec<String>> {
    let mut words = Vec::new();
    let mut word: Option<String> = None;
    let mut quoted = false;
    let mut chars = s.chars();
    while let Some(c) = chars.next() {
        if c == '\'' {
            quoted = !quoted;
            word.get_or_insert_with(String::new);
        } else if quoted || c.is_ascii_alphanumeric() || "/._-+:@%,=".contains(c) {
            word.get_or_insert_with(String::new).push(c);
        } else if c == '\\' {
            word.get_or_insert_with(String::new).push(chars.next()?);
        } else if c == ' ' {
            words.extend(word.take());
        } else {
            return None;
        }
    }
    words.extend(word);
    if quoted {
        None
    } else {
        Some(words)
    }
}

#[test]
fn a_shell_reads_what_was_escaped() {
    assert_eq!(shell_escape("it's"), "'it'\\''s'");
    assert_eq!(shell_escape(""), "''");
    for s in ["", "'", "''a'", "a b$c`d\\", "ünï 'x'"] {
        assert_eq!(shell_words(&shell_escape(s)), Some(vec![s.to_string()]));
    }
}
