//! The requests that a client sends to a running compositor, and what the
//! replies mean.
//!
//! Each method of `HyprCtl` that asks something of the compositor returns the
//! request to send. The functions whose names end in `_reply` read what came
//! back.

use std::collections::HashMap;
use vstd::prelude::*;
use vstd::string::StringExecFns;

use crate::models::{HyprClient, HyprMonitor};
use crate::text::{
    self, contains, decimal_of, signed_decimal_of, split_once, starts_with, str_eq,
    strip_all_of, strip_prefix, trim_char_of, trim_of,
};

verus! {

broadcast use {vstd::string::group_string_axioms, vstd::std_specs::hash::group_hash_axioms};

/// What the compositor is told of a window that it is to expect.
pub struct SessionctlExpectation<'a> {
    pub app_id: &'a str,
    pub workspace: &'a str,
    pub monitor: &'a str,
    pub floating: bool,
    pub fullscreen: bool,
    pub maximized: bool,
    pub x: i32,
    pub y: i32,
    pub w: i32,
    pub h: i32,
}

/// The sockets of a running compositor.
#[derive(Debug)]
pub struct HyprSocketPaths {
    /// The socket that takes requests.
    pub socket1: String,
    /// The socket that emits events.
    pub socket2: String,
}

/// Why the sockets could not be located.
#[derive(Debug, Clone, Copy, PartialEq, Eq, Structural)]
pub enum EnvError {
    /// The environment names no running instance.
    NoInstance,
}

/// A text to send to a socket.
pub struct Request {
    pub socket: String,
    pub payload: String,
}

/// A handle to a running compositor.
pub struct HyprCtl {
    pub paths: HyprSocketPaths,
}

// ---------------------------------------------------------------------------
// Models
// ---------------------------------------------------------------------------

/// `part` below the directory `base`; `part` itself if it is absolute.
pub open spec fn path_join(base: Seq<char>, part: Seq<char>) -> Seq<char> {
    if part.len() > 0 && part[0] == '/' {
        part
    } else if base.len() == 0 || base.last() == '/' {
        base + part
    } else {
        base.push('/') + part
    }
}

/// The directory of the sockets of the instance `his`.
pub open spec fn socket_dir(his: Seq<char>, runtime: Option<Seq<char>>) -> Seq<char> {
    let base = match runtime {
        Some(dir) => dir,
        None => "/run/user/1000"@,
    };
    path_join(path_join(base, "hypr"@), his)
}

/// The request that runs a dispatcher.
pub open spec fn dispatch_text(args: Seq<char>) -> Seq<char> {
    "dispatch "@ + args
}

/// The request that sets a configuration keyword.
pub open spec fn keyword_text(args: Seq<char>) -> Seq<char> {
    "keyword "@ + args
}

/// The request for the value of an option.
pub open spec fn option_text(name: Seq<char>) -> Seq<char> {
    "getoption "@ + name
}

/// The text of a flag in an `expect` request.
pub open spec fn flag_text(b: bool) -> Seq<char> {
    if b {
        text::decimal(1)
    } else {
        text::decimal(0)
    }
}

/// The ten fields of an `expect` request, in order.
pub open spec fn expect_fields(
    app_id: Seq<char>,
    workspace: Seq<char>,
    monitor: Seq<char>,
    floating: bool,
    fullscreen: bool,
    maximized: bool,
    x: int,
    y: int,
    w: int,
    h: int,
) -> Seq<Seq<char>> {
    seq![
        app_id,
        workspace,
        monitor,
        flag_text(floating),
        flag_text(fullscreen),
        flag_text(maximized),
        text::signed_decimal(x),
        text::signed_decimal(y),
        text::signed_decimal(w),
        text::signed_decimal(h),
    ]
}

/// The request that registers an expected window.
pub open spec fn expect_text(fields: Seq<Seq<char>>) -> Seq<char> {
    "sessionctl expect "@ + text::join(fields, " "@)
}

/// The reply says that the request was carried out.
pub open spec fn reply_is_ok(reply: Seq<char>) -> bool {
    text::trim(reply) == "ok"@
}

/// The reply says that a boolean option is set.
pub open spec fn reply_is_set(reply: Seq<char>) -> bool {
    text::has_substring(reply, "int: 1"@)
}

/// The reply to a `status` request comes from a compositor that knows it: it
/// begins as a status does, whatever applications it names, or at least does not
/// complain.
pub open spec fn reply_is_known(reply: Seq<char>) -> bool {
    text::has_prefix(reply, "active: "@) || (!text::has_substring(reply, "error"@)
        && !text::has_substring(reply, "unknown"@))
}

/// The value in a line of an option's description, without quotation marks.
pub open spec fn unquoted(value: Seq<char>) -> Seq<char> {
    text::trim_char_end(
        text::trim_char_start(text::trim(value), '"'),
        '"',
    )
}

/// The value in the first of `lines` that holds a string.
pub open spec fn first_str(lines: Seq<Seq<char>>) -> Option<Seq<char>>
    decreases lines.len(),
{
    if lines.len() == 0 {
        None
    } else if text::has_prefix(lines[0], "str: "@) {
        Some(unquoted(lines[0].skip("str: "@.len() as int)))
    } else {
        first_str(lines.drop_first())
    }
}

/// The string value of an option, by the reply to a request for it.
pub open spec fn str_value(reply: Seq<char>) -> Option<Seq<char>> {
    first_str(text::lines(reply))
}

/// An address without the marks of a hexadecimal number.
pub open spec fn bare_address(address: Seq<char>) -> Seq<char> {
    text::strip_all(address, "0x"@)
}

/// The first of `clients` at `address`.
pub open spec fn client_at(clients: Seq<HyprClient>, address: Seq<char>) -> Option<HyprClient>
    decreases clients.len(),
{
    if clients.len() == 0 {
        None
    } else if bare_address(clients[0].address@) == bare_address(address) {
        Some(clients[0])
    } else {
        client_at(clients.drop_first(), address)
    }
}

/// The name of each monitor by its number; of two with one number, the later.
pub open spec fn names_by_id(monitors: Seq<HyprMonitor>) -> Map<i64, String>
    decreases monitors.len(),
{
    if monitors.len() == 0 {
        Map::empty()
    } else {
        names_by_id(monitors.drop_last()).insert(monitors.last().id, monitors.last().name)
    }
}

// ---------------------------------------------------------------------------
// Sockets
// ---------------------------------------------------------------------------

/// `part` below the directory `base`; `part` itself if it is absolute.
pub fn join_path(base: &str, part: &str) -> (r: String)
    ensures
        r@ == path_join(base@, part@),
{
    let b = text::chars_of(base);
    let p = text::chars_of(part);
    if p.len() > 0 && p[0] == '/' {
        part.to_owned()
    } else {
        let mut r = base.to_owned();
        if b.len() > 0 && b[b.len() - 1] != '/' {
            r.push('/');
        }
        r.append(part);
        r
    }
}

impl EnvError {
    /// The error for people to read.
    pub fn message(&self) -> (r: String)
        ensures
            r@ == "HYPRLAND_INSTANCE_SIGNATURE not set — is Hyprland running?"@,
    {
        "HYPRLAND_INSTANCE_SIGNATURE not set — is Hyprland running?".to_owned()
    }
}

impl HyprSocketPaths {
    /// The sockets of the instance that the environment names: `his` is the
    /// value of `HYPRLAND_INSTANCE_SIGNATURE` and `runtime` that of
    /// `XDG_RUNTIME_DIR`, each `None` if it is not set or is no text.
    pub fn from_env(his: Option<String>, runtime: Option<String>) -> (r: Result<Self, EnvError>)
        ensures
            his is None <==> r == Err::<HyprSocketPaths, EnvError>(EnvError::NoInstance),
            his matches Some(sig) ==> r is Ok && ({
                let dir = socket_dir(sig@, text::opt_view(runtime));
                r->Ok_0.socket1@ == path_join(dir, ".socket.sock"@) && r->Ok_0.socket2@
                    == path_join(dir, ".socket2.sock"@)
            }),
    {
        match his {
            None => Err(EnvError::NoInstance),
            Some(sig) => {
                let base = match runtime {
                    Some(dir) => dir,
                    None => "/run/user/1000".to_owned(),
                };
                let hypr = join_path(base.as_str(), "hypr");
                let dir = join_path(hypr.as_str(), sig.as_str());
                Ok(
                    HyprSocketPaths {
                        socket1: join_path(dir.as_str(), ".socket.sock"),
                        socket2: join_path(dir.as_str(), ".socket2.sock"),
                    },
                )
            },
        }
    }

    /// The sockets at the given paths.
    pub fn new(socket1: String, socket2: String) -> (r: Self)
        ensures
            r.socket1 == socket1,
            r.socket2 == socket2,
    {
        HyprSocketPaths { socket1, socket2 }
    }
}

impl Clone for HyprSocketPaths {
    fn clone(&self) -> (r: Self)
        ensures
            r == *self,
    {
        HyprSocketPaths { socket1: self.socket1.clone(), socket2: self.socket2.clone() }
    }
}

// ---------------------------------------------------------------------------
// Requests
// ---------------------------------------------------------------------------

/// The text of the request that runs a dispatcher.
pub fn dispatch_request(args: &str) -> (r: String)
    ensures
        r@ == dispatch_text(args@),
{
    let mut r = "dispatch ".to_owned();
    r.append(args);
    r
}

/// The text of the request that sets a configuration keyword.
pub fn keyword_request(args: &str) -> (r: String)
    ensures
        r@ == keyword_text(args@),
{
    let mut r = "keyword ".to_owned();
    r.append(args);
    r
}

/// The text of the request for the value of an option.
pub fn option_request(name: &str) -> (r: String)
    ensures
        r@ == option_text(name@),
{
    let mut r = "getoption ".to_owned();
    r.append(name);
    r
}

/// The text of a flag in an `expect` request.
fn flag_text_of(b: bool) -> (r: String)
    ensures
        r@ == flag_text(b),
{
    if b {
        decimal_of(1)
    } else {
        decimal_of(0)
    }
}

impl HyprCtl {
    /// A handle to the compositor behind `paths`.
    pub fn new(paths: HyprSocketPaths) -> (r: Self)
        ensures
            r.paths == paths,
    {
        HyprCtl { paths }
    }

    /// A handle to the instance that the environment names; see
    /// `HyprSocketPaths::from_env`.
    pub fn from_env(his: Option<String>, runtime: Option<String>) -> (r: Result<Self, EnvError>)
        ensures
            his is None <==> r == Err::<HyprCtl, EnvError>(EnvError::NoInstance),
            his matches Some(sig) ==> r is Ok && ({
                let dir = socket_dir(sig@, text::opt_view(runtime));
                r->Ok_0.paths.socket1@ == path_join(dir, ".socket.sock"@)
                    && r->Ok_0.paths.socket2@ == path_join(dir, ".socket2.sock"@)
            }),
    {
        match HyprSocketPaths::from_env(his, runtime) {
            Ok(paths) => Ok(HyprCtl { paths }),
            Err(e) => Err(e),
        }
    }

    /// The sockets of the compositor.
    pub fn socket_paths(&self) -> (r: &HyprSocketPaths)
        ensures
            *r == self.paths,
    {
        &self.paths
    }

    /// A request whose reply is JSON.
    pub fn json(&self, command: &str) -> (r: Request)
        ensures
            r.socket == self.paths.socket1,
            r.payload@ == "j/"@ + command@,
    {
        let mut payload = "j/".to_owned();
        payload.append(command);
        Request { socket: self.paths.socket1.clone(), payload }
    }

    /// A request whose reply is text.
    pub fn plain(&self, command: &str) -> (r: Request)
        ensures
            r.socket == self.paths.socket1,
            r.payload@ == command@,
    {
        Request { socket: self.paths.socket1.clone(), payload: command.to_owned() }
    }

    /// Asks for all windows.
    pub fn get_clients(&self) -> (r: Request)
        ensures
            r.socket == self.paths.socket1,
            r.payload@ == "j/"@ + "clients"@,
    {
        self.json("clients")
    }

    /// Asks for all windows, one of which `get_client_by_address_reply` picks.
    pub fn get_client_by_address(&self) -> (r: Request)
        ensures
            r.socket == self.paths.socket1,
            r.payload@ == "j/"@ + "clients"@,
    {
        self.get_clients()
    }

    /// The first of `clients` at `address`, whether or not either address is
    /// written with `0x`.
    pub fn get_client_by_address_reply<'a>(
        clients: &'a Vec<HyprClient>,
        address: &str,
    ) -> (r: Option<&'a HyprClient>)
        ensures
            r matches Some(c) ==> client_at(clients@, address@) == Some(*c),
            r is None ==> client_at(clients@, address@) is None,
    {
        let wanted = strip_all_of(address, "0x");
        let mut i: usize = 0;
        assert(clients@.skip(0) =~= clients@);
        while i < clients.len()
            invariant
                i <= clients@.len(),
                wanted@ == bare_address(address@),
                client_at(clients@, address@) == client_at(clients@.skip(i as int), address@),
            decreases clients@.len() - i,
        {
            let c = &clients[i];
            if str_eq(strip_all_of(c.address.as_str(), "0x"), wanted) {
                return Some(c);
            }
            assert(clients@.skip(i as int).drop_first() =~= clients@.skip(i + 1));
            i += 1;
        }
        None
    }

    /// Runs a dispatcher.
    pub fn dispatch(&self, args: &str) -> (r: Request)
        ensures
            r.socket == self.paths.socket1,
            r.payload@ == dispatch_text(args@),
    {
        self.plain(dispatch_request(args).as_str())
    }

    /// Sets a configuration keyword.
    pub fn keyword(&self, args: &str) -> (r: Request)
        ensures
            r.socket == self.paths.socket1,
            r.payload@ == keyword_text(args@),
    {
        self.plain(keyword_request(args).as_str())
    }

    /// Asks for all monitors.
    pub fn get_monitors(&self) -> (r: Request)
        ensures
            r.socket == self.paths.socket1,
            r.payload@ == "j/"@ + "monitors"@,
    {
        self.json("monitors")
    }

    /// Asks for all monitors, which `get_monitor_map_reply` arranges by number.
    pub fn get_monitor_map(&self) -> (r: Request)
        ensures
            r.socket == self.paths.socket1,
            r.payload@ == "j/"@ + "monitors"@,
    {
        self.get_monitors()
    }

    /// The name of each monitor by its number.
    pub fn get_monitor_map_reply(monitors: &Vec<HyprMonitor>) -> (r: HashMap<i64, String>)
        ensures
            r@ == names_by_id(monitors@),
    {
        let mut r: HashMap<i64, String> = HashMap::new();
        let mut i: usize = 0;
        assert(monitors@.take(0) =~= Seq::<HyprMonitor>::empty());
        while i < monitors.len()
            invariant
                i <= monitors@.len(),
                r@ == names_by_id(monitors@.take(i as int)),
            decreases monitors@.len() - i,
        {
            assert(monitors@.take(i + 1).drop_last() =~= monitors@.take(i as int));
            r.insert(monitors[i].id, monitors[i].name.clone());
            i += 1;
        }
        assert(monitors@.take(i as int) =~= monitors@);
        r
    }

    /// Asks for an option that is set or not.
    pub fn get_option(&self, name: &str) -> (r: Request)
        ensures
            r.socket == self.paths.socket1,
            r.payload@ == option_text(name@),
    {
        self.plain(option_request(name).as_str())
    }

    /// Whether the option is set.
    pub fn get_option_reply(raw: &str) -> (r: bool)
        ensures
            r == reply_is_set(raw@),
    {
        contains(raw, "int: 1")
    }

    /// Asks for an option that holds a string.
    pub fn get_option_str(&self, name: &str) -> (r: Request)
        ensures
            r.socket == self.paths.socket1,
            r.payload@ == option_text(name@),
    {
        self.get_option(name)
    }

    /// The string that the option `name` holds, or why the reply has none.
    pub fn get_option_str_reply(name: &str, raw: &str) -> (r: Result<String, String>)
        ensures
            r matches Ok(value) ==> str_value(raw@) == Some(value@),
            r matches Err(message) ==> str_value(raw@) is None && message@
                == "no str value in getoption response for "@ + name@,
    {
        let mut rest = raw;
        while !rest.is_empty()
            invariant
                str_value(raw@) == str_value(rest@),
            decreases rest@.len(),
        {
            let ghost all = text::lines(rest@);
            let line = match split_once(rest, '\n') {
                Some((line, tail)) => {
                    rest = tail;
                    line
                },
                None => {
                    let line = rest;
                    rest = "";
                    proof {
                        reveal_strlit("");
                    }
                    assert(rest@ =~= Seq::<char>::empty());
                    line
                },
            };
            assert(all =~= seq![line@] + text::lines(rest@));
            assert(all.drop_first() =~= text::lines(rest@));
            if let Some(value) = strip_prefix(line, "str: ") {
                return Ok(trim_char_of(trim_of(value), '"').to_owned());
            }
        }
        let mut message = "no str value in getoption response for ".to_owned();
        message.append(name);
        Err(message)
    }

    /// Asks for the active tiling layout.
    pub fn get_layout(&self) -> (r: Request)
        ensures
            r.socket == self.paths.socket1,
            r.payload@ == option_text("general:layout"@),
    {
        self.get_option_str("general:layout")
    }

    /// Begins a restore. Expectations of an earlier one are forgotten.
    pub fn sessionctl_begin(&self) -> (r: Request)
        ensures
            r.socket == self.paths.socket1,
            r.payload@ == "sessionctl begin"@,
    {
        self.plain("sessionctl begin")
    }

    /// Whether a `sessionctl` request was carried out.
    pub fn sessionctl_reply(raw: &str) -> (r: bool)
        ensures
            r == reply_is_ok(raw@),
    {
        str_eq(trim_of(raw), "ok")
    }

    /// Registers an expected window: the compositor applies this state when a
    /// window with the given `app_id` maps.
    pub fn sessionctl_expect(&self, exp: &SessionctlExpectation<'_>) -> (r: Request)
        ensures
            r.socket == self.paths.socket1,
            r.payload@ == expect_text(
                expect_fields(
                    exp.app_id@,
                    exp.workspace@,
                    exp.monitor@,
                    exp.floating,
                    exp.fullscreen,
                    exp.maximized,
                    exp.x as int,
                    exp.y as int,
                    exp.w as int,
                    exp.h as int,
                ),
            ),
    {
        let payload = expect_request(exp);
        Request { socket: self.paths.socket1.clone(), payload }
    }

    /// Ends the registration of expectations.
    pub fn sessionctl_end(&self) -> (r: Request)
        ensures
            r.socket == self.paths.socket1,
            r.payload@ == "sessionctl end"@,
    {
        self.plain("sessionctl end")
    }

    /// Ends the restore, late windows and all: what expectations are left are
    /// forgotten, so that new windows of the same class are no longer placed.
    pub fn sessionctl_finish(&self) -> (r: Request)
        ensures
            r.socket == self.paths.socket1,
            r.payload@ == "sessionctl finish"@,
    {
        self.plain("sessionctl finish")
    }

    /// Asks whether the compositor supports `sessionctl`.
    pub fn sessionctl_available(&self) -> (r: Request)
        ensures
            r.socket == self.paths.socket1,
            r.payload@ == "sessionctl status"@,
    {
        self.sessionctl_status()
    }

    /// Whether the compositor supports `sessionctl`; `raw` is `None` if the
    /// request failed.
    pub fn sessionctl_available_reply(raw: Option<&str>) -> (r: bool)
        ensures
            r == (raw matches Some(reply) && reply_is_known(reply@)),
    {
        match raw {
            Some(reply) => starts_with(reply, "active: ") || (!contains(reply, "error")
                && !contains(reply, "unknown")),
            None => false,
        }
    }

    /// Loads the plugin at `path`.
    pub fn plugin_load(&self, path: &str) -> (r: Request)
        ensures
            r.socket == self.paths.socket1,
            r.payload@ == "plugin load "@ + path@,
    {
        let mut command = "plugin load ".to_owned();
        command.append(path);
        self.plain(command.as_str())
    }

    /// Unloads the plugin at `path`.
    pub fn plugin_unload(&self, path: &str) -> (r: Request)
        ensures
            r.socket == self.paths.socket1,
            r.payload@ == "plugin unload "@ + path@,
    {
        let mut command = "plugin unload ".to_owned();
        command.append(path);
        self.plain(command.as_str())
    }

    /// Asks for the loaded plugins.
    pub fn plugin_list(&self) -> (r: Request)
        ensures
            r.socket == self.paths.socket1,
            r.payload@ == "plugin list"@,
    {
        self.plain("plugin list")
    }

    /// Asks for the state of the `sessionctl` protocol.
    pub fn sessionctl_status(&self) -> (r: Request)
        ensures
            r.socket == self.paths.socket1,
            r.payload@ == "sessionctl status"@,
    {
        self.plain("sessionctl status")
    }
}

/// The text of the request that registers an expected window.
pub fn expect_request(exp: &SessionctlExpectation<'_>) -> (r: String)
    ensures
        r@ == expect_text(
            expect_fields(
                exp.app_id@,
                exp.workspace@,
                exp.monitor@,
                exp.floating,
                exp.fullscreen,
                exp.maximized,
                exp.x as int,
                exp.y as int,
                exp.w as int,
                exp.h as int,
            ),
        ),
{
    let mut fields: Vec<String> = Vec::new();
    fields.push(exp.app_id.to_owned());
    fields.push(exp.workspace.to_owned());
    fields.push(exp.monitor.to_owned());
    fields.push(flag_text_of(exp.floating));
    fields.push(flag_text_of(exp.fullscreen));
    fields.push(flag_text_of(exp.maximized));
    fields.push(signed_decimal_of(exp.x as i64));
    fields.push(signed_decimal_of(exp.y as i64));
    fields.push(signed_decimal_of(exp.w as i64));
    fields.push(signed_decimal_of(exp.h as i64));
    assert(text::views(fields@) =~= expect_fields(
        exp.app_id@,
        exp.workspace@,
        exp.monitor@,
        exp.floating,
        exp.fullscreen,
        exp.maximized,
        exp.x as int,
        exp.y as int,
        exp.w as int,
        exp.h as int,
    ));
    let mut r = "sessionctl expect ".to_owned();
    r.append(text::join_of(&fields, " ").as_str());
    r
}

// ---------------------------------------------------------------------------
// Laws
// ---------------------------------------------------------------------------

/// A window is found at its address whether or not the address is written with
/// `0x`.
pub proof fn address_mark_ignored(clients: Seq<HyprClient>, address: Seq<char>)
    ensures
        client_at(clients, "0x"@ + address) == client_at(clients, address),
    decreases clients.len(),
{
    reveal_strlit("0x");
    let marked = "0x"@ + address;
    assert(marked.take(2) =~= "0x"@);
    assert(marked.skip(2) =~= address);
    assert(bare_address(marked) == bare_address(address));
    if clients.len() > 0 {
        address_mark_ignored(clients.drop_first(), address);
    }
}

/// The window that is found is one of those at the address, and none is found
/// only if there is none.
pub proof fn client_found(clients: Seq<HyprClient>, address: Seq<char>)
    ensures
        client_at(clients, address) matches Some(c) ==> clients.contains(c) && bare_address(
            c.address@,
        ) == bare_address(address),
        client_at(clients, address) is None ==> forall|i: int|
            0 <= i < clients.len() ==> bare_address((#[trigger] clients[i]).address@)
                != bare_address(address),
    decreases clients.len(),
{
    if clients.len() > 0 {
        let tail = clients.drop_first();
        client_found(tail, address);
        assert(clients.contains(clients[0]));
        if let Some(c) = client_at(tail, address) {
            let i = choose|i: int| 0 <= i < tail.len() && tail[i] == c;
            assert(clients[i + 1] == c);
        } else {
            assert forall|i: int| 0 < i < clients.len() implies bare_address(
                (#[trigger] clients[i]).address@,
            ) == bare_address(tail[i - 1].address@) by {}
        }
    }
}

/// Ten fields joined by blanks stand one behind the other.
pub proof fn ten_fields_joined(f: Seq<Seq<char>>)
    requires
        f.len() == 10,
    ensures
        text::join(f, " "@) == f[0] + " "@ + f[1] + " "@ + f[2] + " "@ + f[3] + " "@ + f[4] + " "@
            + f[5] + " "@ + f[6] + " "@ + f[7] + " "@ + f[8] + " "@ + f[9],
{
    let s = " "@;
    text::join_grows(f.take(1), s, f[1]);
    text::join_grows(f.take(2), s, f[2]);
    text::join_grows(f.take(3), s, f[3]);
    text::join_grows(f.take(4), s, f[4]);
    text::join_grows(f.take(5), s, f[5]);
    text::join_grows(f.take(6), s, f[6]);
    text::join_grows(f.take(7), s, f[7]);
    text::join_grows(f.take(8), s, f[8]);
    text::join_grows(f.take(9), s, f[9]);
    assert(f.take(1).push(f[1]) =~= f.take(2));
    assert(f.take(2).push(f[2]) =~= f.take(3));
    assert(f.take(3).push(f[3]) =~= f.take(4));
    assert(f.take(4).push(f[4]) =~= f.take(5));
    assert(f.take(5).push(f[5]) =~= f.take(6));
    assert(f.take(6).push(f[6]) =~= f.take(7));
    assert(f.take(7).push(f[7]) =~= f.take(8));
    assert(f.take(8).push(f[8]) =~= f.take(9));
    assert(f.take(9).push(f[9]) =~= f);
    assert(text::join(f.take(1), s) == f[0]);
}

/// A flag is written as one or zero.
pub proof fn flags_written()
    ensures
        flag_text(true) == "1"@,
        flag_text(false) == "0"@,
{
    text::one_digit(0);
    text::one_digit(1);
    reveal_strlit("0");
    reveal_strlit("1");
    reveal_strlit("0123456789");
    assert(flag_text(true) =~= "1"@);
    assert(flag_text(false) =~= "0"@);
}

} // verus!
