//! What is sent to the compositor on each request, and how its replies are read.

use std::collections::HashMap;
use vstd::prelude::*;

use crate::client::{self, EnvError, HyprCtl, HyprSocketPaths, Request, SessionctlExpectation};
use crate::models::{HyprClient, HyprMonitor};
use crate::text;

verus! {

broadcast use {vstd::string::group_string_axioms, vstd::std_specs::hash::group_hash_axioms};

/// The request goes to the socket for requests and holds the text.
pub open spec fn asks(ctl: HyprCtl, r: Request, payload: Seq<char>) -> bool {
    r.socket@ == ctl.paths.socket1@ && r.payload@ == payload
}

// ---------------------------------------------------------------------------
// Requests
// ---------------------------------------------------------------------------

/// Windows and monitors are asked for as JSON.
pub proof fn lists_asked_for(ctl: HyprCtl, a: Request, b: Request, c: Request, d: Request)
    requires
        call_ensures(HyprCtl::get_clients, (&ctl,), a),
        call_ensures(HyprCtl::get_client_by_address, (&ctl,), b),
        call_ensures(HyprCtl::get_monitors, (&ctl,), c),
        call_ensures(HyprCtl::get_monitor_map, (&ctl,), d),
    ensures
        asks(ctl, a, "j/clients"@),
        asks(ctl, b, "j/clients"@),
        asks(ctl, c, "j/monitors"@),
        asks(ctl, d, "j/monitors"@),
{
    reveal_strlit("j/");
    reveal_strlit("clients");
    reveal_strlit("monitors");
    reveal_strlit("j/clients");
    reveal_strlit("j/monitors");
    assert("j/"@ + "clients"@ =~= "j/clients"@);
    assert("j/"@ + "monitors"@ =~= "j/monitors"@);
}

/// A command is sent as it is, or with the mark of a JSON request before it.
pub proof fn commands_sent(ctl: HyprCtl, command: &str, a: Request, b: Request)
    requires
        call_ensures(HyprCtl::plain, (&ctl, command), a),
        call_ensures(HyprCtl::json, (&ctl, command), b),
    ensures
        asks(ctl, a, command@),
        asks(ctl, b, "j/"@ + command@),
{
}

/// Dispatchers, keywords and options are named behind the kind of request.
pub proof fn arguments_sent(
    ctl: HyprCtl,
    args: &str,
    a: Request,
    b: Request,
    c: Request,
    d: Request,
    e: Request,
)
    requires
        call_ensures(HyprCtl::dispatch, (&ctl, args), a),
        call_ensures(HyprCtl::keyword, (&ctl, args), b),
        call_ensures(HyprCtl::get_option, (&ctl, args), c),
        call_ensures(HyprCtl::get_option_str, (&ctl, args), d),
        call_ensures(HyprCtl::get_layout, (&ctl,), e),
    ensures
        asks(ctl, a, "dispatch "@ + args@),
        asks(ctl, b, "keyword "@ + args@),
        asks(ctl, c, "getoption "@ + args@),
        asks(ctl, d, "getoption "@ + args@),
        asks(ctl, e, "getoption general:layout"@),
{
    reveal_strlit("getoption ");
    reveal_strlit("general:layout");
    reveal_strlit("getoption general:layout");
    assert("getoption "@ + "general:layout"@ =~= "getoption general:layout"@);
}

/// The texts of requests that are sent later are the same.
pub proof fn texts_made(args: &str, a: String, b: String, c: String)
    requires
        call_ensures(client::dispatch_request, (args,), a),
        call_ensures(client::keyword_request, (args,), b),
        call_ensures(client::option_request, (args,), c),
    ensures
        a@ == "dispatch "@ + args@,
        b@ == "keyword "@ + args@,
        c@ == "getoption "@ + args@,
{
}

/// Plugins are loaded and unloaded by their paths.
pub proof fn plugin_requests_sent(ctl: HyprCtl, path: &str, a: Request, b: Request, c: Request)
    requires
        call_ensures(HyprCtl::plugin_load, (&ctl, path), a),
        call_ensures(HyprCtl::plugin_unload, (&ctl, path), b),
        call_ensures(HyprCtl::plugin_list, (&ctl,), c),
    ensures
        asks(ctl, a, "plugin load "@ + path@),
        asks(ctl, b, "plugin unload "@ + path@),
        asks(ctl, c, "plugin list"@),
{
}

/// A restore is framed by requests of their own.
pub proof fn session_requests_sent(
    ctl: HyprCtl,
    a: Request,
    b: Request,
    c: Request,
    d: Request,
    e: Request,
)
    requires
        call_ensures(HyprCtl::sessionctl_begin, (&ctl,), a),
        call_ensures(HyprCtl::sessionctl_end, (&ctl,), b),
        call_ensures(HyprCtl::sessionctl_finish, (&ctl,), c),
        call_ensures(HyprCtl::sessionctl_available, (&ctl,), d),
        call_ensures(HyprCtl::sessionctl_status, (&ctl,), e),
    ensures
        asks(ctl, a, "sessionctl begin"@),
        asks(ctl, b, "sessionctl end"@),
        asks(ctl, c, "sessionctl finish"@),
        asks(ctl, d, "sessionctl status"@),
        asks(ctl, e, "sessionctl status"@),
{
}

/// The text of a flag.
pub open spec fn one_or_zero(b: bool) -> Seq<char> {
    if b {
        "1"@
    } else {
        "0"@
    }
}

/// An expected window is described by its class, workspace and monitor, three flags
/// and four numbers, with blanks between them.
pub proof fn expectation_sent(
    ctl: HyprCtl,
    exp: SessionctlExpectation<'_>,
    a: Request,
    b: String,
)
    requires
        call_ensures(HyprCtl::sessionctl_expect, (&ctl, &exp), a),
        call_ensures(client::expect_request, (&exp,), b),
    ensures
        ({
            let payload = "sessionctl expect "@ + (exp.app_id@ + " "@ + exp.workspace@ + " "@
                + exp.monitor@ + " "@ + one_or_zero(exp.floating) + " "@ + one_or_zero(
                exp.fullscreen,
            ) + " "@ + one_or_zero(exp.maximized) + " "@ + text::signed_decimal(exp.x as int)
                + " "@ + text::signed_decimal(exp.y as int) + " "@ + text::signed_decimal(
                exp.w as int,
            ) + " "@ + text::signed_decimal(exp.h as int));
            asks(ctl, a, payload) && b@ == payload
        }),
{
    let fields = client::expect_fields(
        exp.app_id@,
        exp.workspace@,
        exp.monitor@,
        exp.floating,
        exp.fullscreen,
        exp.maximized,
        exp.x as int,
        exp.y as int,
        exp.w as int,
        exp.h as int,
    );
    client::flags_written();
    client::ten_fields_joined(fields);
}

// ---------------------------------------------------------------------------
// Sockets
// ---------------------------------------------------------------------------

/// A part stands below a directory, with one slash between them, unless it is
/// absolute.
pub proof fn path_below(base: &str, part: &str, r: String)
    requires
        call_ensures(client::join_path, (base, part), r),
    ensures
        part@.len() > 0 && part@[0] == '/' ==> r@ == part@,
        !(part@.len() > 0 && part@[0] == '/') && base@.len() == 0 ==> r@ == part@,
        !(part@.len() > 0 && part@[0] == '/') && base@.len() > 0 && base@.last() == '/' ==> r@
            == base@ + part@,
        !(part@.len() > 0 && part@[0] == '/') && base@.len() > 0 && base@.last() != '/' ==> r@
            == base@ + "/"@ + part@,
{
    reveal_strlit("/");
    assert(base@.push('/') + part@ =~= base@ + "/"@ + part@);
    if base@.len() == 0 {
        assert(base@ + part@ =~= part@);
    }
}

/// The sockets lie in the directory of the instance, below that of the compositor in
/// the user's runtime directory; without an instance there are none.
pub proof fn sockets_located(
    his: Option<String>,
    runtime: Option<String>,
    r: Result<HyprSocketPaths, EnvError>,
    s: Result<HyprCtl, EnvError>,
)
    requires
        call_ensures(HyprSocketPaths::from_env, (his, runtime), r),
        call_ensures(HyprCtl::from_env, (his, runtime), s),
    ensures
        his is None ==> r == Err::<HyprSocketPaths, EnvError>(EnvError::NoInstance) && s == Err::<
            HyprCtl,
            EnvError,
        >(EnvError::NoInstance),
        his is Some ==> r is Ok && s is Ok && s->Ok_0.paths.socket1@ == r->Ok_0.socket1@
            && s->Ok_0.paths.socket2@ == r->Ok_0.socket2@,
        his is Some && his->0@.len() > 0 && his->0@[0] != '/' && his->0@.last() != '/' ==> {
            let base = match runtime {
                Some(dir) => if dir@.len() == 0 || dir@.last() == '/' {
                    dir@ + "hypr/"@
                } else {
                    dir@ + "/hypr/"@
                },
                None => "/run/user/1000/hypr/"@,
            };
            &&& r->Ok_0.socket1@ == base + his->0@ + "/.socket.sock"@
            &&& r->Ok_0.socket2@ == base + his->0@ + "/.socket2.sock"@
        },
{
    reveal_strlit("hypr");
    reveal_strlit("hypr/");
    reveal_strlit("/hypr/");
    reveal_strlit("/run/user/1000");
    reveal_strlit("/run/user/1000/hypr/");
    reveal_strlit(".socket.sock");
    reveal_strlit(".socket2.sock");
    reveal_strlit("/.socket.sock");
    reveal_strlit("/.socket2.sock");
    if his is Some && his->0@.len() > 0 && his->0@[0] != '/' && his->0@.last() != '/' {
        let given = match runtime {
            Some(dir) => dir@,
            None => "/run/user/1000"@,
        };
        let base = match runtime {
            Some(dir) => if dir@.len() == 0 || dir@.last() == '/' {
                dir@ + "hypr/"@
            } else {
                dir@ + "/hypr/"@
            },
            None => "/run/user/1000/hypr/"@,
        };
        let hypr = client::path_join(given, "hypr"@);
        assert(hypr.push('/') =~= base);
        assert(hypr.last() == 'r');
        let dir = client::path_join(hypr, his->0@);
        assert(dir =~= base + his->0@);
        assert(dir.last() == his->0@.last());
        assert(client::path_join(dir, ".socket.sock"@) =~= base + his->0@ + "/.socket.sock"@);
        assert(client::path_join(dir, ".socket2.sock"@) =~= base + his->0@ + "/.socket2.sock"@);
    }
}

/// A handle keeps the sockets that it was made with, and so does a copy of them.
pub proof fn sockets_kept(
    socket1: String,
    socket2: String,
    paths: HyprSocketPaths,
    ctl: HyprCtl,
    kept: &HyprSocketPaths,
    copy: HyprSocketPaths,
)
    requires
        call_ensures(HyprSocketPaths::new, (socket1, socket2), paths),
        call_ensures(HyprCtl::new, (paths,), ctl),
        call_ensures(HyprCtl::socket_paths, (&ctl,), kept),
        call_ensures(HyprSocketPaths::clone, (&paths,), copy),
    ensures
        kept.socket1@ == socket1@,
        kept.socket2@ == socket2@,
        copy.socket1@ == socket1@,
        copy.socket2@ == socket2@,
{
}

// ---------------------------------------------------------------------------
// Replies
// ---------------------------------------------------------------------------

/// A request was carried out if, and only if, the reply is `ok`, whatever white space
/// stands around it.
pub proof fn confirmation_read(
    raw: &str,
    before: Seq<char>,
    said: Seq<char>,
    after: Seq<char>,
    r: bool,
)
    requires
        raw@ == before + said + after,
        forall|i: int| 0 <= i < before.len() ==> text::is_space(#[trigger] before[i]),
        forall|i: int| 0 <= i < after.len() ==> text::is_space(#[trigger] after[i]),
        said.len() > 0 ==> !text::is_space(said[0]) && !text::is_space(said.last()),
        call_ensures(HyprCtl::sessionctl_reply, (raw,), r),
    ensures
        r <==> said == "ok"@,
{
    text::trimmed(before, said, after);
}

/// An option is set if, and only if, the reply holds a one for its value.
pub proof fn option_read(raw: &str, r: bool)
    requires
        call_ensures(HyprCtl::get_option_reply, (raw,), r),
    ensures
        r <==> exists|before: Seq<char>, after: Seq<char>|
            raw@ == #[trigger] (before + "int: 1"@ + after),
{
    text::substring_stands_between(Seq::empty(), "int: 1"@, Seq::empty());
    if exists|before: Seq<char>, after: Seq<char>| raw@ == #[trigger] (before + "int: 1"@ + after) {
        let (before, after) = choose|before: Seq<char>, after: Seq<char>|
            raw@ == #[trigger] (before + "int: 1"@ + after);
        text::substring_stands_between(before, "int: 1"@, after);
    }
}

/// The protocol is known to a compositor that answers with a status, or with
/// anything in which neither an error nor an unknown request is spoken of.
pub proof fn support_read(raw: Option<&str>, r: bool)
    requires
        call_ensures(HyprCtl::sessionctl_available_reply, (raw,), r),
    ensures
        raw is None ==> !r,
        raw matches Some(reply) ==> (r <==> text::has_prefix(reply@, "active: "@) || !(
        text::has_substring(reply@, "error"@) || text::has_substring(reply@, "unknown"@))),
{
}

/// A position where a line begins.
pub open spec fn line_start(s: Seq<char>, p: int) -> bool {
    0 <= p < s.len() && (p == 0 || s[p - 1] == '\n')
}

/// A line that holds a string begins at `p`.
pub open spec fn str_line(s: Seq<char>, p: int) -> bool {
    line_start(s, p) && text::has_prefix(s.skip(p), "str: "@)
}

/// A line holds the mark of a string if the text does that begins with it.
proof fn mark_on_line(s: Seq<char>)
    ensures
        text::has_prefix(s, "str: "@) == text::has_prefix(
            s.take(text::first_index(s, '\n') as int),
            "str: "@,
        ),
{
    reveal_strlit("str: ");
    let mark = "str: "@;
    let n = text::first_index(s, '\n') as int;
    text::first_is_first(s, '\n');
    let line = s.take(n);
    if text::has_prefix(s, mark) {
        assert forall|i: int| 0 <= i < 5 implies s[i] != '\n' by {
            assert(s[i] == s.take(5)[i]);
        }
        if n < 5 {
            assert(s[n] == '\n');
        }
        assert(line.take(5) =~= s.take(5));
    }
    if text::has_prefix(line, mark) {
        assert(line.take(5) =~= s.take(5));
    }
}

/// What is behind the first line.
pub open spec fn behind_line(s: Seq<char>) -> Seq<char> {
    let n = text::first_index(s, '\n') as int;
    if n < s.len() {
        s.skip(n + 1)
    } else {
        Seq::empty()
    }
}

/// A string is found on the first line or behind it.
proof fn first_line_or_rest(s: Seq<char>)
    ensures
        s.len() > 0 && text::has_prefix(s, "str: "@) ==> client::str_value(s) == Some(
            client::unquoted(s.subrange(5, text::first_index(s, '\n') as int)),
        ),
        s.len() > 0 && !text::has_prefix(s, "str: "@) ==> client::str_value(s)
            == client::str_value(behind_line(s)),
        s.len() == 0 ==> client::str_value(s) is None,
{
    reveal_strlit("str: ");
    let n = text::first_index(s, '\n') as int;
    text::first_is_first(s, '\n');
    mark_on_line(s);
    if s.len() > 0 {
        let line = s.take(n);
        let all = text::lines(s);
        let rest = behind_line(s);
        assert(n == s.len() ==> line =~= s);
        assert(all =~= seq![line] + text::lines(rest));
        assert(all.drop_first() =~= text::lines(rest));
        if text::has_prefix(line, "str: "@) {
            assert(line.skip(5) =~= s.subrange(5, n));
        }
    }
}

/// The lines behind the first begin where they begin in the whole text.
proof fn later_line(s: Seq<char>, q: int)
    requires
        text::first_index(s, '\n') < s.len(),
        0 <= q,
    ensures
        str_line(behind_line(s), q) == str_line(s, q + text::first_index(s, '\n') + 1),
{
    let n = text::first_index(s, '\n') as int;
    text::first_is_first(s, '\n');
    let rest = behind_line(s);
    if q < rest.len() {
        assert(rest.skip(q) =~= s.skip(q + n + 1));
    }
}

/// Where no line holds a string, none is found.
proof fn no_str_line(s: Seq<char>)
    requires
        forall|q: int| !str_line(s, q),
    ensures
        client::str_value(s) is None,
    decreases s.len(),
{
    first_line_or_rest(s);
    text::first_is_first(s, '\n');
    if s.len() > 0 {
        assert(s.skip(0) =~= s);
        assert(!str_line(s, 0));
        let n = text::first_index(s, '\n') as int;
        let rest = behind_line(s);
        assert forall|q: int| !str_line(rest, q) by {
            if 0 <= q < rest.len() {
                later_line(s, q);
                assert(!str_line(s, q + n + 1));
            }
        }
        no_str_line(rest);
    }
}

/// What is found stands on the first line that holds a string.
proof fn first_str_line(s: Seq<char>, p: int)
    requires
        str_line(s, p),
        forall|q: int| 0 <= q < p ==> !str_line(s, q),
    ensures
        client::str_value(s) == Some(
            client::unquoted(s.subrange(p + 5, p + text::first_index(s.skip(p), '\n'))),
        ),
    decreases s.len(),
{
    first_line_or_rest(s);
    text::first_is_first(s, '\n');
    assert(s.skip(0) =~= s);
    if p > 0 {
        assert(!str_line(s, 0));
        let n = text::first_index(s, '\n') as int;
        let rest = behind_line(s);
        assert(p > n) by {
            if p <= n {
                assert(s[p - 1] != '\n');
            }
        }
        let t = p - n - 1;
        later_line(s, t);
        assert forall|q: int| 0 <= q < t implies !str_line(rest, q) by {
            later_line(s, q);
            assert(!str_line(s, q + n + 1));
        }
        first_str_line(rest, t);
        assert(rest.skip(t) =~= s.skip(p));
        let m = text::first_index(s.skip(p), '\n') as int;
        text::first_is_first(s.skip(p), '\n');
        mark_on_line(s.skip(p));
        reveal_strlit("str: ");
        assert(m >= 5);
        assert(rest.subrange(t + 5, t + m) =~= s.subrange(p + 5, p + m));
    }
}

/// The string that an option holds is what stands on the first line for strings,
/// without the quotation marks and the white space around it.
pub proof fn string_option_read(
    name: &str,
    raw: &str,
    p: int,
    left: Seq<char>,
    opening: nat,
    value: Seq<char>,
    closing: nat,
    right: Seq<char>,
    rest: Seq<char>,
    r: Result<String, String>,
)
    requires
        str_line(raw@, p),
        forall|q: int| 0 <= q < p ==> !str_line(raw@, q),
        raw@.skip(p) == "str: "@ + left + (Seq::new(opening, |i: int| '"') + value + Seq::new(
            closing,
            |i: int| '"',
        )) + right + rest,
        rest.len() == 0 || rest[0] == '\n',
        forall|i: int|
            0 <= i < left.len() ==> text::is_space(#[trigger] left[i]) && left[i] != '\n',
        forall|i: int|
            0 <= i < right.len() ==> text::is_space(#[trigger] right[i]) && right[i] != '\n',
        !value.contains('\n'),
        value.len() > 0 ==> value[0] != '"' && value.last() != '"' && !text::is_space(value[0])
            && !text::is_space(value.last()),
        call_ensures(HyprCtl::get_option_str_reply, (name, raw), r),
    ensures
        r matches Ok(found) && found@ == value,
{
    reveal_strlit("str: ");
    let s = raw@;
    let o = Seq::new(opening, |i: int| '"');
    let c = Seq::new(closing, |i: int| '"');
    let inner = o + value + c;
    let line = "str: "@ + left + inner + right;
    let tail = s.skip(p);
    assert(tail == line + rest);
    first_str_line(s, p);
    assert forall|i: int| 0 <= i < line.len() implies line[i] != '\n' by {
        let a = 5 + left.len();
        let b = a + o.len();
        let d = b + value.len();
        let e = d + c.len();
        if i < 5 {
        } else if i < a {
            assert(line[i] == left[i - 5]);
        } else if i < b {
            assert(line[i] == o[i - a]);
        } else if i < d {
            assert(line[i] == value[i - b]);
            assert(value.contains(value[i - b]));
        } else if i < e {
            assert(line[i] == c[i - d]);
        } else {
            assert(line[i] == right[i - e]);
        }
    }
    text::first_is_first(tail, '\n');
    let m = text::first_index(tail, '\n') as int;
    assert(m == line.len()) by {
        if m < line.len() {
            assert(tail[m] == line[m]);
        } else if m > line.len() {
            assert(tail[line.len() as int] == rest[0]);
        }
    }
    assert(s.subrange(p + 5, p + m) =~= left + inner + right) by {
        assert(s.subrange(p + 5, p + m) =~= tail.subrange(5, m));
        assert(tail.subrange(5, m) =~= line.skip(5));
    }
    if inner.len() > 0 {
        assert(inner[0] == '"' || inner[0] == value[0]);
        assert(inner.last() == '"' || inner.last() == value.last());
    }
    text::trimmed(left, inner, right);
    text::char_trimmed(opening, value, closing, '"');
    assert(client::str_value(s) == Some(value));
}

/// Where no line holds a string, the option has none, and is named.
pub proof fn string_option_missing(name: &str, raw: &str, r: Result<String, String>)
    requires
        forall|q: int| !str_line(raw@, q),
        call_ensures(HyprCtl::get_option_str_reply, (name, raw), r),
    ensures
        r matches Err(message) && message@ == "no str value in getoption response for "@ + name@,
{
    no_str_line(raw@);
}

/// Two addresses are the same but for marks of hexadecimal numbers before them.
pub open spec fn same_address(a: Seq<char>, b: Seq<char>) -> bool {
    client::bare_address(a) == client::bare_address(b)
}

/// An address without marks is itself, and a mark more makes no difference.
pub proof fn marks_make_no_difference(a: Seq<char>, b: Seq<char>)
    ensures
        same_address("0x"@ + a, a),
        !text::has_prefix(a, "0x"@) && !text::has_prefix(b, "0x"@) ==> (same_address(a, b) <==> a
            == b),
{
    reveal_strlit("0x");
    text::prefix_stripped(a, "0x"@);
    text::prefix_stripped(b, "0x"@);
}

/// The window that is picked is the first at the address, and there is one if any is.
pub proof fn first_window_picked(
    clients: Vec<HyprClient>,
    address: &str,
    i: int,
    r: Option<&HyprClient>,
)
    requires
        0 <= i < clients@.len(),
        same_address(clients@[i].address@, address@),
        forall|j: int|
            0 <= j < i ==> !same_address((#[trigger] clients@[j]).address@, address@),
        call_ensures(HyprCtl::get_client_by_address_reply, (&clients, address), r),
    ensures
        r matches Some(c) && *c == clients@[i],
{
    first_at(clients@, address@, i);
}

/// The first window at an address is found there.
pub proof fn first_at(clients: Seq<HyprClient>, address: Seq<char>, i: int)
    requires
        0 <= i < clients.len(),
        same_address(clients[i].address@, address),
        forall|j: int| 0 <= j < i ==> !same_address((#[trigger] clients[j]).address@, address),
    ensures
        client::client_at(clients, address) == Some(clients[i]),
    decreases clients.len(),
{
    if i > 0 {
        let tail = clients.drop_first();
        assert(!same_address(clients[0].address@, address));
        assert forall|j: int| 0 <= j < i - 1 implies !same_address(
            (#[trigger] tail[j]).address@,
            address,
        ) by {
            assert(!same_address(clients[j + 1].address@, address));
        }
        first_at(tail, address, i - 1);
    }
}

/// No window is picked where none is at the address.
pub proof fn no_window_picked(
    clients: Vec<HyprClient>,
    address: &str,
    r: Option<&HyprClient>,
)
    requires
        forall|j: int|
            0 <= j < clients@.len() ==> !same_address((#[trigger] clients@[j]).address@, address@),
        call_ensures(HyprCtl::get_client_by_address_reply, (&clients, address), r),
    ensures
        r is None,
{
    client::client_found(clients@, address@);
    if let Some(c) = client::client_at(clients@, address@) {
        let j = choose|j: int| 0 <= j < clients@.len() && clients@[j] == c;
        assert(!same_address(clients@[j].address@, address@));
    }
}

/// Each monitor is found by its number, the last one with it; and no other number is.
pub proof fn monitors_found(
    monitors: Vec<HyprMonitor>,
    id: i64,
    i: int,
    r: HashMap<i64, String>,
)
    requires
        call_ensures(HyprCtl::get_monitor_map_reply, (&monitors,), r),
    ensures
        0 <= i < monitors@.len() && monitors@[i].id == id && (forall|j: int|
            i < j < monitors@.len() ==> (#[trigger] monitors@[j]).id != id) ==> r@.contains_key(id)
            && r@[id] == monitors@[i].name,
        (forall|j: int| 0 <= j < monitors@.len() ==> (#[trigger] monitors@[j]).id != id)
            ==> !r@.contains_key(id),
{
    last_with_id(monitors@, id, i);
}

/// The name of a number is that of the last monitor with it.
proof fn last_with_id(monitors: Seq<HyprMonitor>, id: i64, i: int)
    ensures
        0 <= i < monitors.len() && monitors[i].id == id && (forall|j: int|
            i < j < monitors.len() ==> (#[trigger] monitors[j]).id != id)
            ==> client::names_by_id(monitors).contains_key(id) && client::names_by_id(monitors)[id]
            == monitors[i].name,
        (forall|j: int| 0 <= j < monitors.len() ==> (#[trigger] monitors[j]).id != id)
            ==> !client::names_by_id(monitors).contains_key(id),
    decreases monitors.len(),
{
    if monitors.len() > 0 {
        let head = monitors.drop_last();
        last_with_id(head, id, i);
        assert forall|j: int| 0 <= j < head.len() implies #[trigger] head[j] == monitors[j] by {}
        assert(monitors.last() == monitors[monitors.len() - 1]);
    }
}

} // verus!
