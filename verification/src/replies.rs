//! What the plugin does on each request, and what it answers.

use vstd::prelude::*;

use crate::plugin::{
    self, GeometryText, ParsedGeometry, PendingGeo, Placement, QueueView, State, StateView,
};
use crate::{protocol, text};

verus! {

broadcast use vstd::string::group_string_axioms;

/// The reply says that the request was carried out.
pub open spec fn agrees(reply: Seq<char>, json: bool) -> bool {
    reply == if json {
        "{\"ok\": true}"@
    } else {
        "ok"@
    }
}

/// The reply says that the request was refused, and why.
pub open spec fn refuses(reply: Seq<char>, json: bool, why: Seq<char>) -> bool {
    if json {
        exists|inside: Seq<char>|
            plugin::json_value(inside) == Some(why) && reply == "{\"ok\": false, \"error\": \""@
                + #[trigger] (inside + "\"}"@)
    } else {
        reply == "error: "@ + why
    }
}

/// An error is a refusal with its message.
proof fn errors_refuse(why: Seq<char>, json: bool)
    ensures
        refuses(plugin::err_text(why, json), json, why),
{
    if json {
        let inside = plugin::json_escaped(why);
        plugin::json_reads_escaped(why);
        assert("{\"ok\": false, \"error\": \""@ + inside + "\"}"@
            =~= "{\"ok\": false, \"error\": \""@ + (inside + "\"}"@));
    }
}

/// A new restore begins with nothing expected, whatever was before.
pub proof fn begin_starts_anew(st: StateView, json: bool, geo: ParsedGeometry)
    ensures
        ({
            let (next, reply) = plugin::dispatched(st, "sessionctl begin"@, json, geo);
            next.active && next.queues.len() == 0 && next.pending_geo.dom().is_empty() && agrees(
                reply,
                json,
            )
        }),
{
    protocol::plain_requests_understood();
}

/// The end of the registration changes nothing; it is refused outside a restore.
pub proof fn end_changes_nothing(st: StateView, json: bool, geo: ParsedGeometry)
    ensures
        ({
            let (next, reply) = plugin::dispatched(st, "sessionctl end"@, json, geo);
            &&& next == st
            &&& st.active ==> agrees(reply, json)
            &&& !st.active ==> refuses(reply, json, "no active restore session"@)
        }),
{
    protocol::plain_requests_understood();
    plugin::distinct_commands();
    errors_refuse("no active restore session"@, json);
}

/// When a restore is finished, all is forgotten; outside a restore that is refused.
pub proof fn finish_forgets(st: StateView, json: bool, geo: ParsedGeometry)
    ensures
        ({
            let (next, reply) = plugin::dispatched(st, "sessionctl finish"@, json, geo);
            &&& st.active ==> !next.active && next.queues.len() == 0
                && next.pending_geo.dom().is_empty() && agrees(reply, json)
            &&& !st.active ==> next == st && refuses(reply, json, "no active restore session"@)
        }),
{
    protocol::plain_requests_understood();
    plugin::distinct_commands();
    errors_refuse("no active restore session"@, json);
}

/// The name of the protocol may be left out of a request.
pub proof fn name_may_be_left_out(cmd: Seq<char>, rest: Seq<char>)
    requires
        text::is_word(cmd),
        !text::has_prefix(cmd, "sessionctl"@),
    ensures
        plugin::command_of(cmd) == (cmd, Seq::<char>::empty()),
        plugin::command_of(cmd + " "@ + rest) == (cmd, rest),
{
    reveal_strlit("sessionctl");
    reveal_strlit(" ");
    let n = cmd.len() as int;
    let long = cmd + " "@ + rest;
    assert(!text::is_space(cmd[0]));
    assert forall|k: int| 0 <= k < n implies cmd[k] != ' ' && long[k] == cmd[k] by {
        assert(!text::is_space(cmd[k]));
    }
    protocol::first_index_is(cmd, ' ', n);
    protocol::first_index_is(long, ' ', n);
    if text::has_prefix(long, "sessionctl"@) {
        let p = "sessionctl"@;
        assert(long.take(10) =~= p);
        if n < 10 {
            assert(long[n] == ' ');
            assert(p[n] == long.take(10)[n]);
        } else {
            assert(cmd.take(10) =~= p);
        }
    }
    assert(long.take(n) =~= cmd);
    assert(long.skip(n + 1) =~= rest);
}

/// Any white space may stand between the name of the protocol and the subcommand; one
/// blank ends the subcommand.
pub proof fn space_before_subcommand(space: Seq<char>, cmd: Seq<char>, rest: Seq<char>)
    requires
        text::is_word(cmd),
        forall|i: int| 0 <= i < space.len() ==> text::is_space(#[trigger] space[i]),
    ensures
        plugin::command_of("sessionctl"@ + (space + cmd)) == (cmd, Seq::<char>::empty()),
        plugin::command_of("sessionctl"@ + (space + (cmd + " "@ + rest))) == (cmd, rest),
{
    reveal_strlit("sessionctl");
    reveal_strlit(" ");
    let p = "sessionctl"@;
    let n = cmd.len() as int;
    let long = cmd + " "@ + rest;
    let none = Seq::<char>::empty();
    assert(!text::is_space(cmd[0]));
    assert(!text::is_space(cmd[n - 1]));
    assert forall|k: int| 0 <= k < n implies cmd[k] != ' ' && long[k] == cmd[k] by {
        assert(!text::is_space(cmd[k]));
    }
    assert((p + (space + cmd)).take(10) =~= p);
    assert((p + (space + cmd)).skip(10) =~= space + cmd);
    assert((p + (space + long)).take(10) =~= p);
    assert((p + (space + long)).skip(10) =~= space + long);
    text::start_trimmed(space, cmd);
    text::start_trimmed(space, long);
    protocol::first_index_is(cmd, ' ', n);
    protocol::first_index_is(long, ' ', n);
    assert(long.take(n) =~= cmd);
    assert(long.skip(n + 1) =~= rest);
}

/// A request whose subcommand is none of the five is refused.
pub proof fn strange_request_refused(
    st: StateView,
    cmd: Seq<char>,
    json: bool,
    geo: ParsedGeometry,
)
    requires
        text::is_word(cmd),
        cmd != "begin"@,
        cmd != "expect"@,
        cmd != "end"@,
        cmd != "finish"@,
        cmd != "status"@,
    ensures
        ({
            let (next, reply) = plugin::dispatched(st, "sessionctl "@ + cmd, json, geo);
            next == st && refuses(
                reply,
                json,
                "unknown subcommand. usage: sessionctl <begin|expect|end|finish|status>"@,
            )
        }),
{
    protocol::subcommand_read(cmd, Seq::empty());
    errors_refuse(
        "unknown subcommand. usage: sessionctl <begin|expect|end|finish|status>"@,
        json,
    );
}

/// What stands in front of an `expect` request.
proof fn expect_read(f: Seq<Seq<char>>)
    requires
        forall|i: int| 0 <= i < f.len() ==> text::is_word(#[trigger] f[i]),
    ensures
        plugin::command_of("sessionctl expect "@ + text::join(f, " "@)).0 == "expect"@,
        text::words(plugin::command_of("sessionctl expect "@ + text::join(f, " "@)).1) == f,
{
    reveal_strlit("sessionctl ");
    reveal_strlit("expect");
    reveal_strlit(" ");
    reveal_strlit("sessionctl expect ");
    assert("sessionctl expect "@ =~= "sessionctl "@ + "expect"@ + " "@);
    protocol::subcommand_read("expect"@, text::join(f, " "@));
    text::words_of_joined_words(f);
}

/// An `expect` request with ten words is carried out within a restore: the
/// application that comes first is expected once more, last of all, with the
/// workspace and the monitor that come next, floating and fullscreen unless the
/// flags are zero, and with the coordinates that were read, or zero. Nothing else
/// changes.
pub proof fn expect_registers(
    st: StateView,
    f: Seq<Seq<char>>,
    json: bool,
    geo: ParsedGeometry,
    other: Seq<char>,
)
    requires
        st.active,
        f.len() >= 10,
        forall|i: int| 0 <= i < f.len() ==> text::is_word(#[trigger] f[i]),
        other != f[0],
    ensures
        ({
            let (next, reply) = plugin::dispatched(
                st,
                "sessionctl expect "@ + text::join(f, " "@),
                json,
                geo,
            );
            let before = plugin::entries_of(st.queues, f[0]);
            let after = plugin::entries_of(next.queues, f[0]);
            let e = after.last();
            &&& after.len() == before.len() + 1
            &&& after.drop_last() == before
            &&& e.workspace == f[1]
            &&& e.monitor == f[2]
            &&& e.floating <==> f[3] != "0"@
            &&& e.fullscreen <==> f[4] != "0"@
            &&& geo.x matches Some(x) ==> e.x == x
            &&& geo.y matches Some(y) ==> e.y == y
            &&& geo.w matches Some(w) ==> e.w == w
            &&& geo.h matches Some(h) ==> e.h == h
            &&& geo.x is None ==> e.x == 0
            &&& geo.y is None ==> e.y == 0
            &&& geo.w is None ==> e.w == 0
            &&& geo.h is None ==> e.h == 0
            &&& plugin::entries_of(next.queues, other) == plugin::entries_of(st.queues, other)
            &&& next.pending_geo == st.pending_geo
            &&& next.active
            &&& agrees(reply, json)
        }),
{
    expect_read(f);
    plugin::distinct_commands();
    let e = plugin::expectation_of(f, geo);
    plugin::expectation_comes_last(st.queues, f[0], e);
    let before = plugin::entries_of(st.queues, f[0]);
    assert(before.push(e).drop_last() =~= before);
}

/// An `expect` request is refused outside a restore, and one with too few words at
/// any time.
pub proof fn expect_refused(
    st: StateView,
    f: Seq<Seq<char>>,
    json: bool,
    geo: ParsedGeometry,
)
    requires
        forall|i: int| 0 <= i < f.len() ==> text::is_word(#[trigger] f[i]),
        !st.active || f.len() < 10,
    ensures
        ({
            let (next, reply) = plugin::dispatched(
                st,
                "sessionctl expect "@ + text::join(f, " "@),
                json,
                geo,
            );
            &&& next == st
            &&& !st.active ==> refuses(
                reply,
                json,
                "no active restore session (call begin first)"@,
            )
            &&& st.active ==> refuses(
                reply,
                json,
                "usage: sessionctl expect <app> <ws> <mon> <float> <fs> <max> <x> <y> <w> <h>"@,
            )
        }),
{
    expect_read(f);
    plugin::distinct_commands();
    errors_refuse("no active restore session (call begin first)"@, json);
    errors_refuse(
        "usage: sessionctl expect <app> <ws> <mon> <float> <fs> <max> <x> <y> <w> <h>"@,
        json,
    );
}

/// The coordinates of an `expect` request are its seventh to tenth words.
pub proof fn coordinates_found(args: &str, f: Seq<Seq<char>>, found: Option<GeometryText>)
    requires
        forall|i: int| 0 <= i < f.len() ==> text::is_word(#[trigger] f[i]),
        args@ == "sessionctl expect "@ + text::join(f, " "@),
        call_ensures(plugin::geometry_fields, (args,), found),
    ensures
        f.len() < 10 ==> found is None,
        f.len() >= 10 ==> found is Some,
        found matches Some(g) ==> g.x@ == f[6] && g.y@ == f[7] && g.w@ == f[8] && g.h@ == f[9],
{
    expect_read(f);
}

/// Any other request has no coordinates.
pub proof fn no_coordinates_found(args: &str, cmd: Seq<char>, found: Option<GeometryText>)
    requires
        text::is_word(cmd),
        cmd != "expect"@,
        args@ == "sessionctl "@ + cmd,
        call_ensures(plugin::geometry_fields, (args,), found),
    ensures
        found is None,
{
    protocol::subcommand_read(cmd, Seq::empty());
}

/// A request does the same whether its reply is to be JSON or not.
pub proof fn form_of_reply_matters_not(st: StateView, args: Seq<char>, geo: ParsedGeometry)
    ensures
        plugin::dispatched(st, args, true, geo).0 == plugin::dispatched(st, args, false, geo).0,
{
}

/// The status says whether a restore is going on, how many windows are expected in
/// all, and how many of each application; to ask for it changes nothing.
pub proof fn status_tells(st: StateView, json: bool, geo: ParsedGeometry)
    ensures
        ({
            let (next, reply) = plugin::dispatched(st, "sessionctl status"@, json, geo);
            let active = if st.active {
                "true"@
            } else {
                "false"@
            };
            let total = text::decimal(plugin::total_of(st.queues));
            &&& next == st
            &&& !json ==> reply == "active: "@ + active + "\npending: "@ + total + "\n"@
                + plugin::plain_counts(st.queues)
            &&& json ==> reply == "{\"active\":"@ + active + ",\"pending\":"@ + total
                + ",\"expectations\":{"@ + plugin::json_counts(st.queues) + "}}"@
        }),
{
    protocol::plain_requests_understood();
    plugin::distinct_commands();
}

/// A queue more adds its length to the total, and a line, or a member, with its
/// application and its length.
pub proof fn status_grows(queues: Seq<QueueView>, q: QueueView, inside: Seq<char>)
    requires
        inside == plugin::json_escaped(q.app_id),
    ensures
        plugin::json_value(inside) == Some(q.app_id),
        plugin::total_of(queues.push(q)) == plugin::total_of(queues) + q.entries.len(),
        plugin::plain_counts(queues.push(q)) == plugin::plain_counts(queues) + "  "@ + q.app_id
            + ": "@ + text::decimal(q.entries.len()) + " remaining\n"@,
        queues.len() > 0 ==> plugin::json_counts(queues.push(q)) == plugin::json_counts(queues)
            + ",\""@ + inside + "\":"@ + text::decimal(q.entries.len()),
        queues.len() == 0 ==> plugin::json_counts(queues.push(q)) == "\""@ + inside + "\":"@
            + text::decimal(q.entries.len()),
        queues.len() == 0 ==> plugin::total_of(queues) == 0 && plugin::plain_counts(queues).len()
            == 0 && plugin::json_counts(queues).len() == 0,
{
    plugin::json_reads_escaped(q.app_id);
    assert(queues.push(q).drop_last() =~= queues);
    reveal_strlit(",");
    reveal_strlit("\"");
    reveal_strlit(",\"");
    let n = text::decimal(q.entries.len());
    if queues.len() > 0 {
        let c = plugin::json_counts(queues);
        assert(","@ + "\""@ =~= ",\""@);
        assert(c + ","@ + "\""@ =~= c + ",\""@);
    } else {
        let none = Seq::<char>::empty();
        assert(none + none + "\""@ =~= "\""@);
    }
}

/// A window that maps gets the workspace and the monitor of the oldest expectation
/// of its class, unless they are empty or hold the character that ends a text; it
/// floats, or is fullscreen, if and only if that expectation says so.
pub proof fn placed_as_expected(st: StateView, window: usize, class: Seq<char>)
    requires
        st.active,
        plugin::entries_of(st.queues, class).len() > 0,
    ensures
        ({
            let e = plugin::entries_of(st.queues, class)[0];
            let placement = plugin::pre_mapped(st, window, class).1;
            &&& placement is Some
            &&& placement->0.floating <==> e.floating
            &&& placement->0.fullscreen <==> e.fullscreen
            &&& placement->0.workspace == if e.workspace.len() == 0 || e.workspace.contains('\0') {
                None
            } else {
                Some(e.workspace)
            }
            &&& placement->0.monitor == if e.monitor.len() == 0 || e.monitor.contains('\0') {
                None
            } else {
                Some(e.monitor)
            }
        }),
{
    plugin::window_takes_oldest(st, window, class);
}

/// A window that opens changes nothing but what is remembered of itself.
pub proof fn opening_keeps_the_rest(st: StateView, window: usize, other: usize)
    requires
        other != window,
    ensures
        ({
            let (next, geo) = plugin::opened(st, window);
            &&& next.queues == st.queues
            &&& next.active == st.active
            &&& !next.pending_geo.contains_key(window)
            &&& next.pending_geo.contains_key(other) == st.pending_geo.contains_key(other)
            &&& st.pending_geo.contains_key(other) ==> next.pending_geo[other]
                == st.pending_geo[other]
            &&& geo is Some <==> st.pending_geo.contains_key(window)
            &&& geo matches Some(g) ==> g == st.pending_geo[window]
        }),
{
}

/// Outside a restore no window is placed, and nothing changes.
pub proof fn left_alone_outside(st: StateView, window: usize, class: Seq<char>)
    requires
        !st.active,
    ensures
        plugin::pre_mapped(st, window, class).0 == st,
        plugin::pre_mapped(st, window, class).1 is None,
{
}

/// A number is above zero if, and only if, its sign is plus, it is not zero, and it
/// is no NaN.
pub proof fn positive_bits(bits: u64, r: bool)
    requires
        call_ensures(plugin::bits_positive, (bits,), r),
    ensures
        r <==> {
            let sign = bits >> 63;
            let exponent = (bits >> 52) & 0x7ff;
            let fraction = bits & 0xf_ffff_ffff_ffff;
            &&& sign == 0
            &&& exponent != 0 || fraction != 0
            &&& exponent == 0x7ff ==> fraction == 0
        },
{
    assert((0 < bits && bits <= 0x7ff0_0000_0000_0000) <==> (bits >> 63 == 0 && ((bits >> 52)
        & 0x7ff != 0 || bits & 0xf_ffff_ffff_ffff != 0) && ((bits >> 52) & 0x7ff != 0x7ff || bits
        & 0xf_ffff_ffff_ffff == 0))) by (bit_vector);
}

/// The plugin is loaded and unloaded with nothing expected, outside a restore.
pub proof fn nothing_expected_at_first(first: State)
    requires
        call_ensures(State::new, (), first),
    ensures
        !first@.active,
        first@.queues.len() == 0,
        first@.pending_geo.dom().is_empty(),
        forall|st: &mut State| #[trigger]
            call_ensures(plugin::rust_plugin_exit, (st,), ()) ==> !final(st)@.active
                && final(st)@.queues.len() == 0 && final(st)@.pending_geo.dom().is_empty(),
{
}

/// Each call does to the state, and answers, what is said of it above.
pub proof fn calls_answered(
    window: usize,
    class: &str,
    args: &str,
    json: bool,
    geo: ParsedGeometry,
)
    ensures
        forall|st: &mut State, r: Option<Placement>| #[trigger]
            call_ensures(plugin::on_pre_map, (st, window, class), r) ==> (
                final(st)@,
                match r {
                    Some(placement) => Some(placement@),
                    None => None,
                },
            ) == plugin::pre_mapped(st@, window, class@),
        forall|st: &mut State, r: Option<Placement>| #[trigger]
            call_ensures(plugin::on_pre_map, (st, window, class), r) ==> match plugin::pre_mapped(
                st@,
                window,
                class@,
            ).1 {
                None => r is None,
                Some(expected) => r is Some && r->0.floating == expected.floating
                    && r->0.fullscreen == expected.fullscreen && text::opt_view(r->0.workspace)
                    == expected.workspace && text::opt_view(r->0.monitor) == expected.monitor,
            },
        forall|st: &mut State, r: Option<PendingGeo>| #[trigger]
            call_ensures(plugin::on_open, (st, window), r) ==> (final(st)@, r) == plugin::opened(
                st@,
                window,
            ),
        forall|st: &mut State, r: String| #[trigger]
            call_ensures(plugin::ipc_dispatch, (st, args, json, geo), r) ==> (final(st)@, r@)
                == plugin::dispatched(st@, args@, json, geo),
{
}

/// A reply is worded as its kind asks: plainly, or as JSON in which the message is a
/// string.
pub proof fn replies_worded(msg: &str, json: bool, inside: String, good: String, bad: String)
    requires
        call_ensures(plugin::json_escape, (msg,), inside),
        call_ensures(plugin::ok, (json,), good),
        call_ensures(plugin::err, (msg, json), bad),
    ensures
        plugin::json_value(inside@) == Some(msg@),
        agrees(good@, json),
        refuses(bad@, json, msg@),
{
    plugin::json_reads_escaped(msg@);
    errors_refuse(msg@, json);
}

} // verus!
