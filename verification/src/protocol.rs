//! What the two ends of the `sessionctl` protocol make of each other: the
//! requests that a restore sends, as the plugin reads them, and the plugin's
//! replies, as the restore reads them.

use vstd::prelude::*;

use crate::models::WindowEntry;
use crate::plugin::{ExpectationView, ParsedGeometry, Seen, StateView};
use crate::run::{Reply, Step};
use crate::{client, history, plugin, run, text};

verus! {

/// The application and the workspace of a window have names that stay whole in a
/// request.
pub open spec fn named(w: WindowEntry) -> bool {
    text::is_word(w.app_id@) && text::is_word(w.workspace@)
}

/// The monitor of a window has a name that stays whole in a request, or there is
/// none.
pub open spec fn monitor_plain(w: WindowEntry) -> bool {
    text::is_word(run::monitor_sent(w))
}

/// The application or the workspace of a window has no name at all.
pub open spec fn nameless(w: WindowEntry) -> bool {
    &&& text::space_free(w.app_id@)
    &&& text::space_free(w.workspace@)
    &&& w.app_id@.len() == 0 || w.workspace@.len() == 0
    &&& monitor_plain(w)
}

/// The words of a window's registration. A monitor whose name holds white space
/// makes several.
pub open spec fn registration_words(w: WindowEntry) -> Seq<Seq<char>> {
    run::window_fields(w).take(2) + text::words(run::monitor_sent(w)) + run::window_fields(w).skip(
        3,
    )
}

/// What the plugin comes to expect of a window; `geo` holds its coordinates as
/// the plugin reads them.
pub open spec fn expectation_for(w: WindowEntry, geo: ParsedGeometry) -> ExpectationView {
    plugin::expectation_of(registration_words(w), geo)
}

/// The plugin's state once the first `n` of `windows` were registered, after a
/// restore was begun.
pub open spec fn registered(windows: Seq<WindowEntry>, geos: Seq<ParsedGeometry>, n: nat) -> StateView
    decreases n,
{
    if n == 0 {
        plugin::begun()
    } else {
        plugin::dispatched(
            registered(windows, geos, (n - 1) as nat),
            client::expect_text(run::window_fields(windows[n - 1])),
            false,
            geos[n - 1],
        ).0
    }
}

/// What is expected of those among the first `n` of `windows` that have the class
/// `class`, and a workspace.
pub open spec fn expected_of(
    windows: Seq<WindowEntry>,
    geos: Seq<ParsedGeometry>,
    class: Seq<char>,
    n: nat,
) -> Seq<ExpectationView>
    decreases n,
{
    if n == 0 {
        Seq::empty()
    } else {
        let before = expected_of(windows, geos, class, (n - 1) as nat);
        if windows[n - 1].app_id@ == class && named(windows[n - 1]) {
            before.push(expectation_for(windows[n - 1], geos[n - 1]))
        } else {
            before
        }
    }
}

/// The first `c` of a text stands where no `c` stands before it.
pub proof fn first_index_is(s: Seq<char>, c: char, i: int)
    requires
        0 <= i <= s.len(),
        i < s.len() ==> s[i] == c,
        forall|k: int| 0 <= k < i ==> s[k] != c,
    ensures
        text::first_index(s, c) == i,
    decreases s.len(),
{
    if i > 0 {
        let tail = s.drop_first();
        assert forall|k: int| 0 <= k < i - 1 implies tail[k] != c by {
            assert(tail[k] == s[k + 1]);
        }
        first_index_is(tail, c, i - 1);
    }
}

/// The plugin reads a subcommand behind the name of the protocol, up to the next
/// space.
pub proof fn subcommand_read(cmd: Seq<char>, rest: Seq<char>)
    requires
        text::is_word(cmd),
    ensures
        plugin::command_of("sessionctl "@ + cmd) == (cmd, Seq::<char>::empty()),
        plugin::command_of("sessionctl "@ + cmd + " "@ + rest) == (cmd, rest),
{
    reveal_strlit("sessionctl");
    reveal_strlit("sessionctl ");
    reveal_strlit(" ");
    let n = cmd.len() as int;
    assert(!text::is_space(cmd[0]));
    assert forall|k: int| 0 <= k < n implies cmd[k] != ' ' by {
        assert(!text::is_space(cmd[k]));
    }
    let short = "sessionctl "@ + cmd;
    assert(short.take(10) =~= "sessionctl"@);
    assert(short.skip(10).drop_first() =~= cmd);
    assert(short.skip(10)[0] == ' ');
    assert(text::trim_start(short.skip(10)) == text::trim_start(cmd));
    assert(text::trim_start(cmd) == cmd);
    first_index_is(cmd, ' ', n);

    let long = "sessionctl "@ + cmd + " "@ + rest;
    let tail = cmd + " "@ + rest;
    assert(long.take(10) =~= "sessionctl"@);
    assert(long.skip(10).drop_first() =~= tail);
    assert(long.skip(10)[0] == ' ');
    assert(tail[0] == cmd[0]);
    assert(text::trim_start(long.skip(10)) == text::trim_start(tail));
    assert(text::trim_start(tail) == tail);
    assert forall|k: int| 0 <= k < n implies tail[k] != ' ' by {
        assert(tail[k] == cmd[k]);
    }
    assert(tail[n] == ' ');
    first_index_is(tail, ' ', n);
    assert(tail.take(n) =~= cmd);
    assert(tail.skip(n + 1) =~= rest);
}

/// The plugin understands the requests without arguments.
pub proof fn plain_requests_understood()
    ensures
        plugin::command_of("sessionctl begin"@).0 == "begin"@,
        plugin::command_of("sessionctl end"@).0 == "end"@,
        plugin::command_of("sessionctl finish"@).0 == "finish"@,
        plugin::command_of("sessionctl status"@).0 == "status"@,
{
    reveal_strlit("sessionctl ");
    reveal_strlit("begin");
    reveal_strlit("end");
    reveal_strlit("finish");
    reveal_strlit("status");
    reveal_strlit("sessionctl begin");
    reveal_strlit("sessionctl end");
    reveal_strlit("sessionctl finish");
    reveal_strlit("sessionctl status");
    assert("sessionctl begin"@ =~= "sessionctl "@ + "begin"@);
    assert("sessionctl end"@ =~= "sessionctl "@ + "end"@);
    assert("sessionctl finish"@ =~= "sessionctl "@ + "finish"@);
    assert("sessionctl status"@ =~= "sessionctl "@ + "status"@);
    subcommand_read("begin"@, Seq::empty());
    subcommand_read("end"@, Seq::empty());
    subcommand_read("finish"@, Seq::empty());
    subcommand_read("status"@, Seq::empty());
}

/// A flag is read as it was written.
proof fn flag_read(b: bool)
    ensures
        (client::flag_text(b) != "0"@) == b,
        text::is_word(client::flag_text(b)),
{
    reveal_strlit("0");
    text::decimal_is_word(0);
    text::decimal_is_word(1);
    assert(text::decimal(0) =~= "0"@);
    assert(text::decimal(1)[0] == '1');
}

/// Something is always sent for a monitor.
proof fn monitor_has_words(w: WindowEntry)
    ensures
        text::words(run::monitor_sent(w)).len() > 0,
        w.monitor is None ==> run::monitor_sent(w) == run::no_monitor() && monitor_plain(w),
{
    reveal_strlit("-");
    assert(text::is_word("-"@));
    text::words_of_word("-"@);
}

/// Each field of a registration from the flags on is one word.
proof fn later_fields_are_words(w: WindowEntry)
    ensures
        forall|i: int|
            3 <= i < 10 ==> text::is_word(#[trigger] run::window_fields(w)[i]),
{
    let pos: (i32, i32) = match w.position {
        Some(p) => p,
        None => (0i32, 0i32),
    };
    let size: (i32, i32) = match w.size {
        Some(s) => s,
        None => (0i32, 0i32),
    };
    flag_read(w.floating);
    flag_read(w.fullscreen);
    flag_read(false);
    text::signed_decimal_is_word(pos.0 as int);
    text::signed_decimal_is_word(pos.1 as int);
    text::signed_decimal_is_word(size.0 as int);
    text::signed_decimal_is_word(size.1 as int);
}

/// The plugin finds the words of a window's registration. Without a name it finds
/// fewer than there should be.
pub proof fn fields_read(w: WindowEntry)
    requires
        named(w) || nameless(w),
    ensures
        plugin::command_of(client::expect_text(run::window_fields(w))).0 == "expect"@,
        named(w) ==> text::words(
            plugin::command_of(client::expect_text(run::window_fields(w))).1,
        ) == registration_words(w),
        named(w) ==> registration_words(w).len() >= 10,
        nameless(w) ==> text::words(
            plugin::command_of(client::expect_text(run::window_fields(w))).1,
        ).len() < 10,
{
    reveal_strlit("sessionctl ");
    reveal_strlit("expect");
    reveal_strlit(" ");
    reveal_strlit("sessionctl expect ");
    let fields = run::window_fields(w);
    let monitor = run::monitor_sent(w);
    assert("sessionctl expect "@ =~= "sessionctl "@ + "expect"@ + " "@);
    subcommand_read("expect"@, text::join(fields, " "@));
    monitor_has_words(w);
    later_fields_are_words(w);
    text::words_of_join(fields);
    let app = seq![w.app_id@];
    let workspace = seq![w.workspace@];
    let middle = seq![monitor];
    let tail = fields.skip(3);
    assert(fields =~= app + workspace + middle + tail);
    text::all_words_concat(app + workspace + middle, tail);
    text::all_words_concat(app + workspace, middle);
    text::all_words_concat(app, workspace);
    one_text(w.app_id@);
    one_text(w.workspace@);
    one_text(monitor);
    assert forall|i: int| 0 <= i < tail.len() implies text::is_word(#[trigger] tail[i]) by {
        assert(tail[i] == fields[i + 3]);
    }
    text::all_words_of_words(tail);
    if named(w) {
        text::words_of_word(w.app_id@);
        text::words_of_word(w.workspace@);
        assert(text::all_words(fields) =~= registration_words(w));
    } else {
        text::words_of_word(monitor);
        if w.app_id@.len() > 0 {
            text::words_of_word(w.app_id@);
        }
        if w.workspace@.len() > 0 {
            text::words_of_word(w.workspace@);
        }
    }
}

/// The words of a list of one text are the words of that text.
proof fn one_text(s: Seq<char>)
    ensures
        text::all_words(seq![s]) == text::words(s),
{
    let one = seq![s];
    assert(text::all_words(one.drop_last()) =~= Seq::<Seq<char>>::empty());
    assert(text::all_words(one) =~= text::words(s));
}

/// What the plugin comes to expect of a window is what was saved of it, if the
/// name of its monitor holds no white space. Without a monitor, it expects the
/// name that stands for none.
pub proof fn expectation_described(w: WindowEntry, geo: ParsedGeometry)
    requires
        monitor_plain(w),
    ensures
        expectation_for(w, geo) == (ExpectationView {
            workspace: w.workspace@,
            monitor: run::monitor_sent(w),
            floating: w.floating,
            fullscreen: w.fullscreen,
            x: plugin::or_zero(geo.x),
            y: plugin::or_zero(geo.y),
            w: plugin::or_zero(geo.w),
            h: plugin::or_zero(geo.h),
        }),
        registration_words(w) == run::window_fields(w),
{
    text::words_of_word(run::monitor_sent(w));
    flag_read(w.floating);
    flag_read(w.fullscreen);
    assert(registration_words(w) =~= run::window_fields(w));
}

/// The plugin registers a window under its application and for its workspace,
/// whatever its monitor. One without an application or a workspace it refuses, and
/// remembers nothing of it.
pub proof fn expectation_understood(st: StateView, w: WindowEntry, json: bool, geo: ParsedGeometry)
    requires
        st.active,
        named(w) || nameless(w),
    ensures
        named(w) ==> plugin::dispatched(
            st,
            client::expect_text(run::window_fields(w)),
            json,
            geo,
        ) == (
            StateView {
                queues: plugin::with_expectation(
                    st.queues,
                    w.app_id@,
                    expectation_for(w, geo),
                ),
                ..st
            },
            plugin::ok_text(json),
        ),
        named(w) ==> expectation_for(w, geo).workspace == w.workspace@,
        nameless(w) ==> plugin::dispatched(
            st,
            client::expect_text(run::window_fields(w)),
            json,
            geo,
        ).0 == st,
{
    fields_read(w);
    plugin::distinct_commands();
    let fields = run::window_fields(w);
    assert(registration_words(w)[0] == fields[0] && registration_words(w)[1] == fields[1]);
}

/// Once a session is registered, the plugin expects of each class the saved
/// windows of that class, in the order of the session, whatever their monitors.
/// If each window has an application and a workspace, it expects as many windows
/// as there are.
pub proof fn session_understood(
    windows: Seq<WindowEntry>,
    geos: Seq<ParsedGeometry>,
    class: Seq<char>,
    n: nat,
)
    requires
        n <= windows.len(),
        geos.len() == windows.len(),
        forall|i: int|
            0 <= i < windows.len() ==> named(#[trigger] windows[i]) || nameless(windows[i]),
    ensures
        registered(windows, geos, n).active,
        plugin::entries_of(registered(windows, geos, n).queues, class) == expected_of(
            windows,
            geos,
            class,
            n,
        ),
        (forall|i: int| 0 <= i < windows.len() ==> named(#[trigger] windows[i]))
            ==> plugin::total_of(registered(windows, geos, n).queues) == n,
    decreases n,
{
    if n > 0 {
        let before = registered(windows, geos, (n - 1) as nat);
        let w = windows[n - 1];
        session_understood(windows, geos, class, (n - 1) as nat);
        expectation_understood(before, w, false, geos[n - 1]);
        if named(w) {
            let e = expectation_for(w, geos[n - 1]);
            plugin::expectation_comes_last(before.queues, w.app_id@, e);
            plugin::expectation_counts(before.queues, w.app_id@, e);
        }
    }
}

/// After a session was registered, the windows of a class go where the saved
/// windows of that class were, in the order of the session: the first that maps
/// to the place of the first, and so on, whatever windows of other classes do in
/// between; further windows go to the place of the last.
pub proof fn windows_go_home(
    windows: Seq<WindowEntry>,
    geos: Seq<ParsedGeometry>,
    seen: Seq<Seen>,
    window: usize,
    class: Seq<char>,
)
    requires
        geos.len() == windows.len(),
        forall|i: int|
            0 <= i < windows.len() ==> named(#[trigger] windows[i]) || nameless(windows[i]),
        expected_of(windows, geos, class, windows.len()).len() > 0,
    ensures
        ({
            let expected = expected_of(windows, geos, class, windows.len());
            let turn = plugin::turn_of(plugin::mapped_of(seen, class), expected.len());
            let st = plugin::after_seen(registered(windows, geos, windows.len()), seen);
            plugin::pre_mapped(st, window, class).1 == Some(plugin::placement_of(expected[turn]))
        }),
{
    session_understood(windows, geos, class, windows.len());
    plugin::windows_take_turns(
        registered(windows, geos, windows.len()),
        seen,
        window,
        class,
    );
}

/// Windows of a class of which none was registered go where they like.
pub proof fn strangers_left_alone(
    windows: Seq<WindowEntry>,
    geos: Seq<ParsedGeometry>,
    seen: Seq<Seen>,
    window: usize,
    class: Seq<char>,
)
    requires
        geos.len() == windows.len(),
        forall|i: int|
            0 <= i < windows.len() ==> named(#[trigger] windows[i]) || nameless(windows[i]),
        expected_of(windows, geos, class, windows.len()).len() == 0,
    ensures
        plugin::pre_mapped(
            plugin::after_seen(registered(windows, geos, windows.len()), seen),
            window,
            class,
        ).1 is None,
{
    let st = registered(windows, geos, windows.len());
    session_understood(windows, geos, class, windows.len());
    none_stays_none(st, seen, class);
    plugin::window_takes_oldest(plugin::after_seen(st, seen), window, class);
}

/// Nothing comes to be expected of a class by windows that map or open.
proof fn none_stays_none(st: StateView, seen: Seq<Seen>, class: Seq<char>)
    requires
        st.active,
        plugin::entries_of(st.queues, class).len() == 0,
    ensures
        plugin::after_seen(st, seen).active,
        plugin::entries_of(plugin::after_seen(st, seen).queues, class).len() == 0,
    decreases seen.len(),
{
    if seen.len() > 0 {
        none_stays_none(st, seen.drop_last(), class);
        if let Seen::Mapping(w, c) = seen.last() {
            plugin::window_takes_oldest(plugin::after_seen(st, seen.drop_last()), w, c);
        }
    }
}

/// A text that begins with a character other than white space keeps it when white
/// space is taken off its end.
proof fn trim_end_keeps_first(s: Seq<char>)
    requires
        s.len() > 0,
        !text::is_space(s[0]),
    ensures
        text::trim_end(s).len() > 0,
        text::trim_end(s)[0] == s[0],
    decreases s.len(),
{
    if text::is_space(s.last()) {
        trim_end_keeps_first(s.drop_last());
    }
}

/// The restore tells the plugin's confirmations from its refusals.
pub proof fn replies_understood(msg: Seq<char>)
    ensures
        client::reply_is_ok(plugin::ok_text(false)),
        !client::reply_is_ok(plugin::err_text(msg, false)),
        !client::reply_is_known(plugin::err_text(msg, false)),
{
    reveal_strlit("ok");
    reveal_strlit("error: ");
    reveal_strlit("error");
    reveal_strlit("active: ");
    let refusal = plugin::err_text(msg, false);
    assert(refusal[0] == 'e');
    trim_end_keeps_first(refusal);
    assert(!text::has_prefix(refusal, "active: "@)) by {
        if text::has_prefix(refusal, "active: "@) {
            assert(refusal.take(8)[0] == refusal[0]);
        }
    }
    assert(text::occurs_at(refusal, "error"@, 0)) by {
        assert(refusal.subrange(0, 5) =~= "error"@);
    }
}

/// The restore finds that the plugin supports it, whatever the plugin expects.
pub proof fn plugin_known(st: StateView)
    ensures
        client::reply_is_known(plugin::status_text(st, false)),
{
    let lead = "active: "@;
    let reply = plugin::status_text(st, false);
    assert(reply.take(lead.len() as int) =~= lead);
}

/// The plugin's state once it was sent the request of a registration step; `geos`
/// holds the coordinates of the windows as it reads them.
pub open spec fn told(
    st: StateView,
    windows: Seq<WindowEntry>,
    geos: Seq<ParsedGeometry>,
    step: Step,
) -> StateView {
    let none = ParsedGeometry { x: None, y: None, w: None, h: None };
    match step {
        Step::Available => plugin::dispatched(st, "sessionctl status"@, false, none).0,
        Step::Begin => plugin::dispatched(st, "sessionctl begin"@, false, none).0,
        Step::Expect(i) => plugin::dispatched(
            st,
            client::expect_text(run::window_fields(windows[i as int])),
            false,
            geos[i as int],
        ).0,
        Step::End => plugin::dispatched(st, "sessionctl end"@, false, none).0,
        _ => st,
    }
}

/// The plugin's state once it was sent the requests of all registration steps
/// among `steps`.
pub open spec fn told_all(
    st: StateView,
    windows: Seq<WindowEntry>,
    geos: Seq<ParsedGeometry>,
    steps: Seq<Step>,
) -> StateView
    decreases steps.len(),
{
    if steps.len() == 0 {
        st
    } else {
        told(told_all(st, windows, geos, steps.drop_last()), windows, geos, steps.last())
    }
}

/// Only the registration steps matter to the plugin.
proof fn told_selection(
    st: StateView,
    windows: Seq<WindowEntry>,
    geos: Seq<ParsedGeometry>,
    steps: Seq<Step>,
)
    ensures
        told_all(st, windows, geos, steps.filter(|s: Step| history::registers(s))) == told_all(
            st,
            windows,
            geos,
            steps,
        ),
    decreases steps.len(),
{
    let keep = |s: Step| history::registers(s);
    reveal(Seq::filter);
    if steps.len() > 0 {
        let head = steps.drop_last();
        told_selection(st, windows, geos, head);
        if keep(steps.last()) {
            assert(head.filter(keep).push(steps.last()).drop_last() =~= head.filter(keep));
        }
    }
}

/// A whole registration leaves the plugin with the session registered, whatever
/// it remembered before.
proof fn told_registration(
    st: StateView,
    windows: Seq<WindowEntry>,
    geos: Seq<ParsedGeometry>,
    n: nat,
)
    requires
        n <= usize::MAX,
    ensures
        told_all(
            st,
            windows,
            geos,
            seq![Step::Available, Step::Begin] + run::expect_steps(n),
        ) == registered(windows, geos, n),
        told_all(st, windows, geos, history::registration(n)) == registered(windows, geos, n),
    decreases n,
{
    let lead = seq![Step::Available, Step::Begin];
    let steps = lead + run::expect_steps(n);
    plain_requests_understood();
    plugin::distinct_commands();
    if n == 0 {
        assert(steps =~= lead);
        assert(lead.drop_last() =~= seq![Step::Available]);
        assert(told_all(st, windows, geos, lead) == plugin::begun());
    } else {
        told_registration(st, windows, geos, (n - 1) as nat);
        assert(steps.drop_last() =~= lead + run::expect_steps((n - 1) as nat));
        assert(steps.last() == Step::Expect((n - 1) as usize));
    }
    assert(history::registration(n).drop_last() =~= steps);
    assert(history::registration(n).last() == Step::End);
    let done = registered(windows, geos, n);
    assert(told(done, windows, geos, Step::End) == done);
    assert(told_all(st, windows, geos, history::registration(n)) == told(
        told_all(st, windows, geos, steps),
        windows,
        geos,
        Step::End,
    ));
}

/// By the time a restore launches windows, the plugin that was sent its requests
/// has registered the session, whatever it remembered before.
pub proof fn restore_registers_session(
    windows: Seq<WindowEntry>,
    restore_layout: bool,
    replies: Seq<Reply>,
    st: StateView,
    geos: Seq<ParsedGeometry>,
)
    requires
        windows.len() <= usize::MAX,
        history::answered(run::initial(windows, restore_layout), replies),
        ({
            let now = history::after(run::initial(windows, restore_layout), replies);
            now.stopped is None && (now.todo.len() > 0 ==> history::phase(now.todo[0])
                >= history::WORK)
        }),
    ensures
        told_all(
            st,
            windows,
            geos,
            history::taken(run::initial(windows, restore_layout), replies),
        ) == registered(windows, geos, windows.len()),
{
    let steps = history::taken(run::initial(windows, restore_layout), replies);
    history::windows_registered_first(windows, restore_layout, replies);
    told_selection(st, windows, geos, steps);
    told_registration(st, windows, geos, windows.len());
}

} // verus!
