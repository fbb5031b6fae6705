//! What a restore asks for at each of its steps, and what the answers lead to:
//! the requests word by word, and the windows, plans and addresses that they are
//! about.

use vstd::prelude::*;

use crate::command;
use crate::models::{HyprClient, HyprEvent, SessionFile, WindowEntry};
use crate::plan::{DwindlePlan, MasterPlan, Planned, TiledGroup};
use crate::progress;
use crate::restore::{self, RestoreEngine, RestoreReport, RestoreRun};
use crate::run::{Action, ActionView, Reply, RestoreError, Role, RunView, Step};
use crate::{client, plan, requests, run, text};

verus! {

broadcast use vstd::string::group_string_axioms;

/// The restore is under way, and `step` is to be taken next.
pub open spec fn at_step(st: RunView, step: Step) -> bool {
    st.stopped is None && st.todo.len() > 0 && st.todo[0] == step
}

/// The action is to send `request`.
pub open spec fn sends(action: Action, request: Seq<char>) -> bool {
    action matches Action::Send(sent) && sent@ == request
}

// ---------------------------------------------------------------------------
// Opening windows in a dwindle layout
// ---------------------------------------------------------------------------

/// The address that was noted for a window is the one that is found for it.
proof fn noted_found(st: RunView, idx: usize, address: String)
    requires
        progress::addresses_sound(st),
        st.addresses.contains((idx, address)),
    ensures
        run::address_of(st.addresses, idx) == Some(address),
{
    let all = st.addresses;
    let k = choose|k: int| 0 <= k < all.len() && all[k] == (idx, address);
    progress::address_found(all, idx);
    let i = run::address_index(all, idx) as int;
    if i < all.len() && i != k {
        if i < k {
            assert(all[i].0 != all[k].0);
        } else {
            assert(all[k].0 != all[i].0);
        }
    }
}

/// No address is found for a window for which none was noted.
proof fn unnoted_missing(st: RunView, idx: usize)
    requires
        forall|k: int| 0 <= k < st.addresses.len() ==> (#[trigger] st.addresses[k]).0 != idx,
    ensures
        run::address_of(st.addresses, idx) is None,
{
    progress::address_found(st.addresses, idx);
}

/// A window that is to split another one, which has appeared, opens beside it: the
/// window that is focused is the one that the step of the plan names, at the
/// address that was noted for it; the side is the one that the step names; and the
/// window that is launched next is that of the step.
pub proof fn opens_beside_its_neighbour(
    st: RunView,
    plan: usize,
    step: usize,
    neighbour: usize,
    address: String,
    side: String,
    first: String,
    second: String,
)
    requires
        run::valid(st),
        progress::addresses_sound(st),
        at_step(st, Step::Place { plan, step }),
        st.dwindle[plan as int].plan.steps@[step as int].focus_idx == Some(neighbour),
        st.dwindle[plan as int].plan.steps@[step as int].preselect == Some(side),
        st.addresses.contains((neighbour, address)),
    ensures
        ({
            let focus = run::react(st, Reply::Proceed);
            let preselect = run::react(focus, Reply::Text(first));
            let launch = run::react(preselect, Reply::Text(second));
            &&& run::action_of(st) is Proceed
            &&& run::action_of(focus) == ActionView::Send(
                "dispatch focuswindow address:0x"@ + address@,
            )
            &&& run::action_of(preselect) == ActionView::Send(
                "dispatch layoutmsg preselect "@ + side@,
            )
            &&& at_step(
                launch,
                Step::Launch {
                    idx: st.dwindle[plan as int].plan.steps@[step as int].window_idx,
                    role: Role::Tiled,
                },
            )
            &&& launch.todo.drop_first() == st.todo.drop_first()
            &&& launch.addresses == st.addresses
        }),
{
    reveal_strlit("dispatch ");
    reveal_strlit("focuswindow address:0x");
    reveal_strlit("layoutmsg preselect ");
    reveal_strlit("dispatch focuswindow address:0x");
    reveal_strlit("dispatch layoutmsg preselect ");
    noted_found(st, neighbour, address);
    let rest = st.todo.drop_first();
    let launch = Step::Launch {
        idx: st.dwindle[plan as int].plan.steps@[step as int].window_idx,
        role: Role::Tiled,
    };
    let s1 = run::react(st, Reply::Proceed);
    let s2 = run::react(s1, Reply::Text(first));
    let s3 = run::react(s2, Reply::Text(second));
    assert(s1.todo.drop_first() =~= seq![Step::Preselect { plan, step }, launch] + rest);
    assert(s2.todo.drop_first() =~= seq![launch] + rest);
    assert(s3.todo.drop_first() =~= rest);
    assert("dispatch "@ + ("focuswindow address:0x"@ + address@)
        =~= "dispatch focuswindow address:0x"@ + address@);
    assert("dispatch "@ + ("layoutmsg preselect "@ + side@) =~= "dispatch layoutmsg preselect "@
        + side@);
}

/// A window whose step names no neighbour or no side, or whose neighbour has not
/// appeared, opens by itself: the first of a plan on the workspace of the plan, any
/// other where the focus is.
pub proof fn opens_by_itself(st: RunView, plan: usize, step: usize, reply: String)
    requires
        run::valid(st),
        at_step(st, Step::Place { plan, step }),
        ({
            let place = st.dwindle[plan as int].plan.steps@[step as int];
            place.focus_idx is None || place.preselect is None || forall|k: int|
                0 <= k < st.addresses.len() ==> (#[trigger] st.addresses[k]).0
                    != place.focus_idx->0
        }),
    ensures
        ({
            let launch = Step::Launch {
                idx: st.dwindle[plan as int].plan.steps@[step as int].window_idx,
                role: Role::Tiled,
            };
            let next = run::react(st, Reply::Proceed);
            let last = run::react(next, Reply::Text(reply));
            &&& run::action_of(st) is Proceed
            &&& step > 0 ==> at_step(next, launch) && next.todo.drop_first()
                == st.todo.drop_first()
            &&& step == 0 ==> run::action_of(next) == ActionView::Send(
                "dispatch workspace "@ + st.dwindle[plan as int].workspace@,
            ) && at_step(last, launch) && last.todo.drop_first() == st.todo.drop_first()
        }),
{
    reveal_strlit("dispatch ");
    reveal_strlit("workspace ");
    reveal_strlit("dispatch workspace ");
    let place = st.dwindle[plan as int].plan.steps@[step as int];
    if place.focus_idx is Some && place.preselect is Some {
        unnoted_missing(st, place.focus_idx->0);
    }
    let rest = st.todo.drop_first();
    let launch = Step::Launch { idx: place.window_idx, role: Role::Tiled };
    let next = run::react(st, Reply::Proceed);
    let name = st.dwindle[plan as int].workspace@;
    assert("dispatch "@ + ("workspace "@ + name) =~= "dispatch workspace "@ + name);
    if step == 0 {
        assert(next.todo.drop_first() =~= seq![launch] + rest);
        assert(run::react(next, Reply::Text(reply)).todo.drop_first() =~= rest);
    } else {
        assert(next.todo.drop_first() =~= rest);
    }
}

/// The address in an answer that says that a window of the application `app_id`
/// has opened.
pub open spec fn opening(reply: Reply, app_id: Seq<char>) -> Option<String> {
    match reply {
        Reply::Event(HyprEvent::OpenWindow { address, class, .. }) => if class@ == app_id {
            Some(address)
        } else {
            None
        },
        _ => None,
    }
}

/// A tiled window that opens is remembered by the address that the compositor
/// reports, and the addresses of all other windows stay as they are.
pub proof fn address_noted(st: RunView, idx: usize, reply: Reply, other: usize, a: String)
    requires
        run::valid(st),
        progress::addresses_sound(st),
        at_step(st, Step::AwaitOpen { idx, role: Role::Tiled }),
        opening(reply, st.windows[idx as int].app_id@) is Some,
    ensures
        ({
            let address = opening(reply, st.windows[idx as int].app_id@)->0;
            let next = run::react(st, reply);
            &&& next.addresses.contains((idx, address))
            &&& other != idx ==> (next.addresses.contains((other, a)) <==> st.addresses.contains(
                (other, a),
            ))
        }),
{
    let address = opening(reply, st.windows[idx as int].app_id@)->0;
    let all = st.addresses;
    let now = run::react(st, reply).addresses;
    progress::address_found(all, idx);
    let i = run::address_index(all, idx) as int;
    assert(now[i] == (idx, address));
    if now.contains((other, a)) && other != idx {
        let k = choose|k: int| 0 <= k < now.len() && now[k] == (other, a);
        assert(k != i);
        assert(all[k] == (other, a));
    }
    if all.contains((other, a)) && other != idx {
        let k = choose|k: int| 0 <= k < all.len() && all[k] == (other, a);
        assert(k != i);
        assert(now[k] == (other, a));
    }
}

/// Nothing but the opening of a tiled window changes an address.
pub proof fn addresses_untouched(st: RunView, reply: Reply)
    requires
        run::valid(st),
        run::answers(run::action_of(st), reply, st.windows.len()),
        st.todo[0] matches Step::AwaitOpen { idx, role } ==> role != Role::Tiled || opening(
            reply,
            st.windows[idx as int].app_id@,
        ) is None,
    ensures
        run::react(st, reply).addresses == st.addresses,
{
}

// ---------------------------------------------------------------------------
// Launching and waiting
// ---------------------------------------------------------------------------

/// A window whose command was not handed over yet is launched by its launch
/// command; a tiled one by the command that makes it a process of its own.
pub proof fn launched_by_its_command(
    r: RestoreRun<'_>,
    idx: usize,
    role: Role,
    action: Action,
    usual: String,
    independent: String,
)
    requires
        run::valid(r@),
        at_step(r@, Step::Launch { idx, role }),
        forall|k: int|
            0 <= k < r@.launched.len() ==> r@.windows[#[trigger] r@.launched[k] as int].launch_cmd@
                != r@.windows[idx as int].launch_cmd@,
        call_ensures(RestoreRun::poll, (&r,), action),
        call_ensures(command::build_launch_cmd, (&r@.windows[idx as int],), usual),
        call_ensures(command::build_independent_cmd, (&r@.windows[idx as int],), independent),
    ensures
        role == Role::Tiled ==> sends(action, "dispatch exec "@ + independent@),
        role != Role::Tiled ==> sends(action, "dispatch exec "@ + usual@),
{
    reveal_strlit("dispatch ");
    reveal_strlit("exec ");
    reveal_strlit("dispatch exec ");
    assert("dispatch "@ + ("exec "@ + usual@) =~= "dispatch exec "@ + usual@);
    assert("dispatch "@ + ("exec "@ + independent@) =~= "dispatch exec "@ + independent@);
}

/// A window whose command was handed over before is not launched again, and is
/// waited for like any other: for fifteen seconds, by its application.
pub proof fn waits_for_its_application(
    r: RestoreRun<'_>,
    idx: usize,
    role: Role,
    action: Action,
)
    requires
        run::valid(r@),
        call_ensures(RestoreRun::poll, (&r,), action),
    ensures
        at_step(r@, Step::Launch { idx, role }) && (exists|k: int|
            0 <= k < r@.launched.len() && r@.windows[#[trigger] r@.launched[k] as int].launch_cmd@
                == r@.windows[idx as int].launch_cmd@) ==> action is Proceed,
        at_step(r@, Step::AwaitOpen { idx, role }) ==> (action matches Action::AwaitOpen(
            app_id,
            seconds,
        ) && app_id@ == r@.windows[idx as int].app_id@ && seconds == 15),
{
}

/// What comes of a launch: a command that cannot be handed over makes its window
/// one that failed; otherwise the window is waited for, and nothing else changes.
pub proof fn launch_outcome(st: RunView, idx: usize, role: Role, reply: Reply)
    requires
        run::valid(st),
        at_step(st, Step::Launch { idx, role }),
        run::answers(run::action_of(st), reply, st.windows.len()),
    ensures
        ({
            let next = run::react(st, reply);
            &&& reply is Failed ==> next.failed == st.failed.push(idx) && next.todo
                == st.todo.drop_first()
            &&& !(reply is Failed) ==> next.failed == st.failed && next.todo == seq![
                Step::AwaitOpen { idx, role },
            ] + st.todo.drop_first()
            &&& next.launched == if reply is Proceed {
                st.launched
            } else {
                st.launched.push(idx)
            }
            &&& next.restored == st.restored && next.pending == st.pending
            &&& next.stopped is None
        }),
{
}

/// What comes of waiting: the window counts as restored when a window of its
/// application opens, and also when time is up, but it is missing then; any other
/// event changes nothing. A window that is to join the masters is promoted next.
pub proof fn wait_outcome(st: RunView, idx: usize, role: Role, reply: Reply)
    requires
        run::valid(st),
        at_step(st, Step::AwaitOpen { idx, role }),
        reply is Event || reply is TimedOut,
    ensures
        ({
            let next = run::react(st, reply);
            let opened = opening(reply, st.windows[idx as int].app_id@) is Some;
            &&& reply is Event && !opened ==> next == st
            &&& opened || reply is TimedOut ==> next.restored == st.restored.push(idx)
                && next.failed == st.failed
            &&& opened ==> next.pending == st.pending
            &&& reply is TimedOut ==> next.pending == st.pending.push(idx)
            &&& (opened || reply is TimedOut) && role == Role::ExtraMaster ==> next.todo == seq![
                Step::AddMaster,
            ] + st.todo.drop_first()
            &&& (opened || reply is TimedOut) && role != Role::ExtraMaster ==> next.todo
                == st.todo.drop_first()
            &&& next.stopped is None
        }),
{
}

/// The report counts the windows that were restored and those that failed, and
/// names for each of these its application and its launch command.
pub proof fn report_tells_all(r: RestoreRun<'_>, report: RestoreReport)
    requires
        run::valid(r@),
        call_ensures(RestoreRun::report, (&r,), report),
    ensures
        report.restored == r@.restored.len(),
        report.failed == r@.failed.len(),
        report.errors@.len() == r@.failed.len(),
        forall|k: int|
            0 <= k < r@.failed.len() ==> (#[trigger] report.errors@[k]).0@
                == r@.windows[r@.failed[k] as int].app_id@ && report.errors@[k].1@
                == "launching "@ + r@.windows[r@.failed[k] as int].launch_cmd@,
{
    let views = restore::error_views(report.errors@);
    assert(views.len() == report.errors@.len());
    assert forall|k: int| 0 <= k < r@.failed.len() implies (#[trigger] report.errors@[k]).0@
        == r@.windows[r@.failed[k] as int].app_id@ && report.errors@[k].1@ == "launching "@
        + r@.windows[r@.failed[k] as int].launch_cmd@ by {
        assert(views[k] == (report.errors@[k].0@, report.errors@[k].1@));
        assert(run::errors_of(r@)[k] == views[k]);
    }
}

/// The windows that are watched for are those that did not appear in time, by
/// their applications, in the order in which they were missed.
pub proof fn pending_are_the_missing(r: RestoreRun<'_>, pending: Vec<String>)
    requires
        run::valid(r@),
        call_ensures(RestoreRun::pending, (&r,), pending),
    ensures
        pending@.len() == r@.pending.len(),
        forall|k: int|
            0 <= k < pending@.len() ==> (#[trigger] pending@[k])@
                == r@.windows[r@.pending[k] as int].app_id@,
{
    let views = text::views(pending@);
    assert(views.len() == pending@.len());
    assert forall|k: int| 0 <= k < pending@.len() implies (#[trigger] pending@[k])@
        == r@.windows[r@.pending[k] as int].app_id@ by {
        assert(views[k] == pending@[k]@);
        assert(run::pending_apps(r@)[k] == views[k]);
    }
}

// ---------------------------------------------------------------------------
// Ratios, sizes and fullscreen windows
// ---------------------------------------------------------------------------

/// A split gets the ratio that the plan has for it: the window that the plan names
/// is focused at the address that was noted for it, and the ratio is moved by what
/// the plan says. Where the window has not appeared, or cannot be focused, the
/// split is left as it is.
pub proof fn ratio_set_at_its_split(
    st: RunView,
    plan: usize,
    step: usize,
    address: String,
    reply: Reply,
)
    requires
        run::valid(st),
        progress::addresses_sound(st),
        at_step(st, Step::RatioFocus { plan, step }),
        reply is Text || reply is Failed || reply is Proceed,
    ensures
        ({
            let split = st.dwindle[plan as int].plan.ratio_steps@[step as int];
            let next = run::react(st, reply);
            &&& st.addresses.contains((split.focus_window_idx, address)) ==> run::action_of(st)
                == ActionView::Send("dispatch focuswindow address:0x"@ + address@)
            &&& (forall|k: int|
                0 <= k < st.addresses.len() ==> (#[trigger] st.addresses[k]).0
                    != split.focus_window_idx) ==> run::action_of(st) is Proceed
            &&& reply is Text ==> run::action_of(next) == ActionView::Send(
                "dispatch layoutmsg splitratio "@ + split.delta@,
            ) && next.todo.drop_first() == st.todo.drop_first()
            &&& !(reply is Text) ==> next.todo == st.todo.drop_first()
            &&& next.stopped is None
        }),
{
    reveal_strlit("dispatch ");
    reveal_strlit("focuswindow address:0x");
    reveal_strlit("layoutmsg splitratio ");
    reveal_strlit("dispatch focuswindow address:0x");
    reveal_strlit("dispatch layoutmsg splitratio ");
    let split = st.dwindle[plan as int].plan.ratio_steps@[step as int];
    let next = run::react(st, reply);
    assert("dispatch "@ + ("focuswindow address:0x"@ + address@)
        =~= "dispatch focuswindow address:0x"@ + address@);
    assert("dispatch "@ + ("layoutmsg splitratio "@ + split.delta@)
        =~= "dispatch layoutmsg splitratio "@ + split.delta@);
    if st.addresses.contains((split.focus_window_idx, address)) {
        noted_found(st, split.focus_window_idx, address);
    }
    if forall|k: int|
        0 <= k < st.addresses.len() ==> (#[trigger] st.addresses[k]).0 != split.focus_window_idx {
        unnoted_missing(st, split.focus_window_idx);
    }
    if reply is Text {
        assert(next.todo.drop_first() =~= st.todo.drop_first());
    }
}

/// The compositor is given thirty milliseconds for the ratios if, and only if, it
/// has confirmed one.
pub proof fn ratios_settle(st: RunView, plan: usize, step: usize, reply: Reply)
    requires
        run::valid(st),
    ensures
        at_step(st, Step::RatioSet { plan, step }) ==> run::react(st, reply).ratios_applied == (
        st.ratios_applied || (reply matches Reply::Text(said) && text::trim(said@) == "ok"@)),
        at_step(st, Step::RatioSettle) ==> run::action_of(st) == (if st.ratios_applied {
            ActionView::Sleep(30)
        } else {
            ActionView::Proceed
        }),
{
}

/// A tiled window that is reported with another size than the saved one is resized
/// by exactly the differences, at its own address, if its width or its height
/// differs by more than six pixels either way, and the sizes are looked at once
/// more; if both differ by six pixels at most, it is left as it is. In both cases
/// the next window is looked at.
pub proof fn resized_by_the_differences(
    st: RunView,
    pass: usize,
    at: usize,
    ok: bool,
    clients: Vec<HyprClient>,
    saved: (i32, i32),
    i: int,
    reply: Reply,
)
    requires
        run::valid(st),
        at_step(st, Step::Converge { pass, at, ok }),
        at < st.addresses.len(),
        st.addresses.len() <= usize::MAX,
        st.windows[st.addresses[at as int].0 as int].size == Some(saved),
        0 <= i < clients@.len(),
        requests::same_address(clients@[i].address@, st.addresses[at as int].1@),
        forall|j: int|
            0 <= j < i ==> !requests::same_address(
                (#[trigger] clients@[j]).address@,
                st.addresses[at as int].1@,
            ),
    ensures
        ({
            let dw = saved.0 - clients@[i].size.0;
            let dh = saved.1 - clients@[i].size.1;
            let next = run::react(st, Reply::Clients(clients));
            let off = dw > 6 || dw < -6 || dh > 6 || dh < -6;
            &&& run::action_of(st) is QueryClients
            &&& off ==> run::action_of(next) == ActionView::Send(
                "dispatch resizewindowpixel "@ + text::signed_decimal(dw) + " "@
                    + text::signed_decimal(dh) + ",address:0x"@ + st.addresses[at as int].1@,
            )
            &&& off ==> at_step(
                run::react(next, reply),
                Step::Converge { pass, at: (at + 1) as usize, ok: false },
            )
            &&& !off ==> at_step(next, Step::Converge { pass, at: (at + 1) as usize, ok })
            &&& next.todo.drop_first() == st.todo.drop_first()
        }),
{
    reveal_strlit("dispatch ");
    reveal_strlit("resizewindowpixel ");
    reveal_strlit("dispatch resizewindowpixel ");
    requests::first_at(clients@, st.addresses[at as int].1@, i);
    let dw = saved.0 - clients@[i].size.0;
    let dh = saved.1 - clients@[i].size.1;
    let next = run::react(st, Reply::Clients(clients));
    assert("dispatch "@ + ("resizewindowpixel "@ + text::signed_decimal(dw) + " "@
        + text::signed_decimal(dh) + ",address:0x"@ + st.addresses[at as int].1@)
        =~= "dispatch resizewindowpixel "@ + text::signed_decimal(dw) + " "@ + text::signed_decimal(
        dh,
    ) + ",address:0x"@ + st.addresses[at as int].1@);
    assert(next.todo.drop_first() =~= st.todo.drop_first());
    assert((dw as i64) as int == dw && (dh as i64) as int == dh);
}

/// A tiled window without a saved size, or of which the compositor does not say
/// where it is, is passed over.
pub proof fn passed_over(st: RunView, pass: usize, at: usize, ok: bool, reply: Reply)
    requires
        run::valid(st),
        at_step(st, Step::Converge { pass, at, ok }),
        at < st.addresses.len(),
        st.windows[st.addresses[at as int].0 as int].size is None || !(reply is Clients) || (
        forall|j: int|
            0 <= j < reply->Clients_0@.len() ==> !requests::same_address(
                (#[trigger] reply->Clients_0@[j]).address@,
                st.addresses[at as int].1@,
            )),
    ensures
        ({
            let next = run::react(st, reply);
            &&& st.windows[st.addresses[at as int].0 as int].size is None ==> run::action_of(
                st,
            ) is Proceed
            &&& at_step(next, Step::Converge { pass, at: (at + 1) as usize, ok })
            &&& next.todo.drop_first() == st.todo.drop_first()
        }),
{
    if reply is Clients {
        let clients = reply->Clients_0@;
        let address = st.addresses[at as int].1@;
        client::client_found(clients, address);
        if let Some(c) = client::client_at(clients, address) {
            let j = choose|j: int| 0 <= j < clients.len() && clients[j] == c;
            assert(requests::same_address(clients[j].address@, address));
        }
    }
    assert(run::react(st, reply).todo.drop_first() =~= st.todo.drop_first());
}

/// When all tiled windows were looked at, the sizes are done with if all were
/// right; otherwise the compositor is given sixty milliseconds, and all windows are
/// looked at again from the first, four times in all at most.
pub proof fn passes_repeated(st: RunView, pass: usize, at: usize, ok: bool)
    requires
        run::valid(st),
        at_step(st, Step::Converge { pass, at, ok }),
        at >= st.addresses.len(),
    ensures
        ({
            let next = run::react(st, Reply::Proceed);
            &&& pass < 4
            &&& ok ==> run::action_of(st) is Proceed && next.todo == st.todo.drop_first()
            &&& !ok ==> run::action_of(st) == ActionView::Sleep(60)
            &&& !ok && pass < 3 ==> next.todo == seq![
                Step::Converge { pass: (pass + 1) as usize, at: 0, ok: true },
            ] + st.todo.drop_first()
            &&& !ok && pass == 3 ==> next.todo == st.todo.drop_first()
        }),
{
    assert(run::step_valid(st, st.todo[0]));
}

/// Each tiled window that has appeared is made fullscreen, at its own address, if
/// and only if it was saved so; then comes the next one, until all were seen to.
pub proof fn fullscreen_where_it_was(st: RunView, at: usize, reply: Reply)
    requires
        run::valid(st),
        at_step(st, Step::Fullscreen(at)),
        !(reply is Failed),
    ensures
        ({
            let next = run::react(st, reply);
            &&& at < st.addresses.len() && st.windows[st.addresses[at as int].0 as int].fullscreen
                ==> run::action_of(st) == ActionView::Send(
                "dispatch fullscreen 0,address:0x"@ + st.addresses[at as int].1@,
            )
            &&& at < st.addresses.len() && !st.windows[st.addresses[at as int].0 as int].fullscreen
                ==> run::action_of(st) is Proceed
            &&& at < st.addresses.len() ==> next.todo == seq![
                Step::Fullscreen((at + 1) as usize),
            ] + st.todo.drop_first()
            &&& at >= st.addresses.len() ==> run::action_of(st) is Proceed && next.todo
                == st.todo.drop_first()
        }),
{
    reveal_strlit("dispatch ");
    reveal_strlit("fullscreen 0,address:0x");
    reveal_strlit("dispatch fullscreen 0,address:0x");
    if at < st.addresses.len() {
        let address = st.addresses[at as int].1@;
        assert("dispatch "@ + ("fullscreen 0,address:0x"@ + address)
            =~= "dispatch fullscreen 0,address:0x"@ + address);
    }
}

// ---------------------------------------------------------------------------
// Master layouts
// ---------------------------------------------------------------------------

/// A master plan sets the share of the master area that it holds, goes to its own
/// workspace, and then sets the orientation that it holds, before anything else.
pub proof fn master_layout_set_up(
    st: RunView,
    k: usize,
    rest: Seq<Step>,
    first: Reply,
    second: String,
    third: Reply,
)
    requires
        run::valid(st),
        st.stopped is None,
        st.todo == seq![Step::Mfact(k), Step::MasterWorkspace(k), Step::Orientation(k)] + rest,
    ensures
        ({
            let workspace = run::react(st, first);
            let orientation = run::react(workspace, Reply::Text(second));
            let planned = st.master[k as int];
            &&& run::action_of(st) == ActionView::Send(
                "keyword master:mfact "@ + planned.plan.mfact@,
            )
            &&& run::action_of(workspace) == ActionView::Send(
                "dispatch workspace "@ + planned.workspace@,
            )
            &&& run::action_of(orientation) == ActionView::Send(
                "dispatch layoutmsg orientation"@ + planned.plan.orientation@,
            )
            &&& run::react(orientation, third).todo == rest
            &&& run::react(orientation, third).stopped is None
        }),
{
    reveal_strlit("dispatch ");
    reveal_strlit("keyword ");
    reveal_strlit("workspace ");
    reveal_strlit("master:mfact ");
    reveal_strlit("layoutmsg orientation");
    reveal_strlit("keyword master:mfact ");
    reveal_strlit("dispatch workspace ");
    reveal_strlit("dispatch layoutmsg orientation");
    let planned = st.master[k as int];
    let s1 = run::react(st, first);
    let s2 = run::react(s1, Reply::Text(second));
    assert("keyword "@ + ("master:mfact "@ + planned.plan.mfact@) =~= "keyword master:mfact "@
        + planned.plan.mfact@);
    assert("dispatch "@ + ("workspace "@ + planned.workspace@) =~= "dispatch workspace "@
        + planned.workspace@);
    assert("dispatch "@ + ("layoutmsg orientation"@ + planned.plan.orientation@)
        =~= "dispatch layoutmsg orientation"@ + planned.plan.orientation@);
    assert(s1.todo =~= seq![Step::MasterWorkspace(k), Step::Orientation(k)] + rest);
    assert(s2.todo =~= seq![Step::Orientation(k)] + rest);
    assert(run::react(s2, third).todo =~= rest);
}

/// Two texts with one beginning are alike only if what follows is.
proof fn same_tail(lead: Seq<char>, a: Seq<char>, b: Seq<char>)
    requires
        lead + a == lead + b,
    ensures
        a == b,
{
    assert(a =~= (lead + a).skip(lead.len() as int));
    assert(b =~= (lead + b).skip(lead.len() as int));
}

/// Plans that differ in their orientation, their share or their workspace lead to
/// different requests.
pub proof fn master_requests_differ(a: RunView, b: RunView, k: usize)
    requires
        run::valid(a),
        run::valid(b),
    ensures
        at_step(a, Step::Orientation(k)) && at_step(b, Step::Orientation(k)) && run::action_of(a)
            == run::action_of(b) ==> a.master[k as int].plan.orientation@
            == b.master[k as int].plan.orientation@,
        at_step(a, Step::Mfact(k)) && at_step(b, Step::Mfact(k)) && run::action_of(a)
            == run::action_of(b) ==> a.master[k as int].plan.mfact@
            == b.master[k as int].plan.mfact@,
        at_step(a, Step::MasterWorkspace(k)) && at_step(b, Step::MasterWorkspace(k))
            && run::action_of(a) == run::action_of(b) ==> a.master[k as int].workspace@
            == b.master[k as int].workspace@,
{
    let p = a.master[k as int];
    let q = b.master[k as int];
    if at_step(a, Step::Orientation(k)) && at_step(b, Step::Orientation(k)) && run::action_of(a)
        == run::action_of(b) {
        let x = "layoutmsg orientation"@ + p.plan.orientation@;
        let y = "layoutmsg orientation"@ + q.plan.orientation@;
        assert(run::action_of(a) == ActionView::Send("dispatch "@ + x));
        assert(run::action_of(b) == ActionView::Send("dispatch "@ + y));
        same_tail("dispatch "@, x, y);
        same_tail("layoutmsg orientation"@, p.plan.orientation@, q.plan.orientation@);
    }
    if at_step(a, Step::Mfact(k)) && at_step(b, Step::Mfact(k)) && run::action_of(a)
        == run::action_of(b) {
        let x = "master:mfact "@ + p.plan.mfact@;
        let y = "master:mfact "@ + q.plan.mfact@;
        assert(run::action_of(a) == ActionView::Send("keyword "@ + x));
        assert(run::action_of(b) == ActionView::Send("keyword "@ + y));
        same_tail("keyword "@, x, y);
        same_tail("master:mfact "@, p.plan.mfact@, q.plan.mfact@);
    }
    if at_step(a, Step::MasterWorkspace(k)) && at_step(b, Step::MasterWorkspace(k))
        && run::action_of(a) == run::action_of(b) {
        let x = "workspace "@ + p.workspace@;
        let y = "workspace "@ + q.workspace@;
        assert(run::action_of(a) == ActionView::Send("dispatch "@ + x));
        assert(run::action_of(b) == ActionView::Send("dispatch "@ + y));
        same_tail("dispatch "@, x, y);
        same_tail("workspace "@, p.workspace@, q.workspace@);
    }
}

/// A window that was opened to join the masters is promoted by one request.
pub proof fn promoted(st: RunView, reply: Reply)
    requires
        at_step(st, Step::AddMaster),
    ensures
        run::action_of(st) == ActionView::Send("dispatch layoutmsg addmaster"@),
        run::react(st, reply).todo == st.todo.drop_first(),
        run::react(st, reply).stopped is None,
{
    reveal_strlit("dispatch ");
    reveal_strlit("layoutmsg addmaster");
    reveal_strlit("dispatch layoutmsg addmaster");
    assert("dispatch "@ + "layoutmsg addmaster"@ =~= "dispatch layoutmsg addmaster"@);
}

// ---------------------------------------------------------------------------
// Before any window is launched
// ---------------------------------------------------------------------------

/// The connected monitors are asked for; then the workspaces that belong to them are
/// bound one after the other, each by a rule with its own name and that of its
/// monitor. Where the monitors are not known, nothing is bound.
pub proof fn workspaces_bound_first(st: RunView, names: Vec<String>, k: int)
    requires
        run::valid(st),
        at_step(st, Step::Monitors),
    ensures
        run::action_of(st) is QueryMonitors,
        run::react(st, Reply::Failed).todo == st.todo.drop_first(),
        ({
            let next = run::react(st, Reply::Monitors(names));
            let bound = plan::bindings(st.windows, text::views(names@), st.windows.len());
            &&& next.todo.len() == bound.len() + st.todo.len() - 1
            &&& 0 <= k < bound.len() ==> next.todo[k] == Step::Bind(bound[k])
            &&& next.todo.skip(bound.len() as int) == st.todo.drop_first()
            &&& next.stopped is None
        }),
{
    let next = run::react(st, Reply::Monitors(names));
    let bound = plan::bindings(st.windows, text::views(names@), st.windows.len());
    assert(next.todo.skip(bound.len() as int) =~= st.todo.drop_first());
}

/// The request that binds a workspace holds the name of the workspace and that of
/// the monitor; whatever comes back, the restore goes on.
pub proof fn workspace_bound(st: RunView, i: usize, monitor: String, reply: Reply)
    requires
        run::valid(st),
        at_step(st, Step::Bind(i)),
        st.windows[i as int].monitor == Some(monitor),
    ensures
        run::action_of(st) == ActionView::Send(
            "keyword workspace "@ + st.windows[i as int].workspace@ + ",monitor:"@ + monitor@,
        ),
        run::react(st, reply).todo == st.todo.drop_first(),
        run::react(st, reply).stopped is None,
{
    reveal_strlit("keyword ");
    reveal_strlit("workspace ");
    reveal_strlit("keyword workspace ");
    let w = st.windows[i as int];
    assert("keyword "@ + ("workspace "@ + w.workspace@ + ",monitor:"@ + monitor@)
        =~= "keyword workspace "@ + w.workspace@ + ",monitor:"@ + monitor@);
}

/// Windows are kept from taking the focus while they are restored: if they could
/// before, or if that is not known, they are told not to, and in the end to do so
/// again.
pub proof fn focus_kept_and_given_back(st: RunView, reply: Reply)
    requires
        reply is Text || reply is Failed,
    ensures
        at_step(st, Step::FocusQuery) ==> run::action_of(st) == ActionView::Send(
            "getoption misc:focus_on_activate"@,
        ),
        at_step(st, Step::FocusQuery) ==> run::react(st, reply).had_focus == (reply is Failed
            || text::has_substring(reply->Text_0@, "int: 1"@)),
        at_step(st, Step::FocusQuery) ==> ({
            let next = run::react(st, reply);
            next.todo == if next.had_focus {
                seq![Step::FocusOff] + st.todo.drop_first()
            } else {
                st.todo.drop_first()
            }
        }),
        at_step(st, Step::FocusOff) ==> run::action_of(st) == ActionView::Send(
            "keyword misc:focus_on_activate false"@,
        ),
        at_step(st, Step::FocusOn) && st.had_focus ==> run::action_of(st) == ActionView::Send(
            "keyword misc:focus_on_activate true"@,
        ),
        at_step(st, Step::FocusOn) && !st.had_focus ==> run::action_of(st) is Proceed,
        at_step(st, Step::FocusOff) || at_step(st, Step::FocusOn) ==> run::react(st, reply).todo
            == st.todo.drop_first(),
        st.todo.len() > 0 && !(st.todo[0] is FocusQuery) ==> run::react(st, reply).had_focus
            == st.had_focus,
{
    reveal_strlit("getoption ");
    reveal_strlit("keyword ");
    reveal_strlit("misc:focus_on_activate");
    reveal_strlit("misc:focus_on_activate false");
    reveal_strlit("misc:focus_on_activate true");
    reveal_strlit("getoption misc:focus_on_activate");
    reveal_strlit("keyword misc:focus_on_activate false");
    reveal_strlit("keyword misc:focus_on_activate true");
    assert("getoption "@ + "misc:focus_on_activate"@ =~= "getoption misc:focus_on_activate"@);
    assert("keyword "@ + "misc:focus_on_activate false"@
        =~= "keyword misc:focus_on_activate false"@);
    assert("keyword "@ + "misc:focus_on_activate true"@
        =~= "keyword misc:focus_on_activate true"@);
}

/// The registration is framed by three requests.
pub proof fn registration_framed(st: RunView)
    ensures
        at_step(st, Step::Available) ==> run::action_of(st) == ActionView::Send(
            "sessionctl status"@,
        ),
        at_step(st, Step::Begin) ==> run::action_of(st) == ActionView::Send("sessionctl begin"@),
        at_step(st, Step::End) ==> run::action_of(st) == ActionView::Send("sessionctl end"@),
{
}

/// Each window is registered with what was saved of it: class, workspace, monitor,
/// whether it floats, whether it is fullscreen, that it is not maximized, position
/// and size, where zero stands for a number that was not saved. It is counted as
/// registered if, and only if, the compositor confirms it.
pub proof fn registered_as_saved(st: RunView, i: usize, monitor: Seq<char>, reply: Reply)
    requires
        run::valid(st),
        at_step(st, Step::Expect(i)),
        monitor == match st.windows[i as int].monitor {
            Some(name) => if text::words(name@).len() > 0 {
                name@
            } else {
                "-"@
            },
            None => "-"@,
        },
    ensures
        ({
            let w = st.windows[i as int];
            let next = run::react(st, reply);
            let (x, y) = match w.position {
                Some(p) => (p.0 as int, p.1 as int),
                None => (0int, 0int),
            };
            let (width, height) = match w.size {
                Some(s) => (s.0 as int, s.1 as int),
                None => (0int, 0int),
            };
            let floats = if w.floating {
                "1"@
            } else {
                "0"@
            };
            let fills = if w.fullscreen {
                "1"@
            } else {
                "0"@
            };
            &&& run::action_of(st) == ActionView::Send(
                "sessionctl expect "@ + (w.app_id@ + " "@ + w.workspace@ + " "@ + monitor + " "@
                    + floats + " "@ + fills + " "@ + "0"@ + " "@ + text::signed_decimal(x) + " "@
                    + text::signed_decimal(y) + " "@ + text::signed_decimal(width) + " "@
                    + text::signed_decimal(height)),
            )
            &&& next.registered == if reply is Text && text::trim(reply->Text_0@) == "ok"@ {
                st.registered.push(i)
            } else {
                st.registered
            }
            &&& next.todo == st.todo.drop_first()
            &&& next.stopped is None
        }),
{
    let w = st.windows[i as int];
    let fields = run::window_fields(w);
    client::ten_fields_joined(fields);
    client::flags_written();
}

/// The restore is given up if, and only if, the compositor does not know the
/// protocol, does not confirm the beginning or the end of the registration, or a
/// request fails that goes to a window or a workspace; and each has its own error.
pub proof fn given_up_when(st: RunView, reply: Reply)
    requires
        st.stopped is None,
        st.todo.len() > 0,
    ensures
        ({
            let next = run::react(st, reply);
            let ok = reply is Text && text::trim(reply->Text_0@) == "ok"@;
            let known = reply is Text && (text::has_prefix(reply->Text_0@, "active: "@) || !(
            text::has_substring(reply->Text_0@, "error"@) || text::has_substring(
                reply->Text_0@,
                "unknown"@,
            )));
            let first = st.todo[0];
            let depends = first is Focus || first is Preselect || first is Workspace
                || first is MasterWorkspace || first is Fullscreen;
            &&& (next.stopped == Some(RestoreError::Unsupported)) == (first is Available && !known)
            &&& (next.stopped == Some(RestoreError::BeginFailed)) == (first is Begin && !ok)
            &&& (next.stopped == Some(RestoreError::EndFailed)) == (first is End && !ok)
            &&& (next.stopped == Some(RestoreError::Ipc)) == (depends && reply is Failed)
            &&& next.stopped is Some ==> next.todo.len() == 0 && run::action_of(next)
                == ActionView::Stop(next.stopped->0)
            &&& next.stopped is None && (first is Available || first is Begin || first is End)
                ==> next.todo == st.todo.drop_first()
        }),
{
}

/// The active layout is asked for, and decides: under a dwindle or a master layout
/// plans are inferred, and otherwise all windows are launched in the order of the
/// session.
pub proof fn layout_decides(st: RunView, reply: Reply, k: int)
    requires
        run::valid(st),
        at_step(st, Step::Layout),
    ensures
        run::action_of(st) == ActionView::Send("getoption general:layout"@),
        ({
            let next = run::react(st, reply);
            let rest = st.todo.drop_first();
            let name = if reply is Text {
                client::str_value(reply->Text_0@)
            } else {
                None
            };
            let n = st.windows.len() as int;
            &&& name == Some("dwindle"@) ==> next.todo == seq![Step::InferDwindle] + rest
            &&& name == Some("master"@) ==> next.todo == seq![Step::InferMaster] + rest
            &&& name != Some("dwindle"@) && name != Some("master"@) ==> next.todo.len() == n
                + rest.len() && next.todo.skip(n) == rest
            &&& name != Some("dwindle"@) && name != Some("master"@) && 0 <= k < n
                ==> next.todo[k] == Step::Launch { idx: k as usize, role: Role::Plain }
        }),
{
    reveal_strlit("getoption ");
    reveal_strlit("general:layout");
    reveal_strlit("getoption general:layout");
    reveal_strlit("dwindle");
    reveal_strlit("master");
    assert("getoption "@ + "general:layout"@ =~= "getoption general:layout"@);
    assert("dwindle"@[0] == 'd' && "master"@[0] == 'm');
    assert("dwindle"@.len() == 7 && "master"@.len() == 6);
    let next = run::react(st, reply);
    let rest = st.todo.drop_first();
    let n = st.windows.len() as int;
    let name = if reply is Text {
        client::str_value(reply->Text_0@)
    } else {
        None
    };
    if name != Some("dwindle"@) && name != Some("master"@) {
        assert(next.todo.skip(n) =~= rest);
    }
}

// ---------------------------------------------------------------------------
// The whole course
// ---------------------------------------------------------------------------

/// A restore begins with the monitors, the focus and the registration of every
/// window in the order of the session; then come the windows, and in the end the
/// focus is given back and the restore is finished.
pub proof fn course_of_a_restore(windows: Seq<WindowEntry>, restore_layout: bool, k: int)
    requires
        windows.len() <= usize::MAX,
    ensures
        ({
            let todo = run::initial(windows, restore_layout).todo;
            let n = windows.len() as int;
            let launched = if restore_layout {
                1
            } else {
                n
            };
            &&& todo.len() == 4 + n + 1 + launched + 2
            &&& todo[0] == Step::Monitors
            &&& todo[1] == Step::FocusQuery
            &&& todo[2] == Step::Available
            &&& todo[3] == Step::Begin
            &&& 0 <= k < n ==> todo[4 + k] == Step::Expect(k as usize)
            &&& todo[4 + n] == Step::End
            &&& restore_layout ==> todo[5 + n] == Step::Layout
            &&& !restore_layout && 0 <= k < n ==> todo[5 + n + k] == Step::Launch {
                idx: k as usize,
                role: Role::Plain,
            }
            &&& todo[5 + n + launched] == Step::FocusOn
            &&& todo[6 + n + launched] == Step::Finish
        }),
{
}

/// The restore is finished by one request if, and only if, no window is missing;
/// after that nothing is left to do.
pub proof fn finished_when_none_is_missing(st: RunView, reply: Reply)
    requires
        at_step(st, Step::Finish),
    ensures
        st.pending.len() == 0 ==> run::action_of(st) == ActionView::Send("sessionctl finish"@),
        st.pending.len() > 0 ==> run::action_of(st) is Proceed,
        run::react(st, reply).todo == st.todo.drop_first(),
        st.todo.len() == 1 ==> run::action_of(run::react(st, reply)) is Done,
{
}

/// The number of windows that the first `k` dwindle plans place.
pub open spec fn placed_before(plans: Seq<Planned<DwindlePlan>>, k: int) -> nat
    decreases k,
{
    if k <= 0 {
        0
    } else {
        placed_before(plans, k - 1) + plans[k - 1].plan.steps@.len()
    }
}

/// The number of splits that the first `k` dwindle plans have.
pub open spec fn splits_before(plans: Seq<Planned<DwindlePlan>>, k: int) -> nat
    decreases k,
{
    if k <= 0 {
        0
    } else {
        splits_before(plans, k - 1) + plans[k - 1].plan.ratio_steps@.len()
    }
}

/// The number of steps that the first `k` master plans take.
pub open spec fn mastered_before(plans: Seq<Planned<MasterPlan>>, k: int) -> nat
    decreases k,
{
    if k <= 0 {
        0
    } else {
        mastered_before(plans, k - 1) + 3 + plans[k - 1].plan.master_indices@.len()
            + plans[k - 1].plan.stack_indices@.len()
    }
}

/// The windows of the first `n` plans are placed plan by plan, step by step.
proof fn places_in_order(plans: Seq<Planned<DwindlePlan>>, n: nat, p: int, s: int)
    requires
        n <= plans.len() <= usize::MAX,
        0 <= p < n,
        0 <= s < plans[p].plan.steps@.len(),
    ensures
        run::place_steps(plans, n).len() == placed_before(plans, n as int),
        placed_before(plans, p) + s < placed_before(plans, n as int),
        run::place_steps(plans, n)[placed_before(plans, p) + s] == (Step::Place {
            plan: p as usize,
            step: s as usize,
        }),
    decreases n,
{
    placed_len(plans, n);
    placed_len(plans, (n - 1) as nat);
    if p < n - 1 {
        places_in_order(plans, (n - 1) as nat, p, s);
    }
}

/// As many steps place windows as the plans have.
proof fn placed_len(plans: Seq<Planned<DwindlePlan>>, n: nat)
    ensures
        run::place_steps(plans, n).len() == placed_before(plans, n as int),
        run::ratio_steps(plans, n).len() == splits_before(plans, n as int),
    decreases n,
{
    if n > 0 {
        placed_len(plans, (n - 1) as nat);
    }
}

/// The ratios of the first `n` plans are set plan by plan, split by split.
proof fn splits_in_order(plans: Seq<Planned<DwindlePlan>>, n: nat, p: int, s: int)
    requires
        n <= plans.len() <= usize::MAX,
        0 <= p < n,
        0 <= s < plans[p].plan.ratio_steps@.len(),
    ensures
        splits_before(plans, p) + s < splits_before(plans, n as int),
        run::ratio_steps(plans, n)[splits_before(plans, p) + s] == (Step::RatioFocus {
            plan: p as usize,
            step: s as usize,
        }),
    decreases n,
{
    placed_len(plans, n);
    placed_len(plans, (n - 1) as nat);
    if p < n - 1 {
        splits_in_order(plans, (n - 1) as nat, p, s);
    }
}

/// Under a dwindle layout the windows of all plans are opened, plan by plan and
/// step by step; then every ratio is set, in the same order, and given time; then
/// sizes are compared, and fullscreen windows made so; then come the windows that no
/// plan covers, and the floating ones; and then what was left before.
pub proof fn dwindle_course(
    st: RunView,
    inferred: Vec<Option<DwindlePlan>>,
    p: int,
    s: int,
    k: int,
)
    requires
        run::valid(st),
        at_step(st, Step::InferDwindle),
        inferred@.len() == plan::groups_of(st.windows).len(),
    ensures
        ({
            let groups = plan::groups_of(st.windows);
            let next = run::react(st, Reply::DwindlePlans(inferred));
            let plans = plan::planned(groups, inferred@);
            let left = plan::unplanned(groups, inferred@);
            let floating = plan::floating_of(st.windows);
            let n = plans.len() as int;
            let a = placed_before(plans, n) as int;
            let b = splits_before(plans, n) as int;
            &&& run::action_of(st) == ActionView::InferDwindle(groups)
            &&& next.dwindle == plans
            &&& next.stopped is None
            &&& next.todo.len() == a + b + 3 + left.len() + floating.len() + st.todo.len() - 1
            &&& 0 <= p < n && 0 <= s < plans[p].plan.steps@.len() ==> next.todo[placed_before(
                plans,
                p,
            ) + s] == (Step::Place { plan: p as usize, step: s as usize })
            &&& 0 <= p < n && 0 <= s < plans[p].plan.ratio_steps@.len() ==> next.todo[a
                + splits_before(plans, p) + s] == (Step::RatioFocus {
                plan: p as usize,
                step: s as usize,
            })
            &&& next.todo[a + b] == Step::RatioSettle
            &&& next.todo[a + b + 1] == (Step::Converge { pass: 0, at: 0, ok: true })
            &&& next.todo[a + b + 2] == Step::Fullscreen(0)
            &&& 0 <= k < left.len() ==> next.todo[a + b + 3 + k] == (Step::Launch {
                idx: left[k],
                role: Role::Plain,
            })
            &&& 0 <= k < floating.len() ==> next.todo[a + b + 3 + left.len() + k] == (Step::Launch {
                idx: floating[k],
                role: Role::Plain,
            })
            &&& next.todo.skip(a + b + 3 + left.len() + floating.len()) == st.todo.drop_first()
        }),
{
    let groups = plan::groups_of(st.windows);
    let next = run::react(st, Reply::DwindlePlans(inferred));
    let plans = plan::planned(groups, inferred@);
    let left = plan::unplanned(groups, inferred@);
    let floating = plan::floating_of(st.windows);
    let n = plans.len() as int;
    plan::planned_inferred(groups, inferred@);
    assert(inferred.len() == inferred@.len());
    placed_len(plans, plans.len());
    let a = placed_before(plans, n) as int;
    let b = splits_before(plans, n) as int;
    let steps = run::dwindle_steps(plans, left, floating);
    assert(next.todo == steps + st.todo.drop_first());
    if 0 <= p < n && 0 <= s < plans[p].plan.steps@.len() {
        places_in_order(plans, plans.len(), p, s);
    }
    if 0 <= p < n && 0 <= s < plans[p].plan.ratio_steps@.len() {
        splits_in_order(plans, plans.len(), p, s);
    }
    assert(next.todo.skip(a + b + 3 + left.len() + floating.len()) =~= st.todo.drop_first());
}

/// The steps of one master plan stand behind those of the plans before it.
proof fn masters_in_order(plans: Seq<Planned<MasterPlan>>, n: nat, p: int)
    requires
        n <= plans.len() <= usize::MAX,
    ensures
        run::master_plans_steps(plans, n).len() == mastered_before(plans, n as int),
        0 <= p < n ==> ({
            let steps = run::master_plan_steps(plans[p].plan, p as usize);
            &&& mastered_before(plans, p) + steps.len() <= mastered_before(plans, n as int)
            &&& run::master_plans_steps(plans, n).subrange(
                mastered_before(plans, p) as int,
                (mastered_before(plans, p) + steps.len()) as int,
            ) =~= steps
        }),
    decreases n,
{
    if n > 0 {
        masters_in_order(plans, (n - 1) as nat, p);
        let before = run::master_plans_steps(plans, (n - 1) as nat);
        let all = run::master_plans_steps(plans, n);
        if 0 <= p < n {
            let steps = run::master_plan_steps(plans[p].plan, p as usize);
            let from = mastered_before(plans, p) as int;
            let to = (from + steps.len()) as int;
            if p < n - 1 {
                assert(all.subrange(from, to) =~= before.subrange(from, to));
            } else {
                assert(all.subrange(from, to) =~= steps);
            }
        }
    }
}

/// Under a master layout the plans are carried out one after the other: each sets
/// up its layout, opens its master windows, all but the first of which are promoted,
/// and then its other windows. Then come the windows that no plan covers, and the
/// floating ones; and then what was left before.
pub proof fn master_course(
    st: RunView,
    inferred: Vec<Option<MasterPlan>>,
    p: int,
    j: int,
    k: int,
)
    requires
        run::valid(st),
        at_step(st, Step::InferMaster),
        inferred@.len() == plan::groups_of(st.windows).len(),
    ensures
        ({
            let groups = plan::groups_of(st.windows);
            let next = run::react(st, Reply::MasterPlans(inferred));
            let plans = plan::planned(groups, inferred@);
            let left = plan::unplanned(groups, inferred@);
            let floating = plan::floating_of(st.windows);
            let n = plans.len() as int;
            let a = mastered_before(plans, n) as int;
            let at = mastered_before(plans, p) as int;
            let masters = plans[p].plan.master_indices@;
            let stack = plans[p].plan.stack_indices@;
            &&& run::action_of(st) == ActionView::InferMaster(groups)
            &&& next.master == plans
            &&& next.stopped is None
            &&& next.todo.len() == a + left.len() + floating.len() + st.todo.len() - 1
            &&& 0 <= p < n ==> next.todo[at] == Step::Mfact(p as usize)
            &&& 0 <= p < n ==> next.todo[at + 1] == Step::MasterWorkspace(p as usize)
            &&& 0 <= p < n ==> next.todo[at + 2] == Step::Orientation(p as usize)
            &&& 0 <= p < n && masters.len() > 0 ==> next.todo[at + 3] == (Step::Launch {
                idx: masters[0],
                role: Role::Plain,
            })
            &&& 0 <= p < n && 0 < j < masters.len() ==> next.todo[at + 3 + j] == (Step::Launch {
                idx: masters[j],
                role: Role::ExtraMaster,
            })
            &&& 0 <= p < n && 0 <= j < stack.len() ==> next.todo[at + 3 + masters.len() + j] == (
            Step::Launch { idx: stack[j], role: Role::Plain })
            &&& 0 <= k < left.len() ==> next.todo[a + k] == (Step::Launch {
                idx: left[k],
                role: Role::Plain,
            })
            &&& 0 <= k < floating.len() ==> next.todo[a + left.len() + k] == (Step::Launch {
                idx: floating[k],
                role: Role::Plain,
            })
            &&& next.todo.skip(a + left.len() + floating.len()) == st.todo.drop_first()
        }),
{
    let groups = plan::groups_of(st.windows);
    let next = run::react(st, Reply::MasterPlans(inferred));
    let plans = plan::planned(groups, inferred@);
    let left = plan::unplanned(groups, inferred@);
    let floating = plan::floating_of(st.windows);
    let n = plans.len() as int;
    plan::planned_inferred(groups, inferred@);
    assert(inferred.len() == inferred@.len());
    masters_in_order(plans, plans.len(), p);
    let a = mastered_before(plans, n) as int;
    let at = mastered_before(plans, p) as int;
    let first = run::master_plans_steps(plans, plans.len());
    assert(next.todo == first + run::launches(left, Role::Plain) + run::launches(
        floating,
        Role::Plain,
    ) + st.todo.drop_first());
    if 0 <= p < n {
        let masters = plans[p].plan.master_indices@;
        let stack = plans[p].plan.stack_indices@;
        let steps = run::master_plan_steps(plans[p].plan, p as usize);
        let part = first.subrange(at, (at + steps.len()) as int);
        assert forall|i: int| 0 <= i < steps.len() implies next.todo[at + i] == #[trigger] steps[i] by {
            assert(part[i] == first[at + i]);
        }
        assert(steps[0] == Step::Mfact(p as usize));
        assert(steps[1] == Step::MasterWorkspace(p as usize));
        assert(steps[2] == Step::Orientation(p as usize));
        if masters.len() > 0 {
            assert(steps[3] == (Step::Launch { idx: masters[0], role: Role::Plain }));
        }
        if 0 < j < masters.len() {
            assert(steps[3 + j] == (Step::Launch { idx: masters[j], role: Role::ExtraMaster }));
        }
        if 0 <= j < stack.len() {
            assert(steps[3 + masters.len() + j] == (Step::Launch {
                idx: stack[j],
                role: Role::Plain,
            }));
        }
    }
    assert(next.todo.skip(a + left.len() + floating.len()) =~= st.todo.drop_first());
}

/// No answer changes the session, nor anything that the step in front is not about:
/// only launching and waiting for a window change what is launched, restored, failed
/// or missing, only registering changes what is registered, and so on.
pub proof fn others_untouched(st: RunView, reply: Reply)
    requires
        st.todo.len() > 0,
    ensures
        ({
            let next = run::react(st, reply);
            let first = st.todo[0];
            &&& next.windows == st.windows
            &&& !(first is InferDwindle) ==> next.dwindle == st.dwindle
            &&& !(first is InferMaster) ==> next.master == st.master
            &&& !(first is Expect) ==> next.registered == st.registered
            &&& !(first is Launch) ==> next.launched == st.launched && next.failed == st.failed
            &&& !(first is AwaitOpen) ==> next.restored == st.restored && next.pending
                == st.pending && next.addresses == st.addresses
            &&& !(first is RatioSet) ==> next.ratios_applied == st.ratios_applied
            &&& !(first is FocusQuery) ==> next.had_focus == st.had_focus
        }),
{
}

/// A restore does as its state says, and each answer leads to the state that is said
/// of it above.
pub proof fn polled_and_advanced(r: RestoreRun<'_>, action: Action, reply: Reply)
    requires
        call_ensures(RestoreRun::poll, (&r,), action),
    ensures
        action@ == run::action_of(r@),
        forall|now: &mut RestoreRun<'_>| #[trigger]
            call_ensures(RestoreRun::advance, (now, reply), ()) ==> final(now)@ == run::react(
                now@,
                reply,
            ) && run::valid(final(now)@),
{
}

/// What is to be done is told by its kind and holds what the state says.
pub proof fn polled_in_kind(r: RestoreRun<'_>, action: Action)
    requires
        call_ensures(RestoreRun::poll, (&r,), action),
    ensures
        match run::action_of(r@) {
            ActionView::Send(request) => sends(action, request),
            ActionView::QueryMonitors => action is QueryMonitors,
            ActionView::QueryClients => action is QueryClients,
            ActionView::InferDwindle(groups) => action is InferDwindle,
            ActionView::InferMaster(groups) => action is InferMaster,
            ActionView::AwaitOpen(app_id, seconds) => action matches Action::AwaitOpen(a, s) && a@
                == app_id && s == seconds,
            ActionView::Sleep(millis) => action == Action::Sleep(millis),
            ActionView::Proceed => action is Proceed,
            ActionView::Done => action is Done,
            ActionView::Stop(error) => action == Action::Stop(error),
        },
{
}

/// Plans are inferred for the groups of tiled windows that the session has.
pub proof fn inferred_for_its_groups(
    r: RestoreRun<'_>,
    windows: Vec<WindowEntry>,
    groups: Vec<TiledGroup>,
    action: Action,
    k: int,
)
    requires
        windows@ == r@.windows,
        call_ensures(plan::tiled_groups, (&windows,), groups),
        call_ensures(RestoreRun::poll, (&r,), action),
        at_step(r@, Step::InferDwindle) || at_step(r@, Step::InferMaster),
        0 <= k < groups@.len(),
    ensures
        at_step(r@, Step::InferDwindle) ==> action is InferDwindle,
        at_step(r@, Step::InferMaster) ==> action is InferMaster,
        ({
            let asked = if action is InferDwindle {
                action->InferDwindle_0@
            } else {
                action->InferMaster_0@
            };
            &&& asked.len() == groups@.len()
            &&& asked[k].workspace@ == groups@[k].workspace@
            &&& asked[k].indices@ == groups@[k].indices@
        }),
{
    let asked = if action is InferDwindle {
        action->InferDwindle_0@
    } else {
        action->InferMaster_0@
    };
    let a = plan::group_views(asked);
    let b = plan::group_views(groups@);
    assert(a == b);
    assert(a.len() == asked.len() && b.len() == groups@.len());
    assert(a[k] == asked[k]@ && b[k] == groups@[k]@);
}

/// A restore begins with nothing done, on the windows of the session.
pub proof fn begins_with_nothing_done(
    restore_layout: bool,
    engine: RestoreEngine,
    session: SessionFile,
    r: RestoreRun<'_>,
)
    requires
        call_ensures(RestoreEngine::new, (restore_layout,), engine),
        call_ensures(RestoreEngine::restore, (&engine, &session), r),
    ensures
        r@.windows == session.windows@,
        r@.todo == run::initial(session.windows@, restore_layout).todo,
        r@.dwindle.len() == 0,
        r@.master.len() == 0,
        r@.registered.len() == 0,
        r@.launched.len() == 0,
        r@.restored.len() == 0,
        r@.failed.len() == 0,
        r@.pending.len() == 0,
        r@.addresses.len() == 0,
        !r@.had_focus,
        !r@.ratios_applied,
        r@.stopped is None,
{
}

/// As many windows are said to be registered as the compositor has confirmed.
pub proof fn registrations_counted(r: RestoreRun<'_>, n: usize)
    requires
        call_ensures(RestoreRun::registered, (&r,), n),
    ensures
        n == r@.registered.len(),
{
}

/// A report that says nothing yet says that nothing was restored and nothing failed.
pub proof fn empty_report(report: RestoreReport)
    requires
        call_ensures(RestoreReport::default, (), report),
    ensures
        report.restored == 0,
        report.failed == 0,
        report.errors@.len() == 0,
{
}

/// The registration of a window is the same text wherever it is made; without a
/// monitor a dash stands for it.
pub proof fn registration_made(st: RunView, i: usize, request: String, none: &'static str)
    requires
        run::valid(st),
        at_step(st, Step::Expect(i)),
        call_ensures(restore::window_request, (&st.windows[i as int],), request),
        call_ensures(restore::no_monitor, (), none),
    ensures
        run::action_of(st) == ActionView::Send(request@),
        none@ == "-"@,
{
}

/// Only an answer to what was asked for is accepted: a text, or that it failed, for a
/// request; the list that was asked for, or that it failed; an event, or that time is
/// up, while a window is waited for; and that it is done, for anything else. Once the
/// restore is over, nothing is.
pub proof fn answers_accepted(r: RestoreRun<'_>, action: Action, reply: Reply, ok: bool)
    requires
        call_ensures(RestoreRun::poll, (&r,), action),
        call_ensures(RestoreRun::accepts, (&r, &reply), ok),
    ensures
        action is Send ==> ok == (reply is Text || reply is Failed),
        action is QueryMonitors ==> ok == (reply is Monitors || reply is Failed),
        action is QueryClients ==> ok == (reply is Clients || reply is Failed),
        action is AwaitOpen ==> ok == (reply is Event || reply is TimedOut),
        action is Sleep || action is Proceed ==> ok == (reply is Proceed),
        action is Done || action is Stop ==> !ok,
        action is InferDwindle ==> (ok ==> reply is DwindlePlans),
        action is InferMaster ==> (ok ==> reply is MasterPlans),
{
}

/// Dwindle plans are accepted if, and only if, there is an answer for each group and
/// no plan places a window that is not in the session.
pub proof fn dwindle_plans_accepted(
    r: RestoreRun<'_>,
    groups: Vec<TiledGroup>,
    plans: Vec<Option<DwindlePlan>>,
    ok: bool,
)
    requires
        call_ensures(RestoreRun::poll, (&r,), Action::InferDwindle(groups)),
        call_ensures(RestoreRun::accepts, (&r, &Reply::DwindlePlans(plans)), ok),
    ensures
        ok <==> plans@.len() == groups@.len() && forall|k: int, s: int|
            #![trigger plans@[k]->0.steps@[s]]
            0 <= k < plans@.len() && plans@[k] is Some && 0 <= s < plans@[k]->0.steps@.len()
                ==> plans@[k]->0.steps@[s].window_idx < r@.windows.len(),
{
    let n = r@.windows.len();
    assert(plan::group_views(groups@).len() == groups@.len());
    if ok {
        assert forall|k: int, s: int|
            #![trigger plans@[k]->0.steps@[s]]
            0 <= k < plans@.len() && plans@[k] is Some && 0 <= s
                < plans@[k]->0.steps@.len() implies plans@[k]->0.steps@[s].window_idx < n by {
            assert(run::dwindle_fits(plans@[k]->0, n));
        }
    }
}

/// Master plans are accepted if, and only if, there is an answer for each group and no
/// plan opens a window that is not in the session.
pub proof fn master_plans_accepted(
    r: RestoreRun<'_>,
    groups: Vec<TiledGroup>,
    plans: Vec<Option<MasterPlan>>,
    ok: bool,
)
    requires
        call_ensures(RestoreRun::poll, (&r,), Action::InferMaster(groups)),
        call_ensures(RestoreRun::accepts, (&r, &Reply::MasterPlans(plans)), ok),
    ensures
        ok <==> plans@.len() == groups@.len() && (forall|k: int, j: int|
            #![trigger plans@[k]->0.master_indices@[j]]
            0 <= k < plans@.len() && plans@[k] is Some && 0 <= j
                < plans@[k]->0.master_indices@.len() ==> plans@[k]->0.master_indices@[j]
                < r@.windows.len()) && (forall|k: int, j: int|
            #![trigger plans@[k]->0.stack_indices@[j]]
            0 <= k < plans@.len() && plans@[k] is Some && 0 <= j
                < plans@[k]->0.stack_indices@.len() ==> plans@[k]->0.stack_indices@[j]
                < r@.windows.len()),
{
    let n = r@.windows.len();
    assert(plan::group_views(groups@).len() == groups@.len());
    if ok {
        assert forall|k: int, j: int|
            #![trigger plans@[k]->0.master_indices@[j]]
            0 <= k < plans@.len() && plans@[k] is Some && 0 <= j
                < plans@[k]->0.master_indices@.len() implies plans@[k]->0.master_indices@[j]
            < n by {
            assert(run::master_fits(plans@[k]->0, n));
        }
        assert forall|k: int, j: int|
            #![trigger plans@[k]->0.stack_indices@[j]]
            0 <= k < plans@.len() && plans@[k] is Some && 0 <= j
                < plans@[k]->0.stack_indices@.len() implies plans@[k]->0.stack_indices@[j] < n by {
            assert(run::master_fits(plans@[k]->0, n));
        }
    }
}

/// The plans of a session are those that were inferred for its groups, each under the
/// workspace of its group; the windows of the other groups are left; and the floating
/// windows are listed apart.
pub proof fn plans_built(
    session: SessionFile,
    inferred: Vec<Option<DwindlePlan>>,
    groups: Vec<TiledGroup>,
    floating: Vec<usize>,
    r: (Vec<usize>, Vec<Planned<DwindlePlan>>, Vec<usize>),
    k: int,
)
    requires
        call_ensures(plan::tiled_groups, (&session.windows,), groups),
        call_ensures(plan::floating_windows, (&session.windows,), floating),
        inferred@.len() == groups@.len(),
        call_ensures(RestoreEngine::build_dwindle_plans, (&session, inferred), r),
        0 <= k < groups@.len(),
    ensures
        r.0@ == floating@,
        r.1@.len() == plan::plans_before(inferred@, inferred@.len() as int),
        inferred@[k] matches Some(found) ==> ({
            let at = plan::plans_before(inferred@, k) as int;
            at < r.1@.len() && r.1@[at].plan == found && r.1@[at].workspace@
                == groups@[k].workspace@
        }),
        inferred@[k] is None ==> forall|j: int|
            0 <= j < groups@[k].indices@.len() ==> r.2@.contains(
                #[trigger] groups@[k].indices@[j],
            ),
{
    let views = plan::group_views(groups@);
    assert(views[k] == groups@[k]@);
    plan::all_parted(views, inferred@);
    plan::group_parted(views, inferred@, k);
    if inferred@[k] is None {
        let at = plan::left_before(views, inferred@, k) as int;
        let part = r.2@.subrange(at, at + views[k].indices.len());
        assert forall|j: int| 0 <= j < groups@[k].indices@.len() implies r.2@.contains(
            #[trigger] groups@[k].indices@[j],
        ) by {
            assert(part[j] == r.2@[at + j]);
        }
    }
}

/// The same holds of master plans.
pub proof fn master_plans_built(
    session: SessionFile,
    inferred: Vec<Option<MasterPlan>>,
    groups: Vec<TiledGroup>,
    floating: Vec<usize>,
    r: (Vec<usize>, Vec<Planned<MasterPlan>>, Vec<usize>),
    k: int,
)
    requires
        call_ensures(plan::tiled_groups, (&session.windows,), groups),
        call_ensures(plan::floating_windows, (&session.windows,), floating),
        inferred@.len() == groups@.len(),
        call_ensures(RestoreEngine::build_master_plans, (&session, inferred), r),
        0 <= k < groups@.len(),
    ensures
        r.0@ == floating@,
        r.1@.len() == plan::plans_before(inferred@, inferred@.len() as int),
        inferred@[k] matches Some(found) ==> ({
            let at = plan::plans_before(inferred@, k) as int;
            at < r.1@.len() && r.1@[at].plan == found && r.1@[at].workspace@
                == groups@[k].workspace@
        }),
        inferred@[k] is None ==> forall|j: int|
            0 <= j < groups@[k].indices@.len() ==> r.2@.contains(
                #[trigger] groups@[k].indices@[j],
            ),
{
    let views = plan::group_views(groups@);
    assert(views[k] == groups@[k]@);
    plan::all_parted(views, inferred@);
    plan::group_parted(views, inferred@, k);
    if inferred@[k] is None {
        let at = plan::left_before(views, inferred@, k) as int;
        let part = r.2@.subrange(at, at + views[k].indices.len());
        assert forall|j: int| 0 <= j < groups@[k].indices@.len() implies r.2@.contains(
            #[trigger] groups@[k].indices@[j],
        ) by {
            assert(part[j] == r.2@[at + j]);
        }
    }
}

} // verus!
