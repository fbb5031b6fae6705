//! The course of a restore, step by step: what is asked for next, and what the
//! answer does to the steps that are left.
//!
//! A restore is a queue of steps. The step in front says what is to be done;
//! the answer to it removes the step, or replaces it by others.

use vstd::prelude::*;

use crate::models::{HyprClient, HyprEvent, WindowEntry};
use crate::plan::{DwindlePlan, GroupView, MasterPlan, Planned, TiledGroup};
use crate::{client, command, plan, text};

verus! {

broadcast use vstd::string::group_string_axioms;

/// How many seconds a window may take to appear.
pub const WINDOW_APPEAR_TIMEOUT: u64 = 15;

/// How many milliseconds the compositor gets to apply split ratios.
pub const RATIO_PAUSE: u64 = 30;

/// How many milliseconds the compositor gets to resize windows.
pub const RESIZE_PAUSE: u64 = 60;

/// How often tiled windows are resized at most.
pub const MAX_PASSES: usize = 4;

/// By how many pixels a tiled window may differ from its saved size.
pub const TOLERANCE: i64 = 6;

/// What else depends on a window that is launched.
#[derive(Debug, Clone, Copy, PartialEq, Eq, Structural)]
pub enum Role {
    /// Nothing.
    Plain,
    /// The window is part of a dwindle layout. Its process must be independent,
    /// and its address is needed later.
    Tiled,
    /// The window is promoted to the master area once it is there.
    ExtraMaster,
}

/// One step of a restore. Windows are named by their positions in the session,
/// plans by theirs in the list of plans.
#[derive(Debug, Clone, Copy, PartialEq, Eq, Structural)]
pub enum Step {
    /// Ask which monitors are connected.
    Monitors,
    /// Bind the workspace of a window to its monitor.
    Bind(usize),
    /// Ask whether windows may take the focus.
    FocusQuery,
    /// Forbid it.
    FocusOff,
    /// Ask whether the compositor supports expectations.
    Available,
    /// Begin to register them.
    Begin,
    /// Register a window.
    Expect(usize),
    /// End the registration.
    End,
    /// Ask for the active layout.
    Layout,
    /// Infer dwindle plans.
    InferDwindle,
    /// Infer master plans.
    InferMaster,
    /// Open a window at its place in a dwindle layout.
    Place { plan: usize, step: usize },
    /// Focus a window beside which another is to open.
    Focus(usize),
    /// Choose the side on which the next window opens.
    Preselect { plan: usize, step: usize },
    /// Go to the workspace of a dwindle plan.
    Workspace(usize),
    /// Launch a window.
    Launch { idx: usize, role: Role },
    /// Wait for a window to open.
    AwaitOpen { idx: usize, role: Role },
    /// Promote the focused window to the master area.
    AddMaster,
    /// Focus the window at a split.
    RatioFocus { plan: usize, step: usize },
    /// Set the ratio of that split.
    RatioSet { plan: usize, step: usize },
    /// Let the ratios take effect.
    RatioSettle,
    /// Compare the size of a tiled window with its saved size. `at` is the
    /// position among the windows that have appeared; `ok` says that all those
    /// before it have had their sizes.
    Converge { pass: usize, at: usize, ok: bool },
    /// Resize that window.
    Resize { pass: usize, at: usize, dw: i64, dh: i64 },
    /// Make the windows from the given position on fullscreen that were so.
    Fullscreen(usize),
    /// Set the share of the master area.
    Mfact(usize),
    /// Go to the workspace of a master plan.
    MasterWorkspace(usize),
    /// Set the orientation of the master layout.
    Orientation(usize),
    /// Allow windows to take the focus again.
    FocusOn,
    /// End the restore if no window is missing.
    Finish,
}

/// Why a restore was given up.
#[derive(Debug, Clone, Copy, PartialEq, Eq, Structural)]
pub enum RestoreError {
    /// The compositor does not support expectations.
    Unsupported,
    /// It refused to begin their registration.
    BeginFailed,
    /// It refused to end their registration.
    EndFailed,
    /// A request that the restore depends on could not be sent.
    Ipc,
}

impl RestoreError {
    /// The error for people to read, unless it is that of the request that could
    /// not be sent.
    pub fn message(&self) -> (r: Option<String>)
        ensures
            text::opt_view(r) == match *self {
                RestoreError::Unsupported => Some(
                    "compositor does not support sessionctl — cannot restore session"@,
                ),
                RestoreError::BeginFailed => Some("sessionctl begin failed"@),
                RestoreError::EndFailed => Some("sessionctl end failed"@),
                RestoreError::Ipc => None,
            },
    {
        match self {
            RestoreError::Unsupported => Some(
                "compositor does not support sessionctl — cannot restore session".to_owned(),
            ),
            RestoreError::BeginFailed => Some("sessionctl begin failed".to_owned()),
            RestoreError::EndFailed => Some("sessionctl end failed".to_owned()),
            RestoreError::Ipc => None,
        }
    }
}

/// What is to be done next.
pub enum Action {
    /// Send a request and report the text of the reply.
    Send(String),
    /// Report the names of the connected monitors.
    QueryMonitors,
    /// Report all windows.
    QueryClients,
    /// Infer a dwindle plan for each group.
    InferDwindle(Vec<TiledGroup>),
    /// Infer a master plan for each group.
    InferMaster(Vec<TiledGroup>),
    /// Report the next event of the compositor, or that the given number of
    /// seconds has passed since this action was first asked for.
    AwaitOpen(String, u64),
    /// Wait for the given number of milliseconds.
    Sleep(u64),
    /// Nothing.
    Proceed,
    /// The restore is over.
    Done,
    /// The restore was given up.
    Stop(RestoreError),
}

/// The contents of an `Action`.
pub enum ActionView {
    Send(Seq<char>),
    QueryMonitors,
    QueryClients,
    InferDwindle(Seq<GroupView>),
    InferMaster(Seq<GroupView>),
    AwaitOpen(Seq<char>, u64),
    Sleep(u64),
    Proceed,
    Done,
    Stop(RestoreError),
}

impl View for Action {
    type V = ActionView;

    open spec fn view(&self) -> ActionView {
        match self {
            Action::Send(request) => ActionView::Send(request@),
            Action::QueryMonitors => ActionView::QueryMonitors,
            Action::QueryClients => ActionView::QueryClients,
            Action::InferDwindle(groups) => ActionView::InferDwindle(plan::group_views(groups@)),
            Action::InferMaster(groups) => ActionView::InferMaster(plan::group_views(groups@)),
            Action::AwaitOpen(app_id, seconds) => ActionView::AwaitOpen(app_id@, *seconds),
            Action::Sleep(millis) => ActionView::Sleep(*millis),
            Action::Proceed => ActionView::Proceed,
            Action::Done => ActionView::Done,
            Action::Stop(error) => ActionView::Stop(*error),
        }
    }
}

/// The answer to an action.
pub enum Reply {
    /// The text that came back.
    Text(String),
    /// The request failed.
    Failed,
    /// The names of the connected monitors.
    Monitors(Vec<String>),
    /// All windows.
    Clients(Vec<HyprClient>),
    /// What was inferred for each group.
    DwindlePlans(Vec<Option<DwindlePlan>>),
    /// What was inferred for each group.
    MasterPlans(Vec<Option<MasterPlan>>),
    /// An event of the compositor.
    Event(HyprEvent),
    /// The time is up, or there will be no more events.
    TimedOut,
    /// It is done.
    Proceed,
}

/// The state of a restore.
#[verifier::ext_equal]
pub struct RunView {
    pub windows: Seq<WindowEntry>,
    /// The steps that are left.
    pub todo: Seq<Step>,
    pub dwindle: Seq<Planned<DwindlePlan>>,
    pub master: Seq<Planned<MasterPlan>>,
    /// The windows that the compositor expects.
    pub registered: Seq<usize>,
    /// The windows whose commands were handed over for execution, or refused.
    pub launched: Seq<usize>,
    /// The windows that were launched, or whose command had been before.
    pub restored: Seq<usize>,
    /// The windows that could not be launched.
    pub failed: Seq<usize>,
    /// The windows that did not appear in time.
    pub pending: Seq<usize>,
    /// The addresses of the tiled windows that appeared.
    pub addresses: Seq<(usize, String)>,
    /// Windows could take the focus before.
    pub had_focus: bool,
    /// A split ratio was applied.
    pub ratios_applied: bool,
    pub stopped: Option<RestoreError>,
}

// ---------------------------------------------------------------------------
// Texts
// ---------------------------------------------------------------------------

/// The name that is sent for the monitor of a window that was saved without one.
/// No monitor has it. Fields are set apart by blanks, so that an empty one would
/// be no field at all, and the window would be refused.
pub open spec fn no_monitor() -> Seq<char> {
    "-"@
}

/// The name that is sent for the monitor of a window.
pub open spec fn monitor_sent(w: WindowEntry) -> Seq<char> {
    match w.monitor {
        Some(m) => if text::words(m@).len() > 0 {
            m@
        } else {
            no_monitor()
        },
        None => no_monitor(),
    }
}

/// The fields of the request that registers a window.
pub open spec fn window_fields(w: WindowEntry) -> Seq<Seq<char>> {
    let pos: (i32, i32) = match w.position {
        Some(p) => p,
        None => (0i32, 0i32),
    };
    let size: (i32, i32) = match w.size {
        Some(s) => s,
        None => (0i32, 0i32),
    };
    client::expect_fields(
        w.app_id@,
        w.workspace@,
        monitor_sent(w),
        w.floating,
        w.fullscreen,
        false,
        pos.0 as int,
        pos.1 as int,
        size.0 as int,
        size.1 as int,
    )
}

/// The request that executes the command of a window.
pub open spec fn exec_text(w: WindowEntry, role: Role) -> Seq<char> {
    client::dispatch_text(
        "exec "@ + if role == Role::Tiled {
            command::independent_text(w)
        } else {
            command::launch_text(w)
        },
    )
}

/// The request that focuses the window at an address.
pub open spec fn focus_text(address: Seq<char>) -> Seq<char> {
    client::dispatch_text("focuswindow address:0x"@ + address)
}

/// The request that resizes the window at an address.
pub open spec fn resize_text(dw: int, dh: int, address: Seq<char>) -> Seq<char> {
    client::dispatch_text(
        "resizewindowpixel "@ + text::signed_decimal(dw) + " "@ + text::signed_decimal(dh) + ",address:0x"@
            + address,
    )
}

// ---------------------------------------------------------------------------
// Addresses and launches
// ---------------------------------------------------------------------------

/// The position of the address of the window `idx`, or the number of addresses.
pub open spec fn address_index(addresses: Seq<(usize, String)>, idx: usize) -> nat
    decreases addresses.len(),
{
    if addresses.len() == 0 || addresses[0].0 == idx {
        0
    } else {
        1 + address_index(addresses.drop_first(), idx)
    }
}

/// The address of the window `idx`, if it is known.
pub open spec fn address_of(addresses: Seq<(usize, String)>, idx: usize) -> Option<String> {
    let i = address_index(addresses, idx) as int;
    if i < addresses.len() {
        Some(addresses[i].1)
    } else {
        None
    }
}

/// `addresses` with `address` as the one of the window `idx`.
pub open spec fn with_address(
    addresses: Seq<(usize, String)>,
    idx: usize,
    address: String,
) -> Seq<(usize, String)> {
    let i = address_index(addresses, idx) as int;
    if i < addresses.len() {
        addresses.update(i, (idx, address))
    } else {
        addresses.push((idx, address))
    }
}

/// One of the windows `launched` has the launch command `cmd`.
pub open spec fn is_launched(
    windows: Seq<WindowEntry>,
    launched: Seq<usize>,
    cmd: Seq<char>,
) -> bool {
    exists|k: int|
        0 <= k < launched.len() && windows[#[trigger] launched[k] as int].launch_cmd@ == cmd
}

// ---------------------------------------------------------------------------
// Plans as steps
// ---------------------------------------------------------------------------

/// The positions of `n` windows, in order.
pub open spec fn all_indices(n: nat) -> Seq<usize> {
    Seq::new(n, |i: int| i as usize)
}

/// The steps that launch the windows `indices`, in order.
pub open spec fn launches(indices: Seq<usize>, role: Role) -> Seq<Step> {
    indices.map_values(|i: usize| Step::Launch { idx: i, role })
}

/// The steps that bind workspaces to monitors.
pub open spec fn bind_steps(windows: Seq<WindowEntry>, available: Seq<Seq<char>>) -> Seq<Step> {
    plan::bindings(windows, available, windows.len()).map_values(|i: usize| Step::Bind(i))
}

/// The steps that register the first `n` windows.
pub open spec fn expect_steps(n: nat) -> Seq<Step> {
    Seq::new(n, |i: int| Step::Expect(i as usize))
}

/// The steps that open the windows of the first `n` dwindle plans.
pub open spec fn place_steps(plans: Seq<Planned<DwindlePlan>>, n: nat) -> Seq<Step>
    decreases n,
{
    if n == 0 {
        Seq::empty()
    } else {
        place_steps(plans, (n - 1) as nat) + Seq::new(
            plans[n - 1].plan.steps@.len(),
            |s: int| Step::Place { plan: (n - 1) as usize, step: s as usize },
        )
    }
}

/// The steps that set the split ratios of the first `n` dwindle plans.
pub open spec fn ratio_steps(plans: Seq<Planned<DwindlePlan>>, n: nat) -> Seq<Step>
    decreases n,
{
    if n == 0 {
        Seq::empty()
    } else {
        ratio_steps(plans, (n - 1) as nat) + Seq::new(
            plans[n - 1].plan.ratio_steps@.len(),
            |s: int| Step::RatioFocus { plan: (n - 1) as usize, step: s as usize },
        )
    }
}

/// The steps of a restore by dwindle plans: all windows of the plans, then their
/// ratios and sizes, then the windows without a plan, then the floating ones.
pub open spec fn dwindle_steps(
    plans: Seq<Planned<DwindlePlan>>,
    fallback: Seq<usize>,
    floating: Seq<usize>,
) -> Seq<Step> {
    place_steps(plans, plans.len()) + ratio_steps(plans, plans.len()) + seq![
        Step::RatioSettle,
        Step::Converge { pass: 0, at: 0, ok: true },
        Step::Fullscreen(0),
    ] + launches(fallback, Role::Plain) + launches(floating, Role::Plain)
}

/// The steps that open the master windows of a plan: all but the first have to
/// be promoted.
pub open spec fn master_launches(indices: Seq<usize>) -> Seq<Step> {
    Seq::new(
        indices.len(),
        |j: int|
            Step::Launch {
                idx: indices[j],
                role: if j == 0 {
                    Role::Plain
                } else {
                    Role::ExtraMaster
                },
            },
    )
}

/// The steps of one master plan.
pub open spec fn master_plan_steps(plan: MasterPlan, k: usize) -> Seq<Step> {
    seq![Step::Mfact(k), Step::MasterWorkspace(k), Step::Orientation(k)] + master_launches(
        plan.master_indices@,
    ) + launches(plan.stack_indices@, Role::Plain)
}

/// The steps of the first `n` master plans.
pub open spec fn master_plans_steps(plans: Seq<Planned<MasterPlan>>, n: nat) -> Seq<Step>
    decreases n,
{
    if n == 0 {
        Seq::empty()
    } else {
        master_plans_steps(plans, (n - 1) as nat) + master_plan_steps(
            plans[n - 1].plan,
            (n - 1) as usize,
        )
    }
}

/// The steps of a restore by master plans: the workspaces of the plans one after
/// the other, then the windows without a plan, then the floating ones.
pub open spec fn master_steps(
    plans: Seq<Planned<MasterPlan>>,
    fallback: Seq<usize>,
    floating: Seq<usize>,
) -> Seq<Step> {
    master_plans_steps(plans, plans.len()) + launches(fallback, Role::Plain) + launches(
        floating,
        Role::Plain,
    )
}

/// The steps of a whole restore, before any of them is taken.
pub open spec fn initial_steps(n: nat, restore_layout: bool) -> Seq<Step> {
    seq![Step::Monitors, Step::FocusQuery, Step::Available, Step::Begin] + expect_steps(n)
        + seq![Step::End] + (if restore_layout {
        seq![Step::Layout]
    } else {
        launches(all_indices(n), Role::Plain)
    }) + seq![Step::FocusOn, Step::Finish]
}

/// The state in which the restore of `windows` begins.
pub open spec fn initial(windows: Seq<WindowEntry>, restore_layout: bool) -> RunView {
    RunView {
        windows,
        todo: initial_steps(windows.len(), restore_layout),
        dwindle: Seq::empty(),
        master: Seq::empty(),
        registered: Seq::empty(),
        launched: Seq::empty(),
        restored: Seq::empty(),
        failed: Seq::empty(),
        pending: Seq::empty(),
        addresses: Seq::empty(),
        had_focus: false,
        ratios_applied: false,
        stopped: None,
    }
}

// ---------------------------------------------------------------------------
// Actions
// ---------------------------------------------------------------------------

/// What the step `step` asks for.
pub open spec fn step_action(st: RunView, step: Step) -> ActionView {
    match step {
        Step::Monitors => ActionView::QueryMonitors,
        Step::Bind(i) => ActionView::Send(client::keyword_text(plan::bind_text(st.windows[i as int]))),
        Step::FocusQuery => ActionView::Send(client::option_text("misc:focus_on_activate"@)),
        Step::FocusOff => ActionView::Send(client::keyword_text("misc:focus_on_activate false"@)),
        Step::Available => ActionView::Send("sessionctl status"@),
        Step::Begin => ActionView::Send("sessionctl begin"@),
        Step::Expect(i) => ActionView::Send(client::expect_text(window_fields(st.windows[i as int]))),
        Step::End => ActionView::Send("sessionctl end"@),
        Step::Layout => ActionView::Send(client::option_text("general:layout"@)),
        Step::InferDwindle => ActionView::InferDwindle(plan::groups_of(st.windows)),
        Step::InferMaster => ActionView::InferMaster(plan::groups_of(st.windows)),
        Step::Place { plan, step } => ActionView::Proceed,
        Step::Focus(i) => match address_of(st.addresses, i) {
            Some(address) => ActionView::Send(focus_text(address@)),
            None => ActionView::Proceed,
        },
        Step::Preselect { plan, step } => match st.dwindle[plan as int].plan.steps@[step as int].preselect {
            Some(side) => ActionView::Send(client::dispatch_text("layoutmsg preselect "@ + side@)),
            None => ActionView::Proceed,
        },
        Step::Workspace(k) => ActionView::Send(
            client::dispatch_text("workspace "@ + st.dwindle[k as int].workspace@),
        ),
        Step::Launch { idx, role } => if is_launched(
            st.windows,
            st.launched,
            st.windows[idx as int].launch_cmd@,
        ) {
            ActionView::Proceed
        } else {
            ActionView::Send(exec_text(st.windows[idx as int], role))
        },
        Step::AwaitOpen { idx, role } => ActionView::AwaitOpen(
            st.windows[idx as int].app_id@,
            WINDOW_APPEAR_TIMEOUT,
        ),
        Step::AddMaster => ActionView::Send(client::dispatch_text("layoutmsg addmaster"@)),
        Step::RatioFocus { plan, step } => match address_of(
            st.addresses,
            st.dwindle[plan as int].plan.ratio_steps@[step as int].focus_window_idx,
        ) {
            Some(address) => ActionView::Send(focus_text(address@)),
            None => ActionView::Proceed,
        },
        Step::RatioSet { plan, step } => ActionView::Send(
            client::dispatch_text(
                "layoutmsg splitratio "@
                    + st.dwindle[plan as int].plan.ratio_steps@[step as int].delta@,
            ),
        ),
        Step::RatioSettle => if st.ratios_applied {
            ActionView::Sleep(RATIO_PAUSE)
        } else {
            ActionView::Proceed
        },
        Step::Converge { pass, at, ok } => if at < st.addresses.len() {
            if st.windows[st.addresses[at as int].0 as int].size is Some {
                ActionView::QueryClients
            } else {
                ActionView::Proceed
            }
        } else if ok {
            ActionView::Proceed
        } else {
            ActionView::Sleep(RESIZE_PAUSE)
        },
        Step::Resize { pass, at, dw, dh } => ActionView::Send(
            resize_text(dw as int, dh as int, st.addresses[at as int].1@),
        ),
        Step::Fullscreen(at) => if at < st.addresses.len()
            && st.windows[st.addresses[at as int].0 as int].fullscreen {
            ActionView::Send(
                client::dispatch_text("fullscreen 0,address:0x"@ + st.addresses[at as int].1@),
            )
        } else {
            ActionView::Proceed
        },
        Step::Mfact(k) => ActionView::Send(
            client::keyword_text("master:mfact "@ + st.master[k as int].plan.mfact@),
        ),
        Step::MasterWorkspace(k) => ActionView::Send(
            client::dispatch_text("workspace "@ + st.master[k as int].workspace@),
        ),
        Step::Orientation(k) => ActionView::Send(
            client::dispatch_text("layoutmsg orientation"@ + st.master[k as int].plan.orientation@),
        ),
        Step::FocusOn => if st.had_focus {
            ActionView::Send(client::keyword_text("misc:focus_on_activate true"@))
        } else {
            ActionView::Proceed
        },
        Step::Finish => if st.pending.len() == 0 {
            ActionView::Send("sessionctl finish"@)
        } else {
            ActionView::Proceed
        },
    }
}

/// What is to be done in the state `st`.
pub open spec fn action_of(st: RunView) -> ActionView {
    match st.stopped {
        Some(error) => ActionView::Stop(error),
        None => if st.todo.len() == 0 {
            ActionView::Done
        } else {
            step_action(st, st.todo[0])
        },
    }
}

/// The plan names windows of a session of `n`.
pub open spec fn dwindle_fits(plan: DwindlePlan, n: nat) -> bool {
    forall|s: int| 0 <= s < plan.steps@.len() ==> (#[trigger] plan.steps@[s]).window_idx < n
}

/// The plan names windows of a session of `n`.
pub open spec fn master_fits(plan: MasterPlan, n: nat) -> bool {
    &&& forall|j: int|
        0 <= j < plan.master_indices@.len() ==> #[trigger] plan.master_indices@[j] < n
    &&& forall|j: int|
        0 <= j < plan.stack_indices@.len() ==> #[trigger] plan.stack_indices@[j] < n
}

/// `reply` is an answer to `action` in a session of `n` windows.
pub open spec fn answers(action: ActionView, reply: Reply, n: nat) -> bool {
    match action {
        ActionView::Send(_) => reply is Text || reply is Failed,
        ActionView::QueryMonitors => reply is Monitors || reply is Failed,
        ActionView::QueryClients => reply is Clients || reply is Failed,
        ActionView::InferDwindle(groups) => reply matches Reply::DwindlePlans(plans)
            && plans@.len() == groups.len() && forall|k: int|
            0 <= k < plans@.len() && (#[trigger] plans@[k]) is Some ==> dwindle_fits(
                plans@[k]->0,
                n,
            ),
        ActionView::InferMaster(groups) => reply matches Reply::MasterPlans(plans)
            && plans@.len() == groups.len() && forall|k: int|
            0 <= k < plans@.len() && (#[trigger] plans@[k]) is Some ==> master_fits(
                plans@[k]->0,
                n,
            ),
        ActionView::AwaitOpen(_, _) => reply is Event || reply is TimedOut,
        ActionView::Sleep(_) => reply is Proceed,
        ActionView::Proceed => reply is Proceed,
        ActionView::Done => false,
        ActionView::Stop(_) => false,
    }
}

// ---------------------------------------------------------------------------
// Answers
// ---------------------------------------------------------------------------

/// `st` with other steps left.
pub open spec fn go_on(st: RunView, todo: Seq<Step>) -> RunView {
    RunView { todo, ..st }
}

/// `st`, given up.
pub open spec fn give_up(st: RunView, error: RestoreError) -> RunView {
    RunView { todo: Seq::empty(), stopped: Some(error), ..st }
}

/// The reply is a text with which the compositor confirms a request.
pub open spec fn confirms(reply: Reply) -> bool {
    reply matches Reply::Text(text) && client::reply_is_ok(text@)
}

/// The reply names the active layout; a reply without a name has the empty one.
pub open spec fn layout_of(reply: Reply) -> Seq<char> {
    match reply {
        Reply::Text(text) => match client::str_value(text@) {
            Some(name) => name,
            None => Seq::empty(),
        },
        _ => Seq::empty(),
    }
}

/// The steps of a restore under the layout `layout`.
pub open spec fn layout_steps(layout: Seq<char>, n: nat) -> Seq<Step> {
    if layout == "dwindle"@ {
        seq![Step::InferDwindle]
    } else if layout == "master"@ {
        seq![Step::InferMaster]
    } else {
        launches(all_indices(n), Role::Plain)
    }
}

/// The steps that open the window of a step of a dwindle plan: beside the window
/// that it is to split, if that one has appeared; the first window of a plan
/// otherwise opens on the plan's workspace.
pub open spec fn placement_steps(st: RunView, plan: usize, step: usize) -> Seq<Step> {
    let place = st.dwindle[plan as int].plan.steps@[step as int];
    let launch = Step::Launch { idx: place.window_idx, role: Role::Tiled };
    if place.focus_idx is Some && place.preselect is Some && address_of(
        st.addresses,
        place.focus_idx->0,
    ) is Some {
        seq![Step::Focus(place.focus_idx->0), Step::Preselect { plan, step }, launch]
    } else if step == 0 {
        seq![Step::Workspace(plan), launch]
    } else {
        seq![launch]
    }
}

/// What follows once the window `idx` is launched, whether it has appeared or
/// not.
pub open spec fn after_launch(role: Role, rest: Seq<Step>) -> Seq<Step> {
    if role == Role::ExtraMaster {
        seq![Step::AddMaster] + rest
    } else {
        rest
    }
}

/// The window `idx` has appeared at `address`.
pub open spec fn appeared(
    st: RunView,
    idx: usize,
    role: Role,
    address: String,
    rest: Seq<Step>,
) -> RunView {
    RunView {
        todo: after_launch(role, rest),
        restored: st.restored.push(idx),
        addresses: if role == Role::Tiled {
            with_address(st.addresses, idx, address)
        } else {
            st.addresses
        },
        ..st
    }
}

/// The window `idx` has not appeared in time.
pub open spec fn missed(st: RunView, idx: usize, role: Role, rest: Seq<Step>) -> RunView {
    RunView {
        todo: after_launch(role, rest),
        restored: st.restored.push(idx),
        pending: st.pending.push(idx),
        ..st
    }
}

/// The size differs from `saved` by more than is tolerated.
pub open spec fn off_size(saved: (i32, i32), size: (i32, i32)) -> bool {
    let dw = saved.0 - size.0;
    let dh = saved.1 - size.1;
    dw > TOLERANCE || -dw > TOLERANCE || dh > TOLERANCE || -dh > TOLERANCE
}

/// What follows once the window at `at` was compared: it is resized if the
/// reply shows it with a wrong size.
pub open spec fn compared(st: RunView, pass: usize, at: usize, ok: bool, reply: Reply) -> Step {
    let next = Step::Converge { pass, at: (at + 1) as usize, ok };
    let idx = st.addresses[at as int].0;
    match (st.windows[idx as int].size, reply) {
        (Some(saved), Reply::Clients(clients)) => match client::client_at(
            clients@,
            st.addresses[at as int].1@,
        ) {
            Some(client) => if off_size(saved, client.size) {
                Step::Resize {
                    pass,
                    at,
                    dw: (saved.0 - client.size.0) as i64,
                    dh: (saved.1 - client.size.1) as i64,
                }
            } else {
                next
            },
            None => next,
        },
        _ => next,
    }
}

/// What `reply` does when `st.todo[0]` is the step that it answers.
pub open spec fn react(st: RunView, reply: Reply) -> RunView {
    let rest = st.todo.drop_first();
    match st.todo[0] {
        Step::Monitors => match reply {
            Reply::Monitors(names) => go_on(st, bind_steps(st.windows, text::views(names@)) + rest),
            _ => go_on(st, rest),
        },
        Step::FocusQuery => {
            let had = reply matches Reply::Text(text) ==> client::reply_is_set(text@);
            RunView {
                had_focus: had,
                todo: if had {
                    seq![Step::FocusOff] + rest
                } else {
                    rest
                },
                ..st
            }
        },
        Step::Available => if reply matches Reply::Text(text) && client::reply_is_known(text@) {
            go_on(st, rest)
        } else {
            give_up(st, RestoreError::Unsupported)
        },
        Step::Begin => if confirms(reply) {
            go_on(st, rest)
        } else {
            give_up(st, RestoreError::BeginFailed)
        },
        Step::Expect(i) => RunView {
            todo: rest,
            registered: if confirms(reply) {
                st.registered.push(i)
            } else {
                st.registered
            },
            ..st
        },
        Step::End => if confirms(reply) {
            go_on(st, rest)
        } else {
            give_up(st, RestoreError::EndFailed)
        },
        Step::Layout => go_on(st, layout_steps(layout_of(reply), st.windows.len()) + rest),
        Step::InferDwindle => {
            let groups = plan::groups_of(st.windows);
            let plans = plan::planned(groups, reply->DwindlePlans_0@);
            RunView {
                dwindle: plans,
                todo: dwindle_steps(
                    plans,
                    plan::unplanned(groups, reply->DwindlePlans_0@),
                    plan::floating_of(st.windows),
                ) + rest,
                ..st
            }
        },
        Step::InferMaster => {
            let groups = plan::groups_of(st.windows);
            let plans = plan::planned(groups, reply->MasterPlans_0@);
            RunView {
                master: plans,
                todo: master_steps(
                    plans,
                    plan::unplanned(groups, reply->MasterPlans_0@),
                    plan::floating_of(st.windows),
                ) + rest,
                ..st
            }
        },
        Step::Place { plan, step } => go_on(st, placement_steps(st, plan, step) + rest),
        Step::Focus(_) | Step::Preselect { .. } | Step::Workspace(_) | Step::MasterWorkspace(
            _,
        ) => if reply is Failed {
            give_up(st, RestoreError::Ipc)
        } else {
            go_on(st, rest)
        },
        Step::Launch { idx, role } => {
            let wait = seq![Step::AwaitOpen { idx, role }] + rest;
            match reply {
                Reply::Text(_) => RunView { todo: wait, launched: st.launched.push(idx), ..st },
                Reply::Failed => RunView {
                    todo: rest,
                    launched: st.launched.push(idx),
                    failed: st.failed.push(idx),
                    ..st
                },
                _ => go_on(st, wait),
            }
        },
        Step::AwaitOpen { idx, role } => match reply {
            Reply::Event(HyprEvent::OpenWindow { address, class, .. }) => if class@
                == st.windows[idx as int].app_id@ {
                appeared(st, idx, role, address, rest)
            } else {
                st
            },
            Reply::Event(_) => st,
            _ => missed(st, idx, role, rest),
        },
        Step::RatioFocus { plan, step } => if reply is Text {
            go_on(st, seq![Step::RatioSet { plan, step }] + rest)
        } else {
            go_on(st, rest)
        },
        Step::RatioSet { .. } => RunView {
            todo: rest,
            ratios_applied: st.ratios_applied || confirms(reply),
            ..st
        },
        Step::Converge { pass, at, ok } => if at < st.addresses.len() {
            go_on(st, seq![compared(st, pass, at, ok, reply)] + rest)
        } else if !ok && pass + 1 < MAX_PASSES {
            go_on(
                st,
                seq![Step::Converge { pass: (pass + 1) as usize, at: 0, ok: true }] + rest,
            )
        } else {
            go_on(st, rest)
        },
        Step::Resize { pass, at, .. } => go_on(
            st,
            seq![Step::Converge { pass, at: (at + 1) as usize, ok: false }] + rest,
        ),
        Step::Fullscreen(at) => if reply is Failed {
            give_up(st, RestoreError::Ipc)
        } else if at < st.addresses.len() {
            go_on(st, seq![Step::Fullscreen((at + 1) as usize)] + rest)
        } else {
            go_on(st, rest)
        },
        Step::Bind(_) | Step::FocusOff | Step::AddMaster | Step::RatioSettle | Step::Mfact(_)
        | Step::Orientation(_) | Step::FocusOn | Step::Finish => go_on(st, rest),
    }
}

/// The application and the error of each window that could not be launched.
pub open spec fn errors_of(st: RunView) -> Seq<(Seq<char>, Seq<char>)> {
    st.failed.map_values(
        |i: usize|
            (
                st.windows[i as int].app_id@,
                "launching "@ + st.windows[i as int].launch_cmd@,
            ),
    )
}

/// The applications of the windows that have not appeared.
pub open spec fn pending_apps(st: RunView) -> Seq<Seq<char>> {
    st.pending.map_values(|i: usize| st.windows[i as int].app_id@)
}

// ---------------------------------------------------------------------------
// Validity
// ---------------------------------------------------------------------------

/// The step leads to plans that are still to be inferred.
pub open spec fn awaits_plans(step: Step) -> bool {
    step is Layout || step is InferDwindle || step is InferMaster
}

/// The step names a plan.
pub open spec fn names_plan(step: Step) -> bool {
    step is Place || step is Preselect || step is Workspace || step is RatioFocus
        || step is RatioSet || step is Mfact || step is MasterWorkspace || step is Orientation
}

/// What the step names exists.
pub open spec fn step_valid(st: RunView, step: Step) -> bool {
    match step {
        Step::Bind(i) => i < st.windows.len(),
        Step::Expect(i) => i < st.windows.len(),
        Step::Launch { idx, .. } => idx < st.windows.len(),
        Step::AwaitOpen { idx, .. } => idx < st.windows.len(),
        Step::Place { plan, step } => plan < st.dwindle.len() && step
            < st.dwindle[plan as int].plan.steps@.len(),
        Step::Preselect { plan, step } => plan < st.dwindle.len() && step
            < st.dwindle[plan as int].plan.steps@.len(),
        Step::Workspace(k) => k < st.dwindle.len(),
        Step::RatioFocus { plan, step } => plan < st.dwindle.len() && step
            < st.dwindle[plan as int].plan.ratio_steps@.len(),
        Step::RatioSet { plan, step } => plan < st.dwindle.len() && step
            < st.dwindle[plan as int].plan.ratio_steps@.len(),
        Step::Converge { pass, .. } => pass < MAX_PASSES,
        Step::Resize { pass, at, .. } => pass < MAX_PASSES && at < st.addresses.len(),
        Step::Mfact(k) => k < st.master.len(),
        Step::MasterWorkspace(k) => k < st.master.len(),
        Step::Orientation(k) => k < st.master.len(),
        _ => true,
    }
}

/// All of `indices` are positions among `n` windows.
pub open spec fn within(indices: Seq<usize>, n: nat) -> bool {
    forall|k: int| 0 <= k < indices.len() ==> #[trigger] indices[k] < n
}

/// The state of a restore that is under way: all that it names exists, and
/// while plans are still to be inferred no step names one.
pub open spec fn valid(st: RunView) -> bool {
    &&& st.windows.len() <= usize::MAX
    &&& forall|k: int| 0 <= k < st.todo.len() ==> step_valid(st, #[trigger] st.todo[k])
    &&& forall|k: int, j: int|
        0 <= k < st.todo.len() && 0 <= j < st.todo.len() && j != k && awaits_plans(
            #[trigger] st.todo[k],
        ) ==> !awaits_plans(#[trigger] st.todo[j]) && !names_plan(st.todo[j])
    &&& forall|k: int|
        0 <= k < st.dwindle.len() ==> dwindle_fits(
            (#[trigger] st.dwindle[k]).plan,
            st.windows.len(),
        )
    &&& forall|k: int|
        0 <= k < st.addresses.len() ==> (#[trigger] st.addresses[k]).0 < st.windows.len()
    &&& within(st.registered, st.windows.len())
    &&& within(st.launched, st.windows.len())
    &&& within(st.restored, st.windows.len())
    &&& within(st.failed, st.windows.len())
    &&& within(st.pending, st.windows.len())
}

/// Replacing the step in front by `steps` keeps the state valid, if `steps` are
/// valid and plans are named only where they are known.
proof fn splice_valid(st: RunView, next: RunView, steps: Seq<Step>)
    requires
        valid(st),
        st.todo.len() > 0,
        next.windows == st.windows,
        next.todo == steps + st.todo.drop_first(),
        forall|k: int| 0 <= k < steps.len() ==> step_valid(next, #[trigger] steps[k]),
        (next.dwindle == st.dwindle && next.master == st.master) || awaits_plans(st.todo[0]),
        next.addresses.len() >= st.addresses.len(),
        awaits_plans(st.todo[0]) || forall|k: int|
            0 <= k < steps.len() ==> !awaits_plans(#[trigger] steps[k]),
        awaits_plans(st.todo[0]) || names_plan(st.todo[0]) || forall|k: int|
            0 <= k < steps.len() ==> !names_plan(#[trigger] steps[k]),
        forall|k: int, j: int|
            0 <= k < steps.len() && 0 <= j < steps.len() && j != k && awaits_plans(
                #[trigger] steps[k],
            ) ==> !awaits_plans(#[trigger] steps[j]) && !names_plan(steps[j]),
        forall|k: int|
            0 <= k < next.dwindle.len() ==> dwindle_fits(
                (#[trigger] next.dwindle[k]).plan,
                next.windows.len(),
            ),
        forall|k: int|
            0 <= k < next.addresses.len() ==> (#[trigger] next.addresses[k]).0
                < next.windows.len(),
        within(next.registered, next.windows.len()),
        within(next.launched, next.windows.len()),
        within(next.restored, next.windows.len()),
        within(next.failed, next.windows.len()),
        within(next.pending, next.windows.len()),
    ensures
        valid(next),
{
    let n = steps.len() as int;
    assert forall|k: int| 0 <= k < next.todo.len() implies step_valid(
        next,
        #[trigger] next.todo[k],
    ) by {
        if k < n {
            assert(next.todo[k] == steps[k]);
        } else {
            assert(next.todo[k] == st.todo[k - n + 1]);
            assert(step_valid(st, st.todo[k - n + 1]));
            if awaits_plans(st.todo[0]) {
                assert(!names_plan(st.todo[k - n + 1]));
            }
        }
    }
    assert forall|k: int, j: int|
        0 <= k < next.todo.len() && 0 <= j < next.todo.len() && j != k && awaits_plans(
            #[trigger] next.todo[k],
        ) implies !awaits_plans(#[trigger] next.todo[j]) && !names_plan(next.todo[j]) by {
        if k < n {
            assert(next.todo[k] == steps[k]);
            if j < n {
                assert(next.todo[j] == steps[j]);
            } else {
                assert(next.todo[j] == st.todo[j - n + 1]);
                assert(awaits_plans(st.todo[0]));
            }
        } else {
            assert(next.todo[k] == st.todo[k - n + 1]);
            assert(!awaits_plans(st.todo[0]) && !names_plan(st.todo[0]));
            if j < n {
                assert(next.todo[j] == steps[j]);
            } else {
                assert(next.todo[j] == st.todo[j - n + 1]);
            }
        }
    }
}

/// The steps of dwindle plans name those plans.
proof fn plan_steps_named(plans: Seq<Planned<DwindlePlan>>, n: nat)
    requires
        n <= plans.len() <= usize::MAX,
        forall|k: int| 0 <= k < plans.len() ==> (#[trigger] plans[k]).plan.steps@.len() <= usize::MAX,
        forall|k: int|
            0 <= k < plans.len() ==> (#[trigger] plans[k]).plan.ratio_steps@.len() <= usize::MAX,
    ensures
        forall|j: int|
            0 <= j < place_steps(plans, n).len() ==> ((#[trigger] place_steps(
                plans,
                n,
            )[j]) matches Step::Place { plan, step } && plan < n && step
                < plans[plan as int].plan.steps@.len()),
        forall|j: int|
            0 <= j < ratio_steps(plans, n).len() ==> ((#[trigger] ratio_steps(
                plans,
                n,
            )[j]) matches Step::RatioFocus { plan, step } && plan < n && step
                < plans[plan as int].plan.ratio_steps@.len()),
    decreases n,
{
    if n > 0 {
        plan_steps_named(plans, (n - 1) as nat);
        let a = place_steps(plans, (n - 1) as nat);
        assert forall|j: int| 0 <= j < place_steps(plans, n).len() implies ((
        #[trigger] place_steps(plans, n)[j]) matches Step::Place { plan, step } && plan < n && step
            < plans[plan as int].plan.steps@.len()) by {
            if j < a.len() {
                assert(place_steps(plans, n)[j] == a[j]);
            }
        }
        let b = ratio_steps(plans, (n - 1) as nat);
        assert forall|j: int| 0 <= j < ratio_steps(plans, n).len() implies ((
        #[trigger] ratio_steps(plans, n)[j]) matches Step::RatioFocus { plan, step } && plan < n
            && step < plans[plan as int].plan.ratio_steps@.len()) by {
            if j < b.len() {
                assert(ratio_steps(plans, n)[j] == b[j]);
            }
        }
    }
}

/// The windows that are bound to monitors are windows of the session.
proof fn bindings_within(windows: Seq<WindowEntry>, available: Seq<Seq<char>>, n: nat)
    requires
        n <= windows.len() <= usize::MAX,
    ensures
        within(plan::bindings(windows, available, n), windows.len()),
    decreases n,
{
    if n > 0 {
        bindings_within(windows, available, (n - 1) as nat);
    }
}

/// The steps of master plans are valid where those plans are known.
proof fn master_steps_valid(st: RunView, n: nat)
    requires
        n <= st.master.len() <= usize::MAX,
        st.windows.len() <= usize::MAX,
        forall|k: int|
            0 <= k < st.master.len() ==> master_fits(
                (#[trigger] st.master[k]).plan,
                st.windows.len(),
            ),
    ensures
        forall|j: int|
            0 <= j < master_plans_steps(st.master, n).len() ==> step_valid(
                st,
                #[trigger] master_plans_steps(st.master, n)[j],
            ) && !awaits_plans(master_plans_steps(st.master, n)[j]),
    decreases n,
{
    if n > 0 {
        master_steps_valid(st, (n - 1) as nat);
        let before = master_plans_steps(st.master, (n - 1) as nat);
        let k = (n - 1) as usize;
        let p = st.master[n - 1].plan;
        let added = master_plan_steps(p, k);
        assert(master_fits(p, st.windows.len()));
        assert forall|j: int| 0 <= j < added.len() implies step_valid(st, #[trigger] added[j])
            && !awaits_plans(added[j]) by {
            let m = p.master_indices@.len();
            if j < 3 {
            } else if j < 3 + m {
                assert(added[j] == master_launches(p.master_indices@)[j - 3]);
            } else {
                assert(added[j] == launches(p.stack_indices@, Role::Plain)[j - 3 - m]);
                assert(p.stack_indices@[j - 3 - m] < st.windows.len());
            }
        }
        assert forall|j: int| 0 <= j < master_plans_steps(st.master, n).len() implies step_valid(
            st,
            #[trigger] master_plans_steps(st.master, n)[j],
        ) && !awaits_plans(master_plans_steps(st.master, n)[j]) by {
            if j < before.len() {
                assert(master_plans_steps(st.master, n)[j] == before[j]);
            } else {
                assert(master_plans_steps(st.master, n)[j] == added[j - before.len()]);
            }
        }
    }
}

/// The steps of dwindle plans are valid where those plans are known.
proof fn dwindle_steps_valid(st: RunView, fallback: Seq<usize>, floating: Seq<usize>)
    requires
        st.dwindle.len() <= usize::MAX,
        within(fallback, st.windows.len()),
        within(floating, st.windows.len()),
    ensures
        forall|j: int|
            0 <= j < dwindle_steps(st.dwindle, fallback, floating).len() ==> step_valid(
                st,
                #[trigger] dwindle_steps(st.dwindle, fallback, floating)[j],
            ) && !awaits_plans(dwindle_steps(st.dwindle, fallback, floating)[j]),
{
    let plans = st.dwindle;
    assert forall|k: int| 0 <= k < plans.len() implies (#[trigger] plans[k]).plan.steps@.len()
        <= usize::MAX by {
        assert(plans[k].plan.steps.len() == plans[k].plan.steps@.len());
    }
    assert forall|k: int| 0 <= k < plans.len() implies (#[trigger] plans[k]).plan.ratio_steps@.len()
        <= usize::MAX by {
        assert(plans[k].plan.ratio_steps.len() == plans[k].plan.ratio_steps@.len());
    }
    plan_steps_named(plans, plans.len());
    let a = place_steps(plans, plans.len());
    let b = ratio_steps(plans, plans.len());
    let c = seq![
        Step::RatioSettle,
        Step::Converge { pass: 0, at: 0, ok: true },
        Step::Fullscreen(0),
    ];
    let d = launches(fallback, Role::Plain);
    let e = launches(floating, Role::Plain);
    let all = dwindle_steps(plans, fallback, floating);
    assert(all == a + b + c + d + e);
    assert forall|j: int| 0 <= j < all.len() implies step_valid(st, #[trigger] all[j])
        && !awaits_plans(all[j]) by {
        let ab = a.len() + b.len();
        if j < a.len() {
            assert(all[j] == a[j]);
        } else if j < ab {
            assert(all[j] == b[j - a.len()]);
        } else if j < ab + 3 {
            assert(all[j] == c[j - ab]);
        } else if j < ab + 3 + d.len() {
            assert(all[j] == d[j - ab - 3]);
            assert(fallback[j - ab - 3] < st.windows.len());
        } else {
            assert(all[j] == e[j - ab - 3 - d.len()]);
            assert(floating[j - ab - 3 - d.len()] < st.windows.len());
        }
    }
}

/// The plans that an answer holds fit the session, and so do the steps that
/// follow from them.
proof fn inferred_valid(st: RunView, reply: Reply)
    requires
        valid(st),
        st.stopped is None,
        st.todo.len() > 0,
        st.todo[0] is InferDwindle || st.todo[0] is InferMaster,
        answers(action_of(st), reply, st.windows.len()),
    ensures
        valid(react(st, reply)),
{
    let next = react(st, reply);
    let groups = plan::groups_of(st.windows);
    plan::tiled_windows_grouped(st.windows);
    plan::floating_listed(st.windows);
    let floating = plan::floating_of(st.windows);
    assert(within(floating, st.windows.len()));
    if st.todo[0] is InferDwindle {
        let inferred = reply->DwindlePlans_0;
        assert(inferred.len() == inferred@.len());
        let fallback = plan::unplanned(groups, inferred@);
        plan::unplanned_within(st.windows, groups, inferred@);
        plan::planned_inferred(groups, inferred@);
        assert forall|k: int| 0 <= k < next.dwindle.len() implies dwindle_fits(
            (#[trigger] next.dwindle[k]).plan,
            st.windows.len(),
        ) by {
            let j = choose|j: int|
                0 <= j < inferred@.len() && inferred@[j] == Some(next.dwindle[k].plan);
            assert(inferred@[j] is Some);
        }
        dwindle_steps_valid(next, fallback, floating);
        splice_valid(st, next, dwindle_steps(next.dwindle, fallback, floating));
    } else {
        let inferred = reply->MasterPlans_0;
        assert(inferred.len() == inferred@.len());
        let fallback = plan::unplanned(groups, inferred@);
        plan::unplanned_within(st.windows, groups, inferred@);
        plan::planned_inferred(groups, inferred@);
        assert forall|k: int| 0 <= k < next.master.len() implies master_fits(
            (#[trigger] next.master[k]).plan,
            st.windows.len(),
        ) by {
            let j = choose|j: int|
                0 <= j < inferred@.len() && inferred@[j] == Some(next.master[k].plan);
            assert(inferred@[j] is Some);
        }
        master_steps_valid(next, next.master.len());
        let a = master_plans_steps(next.master, next.master.len());
        let d = launches(fallback, Role::Plain);
        let e = launches(floating, Role::Plain);
        let all = master_steps(next.master, fallback, floating);
        assert(all == a + d + e);
        assert forall|j: int| 0 <= j < all.len() implies step_valid(next, #[trigger] all[j])
            && !awaits_plans(all[j]) by {
            if j < a.len() {
                assert(all[j] == a[j]);
            } else if j < a.len() + d.len() {
                assert(all[j] == d[j - a.len()]);
                assert(fallback[j - a.len()] < st.windows.len());
            } else {
                assert(all[j] == e[j - a.len() - d.len()]);
                assert(floating[j - a.len() - d.len()] < st.windows.len());
            }
        }
        splice_valid(st, next, all);
    }
}

/// An answer leads from a valid state to a valid one.
pub proof fn react_keeps_valid(st: RunView, reply: Reply)
    requires
        valid(st),
        answers(action_of(st), reply, st.windows.len()),
    ensures
        valid(react(st, reply)),
{
    let next = react(st, reply);
    let rest = st.todo.drop_first();
    let none = Seq::<Step>::empty();
    assert(st.todo.len() > 0 && st.stopped is None);
    assert(step_valid(st, st.todo[0]));
    assert(none + rest =~= rest);
    if next.todo.len() == 0 && next.stopped is Some {
        assert(valid(next));
    } else if st.todo[0] is InferDwindle || st.todo[0] is InferMaster {
        inferred_valid(st, reply);
    } else if st.todo[0] is Monitors && reply is Monitors {
        let available = text::views(reply->Monitors_0@);
        bindings_within(st.windows, available, st.windows.len());
        let bound = plan::bindings(st.windows, available, st.windows.len());
        let steps = bind_steps(st.windows, available);
        assert forall|k: int| 0 <= k < steps.len() implies step_valid(next, #[trigger] steps[k])
            && steps[k] is Bind by {
            assert(bound[k] < st.windows.len());
        }
        splice_valid(st, next, steps);
    } else if st.todo[0] is Layout {
        splice_valid(st, next, layout_steps(layout_of(reply), st.windows.len()));
    } else if next == st {
    } else if next.todo == rest {
        splice_valid(st, next, none);
    } else {
        match st.todo[0] {
            Step::Place { plan, step } => {
                let place = st.dwindle[plan as int].plan.steps@[step as int];
                assert(dwindle_fits(st.dwindle[plan as int].plan, st.windows.len()));
                assert(place.window_idx < st.windows.len());
                splice_valid(st, next, placement_steps(st, plan, step));
            },
            _ => {
                assert(next.todo =~= seq![next.todo[0]] + rest);
                splice_valid(st, next, seq![next.todo[0]]);
            },
        }
    }
}

} // verus!
