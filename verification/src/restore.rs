//! The restore engine.
//!
//! `RestoreEngine::restore` sets up a `RestoreRun`. Its `poll` says what is to
//! be done, and `advance` takes the answer.

use std::collections::VecDeque;
use vstd::prelude::*;
use vstd::string::StringExecFns;

use crate::client::{
    dispatch_request, expect_request, keyword_request, option_request, HyprCtl,
    SessionctlExpectation,
};
use crate::command::{build_independent_cmd, build_launch_cmd};
use crate::models::{HyprEvent, SessionFile, WindowEntry};
use crate::plan::{
    bind_rule, bind_workspaces_to_monitors, floating_windows, split_plans, tiled_groups,
    DwindlePlan, MasterPlan, Planned,
};
use crate::run::{
    Action, Reply, RestoreError, Role, RunView, Step, MAX_PASSES, RATIO_PAUSE, RESIZE_PAUSE,
    TOLERANCE, WINDOW_APPEAR_TIMEOUT,
};
use crate::text::{signed_decimal_of, str_eq, words_of};
use crate::{client, plan, run, text};

verus! {

broadcast use vstd::string::group_string_axioms;

/// Restores saved sessions.
pub struct RestoreEngine {
    pub restore_layout: bool,
}

/// How a restore went.
#[derive(Debug)]
pub struct RestoreReport {
    pub restored: usize,
    pub failed: usize,
    pub errors: Vec<(String, String)>,
}

impl Default for RestoreReport {
    fn default() -> (r: Self)
        ensures
            r.restored == 0,
            r.failed == 0,
            r.errors@ == Seq::<(String, String)>::empty(),
    {
        RestoreReport { restored: 0, failed: 0, errors: Vec::new() }
    }
}

/// A restore that is under way.
pub struct RestoreRun<'a> {
    session: &'a SessionFile,
    todo: VecDeque<Step>,
    dwindle: Vec<Planned<DwindlePlan>>,
    master: Vec<Planned<MasterPlan>>,
    registered: Vec<usize>,
    launched: Vec<usize>,
    restored: Vec<usize>,
    failed: Vec<usize>,
    pending: Vec<usize>,
    addresses: Vec<(usize, String)>,
    had_focus: bool,
    ratios_applied: bool,
    stopped: Option<RestoreError>,
}

impl<'a> View for RestoreRun<'a> {
    type V = RunView;

    closed spec fn view(&self) -> RunView {
        RunView {
            windows: self.session.windows@,
            todo: self.todo@,
            dwindle: self.dwindle@,
            master: self.master@,
            registered: self.registered@,
            launched: self.launched@,
            restored: self.restored@,
            failed: self.failed@,
            pending: self.pending@,
            addresses: self.addresses@,
            had_focus: self.had_focus,
            ratios_applied: self.ratios_applied,
            stopped: self.stopped,
        }
    }
}

// ---------------------------------------------------------------------------
// Texts and lookups
// ---------------------------------------------------------------------------

/// The name that is sent for the monitor of a window that was saved without one.
pub fn no_monitor() -> (r: &'static str)
    ensures
        r@ == run::no_monitor(),
{
    "-"
}

/// The name that is sent for the monitor of a window.
fn monitor_name(w: &WindowEntry) -> (r: &str)
    ensures
        r@ == run::monitor_sent(*w),
{
    if let Some(m) = &w.monitor {
        let words = words_of(m.as_str());
        assert(text::views(words@).len() == words@.len());
        if words.len() > 0 {
            return m.as_str();
        }
    }
    no_monitor()
}

/// The request that registers a window.
pub fn window_request(w: &WindowEntry) -> (r: String)
    ensures
        r@ == client::expect_text(run::window_fields(*w)),
{
    let pos: (i32, i32) = match w.position {
        Some(p) => p,
        None => (0, 0),
    };
    let size: (i32, i32) = match w.size {
        Some(s) => s,
        None => (0, 0),
    };
    expect_request(
        &SessionctlExpectation {
            app_id: w.app_id.as_str(),
            workspace: w.workspace.as_str(),
            monitor: monitor_name(w),
            floating: w.floating,
            fullscreen: w.fullscreen,
            maximized: false,
            x: pos.0,
            y: pos.1,
            w: size.0,
            h: size.1,
        },
    )
}

/// The request that executes the command of a window.
fn exec_request(w: &WindowEntry, role: Role) -> (r: String)
    ensures
        r@ == run::exec_text(*w, role),
{
    let mut args = "exec ".to_owned();
    match role {
        Role::Tiled => args.append(build_independent_cmd(w).as_str()),
        _ => args.append(build_launch_cmd(w).as_str()),
    }
    dispatch_request(args.as_str())
}

/// The request that runs the dispatcher `name` with the argument `arg`.
fn dispatch_with(name: &str, arg: &str) -> (r: String)
    ensures
        r@ == client::dispatch_text(name@ + arg@),
{
    let mut args = name.to_owned();
    args.append(arg);
    dispatch_request(args.as_str())
}

/// The request that resizes the window at an address.
fn resize_request(dw: i64, dh: i64, address: &str) -> (r: String)
    ensures
        r@ == run::resize_text(dw as int, dh as int, address@),
{
    let mut args = "resizewindowpixel ".to_owned();
    args.append(signed_decimal_of(dw).as_str());
    args.append(" ");
    args.append(signed_decimal_of(dh).as_str());
    args.append(",address:0x");
    args.append(address);
    dispatch_request(args.as_str())
}

/// The position of the address of the window `idx`, or the number of addresses.
fn find_address(addresses: &Vec<(usize, String)>, idx: usize) -> (r: usize)
    ensures
        r == run::address_index(addresses@, idx),
        r <= addresses@.len(),
{
    let mut i: usize = 0;
    assert(addresses@.skip(0) =~= addresses@);
    while i < addresses.len()
        invariant
            i <= addresses@.len(),
            run::address_index(addresses@, idx) == i + run::address_index(
                addresses@.skip(i as int),
                idx,
            ),
        decreases addresses@.len() - i,
    {
        if addresses[i].0 == idx {
            return i;
        }
        assert(addresses@.skip(i as int).drop_first() =~= addresses@.skip(i + 1));
        i += 1;
    }
    i
}

// ---------------------------------------------------------------------------
// Steps
// ---------------------------------------------------------------------------

/// The steps that launch the windows `indices`, in order.
fn restore_indexed(indices: &Vec<usize>) -> (r: VecDeque<Step>)
    ensures
        r@ == run::launches(indices@, Role::Plain),
{
    let mut r: VecDeque<Step> = VecDeque::new();
    let mut i: usize = 0;
    while i < indices.len()
        invariant
            i <= indices@.len(),
            r@ == run::launches(indices@.take(i as int), Role::Plain),
        decreases indices@.len() - i,
    {
        r.push_back(Step::Launch { idx: indices[i], role: Role::Plain });
        assert(r@ =~= run::launches(indices@.take(i + 1), Role::Plain));
        i += 1;
    }
    assert(indices@.take(i as int) =~= indices@);
    r
}

/// The steps that launch `n` windows in the order of the session.
fn restore_simple(n: usize) -> (r: VecDeque<Step>)
    ensures
        r@ == run::launches(run::all_indices(n as nat), Role::Plain),
{
    let mut r: VecDeque<Step> = VecDeque::new();
    let mut i: usize = 0;
    while i < n
        invariant
            i <= n,
            r@ == run::launches(run::all_indices(i as nat), Role::Plain),
        decreases n - i,
    {
        r.push_back(Step::Launch { idx: i, role: Role::Plain });
        i += 1;
        assert(r@ =~= run::launches(run::all_indices(i as nat), Role::Plain));
    }
    r
}

/// The steps that register `n` windows.
fn register_sessionctl_expectations(n: usize) -> (r: VecDeque<Step>)
    ensures
        r@ == seq![Step::Available, Step::Begin] + run::expect_steps(n as nat) + seq![Step::End],
{
    let mut r: VecDeque<Step> = VecDeque::new();
    r.push_back(Step::Available);
    r.push_back(Step::Begin);
    let mut i: usize = 0;
    assert(r@ =~= seq![Step::Available, Step::Begin] + run::expect_steps(0));
    while i < n
        invariant
            i <= n,
            r@ == seq![Step::Available, Step::Begin] + run::expect_steps(i as nat),
        decreases n - i,
    {
        r.push_back(Step::Expect(i));
        i += 1;
        assert(r@ =~= seq![Step::Available, Step::Begin] + run::expect_steps(i as nat));
    }
    r.push_back(Step::End);
    r
}

/// The steps that bind the workspaces of the windows `indices`.
fn bind_steps(indices: &Vec<usize>) -> (r: VecDeque<Step>)
    ensures
        r@ == indices@.map_values(|i: usize| Step::Bind(i)),
{
    let mut r: VecDeque<Step> = VecDeque::new();
    let mut i: usize = 0;
    while i < indices.len()
        invariant
            i <= indices@.len(),
            r@ == indices@.take(i as int).map_values(|i: usize| Step::Bind(i)),
        decreases indices@.len() - i,
    {
        r.push_back(Step::Bind(indices[i]));
        assert(r@ =~= indices@.take(i + 1).map_values(|i: usize| Step::Bind(i)));
        i += 1;
    }
    assert(indices@.take(i as int) =~= indices@);
    r
}

/// The steps that open the windows of all dwindle plans.
fn execute_bsp_plans(plans: &Vec<Planned<DwindlePlan>>) -> (r: VecDeque<Step>)
    ensures
        r@ == run::place_steps(plans@, plans@.len()),
{
    let mut r: VecDeque<Step> = VecDeque::new();
    let mut k: usize = 0;
    while k < plans.len()
        invariant
            k <= plans@.len(),
            r@ == run::place_steps(plans@, k as nat),
        decreases plans@.len() - k,
    {
        let ghost before = r@;
        let n: usize = plans[k].plan.steps.len();
        let mut s: usize = 0;
        while s < n
            invariant
                s <= n,
                r@ == before + Seq::new(
                    s as nat,
                    |s: int| Step::Place { plan: k, step: s as usize },
                ),
            decreases n - s,
        {
            r.push_back(Step::Place { plan: k, step: s });
            s += 1;
            assert(r@ =~= before + Seq::new(
                s as nat,
                |s: int| Step::Place { plan: k, step: s as usize },
            ));
        }
        k += 1;
        assert(r@ =~= run::place_steps(plans@, k as nat));
    }
    r
}

/// The steps that set the split ratios of all dwindle plans.
fn apply_split_ratios(plans: &Vec<Planned<DwindlePlan>>) -> (r: VecDeque<Step>)
    ensures
        r@ == run::ratio_steps(plans@, plans@.len()),
{
    let mut r: VecDeque<Step> = VecDeque::new();
    let mut k: usize = 0;
    while k < plans.len()
        invariant
            k <= plans@.len(),
            r@ == run::ratio_steps(plans@, k as nat),
        decreases plans@.len() - k,
    {
        let ghost before = r@;
        let n: usize = plans[k].plan.ratio_steps.len();
        let mut s: usize = 0;
        while s < n
            invariant
                s <= n,
                r@ == before + Seq::new(
                    s as nat,
                    |s: int| Step::RatioFocus { plan: k, step: s as usize },
                ),
            decreases n - s,
        {
            r.push_back(Step::RatioFocus { plan: k, step: s });
            s += 1;
            assert(r@ =~= before + Seq::new(
                s as nat,
                |s: int| Step::RatioFocus { plan: k, step: s as usize },
            ));
        }
        k += 1;
        assert(r@ =~= run::ratio_steps(plans@, k as nat));
    }
    r
}

/// The steps of a restore by dwindle plans.
fn restore_dwindle(
    plans: &Vec<Planned<DwindlePlan>>,
    fallback: &Vec<usize>,
    floating: &Vec<usize>,
) -> (r: VecDeque<Step>)
    ensures
        r@ == run::dwindle_steps(plans@, fallback@, floating@),
{
    let mut r = execute_bsp_plans(plans);
    r.append(&mut apply_split_ratios(plans));
    r.push_back(Step::RatioSettle);
    r.push_back(Step::Converge { pass: 0, at: 0, ok: true });
    r.push_back(Step::Fullscreen(0));
    assert(r@ =~= run::place_steps(plans@, plans@.len()) + run::ratio_steps(plans@, plans@.len())
        + seq![
        Step::RatioSettle,
        Step::Converge { pass: 0, at: 0, ok: true },
        Step::Fullscreen(0),
    ]);
    r.append(&mut restore_indexed(fallback));
    r.append(&mut restore_indexed(floating));
    r
}

/// The steps that open the master windows of a plan.
fn master_launches(indices: &Vec<usize>) -> (r: VecDeque<Step>)
    ensures
        r@ == run::master_launches(indices@),
{
    let mut r: VecDeque<Step> = VecDeque::new();
    let mut i: usize = 0;
    while i < indices.len()
        invariant
            i <= indices@.len(),
            r@ == run::master_launches(indices@).take(i as int),
        decreases indices@.len() - i,
    {
        let role = if i == 0 {
            Role::Plain
        } else {
            Role::ExtraMaster
        };
        r.push_back(Step::Launch { idx: indices[i], role });
        i += 1;
        assert(r@ =~= run::master_launches(indices@).take(i as int));
    }
    assert(r@ =~= run::master_launches(indices@));
    r
}

/// The steps of a restore by master plans.
fn restore_master(
    plans: &Vec<Planned<MasterPlan>>,
    fallback: &Vec<usize>,
    floating: &Vec<usize>,
) -> (r: VecDeque<Step>)
    ensures
        r@ == run::master_steps(plans@, fallback@, floating@),
{
    let mut r: VecDeque<Step> = VecDeque::new();
    let mut k: usize = 0;
    while k < plans.len()
        invariant
            k <= plans@.len(),
            r@ == run::master_plans_steps(plans@, k as nat),
        decreases plans@.len() - k,
    {
        let plan = &plans[k].plan;
        let ghost before = r@;
        r.push_back(Step::Mfact(k));
        r.push_back(Step::MasterWorkspace(k));
        r.push_back(Step::Orientation(k));
        r.append(&mut master_launches(&plan.master_indices));
        r.append(&mut restore_indexed(&plan.stack_indices));
        assert(r@ =~= before + run::master_plan_steps(*plan, k));
        k += 1;
    }
    r.append(&mut restore_indexed(fallback));
    r.append(&mut restore_indexed(floating));
    r
}

impl RestoreEngine {
    /// An engine that builds up tiling layouts again if `restore_layout` is set.
    pub fn new(restore_layout: bool) -> (r: Self)
        ensures
            r.restore_layout == restore_layout,
    {
        RestoreEngine { restore_layout }
    }

    /// The positions of the floating windows, the dwindle plans and the windows
    /// that no plan covers. `inferred` holds what was inferred for each group of
    /// `tiled_groups`, in its order.
    pub fn build_dwindle_plans(session: &SessionFile, inferred: Vec<Option<DwindlePlan>>) -> (r: (
        Vec<usize>,
        Vec<Planned<DwindlePlan>>,
        Vec<usize>,
    ))
        requires
            inferred@.len() == plan::groups_of(session.windows@).len(),
        ensures
            r.0@ == plan::floating_of(session.windows@),
            r.1@ == plan::planned(plan::groups_of(session.windows@), inferred@),
            r.2@ == plan::unplanned(plan::groups_of(session.windows@), inferred@),
    {
        let floating = floating_windows(&session.windows);
        let groups = tiled_groups(&session.windows);
        assert(plan::group_views(groups@).len() == groups@.len());
        let (plans, left) = split_plans(groups, inferred);
        (floating, plans, left)
    }

    /// The positions of the floating windows, the master plans and the windows that
    /// no plan covers. `inferred` holds what was inferred for each group of
    /// `tiled_groups`, in its order.
    pub fn build_master_plans(session: &SessionFile, inferred: Vec<Option<MasterPlan>>) -> (r: (
        Vec<usize>,
        Vec<Planned<MasterPlan>>,
        Vec<usize>,
    ))
        requires
            inferred@.len() == plan::groups_of(session.windows@).len(),
        ensures
            r.0@ == plan::floating_of(session.windows@),
            r.1@ == plan::planned(plan::groups_of(session.windows@), inferred@),
            r.2@ == plan::unplanned(plan::groups_of(session.windows@), inferred@),
    {
        let floating = floating_windows(&session.windows);
        let groups = tiled_groups(&session.windows);
        assert(plan::group_views(groups@).len() == groups@.len());
        let (plans, left) = split_plans(groups, inferred);
        (floating, plans, left)
    }

    /// Begins to restore `session`.
    pub fn restore<'a>(&self, session: &'a SessionFile) -> (r: RestoreRun<'a>)
        ensures
            r@ == run::initial(session.windows@, self.restore_layout),
            run::valid(r@),
    {
        let n: usize = session.windows.len();
        let mut todo: VecDeque<Step> = VecDeque::new();
        todo.push_back(Step::Monitors);
        todo.push_back(Step::FocusQuery);
        todo.append(&mut register_sessionctl_expectations(n));
        if self.restore_layout {
            todo.push_back(Step::Layout);
        } else {
            todo.append(&mut restore_simple(n));
        }
        todo.push_back(Step::FocusOn);
        todo.push_back(Step::Finish);
        assert(todo@ =~= run::initial_steps(n as nat, self.restore_layout));
        let r = RestoreRun {
            session,
            todo,
            dwindle: Vec::new(),
            master: Vec::new(),
            registered: Vec::new(),
            launched: Vec::new(),
            restored: Vec::new(),
            failed: Vec::new(),
            pending: Vec::new(),
            addresses: Vec::new(),
            had_focus: false,
            ratios_applied: false,
            stopped: None,
        };
        assert(r@ =~= run::initial(session.windows@, self.restore_layout));
        r
    }
}

// ---------------------------------------------------------------------------
// The run
// ---------------------------------------------------------------------------

/// Whether all windows that the plan names are among `n`.
fn dwindle_plan_fits(plan: &DwindlePlan, n: usize) -> (r: bool)
    ensures
        r == run::dwindle_fits(*plan, n as nat),
{
    let mut i: usize = 0;
    while i < plan.steps.len()
        invariant
            i <= plan.steps@.len(),
            forall|s: int| 0 <= s < i ==> (#[trigger] plan.steps@[s]).window_idx < n,
        decreases plan.steps@.len() - i,
    {
        if plan.steps[i].window_idx >= n {
            return false;
        }
        i += 1;
    }
    true
}

/// Whether all of `indices` are below `n`.
fn all_below(indices: &Vec<usize>, n: usize) -> (r: bool)
    ensures
        r == forall|j: int| 0 <= j < indices@.len() ==> #[trigger] indices@[j] < n,
{
    let mut i: usize = 0;
    while i < indices.len()
        invariant
            i <= indices@.len(),
            forall|j: int| 0 <= j < i ==> #[trigger] indices@[j] < n,
        decreases indices@.len() - i,
    {
        if indices[i] >= n {
            return false;
        }
        i += 1;
    }
    true
}

/// Whether there are `count` plans, all of which fit a session of `n` windows.
fn dwindle_plans_fit(plans: &Vec<Option<DwindlePlan>>, count: usize, n: usize) -> (r: bool)
    ensures
        r == (plans@.len() == count && forall|k: int|
            0 <= k < plans@.len() && (#[trigger] plans@[k]) is Some ==> run::dwindle_fits(
                plans@[k]->0,
                n as nat,
            )),
{
    if plans.len() != count {
        return false;
    }
    let mut i: usize = 0;
    while i < plans.len()
        invariant
            i <= plans@.len(),
            forall|k: int|
                0 <= k < i && (#[trigger] plans@[k]) is Some ==> run::dwindle_fits(
                    plans@[k]->0,
                    n as nat,
                ),
        decreases plans@.len() - i,
    {
        if let Some(plan) = &plans[i] {
            if !dwindle_plan_fits(plan, n) {
                return false;
            }
        }
        i += 1;
    }
    true
}

/// Whether there are `count` plans, all of which fit a session of `n` windows.
fn master_plans_fit(plans: &Vec<Option<MasterPlan>>, count: usize, n: usize) -> (r: bool)
    ensures
        r == (plans@.len() == count && forall|k: int|
            0 <= k < plans@.len() && (#[trigger] plans@[k]) is Some ==> run::master_fits(
                plans@[k]->0,
                n as nat,
            )),
{
    if plans.len() != count {
        return false;
    }
    let mut i: usize = 0;
    while i < plans.len()
        invariant
            i <= plans@.len(),
            forall|k: int|
                0 <= k < i && (#[trigger] plans@[k]) is Some ==> run::master_fits(
                    plans@[k]->0,
                    n as nat,
                ),
        decreases plans@.len() - i,
    {
        if let Some(plan) = &plans[i] {
            if !(all_below(&plan.master_indices, n) && all_below(&plan.stack_indices, n)) {
                return false;
            }
        }
        i += 1;
    }
    true
}

/// Whether the compositor confirms a request.
fn confirmed(reply: &Reply) -> (r: bool)
    ensures
        r == run::confirms(*reply),
{
    match reply {
        Reply::Text(text) => HyprCtl::sessionctl_reply(text.as_str()),
        _ => false,
    }
}

/// The contents of each pair of `errors`.
pub open spec fn error_views(errors: Seq<(String, String)>) -> Seq<(Seq<char>, Seq<char>)> {
    errors.map_values(|e: (String, String)| (e.0@, e.1@))
}

impl<'a> RestoreRun<'a> {
    /// Whether the launch command of the window `idx` was handed over before.
    fn command_launched(&self, idx: usize) -> (r: bool)
        requires
            run::within(self@.launched, self@.windows.len()),
            idx < self@.windows.len(),
        ensures
            r == run::is_launched(
                self@.windows,
                self@.launched,
                self@.windows[idx as int].launch_cmd@,
            ),
    {
        let windows = &self.session.windows;
        let mut i: usize = 0;
        while i < self.launched.len()
            invariant
                i <= self.launched@.len(),
                idx < windows@.len(),
                windows@ == self@.windows,
                run::within(self.launched@, windows@.len()),
                forall|k: int|
                    0 <= k < i ==> windows@[#[trigger] self.launched@[k] as int].launch_cmd@
                        != windows@[idx as int].launch_cmd@,
            decreases self.launched@.len() - i,
        {
            let other: usize = self.launched[i];
            if str_eq(windows[other].launch_cmd.as_str(), windows[idx].launch_cmd.as_str()) {
                assert(windows@[self.launched@[i as int] as int].launch_cmd@
                    == windows@[idx as int].launch_cmd@);
                return true;
            }
            i += 1;
        }
        false
    }

    /// The request that focuses the window `idx`, if its address is known.
    fn focus_action(&self, idx: usize) -> (r: Action)
        ensures
            r@ == match run::address_of(self@.addresses, idx) {
                Some(address) => run::ActionView::Send(run::focus_text(address@)),
                None => run::ActionView::Proceed,
            },
    {
        let i: usize = find_address(&self.addresses, idx);
        if i < self.addresses.len() {
            Action::Send(dispatch_with("focuswindow address:0x", self.addresses[i].1.as_str()))
        } else {
            Action::Proceed
        }
    }

    /// What is to be done next.
    pub fn poll(&self) -> (r: Action)
        requires
            run::valid(self@),
        ensures
            r@ == run::action_of(self@),
    {
        if let Some(error) = self.stopped {
            return Action::Stop(error);
        }
        if self.todo.len() == 0 {
            return Action::Done;
        }
        let windows = &self.session.windows;
        let step = self.todo[0];
        assert(run::step_valid(self@, self@.todo[0]));
        match step {
            Step::Monitors => Action::QueryMonitors,
            Step::Bind(i) => Action::Send(keyword_request(bind_rule(&windows[i]).as_str())),
            Step::FocusQuery => Action::Send(option_request("misc:focus_on_activate")),
            Step::FocusOff => Action::Send(keyword_request("misc:focus_on_activate false")),
            Step::Available => Action::Send("sessionctl status".to_owned()),
            Step::Begin => Action::Send("sessionctl begin".to_owned()),
            Step::Expect(i) => Action::Send(window_request(&windows[i])),
            Step::End => Action::Send("sessionctl end".to_owned()),
            Step::Layout => Action::Send(option_request("general:layout")),
            Step::InferDwindle => Action::InferDwindle(tiled_groups(windows)),
            Step::InferMaster => Action::InferMaster(tiled_groups(windows)),
            Step::Place { .. } => Action::Proceed,
            Step::Focus(i) => self.focus_action(i),
            Step::Preselect { plan, step } => match &self.dwindle[plan].plan.steps[step].preselect {
                Some(side) => Action::Send(dispatch_with("layoutmsg preselect ", side.as_str())),
                None => Action::Proceed,
            },
            Step::Workspace(k) => Action::Send(
                dispatch_with("workspace ", self.dwindle[k].workspace.as_str()),
            ),
            Step::Launch { idx, role } => if self.command_launched(idx) {
                Action::Proceed
            } else {
                Action::Send(exec_request(&windows[idx], role))
            },
            Step::AwaitOpen { idx, .. } => Action::AwaitOpen(
                windows[idx].app_id.clone(),
                WINDOW_APPEAR_TIMEOUT,
            ),
            Step::AddMaster => Action::Send(dispatch_request("layoutmsg addmaster")),
            Step::RatioFocus { plan, step } => self.focus_action(
                self.dwindle[plan].plan.ratio_steps[step].focus_window_idx,
            ),
            Step::RatioSet { plan, step } => Action::Send(
                dispatch_with(
                    "layoutmsg splitratio ",
                    self.dwindle[plan].plan.ratio_steps[step].delta.as_str(),
                ),
            ),
            Step::RatioSettle => if self.ratios_applied {
                Action::Sleep(RATIO_PAUSE)
            } else {
                Action::Proceed
            },
            Step::Converge { at, ok, .. } => if at < self.addresses.len() {
                match windows[self.addresses[at].0].size {
                    Some(_) => Action::QueryClients,
                    None => Action::Proceed,
                }
            } else if ok {
                Action::Proceed
            } else {
                Action::Sleep(RESIZE_PAUSE)
            },
            Step::Resize { at, dw, dh, .. } => Action::Send(
                resize_request(dw, dh, self.addresses[at].1.as_str()),
            ),
            Step::Fullscreen(at) => if at < self.addresses.len()
                && windows[self.addresses[at].0].fullscreen {
                Action::Send(
                    dispatch_with("fullscreen 0,address:0x", self.addresses[at].1.as_str()),
                )
            } else {
                Action::Proceed
            },
            Step::Mfact(k) => {
                let mut args = "master:mfact ".to_owned();
                args.append(self.master[k].plan.mfact.as_str());
                Action::Send(keyword_request(args.as_str()))
            },
            Step::MasterWorkspace(k) => Action::Send(
                dispatch_with("workspace ", self.master[k].workspace.as_str()),
            ),
            Step::Orientation(k) => Action::Send(
                dispatch_with("layoutmsg orientation", self.master[k].plan.orientation.as_str()),
            ),
            Step::FocusOn => if self.had_focus {
                Action::Send(keyword_request("misc:focus_on_activate true"))
            } else {
                Action::Proceed
            },
            Step::Finish => if self.pending.len() == 0 {
                Action::Send("sessionctl finish".to_owned())
            } else {
                Action::Proceed
            },
        }
    }

    /// Whether `reply` is an answer to what `poll` asks for.
    pub fn accepts(&self, reply: &Reply) -> (r: bool)
        requires
            run::valid(self@),
        ensures
            r == run::answers(run::action_of(self@), *reply, self@.windows.len()),
    {
        let n: usize = self.session.windows.len();
        match self.poll() {
            Action::Send(_) => matches!(reply, Reply::Text(_) | Reply::Failed),
            Action::QueryMonitors => matches!(reply, Reply::Monitors(_) | Reply::Failed),
            Action::QueryClients => matches!(reply, Reply::Clients(_) | Reply::Failed),
            Action::InferDwindle(groups) => {
                assert(plan::group_views(groups@).len() == groups@.len());
                match reply {
                    Reply::DwindlePlans(plans) => dwindle_plans_fit(plans, groups.len(), n),
                    _ => false,
                }
            },
            Action::InferMaster(groups) => {
                assert(plan::group_views(groups@).len() == groups@.len());
                match reply {
                    Reply::MasterPlans(plans) => master_plans_fit(plans, groups.len(), n),
                    _ => false,
                }
            },
            Action::AwaitOpen(_, _) => matches!(reply, Reply::Event(_) | Reply::TimedOut),
            Action::Sleep(_) | Action::Proceed => matches!(reply, Reply::Proceed),
            Action::Done | Action::Stop(_) => false,
        }
    }

    /// Puts `steps` in front of the steps that are left.
    fn prepend(&mut self, steps: VecDeque<Step>)
        ensures
            final(self)@ == run::go_on(old(self)@, steps@ + old(self)@.todo),
    {
        let mut steps = steps;
        steps.append(&mut self.todo);
        self.todo = steps;
    }

    /// Puts `step` in front of the steps that are left.
    fn push(&mut self, step: Step)
        ensures
            final(self)@ == run::go_on(old(self)@, seq![step] + old(self)@.todo),
    {
        self.todo.push_front(step);
    }

    /// Gives up.
    fn stop(&mut self, error: RestoreError)
        ensures
            final(self)@ == run::give_up(old(self)@, error),
    {
        self.todo.clear();
        self.stopped = Some(error);
    }

    /// Takes the name of the active layout.
    fn restore_with_layout(&mut self, reply: Reply)
        ensures
            final(self)@ == run::go_on(
                old(self)@,
                run::layout_steps(run::layout_of(reply), old(self)@.windows.len())
                    + old(self)@.todo,
            ),
    {
        let layout = match &reply {
            Reply::Text(text) => match HyprCtl::get_option_str_reply(
                "general:layout",
                text.as_str(),
            ) {
                Ok(name) => name,
                Err(_) => String::new(),
            },
            _ => String::new(),
        };
        if str_eq(layout.as_str(), "dwindle") {
            self.push(Step::InferDwindle);
        } else if str_eq(layout.as_str(), "master") {
            self.push(Step::InferMaster);
        } else {
            let steps = restore_simple(self.session.windows.len());
            self.prepend(steps);
        }
    }

    /// Takes the dwindle plans that were inferred.
    fn take_dwindle_plans(&mut self, inferred: Vec<Option<DwindlePlan>>)
        requires
            inferred@.len() == plan::groups_of(old(self)@.windows).len(),
        ensures
            final(self)@ == ({
                let groups = plan::groups_of(old(self)@.windows);
                let plans = plan::planned(groups, inferred@);
                RunView {
                    dwindle: plans,
                    todo: run::dwindle_steps(
                        plans,
                        plan::unplanned(groups, inferred@),
                        plan::floating_of(old(self)@.windows),
                    ) + old(self)@.todo,
                    ..old(self)@
                }
            }),
    {
        let (floating, plans, fallback) = RestoreEngine::build_dwindle_plans(
            self.session,
            inferred,
        );
        let steps = restore_dwindle(&plans, &fallback, &floating);
        self.dwindle = plans;
        self.prepend(steps);
    }

    /// Takes the master plans that were inferred.
    fn take_master_plans(&mut self, inferred: Vec<Option<MasterPlan>>)
        requires
            inferred@.len() == plan::groups_of(old(self)@.windows).len(),
        ensures
            final(self)@ == ({
                let groups = plan::groups_of(old(self)@.windows);
                let plans = plan::planned(groups, inferred@);
                RunView {
                    master: plans,
                    todo: run::master_steps(
                        plans,
                        plan::unplanned(groups, inferred@),
                        plan::floating_of(old(self)@.windows),
                    ) + old(self)@.todo,
                    ..old(self)@
                }
            }),
    {
        let (floating, plans, fallback) = RestoreEngine::build_master_plans(
            self.session,
            inferred,
        );
        let steps = restore_master(&plans, &fallback, &floating);
        self.master = plans;
        self.prepend(steps);
    }

    /// Opens the window of a step of a dwindle plan.
    fn place(&mut self, plan: usize, step: usize)
        requires
            plan < old(self)@.dwindle.len(),
            step < old(self)@.dwindle[plan as int].plan.steps@.len(),
        ensures
            final(self)@ == run::go_on(
                old(self)@,
                run::placement_steps(old(self)@, plan, step) + old(self)@.todo,
            ),
    {
        let ghost before = self@;
        let place = &self.dwindle[plan].plan.steps[step];
        let launch = Step::Launch { idx: place.window_idx, role: Role::Tiled };
        let beside: Option<usize> = match (place.focus_idx, &place.preselect) {
            (Some(focus), Some(_)) => {
                if find_address(&self.addresses, focus) < self.addresses.len() {
                    Some(focus)
                } else {
                    None
                }
            },
            _ => None,
        };
        self.push(launch);
        match beside {
            Some(focus) => {
                self.push(Step::Preselect { plan, step });
                self.push(Step::Focus(focus));
            },
            None => {
                if step == 0 {
                    self.push(Step::Workspace(plan));
                }
            },
        }
        assert(self@ =~= run::go_on(
            before,
            run::placement_steps(before, plan, step) + before.todo,
        ));
    }

    /// Takes the answer to the request that launches the window `idx`.
    fn launch_and_track(&mut self, idx: usize, role: Role, reply: Reply)
        ensures
            final(self)@ == ({
                let st = old(self)@;
                let wait = seq![Step::AwaitOpen { idx, role }] + st.todo;
                match reply {
                    Reply::Text(_) => RunView { todo: wait, launched: st.launched.push(idx), ..st },
                    Reply::Failed => RunView {
                        launched: st.launched.push(idx),
                        failed: st.failed.push(idx),
                        ..st
                    },
                    _ => run::go_on(st, wait),
                }
            }),
    {
        match reply {
            Reply::Text(_) => {
                self.launched.push(idx);
                self.push(Step::AwaitOpen { idx, role });
            },
            Reply::Failed => {
                self.launched.push(idx);
                self.failed.push(idx);
            },
            _ => {
                self.push(Step::AwaitOpen { idx, role });
            },
        }
    }

    /// Notes the address of the window `idx`.
    fn note_address(&mut self, idx: usize, address: String)
        ensures
            final(self)@ == (RunView {
                addresses: run::with_address(old(self)@.addresses, idx, address),
                ..old(self)@
            }),
    {
        let i: usize = find_address(&self.addresses, idx);
        if i < self.addresses.len() {
            self.addresses.set(i, (idx, address));
        } else {
            self.addresses.push((idx, address));
        }
    }

    /// Takes an event, or the news that none will come, while the window `idx`
    /// is awaited.
    fn wait_for_open_event(&mut self, idx: usize, role: Role, reply: Reply)
        requires
            idx < old(self)@.windows.len(),
            reply is Event || reply is TimedOut,
        ensures
            final(self)@ == ({
                let st = old(self)@;
                match reply {
                    Reply::Event(HyprEvent::OpenWindow { address, class, .. }) => if class@
                        == st.windows[idx as int].app_id@ {
                        run::appeared(st, idx, role, address, st.todo)
                    } else {
                        run::go_on(st, seq![Step::AwaitOpen { idx, role }] + st.todo)
                    },
                    Reply::Event(_) => run::go_on(
                        st,
                        seq![Step::AwaitOpen { idx, role }] + st.todo,
                    ),
                    _ => run::missed(st, idx, role, st.todo),
                }
            }),
    {
        match reply {
            Reply::Event(HyprEvent::OpenWindow { address, class, .. }) => {
                if !str_eq(class.as_str(), self.session.windows[idx].app_id.as_str()) {
                    self.push(Step::AwaitOpen { idx, role });
                    return ;
                }
                if let Role::Tiled = role {
                    self.note_address(idx, address);
                }
            },
            Reply::Event(_) => {
                self.push(Step::AwaitOpen { idx, role });
                return ;
            },
            _ => {
                self.pending.push(idx);
            },
        }
        self.restored.push(idx);
        if let Role::ExtraMaster = role {
            self.push(Step::AddMaster);
        }
    }

    /// Compares the size of the window at `at` with its saved size.
    fn compare_size(&self, pass: usize, at: usize, ok: bool, reply: Reply) -> (r: Step)
        requires
            at < self@.addresses.len(),
            self@.addresses[at as int].0 < self@.windows.len(),
        ensures
            r == run::compared(self@, pass, at, ok, reply),
    {
        let idx: usize = self.addresses[at].0;
        let count: usize = self.addresses.len();
        assert(at < count);
        let next = Step::Converge { pass, at: at + 1, ok };
        match (self.session.windows[idx].size, &reply) {
            (Some(saved), Reply::Clients(clients)) => {
                match HyprCtl::get_client_by_address_reply(clients, self.addresses[at].1.as_str()) {
                    Some(client) => {
                        let dw: i64 = saved.0 as i64 - client.size.0 as i64;
                        let dh: i64 = saved.1 as i64 - client.size.1 as i64;
                        if dw > TOLERANCE || -dw > TOLERANCE || dh > TOLERANCE || -dh > TOLERANCE {
                            Step::Resize { pass, at, dw, dh }
                        } else {
                            next
                        }
                    },
                    None => next,
                }
            },
            _ => next,
        }
    }

    /// Takes the answer while tiled windows are brought to their saved sizes.
    fn converge_tiled_sizes(&mut self, pass: usize, at: usize, ok: bool, reply: Reply)
        requires
            pass < MAX_PASSES,
            at < old(self)@.addresses.len() ==> old(self)@.addresses[at as int].0
                < old(self)@.windows.len(),
        ensures
            final(self)@ == ({
                let st = old(self)@;
                if at < st.addresses.len() {
                    run::go_on(st, seq![run::compared(st, pass, at, ok, reply)] + st.todo)
                } else if !ok && pass + 1 < MAX_PASSES {
                    run::go_on(
                        st,
                        seq![Step::Converge { pass: (pass + 1) as usize, at: 0, ok: true }]
                            + st.todo,
                    )
                } else {
                    st
                }
            }),
    {
        if at < self.addresses.len() {
            let step = self.compare_size(pass, at, ok, reply);
            self.push(step);
        } else if !ok && pass + 1 < MAX_PASSES {
            self.push(Step::Converge { pass: pass + 1, at: 0, ok: true });
        }
    }

    /// Takes the answer while windows are made fullscreen.
    fn apply_fullscreen(&mut self, at: usize, reply: Reply)
        ensures
            final(self)@ == ({
                let st = old(self)@;
                if reply is Failed {
                    run::give_up(st, RestoreError::Ipc)
                } else if at < st.addresses.len() {
                    run::go_on(st, seq![Step::Fullscreen((at + 1) as usize)] + st.todo)
                } else {
                    st
                }
            }),
    {
        if matches!(reply, Reply::Failed) {
            self.stop(RestoreError::Ipc);
        } else if at < self.addresses.len() {
            self.push(Step::Fullscreen(at + 1));
        }
    }

    /// Takes the answer to what `poll` asked for.
    pub fn advance(&mut self, reply: Reply)
        requires
            run::valid(old(self)@),
            run::answers(run::action_of(old(self)@), reply, old(self)@.windows.len()),
        ensures
            final(self)@ == run::react(old(self)@, reply),
            run::valid(final(self)@),
    {
        let ghost before = self@;
        proof {
            run::react_keeps_valid(before, reply);
        }
        let ghost given = reply;
        let step = match self.todo.pop_front() {
            Some(step) => step,
            None => {
                return ;
            },
        };
        assert(run::step_valid(before, before.todo[0]));
        assert(self@ =~= run::go_on(before, before.todo.drop_first()));
        match step {
            Step::Monitors => {
                if let Reply::Monitors(names) = reply {
                    let bound = bind_workspaces_to_monitors(self.session, &names);
                    self.prepend(bind_steps(&bound));
                }
            },
            Step::FocusQuery => {
                let had: bool = match &reply {
                    Reply::Text(text) => HyprCtl::get_option_reply(text.as_str()),
                    _ => true,
                };
                self.had_focus = had;
                if had {
                    self.push(Step::FocusOff);
                }
            },
            Step::Available => {
                let known: bool = match &reply {
                    Reply::Text(text) => HyprCtl::sessionctl_available_reply(Some(text.as_str())),
                    _ => false,
                };
                if !known {
                    self.stop(RestoreError::Unsupported);
                }
            },
            Step::Begin => {
                if !confirmed(&reply) {
                    self.stop(RestoreError::BeginFailed);
                }
            },
            Step::Expect(i) => {
                if confirmed(&reply) {
                    self.registered.push(i);
                }
            },
            Step::End => {
                if !confirmed(&reply) {
                    self.stop(RestoreError::EndFailed);
                }
            },
            Step::Layout => self.restore_with_layout(reply),
            Step::InferDwindle => {
                if let Reply::DwindlePlans(inferred) = reply {
                    self.take_dwindle_plans(inferred);
                }
            },
            Step::InferMaster => {
                if let Reply::MasterPlans(inferred) = reply {
                    self.take_master_plans(inferred);
                }
            },
            Step::Place { plan, step } => self.place(plan, step),
            Step::Focus(_) | Step::Preselect { .. } | Step::Workspace(_)
            | Step::MasterWorkspace(_) => {
                if matches!(reply, Reply::Failed) {
                    self.stop(RestoreError::Ipc);
                }
            },
            Step::Launch { idx, role } => self.launch_and_track(idx, role, reply),
            Step::AwaitOpen { idx, role } => {
                self.wait_for_open_event(idx, role, reply);
                assert(before.todo =~= seq![Step::AwaitOpen { idx, role }]
                    + before.todo.drop_first());
            },
            Step::RatioFocus { plan, step } => {
                if matches!(reply, Reply::Text(_)) {
                    self.push(Step::RatioSet { plan, step });
                }
            },
            Step::RatioSet { .. } => {
                if confirmed(&reply) {
                    self.ratios_applied = true;
                }
            },
            Step::Converge { pass, at, ok } => {
                if at < self.addresses.len() {
                    assert(before.addresses[at as int].0 < before.windows.len());
                }
                self.converge_tiled_sizes(pass, at, ok, reply)
            },
            Step::Resize { pass, at, .. } => {
                let count: usize = self.addresses.len();
                assert(at < count);
                self.push(Step::Converge { pass, at: at + 1, ok: false });
            },
            Step::Fullscreen(at) => self.apply_fullscreen(at, reply),
            Step::Bind(_) | Step::FocusOff | Step::AddMaster | Step::RatioSettle | Step::Mfact(_)
            | Step::Orientation(_) | Step::FocusOn | Step::Finish => {},
        }
        assert(self@ =~= run::react(before, given));
    }

    /// How the restore has gone so far.
    pub fn report(&self) -> (r: RestoreReport)
        requires
            run::valid(self@),
        ensures
            r.restored == self@.restored.len(),
            r.failed == self@.failed.len(),
            error_views(r.errors@) == run::errors_of(self@),
    {
        let windows = &self.session.windows;
        let mut errors: Vec<(String, String)> = Vec::new();
        let mut i: usize = 0;
        assert(error_views(errors@) =~= run::errors_of(self@).take(0));
        while i < self.failed.len()
            invariant
                i <= self.failed@.len(),
                windows@ == self@.windows,
                run::within(self.failed@, windows@.len()),
                error_views(errors@) == run::errors_of(self@).take(i as int),
            decreases self.failed@.len() - i,
        {
            let idx: usize = self.failed[i];
            let w = &windows[idx];
            let mut message = "launching ".to_owned();
            message.append(w.launch_cmd.as_str());
            let ghost before = error_views(errors@);
            let ghost entry = (w.app_id@, message@);
            errors.push((w.app_id.clone(), message));
            assert(error_views(errors@) =~= before.push(entry));
            i += 1;
            assert(error_views(errors@) =~= run::errors_of(self@).take(i as int));
        }
        assert(error_views(errors@) =~= run::errors_of(self@));
        RestoreReport { restored: self.restored.len(), failed: self.failed.len(), errors }
    }

    /// The applications whose windows have not appeared. If there are any when
    /// the restore is over, they are watched for.
    pub fn pending(&self) -> (r: Vec<String>)
        requires
            run::valid(self@),
        ensures
            text::views(r@) == run::pending_apps(self@),
    {
        let windows = &self.session.windows;
        let mut r: Vec<String> = Vec::new();
        let mut i: usize = 0;
        assert(text::views(r@) =~= run::pending_apps(self@).take(0));
        while i < self.pending.len()
            invariant
                i <= self.pending@.len(),
                windows@ == self@.windows,
                run::within(self.pending@, windows@.len()),
                text::views(r@) == run::pending_apps(self@).take(i as int),
            decreases self.pending@.len() - i,
        {
            let idx: usize = self.pending[i];
            let ghost before = text::views(r@);
            r.push(windows[idx].app_id.clone());
            assert(text::views(r@) =~= before.push(windows@[idx as int].app_id@));
            i += 1;
            assert(text::views(r@) =~= run::pending_apps(self@).take(i as int));
        }
        assert(text::views(r@) =~= run::pending_apps(self@));
        r
    }

    /// How many windows the compositor expects.
    pub fn registered(&self) -> (r: usize)
        ensures
            r == self@.registered.len(),
    {
        self.registered.len()
    }
}

} // verus!
