//! Which windows are restored in which way: the tiled windows of each
//! workspace, the layouts inferred for them, and the monitors that workspaces
//! are bound to.

use vstd::prelude::*;
use vstd::string::StringExecFns;

use crate::models::{SessionFile, WindowEntry};
use crate::text::{self, str_eq, str_precedes};

verus! {

broadcast use vstd::string::group_string_axioms;

/// The tiled windows of one workspace, by their positions in the session.
pub struct TiledGroup {
    pub workspace: String,
    pub indices: Vec<usize>,
}

/// The contents of a `TiledGroup`.
pub struct GroupView {
    pub workspace: String,
    pub indices: Seq<usize>,
}

impl View for TiledGroup {
    type V = GroupView;

    open spec fn view(&self) -> GroupView {
        GroupView { workspace: self.workspace, indices: self.indices@ }
    }
}

/// One window of a dwindle layout: it opens beside the window `focus_idx`, in
/// the direction `preselect`.
pub struct PlaceStep {
    pub window_idx: usize,
    pub focus_idx: Option<usize>,
    pub preselect: Option<String>,
}

/// One split of a dwindle layout: the window that is focused to reach it, and
/// how far its ratio is from that of a new split, with six decimals.
pub struct RatioStep {
    pub focus_window_idx: usize,
    pub delta: String,
}

/// How a workspace with a dwindle layout is built up again.
pub struct DwindlePlan {
    pub steps: Vec<PlaceStep>,
    pub ratio_steps: Vec<RatioStep>,
}

/// How a workspace with a master layout is built up again. `mfact` is the share
/// of the master area, with six decimals.
pub struct MasterPlan {
    pub orientation: String,
    pub mfact: String,
    pub master_indices: Vec<usize>,
    pub stack_indices: Vec<usize>,
}

/// A layout plan and the workspace that it is for.
pub struct Planned<P> {
    pub workspace: String,
    pub plan: P,
}

// ---------------------------------------------------------------------------
// Models
// ---------------------------------------------------------------------------

/// The positions of the floating windows, in order.
pub open spec fn floating_of(windows: Seq<WindowEntry>) -> Seq<usize>
    decreases windows.len(),
{
    if windows.len() == 0 {
        Seq::empty()
    } else if windows.last().floating {
        floating_of(windows.drop_last()).push((windows.len() - 1) as usize)
    } else {
        floating_of(windows.drop_last())
    }
}

/// The position of the group of `workspace` in a list ordered by workspace, or
/// the place where it belongs.
pub open spec fn slot(groups: Seq<GroupView>, workspace: Seq<char>) -> nat
    decreases groups.len(),
{
    if groups.len() == 0 || groups[0].workspace@ == workspace || text::precedes(
        workspace,
        groups[0].workspace@,
    ) {
        0
    } else {
        1 + slot(groups.drop_first(), workspace)
    }
}

/// `groups` with the window `i` of `workspace` as a further member.
pub open spec fn with_member(groups: Seq<GroupView>, workspace: String, i: usize) -> Seq<
    GroupView,
> {
    let at = slot(groups, workspace@) as int;
    if at < groups.len() && groups[at].workspace@ == workspace@ {
        groups.update(
            at,
            GroupView {
                workspace: groups[at].workspace,
                indices: groups[at].indices.push(i),
            },
        )
    } else {
        groups.insert(at, GroupView { workspace, indices: seq![i] })
    }
}

/// The tiled windows by workspace, in the order of the workspaces' names.
pub open spec fn groups_of(windows: Seq<WindowEntry>) -> Seq<GroupView>
    decreases windows.len(),
{
    if windows.len() == 0 {
        Seq::empty()
    } else if windows.last().floating {
        groups_of(windows.drop_last())
    } else {
        with_member(
            groups_of(windows.drop_last()),
            windows.last().workspace,
            (windows.len() - 1) as usize,
        )
    }
}

/// The plans that were inferred, each with its workspace.
pub open spec fn planned<P>(groups: Seq<GroupView>, inferred: Seq<Option<P>>) -> Seq<Planned<P>>
    decreases inferred.len(),
{
    if inferred.len() == 0 {
        Seq::empty()
    } else {
        let rest = planned(groups, inferred.drop_last());
        match inferred.last() {
            Some(plan) => rest.push(
                Planned { workspace: groups[inferred.len() - 1].workspace, plan },
            ),
            None => rest,
        }
    }
}

/// The windows of the workspaces for which no plan was inferred.
pub open spec fn unplanned<P>(groups: Seq<GroupView>, inferred: Seq<Option<P>>) -> Seq<usize>
    decreases inferred.len(),
{
    if inferred.len() == 0 {
        Seq::empty()
    } else {
        let rest = unplanned(groups, inferred.drop_last());
        match inferred.last() {
            Some(_) => rest,
            None => rest + groups[inferred.len() - 1].indices,
        }
    }
}

/// The window at `i` is the first of its workspace on its monitor.
pub open spec fn first_on_monitor(windows: Seq<WindowEntry>, i: int) -> bool {
    forall|j: int|
        0 <= j < i && (#[trigger] windows[j]).monitor is Some ==> !(windows[j].workspace@
            == windows[i].workspace@ && windows[j].monitor->0@ == windows[i].monitor->0@)
}

/// The window at `i` has a workspace bound to its monitor: the monitor is
/// connected, and no earlier window has caused the same binding.
pub open spec fn binds(windows: Seq<WindowEntry>, available: Seq<Seq<char>>, i: int) -> bool {
    &&& windows[i].monitor matches Some(monitor)
    &&& monitor@.len() > 0
    &&& available.contains(monitor@)
    &&& first_on_monitor(windows, i)
}

/// The windows among the first `n` whose workspaces are bound to monitors.
pub open spec fn bindings(windows: Seq<WindowEntry>, available: Seq<Seq<char>>, n: nat) -> Seq<
    usize,
>
    decreases n,
{
    if n == 0 {
        Seq::empty()
    } else {
        let rest = bindings(windows, available, (n - 1) as nat);
        if binds(windows, available, n - 1) {
            rest.push((n - 1) as usize)
        } else {
            rest
        }
    }
}

/// The rule that creates the workspace of `w` on its monitor.
pub open spec fn bind_text(w: WindowEntry) -> Seq<char> {
    "workspace "@ + w.workspace@ + ",monitor:"@ + (match w.monitor {
        Some(monitor) => monitor@,
        None => Seq::empty(),
    })
}

// ---------------------------------------------------------------------------
// Functions
// ---------------------------------------------------------------------------

/// The positions of the floating windows.
pub fn floating_windows(windows: &Vec<WindowEntry>) -> (r: Vec<usize>)
    ensures
        r@ == floating_of(windows@),
{
    let mut r: Vec<usize> = Vec::new();
    let mut i: usize = 0;
    assert(windows@.take(0) =~= Seq::<WindowEntry>::empty());
    while i < windows.len()
        invariant
            i <= windows@.len(),
            r@ == floating_of(windows@.take(i as int)),
        decreases windows@.len() - i,
    {
        assert(windows@.take(i + 1).drop_last() =~= windows@.take(i as int));
        if windows[i].floating {
            r.push(i);
        }
        i += 1;
    }
    assert(windows@.take(i as int) =~= windows@);
    r
}

/// The contents of each group of `groups`.
pub open spec fn group_views(groups: Seq<TiledGroup>) -> Seq<GroupView> {
    groups.map_values(|g: TiledGroup| g@)
}

/// The position of the group of `workspace`, or the place where it belongs.
fn find_slot(groups: &Vec<TiledGroup>, workspace: &str) -> (r: usize)
    ensures
        r == slot(group_views(groups@), workspace@),
        r <= groups@.len(),
{
    let ghost all = group_views(groups@);
    let mut i: usize = 0;
    assert(all.skip(0) =~= all);
    while i < groups.len()
        invariant
            i <= groups@.len(),
            all == group_views(groups@),
            slot(all, workspace@) == i + slot(all.skip(i as int), workspace@),
        decreases groups@.len() - i,
    {
        let name = groups[i].workspace.as_str();
        if str_eq(name, workspace) || str_precedes(workspace, name) {
            return i;
        }
        assert(all.skip(i as int).drop_first() =~= all.skip(i + 1));
        i += 1;
    }
    i
}

/// The tiled windows by workspace.
pub fn tiled_groups(windows: &Vec<WindowEntry>) -> (r: Vec<TiledGroup>)
    ensures
        group_views(r@) == groups_of(windows@),
{
    let mut r: Vec<TiledGroup> = Vec::new();
    let mut i: usize = 0;
    assert(windows@.take(0) =~= Seq::<WindowEntry>::empty());
    assert(group_views(r@) =~= Seq::<GroupView>::empty());
    while i < windows.len()
        invariant
            i <= windows@.len(),
            group_views(r@) == groups_of(windows@.take(i as int)),
        decreases windows@.len() - i,
    {
        assert(windows@.take(i + 1).drop_last() =~= windows@.take(i as int));
        let w = &windows[i];
        if !w.floating {
            let ghost before = group_views(r@);
            let at: usize = find_slot(&r, w.workspace.as_str());
            if at < r.len() && str_eq(r[at].workspace.as_str(), w.workspace.as_str()) {
                r[at].indices.push(i);
            } else {
                let mut indices: Vec<usize> = Vec::new();
                indices.push(i);
                assert(indices@ =~= seq![i]);
                r.insert(at, TiledGroup { workspace: w.workspace.clone(), indices });
            }
            assert(group_views(r@) =~= with_member(before, w.workspace, i));
        }
        i += 1;
    }
    assert(windows@.take(i as int) =~= windows@);
    r
}

/// Parts the workspaces with an inferred plan from those without: the plans, and
/// the windows that are left for a restore without a layout.
pub fn split_plans<P>(groups: Vec<TiledGroup>, inferred: Vec<Option<P>>) -> (r: (
    Vec<Planned<P>>,
    Vec<usize>,
))
    requires
        inferred@.len() == groups@.len(),
    ensures
        r.0@ == planned(group_views(groups@), inferred@),
        r.1@ == unplanned(group_views(groups@), inferred@),
{
    let ghost all = group_views(groups@);
    let mut plans: Vec<Planned<P>> = Vec::new();
    let mut left: Vec<usize> = Vec::new();
    let mut i: usize = 0;
    let n: usize = groups.len();
    let ghost given = inferred@;
    assert(given.take(0) =~= Seq::<Option<P>>::empty());
    for found in it: inferred
        invariant
            it.seq() == given,
            given.len() == n,
            n == groups@.len(),
            i == it.index(),
            all == group_views(groups@),
            plans@ == planned(all, given.take(i as int)),
            left@ == unplanned(all, given.take(i as int)),
    {
        assert(given.take(i + 1).drop_last() =~= given.take(i as int));
        assert(given.take(i + 1).last() == found);
        match found {
            Some(plan) => {
                plans.push(Planned { workspace: groups[i].workspace.clone(), plan });
            },
            None => {
                let mut k: usize = 0;
                let ghost before = left@;
                let members = &groups[i].indices;
                while k < members.len()
                    invariant
                        k <= members@.len(),
                        left@ == before + members@.take(k as int),
                    decreases members@.len() - k,
                {
                    left.push(members[k]);
                    assert(before + members@.take(k + 1) =~= (before + members@.take(
                        k as int,
                    )).push(members@[k as int]));
                    k += 1;
                }
                assert(members@.take(k as int) =~= members@);
            },
        }
        i += 1;
    }
    assert(given.take(i as int) =~= given);
    (plans, left)
}

/// Whether `names` holds `name`.
fn holds_name(names: &Vec<String>, name: &str) -> (r: bool)
    ensures
        r == text::views(names@).contains(name@),
{
    let mut i: usize = 0;
    while i < names.len()
        invariant
            i <= names@.len(),
            forall|j: int| 0 <= j < i ==> text::views(names@)[j] != name@,
        decreases names@.len() - i,
    {
        if str_eq(names[i].as_str(), name) {
            assert(text::views(names@)[i as int] == name@);
            return true;
        }
        i += 1;
    }
    false
}

/// Whether the window at `i` is the first of its workspace on `monitor`.
fn is_first_on_monitor(windows: &Vec<WindowEntry>, i: usize, monitor: &str) -> (r: bool)
    requires
        i < windows@.len(),
        windows@[i as int].monitor is Some,
        windows@[i as int].monitor->0@ == monitor@,
    ensures
        r == first_on_monitor(windows@, i as int),
{
    let mut j: usize = 0;
    while j < i
        invariant
            j <= i < windows@.len(),
            windows@[i as int].monitor is Some,
            windows@[i as int].monitor->0@ == monitor@,
            forall|k: int|
                0 <= k < j && (#[trigger] windows@[k]).monitor is Some ==> !(
                windows@[k].workspace@ == windows@[i as int].workspace@
                    && windows@[k].monitor->0@ == monitor@),
        decreases i - j,
    {
        if let Some(other) = &windows[j].monitor {
            if str_eq(windows[j].workspace.as_str(), windows[i].workspace.as_str()) && str_eq(
                other.as_str(),
                monitor,
            ) {
                return false;
            }
        }
        j += 1;
    }
    true
}

/// The windows whose workspaces are to be bound to their saved monitors: once
/// for each pair of a workspace and a monitor, and only where the monitor is
/// among `available`.
pub fn bind_workspaces_to_monitors(session: &SessionFile, available: &Vec<String>) -> (r: Vec<
    usize,
>)
    ensures
        r@ == bindings(
            session.windows@,
            text::views(available@),
            session.windows@.len(),
        ),
{
    let windows = &session.windows;
    let mut r: Vec<usize> = Vec::new();
    let mut i: usize = 0;
    while i < windows.len()
        invariant
            i <= windows@.len(),
            r@ == bindings(windows@, text::views(available@), i as nat),
        decreases windows@.len() - i,
    {
        if let Some(monitor) = &windows[i].monitor {
            if !monitor.as_str().is_empty() && holds_name(available, monitor.as_str())
                && is_first_on_monitor(windows, i, monitor.as_str()) {
                r.push(i);
            }
        }
        i += 1;
    }
    r
}

/// The rule that creates the workspace of `w` on its monitor.
pub fn bind_rule(w: &WindowEntry) -> (r: String)
    ensures
        r@ == bind_text(*w),
{
    let mut r = "workspace ".to_owned();
    r.append(w.workspace.as_str());
    r.append(",monitor:");
    if let Some(monitor) = &w.monitor {
        r.append(monitor.as_str());
    }
    r
}

// ---------------------------------------------------------------------------
// Laws
// ---------------------------------------------------------------------------

/// All floating windows are listed, each once, in the order of the session.
pub proof fn floating_listed(windows: Seq<WindowEntry>)
    requires
        windows.len() <= usize::MAX,
    ensures
        forall|k: int|
            #![trigger floating_of(windows)[k]]
            0 <= k < floating_of(windows).len() ==> floating_of(windows)[k] < windows.len()
                && windows[floating_of(windows)[k] as int].floating,
        forall|k: int, j: int|
            0 <= k < j < floating_of(windows).len() ==> floating_of(windows)[k] < floating_of(
                windows,
            )[j],
        forall|i: int|
            0 <= i < windows.len() && (#[trigger] windows[i]).floating ==> floating_of(
                windows,
            ).contains(i as usize),
    decreases windows.len(),
{
    if windows.len() > 0 {
        let before = windows.drop_last();
        floating_listed(before);
        let n = (windows.len() - 1) as usize;
        let list = floating_of(before);
        assert forall|i: int|
            0 <= i < windows.len() && (#[trigger] windows[i]).floating implies floating_of(
            windows,
        ).contains(i as usize) by {
            if i < before.len() {
                assert(before[i] == windows[i]);
                let k = choose|k: int| 0 <= k < list.len() && list[k] == i as usize;
                assert(floating_of(windows)[k] == i as usize);
            } else {
                assert(floating_of(windows)[list.len() as int] == n);
            }
        }
        assert forall|k: int|
            #![trigger floating_of(windows)[k]]
            0 <= k < floating_of(windows).len() implies floating_of(windows)[k] < windows.len()
            && windows[floating_of(windows)[k] as int].floating by {
            if k < list.len() {
                assert(before[list[k] as int] == windows[list[k] as int]);
            }
        }
    }
}

/// The groups stand in the order of their workspaces' names.
pub open spec fn ordered(groups: Seq<GroupView>) -> bool {
    forall|g: int, h: int|
        0 <= g < h < groups.len() ==> text::precedes(
            (#[trigger] groups[g]).workspace@,
            (#[trigger] groups[h]).workspace@,
        )
}

/// The members of the group are tiled windows of its workspace, in the order of
/// the session, and there is one at least.
pub open spec fn group_sound(windows: Seq<WindowEntry>, group: GroupView) -> bool {
    &&& group.indices.len() > 0
    &&& forall|k: int|
        #![trigger group.indices[k]]
        0 <= k < group.indices.len() ==> group.indices[k] < windows.len()
            && !windows[group.indices[k] as int].floating
            && windows[group.indices[k] as int].workspace@ == group.workspace@
    &&& forall|k: int, j: int|
        0 <= k < j < group.indices.len() ==> group.indices[k] < group.indices[j]
}

/// The window `i` is a member of one of the groups.
pub open spec fn in_some_group(groups: Seq<GroupView>, i: usize) -> bool {
    exists|g: int| 0 <= g < groups.len() && (#[trigger] groups[g]).indices.contains(i)
}

/// Where a workspace belongs in a list of groups: those before it have smaller
/// names, and those from there on have not.
proof fn slot_splits(groups: Seq<GroupView>, workspace: Seq<char>)
    ensures
        slot(groups, workspace) <= groups.len(),
        forall|g: int|
            0 <= g < slot(groups, workspace) ==> text::precedes(
                (#[trigger] groups[g]).workspace@,
                workspace,
            ),
        slot(groups, workspace) < groups.len() ==> groups[slot(
            groups,
            workspace,
        ) as int].workspace@ == workspace || text::precedes(
            workspace,
            groups[slot(groups, workspace) as int].workspace@,
        ),
    decreases groups.len(),
{
    if groups.len() > 0 {
        let tail = groups.drop_first();
        slot_splits(tail, workspace);
        text::precedes_total(groups[0].workspace@, workspace);
        if slot(groups, workspace) > 0 {
            assert forall|g: int| 0 <= g < slot(groups, workspace) implies text::precedes(
                (#[trigger] groups[g]).workspace@,
                workspace,
            ) by {
                if g > 0 {
                    assert(groups[g] == tail[g - 1]);
                }
            }
            if slot(groups, workspace) < groups.len() {
                assert(groups[slot(groups, workspace) as int] == tail[slot(
                    tail,
                    workspace,
                ) as int]);
            }
        }
    }
}

/// A workspace belongs among the groups or behind them.
pub proof fn slot_within(groups: Seq<GroupView>, workspace: Seq<char>)
    ensures
        slot(groups, workspace) <= groups.len(),
{
    slot_splits(groups, workspace);
}

/// Adding a window to its group keeps the groups in order.
proof fn with_member_ordered(groups: Seq<GroupView>, workspace: String, i: usize)
    requires
        ordered(groups),
    ensures
        ordered(with_member(groups, workspace, i)),
{
    let at = slot(groups, workspace@) as int;
    let after = with_member(groups, workspace, i);
    slot_splits(groups, workspace@);
    if at < groups.len() && groups[at].workspace@ == workspace@ {
        assert forall|g: int, h: int| 0 <= g < h < after.len() implies text::precedes(
            (#[trigger] after[g]).workspace@,
            (#[trigger] after[h]).workspace@,
        ) by {
            assert(after[g].workspace == groups[g].workspace);
            assert(after[h].workspace == groups[h].workspace);
        }
    } else {
        assert forall|g: int, h: int| 0 <= g < h < after.len() implies text::precedes(
            (#[trigger] after[g]).workspace@,
            (#[trigger] after[h]).workspace@,
        ) by {
            if h < at {
                assert(after[g] == groups[g] && after[h] == groups[h]);
            } else if h == at {
                assert(after[g] == groups[g]);
            } else {
                assert(after[h] == groups[h - 1]);
                if g > at {
                    assert(after[g] == groups[g - 1]);
                } else if g < at {
                    assert(after[g] == groups[g]);
                } else if h - 1 > at {
                    text::precedes_transitive(
                        workspace@,
                        groups[at].workspace@,
                        groups[h - 1].workspace@,
                    );
                }
            }
        }
    }
}

/// The tiled windows are grouped by workspace: the groups stand in the order of
/// the workspaces' names, each holds tiled windows of its workspace alone, in
/// the order of the session, and each tiled window is in one.
pub proof fn tiled_windows_grouped(windows: Seq<WindowEntry>)
    requires
        windows.len() <= usize::MAX,
    ensures
        ordered(groups_of(windows)),
        forall|g: int|
            0 <= g < groups_of(windows).len() ==> group_sound(
                windows,
                #[trigger] groups_of(windows)[g],
            ),
        forall|i: int|
            0 <= i < windows.len() && !(#[trigger] windows[i]).floating ==> in_some_group(
                groups_of(windows),
                i as usize,
            ),
    decreases windows.len(),
{
    if windows.len() > 0 {
        let before = windows.drop_last();
        tiled_windows_grouped(before);
        let n = (windows.len() - 1) as usize;
        let old_groups = groups_of(before);
        let new_groups = groups_of(windows);
        let last = windows.last();
        let at = slot(old_groups, last.workspace@) as int;
        assert forall|g: int| 0 <= g < old_groups.len() implies group_sound(
            windows,
            #[trigger] old_groups[g],
        ) by {
            let group = old_groups[g];
            assert(group_sound(before, group));
            assert forall|k: int|
                #![trigger group.indices[k]]
                0 <= k < group.indices.len() implies group.indices[k] < windows.len()
                && !windows[group.indices[k] as int].floating
                && windows[group.indices[k] as int].workspace@ == group.workspace@ by {
                assert(before[group.indices[k] as int] == windows[group.indices[k] as int]);
            }
        }
        if last.floating {
            assert forall|i: int|
                0 <= i < windows.len() && !(#[trigger] windows[i]).floating implies in_some_group(
                new_groups,
                i as usize,
            ) by {
                assert(before[i] == windows[i]);
            }
        } else {
            slot_splits(old_groups, last.workspace@);
            with_member_ordered(old_groups, last.workspace, n);
            let found = at < old_groups.len() && old_groups[at].workspace@ == last.workspace@;
            assert forall|g: int| 0 <= g < new_groups.len() implies group_sound(
                windows,
                #[trigger] new_groups[g],
            ) by {
                if found {
                    if g == at {
                        let was = old_groups[at];
                        let group = new_groups[at];
                        assert(group_sound(before, was));
                        assert(group_sound(windows, was));
                        assert forall|k: int|
                            #![trigger group.indices[k]]
                            0 <= k < group.indices.len() implies group.indices[k] < windows.len()
                            && !windows[group.indices[k] as int].floating
                            && windows[group.indices[k] as int].workspace@ == group.workspace@ by {
                            if k < was.indices.len() {
                                assert(group.indices[k] == was.indices[k]);
                            }
                        }
                        assert forall|k: int, j: int|
                            0 <= k < j < group.indices.len() implies group.indices[k]
                            < group.indices[j] by {
                            assert(group.indices[k] == was.indices[k]);
                            if j < was.indices.len() {
                                assert(group.indices[j] == was.indices[j]);
                            }
                        }
                    } else {
                        assert(new_groups[g] == old_groups[g]);
                    }
                } else if g < at {
                    assert(new_groups[g] == old_groups[g]);
                } else if g > at {
                    assert(new_groups[g] == old_groups[g - 1]);
                }
            }
            assert forall|i: int|
                0 <= i < windows.len() && !(#[trigger] windows[i]).floating implies in_some_group(
                new_groups,
                i as usize,
            ) by {
                if i < before.len() {
                    assert(before[i] == windows[i]);
                    let g = choose|g: int|
                        0 <= g < old_groups.len() && (
                        #[trigger] old_groups[g]).indices.contains(i as usize);
                    if found {
                        if g == at {
                            let was = old_groups[at].indices;
                            let k = choose|k: int| 0 <= k < was.len() && was[k] == i as usize;
                            assert(new_groups[at].indices[k] == i as usize);
                        }
                        assert(new_groups[g].indices.contains(i as usize));
                    } else if g < at {
                        assert(new_groups[g].indices.contains(i as usize));
                    } else {
                        assert(new_groups[g + 1].indices.contains(i as usize));
                    }
                } else {
                    let members = new_groups[at].indices;
                    assert(members[members.len() - 1] == n);
                    assert(new_groups[at].indices.contains(n));
                }
            }
        }
    }
}

/// The windows that no plan covers are windows of the session.
pub proof fn unplanned_within<P>(
    windows: Seq<WindowEntry>,
    groups: Seq<GroupView>,
    inferred: Seq<Option<P>>,
)
    requires
        inferred.len() <= groups.len(),
        forall|g: int| 0 <= g < groups.len() ==> group_sound(windows, #[trigger] groups[g]),
    ensures
        forall|k: int|
            0 <= k < unplanned(groups, inferred).len() ==> #[trigger] unplanned(groups, inferred)[k]
                < windows.len(),
    decreases inferred.len(),
{
    if inferred.len() > 0 {
        let before = inferred.drop_last();
        unplanned_within(windows, groups, before);
        let group = groups[inferred.len() - 1];
        assert(group_sound(windows, group));
        let rest = unplanned(groups, before);
        assert forall|k: int| 0 <= k < unplanned(groups, inferred).len() implies #[trigger] unplanned(
            groups,
            inferred,
        )[k] < windows.len() by {
            if k < rest.len() {
                assert(unplanned(groups, inferred)[k] == rest[k]);
            } else {
                assert(unplanned(groups, inferred)[k] == group.indices[k - rest.len()]);
            }
        }
    }
}

/// Every plan is one of those that were inferred.
pub proof fn planned_inferred<P>(groups: Seq<GroupView>, inferred: Seq<Option<P>>)
    ensures
        planned(groups, inferred).len() <= inferred.len(),
        forall|k: int|
            0 <= k < planned(groups, inferred).len() ==> inferred.contains(
                Some((#[trigger] planned(groups, inferred)[k]).plan),
            ),
    decreases inferred.len(),
{
    if inferred.len() > 0 {
        let before = inferred.drop_last();
        planned_inferred(groups, before);
        let rest = planned(groups, before);
        assert forall|k: int| 0 <= k < planned(groups, inferred).len() implies inferred.contains(
            Some((#[trigger] planned(groups, inferred)[k]).plan),
        ) by {
            if k < rest.len() {
                assert(planned(groups, inferred)[k] == rest[k]);
                let j = choose|j: int| 0 <= j < before.len() && before[j] == Some(rest[k].plan);
                assert(inferred[j] == Some(rest[k].plan));
            } else {
                assert(inferred[inferred.len() - 1] == Some(planned(groups, inferred)[k].plan));
            }
        }
    }
}

/// Workspaces are bound to connected monitors alone; no workspace is bound twice
/// to one monitor; and wherever a window was saved with a connected monitor, its
/// workspace is bound to that monitor.
pub proof fn workspaces_bound_once(windows: Seq<WindowEntry>, available: Seq<Seq<char>>, n: nat)
    requires
        n <= windows.len() <= usize::MAX,
    ensures
        forall|k: int|
            #![trigger bindings(windows, available, n)[k]]
            0 <= k < bindings(windows, available, n).len() ==> bindings(windows, available, n)[k]
                < n && binds(windows, available, bindings(windows, available, n)[k] as int),
        forall|k: int, j: int|
            #![trigger bindings(windows, available, n)[k], bindings(windows, available, n)[j]]
            0 <= k < j < bindings(windows, available, n).len() ==> !same_binding(
                windows[bindings(windows, available, n)[k] as int],
                windows[bindings(windows, available, n)[j] as int],
            ),
        forall|i: int|
            0 <= i < n && (#[trigger] windows[i]).monitor is Some && windows[i].monitor->0@.len()
                > 0 && available.contains(windows[i].monitor->0@) ==> bound_by_some(
                windows,
                bindings(windows, available, n),
                windows[i],
            ),
    decreases n,
{
    let all = bindings(windows, available, n);
    if n > 0 {
        let rest = bindings(windows, available, (n - 1) as nat);
        workspaces_bound_once(windows, available, (n - 1) as nat);
        assert forall|k: int|
            #![trigger all[k]]
            0 <= k < all.len() implies all[k] < n && binds(windows, available, all[k] as int) by {
            if k < rest.len() {
                assert(all[k] == rest[k]);
            }
        }
        assert forall|k: int, j: int|
            #![trigger all[k], all[j]]
            0 <= k < j < all.len() implies !same_binding(
            windows[all[k] as int],
            windows[all[j] as int],
        ) by {
            assert(all[k] == rest[k]);
            if j < rest.len() {
                assert(all[j] == rest[j]);
            } else {
                assert(first_on_monitor(windows, n - 1));
                assert(binds(windows, available, rest[k] as int));
                assert(windows[rest[k] as int].monitor is Some);
            }
        }
        assert forall|i: int|
            0 <= i < n && (#[trigger] windows[i]).monitor is Some && windows[i].monitor->0@.len()
                > 0 && available.contains(windows[i].monitor->0@) implies bound_by_some(
            windows,
            all,
            windows[i],
        ) by {
            if i < n - 1 {
                assert(bound_by_some(windows, rest, windows[i]));
                let k = choose|k: int|
                    0 <= k < rest.len() && same_binding(
                        windows[#[trigger] rest[k] as int],
                        windows[i],
                    );
                assert(same_binding(windows[all[k] as int], windows[i]));
            } else if first_on_monitor(windows, i) {
                assert(same_binding(windows[all[rest.len() as int] as int], windows[i]));
            } else {
                let j = choose|j: int|
                    0 <= j < i && (#[trigger] windows[j]).monitor is Some && windows[j].workspace@
                        == windows[i].workspace@ && windows[j].monitor->0@
                        == windows[i].monitor->0@;
                assert(bound_by_some(windows, rest, windows[j]));
                let k = choose|k: int|
                    0 <= k < rest.len() && same_binding(
                        windows[#[trigger] rest[k] as int],
                        windows[j],
                    );
                assert(same_binding(windows[all[k] as int], windows[i]));
            }
        }
    }
}

/// The two windows were saved on one workspace of one monitor.
pub open spec fn same_binding(a: WindowEntry, b: WindowEntry) -> bool {
    a.monitor is Some && b.monitor is Some && a.workspace@ == b.workspace@ && a.monitor->0@
        == b.monitor->0@
}

/// One of the windows `bound` has the workspace and the monitor of `w`.
pub open spec fn bound_by_some(
    windows: Seq<WindowEntry>,
    bound: Seq<usize>,
    w: WindowEntry,
) -> bool {
    exists|k: int|
        0 <= k < bound.len() && same_binding(windows[#[trigger] bound[k] as int], w)
}

/// The rule names the saved workspace and the saved monitor.
pub proof fn rule_names_both(w: WindowEntry, rule: String)
    requires
        call_ensures(bind_rule, (&w,), rule),
    ensures
        w.monitor matches Some(monitor) ==> rule@ == "workspace "@ + w.workspace@ + ",monitor:"@
            + monitor@,
        w.monitor is None ==> rule@ == "workspace "@ + w.workspace@ + ",monitor:"@,
{
    assert(rule@ == bind_text(w));
    let lead = "workspace "@ + w.workspace@ + ",monitor:"@;
    assert(lead + Seq::<char>::empty() =~= lead);
}

/// Windows of different workspaces on one monitor give different rules, and so do
/// windows of one workspace on different monitors.
pub proof fn rules_differ(a: WindowEntry, b: WindowEntry, first: String, second: String)
    requires
        call_ensures(bind_rule, (&a,), first),
        call_ensures(bind_rule, (&b,), second),
    ensures
        text::opt_view(a.monitor) == text::opt_view(b.monitor) ==> (first@ == second@
            <==> a.workspace@ == b.workspace@),
        a.monitor is Some && b.monitor is Some && a.workspace@ == b.workspace@ ==> (first@
            == second@ <==> a.monitor->0@ == b.monitor->0@),
{
    rule_names_both(a, first);
    rule_names_both(b, second);
    let x = "workspace "@;
    let m = ",monitor:"@;
    let n = x.len() as int;
    let s = match a.monitor {
        Some(monitor) => monitor@,
        None => Seq::empty(),
    };
    let t = match b.monitor {
        Some(monitor) => monitor@,
        None => Seq::empty(),
    };
    assert(first@ =~= x + a.workspace@ + m + s);
    assert(second@ =~= x + b.workspace@ + m + t);
    if first@ == second@ && s == t {
        assert(first@.len() == n + a.workspace@.len() + m.len() + s.len());
        assert(a.workspace@ =~= first@.subrange(n, n + a.workspace@.len()));
        assert(b.workspace@ =~= second@.subrange(n, n + b.workspace@.len()));
    }
    if first@ == second@ && a.workspace@ == b.workspace@ {
        let k = n + a.workspace@.len() + m.len();
        assert(s =~= first@.skip(k));
        assert(t =~= second@.skip(k));
    }
}

/// Only windows with a named monitor that is connected are listed for binding, in
/// the order of the session, and of windows with one workspace and one monitor the
/// first.
pub proof fn bound_to_connected(windows: Seq<WindowEntry>, available: Seq<Seq<char>>, n: nat)
    requires
        n <= windows.len() <= usize::MAX,
    ensures
        ({
            let all = bindings(windows, available, n);
            &&& forall|k: int|
                #![trigger all[k]]
                0 <= k < all.len() ==> {
                    let w = windows[all[k] as int];
                    all[k] < n && w.monitor is Some && w.monitor->0@ != Seq::<char>::empty()
                        && available.contains(w.monitor->0@)
                }
            &&& forall|k: int, i: int|
                #![trigger all[k], windows[i]]
                0 <= k < all.len() && 0 <= i < all[k] && windows[i].monitor is Some
                    && windows[i].workspace@ == windows[all[k] as int].workspace@
                    ==> windows[i].monitor->0@ != windows[all[k] as int].monitor->0@
            &&& forall|k: int, j: int|
                #![trigger all[k], all[j]]
                0 <= k < j < all.len() ==> all[k] < all[j]
        }),
    decreases n,
{
    let all = bindings(windows, available, n);
    if n > 0 {
        bound_to_connected(windows, available, (n - 1) as nat);
        let rest = bindings(windows, available, (n - 1) as nat);
        assert forall|k: int| #![trigger all[k]] 0 <= k < all.len() implies {
            let w = windows[all[k] as int];
            all[k] < n && w.monitor is Some && w.monitor->0@ != Seq::<char>::empty()
                && available.contains(w.monitor->0@)
        } by {
            if k < rest.len() {
                assert(all[k] == rest[k]);
            }
        }
        assert forall|k: int, i: int|
            #![trigger all[k], windows[i]]
            0 <= k < all.len() && 0 <= i < all[k] && windows[i].monitor is Some
                && windows[i].workspace@ == windows[all[k] as int].workspace@ implies windows[i].monitor->0@
            != windows[all[k] as int].monitor->0@ by {
            if k < rest.len() {
                assert(all[k] == rest[k]);
            }
        }
        assert forall|k: int, j: int|
            #![trigger all[k], all[j]]
            0 <= k < j < all.len() implies all[k] < all[j] by {
            assert(all[k] == rest[k]);
            if j < rest.len() {
                assert(all[j] == rest[j]);
            }
        }
    }
}

/// How many of the first `k` groups have a plan.
pub open spec fn plans_before<P>(inferred: Seq<Option<P>>, k: int) -> nat
    decreases k,
{
    if k <= 0 {
        0
    } else {
        plans_before(inferred, k - 1) + (if inferred[k - 1] is Some {
            1nat
        } else {
            0nat
        })
    }
}

/// How many windows stand in those of the first `k` groups that have no plan.
pub open spec fn left_before<P>(groups: Seq<GroupView>, inferred: Seq<Option<P>>, k: int) -> nat
    decreases k,
{
    if k <= 0 {
        0
    } else {
        left_before(groups, inferred, k - 1) + (if inferred[k - 1] is Some {
            0nat
        } else {
            groups[k - 1].indices.len()
        })
    }
}

/// The counts depend on the groups before alone.
proof fn counts_of_prefix<P>(
    groups: Seq<GroupView>,
    inferred: Seq<Option<P>>,
    longer: Seq<Option<P>>,
    k: int,
)
    requires
        0 <= k <= inferred.len() <= longer.len(),
        forall|i: int| 0 <= i < inferred.len() ==> inferred[i] == longer[i],
    ensures
        plans_before(inferred, k) == plans_before(longer, k),
        left_before(groups, inferred, k) == left_before(groups, longer, k),
    decreases k,
{
    if k > 0 {
        counts_of_prefix(groups, inferred, longer, k - 1);
        assert(inferred[k - 1] == longer[k - 1]);
    }
}

/// There are as many plans as were inferred, and as many windows are left as the
/// other groups have.
pub proof fn all_parted<P>(groups: Seq<GroupView>, inferred: Seq<Option<P>>)
    ensures
        planned(groups, inferred).len() == plans_before(inferred, inferred.len() as int),
        unplanned(groups, inferred).len() == left_before(groups, inferred, inferred.len() as int),
    decreases inferred.len(),
{
    if inferred.len() > 0 {
        let head = inferred.drop_last();
        all_parted(groups, head);
        counts_of_prefix(groups, head, inferred, head.len() as int);
    }
}

/// A group for which a plan was inferred has that plan, under the workspace of the
/// group, behind the plans of the groups before it. The windows of any other group
/// are left, behind those that are left of the groups before it.
pub proof fn group_parted<P>(groups: Seq<GroupView>, inferred: Seq<Option<P>>, k: int)
    requires
        0 <= k < inferred.len(),
    ensures
        inferred[k] matches Some(plan) ==> ({
            let plans = planned(groups, inferred);
            let at = plans_before(inferred, k) as int;
            at < plans.len() && plans[at].plan == plan && plans[at].workspace
                == groups[k].workspace
        }),
        inferred[k] is None ==> ({
            let left = unplanned(groups, inferred);
            let at = left_before(groups, inferred, k) as int;
            at + groups[k].indices.len() <= left.len() && left.subrange(
                at,
                at + groups[k].indices.len(),
            ) == groups[k].indices
        }),
    decreases inferred.len(),
{
    let head = inferred.drop_last();
    let n = head.len() as int;
    all_parted(groups, head);
    counts_of_prefix(groups, head, inferred, k);
    let left = unplanned(groups, inferred);
    let at = left_before(groups, inferred, k) as int;
    let end = at + groups[k].indices.len();
    if k < n {
        assert(head[k] == inferred[k]);
        group_parted(groups, head, k);
        if inferred[k] is None {
            assert(left.subrange(at, end) =~= unplanned(groups, head).subrange(at, end));
        }
    } else if inferred[k] is None {
        assert(left.subrange(at, end) =~= groups[k].indices);
    }
}

/// The groups hold every tiled window once, with the windows of its own workspace, in
/// the order of the session; no floating window is in any.
pub proof fn groups_made(windows: Vec<WindowEntry>, groups: Vec<TiledGroup>, i: int, g: int, k: int)
    requires
        call_ensures(tiled_groups, (&windows,), groups),
    ensures
        0 <= g < groups@.len() ==> groups@[g].indices@.len() > 0,
        0 <= g < groups@.len() && 0 <= k < groups@[g].indices@.len() ==> ({
            let at = groups@[g].indices@[k] as int;
            at < windows@.len() && !windows@[at].floating && windows@[at].workspace@
                == groups@[g].workspace@
        }),
        0 <= g < groups@.len() && 0 < k < groups@[g].indices@.len() ==> groups@[g].indices@[k - 1]
            < groups@[g].indices@[k],
        0 < g < groups@.len() ==> text::precedes(
            groups@[g - 1].workspace@,
            groups@[g].workspace@,
        ),
        0 <= i < windows@.len() && !windows@[i].floating ==> exists|h: int|
            0 <= h < groups@.len() && (#[trigger] groups@[h]).indices@.contains(i as usize),
{
    let views = group_views(groups@);
    assert(windows.len() == windows@.len());
    tiled_windows_grouped(windows@);
    assert(views.len() == groups@.len());
    if 0 <= g < groups@.len() {
        assert(views[g] == groups@[g]@);
        assert(group_sound(windows@, views[g]));
        if 0 <= k < groups@[g].indices@.len() {
            assert(views[g].indices[k] == groups@[g].indices@[k]);
        }
        if g > 0 {
            assert(views[g - 1] == groups@[g - 1]@);
        }
    }
    if 0 <= i < windows@.len() && !windows@[i].floating {
        assert(in_some_group(views, i as usize));
        let h = choose|h: int|
            0 <= h < views.len() && (#[trigger] views[h]).indices.contains(i as usize);
        assert(views[h] == groups@[h]@);
        assert(groups@[h].indices@.contains(i as usize));
    }
}

/// The floating windows are found, in the order of the session, and no others.
pub proof fn floating_found(windows: Vec<WindowEntry>, r: Vec<usize>, i: int, k: int)
    requires
        call_ensures(floating_windows, (&windows,), r),
    ensures
        0 <= i < windows@.len() ==> (windows@[i].floating <==> r@.contains(i as usize)),
        0 <= k < r@.len() ==> r@[k] < windows@.len(),
        0 < k < r@.len() ==> r@[k - 1] < r@[k],
{
    assert(windows.len() == windows@.len());
    floating_listed(windows@);
    if 0 <= i < windows@.len() && r@.contains(i as usize) {
        let j = choose|j: int| 0 <= j < r@.len() && r@[j] == i as usize;
        assert(windows@[floating_of(windows@)[j] as int].floating);
    }
    if 0 <= k < r@.len() {
        assert(floating_of(windows@)[k] < windows@.len());
    }
}

} // verus!
