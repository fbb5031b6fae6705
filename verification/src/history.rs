//! Whole restores: what holds of every run, whatever the compositor answers.
//!
//! A run is given by the answers that it got, in order. Each law below speaks
//! of all runs of `RestoreEngine::restore`.

use vstd::prelude::*;
use vstd::seq_lib::lemma_multiset_commutative;

use crate::models::WindowEntry;
use crate::plan::{DwindlePlan, GroupView, MasterPlan, Planned};
use crate::run::{Reply, Role, RunView, Step};
use crate::{client, plan, run, text};

verus! {

// ---------------------------------------------------------------------------
// Runs
// ---------------------------------------------------------------------------

/// The state that `replies` lead to from `st`.
pub open spec fn after(st: RunView, replies: Seq<Reply>) -> RunView
    decreases replies.len(),
{
    if replies.len() == 0 {
        st
    } else {
        run::react(after(st, replies.drop_last()), replies.last())
    }
}

/// Each of `replies` answers what is asked for when it comes.
pub open spec fn answered(st: RunView, replies: Seq<Reply>) -> bool
    decreases replies.len(),
{
    replies.len() > 0 ==> {
        let before = after(st, replies.drop_last());
        answered(st, replies.drop_last()) && run::answers(
            run::action_of(before),
            replies.last(),
            before.windows.len(),
        )
    }
}

/// The steps that `replies` answer, in order.
pub open spec fn taken(st: RunView, replies: Seq<Reply>) -> Seq<Step>
    decreases replies.len(),
{
    if replies.len() == 0 {
        Seq::empty()
    } else {
        taken(st, replies.drop_last()).push(after(st, replies.drop_last()).todo[0])
    }
}

/// What was answered last was a step of a restore under way.
proof fn answered_step(st: RunView, replies: Seq<Reply>)
    requires
        answered(st, replies),
        replies.len() > 0,
    ensures
        answered(st, replies.drop_last()),
        after(st, replies.drop_last()).stopped is None,
        after(st, replies.drop_last()).todo.len() > 0,
        after(st, replies) == run::react(after(st, replies.drop_last()), replies.last()),
        taken(st, replies) == taken(st, replies.drop_last()).push(
            after(st, replies.drop_last()).todo[0],
        ),
{
}

/// A restore begins in a valid state.
pub proof fn initial_valid(windows: Seq<WindowEntry>, restore_layout: bool)
    requires
        windows.len() <= usize::MAX,
    ensures
        run::valid(run::initial(windows, restore_layout)),
{
}

/// Every state that a run reaches is valid, and the session stays as it is.
pub proof fn run_stays_valid(windows: Seq<WindowEntry>, restore_layout: bool, replies: Seq<Reply>)
    requires
        windows.len() <= usize::MAX,
        answered(run::initial(windows, restore_layout), replies),
    ensures
        run::valid(after(run::initial(windows, restore_layout), replies)),
        after(run::initial(windows, restore_layout), replies).windows == windows,
    decreases replies.len(),
{
    let first = run::initial(windows, restore_layout);
    if replies.len() == 0 {
        initial_valid(windows, restore_layout);
    } else {
        run_stays_valid(windows, restore_layout, replies.drop_last());
        run::react_keeps_valid(after(first, replies.drop_last()), replies.last());
    }
}

// ---------------------------------------------------------------------------
// Every window is accounted for
// ---------------------------------------------------------------------------

/// The windows that a step stands for: those that it is to launch, sooner or
/// later.
pub open spec fn owed_step(st: RunView, step: Step) -> Seq<usize> {
    match step {
        Step::Launch { idx, .. } => seq![idx],
        Step::AwaitOpen { idx, .. } => seq![idx],
        Step::Place { plan, step } => seq![
            st.dwindle[plan as int].plan.steps@[step as int].window_idx,
        ],
        Step::Layout | Step::InferDwindle | Step::InferMaster => run::all_indices(
            st.windows.len(),
        ),
        _ => Seq::empty(),
    }
}

/// The windows that `steps` stand for.
pub open spec fn owed(st: RunView, steps: Seq<Step>) -> Seq<usize>
    decreases steps.len(),
{
    if steps.len() == 0 {
        Seq::empty()
    } else {
        owed(st, steps.drop_last()) + owed_step(st, steps.last())
    }
}

/// Each window of the session is restored, failed or still owed, and is so once.
pub open spec fn balanced(st: RunView) -> bool {
    (st.restored + st.failed + owed(st, st.todo)).to_multiset() == run::all_indices(
        st.windows.len(),
    ).to_multiset()
}

/// The windows that a dwindle plan opens.
pub open spec fn dwindle_windows(plan: DwindlePlan) -> Seq<usize> {
    plan.steps@.map_values(|s: plan::PlaceStep| s.window_idx)
}

/// The windows that a master plan opens.
pub open spec fn master_windows(plan: MasterPlan) -> Seq<usize> {
    plan.master_indices@ + plan.stack_indices@
}

/// Each plan in `reply` opens each window of its group once, and no other.
pub open spec fn covers(groups: Seq<GroupView>, reply: Reply) -> bool {
    match reply {
        Reply::DwindlePlans(plans) => forall|k: int|
            0 <= k < plans@.len() && (#[trigger] plans@[k]) is Some ==> dwindle_windows(
                plans@[k]->0,
            ).to_multiset() == groups[k].indices.to_multiset(),
        Reply::MasterPlans(plans) => forall|k: int|
            0 <= k < plans@.len() && (#[trigger] plans@[k]) is Some ==> master_windows(
                plans@[k]->0,
            ).to_multiset() == groups[k].indices.to_multiset(),
        _ => true,
    }
}

/// All plans in `replies` open the windows of their groups, each once.
pub open spec fn covering(windows: Seq<WindowEntry>, replies: Seq<Reply>) -> bool {
    forall|k: int|
        0 <= k < replies.len() ==> covers(plan::groups_of(windows), #[trigger] replies[k])
}

/// What two lists of steps stand for is what they stand for together.
proof fn owed_concat(st: RunView, a: Seq<Step>, b: Seq<Step>)
    ensures
        owed(st, a + b) == owed(st, a) + owed(st, b),
    decreases b.len(),
{
    if b.len() == 0 {
        assert(a + b =~= a);
        assert(owed(st, a) + owed(st, b) =~= owed(st, a));
    } else {
        owed_concat(st, a, b.drop_last());
        assert((a + b).drop_last() =~= a + b.drop_last());
        assert(owed(st, a) + owed(st, b) =~= owed(st, a) + owed(st, b.drop_last()) + owed_step(
            st,
            b.last(),
        ));
    }
}

/// One step stands for its windows.
proof fn owed_one(st: RunView, step: Step)
    ensures
        owed(st, seq![step]) == owed_step(st, step),
{
    let one = seq![step];
    assert(owed(st, one.drop_last()) =~= Seq::<usize>::empty());
    assert(one.last() == step);
    assert(owed(st, one) =~= owed_step(st, step));
}

/// What steps stand for does not depend on plans that they do not name.
proof fn owed_elsewhere(st: RunView, next: RunView, steps: Seq<Step>)
    requires
        next.windows == st.windows,
        next.dwindle == st.dwindle || forall|k: int|
            0 <= k < steps.len() ==> !((#[trigger] steps[k]) is Place),
    ensures
        owed(next, steps) == owed(st, steps),
    decreases steps.len(),
{
    if steps.len() > 0 {
        assert(steps[steps.len() - 1] == steps.last());
        assert forall|k: int| 0 <= k < steps.drop_last().len() && next.dwindle
            != st.dwindle implies !((#[trigger] steps.drop_last()[k]) is Place) by {
            assert(steps.drop_last()[k] == steps[k]);
        }
        owed_elsewhere(st, next, steps.drop_last());
    }
}

/// The steps that launch windows stand for those windows.
proof fn owed_launches(st: RunView, indices: Seq<usize>, role: Role)
    ensures
        owed(st, run::launches(indices, role)) == indices,
    decreases indices.len(),
{
    let steps = run::launches(indices, role);
    if indices.len() == 0 {
        assert(owed(st, steps) =~= indices);
    } else {
        owed_launches(st, indices.drop_last(), role);
        assert(steps.drop_last() =~= run::launches(indices.drop_last(), role));
        assert(indices =~= indices.drop_last() + seq![indices.last()]);
    }
}

/// The steps that open master windows stand for those windows.
proof fn owed_master_launches(st: RunView, indices: Seq<usize>)
    ensures
        owed(st, run::master_launches(indices)) == indices,
    decreases indices.len(),
{
    let steps = run::master_launches(indices);
    if indices.len() == 0 {
        assert(owed(st, steps) =~= indices);
    } else {
        owed_master_launches(st, indices.drop_last());
        assert(steps.drop_last() =~= run::master_launches(indices.drop_last()));
        assert(indices =~= indices.drop_last() + seq![indices.last()]);
    }
}

/// The windows that plans open, plan by plan.
pub open spec fn plan_windows<P>(plans: Seq<Planned<P>>, of: spec_fn(P) -> Seq<usize>) -> Seq<usize>
    decreases plans.len(),
{
    if plans.len() == 0 {
        Seq::empty()
    } else {
        plan_windows(plans.drop_last(), of) + of(plans.last().plan)
    }
}

/// The members of all groups, group by group.
pub open spec fn members(groups: Seq<GroupView>) -> Seq<usize>
    decreases groups.len(),
{
    if groups.len() == 0 {
        Seq::empty()
    } else {
        members(groups.drop_last()) + groups.last().indices
    }
}

/// The placements of one dwindle plan stand for its windows.
proof fn owed_placements(st: RunView, k: usize, n: nat)
    requires
        k < st.dwindle.len(),
        n <= st.dwindle[k as int].plan.steps@.len() <= usize::MAX,
    ensures
        owed(st, Seq::new(n, |s: int| Step::Place { plan: k, step: s as usize }))
            == dwindle_windows(st.dwindle[k as int].plan).take(n as int),
    decreases n,
{
    let steps = Seq::new(n, |s: int| Step::Place { plan: k, step: s as usize });
    let all = dwindle_windows(st.dwindle[k as int].plan);
    if n > 0 {
        owed_placements(st, k, (n - 1) as nat);
        assert(steps.drop_last() =~= Seq::new(
            (n - 1) as nat,
            |s: int| Step::Place { plan: k, step: s as usize },
        ));
        assert(all.take(n as int) =~= all.take(n - 1) + seq![all[n - 1]]);
    } else {
        assert(owed(st, steps) =~= all.take(0));
    }
}

/// The placements of dwindle plans stand for the windows of those plans.
proof fn owed_place_steps(st: RunView, n: nat)
    requires
        n <= st.dwindle.len() <= usize::MAX,
    ensures
        owed(st, run::place_steps(st.dwindle, n)) == plan_windows(
            st.dwindle.take(n as int),
            |p: DwindlePlan| dwindle_windows(p),
        ),
    decreases n,
{
    if n > 0 {
        owed_place_steps(st, (n - 1) as nat);
        let k = (n - 1) as usize;
        let plan = st.dwindle[n - 1].plan;
        let m = plan.steps@.len();
        assert(plan.steps.len() == m);
        owed_placements(st, k, m);
        assert(dwindle_windows(plan).take(m as int) =~= dwindle_windows(plan));
        let added = Seq::new(m, |s: int| Step::Place { plan: k, step: s as usize });
        assert(run::place_steps(st.dwindle, n) =~= run::place_steps(st.dwindle, (n - 1) as nat)
            + added);
        owed_concat(st, run::place_steps(st.dwindle, (n - 1) as nat), added);
        assert(st.dwindle.take(n as int).drop_last() =~= st.dwindle.take(n - 1));
    }
}

/// The steps of master plans stand for the windows of those plans.
proof fn owed_master_steps(st: RunView, plans: Seq<Planned<MasterPlan>>, n: nat)
    requires
        n <= plans.len(),
    ensures
        owed(st, run::master_plans_steps(plans, n)) == plan_windows(
            plans.take(n as int),
            |p: MasterPlan| master_windows(p),
        ),
    decreases n,
{
    if n > 0 {
        owed_master_steps(st, plans, (n - 1) as nat);
        let k = (n - 1) as usize;
        let p = plans[n - 1].plan;
        let lead = seq![Step::Mfact(k), Step::MasterWorkspace(k), Step::Orientation(k)];
        let first = run::master_launches(p.master_indices@);
        let second = run::launches(p.stack_indices@, Role::Plain);
        owed_quiet(st, lead);
        owed_master_launches(st, p.master_indices@);
        owed_launches(st, p.stack_indices@, Role::Plain);
        owed_concat(st, lead, first);
        owed_concat(st, lead + first, second);
        owed_concat(
            st,
            run::master_plans_steps(plans, (n - 1) as nat),
            run::master_plan_steps(p, k),
        );
        assert(plans.take(n as int).drop_last() =~= plans.take(n - 1));
        assert(owed(st, run::master_plan_steps(p, k)) =~= master_windows(p));
    }
}

/// Steps that launch nothing stand for no window.
proof fn owed_quiet(st: RunView, steps: Seq<Step>)
    requires
        forall|k: int| 0 <= k < steps.len() ==> owed_step(st, #[trigger] steps[k]).len() == 0,
    ensures
        owed(st, steps) == Seq::<usize>::empty(),
    decreases steps.len(),
{
    if steps.len() > 0 {
        let head = steps.drop_last();
        assert forall|k: int| 0 <= k < head.len() implies owed_step(
            st,
            #[trigger] head[k],
        ).len() == 0 by {
            assert(head[k] == steps[k]);
        }
        assert(steps[steps.len() - 1] == steps.last());
        owed_quiet(st, head);
        assert(owed(st, steps) =~= Seq::<usize>::empty());
    }
}

/// Parting the groups that have plans from the others loses no window and doubles
/// none, if each plan opens each window of its group once.
pub proof fn split_covers<P>(
    groups: Seq<GroupView>,
    inferred: Seq<Option<P>>,
    of: spec_fn(P) -> Seq<usize>,
)
    requires
        inferred.len() <= groups.len(),
        forall|k: int|
            0 <= k < inferred.len() && (#[trigger] inferred[k]) is Some ==> of(
                inferred[k]->0,
            ).to_multiset() == groups[k].indices.to_multiset(),
    ensures
        (plan_windows(plan::planned(groups, inferred), of) + plan::unplanned(
            groups,
            inferred,
        )).to_multiset() == members(groups.take(inferred.len() as int)).to_multiset(),
    decreases inferred.len(),
{
    let n = inferred.len() as int;
    if n == 0 {
        assert(plan_windows(plan::planned(groups, inferred), of) + plan::unplanned(groups, inferred)
            =~= members(groups.take(0)));
    } else {
        let head = inferred.drop_last();
        assert forall|k: int| 0 <= k < head.len() && (#[trigger] head[k]) is Some implies of(
            head[k]->0,
        ).to_multiset() == groups[k].indices.to_multiset() by {
            assert(head[k] == inferred[k]);
        }
        split_covers(groups, head, of);
        let plans = plan_windows(plan::planned(groups, head), of);
        let left = plan::unplanned(groups, head);
        let own = groups[n - 1].indices;
        assert(groups.take(n).drop_last() =~= groups.take(n - 1));
        lemma_multiset_commutative(members(groups.take(n - 1)), own);
        lemma_multiset_commutative(plans, left);
        if inferred[n - 1] is Some {
            let added = of(inferred[n - 1]->0);
            assert(plan::planned(groups, inferred).drop_last() =~= plan::planned(groups, head));
            lemma_multiset_commutative(plans, added);
            lemma_multiset_commutative(plans + added, left);
            assert((plans + added + left).to_multiset() =~= (plans + left).to_multiset().add(
                own.to_multiset(),
            ));
        } else {
            lemma_multiset_commutative(plans + left, own);
            assert(plans + (left + own) =~= plans + left + own);
        }
    }
}

/// Changing one group changes the members by that group's.
proof fn members_update(groups: Seq<GroupView>, at: int, group: GroupView, i: usize)
    requires
        0 <= at < groups.len(),
        group.indices == groups[at].indices.push(i),
    ensures
        members(groups.update(at, group)).to_multiset() == members(groups).to_multiset().insert(i),
    decreases groups.len(),
{
    broadcast use vstd::seq_lib::group_to_multiset_ensures;

    let n = groups.len() as int;
    let next = groups.update(at, group);
    let head = groups.drop_last();
    lemma_multiset_commutative(members(head), groups.last().indices);
    lemma_multiset_commutative(members(next.drop_last()), next.last().indices);
    if at == n - 1 {
        assert(next.drop_last() =~= head);
        assert(members(next).to_multiset() =~= members(groups).to_multiset().insert(i));
    } else {
        members_update(head, at, group, i);
        assert(next.drop_last() =~= head.update(at, group));
        assert(members(next).to_multiset() =~= members(groups).to_multiset().insert(i));
    }
}

/// A new group adds its members.
proof fn members_insert(groups: Seq<GroupView>, at: int, group: GroupView, i: usize)
    requires
        0 <= at <= groups.len(),
        group.indices == seq![i],
    ensures
        members(groups.insert(at, group)).to_multiset() == members(groups).to_multiset().insert(i),
    decreases groups.len(),
{
    broadcast use vstd::seq_lib::group_to_multiset_ensures;

    let n = groups.len() as int;
    let next = groups.insert(at, group);
    if at == n {
        assert(next.drop_last() =~= groups);
        assert(members(groups) + seq![i] =~= members(groups).push(i));
    } else {
        let head = groups.drop_last();
        members_insert(head, at, group, i);
        assert(next.drop_last() =~= head.insert(at, group));
        assert(next.last() == groups.last());
        lemma_multiset_commutative(members(head), groups.last().indices);
        lemma_multiset_commutative(members(next.drop_last()), groups.last().indices);
        assert(members(next).to_multiset() =~= members(groups).to_multiset().insert(i));
    }
}

/// Each window of a session either floats or is a member of one group, once.
pub proof fn windows_parted(windows: Seq<WindowEntry>)
    ensures
        (members(plan::groups_of(windows)) + plan::floating_of(windows)).to_multiset()
            == run::all_indices(windows.len()).to_multiset(),
    decreases windows.len(),
{
    broadcast use vstd::seq_lib::group_to_multiset_ensures;

    let groups = plan::groups_of(windows);
    let floating = plan::floating_of(windows);
    let all = run::all_indices(windows.len());
    lemma_multiset_commutative(members(groups), floating);
    if windows.len() == 0 {
        assert(members(groups) + floating =~= all);
    } else {
        let before = windows.drop_last();
        windows_parted(before);
        let i = (windows.len() - 1) as usize;
        lemma_multiset_commutative(members(plan::groups_of(before)), plan::floating_of(before));
        assert(all =~= run::all_indices(before.len()).push(i));
        if windows.last().floating {
            assert((members(groups) + floating).to_multiset() =~= all.to_multiset());
        } else {
            let was = plan::groups_of(before);
            let ws = windows.last().workspace;
            let at = plan::slot(was, ws@) as int;
            plan::slot_within(was, ws@);
            if at < was.len() && was[at].workspace@ == ws@ {
                members_update(was, at, groups[at], i);
            } else {
                members_insert(was, at, groups[at], i);
            }
            assert((members(groups) + floating).to_multiset() =~= all.to_multiset());
        }
    }
}

/// The dwindle steps that follow from plans stand for all windows.
proof fn owed_dwindle(next: RunView, inferred: Seq<Option<DwindlePlan>>)
    requires
        next.windows.len() <= usize::MAX,
        inferred.len() == plan::groups_of(next.windows).len() <= usize::MAX,
        next.dwindle == plan::planned(plan::groups_of(next.windows), inferred),
        forall|k: int|
            0 <= k < inferred.len() && (#[trigger] inferred[k]) is Some ==> dwindle_windows(
                inferred[k]->0,
            ).to_multiset() == plan::groups_of(next.windows)[k].indices.to_multiset(),
    ensures
        owed(
            next,
            run::dwindle_steps(
                next.dwindle,
                plan::unplanned(plan::groups_of(next.windows), inferred),
                plan::floating_of(next.windows),
            ),
        ).to_multiset() == run::all_indices(next.windows.len()).to_multiset(),
{
    let groups = plan::groups_of(next.windows);
    let of = |p: DwindlePlan| dwindle_windows(p);
    let fallback = plan::unplanned(groups, inferred);
    let floating = plan::floating_of(next.windows);
    let n = next.dwindle.len();
    plan::planned_inferred(groups, inferred);
    let a = run::place_steps(next.dwindle, n);
    let b = run::ratio_steps(next.dwindle, n);
    let c = seq![
        Step::RatioSettle,
        Step::Converge { pass: 0, at: 0, ok: true },
        Step::Fullscreen(0),
    ];
    let d = run::launches(fallback, Role::Plain);
    let e = run::launches(floating, Role::Plain);
    owed_place_steps(next, n);
    assert(next.dwindle.take(n as int) =~= next.dwindle);
    ratio_steps_quiet(next, next.dwindle, n);
    owed_quiet(next, b);
    owed_quiet(next, c);
    owed_launches(next, fallback, Role::Plain);
    owed_launches(next, floating, Role::Plain);
    owed_concat(next, a, b);
    owed_concat(next, a + b, c);
    owed_concat(next, a + b + c, d);
    owed_concat(next, a + b + c + d, e);
    let placed = plan_windows(next.dwindle, of);
    assert(owed(next, a + b + c + d + e) =~= placed + fallback + floating);
    split_covers(groups, inferred, of);
    assert(groups.take(inferred.len() as int) =~= groups);
    windows_parted(next.windows);
    lemma_multiset_commutative(placed + fallback, floating);
    lemma_multiset_commutative(members(groups), floating);
}

/// The steps that set ratios stand for no window.
proof fn ratio_steps_quiet(st: RunView, plans: Seq<Planned<DwindlePlan>>, n: nat)
    ensures
        forall|k: int|
            0 <= k < run::ratio_steps(plans, n).len() ==> owed_step(
                st,
                #[trigger] run::ratio_steps(plans, n)[k],
            ).len() == 0,
    decreases n,
{
    if n > 0 {
        ratio_steps_quiet(st, plans, (n - 1) as nat);
        let head = run::ratio_steps(plans, (n - 1) as nat);
        assert forall|k: int| 0 <= k < run::ratio_steps(plans, n).len() implies owed_step(
            st,
            #[trigger] run::ratio_steps(plans, n)[k],
        ).len() == 0 by {
            if k < head.len() {
                assert(run::ratio_steps(plans, n)[k] == head[k]);
            }
        }
    }
}

/// The master steps that follow from plans stand for all windows.
proof fn owed_master(next: RunView, inferred: Seq<Option<MasterPlan>>)
    requires
        next.windows.len() <= usize::MAX,
        inferred.len() == plan::groups_of(next.windows).len(),
        next.master == plan::planned(plan::groups_of(next.windows), inferred),
        forall|k: int|
            0 <= k < inferred.len() && (#[trigger] inferred[k]) is Some ==> master_windows(
                inferred[k]->0,
            ).to_multiset() == plan::groups_of(next.windows)[k].indices.to_multiset(),
    ensures
        owed(
            next,
            run::master_steps(
                next.master,
                plan::unplanned(plan::groups_of(next.windows), inferred),
                plan::floating_of(next.windows),
            ),
        ).to_multiset() == run::all_indices(next.windows.len()).to_multiset(),
{
    let groups = plan::groups_of(next.windows);
    let of = |p: MasterPlan| master_windows(p);
    let fallback = plan::unplanned(groups, inferred);
    let floating = plan::floating_of(next.windows);
    let n = next.master.len();
    let a = run::master_plans_steps(next.master, n);
    let d = run::launches(fallback, Role::Plain);
    let e = run::launches(floating, Role::Plain);
    owed_master_steps(next, next.master, n);
    assert(next.master.take(n as int) =~= next.master);
    owed_launches(next, fallback, Role::Plain);
    owed_launches(next, floating, Role::Plain);
    owed_concat(next, a, d);
    owed_concat(next, a + d, e);
    let placed = plan_windows(next.master, of);
    assert(owed(next, a + d + e) =~= placed + fallback + floating);
    split_covers(groups, inferred, of);
    assert(groups.take(inferred.len() as int) =~= groups);
    windows_parted(next.windows);
    lemma_multiset_commutative(placed + fallback, floating);
    lemma_multiset_commutative(members(groups), floating);
}

/// Replacing the step in front keeps the balance, if what it stood for is still
/// accounted for.
proof fn balance_kept(st: RunView, next: RunView, steps: Seq<Step>)
    requires
        balanced(st),
        st.todo.len() > 0,
        next.windows == st.windows,
        next.todo == steps + st.todo.drop_first(),
        owed(next, st.todo.drop_first()) == owed(st, st.todo.drop_first()),
        (next.restored + next.failed + owed(next, steps)).to_multiset() == (st.restored + st.failed
            + owed_step(st, st.todo[0])).to_multiset(),
    ensures
        balanced(next),
{
    let rest = st.todo.drop_first();
    let front = seq![st.todo[0]];
    assert(st.todo =~= front + rest);
    owed_concat(st, front, rest);
    owed_one(st, st.todo[0]);
    owed_concat(next, steps, rest);
    let tail = owed(st, rest);
    let a = st.restored + st.failed + owed_step(st, st.todo[0]);
    let b = next.restored + next.failed + owed(next, steps);
    assert(st.restored + st.failed + owed(st, st.todo) =~= a + tail);
    assert(next.restored + next.failed + owed(next, next.todo) =~= b + tail);
    lemma_multiset_commutative(a, tail);
    lemma_multiset_commutative(b, tail);
}

/// An answer keeps the balance, unless the restore is given up.
proof fn react_keeps_balance(st: RunView, reply: Reply)
    requires
        run::valid(st),
        balanced(st),
        run::answers(run::action_of(st), reply, st.windows.len()),
        covers(plan::groups_of(st.windows), reply),
    ensures
        run::react(st, reply).stopped is None ==> balanced(run::react(st, reply)),
{
    broadcast use vstd::seq_lib::group_to_multiset_ensures;

    let next = run::react(st, reply);
    let rest = st.todo.drop_first();
    let none = Seq::<Step>::empty();
    let front = st.todo[0];
    assert(none + rest =~= rest);
    assert(owed(next, none) =~= Seq::<usize>::empty());
    assert(st.todo.len() > 0 && st.stopped is None);
    assert(run::step_valid(st, front));
    if next.stopped is None {
        assert forall|k: int| 0 <= k < rest.len() && next.dwindle != st.dwindle implies !((
        #[trigger] rest[k]) is Place) by {
            assert(rest[k] == st.todo[k + 1]);
        }
        owed_elsewhere(st, next, rest);
        let done = st.restored + st.failed;
        match front {
            Step::InferDwindle => {
                let inferred = reply->DwindlePlans_0;
                assert(inferred.len() == inferred@.len());
                owed_dwindle(next, inferred@);
                let steps = run::dwindle_steps(
                    next.dwindle,
                    plan::unplanned(plan::groups_of(st.windows), inferred@),
                    plan::floating_of(st.windows),
                );
                lemma_multiset_commutative(done, owed(next, steps));
                lemma_multiset_commutative(done, owed_step(st, front));
                balance_kept(st, next, steps);
            },
            Step::InferMaster => {
                let inferred = reply->MasterPlans_0;
                owed_master(next, inferred@);
                let steps = run::master_steps(
                    next.master,
                    plan::unplanned(plan::groups_of(st.windows), inferred@),
                    plan::floating_of(st.windows),
                );
                lemma_multiset_commutative(done, owed(next, steps));
                lemma_multiset_commutative(done, owed_step(st, front));
                balance_kept(st, next, steps);
            },
            Step::Layout => {
                let n = st.windows.len();
                let steps = run::layout_steps(run::layout_of(reply), n);
                owed_launches(next, run::all_indices(n), Role::Plain);
                owed_one(next, Step::InferDwindle);
                owed_one(next, Step::InferMaster);
                balance_kept(st, next, steps);
            },
            Step::Monitors => {
                let steps = if reply is Monitors {
                    run::bind_steps(st.windows, text::views(reply->Monitors_0@))
                } else {
                    none
                };
                owed_quiet(next, steps);
                balance_kept(st, next, steps);
            },
            Step::Place { plan, step } => {
                let steps = run::placement_steps(st, plan, step);
                owed_quiet(next, steps.drop_last());
                assert(owed(next, steps) =~= owed_step(st, front));
                balance_kept(st, next, steps);
            },
            Step::Launch { idx, role } => {
                if reply is Failed {
                    lemma_multiset_commutative(st.restored, st.failed);
                    lemma_multiset_commutative(st.restored, next.failed);
                    assert(done + seq![idx] =~= done.push(idx));
                    assert(next.restored + next.failed + owed(next, none) =~= next.restored
                        + next.failed);
                    assert((next.restored + next.failed).to_multiset() =~= done.push(
                        idx,
                    ).to_multiset());
                    balance_kept(st, next, none);
                } else {
                    owed_one(next, Step::AwaitOpen { idx, role });
                    balance_kept(st, next, seq![Step::AwaitOpen { idx, role }]);
                }
            },
            Step::AwaitOpen { idx, role } => {
                if next != st {
                    let steps = run::after_launch(role, none);
                    assert(run::after_launch(role, rest) =~= steps + rest);
                    owed_quiet(next, steps);
                    lemma_multiset_commutative(st.restored, st.failed);
                    lemma_multiset_commutative(next.restored, st.failed);
                    assert(done + seq![idx] =~= done.push(idx));
                    assert(next.restored + next.failed + owed(next, steps) =~= next.restored
                        + next.failed);
                    assert((next.restored + next.failed).to_multiset() =~= done.push(
                        idx,
                    ).to_multiset());
                    balance_kept(st, next, steps);
                }
            },
            _ => {
                let steps = if next.todo == rest {
                    none
                } else {
                    seq![next.todo[0]]
                };
                assert(next.todo =~= steps + rest);
                owed_quiet(next, steps);
                balance_kept(st, next, steps);
            },
        }
    }
}

/// At every moment of a restore that is not given up, each window of the session
/// is restored, failed or still to be launched, and is so once. When the restore
/// is over, the windows that were restored and those that failed are together
/// all windows of the session. This supposes that the plans inferred for tiled
/// windows open each window of their workspace once.
pub proof fn every_window_accounted_for(
    windows: Seq<WindowEntry>,
    restore_layout: bool,
    replies: Seq<Reply>,
)
    requires
        windows.len() <= usize::MAX,
        answered(run::initial(windows, restore_layout), replies),
        covering(windows, replies),
    ensures
        ({
            let st = after(run::initial(windows, restore_layout), replies);
            &&& st.stopped is None ==> balanced(st)
            &&& run::action_of(st) is Done ==> (st.restored + st.failed).to_multiset()
                == run::all_indices(windows.len()).to_multiset()
            &&& run::action_of(st) is Done ==> st.restored.len() + st.failed.len()
                == windows.len()
        }),
    decreases replies.len(),
{
    broadcast use vstd::seq_lib::group_to_multiset_ensures;

    let first = run::initial(windows, restore_layout);
    let st = after(first, replies);
    let n = windows.len();
    run_stays_valid(windows, restore_layout, replies);
    if replies.len() == 0 {
        let a = seq![Step::Monitors, Step::FocusQuery, Step::Available, Step::Begin];
        let b = run::expect_steps(n);
        let c = seq![Step::End];
        let d = if restore_layout {
            seq![Step::Layout]
        } else {
            run::launches(run::all_indices(n), Role::Plain)
        };
        let e = seq![Step::FocusOn, Step::Finish];
        owed_quiet(first, a);
        owed_quiet(first, b);
        owed_quiet(first, c);
        owed_quiet(first, e);
        owed_one(first, Step::Layout);
        owed_launches(first, run::all_indices(n), Role::Plain);
        owed_concat(first, a, b);
        owed_concat(first, a + b, c);
        owed_concat(first, a + b + c, d);
        owed_concat(first, a + b + c + d, e);
        assert(first.restored + first.failed + owed(first, first.todo) =~= run::all_indices(n));
    } else {
        let head = replies.drop_last();
        let before = after(first, head);
        assert forall|k: int| 0 <= k < head.len() implies covers(
            plan::groups_of(windows),
            #[trigger] head[k],
        ) by {
            assert(head[k] == replies[k]);
        }
        assert(covers(plan::groups_of(windows), replies[replies.len() - 1]));
        every_window_accounted_for(windows, restore_layout, head);
        run_stays_valid(windows, restore_layout, head);
        react_keeps_balance(before, replies.last());
    }
    if run::action_of(st) is Done {
        assert(st.stopped is None);
        action_done(st);
        assert(owed(st, st.todo) =~= Seq::<usize>::empty());
        assert(st.restored + st.failed + owed(st, st.todo) =~= st.restored + st.failed);
        assert((st.restored + st.failed).to_multiset().len() == run::all_indices(
            n,
        ).to_multiset().len());
    }
}

/// A restore is over when no steps are left and it was not given up.
proof fn action_done(st: RunView)
    requires
        run::action_of(st) is Done,
    ensures
        st.todo.len() == 0,
        st.stopped is None,
{
}

// ---------------------------------------------------------------------------
// The order of steps
// ---------------------------------------------------------------------------

/// The phases of a restore: monitors, focus, registration, windows, focus again,
/// and the end.
pub open spec fn phase(step: Step) -> u8 {
    match step {
        Step::Monitors => 0,
        Step::Bind(_) => 1,
        Step::FocusQuery => 2,
        Step::FocusOff => 3,
        Step::Available => 4,
        Step::Begin => 5,
        Step::Expect(_) => 6,
        Step::End => 7,
        Step::FocusOn => 9,
        Step::Finish => 10,
        _ => WORK,
    }
}

/// The phase in which windows are launched and brought into place.
pub const WORK: u8 = 8;

/// The steps that an answer puts in the place of the step in front.
pub open spec fn new_steps(st: RunView, reply: Reply) -> Seq<Step> {
    let next = run::react(st, reply).todo;
    next.take(next.len() - st.todo.len() + 1)
}

/// A step of the phase in which windows are launched, as plans bring it: it does
/// not wait for a window or for plans, and if it goes through windows it begins
/// with the first.
spec fn is_work(step: Step) -> bool {
    &&& phase(step) == WORK
    &&& !(step is AwaitOpen)
    &&& !run::awaits_plans(step)
    &&& step matches Step::Converge { at, .. } ==> at == 0
    &&& step matches Step::Fullscreen(at) ==> at == 0
}

/// The steps of dwindle plans are work.
proof fn dwindle_steps_work(
    plans: Seq<Planned<DwindlePlan>>,
    fallback: Seq<usize>,
    floating: Seq<usize>,
)
    ensures
        forall|k: int|
            0 <= k < run::dwindle_steps(plans, fallback, floating).len() ==> is_work(
                #[trigger] run::dwindle_steps(plans, fallback, floating)[k],
            ),
{
    plan_steps_work(plans, plans.len());
    let a = run::place_steps(plans, plans.len());
    let b = run::ratio_steps(plans, plans.len());
    let c = seq![
        Step::RatioSettle,
        Step::Converge { pass: 0, at: 0, ok: true },
        Step::Fullscreen(0),
    ];
    let d = run::launches(fallback, Role::Plain);
    let e = run::launches(floating, Role::Plain);
    let all = run::dwindle_steps(plans, fallback, floating);
    assert(all == a + b + c + d + e);
    assert forall|k: int| 0 <= k < all.len() implies is_work(#[trigger] all[k]) by {
        let ab = a.len() + b.len();
        if k < a.len() {
            assert(all[k] == a[k]);
        } else if k < ab {
            assert(all[k] == b[k - a.len()]);
        } else if k < ab + 3 {
            assert(all[k] == c[k - ab]);
        } else if k < ab + 3 + d.len() {
            assert(all[k] == d[k - ab - 3]);
        } else {
            assert(all[k] == e[k - ab - 3 - d.len()]);
        }
    }
}

/// The placements and ratios of dwindle plans are work.
proof fn plan_steps_work(plans: Seq<Planned<DwindlePlan>>, n: nat)
    ensures
        forall|k: int|
            0 <= k < run::place_steps(plans, n).len() ==> is_work(
                #[trigger] run::place_steps(plans, n)[k],
            ),
        forall|k: int|
            0 <= k < run::ratio_steps(plans, n).len() ==> is_work(
                #[trigger] run::ratio_steps(plans, n)[k],
            ),
    decreases n,
{
    if n > 0 {
        plan_steps_work(plans, (n - 1) as nat);
        let a = run::place_steps(plans, (n - 1) as nat);
        let b = run::ratio_steps(plans, (n - 1) as nat);
        assert forall|k: int| 0 <= k < run::place_steps(plans, n).len() implies is_work(
            #[trigger] run::place_steps(plans, n)[k],
        ) by {
            if k < a.len() {
                assert(run::place_steps(plans, n)[k] == a[k]);
            }
        }
        assert forall|k: int| 0 <= k < run::ratio_steps(plans, n).len() implies is_work(
            #[trigger] run::ratio_steps(plans, n)[k],
        ) by {
            if k < b.len() {
                assert(run::ratio_steps(plans, n)[k] == b[k]);
            }
        }
    }
}

/// The steps of master plans are work.
proof fn master_steps_work(
    plans: Seq<Planned<MasterPlan>>,
    fallback: Seq<usize>,
    floating: Seq<usize>,
)
    ensures
        forall|k: int|
            0 <= k < run::master_steps(plans, fallback, floating).len() ==> is_work(
                #[trigger] run::master_steps(plans, fallback, floating)[k],
            ),
{
    master_plans_work(plans, plans.len());
    let a = run::master_plans_steps(plans, plans.len());
    let d = run::launches(fallback, Role::Plain);
    let e = run::launches(floating, Role::Plain);
    let all = run::master_steps(plans, fallback, floating);
    assert(all == a + d + e);
    assert forall|k: int| 0 <= k < all.len() implies is_work(#[trigger] all[k]) by {
        if k < a.len() {
            assert(all[k] == a[k]);
        } else if k < a.len() + d.len() {
            assert(all[k] == d[k - a.len()]);
        } else {
            assert(all[k] == e[k - a.len() - d.len()]);
        }
    }
}

/// The steps of each master plan are work.
proof fn master_plans_work(plans: Seq<Planned<MasterPlan>>, n: nat)
    ensures
        forall|k: int|
            0 <= k < run::master_plans_steps(plans, n).len() ==> is_work(
                #[trigger] run::master_plans_steps(plans, n)[k],
            ),
    decreases n,
{
    if n > 0 {
        master_plans_work(plans, (n - 1) as nat);
        let a = run::master_plans_steps(plans, (n - 1) as nat);
        let p = plans[n - 1].plan;
        let m = p.master_indices@.len();
        let added = run::master_plan_steps(p, (n - 1) as usize);
        assert forall|k: int| 0 <= k < added.len() implies is_work(#[trigger] added[k]) by {
            if 3 <= k < 3 + m {
                assert(added[k] == run::master_launches(p.master_indices@)[k - 3]);
            } else if k >= 3 + m {
                assert(added[k] == run::launches(p.stack_indices@, Role::Plain)[k - 3 - m]);
            }
        }
        assert forall|k: int| 0 <= k < run::master_plans_steps(plans, n).len() implies is_work(
            #[trigger] run::master_plans_steps(plans, n)[k],
        ) by {
            if k < a.len() {
                assert(run::master_plans_steps(plans, n)[k] == a[k]);
            } else {
                assert(run::master_plans_steps(plans, n)[k] == added[k - a.len()]);
            }
        }
    }
}

/// An answer replaces the step in front by others and leaves the rest as they
/// are; or all steps are gone, because the restore is given up.
pub proof fn react_splices(st: RunView, reply: Reply)
    requires
        st.stopped is None,
        st.todo.len() > 0,
    ensures
        run::react(st, reply).stopped is None ==> run::react(st, reply).todo.len() + 1
            >= st.todo.len() && run::react(st, reply).todo == new_steps(st, reply)
            + st.todo.drop_first(),
        run::react(st, reply).stopped is Some ==> run::react(st, reply).todo.len() == 0,
{
    let next = run::react(st, reply);
    let rest = st.todo.drop_first();
    if next.stopped is None {
        let m = next.todo.len() - rest.len();
        assert(m >= 0);
        assert(next.todo.skip(m) =~= rest);
        assert(next.todo =~= next.todo.take(m) + next.todo.skip(m));
    }
}

/// What steps an answer can bring: bindings when the monitors are known, the ban
/// on focus when it was allowed, and otherwise work in the place of work. A
/// window is waited for once it was launched, until it appears or is given up.
/// Plans are waited for once the layout is known.
pub proof fn new_steps_kinds(st: RunView, reply: Reply)
    requires
        st.stopped is None,
        st.todo.len() > 0,
        run::react(st, reply).stopped is None,
    ensures
        forall|k: int|
            0 <= k < new_steps(st, reply).len() ==> {
                let step = #[trigger] new_steps(st, reply)[k];
                &&& step is Bind && st.todo[0] is Monitors || step is FocusOff
                    && st.todo[0] is FocusQuery || phase(step) == WORK && phase(st.todo[0]) == WORK
                &&& step is AwaitOpen ==> (run::react(st, reply) == st && step == st.todo[0]) || (
                st.todo[0] is Launch && step->AwaitOpen_idx == st.todo[0]->Launch_idx && !(
                reply is Failed))
                &&& run::awaits_plans(step) ==> st.todo[0] is Layout && !(step is Layout)
                &&& step matches Step::Converge { at, .. } ==> at == 0 || st.todo[0] is Converge
                    || st.todo[0] is Resize
                &&& step matches Step::Fullscreen(at) ==> at == 0 || st.todo[0] is Fullscreen
            },
{
    let next = run::react(st, reply);
    let steps = new_steps(st, reply);
    let front = st.todo[0];
    react_splices(st, reply);
    match front {
        Step::Monitors => {
            if reply is Monitors {
                let bound = run::bind_steps(st.windows, text::views(reply->Monitors_0@));
                assert(steps =~= bound);
            }
        },
        Step::Layout => {
            let own = run::layout_steps(run::layout_of(reply), st.windows.len());
            assert(steps =~= own);
        },
        Step::InferDwindle => {
            let fallback = plan::unplanned(
                plan::groups_of(st.windows),
                reply->DwindlePlans_0@,
            );
            let floating = plan::floating_of(st.windows);
            dwindle_steps_work(next.dwindle, fallback, floating);
            assert(steps =~= run::dwindle_steps(next.dwindle, fallback, floating));
        },
        Step::InferMaster => {
            let fallback = plan::unplanned(plan::groups_of(st.windows), reply->MasterPlans_0@);
            let floating = plan::floating_of(st.windows);
            master_steps_work(next.master, fallback, floating);
            assert(steps =~= run::master_steps(next.master, fallback, floating));
        },
        Step::Place { plan, step } => {
            assert(steps =~= run::placement_steps(st, plan, step));
        },
        _ => {},
    }
}

// ---------------------------------------------------------------------------
// Commands
// ---------------------------------------------------------------------------

/// No two of the windows whose commands were handed over have one command; all
/// windows that are restored, have failed or are waited for have a command that
/// was handed over; and all windows that are missing count as restored.
pub open spec fn launches_sound(st: RunView) -> bool {
    &&& forall|k: int, j: int|
        0 <= k < j < st.launched.len() ==> st.windows[#[trigger] st.launched[k] as int].launch_cmd@
            != st.windows[#[trigger] st.launched[j] as int].launch_cmd@
    &&& forall|k: int|
        0 <= k < st.restored.len() ==> command_known(st, #[trigger] st.restored[k])
    &&& forall|k: int| 0 <= k < st.failed.len() ==> command_known(st, #[trigger] st.failed[k])
    &&& forall|k: int|
        0 <= k < st.todo.len() && (#[trigger] st.todo[k]) is AwaitOpen ==> command_known(
            st,
            st.todo[k]->AwaitOpen_idx,
        )
    &&& forall|k: int|
        0 <= k < st.pending.len() ==> st.restored.contains(#[trigger] st.pending[k])
}

/// The command of the window `i` was handed over.
pub open spec fn command_known(st: RunView, i: usize) -> bool {
    run::is_launched(st.windows, st.launched, st.windows[i as int].launch_cmd@)
}

/// A command that was handed over stays so.
proof fn command_stays_known(st: RunView, next: RunView, i: usize)
    requires
        command_known(st, i),
        next.windows == st.windows,
        next.launched.len() >= st.launched.len(),
        forall|k: int| 0 <= k < st.launched.len() ==> next.launched[k] == st.launched[k],
    ensures
        command_known(next, i),
{
    let cmd = st.windows[i as int].launch_cmd@;
    let k = choose|k: int|
        0 <= k < st.launched.len() && st.windows[#[trigger] st.launched[k] as int].launch_cmd@
            == cmd;
    assert(next.windows[next.launched[k] as int].launch_cmd@ == cmd);
}

/// An answer keeps the launches sound.
proof fn react_keeps_launches(st: RunView, reply: Reply)
    requires
        run::valid(st),
        launches_sound(st),
        run::answers(run::action_of(st), reply, st.windows.len()),
    ensures
        launches_sound(run::react(st, reply)),
{
    let next = run::react(st, reply);
    let front = st.todo[0];
    let rest = st.todo.drop_first();
    assert(st.todo.len() > 0);
    assert forall|i: usize| command_known(st, i) implies #[trigger] command_known(next, i) by {
        command_stays_known(st, next, i);
    }
    if let Step::Launch { idx, .. } = front {
        if reply is Text || reply is Failed {
            assert(!command_known(st, idx));
            assert(next.launched[st.launched.len() as int] == idx);
            assert(command_known(next, idx));
        }
    }
    assert forall|k: int| 0 <= k < next.restored.len() implies command_known(
        next,
        #[trigger] next.restored[k],
    ) by {
        if k < st.restored.len() {
            assert(command_known(st, st.restored[k]));
        } else {
            assert(front is AwaitOpen && next.restored[k] == front->AwaitOpen_idx);
            assert(command_known(st, front->AwaitOpen_idx));
        }
    }
    assert forall|k: int| 0 <= k < next.failed.len() implies command_known(
        next,
        #[trigger] next.failed[k],
    ) by {
        if k < st.failed.len() {
            assert(command_known(st, st.failed[k]));
        }
    }
    assert forall|k: int|
        0 <= k < next.todo.len() && (#[trigger] next.todo[k]) is AwaitOpen implies command_known(
        next,
        next.todo[k]->AwaitOpen_idx,
    ) by {
        let m = next.todo.len() - rest.len();
        if next != st && k >= m {
            assert(next.todo[k] == rest[k - m]);
            assert(rest[k - m] == st.todo[k - m + 1]);
            assert(command_known(st, st.todo[k - m + 1]->AwaitOpen_idx));
        } else if next == st {
            assert(command_known(st, st.todo[k]->AwaitOpen_idx));
        } else {
            react_splices(st, reply);
            new_steps_kinds(st, reply);
            assert(next.todo[k] == new_steps(st, reply)[k]);
        }
    }
    assert forall|k: int| 0 <= k < next.pending.len() implies next.restored.contains(
        #[trigger] next.pending[k],
    ) by {
        if k < st.pending.len() {
            assert(st.restored.contains(st.pending[k]));
            let j = choose|j: int| 0 <= j < st.restored.len() && st.restored[j] == st.pending[k];
            assert(next.restored[j] == st.pending[k]);
        } else {
            assert(next.restored[st.restored.len() as int] == next.pending[k]);
        }
    }
}

/// A command is handed over when a window is to be launched with one that was not
/// handed over before, and only then; whatever comes of it, the command counts as
/// handed over from then on, and so do those before it.
pub proof fn launch_executes_new_commands(st: RunView, reply: Reply)
    requires
        run::valid(st),
        st.stopped is None,
        st.todo.len() > 0,
        st.todo[0] is Launch,
        run::answers(run::action_of(st), reply, st.windows.len()),
    ensures
        ({
            let idx = st.todo[0]->Launch_idx;
            let next = run::react(st, reply);
            &&& run::action_of(st) == (if command_known(st, idx) {
                run::ActionView::Proceed
            } else {
                run::ActionView::Send(run::exec_text(st.windows[idx as int], st.todo[0]->Launch_role))
            })
            &&& next.launched == (if command_known(st, idx) {
                st.launched
            } else {
                st.launched.push(idx)
            })
            &&& command_known(next, idx)
        }),
{
    let idx = st.todo[0]->Launch_idx;
    let next = run::react(st, reply);
    if !command_known(st, idx) {
        assert(next.launched[st.launched.len() as int] == idx);
        assert(next.windows[next.launched[st.launched.len() as int] as int].launch_cmd@
            == st.windows[idx as int].launch_cmd@);
    }
}

/// No launch command is executed twice, every window that is restored or has
/// failed had its command executed or refused, and every window that did not
/// appear in time counts as restored.
pub proof fn commands_executed_once(
    windows: Seq<WindowEntry>,
    restore_layout: bool,
    replies: Seq<Reply>,
)
    requires
        windows.len() <= usize::MAX,
        answered(run::initial(windows, restore_layout), replies),
    ensures
        launches_sound(after(run::initial(windows, restore_layout), replies)),
    decreases replies.len(),
{
    if replies.len() > 0 {
        let head = replies.drop_last();
        commands_executed_once(windows, restore_layout, head);
        run_stays_valid(windows, restore_layout, head);
        react_keeps_launches(
            after(run::initial(windows, restore_layout), head),
            replies.last(),
        );
    }
}

// ---------------------------------------------------------------------------
// Phases
// ---------------------------------------------------------------------------

/// The step `b` may come after the step `a`: its phase is a later one, or the
/// same if that phase has more than one step.
pub open spec fn may_follow(a: Step, b: Step) -> bool {
    phase(a) < phase(b) || (phase(a) == phase(b) && !(a is Monitors) && !(a is FocusQuery))
}

/// No step belongs to an earlier phase than one before it.
pub open spec fn in_order(steps: Seq<Step>) -> bool {
    forall|k: int, j: int|
        0 <= k < j < steps.len() ==> may_follow(#[trigger] steps[k], #[trigger] steps[j])
}

/// All steps of a run so far: those that were taken, and those that are left.
pub open spec fn course(st: RunView, replies: Seq<Reply>) -> Seq<Step> {
    taken(st, replies) + after(st, replies).todo
}

/// An answer keeps the steps in order.
proof fn react_keeps_order(st: RunView, reply: Reply, before: Seq<Step>)
    requires
        st.stopped is None,
        st.todo.len() > 0,
        in_order(before + st.todo),
    ensures
        in_order(before.push(st.todo[0]) + run::react(st, reply).todo),
{
    let next = run::react(st, reply);
    let front = st.todo[0];
    let rest = st.todo.drop_first();
    let old_all = before + st.todo;
    let all = before.push(front) + next.todo;
    let n = before.len() as int;
    react_splices(st, reply);
    if next.stopped is Some {
        assert(all =~= old_all.take(n + 1));
    } else {
        new_steps_kinds(st, reply);
        let steps = new_steps(st, reply);
        let m = steps.len() as int;
        assert(all =~= before.push(front) + steps + rest);
        assert(old_all[n] == front);
        assert forall|k: int, j: int| 0 <= k < j < all.len() implies may_follow(
            #[trigger] all[k],
            #[trigger] all[j],
        ) by {
            if j <= n {
                assert(all[k] == old_all[k] && all[j] == old_all[j]);
            } else if j <= n + m {
                assert(all[j] == steps[j - n - 1]);
                if k <= n {
                    assert(all[k] == old_all[k]);
                    assert(k < n ==> may_follow(old_all[k], old_all[n]));
                } else {
                    assert(all[k] == steps[k - n - 1]);
                }
            } else {
                assert(all[j] == rest[j - n - 1 - m]);
                assert(all[j] == old_all[j - m]);
                if k <= n {
                    assert(all[k] == old_all[k]);
                } else if k <= n + m {
                    assert(all[k] == steps[k - n - 1]);
                    assert(may_follow(old_all[n], old_all[j - m]));
                } else {
                    assert(all[k] == rest[k - n - 1 - m]);
                    assert(all[k] == old_all[k - m]);
                }
            }
        }
    }
}

/// The phases of a restore follow one another: monitors are bound before the
/// focus is forbidden, that is done before any window is registered, windows are
/// registered before any is launched, and the focus is allowed again at the end.
pub proof fn phases_follow(windows: Seq<WindowEntry>, restore_layout: bool, replies: Seq<Reply>)
    requires
        windows.len() <= usize::MAX,
        answered(run::initial(windows, restore_layout), replies),
    ensures
        in_order(course(run::initial(windows, restore_layout), replies)),
    decreases replies.len(),
{
    let first = run::initial(windows, restore_layout);
    if replies.len() == 0 {
        let all = course(first, replies);
        let n = windows.len();
        assert(all =~= first.todo);
        assert forall|k: int| 0 <= k < all.len() implies #[trigger] phase(all[k]) == (if k < 4 {
            seq![0u8, 2, 4, 5][k]
        } else if k < 4 + n {
            6
        } else if k == 4 + n {
            7
        } else if k < all.len() - 2 {
            WORK
        } else if k == all.len() - 2 {
            9
        } else {
            10
        }) by {}
        assert forall|k: int, j: int| 0 <= k < j < all.len() implies may_follow(
            #[trigger] all[k],
            #[trigger] all[j],
        ) by {
            assert(phase(all[k]) <= phase(all[j]));
            if phase(all[k]) == phase(all[j]) {
                assert(phase(all[k]) != 0 && phase(all[k]) != 2);
            }
        }
    } else {
        let head = replies.drop_last();
        phases_follow(windows, restore_layout, head);
        react_keeps_order(after(first, head), replies.last(), taken(first, head));
    }
}

/// The step belongs to the registration of windows.
pub open spec fn registers(step: Step) -> bool {
    step is Available || step is Begin || step is Expect || step is End
}

/// The whole registration of `n` windows.
pub open spec fn registration(n: nat) -> Seq<Step> {
    seq![Step::Available, Step::Begin] + run::expect_steps(n) + seq![Step::End]
}

/// A selection of steps is empty if none is selected.
proof fn none_selected(steps: Seq<Step>, keep: spec_fn(Step) -> bool)
    requires
        forall|k: int| 0 <= k < steps.len() ==> !keep(#[trigger] steps[k]),
    ensures
        steps.filter(keep) == Seq::<Step>::empty(),
    decreases steps.len(),
{
    reveal(Seq::filter);
    if steps.len() > 0 {
        let head = steps.drop_last();
        assert forall|k: int| 0 <= k < head.len() implies !keep(#[trigger] head[k]) by {
            assert(head[k] == steps[k]);
        }
        assert(steps[steps.len() - 1] == steps.last());
        none_selected(head, keep);
    }
}

/// A selection of steps is all of them if all are selected.
proof fn all_selected(steps: Seq<Step>, keep: spec_fn(Step) -> bool)
    requires
        forall|k: int| 0 <= k < steps.len() ==> keep(#[trigger] steps[k]),
    ensures
        steps.filter(keep) == steps,
    decreases steps.len(),
{
    reveal(Seq::filter);
    if steps.len() > 0 {
        let head = steps.drop_last();
        assert forall|k: int| 0 <= k < head.len() implies keep(#[trigger] head[k]) by {
            assert(head[k] == steps[k]);
        }
        assert(steps[steps.len() - 1] == steps.last());
        all_selected(head, keep);
        assert(head.push(steps.last()) =~= steps);
    } else {
        assert(steps.filter(keep) =~= steps);
    }
}

/// The selection from a course changes by what is selected from the new steps.
proof fn selection_spliced(
    st: RunView,
    reply: Reply,
    before: Seq<Step>,
    keep: spec_fn(Step) -> bool,
)
    requires
        st.stopped is None,
        st.todo.len() > 0,
        run::react(st, reply).stopped is None,
    ensures
        (before + st.todo).filter(keep) == before.filter(keep) + seq![st.todo[0]].filter(keep)
            + st.todo.drop_first().filter(keep),
        (before.push(st.todo[0]) + run::react(st, reply).todo).filter(keep) == before.filter(keep)
            + seq![st.todo[0]].filter(keep) + new_steps(st, reply).filter(keep)
            + st.todo.drop_first().filter(keep),
{
    let front = seq![st.todo[0]];
    let rest = st.todo.drop_first();
    let steps = new_steps(st, reply);
    react_splices(st, reply);
    assert(before + st.todo =~= before + front + rest);
    assert(before.push(st.todo[0]) + run::react(st, reply).todo =~= before + front + steps + rest);
    Seq::filter_distributes_over_add(before + front, rest, keep);
    Seq::filter_distributes_over_add(before, front, keep);
    Seq::filter_distributes_over_add(before + front + steps, rest, keep);
    Seq::filter_distributes_over_add(before + front, steps, keep);
}

/// The registration steps with which a restore begins.
proof fn registration_initial(windows: Seq<WindowEntry>, restore_layout: bool)
    ensures
        run::initial(windows, restore_layout).todo.filter(|s: Step| registers(s)) == registration(
            windows.len(),
        ),
{
    let keep = |s: Step| registers(s);
    let todo = run::initial(windows, restore_layout).todo;
    let n = windows.len();
    let a = todo.take(2);
    let b = registration(n);
    let c = todo.skip(5 + n as int);
    assert(todo =~= a + b + c);
    assert forall|k: int| 0 <= k < c.len() implies !keep(#[trigger] c[k]) by {
        assert(c[k] == todo[5 + n + k]);
    }
    assert forall|k: int| 0 <= k < b.len() implies keep(#[trigger] b[k]) by {
        assert(b[k] == todo[2 + k]);
    }
    none_selected(a, keep);
    all_selected(b, keep);
    none_selected(c, keep);
    Seq::filter_distributes_over_add(a + b, c, keep);
    Seq::filter_distributes_over_add(a, b, keep);
    assert(todo.filter(keep) =~= b);
}

/// An answer neither adds registration steps to a course nor takes any away.
proof fn registration_spliced(st: RunView, reply: Reply, before: Seq<Step>)
    requires
        st.stopped is None,
        st.todo.len() > 0,
        run::react(st, reply).stopped is None,
    ensures
        (before.push(st.todo[0]) + run::react(st, reply).todo).filter(|s: Step| registers(s)) == (
        before + st.todo).filter(|s: Step| registers(s)),
{
    let keep = |s: Step| registers(s);
    let steps = new_steps(st, reply);
    selection_spliced(st, reply, before, keep);
    assert forall|k: int| 0 <= k < steps.len() implies !keep(#[trigger] steps[k]) by {
        new_steps_kinds(st, reply);
    }
    none_selected(steps, keep);
    let front = before.filter(keep) + seq![st.todo[0]].filter(keep);
    assert(front + steps.filter(keep) =~= front);
}

/// The registration steps of a run, taken or left, are those of all windows in
/// the order of the session.
proof fn registration_kept(windows: Seq<WindowEntry>, restore_layout: bool, replies: Seq<Reply>)
    requires
        answered(run::initial(windows, restore_layout), replies),
        after(run::initial(windows, restore_layout), replies).stopped is None,
    ensures
        course(run::initial(windows, restore_layout), replies).filter(|s: Step| registers(s))
            == registration(windows.len()),
    decreases replies.len(),
{
    let first = run::initial(windows, restore_layout);
    if replies.len() == 0 {
        registration_initial(windows, restore_layout);
        assert(course(first, replies) =~= first.todo);
    } else {
        let head = replies.drop_last();
        let st = after(first, head);
        answered_step(first, replies);
        registration_kept(windows, restore_layout, head);
        registration_spliced(st, replies.last(), taken(first, head));
    }
}

/// By the time windows are launched, and when the restore is over, the compositor
/// was asked whether it can restore, told to begin, told of every window in the
/// order of the session, and told that this was all; and nothing else of the
/// kind.
pub proof fn windows_registered_first(
    windows: Seq<WindowEntry>,
    restore_layout: bool,
    replies: Seq<Reply>,
)
    requires
        windows.len() <= usize::MAX,
        answered(run::initial(windows, restore_layout), replies),
        ({
            let st = after(run::initial(windows, restore_layout), replies);
            st.stopped is None && (st.todo.len() > 0 ==> phase(st.todo[0]) >= WORK)
        }),
    ensures
        taken(run::initial(windows, restore_layout), replies).filter(|s: Step| registers(s))
            == registration(windows.len()),
{
    let keep = |s: Step| registers(s);
    let first = run::initial(windows, restore_layout);
    let st = after(first, replies);
    let done = taken(first, replies);
    let all = course(first, replies);
    phases_follow(windows, restore_layout, replies);
    registration_kept(windows, restore_layout, replies);
    assert forall|k: int| 0 <= k < st.todo.len() implies !keep(#[trigger] st.todo[k]) by {
        let n = done.len() as int;
        assert(all[n] == st.todo[0] && all[n + k] == st.todo[k]);
        if k > 0 {
            assert(may_follow(all[n], all[n + k]));
        }
    }
    none_selected(st.todo, keep);
    Seq::filter_distributes_over_add(done, st.todo, keep);
    assert(done.filter(keep) + st.todo.filter(keep) =~= done.filter(keep));
}

// ---------------------------------------------------------------------------
// Focus and the end
// ---------------------------------------------------------------------------

/// The step asks for the focus option or sets it.
pub open spec fn on_focus(step: Step) -> bool {
    step is FocusQuery || step is FocusOff || step is FocusOn
}

/// The focus steps of a whole restore: the option is looked up, turned off if it
/// was on, and seen to at the end.
pub open spec fn focus_course(had_focus: bool) -> Seq<Step> {
    seq![Step::FocusQuery] + (if had_focus {
        seq![Step::FocusOff]
    } else {
        Seq::empty()
    }) + seq![Step::FocusOn]
}

/// The course of a restore in the state `st` after the steps `before` has the
/// focus steps that it should have, and ends with the end of the restore.
spec fn course_sound(st: RunView, before: Seq<Step>) -> bool {
    &&& (before + st.todo).filter(|s: Step| on_focus(s)) == focus_course(st.had_focus)
    &&& st.had_focus ==> forall|k: int|
        0 <= k < st.todo.len() ==> !((#[trigger] st.todo[k]) is FocusQuery)
    &&& (before + st.todo).len() > 0
    &&& (before + st.todo).last() is Finish
}

/// A restore begins with a sound course.
proof fn course_initial(windows: Seq<WindowEntry>, restore_layout: bool)
    ensures
        course_sound(run::initial(windows, restore_layout), Seq::empty()),
{
    let keep = |s: Step| on_focus(s);
    let todo = run::initial(windows, restore_layout).todo;
    let a = seq![Step::Monitors];
    let b = seq![Step::FocusQuery];
    let d = seq![Step::FocusOn];
    let e = seq![Step::Finish];
    let c = todo.subrange(2, todo.len() - 2);
    assert(todo =~= a + b + c + d + e);
    assert forall|k: int| 0 <= k < c.len() implies !keep(#[trigger] c[k]) by {
        assert(c[k] == todo[k + 2]);
    }
    none_selected(a, keep);
    all_selected(b, keep);
    none_selected(c, keep);
    all_selected(d, keep);
    none_selected(e, keep);
    Seq::filter_distributes_over_add(a + b + c + d, e, keep);
    Seq::filter_distributes_over_add(a + b + c, d, keep);
    Seq::filter_distributes_over_add(a + b, c, keep);
    Seq::filter_distributes_over_add(a, b, keep);
    assert(todo.filter(keep) =~= focus_course(false));
    assert(Seq::<Step>::empty() + todo =~= todo);
}

/// The answer to the look-up of the focus option brings the step that turns it
/// off, if it was on, and nothing else.
proof fn focus_answered(st: RunView, reply: Reply)
    requires
        st.todo.len() > 0,
        st.todo[0] is FocusQuery,
    ensures
        new_steps(st, reply) == (if run::react(st, reply).had_focus {
            seq![Step::FocusOff]
        } else {
            Seq::empty()
        }),
{
    let next = run::react(st, reply);
    let rest = st.todo.drop_first();
    if next.had_focus {
        assert(next.todo == seq![Step::FocusOff] + rest);
        assert(next.todo.take(1) =~= seq![Step::FocusOff]);
    } else {
        assert(next.todo.take(0) =~= Seq::<Step>::empty());
    }
}

/// Looking up the focus option adds the step that turns it off, if it was on.
proof fn focus_queried(st: RunView, reply: Reply, before: Seq<Step>)
    requires
        st.stopped is None,
        st.todo.len() > 0,
        st.todo[0] is FocusQuery,
        course_sound(st, before),
    ensures
        course_sound(run::react(st, reply), before.push(st.todo[0])),
{
    let keep = |s: Step| on_focus(s);
    let next = run::react(st, reply);
    let rest = st.todo.drop_first();
    let front = seq![st.todo[0]];
    let steps = new_steps(st, reply);
    let a = before.filter(keep);
    let c = rest.filter(keep);
    react_splices(st, reply);
    focus_answered(st, reply);
    selection_spliced(st, reply, before, keep);
    all_selected(front, keep);
    assert(!st.had_focus);
    let whole = a + front + c;
    assert(whole == seq![Step::FocusQuery, Step::FocusOn]) by {
        assert(focus_course(false) =~= seq![Step::FocusQuery, Step::FocusOn]);
    }
    assert(whole[a.len() as int] is FocusQuery);
    assert(a.len() == 0);
    assert(c =~= whole.skip(1));
    assert(c =~= seq![Step::FocusOn]);
    assert forall|k: int| 0 <= k < rest.len() implies !((#[trigger] rest[k]) is FocusQuery) by {
        if rest[k] is FocusQuery {
            rest.lemma_filter_contains(keep, k);
            let j = choose|j: int| 0 <= j < c.len() && c[j] == rest[k];
            assert(c[j] is FocusOn);
        }
    }
    if next.had_focus {
        all_selected(steps, keep);
    } else {
        none_selected(steps, keep);
    }
    assert((before.push(st.todo[0]) + next.todo).filter(keep) =~= focus_course(next.had_focus));
    assert(next.todo.last() == rest.last() && rest.len() > 0) by {
        assert((before + st.todo).last() == st.todo.last());
    }
    assert forall|k: int| 0 <= k < next.todo.len() implies !((
    #[trigger] next.todo[k]) is FocusQuery) by {
        if k >= steps.len() {
            assert(next.todo[k] == rest[k - steps.len()]);
        }
    }
}

/// Any other answer leaves the focus steps as they are.
proof fn focus_untouched(st: RunView, reply: Reply, before: Seq<Step>)
    requires
        st.stopped is None,
        st.todo.len() > 0,
        !(st.todo[0] is FocusQuery),
        run::react(st, reply).stopped is None,
        course_sound(st, before),
    ensures
        course_sound(run::react(st, reply), before.push(st.todo[0])),
        run::react(st, reply).had_focus == st.had_focus,
{
    let keep = |s: Step| on_focus(s);
    let next = run::react(st, reply);
    let rest = st.todo.drop_first();
    let steps = new_steps(st, reply);
    react_splices(st, reply);
    new_steps_kinds(st, reply);
    selection_spliced(st, reply, before, keep);
    assert forall|k: int| 0 <= k < steps.len() implies !keep(#[trigger] steps[k]) by {}
    none_selected(steps, keep);
    let lead = before.filter(keep) + seq![st.todo[0]].filter(keep);
    assert(lead + steps.filter(keep) =~= lead);
    let all = before.push(st.todo[0]) + next.todo;
    assert((before + st.todo).last() == st.todo.last());
    if rest.len() == 0 {
        assert(st.todo[0] is Finish);
        assert(steps.len() == 0) by {
            if steps.len() > 0 {
                assert(phase(steps[0]) == WORK || steps[0] is Bind || steps[0] is FocusOff);
            }
        }
        assert(all.last() == st.todo[0]);
    } else {
        assert(all.last() == rest.last());
    }
    assert forall|k: int| 0 <= k < next.todo.len() && next.had_focus implies !((
    #[trigger] next.todo[k]) is FocusQuery) by {
        if k < steps.len() {
            assert(next.todo[k] == steps[k]);
        } else {
            assert(next.todo[k] == rest[k - steps.len()]);
            assert(rest[k - steps.len()] == st.todo[k - steps.len() + 1]);
        }
    }
}

/// The course of a run that is not given up is sound.
proof fn course_kept(windows: Seq<WindowEntry>, restore_layout: bool, replies: Seq<Reply>)
    requires
        answered(run::initial(windows, restore_layout), replies),
        after(run::initial(windows, restore_layout), replies).stopped is None,
    ensures
        course_sound(
            after(run::initial(windows, restore_layout), replies),
            taken(run::initial(windows, restore_layout), replies),
        ),
    decreases replies.len(),
{
    let first = run::initial(windows, restore_layout);
    if replies.len() == 0 {
        course_initial(windows, restore_layout);
    } else {
        let head = replies.drop_last();
        let st = after(first, head);
        answered_step(first, replies);
        course_kept(windows, restore_layout, head);
        if st.todo[0] is FocusQuery {
            focus_queried(st, replies.last(), taken(first, head));
        } else {
            focus_untouched(st, replies.last(), taken(first, head));
        }
    }
}

/// What is known of the focus option when it is seen to at the end is what was
/// found at the beginning.
proof fn focus_remembered(
    windows: Seq<WindowEntry>,
    restore_layout: bool,
    replies: Seq<Reply>,
    t: int,
)
    requires
        windows.len() <= usize::MAX,
        answered(run::initial(windows, restore_layout), replies),
        after(run::initial(windows, restore_layout), replies).stopped is None,
        0 <= t < replies.len(),
        taken(run::initial(windows, restore_layout), replies)[t] is FocusOn,
    ensures
        after(run::initial(windows, restore_layout), replies.take(t)).had_focus == after(
            run::initial(windows, restore_layout),
            replies,
        ).had_focus,
        after(run::initial(windows, restore_layout), replies.take(t)).todo.len() > 0,
        after(run::initial(windows, restore_layout), replies.take(t)).stopped is None,
        after(run::initial(windows, restore_layout), replies.take(t)).todo[0] is FocusOn,
    decreases replies.len(),
{
    let first = run::initial(windows, restore_layout);
    let head = replies.drop_last();
    let st = after(first, head);
    answered_step(first, replies);
    taken_len(first, head);
    course_kept(windows, restore_layout, head);
    if t == head.len() {
        assert(replies.take(t) =~= head);
        focus_untouched(st, replies.last(), taken(first, head));
    } else {
        assert(replies.take(t) =~= head.take(t));
        focus_remembered(windows, restore_layout, head, t);
        if st.todo[0] is FocusQuery {
            phases_follow(windows, restore_layout, replies);
            let all = course(first, replies);
            assert(all[t] is FocusOn && all[head.len() as int] is FocusQuery);
            assert(may_follow(all[t], all[head.len() as int]));
        } else {
            focus_untouched(st, replies.last(), taken(first, head));
        }
    }
}

/// As many steps are taken as answers have come.
proof fn taken_len(st: RunView, replies: Seq<Reply>)
    ensures
        taken(st, replies).len() == replies.len(),
    decreases replies.len(),
{
    if replies.len() > 0 {
        taken_len(st, replies.drop_last());
    }
}

/// The focus option is left as it was found: a restore that is over has looked
/// it up, has turned it off if and only if it was on, and has turned it on again
/// later if and only if it was on.
pub proof fn focus_given_back(
    windows: Seq<WindowEntry>,
    restore_layout: bool,
    replies: Seq<Reply>,
)
    requires
        windows.len() <= usize::MAX,
        answered(run::initial(windows, restore_layout), replies),
        run::action_of(after(run::initial(windows, restore_layout), replies)) is Done,
    ensures
        ({
            let first = run::initial(windows, restore_layout);
            let st = after(first, replies);
            &&& taken(first, replies).filter(|s: Step| on_focus(s)) == focus_course(st.had_focus)
            &&& exists|t: int|
                0 <= t < replies.len() && #[trigger] taken(first, replies)[t] is FocusOn
                    && run::action_of(after(first, replies.take(t))) == (if st.had_focus {
                    run::ActionView::Send(
                        client::keyword_text("misc:focus_on_activate true"@),
                    )
                } else {
                    run::ActionView::Proceed
                })
        }),
{
    let keep = |s: Step| on_focus(s);
    let first = run::initial(windows, restore_layout);
    let st = after(first, replies);
    let done = taken(first, replies);
    action_done(st);
    course_kept(windows, restore_layout, replies);
    assert(done + st.todo =~= done);
    taken_len(first, replies);
    let picked = done.filter(keep);
    assert(picked.last() is FocusOn);
    filter_source(done, keep, picked.len() - 1);
    let t = choose|t: int| 0 <= t < done.len() && done[t] == picked[picked.len() - 1];
    focus_remembered(windows, restore_layout, replies, t);
    assert(done[t] is FocusOn);
}

/// What was selected from steps is among them.
proof fn filter_source(steps: Seq<Step>, keep: spec_fn(Step) -> bool, i: int)
    requires
        0 <= i < steps.filter(keep).len(),
    ensures
        exists|t: int| 0 <= t < steps.len() && steps[t] == steps.filter(keep)[i],
    decreases steps.len(),
{
    reveal(Seq::filter);
    if steps.len() > 0 {
        let head = steps.drop_last();
        if i < head.filter(keep).len() {
            filter_source(head, keep, i);
            let t = choose|t: int| 0 <= t < head.len() && head[t] == head.filter(keep)[i];
            assert(steps[t] == steps.filter(keep)[i]);
        } else {
            assert(steps[steps.len() - 1] == steps.filter(keep)[i]);
        }
    }
}

/// A restore that is over has ended with its last step: the compositor was told
/// to forget what it still expected if and only if no window is missing.
pub proof fn finished_unless_pending(
    windows: Seq<WindowEntry>,
    restore_layout: bool,
    replies: Seq<Reply>,
)
    requires
        answered(run::initial(windows, restore_layout), replies),
        run::action_of(after(run::initial(windows, restore_layout), replies)) is Done,
    ensures
        ({
            let first = run::initial(windows, restore_layout);
            let st = after(first, replies);
            &&& replies.len() > 0
            &&& taken(first, replies).last() is Finish
            &&& run::action_of(after(first, replies.drop_last())) == (if st.pending.len() == 0 {
                run::ActionView::Send("sessionctl finish"@)
            } else {
                run::ActionView::Proceed
            })
        }),
{
    let first = run::initial(windows, restore_layout);
    let st = after(first, replies);
    let done = taken(first, replies);
    action_done(st);
    course_kept(windows, restore_layout, replies);
    assert(done + st.todo =~= done);
    taken_len(first, replies);
    answered_step(first, replies);
}

} // verus!
