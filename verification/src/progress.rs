//! Every restore comes to an end: each answer brings it nearer, but for events
//! that have nothing to do with the window that is waited for, and those cannot
//! hold it up for longer than a window may take to appear.

use vstd::prelude::*;

use crate::models::{HyprEvent, WindowEntry};
use crate::run::{Reply, RunView, Step};
use crate::{history, plan, run, text};

verus! {

/// How far the step is from being free of plans that are still to be inferred.
pub open spec fn plan_distance(step: Step) -> nat {
    match step {
        Step::Layout => 2,
        Step::InferDwindle | Step::InferMaster => 1,
        _ => 0,
    }
}

/// How far all of `steps` are from being free of plans to be inferred.
pub open spec fn plans_left(steps: Seq<Step>) -> nat
    decreases steps.len(),
{
    if steps.len() == 0 {
        0
    } else {
        plans_left(steps.drop_last()) + plan_distance(steps.last())
    }
}

/// The work in the passes over tiled windows from `pass` on, with `per` for one
/// pass.
pub open spec fn passes_left(pass: usize, per: nat) -> nat {
    if pass == 0 {
        4 * per
    } else if pass == 1 {
        3 * per
    } else if pass == 2 {
        2 * per
    } else {
        per
    }
}

/// How many answers the step may still lead to, in a session of `n` windows.
pub open spec fn weight(n: nat, step: Step) -> int {
    match step {
        Step::Monitors => n as int + 1,
        Step::FocusQuery => 2,
        Step::Place { .. } => 6,
        Step::Launch { .. } => 3,
        Step::AwaitOpen { .. } => 2,
        Step::RatioFocus { .. } => 2,
        Step::Converge { pass, at, .. } => passes_left(pass, 2 * n + 3) - 2 * at,
        Step::Resize { pass, at, .. } => passes_left(pass, 2 * n + 3) - 2 * at - 1,
        Step::Fullscreen(at) => n + 1 - at,
        _ => 1,
    }
}

/// How many answers `steps` may still lead to.
pub open spec fn work_left(n: nat, steps: Seq<Step>) -> int
    decreases steps.len(),
{
    if steps.len() == 0 {
        0
    } else {
        work_left(n, steps.drop_last()) + weight(n, steps.last())
    }
}

/// The restore in the state `next` is nearer to its end than in the state `st`:
/// fewer plans are to be inferred, or there is less work by the plans there are.
pub open spec fn nearer(st: RunView, next: RunView) -> bool {
    let n = st.windows.len();
    ||| plans_left(next.todo) < plans_left(st.todo)
    ||| plans_left(next.todo) == plans_left(st.todo) && 0 <= work_left(n, next.todo) < work_left(
        n,
        st.todo,
    )
}

/// The windows that have addresses are different windows of the session, and
/// steps that go through them do not go beyond.
pub open spec fn addresses_sound(st: RunView) -> bool {
    &&& forall|k: int, j: int|
        0 <= k < j < st.addresses.len() ==> (#[trigger] st.addresses[k]).0 != (
        #[trigger] st.addresses[j]).0
    &&& forall|k: int| 0 <= k < st.todo.len() ==> at_within(st, #[trigger] st.todo[k])
}

/// The step goes through the windows that have addresses, and not beyond.
pub open spec fn at_within(st: RunView, step: Step) -> bool {
    match step {
        Step::Converge { at, .. } => at <= st.addresses.len(),
        Step::Fullscreen(at) => at <= st.addresses.len(),
        _ => true,
    }
}

/// The plans that two lists of steps wait for are those of both.
proof fn plans_left_concat(a: Seq<Step>, b: Seq<Step>)
    ensures
        plans_left(a + b) == plans_left(a) + plans_left(b),
    decreases b.len(),
{
    if b.len() == 0 {
        assert(a + b =~= a);
    } else {
        plans_left_concat(a, b.drop_last());
        assert((a + b).drop_last() =~= a + b.drop_last());
    }
}

/// The work of two lists of steps is that of both.
proof fn work_left_concat(n: nat, a: Seq<Step>, b: Seq<Step>)
    ensures
        work_left(n, a + b) == work_left(n, a) + work_left(n, b),
    decreases b.len(),
{
    if b.len() == 0 {
        assert(a + b =~= a);
    } else {
        work_left_concat(n, a, b.drop_last());
        assert((a + b).drop_last() =~= a + b.drop_last());
    }
}

/// Steps that lead to no plans have none to infer.
proof fn no_plans_left(steps: Seq<Step>)
    requires
        forall|k: int| 0 <= k < steps.len() ==> plan_distance(#[trigger] steps[k]) == 0,
    ensures
        plans_left(steps) == 0,
    decreases steps.len(),
{
    if steps.len() > 0 {
        let head = steps.drop_last();
        assert forall|k: int| 0 <= k < head.len() implies plan_distance(#[trigger] head[k]) == 0 by {
            assert(head[k] == steps[k]);
        }
        assert(steps[steps.len() - 1] == steps.last());
        no_plans_left(head);
    }
}

/// Bindings are one answer each.
proof fn work_of_bindings(n: nat, steps: Seq<Step>)
    requires
        forall|k: int| 0 <= k < steps.len() ==> (#[trigger] steps[k]) is Bind,
    ensures
        work_left(n, steps) == steps.len(),
    decreases steps.len(),
{
    if steps.len() > 0 {
        let head = steps.drop_last();
        assert forall|k: int| 0 <= k < head.len() implies (#[trigger] head[k]) is Bind by {
            assert(head[k] == steps[k]);
        }
        assert(steps[steps.len() - 1] == steps.last());
        work_of_bindings(n, head);
    }
}

/// There are no more bindings than windows.
proof fn bindings_bounded(windows: Seq<WindowEntry>, available: Seq<Seq<char>>, n: nat)
    ensures
        plan::bindings(windows, available, n).len() <= n,
    decreases n,
{
    if n > 0 {
        bindings_bounded(windows, available, (n - 1) as nat);
    }
}

/// Steps that are left stand for some work.
proof fn work_left_positive(st: RunView, steps: Seq<Step>)
    requires
        st.addresses.len() <= st.windows.len(),
        forall|k: int|
            0 <= k < steps.len() ==> run::step_valid(st, #[trigger] steps[k]) && at_within(
                st,
                steps[k],
            ),
    ensures
        work_left(st.windows.len(), steps) >= steps.len(),
    decreases steps.len(),
{
    if steps.len() > 0 {
        let head = steps.drop_last();
        assert forall|k: int| 0 <= k < head.len() implies run::step_valid(st, #[trigger] head[k])
            && at_within(st, head[k]) by {
            assert(head[k] == steps[k]);
        }
        assert(run::step_valid(st, steps[steps.len() - 1]));
        work_left_positive(st, head);
    }
}

/// There are no more different positions among `n` windows than `n`.
proof fn keys_bounded(addresses: Seq<(usize, String)>, n: nat)
    requires
        forall|k: int, j: int|
            0 <= k < j < addresses.len() ==> (#[trigger] addresses[k]).0 != (
            #[trigger] addresses[j]).0,
        forall|k: int| 0 <= k < addresses.len() ==> (#[trigger] addresses[k]).0 < n,
    ensures
        addresses.len() <= n,
{
    let keys = addresses.map_values(|a: (usize, String)| a.0 as int);
    assert(keys.no_duplicates()) by {
        assert forall|k: int, j: int|
            0 <= k < keys.len() && 0 <= j < keys.len() && k != j implies keys[k] != keys[j] by {
            if k < j {
                assert(addresses[k].0 != addresses[j].0);
            } else {
                assert(addresses[j].0 != addresses[k].0);
            }
        }
    }
    keys.unique_seq_to_set();
    vstd::set_lib::lemma_int_range(0, n as int);
    assert(keys.to_set().subset_of(vstd::set_lib::set_int_range(0, n as int))) by {
        assert forall|x: int| keys.to_set().contains(x) implies vstd::set_lib::set_int_range(
            0,
            n as int,
        ).contains(x) by {
            let k = choose|k: int| 0 <= k < keys.len() && keys[k] == x;
            assert(addresses[k].0 < n);
        }
    }
    vstd::set_lib::lemma_len_subset(keys.to_set(), vstd::set_lib::set_int_range(0, n as int));
}

/// The position of an address is that of its window, if it has one.
pub proof fn address_found(addresses: Seq<(usize, String)>, idx: usize)
    ensures
        run::address_index(addresses, idx) <= addresses.len(),
        run::address_index(addresses, idx) < addresses.len() ==> addresses[run::address_index(
            addresses,
            idx,
        ) as int].0 == idx,
        forall|k: int|
            0 <= k < run::address_index(addresses, idx) ==> (#[trigger] addresses[k]).0 != idx,
    decreases addresses.len(),
{
    if addresses.len() > 0 && addresses[0].0 != idx {
        let tail = addresses.drop_first();
        address_found(tail, idx);
        let i = run::address_index(tail, idx) as int;
        if i < tail.len() {
            assert(addresses[i + 1] == tail[i]);
        }
        assert forall|k: int| 0 <= k < i + 1 implies (#[trigger] addresses[k]).0 != idx by {
            if k > 0 {
                assert(addresses[k] == tail[k - 1]);
            }
        }
    }
}

/// Noting an address keeps the windows that have one different.
proof fn with_address_sound(addresses: Seq<(usize, String)>, idx: usize, address: String)
    requires
        forall|k: int, j: int|
            0 <= k < j < addresses.len() ==> (#[trigger] addresses[k]).0 != (
            #[trigger] addresses[j]).0,
    ensures
        forall|k: int, j: int|
            0 <= k < j < run::with_address(addresses, idx, address).len() ==> (
            #[trigger] run::with_address(addresses, idx, address)[k]).0 != (
            #[trigger] run::with_address(addresses, idx, address)[j]).0,
        run::with_address(addresses, idx, address).len() >= addresses.len(),
{
    address_found(addresses, idx);
    let after = run::with_address(addresses, idx, address);
    let i = run::address_index(addresses, idx) as int;
    assert forall|k: int, j: int| 0 <= k < j < after.len() implies (#[trigger] after[k]).0 != (
    #[trigger] after[j]).0 by {
        if i < addresses.len() {
            assert(after[k].0 == addresses[k].0 && after[j].0 == addresses[j].0);
        } else {
            assert(after[k] == addresses[k]);
            if j < addresses.len() {
                assert(after[j] == addresses[j]);
            }
        }
    }
}

/// An answer keeps the addresses sound.
proof fn react_keeps_addresses(st: RunView, reply: Reply)
    requires
        run::valid(st),
        addresses_sound(st),
        run::answers(run::action_of(st), reply, st.windows.len()),
    ensures
        addresses_sound(run::react(st, reply)),
        run::react(st, reply).stopped is None ==> forall|k: int|
            0 <= k < history::new_steps(st, reply).len() ==> at_within(
                run::react(st, reply),
                #[trigger] history::new_steps(st, reply)[k],
            ),
{
    let next = run::react(st, reply);
    let front = st.todo[0];
    let rest = st.todo.drop_first();
    let steps = history::new_steps(st, reply);
    assert(st.todo.len() > 0 && st.stopped is None);
    assert(run::step_valid(st, front) && at_within(st, front));
    history::react_splices(st, reply);
    if let Step::AwaitOpen { idx, .. } = front {
        if let Reply::Event(HyprEvent::OpenWindow { address, .. }) = reply {
            with_address_sound(st.addresses, idx, address);
        }
    }
    assert(next.addresses.len() >= st.addresses.len());
    if next.stopped is None {
        history::new_steps_kinds(st, reply);
        assert forall|k: int| 0 <= k < steps.len() implies at_within(next, #[trigger] steps[k]) by {
            assert(next.todo[k] == steps[k]);
        }
        assert forall|k: int| 0 <= k < next.todo.len() implies at_within(
            next,
            #[trigger] next.todo[k],
        ) by {
            if k < steps.len() {
                assert(next.todo[k] == steps[k]);
            } else {
                assert(next.todo[k] == rest[k - steps.len()]);
                assert(rest[k - steps.len()] == st.todo[k - steps.len() + 1]);
            }
        }
    }
}

/// The steps that replace the one in front are less work than it was, unless
/// plans were inferred or the answer changed nothing.
proof fn less_work(st: RunView, reply: Reply)
    requires
        run::valid(st),
        addresses_sound(st),
        st.addresses.len() <= st.windows.len(),
        run::answers(run::action_of(st), reply, st.windows.len()),
        !run::awaits_plans(st.todo[0]),
        run::react(st, reply).stopped is None,
        run::react(st, reply) != st,
    ensures
        work_left(st.windows.len(), history::new_steps(st, reply)) < weight(
            st.windows.len(),
            st.todo[0],
        ),
{
    let n = st.windows.len();
    let next = run::react(st, reply);
    let front = st.todo[0];
    let steps = history::new_steps(st, reply);
    history::react_splices(st, reply);
    assert(run::step_valid(st, front) && at_within(st, front));
    reveal_with_fuel(work_left, 4);
    match front {
        Step::Monitors => {
            if let Reply::Monitors(names) = reply {
                let bound = run::bind_steps(st.windows, text::views(names@));
                assert(steps =~= bound);
                work_of_bindings(n, steps);
                bindings_bounded(st.windows, text::views(names@), n);
            }
        },
        Step::Place { plan, step } => {
            assert(steps =~= run::placement_steps(st, plan, step));
            assert(steps.drop_last().len() <= 2);
        },
        _ => {
            assert(steps.len() <= 1);
            if steps.len() == 1 {
                assert(steps[0] == next.todo[0]);
                assert(steps.last() == next.todo[0]);
                assert(steps.drop_last().len() == 0);
                assert(work_left(n, steps) == weight(n, next.todo[0]));
            }
        },
    }
}

/// Each answer brings a restore nearer to its end, except an event that is not
/// the one that is waited for: that one changes nothing.
proof fn react_nearer(st: RunView, reply: Reply)
    requires
        run::valid(st),
        addresses_sound(st),
        run::answers(run::action_of(st), reply, st.windows.len()),
    ensures
        nearer(st, run::react(st, reply)) || (run::react(st, reply) == st && reply is Event),
{
    let n = st.windows.len();
    let next = run::react(st, reply);
    let front = st.todo[0];
    let rest = st.todo.drop_first();
    let steps = history::new_steps(st, reply);
    assert(st.todo.len() > 0 && st.stopped is None);
    keys_bounded(st.addresses, n);
    run::react_keeps_valid(st, reply);
    react_keeps_addresses(st, reply);
    keys_bounded(next.addresses, n);
    history::react_splices(st, reply);
    let one = seq![front];
    assert(st.todo =~= one + rest);
    plans_left_concat(one, rest);
    work_left_concat(n, one, rest);
    assert(plans_left(one) == plan_distance(front) && work_left(n, one) == weight(n, front)) by {
        assert(one.drop_last() =~= Seq::<Step>::empty());
        assert(plans_left(one.drop_last()) == 0 && work_left(n, one.drop_last()) == 0);
    }
    work_left_positive(st, st.todo);
    if next.stopped is Some {
        assert(next.todo =~= Seq::<Step>::empty());
    } else if next == st {
        assert(front is AwaitOpen);
    } else {
        history::new_steps_kinds(st, reply);
        plans_left_concat(steps, rest);
        work_left_concat(n, steps, rest);
        work_left_positive(next, next.todo);
        if front is Layout {
            let own = run::layout_steps(run::layout_of(reply), n);
            assert(steps =~= own);
            if own.len() == 1 && run::awaits_plans(own[0]) {
                assert(own.drop_last() =~= Seq::<Step>::empty());
                assert(plans_left(own.drop_last()) == 0);
                assert(own.last() == own[0]);
            } else {
                assert forall|k: int| 0 <= k < own.len() implies plan_distance(
                    #[trigger] own[k],
                ) == 0 by {}
                no_plans_left(own);
            }
        } else {
            assert forall|k: int| 0 <= k < steps.len() implies plan_distance(
                #[trigger] steps[k],
            ) == 0 by {}
            no_plans_left(steps);
            if !run::awaits_plans(front) {
                less_work(st, reply);
            }
        }
    }
}

/// In every run, each answer brings the restore nearer to its end, but for events
/// other than the one that is waited for, which change nothing. As the measure of
/// what is left cannot fall for ever, every restore ends.
pub proof fn answers_bring_the_end_nearer(
    windows: Seq<WindowEntry>,
    restore_layout: bool,
    replies: Seq<Reply>,
)
    requires
        windows.len() <= usize::MAX,
        history::answered(run::initial(windows, restore_layout), replies),
        replies.len() > 0,
    ensures
        ({
            let before = history::after(
                run::initial(windows, restore_layout),
                replies.drop_last(),
            );
            let st = history::after(run::initial(windows, restore_layout), replies);
            nearer(before, st) || (st == before && replies.last() is Event)
        }),
{
    let first = run::initial(windows, restore_layout);
    let head = replies.drop_last();
    history::run_stays_valid(windows, restore_layout, head);
    addresses_stay_sound(windows, restore_layout, head);
    react_nearer(history::after(first, head), replies.last());
}

/// In every run, no two addresses are noted for one window.
pub proof fn addresses_stay_sound(
    windows: Seq<WindowEntry>,
    restore_layout: bool,
    replies: Seq<Reply>,
)
    requires
        windows.len() <= usize::MAX,
        history::answered(run::initial(windows, restore_layout), replies),
    ensures
        addresses_sound(history::after(run::initial(windows, restore_layout), replies)),
    decreases replies.len(),
{
    if replies.len() > 0 {
        let head = replies.drop_last();
        history::run_stays_valid(windows, restore_layout, head);
        addresses_stay_sound(windows, restore_layout, head);
        react_keeps_addresses(
            history::after(run::initial(windows, restore_layout), head),
            replies.last(),
        );
    }
}

} // verus!
