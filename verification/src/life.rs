use vstd::prelude::*;

use crate::future::{Future, Poll};
use crate::mar;
use crate::mar::Drained;
use crate::runtime_state;
use crate::runtime_state::{RuntimeState, TaskId};

verus! {

/// A runtime, as far as the life of its tasks goes.
pub trait TaskHost: Sized {
    /// What a task can reach of the runtime while it is polled.
    type Context;

    /// What the tasks run.
    type Task: Future<Context = Self::Context, Output = ()>;

    /// The tasks.
    spec fn tasks(&self) -> RuntimeState<Self::Task>;

    /// What the task `id` sees of the runtime when it is polled at `now`, after the
    /// queue has been cut down to `queue`.
    spec fn sees(&self, cx: Self::Context, id: TaskId, now: u128, queue: Seq<TaskId>) -> bool;

    /// Whether the runtime has taken over what a polled task left in `cx`.
    spec fn took_over(&self, cx: Self::Context) -> bool;

    /// Whether all but the tasks is as it was `before`.
    spec fn kept_rest(&self, before: Self) -> bool;
}

/// Whether polling `task` in the context `cx` can leave `future` and `cx_after` behind
/// and come to `outcome`, and the runtime goes by that from `before` to `after`.
pub open spec fn polls_task<H: TaskHost>(
    before: H,
    now: u128,
    after: H,
    id: TaskId,
    rest: Seq<TaskId>,
    cx: H::Context,
    future: H::Task,
    cx_after: H::Context,
    outcome: Poll<()>,
) -> bool {
    let task = before.tasks().tasks@[id.0].spec_future();
    &&& H::Task::polls(task, cx, future, cx_after, outcome)
    &&& before.sees(cx, id, now, rest)
    &&& after.took_over(cx_after)
    &&& match outcome {
        Poll::Pending => {
            &&& after.tasks().tasks@.contains_key(id.0)
            &&& after.tasks().tasks@[id.0].spec_future() == future
        },
        Poll::Ready(_) => !after.tasks().tasks@.contains_key(id.0),
    }
}

/// Whether draining `before` once at `now` can leave `after` behind and come to
/// `drained`: ids of tasks that have finished are skipped, and the first task behind
/// them is polled.
pub open spec fn drains<H: TaskHost>(before: H, now: u128, after: H, drained: Drained) -> bool {
    let queue = before.tasks().queue@;
    let tasks = before.tasks().tasks@;
    let stale = mar::stale_prefix(queue, tasks) as int;
    &&& after.tasks().next_id == before.tasks().next_id
    &&& if stale == queue.len() {
        &&& drained is Empty
        &&& after.tasks() == (RuntimeState { queue: after.tasks().queue, ..before.tasks() })
        &&& after.tasks().queue@.len() == 0
        &&& after.kept_rest(before)
    } else {
        let id = queue[stale];
        let rest = queue.skip(stale + 1);
        &&& drained == Drained::Polled(id)
        &&& tasks.contains_key(id.0)
        &&& after.tasks().tasks@.remove(id.0) == tasks.remove(id.0)
        &&& exists|cx: H::Context, future: H::Task, cx_after: H::Context, outcome: Poll<()>|
            #[trigger]
            polls_task(before, now, after, id, rest, cx, future, cx_after, outcome)
    }
}

/// A turn of draining touches no task but the one that it polls, and makes none:
/// every other task is kept as it is, and a task goes only by being polled.
pub proof fn law_other_tasks_are_kept<H: TaskHost>(
    before: H,
    now: u128,
    after: H,
    drained: Drained,
    key: usize,
)
    requires
        drains(before, now, after, drained),
        drained != Drained::Polled(TaskId(key)),
    ensures
        after.tasks().tasks@.contains_key(key) == before.tasks().tasks@.contains_key(key),
        before.tasks().tasks@.contains_key(key) ==> after.tasks().tasks@[key]
            == before.tasks().tasks@[key],
{
    let queue = before.tasks().queue@;
    let stale = mar::stale_prefix(queue, before.tasks().tasks@) as int;
    if stale != queue.len() {
        let id = queue[stale];
        assert(id.0 != key) by {
            if id.0 == key {
                assert(id == TaskId(key));
            }
        }
        assert(after.tasks().tasks@.remove(id.0).contains_key(key)
            == before.tasks().tasks@.remove(id.0).contains_key(key));
        assert(after.tasks().tasks@.remove(id.0)[key] == before.tasks().tasks@.remove(id.0)[key]);
    }
}

/// The task that is polled is the first in the queue that has not finished; ids
/// before it are those of finished tasks. A queue without a task that has not
/// finished is emptied.
pub proof fn law_first_live_task_is_polled<H: TaskHost>(
    before: H,
    now: u128,
    after: H,
    drained: Drained,
    k: int,
)
    requires
        drains(before, now, after, drained),
        0 <= k <= before.tasks().queue@.len(),
        forall|i: int|
            0 <= i < k ==> !before.tasks().tasks@.contains_key(
                (#[trigger] before.tasks().queue@[i]).0,
            ),
        k < before.tasks().queue@.len() ==> before.tasks().tasks@.contains_key(
            before.tasks().queue@[k].0,
        ),
    ensures
        drained == (if k < before.tasks().queue@.len() {
            Drained::Polled(before.tasks().queue@[k])
        } else {
            Drained::Empty
        }),
{
    mar::lemma_stale_prefix(before.tasks().queue@, before.tasks().tasks@);
}

/// Tasks keep their places: when the first live task in the queue is polled, and
/// does no more to the queue than to add to its end, every id behind it moves up
/// by as many places as were taken off the front.
pub proof fn law_queue_keeps_order<H: TaskHost>(
    before: H,
    now: u128,
    after: H,
    drained: Drained,
    added: Seq<TaskId>,
    p: int,
)
    requires
        drains(before, now, after, drained),
        drained is Polled,
        after.tasks().queue@ == before.tasks().queue@.skip(
            mar::stale_prefix(before.tasks().queue@, before.tasks().tasks@) as int + 1,
        ) + added,
        mar::stale_prefix(before.tasks().queue@, before.tasks().tasks@) < p
            < before.tasks().queue@.len(),
    ensures
        after.tasks().queue@[p - mar::stale_prefix(
            before.tasks().queue@,
            before.tasks().tasks@,
        ) - 1] == before.tasks().queue@[p],
{
    mar::lemma_stale_prefix(before.tasks().queue@, before.tasks().tasks@);
}

/// What a turn in the life of a runtime does to its tasks.
pub enum Turn {
    /// A task is taken in.
    Spawned,
    /// The task is polled.
    Polled(TaskId),
    /// The queue, which names nobody that could be polled, is emptied.
    Emptied,
    /// Tasks may be woken.
    Parked,
}

/// Whether a turn can lead from `before` to `after`.
pub open spec fn turns_into<F>(
    before: RuntimeState<F>,
    turn: Turn,
    after: RuntimeState<F>,
) -> bool {
    match turn {
        Turn::Spawned => {
            let id = before.next_id;
            &&& !before.tasks@.contains_key(id.0)
            &&& after.next_id.0 == id.0 + 1
            &&& after.tasks@.contains_key(id.0)
            &&& after.tasks@.remove(id.0) == before.tasks@
        },
        Turn::Polled(id) => {
            let stale = mar::stale_prefix(before.queue@, before.tasks@) as int;
            &&& 0 <= stale < before.queue@.len()
            &&& before.queue@[stale] == id
            &&& before.tasks@.contains_key(id.0)
            &&& after.next_id == before.next_id
            &&& after.tasks@.remove(id.0) == before.tasks@.remove(id.0)
        },
        Turn::Emptied => {
            &&& after.next_id == before.next_id
            &&& after.tasks@ == before.tasks@
            &&& after.queue@.len() == 0
        },
        Turn::Parked => {
            &&& after.next_id == before.next_id
            &&& after.tasks@ == before.tasks@
        },
    }
}

/// Whether these are the states and the turns of a run, from a runtime without tasks
/// on: `states[i]` is what the turn `i` finds and `states[i + 1]` what it leaves.
pub open spec fn is_run<F>(states: Seq<RuntimeState<F>>, turns: Seq<Turn>) -> bool {
    &&& states.len() == turns.len() + 1
    &&& states[0].next_id == TaskId(0)
    &&& states[0].tasks@.dom() == Set::<usize>::empty()
    &&& states[0].queue@.len() == 0
    &&& forall|i: int|
        0 <= i < turns.len() ==> turns_into(states[i], #[trigger] turns[i], states[i + 1])
}

/// Whether the task `id` is polled for the last time in the turn `i`: it is there
/// before, and gone after.
pub open spec fn finishes<F>(
    states: Seq<RuntimeState<F>>,
    turns: Seq<Turn>,
    i: int,
    id: TaskId,
) -> bool {
    &&& 0 <= i < turns.len()
    &&& turns[i] == Turn::Polled(id)
    &&& states[i].tasks@.contains_key(id.0)
    &&& !states[i + 1].tasks@.contains_key(id.0)
}

/// How often `id` stands in a queue.
pub open spec fn occurrences(queue: Seq<TaskId>, id: TaskId) -> int {
    queue.to_multiset().count(id) as int
}

/// What a turn leaves of the queue that it finds, before anybody is woken.
pub open spec fn kept<F>(before: RuntimeState<F>, turn: Turn) -> Seq<TaskId> {
    match turn {
        Turn::Polled(_) => before.queue@.skip(
            mar::stale_prefix(before.queue@, before.tasks@) as int + 1,
        ),
        Turn::Emptied => Seq::empty(),
        _ => before.queue@,
    }
}

/// How often the task `id` was put into the queue in the first `k` turns, by being
/// taken in or woken.
pub open spec fn times_woken<F>(
    states: Seq<RuntimeState<F>>,
    turns: Seq<Turn>,
    k: int,
    id: TaskId,
) -> int
    decreases k,
{
    if k <= 0 {
        0
    } else {
        times_woken(states, turns, k - 1, id) + occurrences(states[k].queue@, id) - occurrences(
            kept(states[k - 1], turns[k - 1]),
            id,
        )
    }
}

/// How often the task `id` was polled in the first `k` turns.
pub open spec fn times_polled(turns: Seq<Turn>, k: int, id: TaskId) -> int
    decreases k,
{
    if k <= 0 {
        0
    } else {
        times_polled(turns, k - 1, id) + if turns[k - 1] == Turn::Polled(id) {
            1int
        } else {
            0
        }
    }
}

/// At any time a task is there exactly if it was taken in and has not been polled for
/// the last time.
proof fn lemma_alive<F>(states: Seq<RuntimeState<F>>, turns: Seq<Turn>, k: int, id: TaskId)
    requires
        is_run(states, turns),
        0 <= k <= turns.len(),
    ensures
        states[k].tasks@.contains_key(id.0) ==> id.0 < states[k].next_id.0,
        id.0 < states[k].next_id.0 && !states[k].tasks@.contains_key(id.0) ==> exists|i: int|
            i < k && #[trigger] finishes(states, turns, i, id),
        (exists|i: int| i < k && #[trigger] finishes(states, turns, i, id)) ==> id.0
            < states[k].next_id.0 && !states[k].tasks@.contains_key(id.0),
    decreases k,
{
    if k == 0 {
        assert(!states[0].tasks@.dom().contains(id.0));
    } else {
        lemma_alive(states, turns, k - 1, id);
        let before = states[k - 1];
        let after = states[k];
        let turn = turns[k - 1];
        assert(turns_into(before, turn, after));
        let touched: usize = match turn {
            Turn::Spawned => before.next_id.0,
            Turn::Polled(polled) => polled.0,
            _ => 0,
        };
        if turn is Spawned {
            if id.0 != touched {
                assert(after.tasks@.remove(touched).contains_key(id.0)
                    == after.tasks@.contains_key(id.0));
            }
        }
        if turn is Polled {
            if id.0 != touched {
                assert(after.tasks@.remove(touched).contains_key(id.0)
                    == before.tasks@.remove(touched).contains_key(id.0));
            } else {
                assert(turn == Turn::Polled(id));
                if !after.tasks@.contains_key(id.0) {
                    assert(finishes(states, turns, k - 1, id));
                }
            }
        }
        if exists|i: int| i < k && #[trigger] finishes(states, turns, i, id) {
            let i = choose|i: int| i < k && #[trigger] finishes(states, turns, i, id);
            if i < k - 1 {
                assert(finishes(states, turns, i, id));
            }
        }
    }
}

/// When no task is left at the end of a run, every task that was taken in has been
/// polled for the last time exactly once, and never after that.
pub proof fn law_each_task_finishes_once<F>(
    states: Seq<RuntimeState<F>>,
    turns: Seq<Turn>,
    id: TaskId,
)
    requires
        is_run(states, turns),
        states.last().tasks@.dom() == Set::<usize>::empty(),
        id.0 < states.last().next_id.0,
    ensures
        exists|i: int|
            {
                &&& #[trigger] finishes(states, turns, i, id)
                &&& forall|j: int| #[trigger] finishes(states, turns, j, id) ==> j == i
                &&& forall|j: int| i < j < turns.len() ==> #[trigger] turns[j] != Turn::Polled(id)
            },
{
    let n = turns.len() as int;
    assert(!states[n].tasks@.dom().contains(id.0));
    lemma_alive(states, turns, n, id);
    let i = choose|i: int| i < n && #[trigger] finishes(states, turns, i, id);
    assert forall|j: int| i < j < turns.len() implies #[trigger] turns[j] != Turn::Polled(id) by {
        lemma_alive(states, turns, j, id);
        assert(turns_into(states[j], turns[j], states[j + 1]));
    }
    assert forall|j: int| #[trigger] finishes(states, turns, j, id) implies j == i by {
        if j < i {
            lemma_alive(states, turns, i, id);
        }
        if i < j {
            lemma_alive(states, turns, j, id);
        }
    }
}

/// What is left of a queue when its front is cut off names nobody more often than the
/// queue does, and whom the cut ends with, once less.
proof fn lemma_cut(queue: Seq<TaskId>, k: int, id: TaskId)
    requires
        0 <= k < queue.len(),
    ensures
        occurrences(queue.skip(k + 1), id) + (if queue[k] == id {
            1int
        } else {
            0
        }) <= occurrences(queue, id),
{
    let front = queue.take(k + 1);
    let rest = queue.skip(k + 1);
    assert(queue == front + rest);
    vstd::seq_lib::lemma_multiset_commutative(front, rest);
    front.to_multiset_ensures();
    if queue[k] == id {
        assert(front[k] == id);
        assert(front.contains(id));
    }
}

/// At any time in a run, a task has been polled no more often than it was put into
/// the queue, by being taken in or woken; what is left over still stands there. So
/// no task is polled without one or the other before.
pub proof fn law_polled_only_when_woken<F>(
    states: Seq<RuntimeState<F>>,
    turns: Seq<Turn>,
    k: int,
    id: TaskId,
)
    requires
        is_run(states, turns),
        0 <= k <= turns.len(),
    ensures
        times_polled(turns, k, id) + occurrences(states[k].queue@, id) <= times_woken(
            states,
            turns,
            k,
            id,
        ),
    decreases k,
{
    if k == 0 {
        states[0].queue@.to_multiset_ensures();
        assert(occurrences(states[0].queue@, id) == 0);
    } else {
        law_polled_only_when_woken(states, turns, k - 1, id);
        let before = states[k - 1];
        let turn = turns[k - 1];
        assert(turns_into(before, turn, states[k]));
        match turn {
            Turn::Polled(_) => {
                lemma_cut(
                    before.queue@,
                    mar::stale_prefix(before.queue@, before.tasks@) as int,
                    id,
                );
            },
            Turn::Emptied => {
                Seq::<TaskId>::empty().to_multiset_ensures();
            },
            _ => {},
        }
    }
}

/// A turn in the life of a runtime.
pub enum HostTurn<F> {
    /// The future is taken in as a task.
    Spawn(F),
    /// The runtime is resumed at `now`, which comes to `drained`.
    Resume { now: u128, drained: Drained },
    /// The runtime comes back from parking.
    Park,
}

impl<F> HostTurn<F> {
    /// What the turn does to the tasks.
    pub open spec fn of_tasks(self) -> Turn {
        match self {
            HostTurn::Spawn(_) => Turn::Spawned,
            HostTurn::Resume { drained: Drained::Polled(id), .. } => Turn::Polled(id),
            HostTurn::Resume { drained: Drained::Empty, .. } => Turn::Emptied,
            HostTurn::Park => Turn::Parked,
        }
    }
}

/// Whether a turn can lead from `before` to `after`, going by what a runtime does when
/// it takes a future in and when it is run.
pub open spec fn takes_turn<H: TaskHost>(before: H, turn: HostTurn<H::Task>, after: H) -> bool {
    match turn {
        HostTurn::Spawn(future) => runtime_state::spawned(
            before.tasks(),
            future,
            after.tasks(),
            before.tasks().next_id,
        ),
        HostTurn::Resume { now, drained } => drains(before, now, after, drained),
        HostTurn::Park => after.tasks() == (RuntimeState {
            queue: after.tasks().queue,
            ..before.tasks()
        }),
    }
}

/// Whether these are the runtimes and the turns of a run, from a runtime without
/// tasks on: `hosts[i]` is what the turn `i` finds and `hosts[i + 1]` what it leaves.
pub open spec fn is_host_run<H: TaskHost>(hosts: Seq<H>, turns: Seq<HostTurn<H::Task>>) -> bool {
    &&& hosts.len() == turns.len() + 1
    &&& hosts[0].tasks().tasks@.dom() == Set::<usize>::empty()
    &&& hosts[0].tasks().queue@.len() == 0
    &&& hosts[0].tasks().next_id == TaskId(0)
    &&& forall|i: int|
        0 <= i < turns.len() ==> takes_turn(hosts[i], #[trigger] turns[i], hosts[i + 1])
}

/// The states of the tasks in a run.
pub open spec fn task_states<H: TaskHost>(hosts: Seq<H>) -> Seq<RuntimeState<H::Task>> {
    hosts.map_values(|host: H| host.tasks())
}

/// What the turns of a run do to the tasks.
pub open spec fn task_turns<F>(turns: Seq<HostTurn<F>>) -> Seq<Turn> {
    turns.map_values(|turn: HostTurn<F>| turn.of_tasks())
}

/// Whether the future of the task `id` is polled in the turn `i`, and is ready.
pub open spec fn is_ready_in<H: TaskHost>(
    hosts: Seq<H>,
    turns: Seq<HostTurn<H::Task>>,
    i: int,
    id: TaskId,
) -> bool {
    &&& finishes(task_states(hosts), task_turns(turns), i, id)
    &&& exists|cx: H::Context, future: H::Task, cx_after: H::Context| #[trigger]
        H::Task::polls(
            hosts[i].tasks().tasks@[id.0].spec_future(),
            cx,
            future,
            cx_after,
            Poll::Ready(()),
        )
}

/// A run is one of the tasks.
proof fn lemma_run_of_tasks<H: TaskHost>(hosts: Seq<H>, turns: Seq<HostTurn<H::Task>>)
    requires
        is_host_run(hosts, turns),
    ensures
        is_run(task_states(hosts), task_turns(turns)),
{
    let states = task_states(hosts);
    let of_tasks = task_turns(turns);
    assert forall|i: int| 0 <= i < of_tasks.len() implies turns_into(
        states[i],
        #[trigger] of_tasks[i],
        states[i + 1],
    ) by {
        assert(takes_turn(hosts[i], turns[i], hosts[i + 1]));
        mar::lemma_stale_prefix(hosts[i].tasks().queue@, hosts[i].tasks().tasks@);
    }
}

/// When no task of a runtime is left, as is so when it is done, every future that was
/// taken in has been ready exactly once and has not been polled after that, and no
/// task has been polled more often than it was taken in or woken.
pub proof fn law_run_is_total<H: TaskHost>(
    hosts: Seq<H>,
    turns: Seq<HostTurn<H::Task>>,
    id: TaskId,
)
    requires
        is_host_run(hosts, turns),
        hosts.last().tasks().tasks@.dom() == Set::<usize>::empty(),
        id.0 < hosts.last().tasks().next_id.0,
    ensures
        exists|i: int|
            {
                &&& #[trigger] is_ready_in(hosts, turns, i, id)
                &&& forall|j: int| #[trigger] is_ready_in(hosts, turns, j, id) ==> j == i
                &&& forall|j: int|
                    i < j < turns.len() ==> (#[trigger] turns[j]).of_tasks() != Turn::Polled(id)
            },
        times_polled(task_turns(turns), turns.len() as int, id) <= times_woken(
            task_states(hosts),
            task_turns(turns),
            turns.len() as int,
            id,
        ),
{
    let states = task_states(hosts);
    let of_tasks = task_turns(turns);
    let n = turns.len() as int;
    lemma_run_of_tasks(hosts, turns);
    law_each_task_finishes_once(states, of_tasks, id);
    law_polled_only_when_woken(states, of_tasks, n, id);
    let i = choose|i: int|
        {
            &&& #[trigger] finishes(states, of_tasks, i, id)
            &&& forall|j: int| #[trigger] finishes(states, of_tasks, j, id) ==> j == i
            &&& forall|j: int| i < j < of_tasks.len() ==> #[trigger] of_tasks[j] != Turn::Polled(id)
        };
    assert(of_tasks[i] == turns[i].of_tasks());
    assert(takes_turn(hosts[i], turns[i], hosts[i + 1]));
    let before = hosts[i];
    let after = hosts[i + 1];
    let now = turns[i]->now;
    let queue = before.tasks().queue@;
    let stale = mar::stale_prefix(queue, before.tasks().tasks@) as int;
    mar::lemma_stale_prefix(queue, before.tasks().tasks@);
    let rest = queue.skip(stale + 1);
    let (cx, future, cx_after, outcome) = choose|
        cx: H::Context,
        future: H::Task,
        cx_after: H::Context,
        outcome: Poll<()>,
    |
        #[trigger]
        polls_task(before, now, after, id, rest, cx, future, cx_after, outcome);
    assert(outcome is Ready);
    assert(outcome->Ready_0 == ());
    assert(outcome == Poll::Ready(()));
    assert(is_ready_in(hosts, turns, i, id));
    assert forall|j: int| i < j < turns.len() implies (#[trigger] turns[j]).of_tasks()
        != Turn::Polled(id) by {
        assert(of_tasks[j] == turns[j].of_tasks());
    }
}

/// At any time in a run, a task that is polled was in the queue more often, by being
/// taken in or woken, than it had been polled.
pub proof fn law_polled_task_was_woken<H: TaskHost>(
    hosts: Seq<H>,
    turns: Seq<HostTurn<H::Task>>,
    k: int,
    id: TaskId,
)
    requires
        is_host_run(hosts, turns),
        0 <= k < turns.len(),
        turns[k].of_tasks() == Turn::Polled(id),
    ensures
        times_polled(task_turns(turns), k, id) < times_woken(
            task_states(hosts),
            task_turns(turns),
            k,
            id,
        ),
{
    let states = task_states(hosts);
    lemma_run_of_tasks(hosts, turns);
    law_polled_only_when_woken(states, task_turns(turns), k, id);
    assert(takes_turn(hosts[k], turns[k], hosts[k + 1]));
    let queue = hosts[k].tasks().queue@;
    mar::lemma_stale_prefix(queue, hosts[k].tasks().tasks@);
    queue.to_multiset_ensures();
    assert(queue.contains(id));
}

/// The task whose turn it is is polled as it stands, with everything behind it in the
/// queue still to come: given that the id at the place `k` is the first of a task that has
/// not finished, that task's future is polled, in a context that is the task's own, and
/// the runtime goes on from what the poll has left. A future that is pending is kept as
/// the poll left it, and one that is ready is gone.
pub proof fn law_poll_goes_by_queue<H: TaskHost>(
    before: H,
    now: u128,
    after: H,
    drained: Drained,
    k: int,
)
    requires
        drains(before, now, after, drained),
        0 <= k < before.tasks().queue@.len(),
        forall|i: int|
            0 <= i < k ==> !before.tasks().tasks@.contains_key(
                (#[trigger] before.tasks().queue@[i]).0,
            ),
        before.tasks().tasks@.contains_key(before.tasks().queue@[k].0),
    ensures
        ({
            let id = before.tasks().queue@[k];
            let task = before.tasks().tasks@[id.0].spec_future();
            exists|cx: H::Context, future: H::Task, cx_after: H::Context, outcome: Poll<()>|
                {
                    &&& #[trigger] H::Task::polls(task, cx, future, cx_after, outcome)
                    &&& before.sees(cx, id, now, before.tasks().queue@.skip(k + 1))
                    &&& after.took_over(cx_after)
                    &&& outcome is Pending <==> after.tasks().tasks@.contains_key(id.0)
                    &&& outcome is Pending ==> after.tasks().tasks@[id.0].spec_future() == future
                }
        }),
{
    let queue = before.tasks().queue@;
    let tasks = before.tasks().tasks@;
    mar::lemma_stale_prefix(queue, tasks);
    assert(mar::stale_prefix(queue, tasks) == k);
    let id = queue[k];
    let (cx, future, cx_after, outcome) = choose|
        cx: H::Context,
        future: H::Task,
        cx_after: H::Context,
        outcome: Poll<()>,
    |
        #[trigger]
        polls_task(before, now, after, id, queue.skip(k + 1), cx, future, cx_after, outcome);
    assert(H::Task::polls(tasks[id.0].spec_future(), cx, future, cx_after, outcome));
}

/// A future that is taken in is polled when its turn comes: as it was taken in, by a
/// runtime with nothing else in its queue.
pub proof fn law_spawned_task_is_polled<H: TaskHost>(
    before: H,
    future: H::Task,
    taken: H,
    id: TaskId,
    now: u128,
    after: H,
    drained: Drained,
)
    requires
        before.tasks().queue@.len() == 0,
        runtime_state::spawned(before.tasks(), future, taken.tasks(), id),
        drains(taken, now, after, drained),
    ensures
        drained == Drained::Polled(id),
        exists|cx: H::Context, left: H::Task, cx_after: H::Context, outcome: Poll<()>|
            {
                &&& #[trigger] H::Task::polls(future, cx, left, cx_after, outcome)
                &&& taken.sees(cx, id, now, Seq::empty())
                &&& after.took_over(cx_after)
            },
        before.tasks().tasks@.dom().subset_of(taken.tasks().tasks@.dom()),
{
    let queue = taken.tasks().queue@;
    assert(queue == seq![id]);
    law_first_live_task_is_polled(taken, now, after, drained, 0);
    law_poll_goes_by_queue(taken, now, after, drained, 0);
    assert(queue.skip(1) == Seq::<TaskId>::empty());
    assert forall|key: usize| before.tasks().tasks@.contains_key(key) implies #[trigger]
        taken.tasks().tasks@.contains_key(key) by {
        assert(taken.tasks().tasks@.remove(id.0).contains_key(key));
    }
}

/// What no turn makes less is no less later in a run.
pub proof fn lemma_closure_ids_grow<H: TaskHost>(hosts: Seq<H>, i: int, j: int)
    requires
        0 <= i <= j < hosts.len(),
        forall|k: int|
            0 <= k < hosts.len() - 1 ==> (#[trigger] hosts[k]).tasks().next_blocking_id.0
                <= hosts[k + 1].tasks().next_blocking_id.0,
    ensures
        hosts[i].tasks().next_blocking_id.0 <= hosts[j].tasks().next_blocking_id.0,
    decreases j - i,
{
    if i < j {
        lemma_closure_ids_grow(hosts, i, j - 1);
        let (last, next) = (hosts[j - 1], hosts[j - 1 + 1]);
        assert(last.tasks().next_blocking_id.0 <= next.tasks().next_blocking_id.0);
    }
}

} // verus!
