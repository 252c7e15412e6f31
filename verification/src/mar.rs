use vstd::prelude::*;

use crate::context::Context;
use crate::deadline_queue;
use crate::future::{Future, Poll};
use crate::lemmas;
use crate::life;
use crate::life::{HostTurn, TaskHost};
use crate::reactor;
use crate::reactor::WAKEN_TOKEN;
use crate::runtime_state;
use crate::runtime_state::{BlockingId, RuntimeState, TaskId};
use crate::task;
use crate::task::Task;
use crate::time;
use crate::time::TimerHeap;
use crate::waker::TaskWaker;

verus! {

/// A runtime that drives tasks, timers and closures on workers from one thread.
#[verifier::reject_recursive_types(F)]
pub struct Mar<F> {
    /// The tasks.
    pub state: RuntimeState<F>,
    /// The timers.
    pub wheel: TimerHeap<TaskWaker>,
}

/// What has happened since the runtime was last run.
pub enum Event {
    /// Nothing: the clock shows `now`.
    Resumed { now: u128 },
    /// The thread was parked and came back at `now`, with events under these
    /// tokens; `completed` are the closures that are through.
    Parked { now: u128, tokens: Vec<usize>, completed: Vec<BlockingId> },
}

/// What a runtime wants done next.
#[derive(PartialEq, Eq, Debug)]
pub enum Action {
    /// Run it again at once.
    Resume,
    /// Park the thread until an event comes or, if there is a timeout, until
    /// so many nanoseconds have passed.
    Park(Option<u128>),
    /// Nothing is left to do.
    Done,
}

/// How many ids at the front of `queue` no task in `tasks` has.
pub open spec fn stale_prefix<F>(
    queue: Seq<TaskId>,
    tasks: Map<usize, Task<TaskWaker, F>>,
) -> nat
    decreases queue.len(),
{
    if queue.len() == 0 || tasks.contains_key(queue[0].0) {
        0
    } else {
        1 + stale_prefix(queue.skip(1), tasks)
    }
}

impl<F: Future<Context = Context, Output = ()>> TaskHost for Mar<F> {
    type Context = Context;

    type Task = F;

    open spec fn tasks(&self) -> RuntimeState<F> {
        self.state
    }

    open spec fn sees(&self, cx: Context, id: TaskId, now: u128, queue: Seq<TaskId>) -> bool {
        &&& cx.waker.spec_id() == id
        &&& cx.now == now
        &&& cx.queue@ == queue
        &&& cx.wheel == self.wheel
        &&& cx.blocking_wakers == self.state.blocking_wakers
        &&& cx.next_blocking_id == self.state.next_blocking_id
    }

    open spec fn took_over(&self, cx: Context) -> bool {
        &&& self.state.queue@ == cx.queue@
        &&& self.wheel == cx.wheel
        &&& self.state.blocking_wakers == cx.blocking_wakers
        &&& self.state.next_blocking_id == cx.next_blocking_id
    }

    open spec fn kept_rest(&self, before: Self) -> bool {
        self.wheel == before.wheel
    }
}

impl<F> Mar<F> {
    /// Whether nothing is left to do: no task, no timer and no closure that
    /// someone waits for.
    pub open spec fn finished(&self) -> bool {
        &&& self.state.tasks@.dom() == Set::<usize>::empty()
        &&& self.wheel@.len() == 0
        &&& self.state.blocking_wakers@.dom() == Set::<usize>::empty()
    }
}

impl<F: Future<Context = Context, Output = ()>> Mar<F> {
    /// The tasks are in order and can all be polled.
    pub open spec fn wf(&self) -> bool {
        &&& self.state.wf()
        &&& forall|key: usize| #[trigger]
            self.state.tasks@.contains_key(key)
                ==> self.state.tasks@[key].spec_future().pollable()
    }

    /// A runtime without tasks.
    pub fn new() -> (runtime: Self)
        ensures
            runtime.wf(),
            runtime.state.queue@.len() == 0,
            runtime.state.tasks@ == Map::<usize, Task<TaskWaker, F>>::empty(),
            runtime.state.next_id == TaskId(0),
            runtime.state.blocking_wakers@ == Map::<usize, TaskWaker>::empty(),
            runtime.state.next_blocking_id == BlockingId(0),
            runtime.wheel@.len() == 0,
            runtime.wheel.spec_next_id() == 0,
    {
        Mar { state: RuntimeState::new(), wheel: TimerHeap::new() }
    }
}

/// What one turn of draining came to.
#[derive(PartialEq, Eq, Debug)]
pub enum Drained {
    /// The task was polled.
    Polled(TaskId),
    /// No queued task was left to poll.
    Empty,
}

/// Cuts the ids that no task has off the front of the queue, and the id after
/// them, which is returned.
pub(crate) fn pop_live<F>(state: &mut RuntimeState<F>) -> (next: Option<TaskId>)
    ensures
        *final(state) == (RuntimeState { queue: final(state).queue, ..*old(state) }),
        next is None <==> stale_prefix(old(state).queue@, old(state).tasks@)
            == old(state).queue@.len(),
        next is None ==> final(state).queue@.len() == 0,
        next matches Some(id) ==> {
            let stale = stale_prefix(old(state).queue@, old(state).tasks@) as int;
            &&& stale < old(state).queue@.len()
            &&& id == old(state).queue@[stale]
            &&& old(state).tasks@.contains_key(id.0)
            &&& final(state).queue@ == old(state).queue@.skip(stale + 1)
        },
{
    let ghost queue = state.queue@;
    let ghost mut cut: int = 0;
    assert(queue.skip(0) == queue);
    while state.queue.len() > 0
        invariant
            0 <= cut <= queue.len(),
            queue == old(state).queue@,
            state.queue@ == queue.skip(cut),
            *state == (RuntimeState { queue: state.queue, ..*old(state) }),
            stale_prefix(queue, state.tasks@) == cut + stale_prefix(queue.skip(cut), state.tasks@),
        decreases state.queue.len(),
    {
        let id = state.queue.remove(0);
        assert(queue.skip(cut)[0] == queue[cut]);
        assert(queue.skip(cut).skip(1) == queue.skip(cut + 1));
        assert(state.queue@ == queue.skip(cut + 1));
        if state.tasks.contains_key(&id.0) {
            return Some(id);
        }
        proof {
            cut = cut + 1;
        }
    }
    None
}

/// Polls the first queued task that has not finished, if there is one. A task
/// that is pending goes back to the others; one that is ready is dropped.
pub fn drain_ready_queue<F: Future<Context = Context, Output = ()>>(
    runtime: &mut Mar<F>,
    now: u128,
) -> (drained: Drained)
    requires
        old(runtime).wf(),
    ensures
        final(runtime).wf(),
        life::drains(*old(runtime), now, *final(runtime), drained),
{
    let ghost tasks0 = runtime.state.tasks@;
    let next = pop_live(&mut runtime.state);
    match next {
        None => Drained::Empty,
        Some(id) => {
            let mut task = runtime.state.tasks.remove(&id.0).unwrap();
            let mut cx = Context::new(*task.waker(), now);
            std::mem::swap(&mut cx.queue, &mut runtime.state.queue);
            std::mem::swap(&mut cx.wheel, &mut runtime.wheel);
            std::mem::swap(&mut cx.blocking_wakers, &mut runtime.state.blocking_wakers);
            cx.next_blocking_id = runtime.state.next_blocking_id;
            let ghost cx0 = cx;
            let outcome = task.poll(&mut cx);
            let ghost cx1 = cx;
            let ghost future1 = task.spec_future();
            runtime.state.queue = cx.queue;
            runtime.wheel = cx.wheel;
            runtime.state.blocking_wakers = cx.blocking_wakers;
            runtime.state.next_blocking_id = cx.next_blocking_id;
            let ready = outcome.is_ready();
            if !ready {
                runtime.state.tasks.insert(id.0, task);
            }
            proof {
                assert(runtime.state.tasks@.remove(id.0) == tasks0.remove(id.0));
                let rest = cx0.queue@;
                assert(life::polls_task(
                    *old(runtime),
                    now,
                    *runtime,
                    id,
                    rest,
                    cx0,
                    future1,
                    cx1,
                    outcome,
                ));
            }
            Drained::Polled(id)
        },
    }
}

/// Takes the root future in as a task and queues it for its first poll.
pub fn spawn_root<F: Future<Context = Context, Output = ()>>(runtime: &mut Mar<F>, future: F)
    requires
        old(runtime).wf(),
        old(runtime).state.next_id.0 < usize::MAX,
        future.pollable(),
    ensures
        final(runtime).wf(),
        final(runtime).wheel == old(runtime).wheel,
        runtime_state::spawned(
            old(runtime).state,
            future,
            final(runtime).state,
            old(runtime).state.next_id,
        ),
{
    let _ = runtime.state.spawn(future);
    assert forall|key: usize| #[trigger] runtime.state.tasks@.contains_key(
        key,
    ) implies runtime.state.tasks@[key].spec_future().pollable() by {
        let id = old(runtime).state.next_id;
        if key != id.0 {
            assert(runtime.state.tasks@.remove(id.0).contains_key(key));
            assert(runtime.state.tasks@.remove(id.0)[key] == runtime.state.tasks@[key]);
        }
    }
}

/// Whether nothing is left to do.
pub fn is_done<F>(runtime: &Mar<F>) -> (done: bool)
    ensures
        done == runtime.finished(),
{
    let done = runtime.state.tasks.is_empty() && runtime.wheel.is_empty()
        && runtime.state.blocking_wakers.is_empty();
    proof {
        lemmas::lemma_empty_map(runtime.state.tasks@);
        lemmas::lemma_empty_map(runtime.state.blocking_wakers@);
    }
    done
}

/// How long to park at `now`.
pub fn compute_timeout(wheel: &TimerHeap<TaskWaker>, now: u128) -> (timeout: Option<u128>)
    ensures
        timeout == deadline_queue::park_timeout(wheel@, now),
        deadline_queue::in_order(wheel@),
{
    match time::next_deadline(wheel) {
        Some(deadline) => Some(deadline.saturating_sub(now)),
        None => None,
    }
}

/// Wakes the tasks of the timers whose deadline has passed.
pub fn fire_due_timers<F>(runtime: &mut Mar<F>, now: u128)
    ensures
        final(runtime).state == (RuntimeState {
            queue: final(runtime).state.queue,
            ..old(runtime).state
        }),
        final(runtime).state.queue@ == old(runtime).state.queue@ + time::woken_by(
            deadline_queue::due(old(runtime).wheel@, now),
        ),
        final(runtime).wheel@ == deadline_queue::not_due(old(runtime).wheel@, now),
        final(runtime).wheel.spec_next_id() == old(runtime).wheel.spec_next_id(),
        deadline_queue::in_order(old(runtime).wheel@),
        deadline_queue::in_order(final(runtime).wheel@),
{
    time::expire_due(&mut runtime.wheel, now, &mut runtime.state.queue);
}

/// The tasks that wait for one of the closures in `completed`, in the order in
/// which the closures came through.
pub open spec fn waiting_for(
    completed: Seq<BlockingId>,
    wakers: Map<usize, TaskWaker>,
) -> Seq<TaskId> {
    completed.filter(|id: BlockingId| wakers.contains_key(id.0)).map_values(
        |id: BlockingId| wakers[id.0].spec_id(),
    )
}

/// If the workers have announced anything, wakes the tasks that wait for one of
/// the closures in `completed`, and no others.
pub fn wake_completed_blocking<F>(
    runtime: &mut Mar<F>,
    tokens: &Vec<usize>,
    completed: &Vec<BlockingId>,
)
    ensures
        final(runtime).wheel == old(runtime).wheel,
        final(runtime).state == (RuntimeState {
            queue: final(runtime).state.queue,
            ..old(runtime).state
        }),
        final(runtime).state.queue@ == old(runtime).state.queue@ + (if tokens@.contains(
            WAKEN_TOKEN,
        ) {
            waiting_for(completed@, old(runtime).state.blocking_wakers@)
        } else {
            Seq::<TaskId>::empty()
        }),
{
    let announced = reactor::has_token(tokens, WAKEN_TOKEN);
    if announced {
        let ghost wakers = runtime.state.blocking_wakers@;
        let ghost queue = runtime.state.queue@;
        let ghost waits = |id: BlockingId| wakers.contains_key(id.0);
        let mut i: usize = 0;
        proof {
            reveal(Seq::filter);
            assert(queue + waiting_for(completed@.take(0), wakers) == queue);
        }
        while i < completed.len()
            invariant
                i <= completed@.len(),
                wakers == runtime.state.blocking_wakers@,
                waits == (|id: BlockingId| wakers.contains_key(id.0)),
                runtime.wheel == old(runtime).wheel,
                runtime.state == (RuntimeState {
                    queue: runtime.state.queue,
                    ..old(runtime).state
                }),
                runtime.state.queue@ == queue + waiting_for(completed@.take(i as int), wakers),
            decreases completed.len() - i,
        {
            proof {
                lemmas::lemma_filter_step(completed@, i as int, waits);
            }
            let waker = match runtime.state.blocking_wakers.get(&completed[i].0) {
                Some(waker) => Some(*waker),
                None => None,
            };
            if let Some(waker) = waker {
                waker.wake_by_ref(&mut runtime.state.queue);
            }
            assert(runtime.state.queue@ == queue + waiting_for(
                completed@.take(i + 1),
                wakers,
            ));
            i = i + 1;
        }
        assert(completed@.take(i as int) == completed@);
    }
    assert(!announced ==> runtime.state.queue@ + Seq::<TaskId>::empty() == runtime.state.queue@);
}

impl<F: Future<Context = Context, Output = ()>> Mar<F> {
    /// Whether what has happened can take a runtime from `before` to `after` in a turn,
    /// and this be what is wanted next.
    pub open spec fn turned(before: Self, event: Event, after: Self, action: Action) -> bool {
        match event {
            Event::Resumed { now } => {
                &&& action is Resume ==> exists|id: TaskId|
                    #[trigger] life::drains(before, now, after, Drained::Polled(id))
                &&& action !is Resume ==> life::drains(
                    before,
                    now,
                    after,
                    Drained::Empty,
                )
                &&& action !is Resume ==> after.state.queue@.len() == 0
                &&& action is Done ==> after.finished()
                &&& action matches Action::Park(timeout) ==> {
                    &&& !after.finished()
                    &&& timeout == deadline_queue::park_timeout(after.wheel@, now)
                    &&& deadline_queue::in_order(after.wheel@)
                }
            },
            Event::Parked { now, tokens, completed } => {
                &&& action is Resume
                &&& deadline_queue::in_order(before.wheel@)
                &&& after.wheel@ == deadline_queue::not_due(before.wheel@, now)
                &&& after.wheel.spec_next_id() == before.wheel.spec_next_id()
                &&& after.state == (RuntimeState {
                    queue: after.state.queue,
                    ..before.state
                })
                &&& after.state.queue@ == before.state.queue@ + time::woken_by(
                    deadline_queue::due(before.wheel@, now),
                ) + (if tokens@.contains(WAKEN_TOKEN) {
                    waiting_for(completed@, before.state.blocking_wakers@)
                } else {
                    Seq::<TaskId>::empty()
                })
            },
        }
    }

    /// Takes one turn in the life of a runtime and says what is wanted next.
    ///
    /// A runtime that is resumed polls one queued task. When none is queued it
    /// is done if nothing is left, and wants to park otherwise. A runtime that
    /// comes back from parking wakes the tasks whose timers are due, and then
    /// those whose closures are through.
    pub fn run(&mut self, event: Event) -> (action: Action)
        requires
            old(self).wf(),
        ensures
            final(self).wf(),
            Self::turned(*old(self), event, *final(self), action),
    {
        match event {
            Event::Resumed { now } => {
                match drain_ready_queue(self, now) {
                    Drained::Polled(_) => Action::Resume,
                    Drained::Empty => {
                        if is_done(self) {
                            Action::Done
                        } else {
                            Action::Park(compute_timeout(&self.wheel, now))
                        }
                    },
                }
            },
            Event::Parked { now, tokens, completed } => {
                fire_due_timers(self, now);
                wake_completed_blocking(self, &tokens, &completed);
                Action::Resume
            },
        }
    }
}

/// No more ids are skipped than there are, the skipped ones are nobody's, and the
/// one behind them is a task's.
pub proof fn lemma_stale_prefix<F>(queue: Seq<TaskId>, tasks: Map<usize, Task<TaskWaker, F>>)
    ensures
        stale_prefix(queue, tasks) <= queue.len(),
        forall|i: int|
            0 <= i < stale_prefix(queue, tasks) ==> !tasks.contains_key((#[trigger] queue[i]).0),
        stale_prefix(queue, tasks) < queue.len() ==> tasks.contains_key(
            queue[stale_prefix(queue, tasks) as int].0,
        ),
    decreases queue.len(),
{
    if queue.len() != 0 && !tasks.contains_key(queue[0].0) {
        let rest = queue.skip(1);
        lemma_stale_prefix(rest, tasks);
        assert forall|i: int| 0 <= i < stale_prefix(queue, tasks) implies !tasks.contains_key(
            (#[trigger] queue[i]).0,
        ) by {
            if i > 0 {
                assert(rest[i - 1] == queue[i]);
            }
        }
        if stale_prefix(rest, tasks) < rest.len() {
            assert(rest[stale_prefix(rest, tasks) as int] == queue[stale_prefix(
                queue,
                tasks,
            ) as int]);
        }
    }
}

/// Coming back from parking, a runtime queues the task of every timer that is due
/// and of no other, and keeps just the timers that are not.
pub proof fn law_due_timers_fire(
    wheel: Seq<deadline_queue::TimerEntry<TaskWaker>>,
    now: u128,
    timer: deadline_queue::TimerEntry<TaskWaker>,
)
    requires
        wheel.contains(timer),
    ensures
        timer.is_due(now) ==> time::woken_by(deadline_queue::due(wheel, now)).contains(
            timer.waker.spec_id(),
        ),
        timer.is_due(now) <==> deadline_queue::due(wheel, now).contains(timer),
        !timer.is_due(now) <==> deadline_queue::not_due(wheel, now).contains(timer),
{
    let fires = |e: deadline_queue::TimerEntry<TaskWaker>| e.is_due(now);
    let waits = |e: deadline_queue::TimerEntry<TaskWaker>| !e.is_due(now);
    let k = choose|k: int| 0 <= k < wheel.len() && wheel[k] == timer;
    let due = wheel.filter(fires);
    let rest = wheel.filter(waits);
    if timer.is_due(now) {
        wheel.lemma_filter_contains(fires, k);
        let j = choose|j: int| 0 <= j < due.len() && due[j] == timer;
        assert(time::woken_by(due)[j] == timer.waker.spec_id());
    } else {
        wheel.lemma_filter_contains(waits, k);
    }
    assert forall|j: int| 0 <= j < due.len() implies (#[trigger] due[j]).is_due(now) by {
        wheel.lemma_filter_pred(fires, j);
    }
    assert forall|j: int| 0 <= j < rest.len() implies !(#[trigger] rest[j]).is_due(now) by {
        wheel.lemma_filter_pred(waits, j);
    }
}

/// A closure that is through wakes the task that waits for it, and a task is only
/// woken for a closure that it waits for.
pub proof fn law_completion_wakes_its_task(
    completed: Seq<BlockingId>,
    wakers: Map<usize, TaskWaker>,
    task: TaskId,
)
    ensures
        waiting_for(completed, wakers).contains(task) <==> exists|k: int|
            0 <= k < completed.len() && wakers.contains_key((#[trigger] completed[k]).0)
                && wakers[completed[k].0].spec_id() == task,
{
    let waits = |id: BlockingId| wakers.contains_key(id.0);
    let kept = completed.filter(waits);
    let woken = waiting_for(completed, wakers);
    if woken.contains(task) {
        let j = choose|j: int| 0 <= j < woken.len() && woken[j] == task;
        completed.lemma_filter_pred(waits, j);
        assert(kept.contains(kept[j]));
        completed.lemma_filter_contains_rev(waits, kept[j]);
        let k = choose|k: int| 0 <= k < completed.len() && completed[k] == kept[j];
        assert(wakers[completed[k].0].spec_id() == task);
    }
    if exists|k: int|
        0 <= k < completed.len() && wakers.contains_key((#[trigger] completed[k]).0)
            && wakers[completed[k].0].spec_id() == task {
        let k = choose|k: int|
            0 <= k < completed.len() && wakers.contains_key((#[trigger] completed[k]).0)
                && wakers[completed[k].0].spec_id() == task;
        completed.lemma_filter_contains(waits, k);
        let j = choose|j: int| 0 <= j < kept.len() && kept[j] == completed[k];
        assert(woken[j] == task);
    }
}

/// The ids of closures never go back: as long as no poll lowers the next id in its
/// context, it is at any time in a run no lower than at any time before.
pub proof fn law_closure_ids_never_go_back<F: Future<Context = Context, Output = ()>>(
    hosts: Seq<Mar<F>>,
    turns: Seq<HostTurn<F>>,
    i: int,
    j: int,
)
    requires
        life::is_host_run(hosts, turns),
        forall|task: F, cx: Context, future: F, cx_after: Context, outcome: Poll<()>| #[trigger]
            F::polls(task, cx, future, cx_after, outcome) ==> cx.next_blocking_id.0
                <= cx_after.next_blocking_id.0,
        0 <= i <= j <= turns.len(),
    ensures
        hosts[i].state.next_blocking_id.0 <= hosts[j].state.next_blocking_id.0,
{
    assert forall|k: int| 0 <= k < hosts.len() - 1 implies (
    #[trigger] hosts[k]).tasks().next_blocking_id.0 <= hosts[k
        + 1].tasks().next_blocking_id.0 by {
        assert(life::takes_turn(hosts[k], turns[k], hosts[k + 1]));
    }
    life::lemma_closure_ids_grow(hosts, i, j);
}

/// No two closures of a run have one id: a closure that is spawned in a poll has another
/// id than every closure that is spawned in a later poll, of whichever task, as long as
/// no poll lowers the next id in its context.
pub proof fn law_closures_of_a_run_differ<F: Future<Context = Context, Output = ()>, I, K>(
    hosts: Seq<Mar<F>>,
    turns: Seq<HostTurn<F>>,
    i: int,
    j: int,
    first: (TaskId, Context, F, Context, Poll<()>),
    later: (TaskId, Context, F, Context, Poll<()>),
    one: (Context, I, Context, task::blocking::BlockingTask<I>),
    other: (Context, K, Context, task::blocking::BlockingTask<K>),
)
    requires
        life::is_host_run(hosts, turns),
        forall|task: F, cx: Context, future: F, cx_after: Context, outcome: Poll<()>| #[trigger]
            F::polls(task, cx, future, cx_after, outcome) ==> cx.next_blocking_id.0
                <= cx_after.next_blocking_id.0,
        0 <= i < j < turns.len(),
        polled_in(hosts, i, first),
        polled_in(hosts, j, later),
        task::blocking::spawns(one.0, one.1, one.2, one.3),
        first.1.next_blocking_id.0 <= one.0.next_blocking_id.0,
        one.2.next_blocking_id.0 <= first.3.next_blocking_id.0,
        task::blocking::spawns(other.0, other.1, other.2, other.3),
        later.1.next_blocking_id.0 <= other.0.next_blocking_id.0,
    ensures
        one.3.spec_id() < other.3.spec_id(),
{
    law_closure_ids_never_go_back(hosts, turns, i + 1, j);
}

/// Whether the turn `i` polls a task: the one with this id, in this context, which leaves
/// this future and this context behind and comes to this.
pub open spec fn polled_in<F: Future<Context = Context, Output = ()>>(
    hosts: Seq<Mar<F>>,
    i: int,
    poll: (TaskId, Context, F, Context, Poll<()>),
) -> bool {
    exists|now: u128, rest: Seq<TaskId>| #[trigger]
        life::polls_task(
            hosts[i],
            now,
            hosts[i + 1],
            poll.0,
            rest,
            poll.1,
            poll.2,
            poll.3,
            poll.4,
        )
}

/// A task finds what the task before it has left. Of two polls, one after the other, the
/// second sees everything in the runtime as the first left it, with its own waker and the
/// time; nothing that a task has put there is lost on the way.
pub proof fn law_task_finds_what_the_last_left<F: Future<Context = Context, Output = ()>>(
    first: Mar<F>,
    second: Mar<F>,
    third: Mar<F>,
    now: u128,
    id: TaskId,
    rest: Seq<TaskId>,
    poll: (Context, F, Context, Poll<()>),
    next_now: u128,
    next_id: TaskId,
    next_rest: Seq<TaskId>,
    next: (Context, F, Context, Poll<()>),
)
    requires
        life::polls_task(first, now, second, id, rest, poll.0, poll.1, poll.2, poll.3),
        life::polls_task(
            second,
            next_now,
            third,
            next_id,
            next_rest,
            next.0,
            next.1,
            next.2,
            next.3,
        ),
    ensures
        second.state.queue@ == poll.2.queue@,
        next.0.queue@ == next_rest,
        next.0.now == next_now,
        next.0.waker.spec_id() == next_id,
        next.0.wheel@ == poll.2.wheel@,
        next.0.wheel.spec_next_id() == poll.2.wheel.spec_next_id(),
        next.0.blocking_wakers@ == poll.2.blocking_wakers@,
        next.0.next_blocking_id == poll.2.next_blocking_id,
        F::polls(
            second.state.tasks@[next_id.0].spec_future(),
            next.0,
            next.1,
            next.2,
            next.3,
        ),
        next.3 is Pending <==> third.state.tasks@.contains_key(next_id.0),
        next.3 is Pending ==> third.state.tasks@[next_id.0].spec_future() == next.1,
{
}

/// What a runtime wants next. It is done only with no task, no timer and nobody waiting
/// for a closure, and parks only with one of these left and no task to be polled; it
/// parks without a timeout only if there is no timer, and with one only until the earliest
/// of all deadlines, which is not at all if that has passed.
pub proof fn law_action_goes_by_what_is_left<F: Future<Context = Context, Output = ()>>(
    before: Mar<F>,
    now: u128,
    after: Mar<F>,
    action: Action,
)
    requires
        Mar::turned(before, Event::Resumed { now }, after, action),
    ensures
        action is Done ==> {
            &&& after.state.tasks@.dom() == Set::<usize>::empty()
            &&& after.wheel@.len() == 0
            &&& after.state.blocking_wakers@.dom() == Set::<usize>::empty()
        },
        action is Park ==> {
            ||| after.state.tasks@.dom() != Set::<usize>::empty()
            ||| after.wheel@.len() > 0
            ||| after.state.blocking_wakers@.dom() != Set::<usize>::empty()
        },
        !(action is Resume) ==> {
            &&& after.state.queue@.len() == 0
            &&& after.state.tasks@ == before.state.tasks@
            &&& after.state.next_id == before.state.next_id
            &&& after.state.blocking_wakers@ == before.state.blocking_wakers@
            &&& after.state.next_blocking_id == before.state.next_blocking_id
            &&& after.wheel@ == before.wheel@
            &&& forall|i: int|
                0 <= i < before.state.queue@.len() ==> !before.state.tasks@.contains_key(
                    (#[trigger] before.state.queue@[i]).0,
                )
        },
        action == Action::Park(None) ==> after.wheel@.len() == 0,
        action matches Action::Park(Some(timeout)) ==> {
            &&& forall|i: int|
                0 <= i < after.wheel@.len() ==> timeout == 0 || now + timeout <= (
                #[trigger] after.wheel@[i]).deadline
            &&& exists|i: int|
                0 <= i < after.wheel@.len() && (#[trigger] after.wheel@[i]).deadline <= now
                    + timeout
        },
{
    lemma_stale_prefix(before.state.queue@, before.state.tasks@);
    if action is Park {
        deadline_queue::law_park_until_earliest_deadline(after.wheel@, now);
    }
}

/// What coming back from parking does: the timers whose deadline has passed are gone, and
/// only they; their tasks, and those that wait for a closure that was announced, are
/// queued behind what was queued; no task and nobody who waits is lost.
pub proof fn law_parking_wakes_who_is_due<F: Future<Context = Context, Output = ()>>(
    before: Mar<F>,
    now: u128,
    tokens: Vec<usize>,
    completed: Vec<BlockingId>,
    after: Mar<F>,
    action: Action,
    timer: deadline_queue::TimerEntry<TaskWaker>,
    closure: BlockingId,
)
    requires
        Mar::turned(before, Event::Parked { now, tokens, completed }, after, action),
    ensures
        action is Resume,
        after.state.tasks@ == before.state.tasks@,
        after.state.next_id == before.state.next_id,
        after.state.next_blocking_id == before.state.next_blocking_id,
        after.state.blocking_wakers@ == before.state.blocking_wakers@,
        before.state.queue@.is_prefix_of(after.state.queue@),
        after.wheel@.contains(timer) <==> before.wheel@.contains(timer) && timer.deadline > now,
        before.wheel@.contains(timer) && timer.deadline <= now ==> after.state.queue@.contains(
            timer.waker.spec_id(),
        ),
        tokens@.contains(0) && completed@.contains(closure)
            && before.state.blocking_wakers@.contains_key(closure.0)
            ==> after.state.queue@.contains(before.state.blocking_wakers@[closure.0].spec_id()),
{
    let queue = before.state.queue@;
    let due = time::woken_by(deadline_queue::due(before.wheel@, now));
    let wakers = before.state.blocking_wakers@;
    let waits = |e: deadline_queue::TimerEntry<TaskWaker>| !e.is_due(now);
    if before.wheel@.contains(timer) {
        law_due_timers_fire(before.wheel@, now, timer);
        if timer.deadline <= now {
            let j = choose|j: int| 0 <= j < due.len() && due[j] == timer.waker.spec_id();
            assert(after.state.queue@[queue.len() + j] == timer.waker.spec_id());
        }
    }
    if after.wheel@.contains(timer) {
        before.wheel@.lemma_filter_contains_rev(waits, timer);
        let k = choose|k: int| 0 <= k < after.wheel@.len() && after.wheel@[k] == timer;
        before.wheel@.lemma_filter_pred(waits, k);
    }
    if tokens@.contains(0) && completed@.contains(closure) && wakers.contains_key(closure.0) {
        let k = choose|k: int| 0 <= k < completed@.len() && completed@[k] == closure;
        assert(wakers.contains_key(completed@[k].0));
        let task = wakers[closure.0].spec_id();
        law_completion_wakes_its_task(completed@, wakers, task);
        let woken = waiting_for(completed@, wakers);
        let j = choose|j: int| 0 <= j < woken.len() && woken[j] == task;
        assert(after.state.queue@[queue.len() + due.len() + j] == task);
    }
}

/// Everything that a runtime does when it is run is a turn in the life of its tasks.
pub proof fn law_run_takes_a_turn<F: Future<Context = Context, Output = ()>>(
    before: Mar<F>,
    event: Event,
    after: Mar<F>,
    action: Action,
)
    requires
        Mar::turned(before, event, after, action),
    ensures
        exists|turn: HostTurn<F>| #[trigger] life::takes_turn(before, turn, after),
{
    match event {
        Event::Resumed { now } => {
            if action is Resume {
                let id = choose|id: TaskId|
                    #[trigger] life::drains(before, now, after, Drained::Polled(id));
                let turn = HostTurn::<F>::Resume { now, drained: Drained::Polled(id) };
                assert(life::takes_turn(before, turn, after));
            } else {
                let turn = HostTurn::<F>::Resume { now, drained: Drained::Empty };
                assert(life::takes_turn(before, turn, after));
            }
        },
        Event::Parked { .. } => {
            assert(life::takes_turn(before, HostTurn::<F>::Park, after));
        },
    }
}

/// Completions wake whom they are for, each once and in their order. One row of closures
/// after another wakes whom the first wakes and then whom the second wakes; a closure
/// alone wakes the task that waits for it, if there is one.
pub proof fn law_completions_wake_in_order(
    first: Seq<BlockingId>,
    then: Seq<BlockingId>,
    closure: BlockingId,
    wakers: Map<usize, TaskWaker>,
)
    ensures
        waiting_for(first + then, wakers) == waiting_for(first, wakers) + waiting_for(
            then,
            wakers,
        ),
        waiting_for(seq![closure], wakers) == if wakers.contains_key(closure.0) {
            seq![wakers[closure.0].spec_id()]
        } else {
            Seq::<TaskId>::empty()
        },
{
    let waits = |id: BlockingId| wakers.contains_key(id.0);
    let task = |id: BlockingId| wakers[id.0].spec_id();
    Seq::filter_distributes_over_add(first, then, waits);
    assert((first.filter(waits) + then.filter(waits)).map_values(task) == first.filter(
        waits,
    ).map_values(task) + then.filter(waits).map_values(task));
    reveal(Seq::filter);
    let one = seq![closure];
    assert(one.drop_last() == Seq::<BlockingId>::empty());
    assert(one.drop_last().filter(waits) == Seq::<BlockingId>::empty());
    if wakers.contains_key(closure.0) {
        assert(one.filter(waits) == one);
        assert(waiting_for(one, wakers) == seq![wakers[closure.0].spec_id()]);
    } else {
        assert(one.filter(waits) == Seq::<BlockingId>::empty());
        assert(waiting_for(one, wakers) == Seq::<TaskId>::empty());
    }
}

/// Coming back from parking wakes nobody else: whoever is queued behind what was queued
/// has a timer whose deadline has passed, or waits for a closure that the workers have
/// announced. Every timer that is gone queues its task once, and a closure queues one at
/// the most.
pub proof fn law_parking_wakes_no_others<F: Future<Context = Context, Output = ()>>(
    before: Mar<F>,
    now: u128,
    tokens: Vec<usize>,
    completed: Vec<BlockingId>,
    after: Mar<F>,
    action: Action,
    i: int,
)
    requires
        Mar::turned(before, Event::Parked { now, tokens, completed }, after, action),
        before.state.queue@.len() <= i < after.state.queue@.len(),
    ensures
        ({
            ||| exists|k: int|
                0 <= k < before.wheel@.len() && (#[trigger] before.wheel@[k]).deadline <= now
                    && before.wheel@[k].waker.spec_id() == after.state.queue@[i]
            ||| tokens@.contains(0) && exists|k: int|
                0 <= k < completed@.len() && before.state.blocking_wakers@.contains_key(
                    (#[trigger] completed@[k]).0,
                ) && before.state.blocking_wakers@[completed@[k].0].spec_id()
                    == after.state.queue@[i]
        }),
        after.state.queue@.len() + after.wheel@.len() <= before.state.queue@.len()
            + before.wheel@.len() + completed@.len(),
        !tokens@.contains(0) ==> after.state.queue@.len() + after.wheel@.len()
            == before.state.queue@.len() + before.wheel@.len(),
        after.wheel.spec_next_id() == before.wheel.spec_next_id(),
{
    let timers = before.wheel@;
    let wakers = before.state.blocking_wakers@;
    let fires = |e: deadline_queue::TimerEntry<TaskWaker>| e.is_due(now);
    let waits = |e: deadline_queue::TimerEntry<TaskWaker>| !e.is_due(now);
    let fired = deadline_queue::due(timers, now);
    let woken = waiting_for(completed@, wakers);
    lemmas::lemma_filter_parts(timers, fires, waits);
    completed@.lemma_filter_len(|id: BlockingId| wakers.contains_key(id.0));
    let start: int = before.state.queue@.len() as int;
    if i < start + fired.len() {
        let entry = fired[i - start];
        timers.lemma_filter_pred(fires, i - start);
        assert(fired.contains(entry));
        timers.lemma_filter_contains_rev(fires, entry);
        let k = choose|k: int| 0 <= k < timers.len() && timers[k] == entry;
        assert(before.wheel@[k].deadline <= now);
    } else {
        let task = after.state.queue@[i];
        assert(woken[i - start - fired.len()] == task);
        assert(woken.contains(task));
        law_completion_wakes_its_task(completed@, wakers, task);
    }
}

} // verus!
