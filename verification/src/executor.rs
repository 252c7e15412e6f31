use std::collections::HashMap;

use vstd::prelude::*;

use crate::blocking;
use crate::deadline_queue;
use crate::deadline_queue::TimerEntry;
use crate::future::{Future, Poll};
use crate::lemmas;
use crate::life;
use crate::life::{HostTurn, TaskHost};
use crate::mar;
use crate::mar::{Action, Drained};
use crate::reactor;
use crate::reactor::{Reactor, WAKEN_TOKEN};
use crate::runtime_state;
use crate::runtime_state::{BlockingId, RuntimeState, TaskId};
use crate::task::Task;
use crate::timer_wheel;
use crate::timer_wheel::{TimerWheel, WheelHandle};
use crate::waker::TaskWaker;

verus! {

/// What a task can reach of its runtime while it is polled.
pub struct Context {
    /// Wakes the task that is polled.
    pub waker: TaskWaker,
    /// What the clock shows, in nanoseconds.
    pub now: u128,
    /// The tasks that asked to be polled.
    pub queue: Vec<TaskId>,
    /// The deadlines that are waited for, and the task that is polled.
    pub handle: WheelHandle,
    /// The events that are waited for.
    pub reactor: Reactor<TaskWaker>,
    /// Whom to wake when a worker is through with something, by the closure that
    /// is waited for.
    pub blocking: HashMap<usize, TaskWaker>,
    /// The id of the next closure.
    pub next_blocking_id: BlockingId,
}

/// A runtime that drives tasks, timers, I/O and closures on workers from one
/// thread.
#[verifier::reject_recursive_types(F)]
pub struct Runtime<F> {
    /// The tasks.
    pub state: RuntimeState<F>,
    /// The deadlines that are waited for, and the task that is polled.
    pub handle: WheelHandle,
    /// The events that are waited for.
    pub reactor: Reactor<TaskWaker>,
}

/// What has happened since the runtime was last run.
pub enum Event {
    /// Nothing: the clock shows `now`.
    Resumed { now: u128 },
    /// The thread was parked and came back at `now`, with events under these
    /// tokens.
    Parked { now: u128, tokens: Vec<usize> },
}

impl<F: Future<Context = Context, Output = ()>> TaskHost for Runtime<F> {
    type Context = Context;

    type Task = F;

    open spec fn tasks(&self) -> RuntimeState<F> {
        self.state
    }

    open spec fn sees(&self, cx: Context, id: TaskId, now: u128, queue: Seq<TaskId>) -> bool {
        &&& cx.waker.spec_id() == id
        &&& cx.now == now
        &&& cx.queue@ == queue
        &&& cx.handle == (WheelHandle { current_id: Some(id.0), ..self.handle })
        &&& cx.reactor == self.reactor
        &&& cx.blocking == self.state.blocking_wakers
        &&& cx.next_blocking_id == self.state.next_blocking_id
    }

    open spec fn took_over(&self, cx: Context) -> bool {
        &&& self.state.queue@ == cx.queue@
        &&& self.handle == (WheelHandle { current_id: None, ..cx.handle })
        &&& self.reactor == cx.reactor
        &&& self.state.blocking_wakers == cx.blocking
        &&& self.state.next_blocking_id == cx.next_blocking_id
    }

    open spec fn kept_rest(&self, before: Self) -> bool {
        &&& self.handle == before.handle
        &&& self.reactor == before.reactor
    }
}

impl<F> Runtime<F> {
    /// Whether nothing is left to do: no task, no deadline, no event and no
    /// closure that someone waits for.
    pub open spec fn finished(&self) -> bool {
        &&& self.state.tasks@.dom() == Set::<usize>::empty()
        &&& self.handle.wheel@.len() == 0
        &&& self.reactor@.dom() == Set::<usize>::empty()
        &&& self.state.blocking_wakers@.dom() == Set::<usize>::empty()
    }
}

/// The ids of tasks given by their numbers.
pub open spec fn task_ids(ids: Seq<usize>) -> Seq<TaskId> {
    ids.map_values(|id: usize| TaskId(id))
}

/// Whether `woken` names the task of every waker in the map once.
pub open spec fn wakes_each(woken: Seq<TaskId>, wakers: Map<usize, TaskWaker>) -> bool {
    exists|keys: Seq<usize>|
        {
            &&& #[trigger] keys.no_duplicates()
            &&& keys.to_set() == wakers.dom()
            &&& woken == keys.map_values(|key: usize| wakers[key].spec_id())
        }
}

/// Whether `woken` names the task of every waker in the map once for each event
/// of the workers among `tokens`.
pub open spec fn wakes_per_event(
    woken: Seq<TaskId>,
    tokens: Seq<usize>,
    wakers: Map<usize, TaskWaker>,
) -> bool
    decreases tokens.len(),
{
    if tokens.len() == 0 {
        woken.len() == 0
    } else if tokens.last() == WAKEN_TOKEN {
        exists|n: int|
            {
                &&& 0 <= n <= woken.len()
                &&& wakes_per_event(#[trigger] woken.take(n), tokens.drop_last(), wakers)
                &&& wakes_each(woken.skip(n), wakers)
            }
    } else {
        wakes_per_event(woken, tokens.drop_last(), wakers)
    }
}

/// Wakes the task of every waker in the map, in the order in which the map
/// happens to be walked.
fn wake_each(wakers: &HashMap<usize, TaskWaker>, queue: &mut Vec<TaskId>) -> (woken: Ghost<
    Seq<TaskId>,
>)
    ensures
        wakes_each(woken@, wakers@),
        final(queue)@ == old(queue)@ + woken@,
{
    let mut keys: Vec<usize> = Vec::new();
    for key in walk: wakers.keys()
        invariant
            keys@ == walk.seq().take(walk.index()).unref(),
    {
        keys.push(*key);
        assert(keys@ == walk.seq().take(walk.index() + 1).unref());
    }
    proof {
        let all = vstd::std_specs::iter::IteratorSpec::remaining(&wakers.keys());
        assert(all.take(all.len() as int) == all);
        assert(keys@ == all.unref());
        assert(keys@.no_duplicates());
        assert(keys@.to_set() == wakers@.dom());
    }
    let mut i: usize = 0;
    while i < keys.len()
        invariant
            i <= keys@.len(),
            keys@.to_set() == wakers@.dom(),
            queue@ == old(queue)@ + keys@.take(i as int).map_values(
                |key: usize| wakers@[key].spec_id(),
            ),
        decreases keys.len() - i,
    {
        assert(keys@.to_set().contains(keys@[i as int]));
        let waker = *wakers.get(&keys[i]).unwrap();
        waker.wake_by_ref(queue);
        assert(keys@.take(i + 1) == keys@.take(i as int).push(keys@[i as int]));
        i = i + 1;
    }
    assert(keys@.take(i as int) == keys@);
    Ghost(keys@.map_values(|key: usize| wakers@[key].spec_id()))
}

/// For each event of the workers among `tokens`, wakes the task of every waker
/// in the map.
pub fn wake_blocking(
    wakers: &HashMap<usize, TaskWaker>,
    tokens: &Vec<usize>,
    queue: &mut Vec<TaskId>,
)
    ensures
        exists|woken: Seq<TaskId>|
            {
                &&& #[trigger] wakes_per_event(woken, tokens@, wakers@)
                &&& final(queue)@ == old(queue)@ + woken
            },
{
    let ghost mut woken: Seq<TaskId> = Seq::empty();
    let mut i: usize = 0;
    while i < tokens.len()
        invariant
            i <= tokens@.len(),
            wakes_per_event(woken, tokens@.take(i as int), wakers@),
            queue@ == old(queue)@ + woken,
        decreases tokens.len() - i,
    {
        assert(tokens@.take(i + 1).drop_last() == tokens@.take(i as int));
        if tokens[i] == WAKEN_TOKEN {
            let Ghost(more) = wake_each(wakers, queue);
            proof {
                let all = woken + more;
                assert(all.take(woken.len() as int) == woken);
                assert(all.skip(woken.len() as int) == more);
                assert(wakes_per_event(all, tokens@.take(i + 1), wakers@));
                woken = all;
            }
        }
        i = i + 1;
    }
    assert(tokens@.take(i as int) == tokens@);
}

impl<F: Future<Context = Context, Output = ()>> Runtime<F> {
    /// The tasks are in order and can all be polled.
    pub open spec fn wf(&self) -> bool {
        &&& self.state.wf()
        &&& forall|key: usize| #[trigger]
            self.state.tasks@.contains_key(key)
                ==> self.state.tasks@[key].spec_future().pollable()
    }

    /// A runtime without tasks.
    pub fn new() -> (runtime: Self)
        ensures
            runtime.wf(),
            runtime.state.queue@.len() == 0,
            runtime.state.tasks@ == Map::<usize, Task<TaskWaker, F>>::empty(),
            runtime.state.next_id == TaskId(0),
            runtime.state.blocking_wakers@ == Map::<usize, TaskWaker>::empty(),
            runtime.state.next_blocking_id == BlockingId(0),
            runtime.handle.wheel@.len() == 0,
            runtime.handle.current_id is None,
            runtime.reactor@ == Map::<usize, TaskWaker>::empty(),
            runtime.reactor.spec_next_token() == WAKEN_TOKEN + 1,
    {
        Runtime {
            state: RuntimeState::new(),
            handle: WheelHandle::install(TimerWheel::new()),
            reactor: Reactor::new(),
        }
    }

    /// Takes a future in as a task and queues it for its first poll.
    pub fn spawn(&mut self, future: F)
        requires
            old(self).wf(),
            old(self).state.next_id.0 < usize::MAX,
            future.pollable(),
        ensures
            final(self).wf(),
            final(self).handle == old(self).handle,
            final(self).reactor == old(self).reactor,
            runtime_state::spawned(
                old(self).state,
                future,
                final(self).state,
                old(self).state.next_id,
            ),
    {
        let _ = self.state.spawn(future);
        assert forall|key: usize| #[trigger] self.state.tasks@.contains_key(
            key,
        ) implies self.state.tasks@[key].spec_future().pollable() by {
            let id = old(self).state.next_id;
            if key != id.0 {
                assert(self.state.tasks@.remove(id.0).contains_key(key));
                assert(self.state.tasks@.remove(id.0)[key] == self.state.tasks@[key]);
            }
        }
    }

    /// Polls the first queued task that has not finished, if there is one. A
    /// task that is pending goes back to the others; one that is ready is
    /// dropped.
    fn drain(&mut self, now: u128) -> (drained: Drained)
        requires
            old(self).wf(),
        ensures
            final(self).wf(),
            life::drains(*old(self), now, *final(self), drained),
    {
        let ghost tasks0 = self.state.tasks@;
        let next = mar::pop_live(&mut self.state);
        match next {
            None => Drained::Empty,
            Some(id) => {
                let mut task = self.state.tasks.remove(&id.0).unwrap();
                let mut cx = Context {
                    waker: *task.waker(),
                    now,
                    queue: Vec::new(),
                    handle: WheelHandle::install(TimerWheel::new()),
                    reactor: Reactor::new(),
                    blocking: HashMap::new(),
                    next_blocking_id: self.state.next_blocking_id,
                };
                std::mem::swap(&mut cx.queue, &mut self.state.queue);
                std::mem::swap(&mut cx.handle, &mut self.handle);
                std::mem::swap(&mut cx.reactor, &mut self.reactor);
                std::mem::swap(&mut cx.blocking, &mut self.state.blocking_wakers);
                cx.handle.set_current_id(id.0);
                let ghost cx0 = cx;
                let outcome = task.poll(&mut cx);
                let ghost cx1 = cx;
                let ghost future1 = task.spec_future();
                self.state.queue = cx.queue;
                self.handle = cx.handle;
                self.reactor = cx.reactor;
                self.state.blocking_wakers = cx.blocking;
                self.state.next_blocking_id = cx.next_blocking_id;
                let ready = outcome.is_ready();
                if !ready {
                    self.state.tasks.insert(id.0, task);
                }
                self.handle.clear_current_id();
                proof {
                    assert(self.state.tasks@.remove(id.0) == tasks0.remove(id.0));
                    let rest = cx0.queue@;
                    assert(life::polls_task(
                        *old(self),
                        now,
                        *self,
                        id,
                        rest,
                        cx0,
                        future1,
                        cx1,
                        outcome,
                    ));
                }
                Drained::Polled(id)
            },
        }
    }

    /// Whether nothing is left to do.
    fn is_done(&self) -> (done: bool)
        ensures
            done == self.finished(),
    {
        proof {
            lemmas::lemma_empty_map(self.state.tasks@);
            lemmas::lemma_empty_map(self.state.blocking_wakers@);
        }
        self.state.tasks.is_empty() && self.handle.wheel.is_empty() && self.reactor.is_empty()
            && self.state.blocking_wakers.is_empty()
    }

    /// Whether what has happened can take a runtime from `before` to `after` in a turn,
    /// and this be what is wanted next, or the token of an event that nobody waits for.
    pub open spec fn turned(
        before: Self,
        event: Event,
        after: Self,
        result: Result<Action, usize>,
    ) -> bool {
        match event {
            Event::Resumed { now } => {
                &&& result matches Ok(action)
                &&& action is Resume ==> exists|id: TaskId|
                    #[trigger] life::drains(before, now, after, Drained::Polled(id))
                &&& action !is Resume ==> life::drains(
                    before,
                    now,
                    after,
                    Drained::Empty,
                )
                &&& action !is Resume ==> after.state.queue@.len() == 0
                &&& action is Done ==> after.finished()
                &&& action matches Action::Park(timeout) ==> {
                    &&& !after.finished()
                    &&& timeout == deadline_queue::park_timeout(after.handle.wheel@, now)
                    &&& deadline_queue::in_order(after.handle.wheel@)
                }
            },
            Event::Parked { now, tokens } => {
                let wakers = before.reactor@;
                let timers = before.handle.wheel@;
                &&& deadline_queue::in_order(timers)
                &&& after.handle.wheel@ == deadline_queue::not_due(timers, now)
                &&& after.handle.current_id == before.handle.current_id
                &&& after.reactor == before.reactor
                &&& after.state == (RuntimeState {
                    queue: after.state.queue,
                    ..before.state
                })
                &&& exists|woken: Seq<TaskId>, n: int|
                    {
                        &&& #[trigger] wakes_per_event(
                            woken,
                            tokens@,
                            before.state.blocking_wakers@,
                        )
                        &&& 0 <= n <= tokens@.len()
                        &&& forall|i: int|
                            0 <= i < n ==> !reactor::unmatched(wakers, #[trigger] tokens@[i])
                        &&& after.state.queue@ == before.state.queue@ + task_ids(
                            timer_wheel::tasks_of(deadline_queue::due(timers, now)),
                        ) + woken + reactor::waiting_for(#[trigger] tokens@.take(n), wakers)
                        &&& match result {
                            Ok(action) => action is Resume && n == tokens@.len(),
                            Err(token) => {
                                &&& n < tokens@.len()
                                &&& tokens@[n] == token
                                &&& reactor::unmatched(wakers, token)
                            },
                        }
                    }
            },
        }
    }

    /// Takes one turn in the life of a runtime and says what is wanted next.
    ///
    /// A runtime that is resumed polls one queued task. When none is queued it
    /// is done if nothing is left, and wants to park otherwise. A runtime that
    /// comes back from parking queues the tasks whose deadlines have passed,
    /// then, if the workers are through with something, all that wait for a
    /// worker, and then those that wait for the other events. An event that
    /// nobody waits for is an error, reported by its token.
    pub fn run(&mut self, event: Event) -> (result: Result<Action, usize>)
        requires
            old(self).wf(),
        ensures
            final(self).wf(),
            Self::turned(*old(self), event, *final(self), result),
    {
        match event {
            Event::Resumed { now } => {
                match self.drain(now) {
                    Drained::Polled(_) => Ok(Action::Resume),
                    Drained::Empty => {
                        if self.is_done() {
                            return Ok(Action::Done);
                        }
                        let timeout = match timer_wheel::next_deadline(&self.handle.wheel) {
                            Some(deadline) => Some(
                                if deadline > now {
                                    deadline - now
                                } else {
                                    0
                                },
                            ),
                            None => None,
                        };
                        Ok(Action::Park(timeout))
                    },
                }
            },
            Event::Parked { now, tokens } => {
                let due = timer_wheel::expire_due(&mut self.handle.wheel, now);
                let mut i: usize = 0;
                let ghost queue0 = self.state.queue@;
                assert(queue0 + task_ids(due@.take(0)) == queue0);
                while i < due.len()
                    invariant
                        i <= due@.len(),
                        queue0 == old(self).state.queue@,
                        self.state == (RuntimeState { queue: self.state.queue, ..old(self).state }),
                        self.state.queue@ == queue0 + task_ids(due@.take(i as int)),
                        self.handle.wheel@ == deadline_queue::not_due(old(self).handle.wheel@, now),
                        self.handle.current_id == old(self).handle.current_id,
                        self.reactor == old(self).reactor,
                    decreases due.len() - i,
                {
                    self.state.queue.push(TaskId(due[i]));
                    assert(task_ids(due@.take(i + 1)) == task_ids(due@.take(i as int)).push(
                        TaskId(due@[i as int]),
                    ));
                    i = i + 1;
                }
                assert(due@.take(i as int) == due@);
                wake_blocking(&self.state.blocking_wakers, &tokens, &mut self.state.queue);
                let ghost queue1 = self.state.queue@;
                let dispatched = reactor::dispatch(&self.reactor, &tokens, &mut self.state.queue);
                proof {
                    let woken = choose|woken: Seq<TaskId>|
                        {
                            &&& #[trigger] wakes_per_event(
                                woken,
                                tokens@,
                                old(self).state.blocking_wakers@,
                            )
                            &&& queue1 == queue0 + task_ids(due@) + woken
                        };
                    assert(tokens@.take(tokens@.len() as int) == tokens@);
                    assert(wakes_per_event(woken, tokens@, old(self).state.blocking_wakers@));
                }
                match dispatched {
                    Ok(_) => Ok(Action::Resume),
                    Err(token) => Err(token),
                }
            },
        }
    }
}

impl<F: Future<Context = Context, Output = ()>> Default for Runtime<F> {
    /// A runtime without tasks.
    fn default() -> (runtime: Self)
        ensures
            runtime.wf(),
            runtime.finished(),
            runtime.state.queue@.len() == 0,
            runtime.state.next_id == TaskId(0),
            runtime.state.next_blocking_id == BlockingId(0),
            runtime.handle.current_id is None,
            runtime.reactor.spec_next_token() == WAKEN_TOKEN + 1,
    {
        Self::new()
    }
}

/// An event of the workers wakes every task that waits for a worker, and no other
/// task.
pub proof fn law_worker_event_wakes_all(
    woken: Seq<TaskId>,
    wakers: Map<usize, TaskWaker>,
    task: TaskId,
)
    requires
        wakes_each(woken, wakers),
    ensures
        woken.contains(task) <==> exists|key: usize| #[trigger]
            wakers.contains_key(key) && wakers[key].spec_id() == task,
{
    let keys = choose|keys: Seq<usize>|
        {
            &&& #[trigger] keys.no_duplicates()
            &&& keys.to_set() == wakers.dom()
            &&& woken == keys.map_values(|key: usize| wakers[key].spec_id())
        };
    if woken.contains(task) {
        let i = choose|i: int| 0 <= i < woken.len() && woken[i] == task;
        assert(keys.to_set().contains(keys[i]));
        assert(wakers.contains_key(keys[i]) && wakers[keys[i]].spec_id() == task);
    }
    if exists|key: usize| #[trigger] wakers.contains_key(key) && wakers[key].spec_id() == task {
        let key = choose|key: usize| #[trigger]
            wakers.contains_key(key) && wakers[key].spec_id() == task;
        assert(keys.to_set().contains(key));
        let i = choose|i: int| 0 <= i < keys.len() && keys[i] == key;
        assert(woken[i] == task);
    }
}

/// The ids of closures never go back: as long as no poll lowers the next id in its
/// context, it is at any time in a run no lower than at any time before.
pub proof fn law_closure_ids_never_go_back<F: Future<Context = Context, Output = ()>>(
    hosts: Seq<Runtime<F>>,
    turns: Seq<HostTurn<F>>,
    i: int,
    j: int,
)
    requires
        life::is_host_run(hosts, turns),
        forall|task: F, cx: Context, future: F, cx_after: Context, outcome: Poll<()>| #[trigger]
            F::polls(task, cx, future, cx_after, outcome) ==> cx.next_blocking_id.0
                <= cx_after.next_blocking_id.0,
        0 <= i <= j <= turns.len(),
    ensures
        hosts[i].state.next_blocking_id.0 <= hosts[j].state.next_blocking_id.0,
{
    assert forall|k: int| 0 <= k < hosts.len() - 1 implies (
    #[trigger] hosts[k]).tasks().next_blocking_id.0 <= hosts[k
        + 1].tasks().next_blocking_id.0 by {
        assert(life::takes_turn(hosts[k], turns[k], hosts[k + 1]));
    }
    life::lemma_closure_ids_grow(hosts, i, j);
}

/// No two closures of a run have one id: a closure that is spawned in a poll has another
/// id than every closure that is spawned in a later poll, of whichever task, as long as
/// no poll lowers the next id in its context.
pub proof fn law_closures_of_a_run_differ<F: Future<Context = Context, Output = ()>, I, K>(
    hosts: Seq<Runtime<F>>,
    turns: Seq<HostTurn<F>>,
    i: int,
    j: int,
    first: (TaskId, Context, F, Context, Poll<()>),
    later: (TaskId, Context, F, Context, Poll<()>),
    one: (Context, I, Context, blocking::BlockingTask<I>),
    other: (Context, K, Context, blocking::BlockingTask<K>),
)
    requires
        life::is_host_run(hosts, turns),
        forall|task: F, cx: Context, future: F, cx_after: Context, outcome: Poll<()>| #[trigger]
            F::polls(task, cx, future, cx_after, outcome) ==> cx.next_blocking_id.0
                <= cx_after.next_blocking_id.0,
        0 <= i < j < turns.len(),
        polled_in(hosts, i, first),
        polled_in(hosts, j, later),
        blocking::spawns(one.0, one.1, one.2, one.3),
        first.1.next_blocking_id.0 <= one.0.next_blocking_id.0,
        one.2.next_blocking_id.0 <= first.3.next_blocking_id.0,
        blocking::spawns(other.0, other.1, other.2, other.3),
        later.1.next_blocking_id.0 <= other.0.next_blocking_id.0,
    ensures
        one.3.inner.spec_id() < other.3.inner.spec_id(),
{
    law_closure_ids_never_go_back(hosts, turns, i + 1, j);
}

/// Whether the turn `i` polls a task: the one with this id, in this context, which leaves
/// this future and this context behind and comes to this.
pub open spec fn polled_in<F: Future<Context = Context, Output = ()>>(
    hosts: Seq<Runtime<F>>,
    i: int,
    poll: (TaskId, Context, F, Context, Poll<()>),
) -> bool {
    exists|now: u128, rest: Seq<TaskId>| #[trigger]
        life::polls_task(
            hosts[i],
            now,
            hosts[i + 1],
            poll.0,
            rest,
            poll.1,
            poll.2,
            poll.3,
            poll.4,
        )
}

/// A task finds what the task before it has left. Of two polls, one after the other, the
/// second sees everything in the runtime as the first left it, with its own waker and the
/// time; nothing that a task has put there is lost on the way.
pub proof fn law_task_finds_what_the_last_left<F: Future<Context = Context, Output = ()>>(
    first: Runtime<F>,
    second: Runtime<F>,
    third: Runtime<F>,
    now: u128,
    id: TaskId,
    rest: Seq<TaskId>,
    poll: (Context, F, Context, Poll<()>),
    next_now: u128,
    next_id: TaskId,
    next_rest: Seq<TaskId>,
    next: (Context, F, Context, Poll<()>),
)
    requires
        life::polls_task(first, now, second, id, rest, poll.0, poll.1, poll.2, poll.3),
        life::polls_task(
            second,
            next_now,
            third,
            next_id,
            next_rest,
            next.0,
            next.1,
            next.2,
            next.3,
        ),
    ensures
        second.state.queue@ == poll.2.queue@,
        next.0.queue@ == next_rest,
        next.0.now == next_now,
        next.0.waker.spec_id() == next_id,
        next.0.handle.wheel@ == poll.2.handle.wheel@,
        next.0.handle.current_id == Some(next_id.0),
        next.0.reactor@ == poll.2.reactor@,
        next.0.reactor.spec_next_token() == poll.2.reactor.spec_next_token(),
        next.0.blocking@ == poll.2.blocking@,
        next.0.next_blocking_id == poll.2.next_blocking_id,
        F::polls(
            second.state.tasks@[next_id.0].spec_future(),
            next.0,
            next.1,
            next.2,
            next.3,
        ),
        next.3 is Pending <==> third.state.tasks@.contains_key(next_id.0),
        next.3 is Pending ==> third.state.tasks@[next_id.0].spec_future() == next.1,
{
}

/// What a runtime wants next. It is done only with no task, no deadline, no event and
/// nobody waiting for a closure, and parks only with one of these left and no task to be
/// polled; it parks without a timeout only if there is no deadline, and with one only
/// until the earliest of all deadlines, which is not at all if that has passed.
pub proof fn law_action_goes_by_what_is_left<F: Future<Context = Context, Output = ()>>(
    before: Runtime<F>,
    now: u128,
    after: Runtime<F>,
    result: Result<Action, usize>,
)
    requires
        Runtime::turned(before, Event::Resumed { now }, after, result),
    ensures
        result is Ok,
        result->Ok_0 is Done ==> {
            &&& after.state.tasks@.dom() == Set::<usize>::empty()
            &&& after.handle.wheel@.len() == 0
            &&& after.reactor@.dom() == Set::<usize>::empty()
            &&& after.state.blocking_wakers@.dom() == Set::<usize>::empty()
        },
        result->Ok_0 is Park ==> {
            ||| after.state.tasks@.dom() != Set::<usize>::empty()
            ||| after.handle.wheel@.len() > 0
            ||| after.reactor@.dom() != Set::<usize>::empty()
            ||| after.state.blocking_wakers@.dom() != Set::<usize>::empty()
        },
        !(result->Ok_0 is Resume) ==> {
            &&& after.state.queue@.len() == 0
            &&& after.state.tasks@ == before.state.tasks@
            &&& after.state.next_id == before.state.next_id
            &&& after.state.blocking_wakers@ == before.state.blocking_wakers@
            &&& after.state.next_blocking_id == before.state.next_blocking_id
            &&& after.handle.wheel@ == before.handle.wheel@
            &&& after.reactor@ == before.reactor@
            &&& forall|i: int|
                0 <= i < before.state.queue@.len() ==> !before.state.tasks@.contains_key(
                    (#[trigger] before.state.queue@[i]).0,
                )
        },
        result->Ok_0 == Action::Park(None) ==> after.handle.wheel@.len() == 0,
        result->Ok_0 matches Action::Park(Some(timeout)) ==> {
            &&& forall|i: int|
                0 <= i < after.handle.wheel@.len() ==> timeout == 0 || now + timeout <= (
                #[trigger] after.handle.wheel@[i]).deadline
            &&& exists|i: int|
                0 <= i < after.handle.wheel@.len() && (#[trigger] after.handle.wheel@[i]).deadline
                    <= now + timeout
        },
{
    mar::lemma_stale_prefix(before.state.queue@, before.state.tasks@);
    if result->Ok_0 is Park {
        deadline_queue::law_park_until_earliest_deadline(after.handle.wheel@, now);
    }
}

/// What coming back from parking does: the deadlines that have passed are gone, and only
/// they; their tasks are queued behind what was queued, and so are, for an event of the
/// workers, all that wait for a closure, and for every other event that comes before one
/// that nobody waits for, whoever waits for it. No task and nobody who waits is lost.
pub proof fn law_parking_wakes_who_is_due<F: Future<Context = Context, Output = ()>>(
    before: Runtime<F>,
    now: u128,
    tokens: Vec<usize>,
    after: Runtime<F>,
    result: Result<Action, usize>,
    timer: TimerEntry<()>,
    closure: usize,
    k: int,
)
    requires
        Runtime::turned(before, Event::Parked { now, tokens }, after, result),
    ensures
        after.state.tasks@ == before.state.tasks@,
        after.state.next_id == before.state.next_id,
        after.state.next_blocking_id == before.state.next_blocking_id,
        after.state.blocking_wakers@ == before.state.blocking_wakers@,
        after.reactor@ == before.reactor@,
        before.state.queue@.is_prefix_of(after.state.queue@),
        after.handle.wheel@.contains(timer) <==> before.handle.wheel@.contains(timer)
            && timer.deadline > now,
        before.handle.wheel@.contains(timer) && timer.deadline <= now
            ==> after.state.queue@.contains(TaskId(timer.id)),
        tokens@.contains(0) && before.state.blocking_wakers@.contains_key(closure)
            ==> after.state.queue@.contains(before.state.blocking_wakers@[closure].spec_id()),
        result is Ok <==> (forall|i: int|
            0 <= i < tokens@.len() ==> #[trigger] tokens@[i] == 0 || before.reactor@.contains_key(
                tokens@[i],
            )),
        result is Ok && 0 <= k < tokens@.len() && tokens@[k] != 0 ==> after.state.queue@.contains(
            before.reactor@[tokens@[k]].spec_id(),
        ),
        result matches Err(token) ==> token != 0 && !before.reactor@.contains_key(token)
            && tokens@.contains(token),
        result matches Ok(action) ==> action is Resume,
{
    let queue = before.state.queue@;
    let timers = before.handle.wheel@;
    let wakers = before.reactor@;
    let due = task_ids(timer_wheel::tasks_of(deadline_queue::due(timers, now)));
    let (woken, n) = choose|woken: Seq<TaskId>, n: int|
        {
            &&& #[trigger] wakes_per_event(woken, tokens@, before.state.blocking_wakers@)
            &&& 0 <= n <= tokens@.len()
            &&& forall|i: int| 0 <= i < n ==> !reactor::unmatched(wakers, #[trigger] tokens@[i])
            &&& after.state.queue@ == queue + due + woken + reactor::waiting_for(
                #[trigger] tokens@.take(n),
                wakers,
            )
            &&& match result {
                Ok(action) => action is Resume && n == tokens@.len(),
                Err(token) => {
                    &&& n < tokens@.len()
                    &&& tokens@[n] == token
                    &&& reactor::unmatched(wakers, token)
                },
            }
        };
    let events = reactor::waiting_for(tokens@.take(n), wakers);
    let waits = |e: TimerEntry<()>| !e.is_due(now);
    let fires = |e: TimerEntry<()>| e.is_due(now);
    if timers.contains(timer) {
        let i = choose|i: int| 0 <= i < timers.len() && timers[i] == timer;
        if timer.deadline <= now {
            timers.lemma_filter_contains(fires, i);
            let fired = deadline_queue::due(timers, now);
            let j = choose|j: int| 0 <= j < fired.len() && fired[j] == timer;
            assert(due[j] == TaskId(timer.id));
            assert(after.state.queue@[queue.len() + j] == TaskId(timer.id));
        } else {
            timers.lemma_filter_contains(waits, i);
        }
    }
    if after.handle.wheel@.contains(timer) {
        timers.lemma_filter_contains_rev(waits, timer);
        let left = after.handle.wheel@;
        let i = choose|i: int| 0 <= i < left.len() && left[i] == timer;
        timers.lemma_filter_pred(waits, i);
    }
    if tokens@.contains(0) && before.state.blocking_wakers@.contains_key(closure) {
        let task = before.state.blocking_wakers@[closure].spec_id();
        lemma_event_wakes(woken, tokens@, before.state.blocking_wakers@, closure);
        let j = choose|j: int| 0 <= j < woken.len() && woken[j] == task;
        assert(after.state.queue@[queue.len() + due.len() + j] == task);
    }
    if result is Ok && 0 <= k < tokens@.len() && tokens@[k] != 0 {
        assert(tokens@.take(n) == tokens@);
        let task = wakers[tokens@[k]].spec_id();
        reactor::law_event_wakes_its_task(tokens@, wakers, k);
        let j = choose|j: int| 0 <= j < events.len() && events[j] == task;
        assert(after.state.queue@[queue.len() + due.len() + woken.len() + j] == task);
    }
}

/// Among whom the events of the workers wake is everybody who waits for a closure.
proof fn lemma_event_wakes(
    woken: Seq<TaskId>,
    tokens: Seq<usize>,
    wakers: Map<usize, TaskWaker>,
    closure: usize,
)
    requires
        wakes_per_event(woken, tokens, wakers),
        tokens.contains(WAKEN_TOKEN),
        wakers.contains_key(closure),
    ensures
        woken.contains(wakers[closure].spec_id()),
    decreases tokens.len(),
{
    let task = wakers[closure].spec_id();
    if tokens.last() == WAKEN_TOKEN {
        let n = choose|n: int|
            {
                &&& 0 <= n <= woken.len()
                &&& wakes_per_event(#[trigger] woken.take(n), tokens.drop_last(), wakers)
                &&& wakes_each(woken.skip(n), wakers)
            };
        law_worker_event_wakes_all(woken.skip(n), wakers, task);
        let more = woken.skip(n);
        let j = choose|j: int| 0 <= j < more.len() && more[j] == task;
        assert(woken[n + j] == task);
    } else {
        let i = choose|i: int| 0 <= i < tokens.len() && tokens[i] == WAKEN_TOKEN;
        assert(tokens.drop_last()[i] == WAKEN_TOKEN);
        lemma_event_wakes(woken, tokens.drop_last(), wakers, closure);
    }
}

/// Everything that a runtime does when it is run is a turn in the life of its tasks.
pub proof fn law_run_takes_a_turn<F: Future<Context = Context, Output = ()>>(
    before: Runtime<F>,
    event: Event,
    after: Runtime<F>,
    result: Result<Action, usize>,
)
    requires
        Runtime::turned(before, event, after, result),
    ensures
        exists|turn: HostTurn<F>| #[trigger] life::takes_turn(before, turn, after),
{
    match event {
        Event::Resumed { now } => {
            if result->Ok_0 is Resume {
                let id = choose|id: TaskId|
                    #[trigger] life::drains(before, now, after, Drained::Polled(id));
                let turn = HostTurn::<F>::Resume { now, drained: Drained::Polled(id) };
                assert(life::takes_turn(before, turn, after));
            } else {
                let turn = HostTurn::<F>::Resume { now, drained: Drained::Empty };
                assert(life::takes_turn(before, turn, after));
            }
        },
        Event::Parked { .. } => {
            assert(life::takes_turn(before, HostTurn::<F>::Park, after));
        },
    }
}

/// Whom the events of the workers wake waits for a closure, and nobody is woken without
/// such an event.
proof fn lemma_event_wakes_no_others(
    woken: Seq<TaskId>,
    tokens: Seq<usize>,
    wakers: Map<usize, TaskWaker>,
    j: int,
)
    requires
        wakes_per_event(woken, tokens, wakers),
        0 <= j < woken.len(),
    ensures
        tokens.contains(WAKEN_TOKEN),
        exists|closure: usize|
            #[trigger] wakers.contains_key(closure) && wakers[closure].spec_id() == woken[j],
    decreases tokens.len(),
{
    let fewer = tokens.drop_last();
    if tokens.last() == WAKEN_TOKEN {
        assert(tokens[tokens.len() - 1] == WAKEN_TOKEN);
        let n = choose|n: int|
            {
                &&& 0 <= n <= woken.len()
                &&& wakes_per_event(#[trigger] woken.take(n), fewer, wakers)
                &&& wakes_each(woken.skip(n), wakers)
            };
        if j < n {
            lemma_event_wakes_no_others(woken.take(n), fewer, wakers, j);
        } else {
            assert(woken.skip(n)[j - n] == woken[j]);
            assert(woken.skip(n).contains(woken[j]));
            law_worker_event_wakes_all(woken.skip(n), wakers, woken[j]);
        }
    } else {
        lemma_event_wakes_no_others(woken, fewer, wakers, j);
        let i = choose|i: int| 0 <= i < fewer.len() && fewer[i] == WAKEN_TOKEN;
        assert(tokens[i] == WAKEN_TOKEN);
    }
}

/// Coming back from parking wakes nobody else: whoever is queued behind what was queued
/// has a deadline that has passed, or waits for a closure while the workers have
/// announced something, or waits for one of the other events. Without events every
/// deadline that is gone queues its task once.
pub proof fn law_parking_wakes_no_others<F: Future<Context = Context, Output = ()>>(
    before: Runtime<F>,
    now: u128,
    tokens: Vec<usize>,
    after: Runtime<F>,
    result: Result<Action, usize>,
    i: int,
)
    requires
        Runtime::turned(before, Event::Parked { now, tokens }, after, result),
        before.state.queue@.len() <= i < after.state.queue@.len(),
    ensures
        ({
            ||| exists|k: int|
                0 <= k < before.handle.wheel@.len() && (#[trigger] before.handle.wheel@[k]).deadline
                    <= now && TaskId(before.handle.wheel@[k].id) == after.state.queue@[i]
            ||| tokens@.contains(0) && exists|closure: usize|
                #[trigger] before.state.blocking_wakers@.contains_key(closure)
                    && before.state.blocking_wakers@[closure].spec_id() == after.state.queue@[i]
            ||| exists|k: int|
                0 <= k < tokens@.len() && #[trigger] tokens@[k] != 0
                    && before.reactor@[tokens@[k]].spec_id() == after.state.queue@[i]
        }),
        tokens@.len() == 0 ==> after.state.queue@.len() + after.handle.wheel@.len()
            == before.state.queue@.len() + before.handle.wheel@.len(),
        after.handle.current_id == before.handle.current_id,
{
    let queue = before.state.queue@;
    let timers = before.handle.wheel@;
    let wakers = before.reactor@;
    let fired = deadline_queue::due(timers, now);
    let due = task_ids(timer_wheel::tasks_of(fired));
    let (woken, n) = choose|woken: Seq<TaskId>, n: int|
        {
            &&& #[trigger] wakes_per_event(woken, tokens@, before.state.blocking_wakers@)
            &&& 0 <= n <= tokens@.len()
            &&& forall|i: int| 0 <= i < n ==> !reactor::unmatched(wakers, #[trigger] tokens@[i])
            &&& after.state.queue@ == queue + due + woken + reactor::waiting_for(
                #[trigger] tokens@.take(n),
                wakers,
            )
            &&& match result {
                Ok(action) => action is Resume && n == tokens@.len(),
                Err(token) => {
                    &&& n < tokens@.len()
                    &&& tokens@[n] == token
                    &&& reactor::unmatched(wakers, token)
                },
            }
        };
    let events = reactor::waiting_for(tokens@.take(n), wakers);
    let waits = |e: TimerEntry<()>| !e.is_due(now);
    let fires = |e: TimerEntry<()>| e.is_due(now);
    let theirs = |token: usize| token != WAKEN_TOKEN;
    lemmas::lemma_filter_parts(timers, fires, waits);
    tokens@.take(n).lemma_filter_len(theirs);
    let start: int = queue.len() as int;
    let task = after.state.queue@[i];
    if i < start + due.len() {
        let entry = fired[i - start];
        timers.lemma_filter_pred(fires, i - start);
        assert(fired.contains(entry));
        timers.lemma_filter_contains_rev(fires, entry);
        let k = choose|k: int| 0 <= k < timers.len() && timers[k] == entry;
        assert(before.handle.wheel@[k].deadline <= now);
    } else if i < start + due.len() + woken.len() {
        let j = i - start - due.len();
        assert(woken[j] == task);
        lemma_event_wakes_no_others(woken, tokens@, before.state.blocking_wakers@, j);
    } else {
        let j = i - start - due.len() - woken.len();
        assert(events[j] == task);
        let kept = tokens@.take(n).filter(theirs);
        tokens@.take(n).lemma_filter_pred(theirs, j);
        assert(kept.contains(kept[j]));
        tokens@.take(n).lemma_filter_contains_rev(theirs, kept[j]);
        let k = choose|k: int| 0 <= k < n && tokens@.take(n)[k] == kept[j];
        assert(tokens@[k] == kept[j]);
    }
    if tokens@.len() == 0 {
        if woken.len() > 0 {
            lemma_event_wakes_no_others(woken, tokens@, before.state.blocking_wakers@, 0);
        }
    }
}

} // verus!
