use std::collections::HashMap;

use vstd::prelude::*;

use crate::context::Context;
use crate::future::{Future, Poll};
use crate::runtime_state::BlockingId;
use crate::task::worker_pool::WorkerPool;
use crate::waker::TaskWaker;

verus! {

/// What was found in an inbox.
pub enum Received<R, P> {
    /// The closure has returned this.
    Value(R),
    /// The closure has panicked, with this payload.
    Panicked(P),
    /// The closure is not through.
    Empty,
    /// The worker is gone and has sent nothing.
    Disconnected,
}

/// How a closure on a worker has ended.
#[derive(PartialEq, Eq, Debug)]
pub enum Outcome<R, P> {
    /// It has returned this.
    Value(R),
    /// It has panicked, with this payload, which is to be thrown again by
    /// whoever waits.
    Panicked(P),
    /// The worker was gone before the closure was through.
    Disconnected,
}

/// Where a worker leaves word of how a closure ended, for the task that waits.
///
/// What taking the word does is the implementor's own affair: `takes` relates the
/// inbox before and after to what was found.
pub trait Inbox: Sized {
    /// What the closure returns.
    type Value;

    /// What it throws when it panics.
    type Payload;

    /// Whether looking into `before` can leave `after` behind and find `received`;
    /// it always can, if nothing else is said.
    open spec fn takes(
        before: Self,
        after: Self,
        received: Received<Self::Value, Self::Payload>,
    ) -> bool {
        true
    }

    /// Looks into the inbox, and takes the word out if it is there.
    fn take(&mut self) -> (received: Received<Self::Value, Self::Payload>)
        ensures
            Self::takes(*old(self), *final(self), received),
    ;
}

/// An inbox for the word of one closure.
pub enum ResultSlot<R, P> {
    /// The closure is not through.
    Waiting,
    /// The closure has ended so.
    Told(Result<R, P>),
    /// There will be no word any more: it has been taken, or the worker is gone.
    Closed,
}

impl<R, P> ResultSlot<R, P> {
    /// An inbox without word.
    pub fn new() -> (slot: Self)
        ensures
            slot is Waiting,
    {
        ResultSlot::Waiting
    }

    /// Leaves word of how the closure ended.
    pub fn complete(&mut self, result: Result<R, P>)
        requires
            *old(self) is Waiting,
        ensures
            *final(self) == ResultSlot::Told(result),
    {
        *self = ResultSlot::Told(result);
    }

    /// Notes that the worker is gone. Word that it has left stays.
    pub fn close(&mut self)
        ensures
            *final(self) == if *old(self) is Waiting {
                ResultSlot::Closed
            } else {
                *old(self)
            },
    {
        if let ResultSlot::Waiting = self {
            *self = ResultSlot::Closed;
        }
    }
}

impl<R, P> Inbox for ResultSlot<R, P> {
    type Value = R;

    type Payload = P;

    open spec fn takes(before: Self, after: Self, received: Received<R, P>) -> bool {
        match before {
            ResultSlot::Waiting => received is Empty && after is Waiting,
            ResultSlot::Told(Ok(value)) => received == Received::<R, P>::Value(value)
                && after is Closed,
            ResultSlot::Told(Err(payload)) => received == Received::<R, P>::Panicked(payload)
                && after is Closed,
            ResultSlot::Closed => received is Disconnected && after is Closed,
        }
    }

    fn take(&mut self) -> (received: Received<R, P>) {
        let mut found = ResultSlot::Closed;
        std::mem::swap(self, &mut found);
        match found {
            ResultSlot::Waiting => {
                *self = ResultSlot::Waiting;
                Received::Empty
            },
            ResultSlot::Told(Ok(value)) => Received::Value(value),
            ResultSlot::Told(Err(payload)) => Received::Panicked(payload),
            ResultSlot::Closed => Received::Disconnected,
        }
    }
}

/// A future that is ready when a closure on a worker is through.
///
/// While the closure is not through, the waker of the task that polled last
/// stands in the map of those who wait, under the closure's id.
pub struct BlockingTask<I> {
    id: usize,
    inbox: I,
    done: bool,
}

/// What must have been found in the inbox for a poll to come to `outcome`.
pub open spec fn found<R, P>(outcome: Poll<Outcome<R, P>>) -> Received<R, P> {
    match outcome {
        Poll::Pending => Received::Empty,
        Poll::Ready(Outcome::Value(value)) => Received::Value(value),
        Poll::Ready(Outcome::Panicked(payload)) => Received::Panicked(payload),
        Poll::Ready(Outcome::Disconnected) => Received::Disconnected,
    }
}

/// Whether a poll by which `received` was found comes to `outcome`, leaves the task
/// done or not, and turns `wakers`, where the waker of the poll stands under `id`,
/// into `wakers_after`: a task that has learnt how the closure ended is taken out.
pub open spec fn concludes<R, P>(
    wakers: Map<usize, TaskWaker>,
    id: usize,
    received: Received<R, P>,
    wakers_after: Map<usize, TaskWaker>,
    done: bool,
    outcome: Poll<Outcome<R, P>>,
) -> bool {
    match received {
        Received::Value(value) => {
            &&& outcome == Poll::Ready(Outcome::<R, P>::Value(value))
            &&& done
            &&& wakers_after == wakers.remove(id)
        },
        Received::Panicked(payload) => {
            &&& outcome == Poll::Ready(Outcome::<R, P>::Panicked(payload))
            &&& done
            &&& wakers_after == wakers.remove(id)
        },
        Received::Empty => {
            &&& outcome is Pending
            &&& !done
            &&& wakers_after == wakers
        },
        Received::Disconnected => {
            &&& outcome == Poll::Ready(Outcome::<R, P>::Disconnected)
            &&& !done
            &&& wakers_after == wakers
        },
    }
}

impl<I> BlockingTask<I> {
    /// The inbox that the task looks into.
    pub closed spec fn spec_inbox(&self) -> I {
        self.inbox
    }

    /// The number that the task waits under.
    pub closed spec fn spec_id(&self) -> usize {
        self.id
    }

    /// Whether the task has learnt how the closure ended.
    pub closed spec fn spec_done(&self) -> bool {
        self.done
    }

    /// The number that the task waits under.
    pub fn id(&self) -> (id: usize)
        ensures
            id == self.spec_id(),
    {
        self.id
    }

    /// A task that waits under the number `id` for word in `inbox`.
    pub(crate) fn new(id: usize, inbox: I) -> (task: Self)
        ensures
            task.spec_id() == id,
            task.spec_inbox() == inbox,
            !task.spec_done(),
    {
        BlockingTask { id, inbox, done: false }
    }

    /// Who still waits of `wakers` when the task gives up waiting.
    pub open spec fn gives_up(&self, wakers: Map<usize, TaskWaker>) -> Map<usize, TaskWaker> {
        if self.spec_done() {
            wakers
        } else {
            wakers.remove(self.spec_id())
        }
    }

    /// Gives up waiting: unless the closure is through, nobody waits under the
    /// task's number any more.
    pub fn cancel(self, wakers: &mut HashMap<usize, TaskWaker>)
        ensures
            final(wakers)@ == self.gives_up(old(wakers)@),
    {
        if !self.done {
            wakers.remove(&self.id);
        }
    }
}

impl<I: Inbox> BlockingTask<I> {
    /// Whether a poll by which `received` was found can turn `before` and
    /// `wakers_before` into `after` and `wakers_after` and come to `outcome`.
    pub open spec fn settles(
        before: Self,
        wakers_before: Map<usize, TaskWaker>,
        waker: TaskWaker,
        received: Received<I::Value, I::Payload>,
        after: Self,
        wakers_after: Map<usize, TaskWaker>,
        outcome: Poll<Outcome<I::Value, I::Payload>>,
    ) -> bool {
        &&& after.spec_id() == before.spec_id()
        &&& concludes(
            wakers_before.insert(before.spec_id(), waker),
            before.spec_id(),
            received,
            wakers_after,
            after.spec_done(),
            outcome,
        )
    }

    /// Goes by what was found in the inbox: leaves `waker` with those who
    /// wait, and takes it out again if the closure is through.
    pub fn settle(
        &mut self,
        wakers: &mut HashMap<usize, TaskWaker>,
        waker: TaskWaker,
        received: Received<I::Value, I::Payload>,
    ) -> (outcome: Poll<Outcome<I::Value, I::Payload>>)
        requires
            !old(self).spec_done(),
        ensures
            Self::settles(
                *old(self),
                old(wakers)@,
                waker,
                received,
                *final(self),
                final(wakers)@,
                outcome,
            ),
            final(self).spec_inbox() == old(self).spec_inbox(),
    {
        wakers.insert(self.id, waker);
        self.go_by(wakers, received)
    }

    /// Goes by what was found in the inbox, once the waker is with those who
    /// wait.
    fn go_by(
        &mut self,
        wakers: &mut HashMap<usize, TaskWaker>,
        received: Received<I::Value, I::Payload>,
    ) -> (outcome: Poll<Outcome<I::Value, I::Payload>>)
        requires
            !old(self).done,
        ensures
            final(self).id == old(self).id,
            final(self).inbox == old(self).inbox,
            concludes(
                old(wakers)@,
                old(self).id,
                received,
                final(wakers)@,
                final(self).done,
                outcome,
            ),
    {
        match received {
            Received::Value(value) => {
                self.done = true;
                wakers.remove(&self.id);
                Poll::Ready(Outcome::Value(value))
            },
            Received::Panicked(payload) => {
                self.done = true;
                wakers.remove(&self.id);
                Poll::Ready(Outcome::Panicked(payload))
            },
            Received::Empty => Poll::Pending,
            Received::Disconnected => Poll::Ready(Outcome::Disconnected),
        }
    }

    /// Looks into the inbox and goes by what is there, once the waker is with
    /// those who wait.
    pub(crate) fn receive(&mut self, wakers: &mut HashMap<usize, TaskWaker>) -> (outcome: Poll<
        Outcome<I::Value, I::Payload>,
    >)
        requires
            !old(self).spec_done(),
        ensures
            final(self).spec_id() == old(self).spec_id(),
            I::takes(old(self).spec_inbox(), final(self).spec_inbox(), found(outcome)),
            concludes(
                old(wakers)@,
                old(self).spec_id(),
                found(outcome),
                final(wakers)@,
                final(self).spec_done(),
                outcome,
            ),
    {
        let received = self.inbox.take();
        self.go_by(wakers, received)
    }
}

impl<I: Inbox> Future for BlockingTask<I> {
    type Context = Context;

    type Output = Outcome<I::Value, I::Payload>;

    open spec fn pollable(&self) -> bool {
        !self.spec_done()
    }

    open spec fn polls(
        before: Self,
        cx_before: Context,
        after: Self,
        cx_after: Context,
        outcome: Poll<Outcome<I::Value, I::Payload>>,
    ) -> bool {
        &&& cx_after == (Context { blocking_wakers: cx_after.blocking_wakers, ..cx_before })
        &&& I::takes(before.spec_inbox(), after.spec_inbox(), found(outcome))
        &&& Self::settles(
            before,
            cx_before.blocking_wakers@,
            cx_before.waker,
            found(outcome),
            after,
            cx_after.blocking_wakers@,
            outcome,
        )
    }

    fn poll(&mut self, cx: &mut Context) -> (outcome: Poll<Outcome<I::Value, I::Payload>>) {
        cx.blocking_wakers.insert(self.id, cx.waker);
        self.receive(&mut cx.blocking_wakers)
    }
}

/// Whether spawning a closure, of which there will be word in `inbox`, leads from
/// `before` to `after` and makes `task`: the task gets the next id, and nothing else
/// changes in the context.
pub open spec fn spawns<I>(
    before: Context,
    inbox: I,
    after: Context,
    task: BlockingTask<I>,
) -> bool {
    &&& task.spec_id() == before.next_blocking_id.0
    &&& task.spec_inbox() == inbox
    &&& !task.spec_done()
    &&& after.next_blocking_id.0 == before.next_blocking_id.0 + 1
    &&& after == (Context { next_blocking_id: after.next_blocking_id, ..before })
}

/// Gives a closure an id, submits the job that runs it, and makes the future that
/// waits for word of it in `inbox`.
pub fn spawn_blocking<I: Inbox, J>(
    cx: &mut Context,
    pool: &mut WorkerPool<J>,
    job: J,
    inbox: I,
) -> (task: BlockingTask<I>)
    requires
        old(cx).next_blocking_id.0 < usize::MAX,
        old(pool).spec_open(),
    ensures
        final(pool).spec_jobs() == old(pool).spec_jobs().push(job),
        final(pool).spec_open(),
        final(pool).spec_workers() == old(pool).spec_workers(),
        final(pool).spec_completed() == old(pool).spec_completed(),
        spawns(*old(cx), inbox, *final(cx), task),
{
    let id = cx.next_blocking_id;
    cx.next_blocking_id = BlockingId(id.0 + 1);
    pool.submit(job);
    BlockingTask::new(id.0, inbox)
}

/// Ends a job: leaves word in `slot` of how the closure `id` ended, by a panic or not,
/// and announces it to the runtime. A runtime that sees the announcement finds the
/// word there.
pub fn conclude<R, P, J>(
    slot: &mut ResultSlot<R, P>,
    pool: &mut WorkerPool<J>,
    id: BlockingId,
    result: Result<R, P>,
)
    requires
        *old(slot) is Waiting,
    ensures
        *final(slot) == ResultSlot::Told(result),
        final(pool).spec_completed() == old(pool).spec_completed().push(id),
        final(pool).spec_jobs() == old(pool).spec_jobs(),
        final(pool).spec_open() == old(pool).spec_open(),
        final(pool).spec_workers() == old(pool).spec_workers(),
{
    slot.complete(result);
    pool.finish(id);
}

/// Ids are never used again: a closure that is spawned after another gets a higher id,
/// as long as nothing sets the next id back, and neither does spawning one.
pub proof fn law_blocking_ids_are_never_reused<I, K>(
    before: Context,
    inbox: I,
    after: Context,
    task: BlockingTask<I>,
    later: Context,
    other_inbox: K,
    last: Context,
    other: BlockingTask<K>,
)
    requires
        spawns(before, inbox, after, task),
        after.next_blocking_id.0 <= later.next_blocking_id.0,
        spawns(later, other_inbox, last, other),
    ensures
        task.spec_id() < other.spec_id(),
        other.spec_id() < last.next_blocking_id.0,
{
}

/// A task that is left pending by a poll has the waker of that poll with those who
/// wait.
pub proof fn law_pending_task_is_woken<I: Inbox>(
    before: BlockingTask<I>,
    wakers_before: Map<usize, TaskWaker>,
    waker: TaskWaker,
    received: Received<I::Value, I::Payload>,
    after: BlockingTask<I>,
    wakers_after: Map<usize, TaskWaker>,
    outcome: Poll<Outcome<I::Value, I::Payload>>,
)
    requires
        BlockingTask::settles(
            before,
            wakers_before,
            waker,
            received,
            after,
            wakers_after,
            outcome,
        ),
        outcome is Pending,
    ensures
        wakers_after.contains_key(after.spec_id()),
        wakers_after[after.spec_id()] == waker,
{
}

/// A task that has learnt how its closure ended, or is given up, is no longer
/// with those who wait, and the others are all still there.
pub proof fn law_finished_task_leaves<I: Inbox>(
    before: BlockingTask<I>,
    wakers_before: Map<usize, TaskWaker>,
    waker: TaskWaker,
    received: Received<I::Value, I::Payload>,
    after: BlockingTask<I>,
    wakers_after: Map<usize, TaskWaker>,
    outcome: Poll<Outcome<I::Value, I::Payload>>,
)
    requires
        BlockingTask::settles(
            before,
            wakers_before,
            waker,
            received,
            after,
            wakers_after,
            outcome,
        ),
    ensures
        after.spec_done() ==> wakers_after == wakers_before.remove(before.spec_id()),
        wakers_after.remove(after.spec_id()) == wakers_before.remove(before.spec_id()),
{
    let id = before.spec_id();
    assert(wakers_before.insert(id, waker).remove(id) == wakers_before.remove(id));
    assert(wakers_before.remove(id).remove(id) == wakers_before.remove(id));
}

/// What a closure comes to goes to the task that waits for it unchanged: the poll
/// that finds word in the slot is ready with the value that the closure returned,
/// or with the payload of its panic, and no poll is ready before.
pub proof fn law_result_reaches_task<R, P>(
    before: BlockingTask<ResultSlot<R, P>>,
    cx_before: Context,
    after: BlockingTask<ResultSlot<R, P>>,
    cx_after: Context,
    outcome: Poll<Outcome<R, P>>,
)
    requires
        BlockingTask::polls(before, cx_before, after, cx_after, outcome),
    ensures
        before.spec_inbox() is Waiting <==> outcome is Pending,
        before.spec_inbox() matches ResultSlot::Told(Ok(value)) ==> outcome == Poll::Ready(
            Outcome::<R, P>::Value(value),
        ),
        before.spec_inbox() matches ResultSlot::Told(Err(payload)) ==> outcome == Poll::Ready(
            Outcome::<R, P>::Panicked(payload),
        ),
        before.spec_inbox() is Closed ==> outcome == Poll::Ready(Outcome::<R, P>::Disconnected),
        after.spec_done() <==> before.spec_inbox() is Told,
        before.spec_inbox() is Waiting <==> after.spec_inbox() is Waiting,
        after.spec_id() == before.spec_id(),
        cx_after.waker == cx_before.waker && cx_after.now == cx_before.now,
        cx_after.queue@ == cx_before.queue@,
        cx_after.wheel == cx_before.wheel,
        cx_after.next_blocking_id == cx_before.next_blocking_id,
{
}

/// A poll comes to what was found in the inbox: word of the closure's end is handed on as
/// it is, and the task is then done and waits no longer; without word the task is pending
/// and waits; and a worker that is gone is reported.
pub proof fn law_outcome_goes_by_word<I: Inbox>(
    before: BlockingTask<I>,
    wakers_before: Map<usize, TaskWaker>,
    waker: TaskWaker,
    received: Received<I::Value, I::Payload>,
    after: BlockingTask<I>,
    wakers_after: Map<usize, TaskWaker>,
    outcome: Poll<Outcome<I::Value, I::Payload>>,
)
    requires
        BlockingTask::settles(
            before,
            wakers_before,
            waker,
            received,
            after,
            wakers_after,
            outcome,
        ),
    ensures
        after.spec_done() <==> received is Value || received is Panicked,
        after.spec_done() <==> !wakers_after.contains_key(before.spec_id()),
        outcome is Pending <==> received is Empty,
        received matches Received::Value(value) ==> outcome == Poll::Ready(
            Outcome::<I::Value, I::Payload>::Value(value),
        ),
        received matches Received::Panicked(payload) ==> outcome == Poll::Ready(
            Outcome::<I::Value, I::Payload>::Panicked(payload),
        ),
        received is Disconnected ==> outcome == Poll::Ready(
            Outcome::<I::Value, I::Payload>::Disconnected,
        ),
{
}

/// Giving up waiting takes the task from those who wait, and nobody else; a task that has
/// learnt how its closure ended takes nobody.
pub proof fn law_given_up_task_leaves_others<I>(
    task: BlockingTask<I>,
    wakers: Map<usize, TaskWaker>,
    other: usize,
)
    ensures
        !task.spec_done() ==> !task.gives_up(wakers).contains_key(task.spec_id()),
        task.spec_done() ==> task.gives_up(wakers) == wakers,
        other != task.spec_id() ==> {
            &&& task.gives_up(wakers).contains_key(other) == wakers.contains_key(other)
            &&& wakers.contains_key(other) ==> task.gives_up(wakers)[other] == wakers[other]
        },
{
}

/// Word of how a closure ended is kept for the task, through its worker leaving, until it
/// is taken, and it is taken once: after that, or when the worker leaves without any, there
/// is none.
pub proof fn law_word_is_taken_once<R, P>(
    slot: ResultSlot<R, P>,
    result: Result<R, P>,
    taken: ResultSlot<R, P>,
    received: Received<R, P>,
    again: ResultSlot<R, P>,
    second: Received<R, P>,
)
    requires
        slot == ResultSlot::Told(result),
        ResultSlot::takes(slot, taken, received),
        ResultSlot::takes(taken, again, second),
    ensures
        result matches Ok(value) ==> received == Received::<R, P>::Value(value),
        result matches Err(payload) ==> received == Received::<R, P>::Panicked(payload),
        second is Disconnected,
{
}

/// A closure that is spawned reports to its own task: what is left in the inbox that it
/// was spawned with is what the first poll of the task comes to. Spawning it changes
/// nothing else that the task that spawns can reach.
pub proof fn law_spawned_closure_reports_back<R, P>(
    cx: Context,
    slot: ResultSlot<R, P>,
    cx_spawned: Context,
    task: BlockingTask<ResultSlot<R, P>>,
    cx_before: Context,
    after: BlockingTask<ResultSlot<R, P>>,
    cx_after: Context,
    outcome: Poll<Outcome<R, P>>,
)
    requires
        spawns(cx, slot, cx_spawned, task),
        BlockingTask::polls(task, cx_before, after, cx_after, outcome),
    ensures
        task.pollable(),
        slot is Waiting <==> outcome is Pending,
        slot matches ResultSlot::Told(Ok(value)) ==> outcome == Poll::Ready(
            Outcome::<R, P>::Value(value),
        ),
        slot matches ResultSlot::Told(Err(payload)) ==> outcome == Poll::Ready(
            Outcome::<R, P>::Panicked(payload),
        ),
        outcome is Pending ==> cx_after.blocking_wakers@.contains_key(cx.next_blocking_id.0)
            && cx_after.blocking_wakers@[cx.next_blocking_id.0] == cx_before.waker,
        cx_spawned.waker == cx.waker && cx_spawned.now == cx.now,
        cx_spawned.queue@ == cx.queue@,
        cx_spawned.wheel == cx.wheel,
        cx_spawned.blocking_wakers@ == cx.blocking_wakers@,
        cx_spawned.next_blocking_id.0 == cx.next_blocking_id.0 + 1,
{
}

} // verus!
