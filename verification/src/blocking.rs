use vstd::prelude::*;

use crate::executor;
use crate::executor::Context;
use crate::future::{Future, Poll};
use crate::runtime_state::{BlockingId, TaskId};
use crate::task;
use crate::task::blocking::{Inbox, Outcome, ResultSlot};
use crate::waker::TaskWaker;

pub use crate::task::worker_pool::WorkerPool;

verus! {

/// A future that is ready when a closure on a worker is through.
///
/// While the closure is not through, the waker of the task that polled last
/// stands in the map of those who wait, under the closure's id.
pub struct BlockingTask<I> {
    /// What is waited for.
    pub inner: task::blocking::BlockingTask<I>,
}

/// The map of those who wait after a poll has left its waker there, in the place of
/// that of an earlier poll.
pub open spec fn waiting(
    wakers: Map<usize, TaskWaker>,
    id: usize,
    waker: TaskWaker,
) -> Map<usize, TaskWaker> {
    wakers.insert(id, waker)
}

impl<I> BlockingTask<I> {
    /// The number that the task waits under.
    pub fn id(&self) -> (id: usize)
        ensures
            id == self.inner.spec_id(),
    {
        self.inner.id()
    }

    /// Gives up waiting: unless the closure is through, nobody waits under the
    /// task's number any more.
    pub fn cancel(self, cx: &mut Context)
        ensures
            *final(cx) == (Context { blocking: final(cx).blocking, ..*old(cx) }),
            final(cx).blocking@ == self.inner.gives_up(old(cx).blocking@),
    {
        self.inner.cancel(&mut cx.blocking);
    }
}

impl<I: Inbox> Future for BlockingTask<I> {
    type Context = Context;

    type Output = Outcome<I::Value, I::Payload>;

    open spec fn pollable(&self) -> bool {
        !self.inner.spec_done()
    }

    open spec fn polls(
        before: Self,
        cx_before: Context,
        after: Self,
        cx_after: Context,
        outcome: Poll<Outcome<I::Value, I::Payload>>,
    ) -> bool {
        &&& cx_after == (Context { blocking: cx_after.blocking, ..cx_before })
        &&& I::takes(
            before.inner.spec_inbox(),
            after.inner.spec_inbox(),
            task::blocking::found(outcome),
        )
        &&& after.inner.spec_id() == before.inner.spec_id()
        &&& task::blocking::concludes(
            waiting(cx_before.blocking@, before.inner.spec_id(), cx_before.waker),
            before.inner.spec_id(),
            task::blocking::found(outcome),
            cx_after.blocking@,
            after.inner.spec_done(),
            outcome,
        )
    }

    fn poll(&mut self, cx: &mut Context) -> (outcome: Poll<Outcome<I::Value, I::Payload>>) {
        cx.blocking.insert(self.inner.id(), cx.waker);
        self.inner.receive(&mut cx.blocking)
    }
}

/// Whether spawning a closure, of which there will be word in `inbox`, leads from
/// `before` to `after` and makes `task`: the task gets the next id, and nothing else
/// changes in the context.
pub open spec fn spawns<I>(
    before: Context,
    inbox: I,
    after: Context,
    task: BlockingTask<I>,
) -> bool {
    &&& task.inner.spec_id() == before.next_blocking_id.0
    &&& task.inner.spec_inbox() == inbox
    &&& !task.inner.spec_done()
    &&& after.next_blocking_id.0 == before.next_blocking_id.0 + 1
    &&& after == (Context { next_blocking_id: after.next_blocking_id, ..before })
}

/// Gives a closure an id, submits the job that runs it, and makes the future by which
/// the task that is polled now waits for word of it in `inbox`.
pub fn spawn_blocking<I: Inbox, J>(
    cx: &mut Context,
    pool: &mut WorkerPool<J>,
    job: J,
    inbox: I,
) -> (task: BlockingTask<I>)
    requires
        old(cx).handle.current_id is Some,
        old(cx).next_blocking_id.0 < usize::MAX,
        old(pool).spec_open(),
    ensures
        final(pool).spec_jobs() == old(pool).spec_jobs().push(job),
        final(pool).spec_open(),
        final(pool).spec_workers() == old(pool).spec_workers(),
        final(pool).spec_completed() == old(pool).spec_completed(),
        spawns(*old(cx), inbox, *final(cx), task),
{
    let id = cx.next_blocking_id;
    cx.next_blocking_id = BlockingId(id.0 + 1);
    pool.submit(job);
    BlockingTask { inner: task::blocking::BlockingTask::new(id.0, inbox) }
}

/// Ids are never used again: a closure that is spawned after another gets a higher id,
/// as long as nothing sets the next id back, and neither does spawning one.
pub proof fn law_blocking_ids_are_never_reused<I, K>(
    before: Context,
    inbox: I,
    after: Context,
    task: BlockingTask<I>,
    later: Context,
    other_inbox: K,
    last: Context,
    other: BlockingTask<K>,
)
    requires
        spawns(before, inbox, after, task),
        after.next_blocking_id.0 <= later.next_blocking_id.0,
        spawns(later, other_inbox, last, other),
    ensures
        task.inner.spec_id() < other.inner.spec_id(),
        other.inner.spec_id() < last.next_blocking_id.0,
{
}

/// A task that is left pending by a poll has the waker of that poll with those who
/// wait, and an event of the workers that finds it there wakes it.
pub proof fn law_pending_task_is_woken<I: Inbox>(
    before: BlockingTask<I>,
    cx_before: Context,
    after: BlockingTask<I>,
    cx_after: Context,
    outcome: Poll<Outcome<I::Value, I::Payload>>,
)
    requires
        BlockingTask::polls(before, cx_before, after, cx_after, outcome),
        outcome is Pending,
    ensures
        cx_after.blocking@.contains_key(after.inner.spec_id()),
        cx_after.blocking@[after.inner.spec_id()] == cx_before.waker,
        forall|woken: Seq<TaskId>| #[trigger]
            executor::wakes_each(woken, cx_after.blocking@) ==> woken.contains(
                cx_before.waker.spec_id(),
            ),
{
    let wakers = cx_after.blocking@;
    let task = cx_before.waker.spec_id();
    assert forall|woken: Seq<TaskId>| #[trigger]
        executor::wakes_each(woken, wakers) implies woken.contains(task) by {
        executor::law_worker_event_wakes_all(woken, wakers, task);
        assert(wakers.contains_key(after.inner.spec_id()));
    }
}

/// Whatever a poll of one task comes to, a task that waits under another number waits
/// on, with the same waker.
pub proof fn law_siblings_wait_on<I: Inbox>(
    before: BlockingTask<I>,
    cx_before: Context,
    after: BlockingTask<I>,
    cx_after: Context,
    outcome: Poll<Outcome<I::Value, I::Payload>>,
    sibling: usize,
)
    requires
        BlockingTask::polls(before, cx_before, after, cx_after, outcome),
        sibling != before.inner.spec_id(),
    ensures
        cx_after.blocking@.contains_key(sibling) == cx_before.blocking@.contains_key(sibling),
        cx_before.blocking@.contains_key(sibling) ==> cx_after.blocking@[sibling]
            == cx_before.blocking@[sibling],
{
}

/// A task that has learnt how its closure ended is no longer with those who wait,
/// and the others are all still there.
pub proof fn law_finished_task_leaves<I: Inbox>(
    before: BlockingTask<I>,
    cx_before: Context,
    after: BlockingTask<I>,
    cx_after: Context,
    outcome: Poll<Outcome<I::Value, I::Payload>>,
)
    requires
        BlockingTask::polls(before, cx_before, after, cx_after, outcome),
    ensures
        after.inner.spec_done() ==> cx_after.blocking@ == cx_before.blocking@.remove(
            before.inner.spec_id(),
        ),
        cx_after.blocking@.remove(after.inner.spec_id()) == cx_before.blocking@.remove(
            before.inner.spec_id(),
        ),
{
    let id = before.inner.spec_id();
    let wakers = cx_before.blocking@;
    assert(wakers.insert(id, cx_before.waker).remove(id) == wakers.remove(id));
    assert(wakers.remove(id).remove(id) == wakers.remove(id));
}

/// What a closure comes to goes to the task that waits for it unchanged: the poll that
/// finds word in the slot is ready with the value that the closure returned, or with the
/// payload of its panic, and no poll is ready before.
pub proof fn law_result_reaches_task<R, P>(
    before: BlockingTask<ResultSlot<R, P>>,
    cx_before: Context,
    after: BlockingTask<ResultSlot<R, P>>,
    cx_after: Context,
    outcome: Poll<Outcome<R, P>>,
)
    requires
        BlockingTask::polls(before, cx_before, after, cx_after, outcome),
    ensures
        before.inner.spec_inbox() is Waiting <==> outcome is Pending,
        before.inner.spec_inbox() matches ResultSlot::Told(Ok(value)) ==> outcome == Poll::Ready(
            Outcome::<R, P>::Value(value),
        ),
        before.inner.spec_inbox() matches ResultSlot::Told(Err(payload)) ==> outcome
            == Poll::Ready(Outcome::<R, P>::Panicked(payload)),
        before.inner.spec_inbox() is Closed ==> outcome == Poll::Ready(
            Outcome::<R, P>::Disconnected,
        ),
        after.inner.spec_done() <==> before.inner.spec_inbox() is Told,
        before.inner.spec_inbox() is Waiting <==> after.inner.spec_inbox() is Waiting,
        after.inner.spec_id() == before.inner.spec_id(),
        cx_after.waker == cx_before.waker && cx_after.now == cx_before.now,
        cx_after.queue@ == cx_before.queue@,
        cx_after.handle == cx_before.handle,
        cx_after.reactor == cx_before.reactor,
        cx_after.next_blocking_id == cx_before.next_blocking_id,
{
}

/// A closure that is spawned reports to its own task: what is left in the inbox that it
/// was spawned with is what the first poll of the task comes to. Spawning it changes
/// nothing else that the task that spawns can reach.
pub proof fn law_spawned_closure_reports_back<R, P>(
    cx: Context,
    slot: ResultSlot<R, P>,
    cx_spawned: Context,
    task: BlockingTask<ResultSlot<R, P>>,
    cx_before: Context,
    after: BlockingTask<ResultSlot<R, P>>,
    cx_after: Context,
    outcome: Poll<Outcome<R, P>>,
)
    requires
        spawns(cx, slot, cx_spawned, task),
        BlockingTask::polls(task, cx_before, after, cx_after, outcome),
    ensures
        task.pollable(),
        slot is Waiting <==> outcome is Pending,
        slot matches ResultSlot::Told(Ok(value)) ==> outcome == Poll::Ready(
            Outcome::<R, P>::Value(value),
        ),
        slot matches ResultSlot::Told(Err(payload)) ==> outcome == Poll::Ready(
            Outcome::<R, P>::Panicked(payload),
        ),
        outcome is Pending ==> cx_after.blocking@.contains_key(cx.next_blocking_id.0)
            && cx_after.blocking@[cx.next_blocking_id.0] == cx_before.waker,
        cx_spawned.waker == cx.waker && cx_spawned.now == cx.now,
        cx_spawned.queue@ == cx.queue@,
        cx_spawned.handle == cx.handle && cx_spawned.reactor == cx.reactor,
        cx_spawned.blocking@ == cx.blocking@,
        cx_spawned.next_blocking_id.0 == cx.next_blocking_id.0 + 1,
{
}

} // verus!
