use std::collections::HashMap;

use vstd::prelude::*;

use crate::task::Task;
use crate::waker::TaskWaker;

verus! {

/// What a task is known by.
#[derive(Clone, Copy, PartialEq, Eq, Structural, Hash, Debug)]
pub struct TaskId(pub usize);

/// What a closure that runs on a worker is known by.
#[derive(Clone, Copy, PartialEq, Eq, Structural, Hash, Debug)]
pub struct BlockingId(pub usize);

/// Everything a runtime knows of its tasks.
#[verifier::reject_recursive_types(F)]
pub struct RuntimeState<F> {
    /// The tasks that asked to be polled, in the order in which they asked.
    pub queue: Vec<TaskId>,
    /// The tasks that have not finished, by the number in their id.
    pub tasks: HashMap<usize, Task<TaskWaker, F>>,
    /// The id of the next task.
    pub next_id: TaskId,
    /// Whom to wake when a closure on a worker is through, by the number in
    /// the closure's id.
    pub blocking_wakers: HashMap<usize, TaskWaker>,
    /// The id of the next closure.
    pub next_blocking_id: BlockingId,
}

/// Whether taking `future` in as the task `id` turns `before` into `after`: the id
/// is the next one, which no task has, and the task is behind all others in the
/// queue.
pub open spec fn spawned<F>(
    before: RuntimeState<F>,
    future: F,
    after: RuntimeState<F>,
    id: TaskId,
) -> bool {
    &&& id == before.next_id
    &&& !before.tasks@.contains_key(id.0)
    &&& after.next_id.0 == id.0 + 1
    &&& after.queue@ == before.queue@.push(id)
    &&& after.tasks@.contains_key(id.0)
    &&& after.tasks@[id.0].spec_future() == future
    &&& after.tasks@.remove(id.0) == before.tasks@
    &&& after.blocking_wakers == before.blocking_wakers
    &&& after.next_blocking_id == before.next_blocking_id
}

impl<F> RuntimeState<F> {
    /// Every task stands under its own id, is woken under that id, and has an
    /// id that was given out.
    pub open spec fn wf(&self) -> bool {
        forall|key: usize| #[trigger]
            self.tasks@.contains_key(key) ==> {
                &&& key < self.next_id.0
                &&& self.tasks@[key].spec_id() == TaskId(key)
                &&& self.tasks@[key].spec_waker().spec_id() == TaskId(key)
            }
    }

    /// A state without tasks.
    pub fn new() -> (state: Self)
        ensures
            state.wf(),
            state.queue@ == Seq::<TaskId>::empty(),
            state.tasks@ == Map::<usize, Task<TaskWaker, F>>::empty(),
            state.next_id == TaskId(0),
            state.blocking_wakers@ == Map::<usize, TaskWaker>::empty(),
            state.next_blocking_id == BlockingId(0),
    {
        RuntimeState {
            queue: Vec::new(),
            tasks: HashMap::new(),
            next_id: TaskId(0),
            blocking_wakers: HashMap::new(),
            next_blocking_id: BlockingId(0),
        }
    }

    /// Takes a future in as a task and queues it for its first poll.
    pub fn spawn(&mut self, future: F) -> (id: TaskId)
        requires
            old(self).wf(),
            old(self).next_id.0 < usize::MAX,
        ensures
            final(self).wf(),
            spawned(*old(self), future, *final(self), id),
    {
        let id = self.next_id;
        self.next_id = TaskId(id.0 + 1);
        let waker = TaskWaker::new(id);
        self.tasks.insert(id.0, Task::new(id, future, waker));
        self.queue.push(id);
        assert(self.tasks@.remove(id.0) == old(self).tasks@);
        id
    }
}

/// Ids are never used again: the id of a task that has finished stays nobody's when
/// another task comes in, so a waker that is left of the one never wakes the other.
pub proof fn law_ids_are_never_reused<F>(
    before: RuntimeState<F>,
    future: F,
    after: RuntimeState<F>,
    id: TaskId,
    finished: TaskId,
)
    requires
        before.wf(),
        spawned(before, future, after, id),
        finished.0 < before.next_id.0,
        !before.tasks@.contains_key(finished.0),
    ensures
        finished != id,
        !after.tasks@.contains_key(finished.0),
        finished.0 < after.next_id.0,
{
    assert(after.tasks@.remove(id.0).contains_key(finished.0) == before.tasks@.contains_key(
        finished.0,
    ));
}

} // verus!
