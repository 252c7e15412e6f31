use vstd::prelude::*;

use crate::runtime_state::TaskId;

verus! {

/// Asks for a task to be polled again, by pushing the task's id onto a ready
/// queue.
#[derive(Clone, Copy, PartialEq, Eq, Structural, Hash, Debug)]
pub struct TaskWaker {
    id: TaskId,
}

impl TaskWaker {
    /// The task that is woken.
    pub closed spec fn spec_id(&self) -> TaskId {
        self.id
    }

    /// A waker for the given task.
    pub fn new(id: TaskId) -> (waker: Self)
        ensures
            waker.spec_id() == id,
    {
        TaskWaker { id }
    }

    /// Wakes the task and uses the waker up.
    pub fn wake(self, queue: &mut Vec<TaskId>)
        ensures
            final(queue)@ == old(queue)@.push(self.spec_id()),
    {
        self.wake_by_ref(queue);
    }

    /// Wakes the task and keeps the waker for another time.
    pub fn wake_by_ref(&self, queue: &mut Vec<TaskId>)
        ensures
            final(queue)@ == old(queue)@.push(self.spec_id()),
    {
        queue.push(self.id);
    }
}

/// A waker is its task's id: two wakers for one task are the same, so a copy
/// wakes the very task that the waker it was made from does.
pub proof fn law_waker_identity(a: TaskWaker, b: TaskWaker)
    ensures
        a == b <==> a.spec_id() == b.spec_id(),
{
}

} // verus!
