pub mod all;
pub mod blocking;
pub mod worker_pool;
pub mod yield_now;

pub use all::all;
pub use blocking::spawn_blocking;

use vstd::prelude::*;

use crate::future::{Future, Poll};
use crate::runtime_state::TaskId;

verus! {

/// A future that a runtime drives, with the id that it is queued by and the
/// waker that queues it.
#[verifier::reject_recursive_types(W)]
#[verifier::reject_recursive_types(F)]
pub struct Task<W, F> {
    id: TaskId,
    waker: W,
    future: F,
}

impl<W, F> Task<W, F> {
    /// The id of the task.
    pub closed spec fn spec_id(&self) -> TaskId {
        self.id
    }

    /// The waker of the task.
    pub closed spec fn spec_waker(&self) -> W {
        self.waker
    }

    /// What the task has become so far.
    pub closed spec fn spec_future(&self) -> F {
        self.future
    }

    /// A task that has not been polled.
    pub fn new(id: TaskId, future: F, waker: W) -> (task: Self)
        ensures
            task.spec_id() == id,
            task.spec_waker() == waker,
            task.spec_future() == future,
    {
        Task { id, waker, future }
    }

    /// The id of the task.
    pub fn id(&self) -> (id: TaskId)
        ensures
            id == self.spec_id(),
    {
        self.id
    }

    /// The waker of the task.
    pub fn waker(&self) -> (waker: &W)
        ensures
            *waker == self.spec_waker(),
    {
        &self.waker
    }
}

impl<W, F: Future> Task<W, F> {
    /// Polls the task's future once, in place.
    pub fn poll(&mut self, cx: &mut F::Context) -> (outcome: Poll<F::Output>)
        requires
            old(self).spec_future().pollable(),
        ensures
            F::polls(
                old(self).spec_future(),
                *old(cx),
                final(self).spec_future(),
                *final(cx),
                outcome,
            ),
            outcome is Pending ==> final(self).spec_future().pollable(),
            final(self).spec_id() == old(self).spec_id(),
            final(self).spec_waker() == old(self).spec_waker(),
    {
        self.future.poll(cx)
    }
}

} // verus!
