use std::collections::HashMap;

use vstd::prelude::*;

use crate::runtime_state::{BlockingId, TaskId};
use crate::time::TimerHeap;
use crate::waker::TaskWaker;

verus! {

/// What a task can reach of its runtime while it is polled.
pub struct Context {
    /// Wakes the task that is polled.
    pub waker: TaskWaker,
    /// What the clock shows, in nanoseconds.
    pub now: u128,
    /// The tasks that asked to be polled.
    pub queue: Vec<TaskId>,
    /// The timers that are waiting.
    pub wheel: TimerHeap<TaskWaker>,
    /// Whom to wake when a closure on a worker is through.
    pub blocking_wakers: HashMap<usize, TaskWaker>,
    /// The id of the next closure.
    pub next_blocking_id: BlockingId,
}

impl Context {
    /// A context of its own for the given task, outside of any runtime.
    pub fn new(waker: TaskWaker, now: u128) -> (cx: Self)
        ensures
            cx.waker == waker,
            cx.now == now,
            cx.queue@ == Seq::<TaskId>::empty(),
            cx.wheel@.len() == 0,
            cx.wheel.spec_next_id() == 0,
            cx.blocking_wakers@ == Map::<usize, TaskWaker>::empty(),
            cx.next_blocking_id == BlockingId(0),
    {
        Context {
            waker,
            now,
            queue: Vec::new(),
            wheel: TimerHeap::new(),
            blocking_wakers: HashMap::new(),
            next_blocking_id: BlockingId(0),
        }
    }

    /// Wakes the task that is polled.
    pub fn wake_by_ref(&mut self)
        ensures
            *final(self) == (Context { queue: final(self).queue, ..*old(self) }),
            final(self).queue@ == old(self).queue@.push(old(self).waker.spec_id()),
    {
        self.waker.wake_by_ref(&mut self.queue);
    }
}

/// The place where a running runtime leaves the handle that its tasks reach it
/// by.
pub struct ContextSlot<H> {
    handle: Option<H>,
}

impl<H> ContextSlot<H> {
    /// The handle that is installed, if there is one.
    pub closed spec fn installed(&self) -> Option<H> {
        self.handle
    }

    /// A slot with no handle.
    pub fn new() -> (slot: Self)
        ensures
            slot.installed() is None,
    {
        ContextSlot { handle: None }
    }

    /// Installs a handle in the place of what was there.
    pub fn install(&mut self, handle: H)
        ensures
            final(self).installed() == Some(handle),
    {
        self.handle = Some(handle);
    }

    /// Takes the handle out.
    pub fn uninstall(&mut self)
        ensures
            final(self).installed() is None,
    {
        self.handle = None;
    }

    /// Whether a handle is installed.
    pub fn is_installed(&self) -> (yes: bool)
        ensures
            yes == (self.installed() is Some),
    {
        self.handle.is_some()
    }

    /// Hands the installed handle to `f`.
    pub fn with<F: FnOnce(&H) -> R, R>(&self, f: F) -> (result: R)
        requires
            self.installed() is Some,
            call_requires(f, (&self.installed()->0,)),
        ensures
            call_ensures(f, (&self.installed()->0,), result),
    {
        match &self.handle {
            Some(handle) => f(handle),
            None => vstd::pervasive::unreached(),
        }
    }
}

} // verus!
