use vstd::prelude::*;

use crate::context::Context;
use crate::future::{Future, Poll};

verus! {

/// A future that gives way to the other tasks once.
///
/// Its first poll wakes its own task and is pending, so the task goes to the
/// back of the queue; its second poll is ready.
pub struct YieldNow {
    /// Whether the future has given way already.
    pub done: bool,
}

impl Future for YieldNow {
    type Context = Context;

    type Output = ();

    open spec fn pollable(&self) -> bool {
        true
    }

    open spec fn polls(
        before: Self,
        cx_before: Context,
        after: Self,
        cx_after: Context,
        outcome: Poll<()>,
    ) -> bool {
        &&& after.done
        &&& cx_after == (Context { queue: cx_after.queue, ..cx_before })
        &&& if before.done {
            outcome == Poll::Ready(()) && cx_after.queue@ == cx_before.queue@
        } else {
            outcome is Pending && cx_after.queue@ == cx_before.queue@.push(
                cx_before.waker.spec_id(),
            )
        }
    }

    fn poll(&mut self, cx: &mut Context) -> (outcome: Poll<()>) {
        if self.done {
            Poll::Ready(())
        } else {
            self.done = true;
            cx.wake_by_ref();
            Poll::Pending
        }
    }
}

/// A future that gives way once when it is awaited.
pub fn yield_now() -> (future: YieldNow)
    ensures
        !future.done,
{
    YieldNow { done: false }
}

/// A yield is pending exactly once: its first poll is pending and queues the
/// task once, its second poll is ready and queues nothing.
pub proof fn law_yields_once(
    start: YieldNow,
    cx0: Context,
    mid: YieldNow,
    cx1: Context,
    first: Poll<()>,
    cx2: Context,
    end: YieldNow,
    cx3: Context,
    second: Poll<()>,
)
    requires
        !start.done,
        YieldNow::polls(start, cx0, mid, cx1, first),
        YieldNow::polls(mid, cx2, end, cx3, second),
    ensures
        first is Pending,
        cx1.queue@ == cx0.queue@.push(cx0.waker.spec_id()),
        second == Poll::Ready(()),
        cx3.queue@ == cx2.queue@,
        cx1.wheel == cx0.wheel && cx3.wheel == cx2.wheel,
        cx1.blocking_wakers == cx0.blocking_wakers && cx3.blocking_wakers == cx2.blocking_wakers,
        cx1.next_blocking_id == cx0.next_blocking_id,
        cx3.next_blocking_id == cx2.next_blocking_id,
{
}

} // verus!
