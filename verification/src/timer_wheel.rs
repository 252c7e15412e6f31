use vstd::prelude::*;

use crate::deadline_queue;
use crate::deadline_queue::{DeadlineQueue, TimerEntry};
use crate::executor::Context;
use crate::future::{Future, Poll};
use crate::waker::TaskWaker;

verus! {

/// A priority queue of deadlines, each with the task that waits for it. The
/// earliest deadline is on top, and among equal ones that of the lowest task.
pub struct TimerWheel {
    heap: DeadlineQueue<()>,
}

impl View for TimerWheel {
    type V = Seq<TimerEntry<()>>;

    /// The deadlines in the order in which they pass.
    closed spec fn view(&self) -> Seq<TimerEntry<()>> {
        self.heap@
    }
}

/// A deadline that a task waits for.
pub open spec fn timer(deadline: u128, id: usize) -> TimerEntry<()> {
    TimerEntry { deadline, id, waker: () }
}

impl TimerWheel {
    /// A wheel without deadlines.
    pub fn new() -> (wheel: Self)
        ensures
            wheel@ == Seq::<TimerEntry<()>>::empty(),
    {
        TimerWheel { heap: DeadlineQueue::new() }
    }

    /// Whether no deadline is waited for.
    pub fn is_empty(&self) -> (empty: bool)
        ensures
            empty == (self@.len() == 0),
    {
        self.heap.is_empty()
    }

    /// Adds a deadline for the task `id`.
    pub fn push(&mut self, deadline: u128, id: usize)
        ensures
            final(self)@ == deadline_queue::inserted(old(self)@, timer(deadline, id)),
            deadline_queue::in_order(old(self)@),
            deadline_queue::in_order(final(self)@),
    {
        self.heap.push(deadline, id, ());
    }

    /// The deadline on top and its task.
    pub fn peek(&self) -> (top: Option<(u128, usize)>)
        ensures
            deadline_queue::in_order(self@),
            top is None <==> self@.len() == 0,
            top matches Some((deadline, id)) ==> self@[0] == timer(deadline, id),
    {
        match self.heap.peek() {
            Some(entry) => {
                assert(entry.waker == ());
                Some((entry.deadline, entry.id))
            },
            None => None,
        }
    }

    /// Takes the deadline on top off the wheel, with its task.
    pub fn pop(&mut self) -> (top: Option<(u128, usize)>)
        ensures
            deadline_queue::in_order(old(self)@),
            deadline_queue::popped(
                old(self)@,
                final(self)@,
                match top {
                    Some((deadline, id)) => Some(timer(deadline, id)),
                    None => None,
                },
            ),
    {
        match self.heap.pop() {
            Some(entry) => {
                assert(entry.waker == ());
                Some((entry.deadline, entry.id))
            },
            None => None,
        }
    }

    /// Takes a deadline of the task `id` off the wheel, if it is there.
    pub fn remove(&mut self, deadline: u128, id: usize)
        ensures
            final(self)@ == old(self)@.remove_value(timer(deadline, id)),
            deadline_queue::in_order(old(self)@),
            deadline_queue::in_order(final(self)@),
    {
        let ghost entry = timer(deadline, id);
        let _ = self.heap.take_back(deadline, id);
        proof {
            let s = old(self)@;
            s.index_of_first_ensures(entry);
            assert forall|i: int|
                0 <= i < s.len() implies ((#[trigger] s[i]).deadline == deadline && s[i].id == id
                    <==> s[i] == entry) by {
                assert(s[i].waker == ());
            }
        }
    }
}

/// The wheel, and the task that is polled right now.
pub struct WheelHandle {
    /// The wheel.
    pub wheel: TimerWheel,
    /// The task that is polled, if one is.
    pub current_id: Option<usize>,
}

impl WheelHandle {
    /// A handle to the given wheel, with no task being polled.
    pub fn install(wheel: TimerWheel) -> (handle: Self)
        ensures
            handle.wheel == wheel,
            handle.current_id is None,
    {
        WheelHandle { wheel, current_id: None }
    }

    /// Notes that the task `id` is polled now.
    pub fn set_current_id(&mut self, id: usize)
        ensures
            final(self).wheel == old(self).wheel,
            final(self).current_id == Some(id),
    {
        self.current_id = Some(id);
    }

    /// Notes that no task is polled now.
    pub fn clear_current_id(&mut self)
        ensures
            final(self).wheel == old(self).wheel,
            final(self).current_id is None,
    {
        self.current_id = None;
    }

    /// The task that is polled now.
    pub fn current_id(&self) -> (id: usize)
        requires
            self.current_id is Some,
        ensures
            self.current_id == Some(id),
    {
        self.current_id.unwrap()
    }
}

/// A future that is ready once its deadline has passed.
///
/// The first poll before the deadline puts the deadline on the wheel, for the
/// task that the sleep belongs to. A sleep whose deadline has passed by its
/// first poll never touches the wheel.
pub struct Sleep {
    /// When the sleep is over.
    pub deadline: u128,
    /// The task that sleeps.
    pub id: usize,
    /// The waker of the poll that put the deadline on the wheel.
    pub waker: Option<TaskWaker>,
    /// Whether the sleep has been seen to be over.
    pub done: bool,
}

impl Sleep {
    /// What is left of `timers` when the sleep is given up.
    pub open spec fn gives_up(self, timers: Seq<TimerEntry<()>>) -> Seq<TimerEntry<()>> {
        if self.done || self.waker is None {
            timers
        } else {
            timers.remove_value(timer(self.deadline, self.id))
        }
    }

    /// Gives the sleep up: a deadline that it may have put on the wheel is taken
    /// off, unless the sleep is over.
    pub fn cancel(self, wheel: &mut TimerWheel)
        ensures
            final(wheel)@ == self.gives_up(old(wheel)@),
    {
        if !self.done && self.waker.is_some() {
            wheel.remove(self.deadline, self.id);
        }
    }
}

impl Future for Sleep {
    type Context = Context;

    type Output = ();

    open spec fn pollable(&self) -> bool {
        true
    }

    open spec fn polls(
        before: Self,
        cx_before: Context,
        after: Self,
        cx_after: Context,
        outcome: Poll<()>,
    ) -> bool {
        &&& after.deadline == before.deadline
        &&& after.id == before.id
        &&& if before.done || cx_before.now >= before.deadline {
            &&& outcome == Poll::Ready(())
            &&& after.done
            &&& after.waker == before.waker
            &&& cx_after == cx_before
        } else {
            &&& outcome is Pending
            &&& !after.done
            &&& if before.waker is Some {
                after.waker == before.waker && cx_after == cx_before
            } else {
                &&& after.waker == Some(cx_before.waker)
                &&& cx_after == (Context { handle: cx_after.handle, ..cx_before })
                &&& cx_after.handle.current_id == cx_before.handle.current_id
                &&& cx_after.handle.wheel@ == deadline_queue::inserted(
                    cx_before.handle.wheel@,
                    timer(before.deadline, before.id),
                )
            }
        }
    }

    fn poll(&mut self, cx: &mut Context) -> (outcome: Poll<()>) {
        if self.done {
            return Poll::Ready(());
        }
        if cx.now >= self.deadline {
            self.done = true;
            return Poll::Ready(());
        }
        if self.waker.is_none() {
            cx.handle.wheel.push(self.deadline, self.id);
            self.waker = Some(cx.waker);
        }
        Poll::Pending
    }
}

/// Whether a sleep that has not been polled is one of `duration` nanoseconds from now on,
/// of the task that is polled.
pub open spec fn lasts(future: Sleep, duration: u128, cx: Context) -> bool {
    &&& future.deadline == cx.now + duration
    &&& Some(future.id) == cx.handle.current_id
    &&& future.waker is None
    &&& !future.done
}

/// A future that puts the task that is polled now to sleep for at least
/// `duration` nanoseconds.
pub fn sleep(cx: &Context, duration: u128) -> (future: Sleep)
    requires
        cx.handle.current_id is Some,
        cx.now + duration <= u128::MAX,
    ensures
        lasts(future, duration, *cx),
{
    Sleep {
        deadline: cx.now + duration,
        id: cx.handle.current_id(),
        waker: None,
        done: false,
    }
}

/// A future that gives way to the other tasks once.
///
/// Its first poll wakes its own task and is pending, so the task goes to the
/// back of the queue; its second poll is ready.
pub struct YieldNow {
    /// Whether the future has given way already.
    pub done: bool,
}

impl Future for YieldNow {
    type Context = Context;

    type Output = ();

    open spec fn pollable(&self) -> bool {
        true
    }

    open spec fn polls(
        before: Self,
        cx_before: Context,
        after: Self,
        cx_after: Context,
        outcome: Poll<()>,
    ) -> bool {
        &&& after.done
        &&& cx_after == (Context { queue: cx_after.queue, ..cx_before })
        &&& if before.done {
            outcome == Poll::Ready(()) && cx_after.queue@ == cx_before.queue@
        } else {
            outcome is Pending && cx_after.queue@ == cx_before.queue@.push(
                cx_before.waker.spec_id(),
            )
        }
    }

    fn poll(&mut self, cx: &mut Context) -> (outcome: Poll<()>) {
        if self.done {
            Poll::Ready(())
        } else {
            self.done = true;
            cx.waker.wake_by_ref(&mut cx.queue);
            Poll::Pending
        }
    }
}

/// A future that gives way once when it is awaited.
pub fn yield_now() -> (future: YieldNow)
    ensures
        !future.done,
{
    YieldNow { done: false }
}

/// The earliest deadline on the wheel, if there is one.
pub fn next_deadline(wheel: &TimerWheel) -> (deadline: Option<u128>)
    ensures
        deadline is None <==> wheel@.len() == 0,
        deadline matches Some(d) ==> {
            &&& d == wheel@[0].deadline
            &&& forall|i: int| 0 <= i < wheel@.len() ==> d <= (#[trigger] wheel@[i]).deadline
        },
        deadline_queue::in_order(wheel@),
{
    match wheel.peek() {
        Some((deadline, _)) => Some(deadline),
        None => None,
    }
}

/// The tasks that a row of deadlines belongs to, in the order of the row.
pub open spec fn tasks_of(timers: Seq<TimerEntry<()>>) -> Seq<usize> {
    timers.map_values(|e: TimerEntry<()>| e.id)
}

/// Takes every deadline that has passed off the wheel and returns the tasks
/// that waited for them, the earliest deadline first.
pub fn expire_due(wheel: &mut TimerWheel, now: u128) -> (ids: Vec<usize>)
    ensures
        ids@ == tasks_of(deadline_queue::due(old(wheel)@, now)),
        final(wheel)@ == deadline_queue::not_due(old(wheel)@, now),
        deadline_queue::in_order(old(wheel)@),
        deadline_queue::in_order(final(wheel)@),
{
    let fired = wheel.heap.take_due(now);
    let mut ids: Vec<usize> = Vec::new();
    let mut i: usize = 0;
    while i < fired.len()
        invariant
            i <= fired@.len(),
            ids@ == tasks_of(fired@.take(i as int)),
        decreases fired.len() - i,
    {
        ids.push(fired[i].id);
        assert(tasks_of(fired@.take(i + 1)) == tasks_of(fired@.take(i as int)).push(
            fired@[i as int].id,
        ));
        i = i + 1;
    }
    assert(fired@.take(i as int) == fired@);
    ids
}

/// A sleep is never over early: the poll that finds it over comes no sooner
/// than its deadline.
pub proof fn law_sleep_not_early(
    before: Sleep,
    cx_before: Context,
    after: Sleep,
    cx_after: Context,
    outcome: Poll<()>,
)
    requires
        Sleep::polls(before, cx_before, after, cx_after, outcome),
        !before.done,
    ensures
        outcome is Ready <==> cx_before.now >= before.deadline,
{
}

/// A sleep that was left pending by its first poll has its task among those of
/// the next expiry that comes no sooner than its deadline.
pub proof fn law_sleep_is_woken(
    before: Sleep,
    cx_before: Context,
    after: Sleep,
    cx_after: Context,
    outcome: Poll<()>,
    now: u128,
)
    requires
        Sleep::polls(before, cx_before, after, cx_after, outcome),
        outcome is Pending,
        before.waker is None,
        deadline_queue::in_order(cx_before.handle.wheel@),
        now >= before.deadline,
    ensures
        tasks_of(deadline_queue::due(cx_after.handle.wheel@, now)).contains(before.id),
{
    let entry = timer(before.deadline, before.id);
    deadline_queue::lemma_inserted_fires(cx_before.handle.wheel@, entry, now);
    let fired = deadline_queue::due(cx_after.handle.wheel@, now);
    let k = choose|k: int| 0 <= k < fired.len() && fired[k] == entry;
    assert(tasks_of(fired)[k] == before.id);
}

/// A sleep that is pending and then given up leaves the wheel as it found it.
pub proof fn law_cancel_restores_wheel(
    before: Sleep,
    cx_before: Context,
    after: Sleep,
    cx_after: Context,
    outcome: Poll<()>,
)
    requires
        Sleep::polls(before, cx_before, after, cx_after, outcome),
        outcome is Pending,
        before.waker is None,
        deadline_queue::in_order(cx_before.handle.wheel@),
    ensures
        !after.done && after.waker is Some,
        cx_after.handle.wheel@.remove_value(timer(after.deadline, after.id))
            == cx_before.handle.wheel@,
{
    let entry = timer(before.deadline, before.id);
    let s = cx_before.handle.wheel@;
    let t = cx_after.handle.wheel@;
    let k = deadline_queue::place(s, entry.deadline, entry.id);
    deadline_queue::lemma_place(s, entry.deadline, entry.id);
    deadline_queue::lemma_insert_in_order(s, entry);
    assert(t[k] == entry);
    t.index_of_first_ensures(entry);
    let j = t.index_of_first(entry).unwrap();
    assert(j <= k);
    assert forall|i: int| j <= i <= k implies #[trigger] t[i] == entry by {
        if j < i && i < k {
            assert(t[j].goes_before(t[i].deadline, t[i].id));
            assert(t[i].goes_before(t[k].deadline, t[k].id));
        }
        assert(t[i].waker == ());
    }
    assert forall|i: int| 0 <= i < s.len() implies #[trigger] t.remove(j)[i] == s[i] by {
        if j <= i && i < k {
            assert(t[i] == entry && t[i + 1] == entry);
        }
    }
    assert(t.remove(j) == s);
}

/// A sleep that is given up takes no deadline off the wheel but its own: those of
/// other tasks stay, and so do those of other sleeps of its task.
pub proof fn law_cancel_keeps_others(
    wheel: Seq<TimerEntry<()>>,
    deadline: u128,
    id: usize,
    other: TimerEntry<()>,
)
    requires
        other != timer(deadline, id),
    ensures
        wheel.remove_value(timer(deadline, id)).contains(other) <==> wheel.contains(other),
{
    let entry = timer(deadline, id);
    let rest = wheel.remove_value(entry);
    wheel.index_of_first_ensures(entry);
    if let Some(k) = wheel.index_of_first(entry) {
        if wheel.contains(other) {
            let i = choose|i: int| 0 <= i < wheel.len() && wheel[i] == other;
            assert(rest[if i < k { i } else { i - 1 }] == other);
        }
        if rest.contains(other) {
            let i = choose|i: int| 0 <= i < rest.len() && rest[i] == other;
            assert(wheel[if i < k { i } else { i + 1 }] == other);
        }
    }
}

/// A sleep lasts as long as it was to: any poll of it that comes before `duration`
/// nanoseconds have passed is pending, and any that comes later is ready. Polling it does
/// not change when it is over; what it leaves behind is a deadline at that very time, for
/// the task that it belongs to, which it leaves by its first pending poll and by no other.
pub proof fn law_sleep_lasts(
    start: Sleep,
    duration: u128,
    cx: Context,
    cx_start: Context,
    before: Sleep,
    cx_left: Context,
    first: Poll<()>,
    cx_before: Context,
    after: Sleep,
    cx_after: Context,
    outcome: Poll<()>,
)
    requires
        lasts(start, duration, cx),
        Sleep::polls(start, cx_start, before, cx_left, first),
        Sleep::polls(before, cx_before, after, cx_after, outcome),
    ensures
        first is Ready <==> cx_start.now >= cx.now + duration,
        first is Ready ==> outcome is Ready && cx_left == cx_start,
        first is Pending ==> {
            &&& outcome is Ready <==> cx_before.now >= cx.now + duration
            &&& cx_left.handle.wheel@ == deadline_queue::inserted(
                cx_start.handle.wheel@,
                TimerEntry {
                    deadline: (cx.now + duration) as u128,
                    id: cx.handle.current_id->0,
                    waker: (),
                },
            )
            &&& cx_left.handle.current_id == cx_start.handle.current_id
            &&& cx_left.queue@ == cx_start.queue@
            &&& cx_left.reactor@ == cx_start.reactor@
            &&& cx_left.blocking@ == cx_start.blocking@
            &&& cx_left.next_blocking_id == cx_start.next_blocking_id
        },
        cx_after == cx_before,
{
}

/// A yield is pending exactly once: its first poll is pending and queues the task once,
/// its second poll is ready and queues nothing.
pub proof fn law_yields_once(
    start: YieldNow,
    cx0: Context,
    mid: YieldNow,
    cx1: Context,
    first: Poll<()>,
    cx2: Context,
    end: YieldNow,
    cx3: Context,
    second: Poll<()>,
)
    requires
        !start.done,
        YieldNow::polls(start, cx0, mid, cx1, first),
        YieldNow::polls(mid, cx2, end, cx3, second),
    ensures
        first is Pending,
        cx1.queue@ == cx0.queue@.push(cx0.waker.spec_id()),
        second == Poll::Ready(()),
        cx3.queue@ == cx2.queue@,
        cx1.handle == cx0.handle && cx1.reactor == cx0.reactor && cx1.blocking == cx0.blocking,
{
}

/// Deadlines belong to their own tasks, each once and in the order of the row.
pub proof fn law_deadlines_wake_their_tasks(
    first: Seq<TimerEntry<()>>,
    then: Seq<TimerEntry<()>>,
    entry: TimerEntry<()>,
)
    ensures
        tasks_of(first + then) == tasks_of(first) + tasks_of(then),
        tasks_of(seq![entry]) == seq![entry.id],
        tasks_of(first).len() == first.len(),
{
    assert(tasks_of(first + then) == tasks_of(first) + tasks_of(then));
    assert(tasks_of(seq![entry]) == seq![entry.id]);
}

/// Giving a sleep up takes back what it has left behind, and nothing else: one that was
/// polled once and is pending leaves the wheel as it was before that poll; one that has
/// not been polled, or is over, leaves it as it is; and the deadline of another task, or
/// another deadline of its task, stays in any case.
pub proof fn law_given_up_sleep_leaves_others(
    before: Sleep,
    cx_before: Context,
    after: Sleep,
    cx_after: Context,
    outcome: Poll<()>,
    timers: Seq<TimerEntry<()>>,
    other: TimerEntry<()>,
)
    requires
        Sleep::polls(before, cx_before, after, cx_after, outcome),
        before.waker is None,
        deadline_queue::in_order(cx_before.handle.wheel@),
    ensures
        after.gives_up(cx_after.handle.wheel@) == cx_before.handle.wheel@,
        before.gives_up(timers) == timers,
        outcome is Ready ==> after.gives_up(timers) == timers,
        other.id != before.id || other.deadline != before.deadline ==> (after.gives_up(
            timers,
        ).contains(other) <==> timers.contains(other)),
{
    if outcome is Pending {
        law_cancel_restores_wheel(before, cx_before, after, cx_after, outcome);
        if other.id != before.id || other.deadline != before.deadline {
            law_cancel_keeps_others(timers, before.deadline, before.id, other);
        }
    }
}

} // verus!
