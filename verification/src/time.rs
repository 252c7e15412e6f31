pub mod sleep;
pub mod timer_registry;

use vstd::prelude::*;

use crate::context::Context;
use crate::deadline_queue;
use crate::deadline_queue::{DeadlineQueue, TimerEntry};
use crate::future::{Future, Poll};
use crate::runtime_state::TaskId;
use crate::waker::TaskWaker;

verus! {

/// A priority queue of timers. The one with the earliest deadline is on top,
/// and among equal deadlines the one with the lowest id.
pub struct TimerHeap<W> {
    heap: DeadlineQueue<W>,
    next_id: usize,
}

impl<W> View for TimerHeap<W> {
    type V = Seq<TimerEntry<W>>;

    /// The timers in the order in which they fire.
    closed spec fn view(&self) -> Seq<TimerEntry<W>> {
        self.heap@
    }
}

impl<W> TimerHeap<W> {
    /// The id of the next timer.
    pub closed spec fn spec_next_id(&self) -> usize {
        self.next_id
    }

    /// A heap without timers.
    pub fn new() -> (heap: Self)
        ensures
            heap@ == Seq::<TimerEntry<W>>::empty(),
            heap.spec_next_id() == 0,
    {
        TimerHeap { heap: DeadlineQueue::new(), next_id: 0 }
    }

    /// Adds a timer and returns the id to remove it by. Ids count up from 0 and
    /// start over when they run out.
    pub fn push(&mut self, deadline: u128, waker: W) -> (id: usize)
        ensures
            id == old(self).spec_next_id(),
            final(self).spec_next_id() == (if id == usize::MAX {
                0
            } else {
                id + 1
            }),
            final(self)@ == deadline_queue::inserted(
                old(self)@,
                TimerEntry { deadline, id, waker },
            ),
            deadline_queue::in_order(old(self)@),
            deadline_queue::in_order(final(self)@),
    {
        let id = self.next_id;
        self.next_id = id.wrapping_add(1);
        self.heap.push(deadline, id, waker);
        id
    }

    /// Removes the timer with the given id, if it is there.
    pub fn remove(&mut self, target_id: usize)
        ensures
            final(self)@ == deadline_queue::without(old(self)@, target_id),
            final(self).spec_next_id() == old(self).spec_next_id(),
            deadline_queue::in_order(final(self)@),
    {
        self.heap.remove(target_id);
    }

    /// Takes the timer on top off the heap.
    pub fn pop(&mut self) -> (top: Option<TimerEntry<W>>)
        ensures
            deadline_queue::in_order(old(self)@),
            deadline_queue::popped(old(self)@, final(self)@, top),
            final(self).spec_next_id() == old(self).spec_next_id(),
    {
        self.heap.pop()
    }

    /// Whether no timer is waiting.
    pub fn is_empty(&self) -> (empty: bool)
        ensures
            empty == (self@.len() == 0),
    {
        self.heap.is_empty()
    }
}

/// The earliest deadline in the heap, if there is one.
pub fn next_deadline<W>(heap: &TimerHeap<W>) -> (deadline: Option<u128>)
    ensures
        deadline is None <==> heap@.len() == 0,
        deadline matches Some(d) ==> {
            &&& d == heap@[0].deadline
            &&& forall|i: int| 0 <= i < heap@.len() ==> d <= (#[trigger] heap@[i]).deadline
        },
        deadline_queue::in_order(heap@),
{
    match heap.heap.peek() {
        Some(entry) => {
            assert forall|i: int| 0 <= i < heap@.len() implies entry.deadline <= (
            #[trigger] heap@[i]).deadline by {
                assert(heap@[0] == *entry);
            }
            Some(entry.deadline)
        },
        None => None,
    }
}

/// The tasks that a row of timers wakes, in the order of the row.
pub open spec fn woken_by(timers: Seq<TimerEntry<TaskWaker>>) -> Seq<TaskId> {
    timers.map_values(|e: TimerEntry<TaskWaker>| e.waker.spec_id())
}

/// Wakes the task of every timer in `timers`, in order.
pub(crate) fn wake_timers(timers: &Vec<TimerEntry<TaskWaker>>, queue: &mut Vec<TaskId>)
    ensures
        final(queue)@ == old(queue)@ + woken_by(timers@),
{
    let mut i: usize = 0;
    assert(old(queue)@ + woken_by(timers@.take(0)) == old(queue)@);
    while i < timers.len()
        invariant
            i <= timers@.len(),
            queue@ == old(queue)@ + woken_by(timers@.take(i as int)),
        decreases timers.len() - i,
    {
        timers[i].waker.wake_by_ref(queue);
        assert(woken_by(timers@.take(i + 1)) == woken_by(timers@.take(i as int)).push(
            timers@[i as int].waker.spec_id(),
        ));
        i = i + 1;
    }
    assert(timers@.take(i as int) == timers@);
}

/// Takes every timer whose deadline has passed off the heap and wakes its task,
/// the earliest deadline first.
pub fn expire_due(heap: &mut TimerHeap<TaskWaker>, now: u128, queue: &mut Vec<TaskId>)
    ensures
        final(heap)@ == deadline_queue::not_due(old(heap)@, now),
        final(heap).spec_next_id() == old(heap).spec_next_id(),
        final(queue)@ == old(queue)@ + woken_by(deadline_queue::due(old(heap)@, now)),
        deadline_queue::in_order(old(heap)@),
        deadline_queue::in_order(final(heap)@),
{
    let fired = heap.heap.take_due(now);
    wake_timers(&fired, queue);
}

/// A future that is ready once its deadline has passed.
///
/// The first poll before the deadline leaves a timer in the heap, with the
/// waker of the task that polled. A sleep whose deadline has passed by its
/// first poll never touches the heap.
pub struct Sleep {
    /// When the sleep is over.
    pub deadline: u128,
    /// The timer in the heap, once there is one.
    pub id: Option<usize>,
    /// Whether the sleep has been seen to be over.
    pub done: bool,
}

impl Sleep {
    /// What is left of `timers` when the sleep is given up.
    pub open spec fn gives_up(self, timers: Seq<TimerEntry<TaskWaker>>) -> Seq<
        TimerEntry<TaskWaker>,
    > {
        match self.id {
            Some(id) if !self.done => deadline_queue::without(timers, id),
            _ => timers,
        }
    }

    /// Gives the sleep up: a timer that it may have in the heap is removed.
    pub fn cancel(self, heap: &mut TimerHeap<TaskWaker>)
        ensures
            final(heap)@ == self.gives_up(old(heap)@),
            final(heap).spec_next_id() == old(heap).spec_next_id(),
    {
        if !self.done {
            if let Some(id) = self.id {
                heap.remove(id);
            }
        }
    }
}

impl Future for Sleep {
    type Context = Context;

    type Output = ();

    open spec fn pollable(&self) -> bool {
        true
    }

    open spec fn polls(
        before: Self,
        cx_before: Context,
        after: Self,
        cx_after: Context,
        outcome: Poll<()>,
    ) -> bool {
        &&& after.deadline == before.deadline
        &&& if before.done || cx_before.now >= before.deadline {
            &&& outcome == Poll::Ready(())
            &&& after.done
            &&& after.id == before.id
            &&& cx_after == cx_before
        } else {
            &&& outcome is Pending
            &&& !after.done
            &&& match before.id {
                Some(id) => after.id == Some(id) && cx_after == cx_before,
                None => {
                    let id = cx_before.wheel.spec_next_id();
                    let entry = TimerEntry {
                        deadline: before.deadline,
                        id,
                        waker: cx_before.waker,
                    };
                    &&& after.id == Some(id)
                    &&& cx_after == (Context { wheel: cx_after.wheel, ..cx_before })
                    &&& cx_after.wheel@ == deadline_queue::inserted(
                        cx_before.wheel@,
                        entry,
                    )
                    &&& cx_after.wheel.spec_next_id() == (if id == usize::MAX {
                        0
                    } else {
                        id + 1
                    })
                },
            }
        }
    }

    fn poll(&mut self, cx: &mut Context) -> (outcome: Poll<()>) {
        if self.done {
            return Poll::Ready(());
        }
        if cx.now >= self.deadline {
            self.done = true;
            return Poll::Ready(());
        }
        if self.id.is_none() {
            let id = cx.wheel.push(self.deadline, cx.waker);
            self.id = Some(id);
        }
        Poll::Pending
    }
}

/// Whether a sleep that has not been polled is one of `duration` nanoseconds from `now`
/// on.
pub open spec fn lasts(future: Sleep, duration: u128, now: u128) -> bool {
    &&& future.deadline == now + duration
    &&& future.id is None
    &&& !future.done
}

/// A future that is ready no sooner than `duration` nanoseconds after `now`.
pub fn sleep(duration: u128, now: u128) -> (future: Sleep)
    requires
        now + duration <= u128::MAX,
    ensures
        lasts(future, duration, now),
{
    Sleep { deadline: now + duration, id: None, done: false }
}

/// A sleep is never over early: the poll that finds it over comes no sooner
/// than its deadline.
pub proof fn law_sleep_not_early(
    before: Sleep,
    cx_before: Context,
    after: Sleep,
    cx_after: Context,
    outcome: Poll<()>,
)
    requires
        Sleep::polls(before, cx_before, after, cx_after, outcome),
        !before.done,
    ensures
        outcome is Ready <==> cx_before.now >= before.deadline,
{
}

/// A sleep that was left pending by its first poll has its task woken by the
/// next expiry that comes no sooner than its deadline.
pub proof fn law_sleep_is_woken(
    before: Sleep,
    cx_before: Context,
    after: Sleep,
    cx_after: Context,
    outcome: Poll<()>,
    now: u128,
)
    requires
        Sleep::polls(before, cx_before, after, cx_after, outcome),
        outcome is Pending,
        before.id is None,
        deadline_queue::in_order(cx_before.wheel@),
        now >= before.deadline,
    ensures
        woken_by(deadline_queue::due(cx_after.wheel@, now)).contains(cx_before.waker.spec_id()),
{
    let entry = TimerEntry {
        deadline: before.deadline,
        id: cx_before.wheel.spec_next_id(),
        waker: cx_before.waker,
    };
    deadline_queue::lemma_inserted_fires(cx_before.wheel@, entry, now);
    let fired = deadline_queue::due(cx_after.wheel@, now);
    let k = choose|k: int| 0 <= k < fired.len() && fired[k] == entry;
    assert(woken_by(fired)[k] == cx_before.waker.spec_id());
}

/// A sleep that is pending and then given up leaves the heap as it found it, as
/// long as ids have not started over.
pub proof fn law_cancel_restores_heap(
    before: Sleep,
    cx_before: Context,
    after: Sleep,
    cx_after: Context,
    outcome: Poll<()>,
)
    requires
        Sleep::polls(before, cx_before, after, cx_after, outcome),
        outcome is Pending,
        before.id is None,
        deadline_queue::in_order(cx_before.wheel@),
        deadline_queue::ids_below(cx_before.wheel@, cx_before.wheel.spec_next_id()),
    ensures
        after.id matches Some(id) && deadline_queue::without(cx_after.wheel@, id)
            == cx_before.wheel@,
{
    let entry = TimerEntry {
        deadline: before.deadline,
        id: cx_before.wheel.spec_next_id(),
        waker: cx_before.waker,
    };
    deadline_queue::lemma_inserted_then_removed(cx_before.wheel@, entry);
}

/// A sleep lasts as long as it was to: any poll of it that comes before `duration`
/// nanoseconds have passed is pending, and any that comes later is ready. Polling it does
/// not change when it is over; what it leaves behind is a timer at that very time, which
/// it leaves by its first pending poll and by no other.
pub proof fn law_sleep_lasts(
    start: Sleep,
    duration: u128,
    from: u128,
    cx_start: Context,
    before: Sleep,
    cx_left: Context,
    first: Poll<()>,
    cx_before: Context,
    after: Sleep,
    cx_after: Context,
    outcome: Poll<()>,
)
    requires
        lasts(start, duration, from),
        Sleep::polls(start, cx_start, before, cx_left, first),
        Sleep::polls(before, cx_before, after, cx_after, outcome),
    ensures
        first is Ready <==> cx_start.now >= from + duration,
        first is Ready ==> outcome is Ready && cx_left == cx_start,
        first is Pending ==> {
            &&& outcome is Ready <==> cx_before.now >= from + duration
            &&& cx_left.wheel@ == deadline_queue::inserted(
                cx_start.wheel@,
                TimerEntry {
                    deadline: (from + duration) as u128,
                    id: cx_start.wheel.spec_next_id(),
                    waker: cx_start.waker,
                },
            )
            &&& cx_start.wheel.spec_next_id() < usize::MAX ==> cx_left.wheel.spec_next_id()
                == cx_start.wheel.spec_next_id() + 1
            &&& cx_start.wheel.spec_next_id() == usize::MAX ==> cx_left.wheel.spec_next_id() == 0
            &&& before.id == Some(cx_start.wheel.spec_next_id()) && after.id == before.id
            &&& cx_left.queue@ == cx_start.queue@
            &&& cx_left.blocking_wakers@ == cx_start.blocking_wakers@
            &&& cx_left.next_blocking_id == cx_start.next_blocking_id
        },
        cx_after == cx_before,
{
}

/// Timers have ids of their own: as long as ids have not run out, a sleep that leaves a
/// timer behind gives it an id that no timer has, and every id is again lower than the
/// next.
pub proof fn law_timer_ids_are_fresh(
    before: Sleep,
    cx_before: Context,
    after: Sleep,
    cx_after: Context,
    outcome: Poll<()>,
)
    requires
        Sleep::polls(before, cx_before, after, cx_after, outcome),
        before.id is None,
        outcome is Pending,
        deadline_queue::in_order(cx_before.wheel@),
        deadline_queue::ids_below(cx_before.wheel@, cx_before.wheel.spec_next_id()),
        cx_before.wheel.spec_next_id() < usize::MAX,
    ensures
        deadline_queue::ids_below(cx_after.wheel@, cx_after.wheel.spec_next_id()),
        after.id matches Some(id) && forall|i: int|
            0 <= i < cx_before.wheel@.len() ==> (#[trigger] cx_before.wheel@[i]).id != id,
{
    let entry = TimerEntry {
        deadline: before.deadline,
        id: cx_before.wheel.spec_next_id(),
        waker: cx_before.waker,
    };
    deadline_queue::law_ids_stay_below(
        cx_before.wheel@,
        entry,
        entry.id,
        |e: TimerEntry<TaskWaker>| true,
    );
}

/// Timers wake their own tasks, each once and in the order of the row.
pub proof fn law_timers_wake_their_tasks(
    first: Seq<TimerEntry<TaskWaker>>,
    then: Seq<TimerEntry<TaskWaker>>,
    entry: TimerEntry<TaskWaker>,
)
    ensures
        woken_by(first + then) == woken_by(first) + woken_by(then),
        woken_by(seq![entry]) == seq![entry.waker.spec_id()],
        woken_by(first).len() == first.len(),
{
    assert(woken_by(first + then) == woken_by(first) + woken_by(then));
    assert(woken_by(seq![entry]) == seq![entry.waker.spec_id()]);
}

/// Giving a sleep up takes back what it has left behind, and nothing else: one that was
/// polled once and is pending leaves the timers as they were before that poll, as long as
/// ids have not started over; one that has not been polled, or is over, leaves them as
/// they are; and a timer with another id stays in any case.
pub proof fn law_given_up_sleep_leaves_others(
    before: Sleep,
    cx_before: Context,
    after: Sleep,
    cx_after: Context,
    outcome: Poll<()>,
    timers: Seq<TimerEntry<TaskWaker>>,
    other: TimerEntry<TaskWaker>,
)
    requires
        Sleep::polls(before, cx_before, after, cx_after, outcome),
        before.id is None,
        deadline_queue::in_order(cx_before.wheel@),
        deadline_queue::ids_below(cx_before.wheel@, cx_before.wheel.spec_next_id()),
    ensures
        after.gives_up(cx_after.wheel@) == cx_before.wheel@,
        before.gives_up(timers) == timers,
        outcome is Ready ==> after.gives_up(timers) == timers,
        after.id != Some(other.id) ==> (after.gives_up(timers).contains(other)
            <==> timers.contains(other)),
{
    if outcome is Pending {
        law_cancel_restores_heap(before, cx_before, after, cx_after, outcome);
        let id = after.id->0;
        let keep = |e: TimerEntry<TaskWaker>| e.id != id;
        if other.id != id {
            if timers.contains(other) {
                let k = choose|k: int| 0 <= k < timers.len() && timers[k] == other;
                timers.lemma_filter_contains(keep, k);
            }
            if timers.filter(keep).contains(other) {
                timers.lemma_filter_contains_rev(keep, other);
            }
        }
    }
}

} // verus!
