use vstd::prelude::*;

use crate::deadline_queue;
use crate::deadline_queue::TimerEntry;
use crate::future::{Future, Poll};
use crate::lemmas;
use crate::time;
use crate::time::timer_registry::TimerRegistry;
use crate::waker::TaskWaker;

verus! {

/// What a sleep needs of its runtime while it is polled.
pub struct SleepContext {
    /// Wakes the task that is polled.
    pub waker: TaskWaker,
    /// What the clock shows, in nanoseconds.
    pub now: u128,
    /// The timers that are waiting.
    pub registry: TimerRegistry<TaskWaker>,
}

/// A future that is ready once its deadline has passed.
///
/// The first poll before the deadline leaves a timer in the registry, with the
/// waker of the task that polled. A sleep whose deadline has passed by its
/// first poll never touches the registry.
pub struct Sleep {
    /// When the sleep is over.
    pub deadline: u128,
    /// The timer in the registry, once there is one.
    pub id: Option<usize>,
    /// Whether the sleep has been seen to be over.
    pub done: bool,
}

impl Sleep {
    /// What is left of `timers` when the sleep is given up.
    pub open spec fn gives_up(self, timers: Seq<TimerEntry<TaskWaker>>) -> Seq<
        TimerEntry<TaskWaker>,
    > {
        match self.id {
            Some(id) if !self.done => deadline_queue::without(timers, id),
            _ => timers,
        }
    }

    /// Gives the sleep up: a timer that it may have in the registry is removed.
    pub fn cancel(self, registry: &mut TimerRegistry<TaskWaker>)
        ensures
            final(registry)@ == self.gives_up(old(registry)@),
            final(registry).spec_next_id() == old(registry).spec_next_id(),
    {
        if !self.done {
            if let Some(id) = self.id {
                registry.remove(id);
            }
        }
    }
}

impl Future for Sleep {
    type Context = SleepContext;

    type Output = ();

    open spec fn pollable(&self) -> bool {
        true
    }

    open spec fn polls(
        before: Self,
        cx_before: SleepContext,
        after: Self,
        cx_after: SleepContext,
        outcome: Poll<()>,
    ) -> bool {
        &&& after.deadline == before.deadline
        &&& if before.done || cx_before.now >= before.deadline {
            &&& outcome == Poll::Ready(())
            &&& after.done
            &&& after.id == before.id
            &&& cx_after == cx_before
        } else {
            &&& outcome is Pending
            &&& !after.done
            &&& match before.id {
                Some(id) => after.id == Some(id) && cx_after == cx_before,
                None => {
                    let id = cx_before.registry.spec_next_id();
                    &&& after.id == Some(id)
                    &&& cx_after == (SleepContext { registry: cx_after.registry, ..cx_before })
                    &&& cx_after.registry@ == cx_before.registry@.push(
                        TimerEntry { deadline: before.deadline, id, waker: cx_before.waker },
                    )
                    &&& cx_after.registry.spec_next_id() == (if id == usize::MAX {
                        0
                    } else {
                        id + 1
                    })
                },
            }
        }
    }

    fn poll(&mut self, cx: &mut SleepContext) -> (outcome: Poll<()>) {
        if self.done {
            return Poll::Ready(());
        }
        if cx.now >= self.deadline {
            self.done = true;
            return Poll::Ready(());
        }
        if self.id.is_none() {
            let id = cx.registry.push(self.deadline, cx.waker);
            self.id = Some(id);
        }
        Poll::Pending
    }
}

/// Whether a sleep that has not been polled is one of `duration` nanoseconds from `now`
/// on.
pub open spec fn lasts(future: Sleep, duration: u128, now: u128) -> bool {
    &&& future.deadline == now + duration
    &&& future.id is None
    &&& !future.done
}

/// A future that is ready no sooner than `duration` nanoseconds after `now`.
pub fn sleep(duration: u128, now: u128) -> (future: Sleep)
    requires
        now + duration <= u128::MAX,
    ensures
        lasts(future, duration, now),
{
    Sleep { deadline: now + duration, id: None, done: false }
}

/// A sleep is never over early: the poll that finds it over comes no sooner
/// than its deadline.
pub proof fn law_sleep_not_early(
    before: Sleep,
    cx_before: SleepContext,
    after: Sleep,
    cx_after: SleepContext,
    outcome: Poll<()>,
)
    requires
        Sleep::polls(before, cx_before, after, cx_after, outcome),
        !before.done,
    ensures
        outcome is Ready <==> cx_before.now >= before.deadline,
{
}

/// A sleep that was left pending by its first poll has its task woken by the
/// next expiry that comes no sooner than its deadline.
pub proof fn law_sleep_is_woken(
    before: Sleep,
    cx_before: SleepContext,
    after: Sleep,
    cx_after: SleepContext,
    outcome: Poll<()>,
    now: u128,
)
    requires
        Sleep::polls(before, cx_before, after, cx_after, outcome),
        outcome is Pending,
        before.id is None,
        now >= before.deadline,
    ensures
        time::woken_by(deadline_queue::due(cx_after.registry@, now)).contains(
            cx_before.waker.spec_id(),
        ),
{
    let timers = cx_after.registry@;
    let fires = |e: TimerEntry<TaskWaker>| e.is_due(now);
    let k = timers.len() - 1;
    timers.lemma_filter_contains(fires, k);
    let fired = deadline_queue::due(timers, now);
    let j = choose|j: int| 0 <= j < fired.len() && fired[j] == timers[k];
    assert(time::woken_by(fired)[j] == cx_before.waker.spec_id());
}

/// A sleep that is pending and then given up leaves the registry as it found
/// it, as long as ids have not started over.
pub proof fn law_cancel_restores_registry(
    before: Sleep,
    cx_before: SleepContext,
    after: Sleep,
    cx_after: SleepContext,
    outcome: Poll<()>,
)
    requires
        Sleep::polls(before, cx_before, after, cx_after, outcome),
        outcome is Pending,
        before.id is None,
        deadline_queue::ids_below(cx_before.registry@, cx_before.registry.spec_next_id()),
    ensures
        after.id matches Some(id) && deadline_queue::without(cx_after.registry@, id)
            == cx_before.registry@,
{
    let s = cx_before.registry@;
    let id = cx_before.registry.spec_next_id();
    let entry = TimerEntry { deadline: before.deadline, id, waker: cx_before.waker };
    let keep = |e: TimerEntry<TaskWaker>| e.id != id;
    lemmas::lemma_filter_all(s, keep);
    lemmas::lemma_filter_step(s.push(entry), s.len() as int, keep);
    assert(s.push(entry).take(s.len() as int) == s);
    assert(s.push(entry).take((s.len() + 1) as int) == s.push(entry));
}

/// A sleep lasts as long as it was to: any poll of it that comes before `duration`
/// nanoseconds have passed is pending, and any that comes later is ready. Polling it does
/// not change when it is over; what it leaves behind is a timer at that very time, behind
/// all others, which it leaves by its first pending poll and by no other.
pub proof fn law_sleep_lasts(
    start: Sleep,
    duration: u128,
    from: u128,
    cx_start: SleepContext,
    before: Sleep,
    cx_left: SleepContext,
    first: Poll<()>,
    cx_before: SleepContext,
    after: Sleep,
    cx_after: SleepContext,
    outcome: Poll<()>,
)
    requires
        lasts(start, duration, from),
        Sleep::polls(start, cx_start, before, cx_left, first),
        Sleep::polls(before, cx_before, after, cx_after, outcome),
    ensures
        first is Ready <==> cx_start.now >= from + duration,
        first is Ready ==> outcome is Ready && cx_left == cx_start,
        first is Pending ==> {
            &&& outcome is Ready <==> cx_before.now >= from + duration
            &&& cx_left.registry@ == cx_start.registry@.push(
                TimerEntry {
                    deadline: (from + duration) as u128,
                    id: cx_start.registry.spec_next_id(),
                    waker: cx_start.waker,
                },
            )
            &&& cx_start.registry.spec_next_id() < usize::MAX ==> cx_left.registry.spec_next_id()
                == cx_start.registry.spec_next_id() + 1
            &&& cx_start.registry.spec_next_id() == usize::MAX
                ==> cx_left.registry.spec_next_id() == 0
            &&& before.id == Some(cx_start.registry.spec_next_id()) && after.id == before.id
        },
        cx_after == cx_before,
{
}

/// Timers have ids of their own: as long as ids have not run out, a sleep that leaves a
/// timer behind gives it an id that no timer has, and every id is again lower than the
/// next.
pub proof fn law_timer_ids_are_fresh(
    before: Sleep,
    cx_before: SleepContext,
    after: Sleep,
    cx_after: SleepContext,
    outcome: Poll<()>,
)
    requires
        Sleep::polls(before, cx_before, after, cx_after, outcome),
        before.id is None,
        outcome is Pending,
        deadline_queue::ids_below(cx_before.registry@, cx_before.registry.spec_next_id()),
        cx_before.registry.spec_next_id() < usize::MAX,
    ensures
        deadline_queue::ids_below(cx_after.registry@, cx_after.registry.spec_next_id()),
        after.id matches Some(id) && forall|i: int|
            0 <= i < cx_before.registry@.len() ==> (#[trigger] cx_before.registry@[i]).id != id,
{
    let timers = cx_after.registry@;
    let next = cx_after.registry.spec_next_id();
    assert forall|i: int| 0 <= i < timers.len() implies (#[trigger] timers[i]).id < next by {
        if i < cx_before.registry@.len() {
            assert(timers[i] == cx_before.registry@[i]);
        }
    }
}

/// Giving a sleep up takes back what it has left behind, and nothing else: one that was
/// polled once and is pending leaves the timers as they were before that poll, as long as
/// ids have not started over; one that has not been polled, or is over, leaves them as
/// they are; and a timer with another id stays in any case.
pub proof fn law_given_up_sleep_leaves_others(
    before: Sleep,
    cx_before: SleepContext,
    after: Sleep,
    cx_after: SleepContext,
    outcome: Poll<()>,
    timers: Seq<TimerEntry<TaskWaker>>,
    other: TimerEntry<TaskWaker>,
)
    requires
        Sleep::polls(before, cx_before, after, cx_after, outcome),
        before.id is None,
        deadline_queue::ids_below(cx_before.registry@, cx_before.registry.spec_next_id()),
    ensures
        after.gives_up(cx_after.registry@) == cx_before.registry@,
        before.gives_up(timers) == timers,
        outcome is Ready ==> after.gives_up(timers) == timers,
        after.id != Some(other.id) ==> (after.gives_up(timers).contains(other)
            <==> timers.contains(other)),
{
    if outcome is Pending {
        law_cancel_restores_registry(before, cx_before, after, cx_after, outcome);
        let id = after.id->0;
        let keep = |e: TimerEntry<TaskWaker>| e.id != id;
        if other.id != id {
            if timers.contains(other) {
                let k = choose|k: int| 0 <= k < timers.len() && timers[k] == other;
                timers.lemma_filter_contains(keep, k);
            }
            if timers.filter(keep).contains(other) {
                timers.lemma_filter_contains_rev(keep, other);
            }
        }
    }
}

} // verus!
