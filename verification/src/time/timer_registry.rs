use vstd::prelude::*;

use crate::deadline_queue;
use crate::deadline_queue::TimerEntry;
use crate::lemmas;
use crate::runtime_state::TaskId;
use crate::time;
use crate::waker::TaskWaker;

verus! {

/// The timers that are waiting, in the order in which they were added.
pub struct TimerRegistry<W> {
    entries: Vec<TimerEntry<W>>,
    next_id: usize,
}

impl<W> View for TimerRegistry<W> {
    type V = Seq<TimerEntry<W>>;

    /// The timers in the order in which they were added.
    closed spec fn view(&self) -> Seq<TimerEntry<W>> {
        self.entries@
    }
}

impl<W> TimerRegistry<W> {
    /// The id of the next timer.
    pub closed spec fn spec_next_id(&self) -> usize {
        self.next_id
    }

    /// A registry without timers.
    pub fn new() -> (registry: Self)
        ensures
            registry@ == Seq::<TimerEntry<W>>::empty(),
            registry.spec_next_id() == 0,
    {
        TimerRegistry { entries: Vec::new(), next_id: 0 }
    }

    /// Adds a timer and returns the id to remove it by. Ids count up from 0 and
    /// start over when they run out.
    pub fn push(&mut self, deadline: u128, waker: W) -> (id: usize)
        ensures
            id == old(self).spec_next_id(),
            final(self).spec_next_id() == (if id == usize::MAX {
                0
            } else {
                id + 1
            }),
            final(self)@ == old(self)@.push(TimerEntry { deadline, id, waker }),
    {
        let id = self.next_id;
        self.next_id = id.wrapping_add(1);
        self.entries.push(TimerEntry { deadline, id, waker });
        id
    }

    /// Removes the timer with the given id, if it is there.
    pub fn remove(&mut self, target_id: usize)
        ensures
            final(self)@ == deadline_queue::without(old(self)@, target_id),
            final(self).spec_next_id() == old(self).spec_next_id(),
    {
        deadline_queue::retain_others(&mut self.entries, target_id);
    }

    /// Whether no timer is waiting.
    pub fn is_empty(&self) -> (empty: bool)
        ensures
            empty == (self@.len() == 0),
    {
        self.entries.len() == 0
    }

    /// The earliest deadline of all, if there is one.
    pub fn next_deadline(&self) -> (deadline: Option<u128>)
        ensures
            deadline is None <==> self@.len() == 0,
            deadline matches Some(d) ==> {
                &&& exists|i: int| 0 <= i < self@.len() && (#[trigger] self@[i]).deadline == d
                &&& forall|i: int| 0 <= i < self@.len() ==> d <= (#[trigger] self@[i]).deadline
            },
    {
        if self.entries.len() == 0 {
            return None;
        }
        let mut earliest: u128 = self.entries[0].deadline;
        let mut i: usize = 1;
        while i < self.entries.len()
            invariant
                1 <= i <= self@.len(),
                exists|j: int| 0 <= j < i && (#[trigger] self@[j]).deadline == earliest,
                forall|j: int| 0 <= j < i ==> earliest <= (#[trigger] self@[j]).deadline,
            decreases self.entries.len() - i,
        {
            let deadline = self.entries[i].deadline;
            if deadline < earliest {
                earliest = deadline;
                assert(self@[i as int].deadline == earliest);
            }
            i = i + 1;
        }
        Some(earliest)
    }
}

impl TimerRegistry<TaskWaker> {
    /// Removes every timer whose deadline has passed and wakes their tasks, in
    /// the order in which the timers were added.
    pub fn expire_due(&mut self, now: u128, queue: &mut Vec<TaskId>)
        ensures
            final(self)@ == deadline_queue::not_due(old(self)@, now),
            final(self).spec_next_id() == old(self).spec_next_id(),
            final(queue)@ == old(queue)@ + time::woken_by(deadline_queue::due(old(self)@, now)),
    {
        let ghost s = self.entries@;
        let ghost fires = |e: TimerEntry<TaskWaker>| e.is_due(now);
        let ghost waits = |e: TimerEntry<TaskWaker>| !e.is_due(now);
        let mut fired: Vec<TimerEntry<TaskWaker>> = Vec::new();
        let ghost mut seen: int = 0;
        let mut i: usize = 0;
        proof {
            reveal(Seq::filter);
            assert(s.take(0).filter(waits) + s.skip(0) == s);
        }
        while i < self.entries.len()
            invariant
                0 <= seen <= s.len(),
                fires == (|e: TimerEntry<TaskWaker>| e.is_due(now)),
                waits == (|e: TimerEntry<TaskWaker>| !e.is_due(now)),
                i == s.take(seen).filter(waits).len(),
                self.entries@ == s.take(seen).filter(waits) + s.skip(seen),
                fired@ == s.take(seen).filter(fires),
                self.next_id == old(self).next_id,
            decreases self.entries.len() - i,
        {
            proof {
                assert(self.entries@[i as int] == s.skip(seen)[0]);
                lemmas::lemma_filter_step(s, seen, fires);
                lemmas::lemma_filter_step(s, seen, waits);
            }
            if self.entries[i].deadline <= now {
                fired.push(self.entries.remove(i));
            } else {
                i = i + 1;
            }
            assert(self.entries@ == s.take(seen + 1).filter(waits) + s.skip(seen + 1));
            proof {
                seen = seen + 1;
            }
        }
        proof {
            assert(s.take(seen) == s);
            assert(self.entries@ == s.filter(waits));
        }
        time::wake_timers(&fired, queue);
    }
}

} // verus!
