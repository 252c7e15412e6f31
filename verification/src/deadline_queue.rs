use vstd::prelude::*;

use crate::lemmas;

verus! {

/// A timer that is waiting for its deadline.
///
/// Deadlines are nanoseconds on a clock that never runs backwards.
pub struct TimerEntry<W> {
    /// When the timer fires.
    pub deadline: u128,
    /// What the timer is found by when it has to be taken back.
    pub id: usize,
    /// Whom to wake when the timer fires.
    pub waker: W,
}

impl<W> TimerEntry<W> {
    /// Whether this timer goes before one with the given deadline and id: an
    /// earlier deadline goes first, and a lower id among equal deadlines.
    pub open spec fn goes_before(self, deadline: u128, id: usize) -> bool {
        self.deadline < deadline || (self.deadline == deadline && self.id <= id)
    }

    /// Whether the timer fires at `now`.
    pub open spec fn is_due(self, now: u128) -> bool {
        self.deadline <= now
    }
}

/// Timers in the order in which they fire.
pub open spec fn in_order<W>(s: Seq<TimerEntry<W>>) -> bool {
    forall|i: int, j: int|
        0 <= i < j < s.len() ==> (#[trigger] s[i]).goes_before(
            (#[trigger] s[j]).deadline,
            s[j].id,
        )
}

/// How many timers at the front of `s` go before one with this deadline and id.
pub open spec fn place<W>(s: Seq<TimerEntry<W>>, deadline: u128, id: usize) -> int
    decreases s.len(),
{
    if s.len() == 0 {
        0
    } else if s.last().goes_before(deadline, id) {
        s.len() as int
    } else {
        place(s.drop_last(), deadline, id)
    }
}

/// Every id in `s` is lower than `next_id`.
pub open spec fn ids_below<W>(s: Seq<TimerEntry<W>>, next_id: usize) -> bool {
    forall|i: int| 0 <= i < s.len() ==> (#[trigger] s[i]).id < next_id
}

/// `s` with a timer put in its place.
pub open spec fn inserted<W>(s: Seq<TimerEntry<W>>, entry: TimerEntry<W>) -> Seq<TimerEntry<W>> {
    s.insert(place(s, entry.deadline, entry.id), entry)
}

/// The timers of `s` that have not the given id.
pub open spec fn without<W>(s: Seq<TimerEntry<W>>, id: usize) -> Seq<TimerEntry<W>> {
    s.filter(|e: TimerEntry<W>| e.id != id)
}

/// The timers of `s` that fire at `now`.
pub open spec fn due<W>(s: Seq<TimerEntry<W>>, now: u128) -> Seq<TimerEntry<W>> {
    s.filter(|e: TimerEntry<W>| e.is_due(now))
}

/// The timers of `s` that do not fire at `now`.
pub open spec fn not_due<W>(s: Seq<TimerEntry<W>>, now: u128) -> Seq<TimerEntry<W>> {
    s.filter(|e: TimerEntry<W>| !e.is_due(now))
}

/// Whether taking the first timer out of `before` leaves `after` and gives `first`.
pub open spec fn popped<W>(
    before: Seq<TimerEntry<W>>,
    after: Seq<TimerEntry<W>>,
    first: Option<TimerEntry<W>>,
) -> bool {
    &&& first is None <==> before.len() == 0
    &&& first is None ==> after == before
    &&& first matches Some(entry) ==> {
        &&& entry == before[0]
        &&& after == before.skip(1)
    }
}

/// Everything behind the place of a timer that is in order comes after it.
pub proof fn lemma_place<W>(s: Seq<TimerEntry<W>>, deadline: u128, id: usize)
    requires
        in_order(s),
    ensures
        0 <= place(s, deadline, id) <= s.len(),
        forall|i: int|
            0 <= i < place(s, deadline, id) ==> (#[trigger] s[i]).goes_before(deadline, id),
        forall|i: int|
            place(s, deadline, id) <= i < s.len() ==> !(#[trigger] s[i]).goes_before(deadline, id),
    decreases s.len(),
{
    if s.len() > 0 {
        let rest = s.drop_last();
        assert(s.last() == s[s.len() - 1]);
        if !s.last().goes_before(deadline, id) {
            assert forall|i: int, j: int| 0 <= i < j < rest.len() implies (
            #[trigger] rest[i]).goes_before((#[trigger] rest[j]).deadline, rest[j].id) by {
                assert(rest[i] == s[i] && rest[j] == s[j]);
            }
            lemma_place(rest, deadline, id);
            assert forall|i: int| 0 <= i < place(s, deadline, id) implies (
            #[trigger] s[i]).goes_before(deadline, id) by {
                assert(rest[i] == s[i]);
            }
            assert forall|i: int| place(s, deadline, id) <= i < s.len() implies !(
            #[trigger] s[i]).goes_before(deadline, id) by {
                if i < rest.len() {
                    assert(rest[i] == s[i]);
                }
            }
        }
    }
}

/// A timer put in its place leaves the timers in order.
pub proof fn lemma_insert_in_order<W>(s: Seq<TimerEntry<W>>, entry: TimerEntry<W>)
    requires
        in_order(s),
    ensures
        in_order(inserted(s, entry)),
        inserted(s, entry).to_multiset() == s.to_multiset().insert(entry),
{
    lemma_place(s, entry.deadline, entry.id);
    let k = place(s, entry.deadline, entry.id);
    let t = inserted(s, entry);
    assert forall|i: int, j: int| 0 <= i < j < t.len() implies (#[trigger] t[i]).goes_before(
        (#[trigger] t[j]).deadline,
        t[j].id,
    ) by {
        let si = if i < k { i } else { i - 1 };
        let sj = if j < k { j } else { j - 1 };
        if i != k {
            assert(t[i] == s[si]);
        }
        if j != k {
            assert(t[j] == s[sj]);
        }
    }
    vstd::seq_lib::to_multiset_insert(s, k, entry);
}

/// A timer that was put in its place fires once its deadline has passed.
pub proof fn lemma_inserted_fires<W>(s: Seq<TimerEntry<W>>, entry: TimerEntry<W>, now: u128)
    requires
        in_order(s),
        entry.is_due(now),
    ensures
        due(inserted(s, entry), now).contains(entry),
{
    lemma_place(s, entry.deadline, entry.id);
    let t = inserted(s, entry);
    let k = place(s, entry.deadline, entry.id);
    assert(t[k] == entry);
    t.lemma_filter_contains(|e: TimerEntry<W>| e.is_due(now), k);
}

/// A timer that was put in its place under an id of its own and then removed
/// leaves the others as they were.
pub proof fn lemma_inserted_then_removed<W>(s: Seq<TimerEntry<W>>, entry: TimerEntry<W>)
    requires
        in_order(s),
        forall|i: int| 0 <= i < s.len() ==> (#[trigger] s[i]).id != entry.id,
    ensures
        without(inserted(s, entry), entry.id) == s,
{
    lemma_place(s, entry.deadline, entry.id);
    let k = place(s, entry.deadline, entry.id);
    let keep = |e: TimerEntry<W>| e.id != entry.id;
    let t = inserted(s, entry);
    lemmas::lemma_filter_step(t, k, keep);
    assert(t.take(k) == s.take(k));
    assert forall|i: int| 0 <= i < s.take(k).len() implies keep(#[trigger] s.take(k)[i]) by {
        assert(s.take(k)[i] == s[i]);
    }
    lemmas::lemma_filter_all(s.take(k), keep);
    assert forall|i: int| 0 <= i < s.skip(k).len() implies keep(#[trigger] s.skip(k)[i]) by {
        assert(s.skip(k)[i] == s[i + k]);
    }
    lemmas::lemma_filter_all(s.skip(k), keep);
    assert(t.skip(k + 1) == s.skip(k));
    assert(t == t.take(k + 1) + t.skip(k + 1));
    Seq::filter_distributes_over_add(t.take(k + 1), t.skip(k + 1), keep);
    assert(s == s.take(k) + s.skip(k));
}

/// Ids that are given out in turn are never given out twice: a timer that gets
/// the next id keeps every id below the one after it, and so does keeping only
/// some of the timers.
pub proof fn law_ids_stay_below<W>(
    s: Seq<TimerEntry<W>>,
    entry: TimerEntry<W>,
    next_id: usize,
    keep: spec_fn(TimerEntry<W>) -> bool,
)
    requires
        ids_below(s, next_id),
        in_order(s),
        entry.id == next_id,
        next_id < usize::MAX,
    ensures
        ids_below(inserted(s, entry), (next_id + 1) as usize),
        ids_below(s.push(entry), (next_id + 1) as usize),
        ids_below(s.filter(keep), next_id),
{
    lemma_place(s, entry.deadline, entry.id);
    let k = place(s, entry.deadline, entry.id);
    let t = inserted(s, entry);
    assert forall|i: int| 0 <= i < t.len() implies (#[trigger] t[i]).id < next_id + 1 by {
        if i < k {
            assert(t[i] == s[i]);
        } else if i > k {
            assert(t[i] == s[i - 1]);
        }
    }
    let kept = s.filter(keep);
    assert forall|i: int| 0 <= i < kept.len() implies (#[trigger] kept[i]).id < next_id by {
        assert(kept.contains(kept[i]));
        s.lemma_filter_contains_rev(keep, kept[i]);
    }
}

/// Keeping some of the timers keeps them in order.
pub proof fn lemma_filter_in_order<W>(s: Seq<TimerEntry<W>>, keep: spec_fn(TimerEntry<W>) -> bool)
    requires
        in_order(s),
    ensures
        in_order(s.filter(keep)),
    decreases s.len(),
{
    reveal(Seq::filter);
    if s.len() > 0 {
        let rest = s.drop_last();
        assert forall|i: int, j: int| 0 <= i < j < rest.len() implies (
        #[trigger] rest[i]).goes_before((#[trigger] rest[j]).deadline, rest[j].id) by {
            assert(rest[i] == s[i] && rest[j] == s[j]);
        }
        lemma_filter_in_order(rest, keep);
        let kept = rest.filter(keep);
        if keep(s.last()) {
            let t = kept.push(s.last());
            assert forall|i: int, j: int| 0 <= i < j < t.len() implies (
            #[trigger] t[i]).goes_before((#[trigger] t[j]).deadline, t[j].id) by {
                if j == kept.len() {
                    assert(kept.contains(kept[i]));
                    rest.lemma_filter_contains_rev(keep, kept[i]);
                    let k = choose|k: int| 0 <= k < rest.len() && rest[k] == kept[i];
                    assert(s[k] == kept[i]);
                    assert(s[s.len() - 1] == s.last());
                } else {
                    assert(t[i] == kept[i] && t[j] == kept[j]);
                }
            }
        }
    }
}

/// Takes every timer with the given id out of a list.
pub(crate) fn retain_others<W>(entries: &mut Vec<TimerEntry<W>>, id: usize)
    ensures
        final(entries)@ == without(old(entries)@, id),
{
    let ghost s = entries@;
    let ghost keep = |e: TimerEntry<W>| e.id != id;
    let ghost mut seen: int = 0;
    let mut i: usize = 0;
    proof {
        reveal(Seq::filter);
        assert(s.take(0).filter(keep) + s.skip(0) == s);
    }
    while i < entries.len()
        invariant
            0 <= seen <= s.len(),
            keep == (|e: TimerEntry<W>| e.id != id),
            i == s.take(seen).filter(keep).len(),
            entries@ == s.take(seen).filter(keep) + s.skip(seen),
        decreases entries.len() - i,
    {
        proof {
            assert(entries@[i as int] == s.skip(seen)[0]);
            lemmas::lemma_filter_step(s, seen, keep);
        }
        if entries[i].id == id {
            let _ = entries.remove(i);
        } else {
            i = i + 1;
        }
        assert(entries@ == s.take(seen + 1).filter(keep) + s.skip(seen + 1));
        proof {
            seen = seen + 1;
        }
    }
    proof {
        assert(s.take(seen) == s);
        assert(entries@ == s.filter(keep));
    }
}

/// Timers ordered by deadline, the earliest first.
pub struct DeadlineQueue<W> {
    entries: Vec<TimerEntry<W>>,
}

impl<W> View for DeadlineQueue<W> {
    type V = Seq<TimerEntry<W>>;

    /// The timers in the order in which they fire.
    closed spec fn view(&self) -> Seq<TimerEntry<W>> {
        self.entries@
    }
}

impl<W> DeadlineQueue<W> {
    #[verifier::type_invariant]
    spec fn wf(self) -> bool {
        in_order(self.entries@)
    }

    /// A queue without timers.
    pub fn new() -> (queue: Self)
        ensures
            queue@ == Seq::<TimerEntry<W>>::empty(),
    {
        DeadlineQueue { entries: Vec::new() }
    }

    /// Whether no timer is waiting.
    pub fn is_empty(&self) -> (empty: bool)
        ensures
            empty == (self@.len() == 0),
    {
        self.entries.len() == 0
    }

    /// The timer that fires first.
    pub fn peek(&self) -> (first: Option<&TimerEntry<W>>)
        ensures
            first is None <==> self@.len() == 0,
            first matches Some(entry) ==> *entry == self@[0],
            in_order(self@),
    {
        proof {
            use_type_invariant(self);
        }
        if self.entries.len() == 0 {
            None
        } else {
            Some(&self.entries[0])
        }
    }

    /// Adds a timer.
    pub fn push(&mut self, deadline: u128, id: usize, waker: W)
        ensures
            final(self)@ == inserted(old(self)@, TimerEntry { deadline, id, waker }),
            in_order(old(self)@),
            in_order(final(self)@),
    {
        proof {
            use_type_invariant(&*self);
        }
        let mut entries: Vec<TimerEntry<W>> = Vec::new();
        std::mem::swap(&mut self.entries, &mut entries);
        let ghost s = entries@;
        let ghost entry = TimerEntry { deadline, id, waker };
        proof {
            lemma_place(s, deadline, id);
            lemma_insert_in_order(s, entry);
        }
        let mut low: usize = 0;
        let mut high: usize = entries.len();
        while low < high
            invariant
                entries@ == s,
                low <= place(s, deadline, id) <= high <= s.len(),
                forall|i: int|
                    0 <= i < place(s, deadline, id) ==> (#[trigger] s[i]).goes_before(deadline, id),
                forall|i: int|
                    place(s, deadline, id) <= i < s.len() ==> !(#[trigger] s[i]).goes_before(
                        deadline,
                        id,
                    ),
            decreases high - low,
        {
            let mid: usize = low + (high - low) / 2;
            let other = &entries[mid];
            if other.deadline < deadline || (other.deadline == deadline && other.id <= id) {
                low = mid + 1;
            } else {
                high = mid;
            }
        }
        entries.insert(low, TimerEntry { deadline, id, waker });
        self.entries = entries;
    }

    /// Takes out the timer that fires first.
    pub fn pop(&mut self) -> (first: Option<TimerEntry<W>>)
        ensures
            in_order(old(self)@),
            popped(old(self)@, final(self)@, first),
    {
        proof {
            use_type_invariant(&*self);
        }
        let mut entries: Vec<TimerEntry<W>> = Vec::new();
        std::mem::swap(&mut self.entries, &mut entries);
        if entries.len() == 0 {
            assert(self@ == old(self)@);
            None
        } else {
            let first = entries.remove(0);
            assert(entries@ == old(self)@.skip(1));
            self.entries = entries;
            Some(first)
        }
    }

    /// Takes out every timer with the given id.
    pub fn remove(&mut self, id: usize)
        ensures
            final(self)@ == without(old(self)@, id),
            in_order(old(self)@),
            in_order(final(self)@),
    {
        proof {
            use_type_invariant(&*self);
        }
        let mut entries: Vec<TimerEntry<W>> = Vec::new();
        std::mem::swap(&mut self.entries, &mut entries);
        proof {
            lemma_filter_in_order(entries@, |e: TimerEntry<W>| e.id != id);
        }
        retain_others(&mut entries, id);
        self.entries = entries;
    }

    /// Takes out the first timer with the given deadline and id, if there is one.
    pub fn take_back(&mut self, deadline: u128, id: usize) -> (taken: Option<TimerEntry<W>>)
        ensures
            in_order(old(self)@),
            in_order(final(self)@),
            match taken {
                Some(entry) => exists|k: int|
                    {
                        &&& 0 <= k < old(self)@.len()
                        &&& #[trigger] old(self)@[k] == entry
                        &&& entry.deadline == deadline && entry.id == id
                        &&& forall|i: int|
                            0 <= i < k ==> (#[trigger] old(self)@[i]).deadline != deadline
                                || old(self)@[i].id != id
                        &&& final(self)@ == old(self)@.remove(k)
                    },
                None => {
                    &&& forall|i: int|
                        0 <= i < old(self)@.len() ==> (#[trigger] old(self)@[i]).deadline
                            != deadline || old(self)@[i].id != id
                    &&& final(self)@ == old(self)@
                },
            },
    {
        proof {
            use_type_invariant(&*self);
        }
        let mut entries: Vec<TimerEntry<W>> = Vec::new();
        std::mem::swap(&mut self.entries, &mut entries);
        let ghost s = entries@;
        let mut k: usize = 0;
        while k < entries.len() && (entries[k].deadline != deadline || entries[k].id != id)
            invariant
                entries@ == s,
                k <= s.len(),
                forall|i: int|
                    0 <= i < k ==> (#[trigger] s[i]).deadline != deadline || s[i].id != id,
            decreases entries.len() - k,
        {
            k = k + 1;
        }
        if k < entries.len() {
            let entry = entries.remove(k);
            assert(old(self)@[k as int] == entry);
            assert forall|i: int, j: int| 0 <= i < j < entries@.len() implies (
            #[trigger] entries@[i]).goes_before(
                (#[trigger] entries@[j]).deadline,
                entries@[j].id,
            ) by {
                let si = if i < k { i } else { i + 1 };
                let sj = if j < k { j } else { j + 1 };
                assert(entries@[i] == s[si] && entries@[j] == s[sj]);
            }
            self.entries = entries;
            Some(entry)
        } else {
            self.entries = entries;
            None
        }
    }

    /// Takes out every timer that fires at `now`, in the order in which they
    /// fire.
    pub fn take_due(&mut self, now: u128) -> (fired: Vec<TimerEntry<W>>)
        ensures
            fired@ == due(old(self)@, now),
            final(self)@ == not_due(old(self)@, now),
            in_order(old(self)@),
            in_order(fired@),
            in_order(final(self)@),
    {
        proof {
            use_type_invariant(&*self);
        }
        let mut entries: Vec<TimerEntry<W>> = Vec::new();
        std::mem::swap(&mut self.entries, &mut entries);
        let ghost s = entries@;
        let mut k: usize = 0;
        while k < entries.len() && entries[k].deadline <= now
            invariant
                entries@ == s,
                k <= s.len(),
                forall|i: int| 0 <= i < k ==> (#[trigger] s[i]).is_due(now),
            decreases entries.len() - k,
        {
            k = k + 1;
        }
        let rest = entries.split_off(k);
        proof {
            let fires = |e: TimerEntry<W>| e.is_due(now);
            let waits = |e: TimerEntry<W>| !e.is_due(now);
            assert forall|i: int| k <= i < s.len() implies !(#[trigger] s[i]).is_due(now) by {
                if k < i {
                    assert(s[k as int].goes_before(s[i].deadline, s[i].id));
                }
            }
            lemmas::lemma_filter_split(s, k as int, fires, waits);
            lemma_filter_in_order(s, fires);
            lemma_filter_in_order(s, waits);
            assert(entries@ == s.take(k as int));
            assert(rest@ == s.skip(k as int));
        }
        self.entries = rest;
        entries
    }
}

/// How long a runtime parks at `now`: until the earliest deadline, not at all if it has
/// passed, and for an event if there is no deadline.
pub open spec fn park_timeout<W>(wheel: Seq<TimerEntry<W>>, now: u128) -> Option<u128> {
    if wheel.len() == 0 {
        None
    } else if wheel[0].deadline <= now {
        Some(0)
    } else {
        Some((wheel[0].deadline - now) as u128)
    }
}

/// A runtime parks for just as long as its earliest deadline has to wait: it is back
/// no later than any deadline that lies ahead, and not before the earliest.
pub proof fn law_park_until_earliest_deadline<W>(wheel: Seq<TimerEntry<W>>, now: u128)
    requires
        in_order(wheel),
    ensures
        park_timeout(wheel, now) is None <==> wheel.len() == 0,
        park_timeout(wheel, now) matches Some(timeout) ==> {
            &&& forall|i: int|
                0 <= i < wheel.len() ==> timeout == 0 || now + timeout <= (
                #[trigger] wheel[i]).deadline
            &&& exists|i: int|
                0 <= i < wheel.len() && (#[trigger] wheel[i]).deadline <= now + timeout
            &&& timeout == 0 <==> exists|i: int|
                0 <= i < wheel.len() && (#[trigger] wheel[i]).is_due(now)
        },
{
    if wheel.len() > 0 {
        assert(wheel[0].deadline <= now + park_timeout(wheel, now)->0);
        assert forall|i: int| 0 <= i < wheel.len() implies wheel[0].deadline <= (
        #[trigger] wheel[i]).deadline by {
            if i > 0 {
                assert(wheel[0].goes_before(wheel[i].deadline, wheel[i].id));
            }
        }
    }
}

/// Timers fire by their deadlines: of two in order, the one in front has the earlier
/// deadline, or the same and an id that is no higher.
pub proof fn law_order_goes_by_deadlines<W>(s: Seq<TimerEntry<W>>)
    ensures
        in_order(s) <==> (forall|i: int, j: int|
            0 <= i < j < s.len() ==> (#[trigger] s[i]).deadline < (#[trigger] s[j]).deadline || (
            s[i].deadline == s[j].deadline && s[i].id <= s[j].id)),
{
    if in_order(s) {
        assert forall|i: int, j: int| 0 <= i < j < s.len() implies (#[trigger] s[i]).deadline < (
        #[trigger] s[j]).deadline || (s[i].deadline == s[j].deadline && s[i].id <= s[j].id) by {
            assert(s[i].goes_before(s[j].deadline, s[j].id));
        }
    }
}

/// A timer that is added stands among those that were there, which stay as they were:
/// behind every one that fires no later, by its deadline and then by its id, and before
/// all others.
pub proof fn law_added_timer_takes_its_place<W>(s: Seq<TimerEntry<W>>, entry: TimerEntry<W>)
    requires
        in_order(s),
    ensures
        exists|k: int|
            {
                &&& 0 <= k <= s.len()
                &&& inserted(s, entry) == #[trigger] s.insert(k, entry)
                &&& forall|i: int|
                    0 <= i < k ==> (#[trigger] s[i]).deadline < entry.deadline || (s[i].deadline
                        == entry.deadline && s[i].id <= entry.id)
                &&& forall|i: int|
                    k <= i < s.len() ==> (#[trigger] s[i]).deadline > entry.deadline || (
                    s[i].deadline == entry.deadline && s[i].id > entry.id)
            },
{
    lemma_place(s, entry.deadline, entry.id);
    let k = place(s, entry.deadline, entry.id);
    assert(inserted(s, entry) == s.insert(k, entry));
    assert forall|i: int| k <= i < s.len() implies (#[trigger] s[i]).deadline > entry.deadline || (
    s[i].deadline == entry.deadline && s[i].id > entry.id) by {
        assert(!s[i].goes_before(entry.deadline, entry.id));
    }
    assert forall|i: int| 0 <= i < k implies (#[trigger] s[i]).deadline < entry.deadline || (
    s[i].deadline == entry.deadline && s[i].id <= entry.id) by {
        assert(s[i].goes_before(entry.deadline, entry.id));
    }
}

/// The timer that is taken out first is one with the earliest deadline of all, and with
/// it the others are those that were there. There is one as long as there are timers.
pub proof fn law_first_is_earliest<W>(
    before: Seq<TimerEntry<W>>,
    after: Seq<TimerEntry<W>>,
    first: Option<TimerEntry<W>>,
)
    requires
        in_order(before),
        popped(before, after, first),
    ensures
        first is None <==> before.len() == 0,
        first is None ==> after.len() == 0,
        first matches Some(entry) ==> {
            &&& before == seq![entry] + after
            &&& forall|i: int| 0 <= i < before.len() ==> entry.deadline <= (
            #[trigger] before[i]).deadline
        },
        in_order(after),
{
    law_order_goes_by_deadlines(before);
    if let Some(entry) = first {
        assert(before == seq![entry] + after);
        assert forall|i: int| 0 <= i < before.len() implies entry.deadline <= (
        #[trigger] before[i]).deadline by {
            if i > 0 {
                assert(before[0].deadline <= before[i].deadline);
            }
        }
        assert forall|i: int, j: int| 0 <= i < j < after.len() implies (
        #[trigger] after[i]).goes_before((#[trigger] after[j]).deadline, after[j].id) by {
            assert(after[i] == before[i + 1] && after[j] == before[j + 1]);
        }
    }
}

/// A timer is due exactly if its deadline has passed or is now, whoever it is for. The due
/// ones and the others keep their order, and none is lost or counted twice: what is due
/// of two rows of timers is what is due of the one and then of the other.
pub proof fn law_due_goes_by_deadline<W>(
    first: Seq<TimerEntry<W>>,
    then: Seq<TimerEntry<W>>,
    entry: TimerEntry<W>,
    now: u128,
)
    ensures
        due(first + then, now) == due(first, now) + due(then, now),
        not_due(first + then, now) == not_due(first, now) + not_due(then, now),
        due(seq![entry], now) == (if entry.deadline <= now {
            seq![entry]
        } else {
            Seq::empty()
        }),
        not_due(seq![entry], now) == (if entry.deadline <= now {
            Seq::empty()
        } else {
            seq![entry]
        }),
        due(Seq::<TimerEntry<W>>::empty(), now).len() == 0,
        not_due(Seq::<TimerEntry<W>>::empty(), now).len() == 0,
{
    let fires = |e: TimerEntry<W>| e.is_due(now);
    let waits = |e: TimerEntry<W>| !e.is_due(now);
    Seq::filter_distributes_over_add(first, then, fires);
    Seq::filter_distributes_over_add(first, then, waits);
    let one = seq![entry];
    assert(one[0] == entry);
    if entry.deadline <= now {
        lemmas::lemma_filter_all(one, fires);
        lemmas::lemma_filter_none(one, waits);
    } else {
        lemmas::lemma_filter_all(one, waits);
        lemmas::lemma_filter_none(one, fires);
    }
    lemmas::lemma_filter_none(Seq::<TimerEntry<W>>::empty(), fires);
    lemmas::lemma_filter_none(Seq::<TimerEntry<W>>::empty(), waits);
}

/// Removing by an id takes out the timers with that id and no others, and leaves the
/// others in their order.
pub proof fn law_removing_goes_by_id<W>(
    first: Seq<TimerEntry<W>>,
    then: Seq<TimerEntry<W>>,
    entry: TimerEntry<W>,
    id: usize,
)
    ensures
        without(first + then, id) == without(first, id) + without(then, id),
        without(seq![entry], id) == (if entry.id == id {
            Seq::empty()
        } else {
            seq![entry]
        }),
        without(Seq::<TimerEntry<W>>::empty(), id).len() == 0,
{
    let keep = |e: TimerEntry<W>| e.id != id;
    Seq::filter_distributes_over_add(first, then, keep);
    let one = seq![entry];
    assert(one[0] == entry);
    if entry.id == id {
        lemmas::lemma_filter_none(one, keep);
    } else {
        lemmas::lemma_filter_all(one, keep);
    }
    lemmas::lemma_filter_none(Seq::<TimerEntry<W>>::empty(), keep);
}

} // verus!
