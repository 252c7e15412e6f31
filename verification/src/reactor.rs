use std::collections::HashMap;

use vstd::prelude::*;

use crate::lemmas;
use crate::runtime_state::TaskId;
use crate::waker::TaskWaker;

verus! {

/// The event token by which workers announce that a closure is through.
pub const WAKEN_TOKEN: usize = 0;

/// Which events of a source a task waits for.
#[derive(Clone, Copy, PartialEq, Eq, Structural, Debug)]
pub enum Interest {
    /// The source has bytes to read.
    Readable,
    /// The source takes bytes.
    Writable,
}

/// Knows which task waits for which event token.
pub struct Reactor<W> {
    next_token: usize,
    wakers: HashMap<usize, W>,
}

impl<W> View for Reactor<W> {
    type V = Map<usize, W>;

    /// Whom to wake, by token.
    closed spec fn view(&self) -> Map<usize, W> {
        self.wakers@
    }
}

impl<W> Reactor<W> {
    /// The token that is given out next.
    pub closed spec fn spec_next_token(&self) -> usize {
        self.next_token
    }

    /// A reactor in which nobody waits. The token of the workers is never given
    /// out.
    pub fn new() -> (reactor: Self)
        ensures
            reactor@ == Map::<usize, W>::empty(),
            reactor.spec_next_token() == WAKEN_TOKEN + 1,
    {
        Reactor { next_token: WAKEN_TOKEN + 1, wakers: HashMap::new() }
    }

    /// The token that is given out next.
    pub fn next_token(&self) -> (token: usize)
        ensures
            token == self.spec_next_token(),
    {
        self.next_token
    }

    /// Gives out a token that was not given out before.
    pub fn allocate_token(&mut self) -> (token: usize)
        requires
            old(self).spec_next_token() < usize::MAX,
        ensures
            gives_out(old(self).spec_next_token(), token, final(self).spec_next_token()),
            final(self)@ == old(self)@,
    {
        let token = self.next_token;
        self.next_token = token + 1;
        token
    }

    /// Notes whom to wake when an event comes under `token`, in the place of
    /// whom was noted before.
    pub fn register(&mut self, token: usize, waker: W)
        ensures
            final(self)@ == old(self)@.insert(token, waker),
            final(self).spec_next_token() == old(self).spec_next_token(),
    {
        self.wakers.insert(token, waker);
    }

    /// Forgets whom to wake when an event comes under `token`.
    pub fn deregister(&mut self, token: usize)
        ensures
            final(self)@ == old(self)@.remove(token),
            final(self).spec_next_token() == old(self).spec_next_token(),
    {
        self.wakers.remove(&token);
    }

    /// Whether nobody waits.
    pub fn is_empty(&self) -> (empty: bool)
        ensures
            empty == (self@.dom() == Set::<usize>::empty()),
    {
        proof {
            lemmas::lemma_empty_map(self.wakers@);
        }
        self.wakers.is_empty()
    }
}

/// Whether `token` is given out when `next` is the next one, and `after` is the next one
/// then.
pub open spec fn gives_out(next: usize, token: usize, after: usize) -> bool {
    &&& token == next
    &&& after == token + 1
}

/// Tokens are never used again, and the token of the workers is never given out: of two
/// tokens the one that is given out later is higher, as long as nothing sets the next one
/// back, and neither does giving one out.
pub proof fn law_tokens_are_never_reused(
    next: usize,
    token: usize,
    after: usize,
    later: usize,
    other: usize,
    last: usize,
)
    requires
        gives_out(next, token, after),
        after <= later,
        gives_out(later, other, last),
    ensures
        token < other < last,
        next > 0 ==> token != 0 && other != 0 && last > 0,
{
}

/// Whether `token` is among `tokens`.
pub(crate) fn has_token(tokens: &Vec<usize>, token: usize) -> (found: bool)
    ensures
        found == tokens@.contains(token),
{
    let mut i: usize = 0;
    while i < tokens.len()
        invariant
            i <= tokens@.len(),
            forall|j: int| 0 <= j < i ==> tokens@[j] != token,
        decreases tokens.len() - i,
    {
        if tokens[i] == token {
            assert(tokens@.contains(tokens@[i as int]));
            return true;
        }
        i = i + 1;
    }
    false
}

/// Whether an event under `token` is one that a reactor cannot place: it is not
/// the workers', and nobody waits for it.
pub open spec fn unmatched(wakers: Map<usize, TaskWaker>, token: usize) -> bool {
    token != WAKEN_TOKEN && !wakers.contains_key(token)
}

/// The tasks that wait for events under `tokens`, in the order of the events.
/// Events under the token of the workers are nobody's here.
pub open spec fn waiting_for(tokens: Seq<usize>, wakers: Map<usize, TaskWaker>) -> Seq<TaskId> {
    tokens.filter(|token: usize| token != WAKEN_TOKEN).map_values(
        |token: usize| wakers[token].spec_id(),
    )
}

/// Wakes the task that waits for each event, in the order of the events. An
/// event that nobody waits for is reported by its token, and those after it are
/// left.
pub fn dispatch(
    reactor: &Reactor<TaskWaker>,
    tokens: &Vec<usize>,
    queue: &mut Vec<TaskId>,
) -> (result: Result<(), usize>)
    ensures
        match result {
            Ok(_) => {
                &&& forall|i: int|
                    0 <= i < tokens@.len() ==> !unmatched(reactor@, #[trigger] tokens@[i])
                &&& final(queue)@ == old(queue)@ + waiting_for(tokens@, reactor@)
            },
            Err(token) => exists|k: int|
                {
                    &&& 0 <= k < tokens@.len()
                    &&& #[trigger] tokens@[k] == token
                    &&& unmatched(reactor@, token)
                    &&& forall|i: int| 0 <= i < k ==> !unmatched(reactor@, #[trigger] tokens@[i])
                    &&& final(queue)@ == old(queue)@ + waiting_for(tokens@.take(k), reactor@)
                },
        },
{
    let ghost queue0 = queue@;
    let ghost theirs = |token: usize| token != WAKEN_TOKEN;
    let mut i: usize = 0;
    proof {
        reveal(Seq::filter);
        assert(queue0 + waiting_for(tokens@.take(0), reactor@) == queue0);
    }
    while i < tokens.len()
        invariant
            i <= tokens@.len(),
            theirs == (|token: usize| token != WAKEN_TOKEN),
            queue0 == old(queue)@,
            queue@ == queue0 + waiting_for(tokens@.take(i as int), reactor@),
            forall|j: int| 0 <= j < i ==> !unmatched(reactor@, #[trigger] tokens@[j]),
        decreases tokens.len() - i,
    {
        let token = tokens[i];
        proof {
            lemmas::lemma_filter_step(tokens@, i as int, theirs);
        }
        if token != WAKEN_TOKEN {
            match reactor.wakers.get(&token) {
                Some(waker) => {
                    waker.wake_by_ref(queue);
                },
                None => {
                    assert(tokens@[i as int] == token);
                    return Err(token);
                },
            }
        }
        assert(queue@ == queue0 + waiting_for(tokens@.take(i + 1), reactor@));
        i = i + 1;
    }
    assert(tokens@.take(i as int) == tokens@);
    Ok(())
}

/// Events wake whom they are for, each once and in their order. One row of events after
/// another wakes whom the first wakes and then whom the second wakes; an event alone
/// wakes the task that waits for it, and one of the workers nobody here.
pub proof fn law_events_wake_in_order(
    first: Seq<usize>,
    then: Seq<usize>,
    token: usize,
    wakers: Map<usize, TaskWaker>,
)
    ensures
        waiting_for(first + then, wakers) == waiting_for(first, wakers) + waiting_for(
            then,
            wakers,
        ),
        token != 0 ==> waiting_for(seq![token], wakers) == seq![wakers[token].spec_id()],
        waiting_for(seq![0usize], wakers) == Seq::<TaskId>::empty(),
        unmatched(wakers, token) <==> token != 0 && !wakers.contains_key(token),
{
    let theirs = |token: usize| token != WAKEN_TOKEN;
    let id = |token: usize| wakers[token].spec_id();
    Seq::filter_distributes_over_add(first, then, theirs);
    assert((first.filter(theirs) + then.filter(theirs)).map_values(id) == first.filter(
        theirs,
    ).map_values(id) + then.filter(theirs).map_values(id));
    reveal(Seq::filter);
    let one = seq![token];
    let none = seq![0usize];
    assert(one.drop_last() == Seq::<usize>::empty());
    assert(none.drop_last() == Seq::<usize>::empty());
    assert(one.drop_last().filter(theirs) == Seq::<usize>::empty());
    assert(none.filter(theirs) == Seq::<usize>::empty());
    if token != 0 {
        assert(one.filter(theirs) == one);
    }
    assert(waiting_for(none, wakers) == Seq::<TaskId>::empty());
    if token != 0 {
        assert(waiting_for(one, wakers) == seq![wakers[token].spec_id()]);
    }
}

/// An event that is not of the workers wakes the task that waits for it.
pub proof fn law_event_wakes_its_task(tokens: Seq<usize>, wakers: Map<usize, TaskWaker>, k: int)
    requires
        0 <= k < tokens.len(),
        tokens[k] != 0,
    ensures
        waiting_for(tokens, wakers).contains(wakers[tokens[k]].spec_id()),
{
    let first = tokens.take(k);
    let one = seq![tokens[k]];
    let rest = tokens.skip(k + 1);
    assert(tokens == first + (one + rest));
    law_events_wake_in_order(first, one + rest, tokens[k], wakers);
    law_events_wake_in_order(one, rest, tokens[k], wakers);
    assert(waiting_for(tokens, wakers)[waiting_for(first, wakers).len() as int]
        == wakers[tokens[k]].spec_id());
}

} // verus!
