use vstd::prelude::*;

use crate::future::{Future, Poll};

verus! {

/// Moves the items of an array into a vector, by `Vec::from`: the vector holds
/// the array's items in the array's order.
#[verifier::external_body]
fn vec_from_array<T, const N: usize>(items: [T; N]) -> (v: Vec<T>)
    ensures
        v@ == items@,
{
    Vec::from(items)
}

/// Moves the items of a vector into an array, by `<[T; N]>::try_from`: this
/// succeeds exactly when the vector holds `N` items, and the array then holds
/// them in the vector's order; otherwise the vector comes back.
#[verifier::external_body]
fn array_from_vec<T, const N: usize>(items: Vec<T>) -> (r: Result<[T; N], Vec<T>>)
    ensures
        r is Ok <==> items@.len() == N,
        r matches Ok(a) ==> a@ == items@,
        r matches Err(v) ==> v@ == items@,
{
    <[T; N]>::try_from(items)
}

/// A future that polls `N` futures of one type together and finishes with all
/// their outputs, in the order in which the futures were given.
#[verifier::reject_recursive_types(F)]
pub struct JoinAll<F: Future, const N: usize> {
    futures: Vec<Option<F>>,
    outputs: Vec<Option<F::Output>>,
    remaining: usize,
}

/// How many slots still hold a future.
pub open spec fn unfinished<F>(futures: Seq<Option<F>>) -> nat
    decreases futures.len(),
{
    if futures.len() == 0 {
        0
    } else {
        unfinished(futures.drop_last()) + if futures.last() is Some { 1nat } else { 0 }
    }
}

/// Replacing the slot at `i` changes the count by that slot alone.
proof fn lemma_unfinished_update<F>(futures: Seq<Option<F>>, i: int, slot: Option<F>)
    requires
        0 <= i < futures.len(),
    ensures
        unfinished(futures.update(i, slot)) == unfinished(futures) + (if slot is Some {
            1int
        } else {
            0
        }) - (if futures[i] is Some {
            1int
        } else {
            0
        }),
    decreases futures.len(),
{
    let updated = futures.update(i, slot);
    if i == futures.len() - 1 {
        assert(updated.drop_last() == futures.drop_last());
    } else {
        lemma_unfinished_update(futures.drop_last(), i, slot);
        assert(updated.drop_last() == futures.drop_last().update(i, slot));
    }
}

/// The count is zero exactly when no slot holds a future.
proof fn lemma_unfinished_zero<F>(futures: Seq<Option<F>>)
    ensures
        unfinished(futures) == 0 <==> (forall|i: int|
            0 <= i < futures.len() ==> (#[trigger] futures[i]) is None),
    decreases futures.len(),
{
    if futures.len() > 0 {
        let rest = futures.drop_last();
        lemma_unfinished_zero(rest);
        assert(futures[futures.len() - 1] == futures.last());
        assert(forall|i: int| 0 <= i < rest.len() ==> rest[i] == #[trigger] futures[i]);
    }
}

/// What becomes of one slot in a poll: a slot that holds a future has it
/// polled, keeps it if it is pending and exchanges it for its output if it is
/// ready; a slot without a future is left alone.
pub open spec fn slot_polled<F: Future>(
    future: Option<F>,
    output: Option<F::Output>,
    cx: F::Context,
    future_after: Option<F>,
    output_after: Option<F::Output>,
    cx_after: F::Context,
) -> bool {
    match future {
        None => future_after is None && output_after == output && cx_after == cx,
        Some(f) => exists|f_after: F, outcome: Poll<F::Output>| #[trigger]
            F::polls(f, cx, f_after, cx_after, outcome) && match outcome {
                Poll::Ready(v) => future_after is None && output_after == Some(v),
                Poll::Pending => future_after == Some(f_after) && output_after == output,
            },
    }
}

/// All slots polled from the first to the last, each handing the context on to
/// the next: `cxs[i]` is the context that slot `i` is polled with.
pub open spec fn slots_polled<F: Future>(
    futures: Seq<Option<F>>,
    outputs: Seq<Option<F::Output>>,
    futures_after: Seq<Option<F>>,
    outputs_after: Seq<Option<F::Output>>,
    cxs: Seq<F::Context>,
) -> bool {
    &&& futures_after.len() == futures.len()
    &&& outputs_after.len() == outputs.len()
    &&& cxs.len() == futures.len() + 1
    &&& forall|i: int|
        0 <= i < futures.len() ==> #[trigger] slot_polled(
            futures[i],
            outputs[i],
            cxs[i],
            futures_after[i],
            outputs_after[i],
            cxs[i + 1],
        )
}

impl<F: Future, const N: usize> JoinAll<F, N> {
    /// The futures that have not finished, each in its slot.
    pub closed spec fn spec_futures(&self) -> Seq<Option<F>> {
        self.futures@
    }

    /// The outputs of the futures that have finished, each in its slot.
    pub closed spec fn spec_outputs(&self) -> Seq<Option<F::Output>> {
        self.outputs@
    }

    /// Whether these futures are joined, and none has been polled.
    pub open spec fn joins(&self, futures: Seq<F>) -> bool {
        &&& self.spec_futures() == Seq::new(N as nat, |i: int| Some(futures[i]))
        &&& self.spec_outputs() == Seq::new(N as nat, |i: int| None::<F::Output>)
    }

    /// There are `N` slots, and every one holds either a future that can be polled or
    /// an output.
    pub open spec fn in_progress(&self) -> bool {
        &&& self.spec_futures().len() == N
        &&& self.spec_outputs().len() == N
        &&& forall|i: int|
            0 <= i < N ==> {
                ||| self.spec_futures()[i] is None && (#[trigger] self.spec_outputs()[i]) is Some
                ||| self.spec_outputs()[i] is None && (self.spec_futures()[i] matches Some(f)
                    && f.pollable())
            }
    }

    /// There is one slot per future, and the count of unfinished ones is right.
    pub closed spec fn wf(&self) -> bool {
        &&& self.futures@.len() == N
        &&& self.outputs@.len() == N
        &&& self.remaining == unfinished(self.futures@)
    }

    /// Joins the given futures.
    pub fn new(futures: [F; N]) -> (join: Self)
        ensures
            join.wf(),
            join.joins(futures@),
    {
        let mut rest = vec_from_array(futures);
        let mut slots: Vec<Option<F>> = Vec::new();
        let mut outputs: Vec<Option<F::Output>> = Vec::new();
        let mut i: usize = 0;
        while i < N
            invariant
                i <= N,
                rest@ == futures@.subrange(i as int, N as int),
                futures@.len() == N,
                slots@ == Seq::new(i as nat, |j: int| Some(futures@[j])),
                outputs@ == Seq::new(i as nat, |j: int| None::<F::Output>),
                unfinished(slots@) == i,
            decreases N - i,
        {
            let f = rest.remove(0);
            slots.push(Some(f));
            outputs.push(None);
            i = i + 1;
            assert(slots@.drop_last() == Seq::new((i - 1) as nat, |j: int| Some(futures@[j])));
        }
        JoinAll { futures: slots, outputs, remaining: N }
    }
}

impl<F: Future, const N: usize> Future for JoinAll<F, N> {
    type Context = F::Context;

    type Output = [F::Output; N];

    open spec fn pollable(&self) -> bool {
        self.wf() && self.in_progress()
    }

    /// Every unfinished future is polled once, in slot order. If none is left
    /// unfinished the outputs are handed over in slot order; otherwise those
    /// that have arrived are kept for a later poll.
    open spec fn polls(
        before: Self,
        cx_before: F::Context,
        after: Self,
        cx_after: F::Context,
        outcome: Poll<[F::Output; N]>,
    ) -> bool {
        exists|outputs: Seq<Option<F::Output>>, cxs: Seq<F::Context>|
            {
                &&& #[trigger] slots_polled(
                    before.spec_futures(),
                    before.spec_outputs(),
                    after.spec_futures(),
                    outputs,
                    cxs,
                )
                &&& cxs[0] == cx_before
                &&& cxs[N as int] == cx_after
                &&& match outcome {
                    Poll::Pending => {
                        &&& exists|i: int|
                            0 <= i < N && (#[trigger] after.spec_futures()[i]) is Some
                        &&& after.spec_outputs() == outputs
                    },
                    Poll::Ready(values) => {
                        &&& forall|i: int|
                            0 <= i < N ==> (#[trigger] after.spec_futures()[i]) is None
                        &&& outputs == Seq::new(N as nat, |i: int| Some(values@[i]))
                        &&& after.spec_outputs() == Seq::new(N as nat, |i: int| None::<F::Output>)
                    },
                }
            }
    }

    fn poll(&mut self, cx: &mut F::Context) -> (outcome: Poll<[F::Output; N]>)
        ensures
            final(self).wf(),
    {
        let ghost futures0 = self.futures@;
        let ghost outputs0 = self.outputs@;
        let ghost mut cxs: Seq<F::Context> = seq![*cx];
        let mut i: usize = 0;
        while i < N
            invariant
                i <= N,
                self.wf(),
                self.in_progress(),
                futures0.len() == N,
                outputs0.len() == N,
                cxs.len() == i + 1,
                cxs[0] == *old(cx),
                cxs[i as int] == *cx,
                forall|j: int| i <= j < N ==> #[trigger] self.futures@[j] == futures0[j],
                forall|j: int| i <= j < N ==> #[trigger] self.outputs@[j] == outputs0[j],
                forall|j: int|
                    0 <= j < i ==> #[trigger] slot_polled(
                        futures0[j],
                        outputs0[j],
                        cxs[j],
                        self.futures@[j],
                        self.outputs@[j],
                        cxs[j + 1],
                    ),
            decreases N - i,
        {
            let ghost before = *self;
            let ghost cx0 = *cx;
            assert(before.spec_outputs()[i as int] == outputs0[i as int]);
            let mut slot: Option<F> = None;
            self.futures.set_and_swap(i, &mut slot);
            match slot {
                Some(mut future) => {
                    let outcome = future.poll(cx);
                    match outcome {
                        Poll::Ready(value) => {
                            self.outputs.set(i, Some(value));
                            proof {
                                lemma_unfinished_update(before.futures@, i as int, None);
                            }
                            self.remaining = self.remaining - 1;
                        },
                        Poll::Pending => {
                            self.futures.set(i, Some(future));
                            proof {
                                lemma_unfinished_update(before.futures@, i as int, Some(future));
                                assert(self.futures@ == before.futures@.update(
                                    i as int,
                                    Some(future),
                                ));
                            }
                        },
                    }
                    assert(F::polls(before.futures@[i as int].unwrap(), cx0, future, *cx, outcome));
                },
                None => {
                    assert(self.futures@ == before.futures@);
                },
            }
            assert(self.in_progress()) by {
                assert forall|j: int| 0 <= j < N implies {
                    ||| self.spec_futures()[j] is None && (#[trigger] self.spec_outputs()[j])
                        is Some
                    ||| self.spec_outputs()[j] is None && (self.spec_futures()[j] matches Some(f)
                        && f.pollable())
                } by {
                    assert(before.spec_outputs()[j] == before.outputs@[j]);
                }
            }
            proof {
                let prior = cxs;
                cxs = cxs.push(*cx);
                assert forall|j: int| 0 <= j < i + 1 implies #[trigger] slot_polled(
                    futures0[j],
                    outputs0[j],
                    cxs[j],
                    self.futures@[j],
                    self.outputs@[j],
                    cxs[j + 1],
                ) by {
                    if j < i {
                        assert(slot_polled(
                            futures0[j],
                            outputs0[j],
                            prior[j],
                            before.futures@[j],
                            before.outputs@[j],
                            prior[j + 1],
                        ));
                    }
                }
            }
            i = i + 1;
        }
        let ghost futures1 = self.futures@;
        let ghost outputs1 = self.outputs@;
        assert(slots_polled(futures0, outputs0, self.futures@, outputs1, cxs));
        proof {
            lemma_unfinished_zero(self.futures@);
        }
        if self.remaining == 0 {
            let mut values: Vec<F::Output> = Vec::new();
            let mut k: usize = 0;
            while k < N
                invariant
                    k <= N,
                    self.futures@.len() == N,
                    self.outputs@.len() == N,
                    self.remaining == 0,
                    unfinished(self.futures@) == 0,
                    outputs1.len() == N,
                    values@.len() == k,
                    forall|j: int| 0 <= j < N ==> (#[trigger] self.futures@[j]) is None,
                    forall|j: int| 0 <= j < N ==> (#[trigger] outputs1[j]) is Some,
                    forall|j: int| 0 <= j < k ==> (#[trigger] self.outputs@[j]) is None,
                    forall|j: int| k <= j < N ==> #[trigger] self.outputs@[j] == outputs1[j],
                    forall|j: int| 0 <= j < k ==> outputs1[j] == Some(#[trigger] values@[j]),
                    self.futures@ == futures1,
                decreases N - k,
            {
                let mut taken: Option<F::Output> = None;
                self.outputs.set_and_swap(k, &mut taken);
                values.push(taken.unwrap());
                k = k + 1;
            }
            let packed = array_from_vec::<F::Output, N>(values);
            assert(outputs1 == Seq::new(N as nat, |j: int| Some(packed->Ok_0@[j])));
            assert(self.outputs@ == Seq::new(N as nat, |j: int| None::<F::Output>));
            assert(slots_polled(futures0, outputs0, self.spec_futures(), outputs1, cxs));
            Poll::Ready(packed.ok().unwrap())
        } else {
            assert(slots_polled(futures0, outputs0, self.spec_futures(), outputs1, cxs));
            Poll::Pending
        }
    }
}

/// Joins an array of futures of one type.
pub fn all<F: Future, const N: usize>(futures: [F; N]) -> (join: JoinAll<F, N>)
    ensures
        join.wf(),
        join.joins(futures@),
{
    JoinAll::new(futures)
}

/// A future that has finished is not polled again, and its output keeps its
/// place: it stays in its slot while the others are pending, and is handed over at
/// that place when all have finished.
pub proof fn law_outputs_keep_their_places<F: Future, const N: usize>(
    before: JoinAll<F, N>,
    cx_before: F::Context,
    after: JoinAll<F, N>,
    cx_after: F::Context,
    outcome: Poll<[F::Output; N]>,
    i: int,
)
    requires
        before.wf(),
        JoinAll::polls(before, cx_before, after, cx_after, outcome),
        0 <= i < N,
        before.spec_futures()[i] is None,
        before.spec_outputs()[i] is Some,
    ensures
        after.spec_futures()[i] is None,
        match outcome {
            Poll::Pending => after.spec_outputs()[i] == before.spec_outputs()[i],
            Poll::Ready(values) => before.spec_outputs()[i] == Some(values@[i]),
        },
{
    let (outputs, cxs) = choose|outputs: Seq<Option<F::Output>>, cxs: Seq<F::Context>|
        {
            &&& #[trigger] slots_polled(
                before.spec_futures(),
                before.spec_outputs(),
                after.spec_futures(),
                outputs,
                cxs,
            )
            &&& cxs[0] == cx_before
            &&& cxs[N as int] == cx_after
            &&& match outcome {
                Poll::Pending => {
                    &&& exists|i: int| 0 <= i < N && (#[trigger] after.spec_futures()[i]) is Some
                    &&& after.spec_outputs() == outputs
                },
                Poll::Ready(values) => {
                    &&& forall|i: int| 0 <= i < N ==> (#[trigger] after.spec_futures()[i]) is None
                    &&& outputs == Seq::new(N as nat, |i: int| Some(values@[i]))
                    &&& after.spec_outputs() == Seq::new(N as nat, |i: int| None::<F::Output>)
                },
            }
        };
    assert(slot_polled(
        before.spec_futures()[i],
        before.spec_outputs()[i],
        cxs[i],
        after.spec_futures()[i],
        outputs[i],
        cxs[i + 1],
    ));
}

/// What a poll of a join does with the future in the slot `i`: it is polled, once, and if
/// that is ready its output is in its place, be it among those that are handed over now or
/// among those that are kept; if it is pending the join is pending, and keeps the future as
/// the poll left it.
pub proof fn law_each_future_is_polled<F: Future, const N: usize>(
    before: JoinAll<F, N>,
    cx_before: F::Context,
    after: JoinAll<F, N>,
    cx_after: F::Context,
    outcome: Poll<[F::Output; N]>,
    i: int,
    future: F,
)
    requires
        before.wf(),
        JoinAll::polls(before, cx_before, after, cx_after, outcome),
        0 <= i < N,
        before.spec_futures()[i] == Some(future),
    ensures
        exists|cx: F::Context, left: F, cx_left: F::Context, polled: Poll<F::Output>|
            {
                &&& #[trigger] F::polls(future, cx, left, cx_left, polled)
                &&& match polled {
                    Poll::Pending => {
                        &&& outcome is Pending
                        &&& after.spec_futures()[i] == Some(left)
                    },
                    Poll::Ready(value) => {
                        &&& after.spec_futures()[i] is None
                        &&& outcome is Pending ==> after.spec_outputs()[i] == Some(value)
                        &&& outcome matches Poll::Ready(values) ==> values@[i] == value
                    },
                }
            },
{
    let (outputs, cxs) = lemma_slots(before, cx_before, after, cx_after, outcome);
    assert(slot_polled(
        before.spec_futures()[i],
        before.spec_outputs()[i],
        cxs[i],
        after.spec_futures()[i],
        outputs[i],
        cxs[i + 1],
    ));
    let (left, polled) = choose|left: F, polled: Poll<F::Output>| #[trigger]
        F::polls(future, cxs[i], left, cxs[i + 1], polled) && match polled {
            Poll::Ready(v) => after.spec_futures()[i] is None && outputs[i] == Some(v),
            Poll::Pending => after.spec_futures()[i] == Some(left) && outputs[i]
                == before.spec_outputs()[i],
        };
    assert(F::polls(future, cxs[i], left, cxs[i + 1], polled));
}

/// The slots of a poll, and the contexts that they are polled with.
proof fn lemma_slots<F: Future, const N: usize>(
    before: JoinAll<F, N>,
    cx_before: F::Context,
    after: JoinAll<F, N>,
    cx_after: F::Context,
    outcome: Poll<[F::Output; N]>,
) -> (slots: (Seq<Option<F::Output>>, Seq<F::Context>))
    requires
        JoinAll::polls(before, cx_before, after, cx_after, outcome),
    ensures
        slots_polled(
            before.spec_futures(),
            before.spec_outputs(),
            after.spec_futures(),
            slots.0,
            slots.1,
        ),
        slots.1[0] == cx_before,
        slots.1[N as int] == cx_after,
        match outcome {
            Poll::Pending => {
                &&& exists|i: int| 0 <= i < N && (#[trigger] after.spec_futures()[i]) is Some
                &&& after.spec_outputs() == slots.0
            },
            Poll::Ready(values) => {
                &&& forall|i: int| 0 <= i < N ==> (#[trigger] after.spec_futures()[i]) is None
                &&& slots.0 == Seq::new(N as nat, |i: int| Some(values@[i]))
            },
        },
{
    choose|outputs: Seq<Option<F::Output>>, cxs: Seq<F::Context>|
        {
            &&& #[trigger] slots_polled(
                before.spec_futures(),
                before.spec_outputs(),
                after.spec_futures(),
                outputs,
                cxs,
            )
            &&& cxs[0] == cx_before
            &&& cxs[N as int] == cx_after
            &&& match outcome {
                Poll::Pending => {
                    &&& exists|i: int| 0 <= i < N && (#[trigger] after.spec_futures()[i]) is Some
                    &&& after.spec_outputs() == outputs
                },
                Poll::Ready(values) => {
                    &&& forall|i: int| 0 <= i < N ==> (#[trigger] after.spec_futures()[i]) is None
                    &&& outputs == Seq::new(N as nat, |i: int| Some(values@[i]))
                    &&& after.spec_outputs() == Seq::new(N as nat, |i: int| None::<F::Output>)
                },
            }
        }
}

/// A join is ready exactly when none of its futures is left unfinished, and the futures
/// are polled in the order in which they were given, each with what the one before it left:
/// the first with the context of the poll, and the last leaves what the poll leaves. A
/// future that has finished is passed over.
pub proof fn law_futures_are_polled_in_order<F: Future, const N: usize>(
    before: JoinAll<F, N>,
    cx_before: F::Context,
    after: JoinAll<F, N>,
    cx_after: F::Context,
    outcome: Poll<[F::Output; N]>,
)
    requires
        before.pollable(),
        JoinAll::polls(before, cx_before, after, cx_after, outcome),
    ensures
        outcome is Ready <==> (forall|i: int|
            0 <= i < N ==> (#[trigger] after.spec_futures()[i]) is None),
        exists|cxs: Seq<F::Context>|
            {
                &&& cxs.len() == N + 1
                &&& cxs[0] == cx_before
                &&& #[trigger] cxs[N as int] == cx_after
                &&& forall|i: int|
                    0 <= i < N ==> match #[trigger] before.spec_futures()[i] {
                        None => cxs[i + 1] == cxs[i],
                        Some(future) => exists|left: F, polled: Poll<F::Output>| #[trigger]
                            F::polls(future, cxs[i], left, cxs[i + 1], polled),
                    }
            },
{
    let (outputs, cxs) = lemma_slots(before, cx_before, after, cx_after, outcome);
    assert(cxs[N as int] == cx_after);
    assert forall|i: int| 0 <= i < N implies match #[trigger] before.spec_futures()[i] {
        None => cxs[i + 1] == cxs[i],
        Some(future) => exists|left: F, polled: Poll<F::Output>| #[trigger]
            F::polls(future, cxs[i], left, cxs[i + 1], polled),
    } by {
        assert(slot_polled(
            before.spec_futures()[i],
            before.spec_outputs()[i],
            cxs[i],
            after.spec_futures()[i],
            outputs[i],
            cxs[i + 1],
        ));
    }
}

/// A join of futures holds each of them, in its place, and no output yet, so the first
/// poll polls them all.
pub proof fn law_join_holds_its_futures<F: Future, const N: usize>(
    join: JoinAll<F, N>,
    futures: Seq<F>,
    i: int,
)
    requires
        join.joins(futures),
        0 <= i < N,
    ensures
        join.spec_futures().len() == N,
        join.spec_futures()[i] == Some(futures[i]),
        join.spec_outputs()[i] is None,
{
}

} // verus!
