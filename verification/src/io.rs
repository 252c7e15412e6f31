use vstd::prelude::*;
use vstd::slice::slice_subrange;

use crate::future::Poll;
use crate::reactor;
use crate::reactor::{Interest, Reactor};

verus! {

/// How many bytes a read asks for.
pub const READ_SIZE: usize = 64;

/// What a source said when it was asked for bytes.
pub enum ReadAttempt {
    /// It put `n` bytes into the front of `buf`.
    Read { buf: Vec<u8>, n: usize },
    /// It has none now.
    WouldBlock,
}

/// What a source said when it was offered bytes.
pub enum WriteAttempt {
    /// It took so many.
    Wrote(usize),
    /// It takes none now.
    WouldBlock,
}

/// What is to be done with a source at the poller of the operating system.
#[derive(PartialEq, Eq, Debug)]
pub enum SourceOp {
    /// Nothing.
    Keep,
    /// Have it watched for `interest`, under `token`.
    Register { token: usize, interest: Interest },
    /// Have it watched no longer.
    Deregister { token: usize },
}

/// What giving up a read or a write under `token` does: unless it is done, the source and
/// the waker are let go.
pub open spec fn lets_go<W>(
    token: usize,
    done: bool,
    wakers: Map<usize, W>,
    wakers_after: Map<usize, W>,
    op: SourceOp,
) -> bool {
    &&& done ==> op is Keep && wakers_after == wakers
    &&& !done ==> {
        &&& op == SourceOp::Deregister { token }
        &&& wakers_after == wakers.remove(token)
    }
}

/// Reads once from a source.
///
/// While the source has no bytes the task's waker stands in the reactor, under
/// the token of the read.
pub struct Readable {
    /// The token of the read.
    pub token: usize,
    /// Whether the source is watched.
    pub registered: bool,
    /// Whether the bytes have been handed over.
    pub done: bool,
}

/// A read from a source, under a token of its own.
pub fn read<W>(reactor: &mut Reactor<W>) -> (future: Readable)
    requires
        old(reactor).spec_next_token() < usize::MAX,
    ensures
        reactor::gives_out(
            old(reactor).spec_next_token(),
            future.token,
            final(reactor).spec_next_token(),
        ),
        !future.registered,
        !future.done,
        final(reactor)@ == old(reactor)@,
{
    let token = reactor.allocate_token();
    Readable { token, registered: false, done: false }
}

impl Readable {
    /// A buffer for the source to put bytes into.
    pub fn buffer() -> (buf: Vec<u8>)
        ensures
            buf@ == Seq::new(READ_SIZE as nat, |i: int| 0u8),
    {
        let buf = vec![0u8; READ_SIZE];
        assert(buf@ == Seq::new(READ_SIZE as nat, |i: int| 0u8));
        buf
    }

    /// Whether what the source said can take a poll with `waker` from `before` to `after`,
    /// those who wait for events from `wakers` to `wakers_after`, and come to `step`.
    pub open spec fn goes_on<W>(
        before: Self,
        wakers: Map<usize, W>,
        waker: W,
        attempt: ReadAttempt,
        after: Self,
        wakers_after: Map<usize, W>,
        step: (Poll<Vec<u8>>, SourceOp),
    ) -> bool {
        if before.done {
            &&& step.0 matches Poll::Ready(bytes) && bytes@.len() == 0
            &&& step.1 is Keep
            &&& after == before
            &&& wakers_after == wakers
        } else {
            match attempt {
                ReadAttempt::Read { buf, n } => {
                    &&& step.0 matches Poll::Ready(bytes) && bytes@ == buf@.take(n as int)
                    &&& step.1 == SourceOp::Deregister { token: before.token }
                    &&& after.done
                    &&& after.registered == before.registered
                    &&& wakers_after == wakers.remove(before.token)
                },
                ReadAttempt::WouldBlock => {
                    &&& step.0 is Pending
                    &&& step.1 == (if before.registered {
                        SourceOp::Keep
                    } else {
                        SourceOp::Register {
                            token: before.token,
                            interest: Interest::Readable,
                        }
                    })
                    &&& !after.done
                    &&& after.registered
                    &&& wakers_after == wakers.insert(before.token, waker)
                },
            }
        }
    }

    /// Goes by what the source said. Bytes are handed over, and the source and
    /// the waker are let go. If there are none the source is watched from then
    /// on, and `waker` waits in the reactor. A read that is done hands over
    /// nothing more, whatever the source says.
    pub fn poll<W>(&mut self, reactor: &mut Reactor<W>, waker: W, attempt: ReadAttempt) -> (step: (
        Poll<Vec<u8>>,
        SourceOp,
    ))
        requires
            attempt matches ReadAttempt::Read { buf, n } ==> n <= buf@.len(),
        ensures
            final(self).token == old(self).token,
            final(reactor).spec_next_token() == old(reactor).spec_next_token(),
            Self::goes_on(
                *old(self),
                old(reactor)@,
                waker,
                attempt,
                *final(self),
                final(reactor)@,
                step,
            ),
    {
        if self.done {
            return (Poll::Ready(Vec::new()), SourceOp::Keep);
        }
        match attempt {
            ReadAttempt::Read { buf, n } => {
                reactor.deregister(self.token);
                self.done = true;
                let mut bytes = buf;
                bytes.truncate(n);
                (Poll::Ready(bytes), SourceOp::Deregister { token: self.token })
            },
            ReadAttempt::WouldBlock => {
                let op = if self.registered {
                    SourceOp::Keep
                } else {
                    SourceOp::Register { token: self.token, interest: Interest::Readable }
                };
                self.registered = true;
                reactor.register(self.token, waker);
                (Poll::Pending, op)
            },
        }
    }

    /// Gives the read up: unless it is done, the source and the waker are let
    /// go.
    pub fn cancel<W>(self, reactor: &mut Reactor<W>) -> (op: SourceOp)
        ensures
            final(reactor).spec_next_token() == old(reactor).spec_next_token(),
            lets_go(self.token, self.done, old(reactor)@, final(reactor)@, op),
    {
        if self.done {
            SourceOp::Keep
        } else {
            reactor.deregister(self.token);
            SourceOp::Deregister { token: self.token }
        }
    }
}

/// Writes a whole buffer to a source, in as many goes as the source needs.
///
/// While the source takes no bytes the task's waker stands in the reactor,
/// under the token of the write.
pub struct Writable {
    token: usize,
    registered: bool,
    buf: Vec<u8>,
    offset: usize,
    done: bool,
}

/// A write of `buf` to a source, under a token of its own.
pub fn write<W>(reactor: &mut Reactor<W>, buf: Vec<u8>) -> (future: Writable)
    requires
        old(reactor).spec_next_token() < usize::MAX,
    ensures
        future.wf(),
        reactor::gives_out(
            old(reactor).spec_next_token(),
            future.spec_token(),
            final(reactor).spec_next_token(),
        ),
        !future.spec_registered(),
        !future.spec_done(),
        future.spec_remaining() == buf@,
        final(reactor)@ == old(reactor)@,
{
    let token = reactor.allocate_token();
    let future = Writable { token, registered: false, buf, offset: 0, done: false };
    assert(future.spec_remaining() == buf@);
    future
}

impl Writable {
    /// The source has not taken more than there is.
    pub closed spec fn wf(&self) -> bool {
        self.offset <= self.buf@.len()
    }

    /// The token of the write.
    pub closed spec fn spec_token(&self) -> usize {
        self.token
    }

    /// Whether the source is watched.
    pub closed spec fn spec_registered(&self) -> bool {
        self.registered
    }

    /// Whether everything has been written.
    pub closed spec fn spec_done(&self) -> bool {
        self.done
    }

    /// The bytes that the source has not taken.
    pub closed spec fn spec_remaining(&self) -> Seq<u8> {
        self.buf@.skip(self.offset as int)
    }

    /// Whether everything has been written.
    pub fn is_done(&self) -> (done: bool)
        ensures
            done == self.spec_done(),
    {
        self.done
    }

    /// The bytes to offer to the source.
    pub fn remaining(&self) -> (bytes: &[u8])
        requires
            self.wf(),
        ensures
            bytes@ == self.spec_remaining(),
    {
        slice_subrange(self.buf.as_slice(), self.offset, self.buf.len())
    }

    /// Whether what the source said can take a poll with `waker` from `before` to `after`,
    /// those who wait for events from `wakers` to `wakers_after`, and come to `step`.
    pub open spec fn goes_on<W>(
        before: Self,
        wakers: Map<usize, W>,
        waker: W,
        attempt: WriteAttempt,
        after: Self,
        wakers_after: Map<usize, W>,
        step: (Poll<()>, SourceOp),
    ) -> bool {
        if before.spec_done() {
            &&& step.0 == Poll::Ready(())
            &&& step.1 is Keep
            &&& after == before
            &&& wakers_after == wakers
        } else {
            let taken: int = match attempt {
                WriteAttempt::Wrote(n) => n as int,
                WriteAttempt::WouldBlock => 0,
            };
            &&& after.spec_remaining() == before.spec_remaining().skip(taken)
            &&& if attempt is Wrote && taken == before.spec_remaining().len() {
                &&& step.0 == Poll::Ready(())
                &&& step.1 == SourceOp::Deregister { token: before.spec_token() }
                &&& after.spec_done()
                &&& after.spec_registered() == before.spec_registered()
                &&& wakers_after == wakers.remove(before.spec_token())
            } else {
                &&& step.0 is Pending
                &&& step.1 == (if before.spec_registered() {
                    SourceOp::Keep
                } else {
                    SourceOp::Register {
                        token: before.spec_token(),
                        interest: Interest::Writable,
                    }
                })
                &&& !after.spec_done()
                &&& after.spec_registered()
                &&& wakers_after == wakers.insert(before.spec_token(), waker)
            }
        }
    }

    /// Goes by what the source said. If it has taken the last byte the source
    /// and the waker are let go. Otherwise the source is watched from then on,
    /// and `waker` waits in the reactor.
    pub fn poll<W>(&mut self, reactor: &mut Reactor<W>, waker: W, attempt: WriteAttempt) -> (step: (
        Poll<()>,
        SourceOp,
    ))
        requires
            old(self).wf(),
            attempt matches WriteAttempt::Wrote(n) ==> n <= old(self).spec_remaining().len(),
        ensures
            final(self).wf(),
            final(self).spec_token() == old(self).spec_token(),
            final(reactor).spec_next_token() == old(reactor).spec_next_token(),
            Self::goes_on(
                *old(self),
                old(reactor)@,
                waker,
                attempt,
                *final(self),
                final(reactor)@,
                step,
            ),
    {
        if self.done {
            return (Poll::Ready(()), SourceOp::Keep);
        }
        match attempt {
            WriteAttempt::Wrote(n) => {
                let len: usize = self.buf.len();
                self.offset = self.offset + n;
                assert(self.spec_remaining() == old(self).spec_remaining().skip(n as int));
                if self.offset == len {
                    reactor.deregister(self.token);
                    self.done = true;
                    (Poll::Ready(()), SourceOp::Deregister { token: self.token })
                } else {
                    (Poll::Pending, self.park(reactor, waker))
                }
            },
            WriteAttempt::WouldBlock => {
                assert(self.spec_remaining() == old(self).spec_remaining().skip(0));
                (Poll::Pending, self.park(reactor, waker))
            },
        }
    }

    /// Leaves `waker` in the reactor and has the source watched.
    fn park<W>(&mut self, reactor: &mut Reactor<W>, waker: W) -> (op: SourceOp)
        ensures
            *final(self) == (Writable { registered: true, ..*old(self) }),
            op == (if old(self).registered {
                SourceOp::Keep
            } else {
                SourceOp::Register { token: old(self).token, interest: Interest::Writable }
            }),
            final(reactor)@ == old(reactor)@.insert(old(self).token, waker),
            final(reactor).spec_next_token() == old(reactor).spec_next_token(),
    {
        let op = if self.registered {
            SourceOp::Keep
        } else {
            SourceOp::Register { token: self.token, interest: Interest::Writable }
        };
        self.registered = true;
        reactor.register(self.token, waker);
        op
    }

    /// Gives the write up: unless it is done, the source and the waker are let
    /// go.
    pub fn cancel<W>(self, reactor: &mut Reactor<W>) -> (op: SourceOp)
        ensures
            final(reactor).spec_next_token() == old(reactor).spec_next_token(),
            lets_go(self.spec_token(), self.spec_done(), old(reactor)@, final(reactor)@, op),
    {
        if self.done {
            SourceOp::Keep
        } else {
            reactor.deregister(self.token);
            SourceOp::Deregister { token: self.token }
        }
    }
}

/// What a source takes, go by go, until nothing remains, is the whole buffer in
/// its order: `rests[i]` is what remains before the `i`-th go, and `taken[i]` how
/// many bytes the source takes in it.
pub proof fn law_writes_whole_buffer(rests: Seq<Seq<u8>>, taken: Seq<nat>)
    requires
        rests.len() == taken.len() + 1,
        forall|i: int|
            0 <= i < taken.len() ==> #[trigger] taken[i] <= rests[i].len() && rests[i + 1]
                == rests[i].skip(taken[i] as int),
        rests.last().len() == 0,
    ensures
        Seq::new(taken.len(), |i: int| rests[i].take(taken[i] as int)).flatten() == rests[0],
    decreases taken.len(),
{
    let chunks = Seq::new(taken.len(), |i: int| rests[i].take(taken[i] as int));
    if taken.len() == 0 {
        assert(chunks.flatten() == rests[0]);
    } else {
        let rests1 = rests.skip(1);
        let taken1 = taken.skip(1);
        assert forall|i: int| 0 <= i < taken1.len() implies #[trigger] taken1[i]
            <= rests1[i].len() && rests1[i + 1] == rests1[i].skip(taken1[i] as int) by {
            assert(taken1[i] == taken[i + 1]);
        }
        law_writes_whole_buffer(rests1, taken1);
        let chunks1 = Seq::new(taken1.len(), |i: int| rests1[i].take(taken1[i] as int));
        assert(chunks.drop_first() == chunks1);
        assert(taken[0] <= rests[0].len());
        assert(rests[0] == rests[0].take(taken[0] as int) + rests[0].skip(taken[0] as int));
        assert(chunks.first() == rests[0].take(taken[0] as int));
    }
}

/// A read hands over what the source gave, once. If the source has put bytes into the
/// front of the buffer, these and no others are handed over, and nobody waits under the
/// read's token any more; a read that is done hands over nothing. If the source has none,
/// the waker of the poll waits under that token, and the source is watched for bytes. Who
/// waits for another event waits on.
pub proof fn law_read_hands_over_or_waits<W>(
    before: Readable,
    wakers: Map<usize, W>,
    waker: W,
    attempt: ReadAttempt,
    after: Readable,
    wakers_after: Map<usize, W>,
    step: (Poll<Vec<u8>>, SourceOp),
    other: usize,
)
    requires
        Readable::goes_on(before, wakers, waker, attempt, after, wakers_after, step),
        attempt matches ReadAttempt::Read { buf, n } ==> n <= buf@.len(),
    ensures
        step.0 is Ready <==> before.done || attempt is Read,
        before.done ==> {
            &&& step.0->Ready_0@.len() == 0
            &&& step.1 is Keep
            &&& after == before
            &&& wakers_after == wakers
        },
        !before.done ==> (attempt matches ReadAttempt::Read { buf, n } ==> {
            &&& step.0->Ready_0@.len() == n
            &&& forall|i: int| 0 <= i < n ==> step.0->Ready_0@[i] == #[trigger] buf@[i]
            &&& after.done
            &&& !wakers_after.contains_key(before.token)
            &&& step.1 == SourceOp::Deregister { token: before.token }
        }),
        step.0 is Pending ==> {
            &&& !after.done
            &&& wakers_after.contains_key(before.token) && wakers_after[before.token] == waker
            &&& after.registered
            &&& before.registered ==> step.1 is Keep
            &&& !before.registered ==> step.1 == SourceOp::Register {
                token: before.token,
                interest: Interest::Readable,
            }
        },
        other != before.token ==> {
            &&& wakers_after.contains_key(other) == wakers.contains_key(other)
            &&& wakers.contains_key(other) ==> wakers_after[other] == wakers[other]
        },
{
}

/// A write goes on until the source has taken the last byte, and not beyond. As many bytes
/// as the source took are gone from the front of what remains, and no others; it is ready
/// exactly when the source has taken the last of them, and then nobody waits under its
/// token any more. Otherwise the waker of the poll waits under that token, and the source
/// is watched for room. Who waits for another event waits on. A write that is done stays
/// so, and lets everybody wait.
pub proof fn law_write_goes_on_or_waits<W>(
    before: Writable,
    wakers: Map<usize, W>,
    waker: W,
    attempt: WriteAttempt,
    after: Writable,
    wakers_after: Map<usize, W>,
    step: (Poll<()>, SourceOp),
    other: usize,
)
    requires
        Writable::goes_on(before, wakers, waker, attempt, after, wakers_after, step),
        attempt matches WriteAttempt::Wrote(n) ==> n <= before.spec_remaining().len(),
    ensures
        before.spec_done() ==> {
            &&& step.0 is Ready
            &&& step.1 is Keep
            &&& after == before
            &&& wakers_after == wakers
        },
        !before.spec_done() ==> (attempt matches WriteAttempt::Wrote(n) ==> before.spec_remaining()
            == before.spec_remaining().take(n as int) + after.spec_remaining()),
        attempt is WouldBlock ==> after.spec_remaining() == before.spec_remaining(),
        step.0 is Ready <==> before.spec_done() || attempt is Wrote && after.spec_remaining().len()
            == 0,
        !before.spec_done() && step.0 is Ready ==> {
            &&& after.spec_done()
            &&& !wakers_after.contains_key(before.spec_token())
            &&& step.1 == SourceOp::Deregister { token: before.spec_token() }
        },
        step.0 is Pending ==> {
            &&& !after.spec_done()
            &&& wakers_after.contains_key(before.spec_token())
            &&& wakers_after[before.spec_token()] == waker
            &&& after.spec_registered()
            &&& before.spec_registered() ==> step.1 is Keep
            &&& !before.spec_registered() ==> step.1 == SourceOp::Register {
                token: before.spec_token(),
                interest: Interest::Writable,
            }
        },
        other != before.spec_token() ==> {
            &&& wakers_after.contains_key(other) == wakers.contains_key(other)
            &&& wakers.contains_key(other) ==> wakers_after[other] == wakers[other]
        },
{
    let rest = before.spec_remaining();
    if let WriteAttempt::Wrote(n) = attempt {
        assert(rest == rest.take(n as int) + rest.skip(n as int));
    }
    assert(rest.skip(0) == rest);
}

/// A write that is polled until it is ready has handed the source the whole buffer, once
/// and in its order, whatever the source took at a time: `writes[i]` is the write before
/// the `i`-th poll.
pub proof fn law_ready_write_wrote_everything<W>(
    writes: Seq<Writable>,
    wakers: Seq<Map<usize, W>>,
    polled: Seq<W>,
    attempts: Seq<WriteAttempt>,
    steps: Seq<(Poll<()>, SourceOp)>,
)
    requires
        attempts.len() > 0,
        writes.len() == attempts.len() + 1,
        wakers.len() == attempts.len() + 1,
        polled.len() == attempts.len(),
        steps.len() == attempts.len(),
        !writes[0].spec_done(),
        forall|i: int|
            0 <= i < attempts.len() ==> Writable::goes_on(
                writes[i],
                wakers[i],
                polled[i],
                #[trigger] attempts[i],
                writes[i + 1],
                wakers[i + 1],
                steps[i],
            ) && taken(attempts[i]) <= writes[i].spec_remaining().len(),
        forall|i: int| 0 <= i < attempts.len() - 1 ==> (#[trigger] steps[i]).0 is Pending,
        steps.last().0 is Ready,
    ensures
        Seq::new(
            attempts.len(),
            |i: int| writes[i].spec_remaining().take(taken(attempts[i]) as int),
        ).flatten() == writes[0].spec_remaining(),
{
    let rests = writes.map_values(|write: Writable| write.spec_remaining());
    let amounts = Seq::new(attempts.len(), |i: int| taken(attempts[i]));
    let n = attempts.len() as int;
    assert forall|i: int| 0 <= i < n implies !(#[trigger] writes[i]).spec_done() by {
        lemma_not_done(writes, wakers, polled, attempts, steps, i);
    }
    assert forall|i: int| 0 <= i < amounts.len() implies #[trigger] amounts[i] <= rests[i].len()
        && rests[i + 1] == rests[i].skip(amounts[i] as int) by {
        assert(!writes[i].spec_done());
        assert(taken(attempts[i]) <= writes[i].spec_remaining().len());
    }
    assert(!writes[n - 1].spec_done());
    assert(steps[n - 1].0 is Ready);
    assert(taken(attempts[n - 1]) <= writes[n - 1].spec_remaining().len());
    assert(rests.last() == writes[n].spec_remaining());
    law_writes_whole_buffer(rests, amounts);
    assert(Seq::new(amounts.len(), |i: int| rests[i].take(amounts[i] as int)) == Seq::new(
        attempts.len(),
        |i: int| writes[i].spec_remaining().take(taken(attempts[i]) as int),
    ));
}

/// How many bytes a source took.
pub open spec fn taken(attempt: WriteAttempt) -> nat {
    match attempt {
        WriteAttempt::Wrote(n) => n as nat,
        WriteAttempt::WouldBlock => 0,
    }
}

/// A write that is pending is not done.
proof fn lemma_not_done<W>(
    writes: Seq<Writable>,
    wakers: Seq<Map<usize, W>>,
    polled: Seq<W>,
    attempts: Seq<WriteAttempt>,
    steps: Seq<(Poll<()>, SourceOp)>,
    i: int,
)
    requires
        writes.len() == attempts.len() + 1,
        steps.len() == attempts.len(),
        !writes[0].spec_done(),
        forall|i: int|
            0 <= i < attempts.len() ==> Writable::goes_on(
                writes[i],
                wakers[i],
                polled[i],
                #[trigger] attempts[i],
                writes[i + 1],
                wakers[i + 1],
                steps[i],
            ),
        forall|i: int| 0 <= i < attempts.len() - 1 ==> (#[trigger] steps[i]).0 is Pending,
        0 <= i < attempts.len(),
    ensures
        !writes[i].spec_done(),
    decreases i,
{
    if i > 0 {
        lemma_not_done(writes, wakers, polled, attempts, steps, i - 1);
        assert(Writable::goes_on(
            writes[i - 1],
            wakers[i - 1],
            polled[i - 1],
            attempts[i - 1],
            writes[i - 1 + 1],
            wakers[i - 1 + 1],
            steps[i - 1],
        ));
        assert(steps[i - 1].0 is Pending);
    }
}

/// A read or a write that is given up is waited for no more, and nobody else is touched;
/// one that is done leaves everybody as they are.
pub proof fn law_given_up_lets_go<W>(
    token: usize,
    done: bool,
    wakers: Map<usize, W>,
    wakers_after: Map<usize, W>,
    op: SourceOp,
    other: usize,
)
    requires
        lets_go(token, done, wakers, wakers_after, op),
    ensures
        !done ==> !wakers_after.contains_key(token) && op == (SourceOp::Deregister { token }),
        done ==> wakers_after == wakers && op is Keep,
        other != token ==> {
            &&& wakers_after.contains_key(other) == wakers.contains_key(other)
            &&& wakers.contains_key(other) ==> wakers_after[other] == wakers[other]
        },
{
}

} // verus!
