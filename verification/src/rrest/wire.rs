use vstd::prelude::*;

use crate::future::Poll;
use crate::rrest::connection::Connection;
use crate::rrest::error::{Error, IoError};
use crate::rrest::session;
use crate::rrest::session::{Call, SessionView};
use crate::rrest::tls;
use crate::rrest::tls::{HandshakeEvent, HandshakeView, ReadEvent, ReadingView};
use crate::rrest::tls::{TlsStream, WriteEvent, WritingView, RECV_SIZE};

verus! {

/// Something done with a stream, and what it came to.
pub enum Deed {
    /// The handshake was taken a step further.
    Shake(Poll<Result<(), Error>>),
    /// A read of up to so many bytes was taken a step further.
    Read(usize, Poll<Result<Vec<u8>, IoError>>),
    /// A write of these bytes was taken a step further.
    Write(Seq<u8>, Poll<Result<(), IoError>>),
}

/// Whether doing `deed` with a stream can lead from `before` to `after`. Reads and
/// writes come when the handshake is through.
pub open spec fn does<C: Connection>(
    before: TlsStream<C>,
    deed: Deed,
    after: TlsStream<C>,
) -> bool {
    match deed {
        Deed::Shake(outcome) => TlsStream::shakes(before, after, outcome),
        Deed::Read(size, answer) => before.spec_handshake() is Done && TlsStream::reads(
            before,
            size,
            after,
            answer,
        ),
        Deed::Write(buf, answer) => before.spec_handshake() is Done && TlsStream::writes(
            before,
            buf,
            after,
            answer,
        ),
    }
}

/// What is done with a stream from its start on, deed after deed: each finds the
/// stream as the one before left it.
pub open spec fn runs<C: Connection>(
    inner: C,
    host: Seq<char>,
    streams: Seq<TlsStream<C>>,
    deeds: Seq<Deed>,
) -> bool {
    &&& streams.len() == deeds.len() + 1
    &&& tls::at_start(streams[0], inner)
    &&& session::is_fresh(streams[0].spec_session(), host)
    &&& forall|i: int|
        0 <= i < deeds.len() ==> does(streams[i], #[trigger] deeds[i], streams[i + 1])
}

/// The bytes that a deed offers the connection underneath, if it offers any.
pub open spec fn offered<C>(before: TlsStream<C>, deed: Deed) -> Option<Seq<u8>> {
    match (deed, before.spec_handshake(), before.spec_writing()) {
        (Deed::Shake(_), HandshakeView::Send(bytes), _) => Some(bytes),
        (Deed::Write(_, _), _, WritingView::Send(bytes)) => Some(bytes),
        _ => None,
    }
}

/// Whether the connection underneath failed at the bytes that a deed offered it.
pub open spec fn send_failed<C>(before: TlsStream<C>, deed: Deed) -> bool {
    &&& offered(before, deed) is Some
    &&& match deed {
        Deed::Shake(outcome) => outcome is Ready,
        Deed::Read(_, _) => false,
        Deed::Write(_, answer) => answer is Ready,
    }
}

/// The bytes that wait to be sent.
pub open spec fn waiting<C>(stream: TlsStream<C>) -> Seq<u8> {
    match (stream.spec_handshake(), stream.spec_writing()) {
        (HandshakeView::Send(bytes), _) => bytes,
        (_, WritingView::Send(bytes)) => bytes,
        _ => Seq::empty(),
    }
}

/// The bytes that the connection underneath took by a deed: those offered to it that
/// wait no more and at which it did not fail.
pub open spec fn sent_by<C>(before: TlsStream<C>, deed: Deed, after: TlsStream<C>) -> Seq<u8> {
    match offered(before, deed) {
        Some(bytes) if offered(after, deed) is None && !send_failed(before, deed) => bytes,
        _ => Seq::empty(),
    }
}

/// The bytes that the connection underneath took, in order.
pub open spec fn sent<C>(streams: Seq<TlsStream<C>>, deeds: Seq<Deed>) -> Seq<u8>
    decreases deeds.len(),
{
    if deeds.len() == 0 {
        Seq::empty()
    } else {
        let last = deeds.len() - 1;
        sent(streams, deeds.drop_last()) + sent_by(streams[last], deeds[last], streams[last + 1])
    }
}

/// The bytes that were received by a deed.
pub open spec fn received_by<C>(
    before: TlsStream<C>,
    deed: Deed,
    after: TlsStream<C>,
) -> Seq<u8> {
    match deed {
        Deed::Shake(_) => match (before.spec_handshake(), after.spec_handshake()) {
            (HandshakeView::Receive, HandshakeView::Feed(bytes)) => bytes,
            _ => Seq::empty(),
        },
        Deed::Read(_, _) => match (before.spec_reading(), after.spec_reading()) {
            (ReadingView::Receive, ReadingView::Feed(bytes)) => bytes,
            _ => Seq::empty(),
        },
        Deed::Write(_, _) => Seq::empty(),
    }
}

/// The bytes that were received, in order.
pub open spec fn received<C>(streams: Seq<TlsStream<C>>, deeds: Seq<Deed>) -> Seq<u8>
    decreases deeds.len(),
{
    if deeds.len() == 0 {
        Seq::empty()
    } else {
        let last = deeds.len() - 1;
        received(streams, deeds.drop_last()) + received_by(
            streams[last],
            deeds[last],
            streams[last + 1],
        )
    }
}

/// The bytes that are received and still to be handed to the session.
pub open spec fn held<C>(stream: TlsStream<C>) -> Seq<u8> {
    match stream.spec_handshake() {
        HandshakeView::Feed(bytes) => bytes,
        HandshakeView::Process(rest) => rest,
        HandshakeView::AskDone(rest) => rest,
        HandshakeView::Done(_) => match stream.spec_reading() {
            ReadingView::Take(rest) => rest,
            ReadingView::Receive => Seq::empty(),
            ReadingView::Feed(bytes) => bytes,
            ReadingView::Process(rest) => rest,
        },
        _ => Seq::empty(),
    }
}

/// Whether the session took none of the bytes that a deed handed it.
pub open spec fn turned_away<C>(before: TlsStream<C>, deed: Deed, after: TlsStream<C>) -> bool {
    &&& match deed {
        Deed::Shake(_) => before.spec_handshake() is Feed,
        Deed::Read(_, _) => before.spec_reading() is Feed,
        Deed::Write(_, _) => false,
    }
    &&& after.spec_session().heard == before.spec_session().heard
}

/// The bytes that the calls of a session gave for the server, in order.
pub open spec fn taken(calls: Seq<Call>) -> Seq<u8>
    decreases calls.len(),
{
    if calls.len() == 0 {
        Seq::empty()
    } else {
        taken(calls.drop_last()) + match calls.last() {
            Call::Take(Ok(bytes)) => bytes,
            _ => Seq::empty(),
        }
    }
}

/// The bytes that a session took in by its calls, in order.
pub open spec fn fed(calls: Seq<Call>) -> Seq<u8>
    decreases calls.len(),
{
    if calls.len() == 0 {
        Seq::empty()
    } else {
        fed(calls.drop_last()) + match calls.last() {
            Call::Feed(bytes, Ok(n)) => bytes.take(n as int),
            _ => Seq::empty(),
        }
    }
}

/// Whether the connection underneath answered so when a deed offered it bytes: it
/// took them, they wait on, or it failed at them.
pub open spec fn answered<C: Connection>(
    before: TlsStream<C>,
    deed: Deed,
    after: TlsStream<C>,
    answer: Poll<Result<(), IoError>>,
) -> bool {
    let bytes = offered(before, deed)->0;
    &&& C::writes(before.spec_inner(), bytes, after.spec_inner(), answer)
    &&& match answer {
        Poll::Pending => offered(after, deed) == Some(bytes),
        Poll::Ready(Ok(_)) => sent_by(before, deed, after) == bytes,
        Poll::Ready(Err(_)) => send_failed(before, deed),
    }
}

/// A deed offers the connection underneath just the bytes that wait, and either it
/// takes them, or they wait on, or it fails at them. A deed that offers it none
/// leaves it alone or reads from it.
pub proof fn law_connection_is_offered_what_waits<C: Connection>(
    before: TlsStream<C>,
    deed: Deed,
    after: TlsStream<C>,
)
    requires
        does(before, deed, after),
    ensures
        offered(before, deed) is Some ==> exists|answer: Poll<Result<(), IoError>>| #[trigger]
            answered(before, deed, after, answer),
        offered(before, deed) is None ==> after.spec_inner() == before.spec_inner() || exists|
            answer: Poll<Result<Vec<u8>, IoError>>,
        | #[trigger]
            C::reads(before.spec_inner(), RECV_SIZE, after.spec_inner(), answer),
{
    match deed {
        Deed::Shake(outcome) => {
            let state = before.spec_handshake();
            if !(state is Done) {
                let event = choose|event: HandshakeEvent|
                    {
                        &&& #[trigger] tls::fits(state, event)
                        &&& tls::handshake_uses(before, after, event)
                        &&& tls::shaken(before, after, event, outcome)
                    };
                if state is Send {
                    assert(answered(before, deed, after, event->Sent_0));
                } else if state is Receive {
                    let answer = event->Received_0;
                    assert(C::reads(before.spec_inner(), RECV_SIZE, after.spec_inner(), answer));
                }
            }
        },
        Deed::Read(size, outcome) => {
            let state = before.spec_reading();
            let event = choose|event: ReadEvent|
                {
                    &&& #[trigger] tls::read_fits(state, event)
                    &&& tls::read_uses(before, size, after, event)
                    &&& (after.spec_reading(), tls::answer_view(outcome)) == tls::read_advanced(
                        state,
                        event,
                    )
                };
            if state is Receive {
                let answer = event->Received_0;
                assert(C::reads(before.spec_inner(), RECV_SIZE, after.spec_inner(), answer));
            }
        },
        Deed::Write(buf, outcome) => {
            let state = before.spec_writing();
            let event = choose|event: WriteEvent|
                {
                    &&& #[trigger] tls::write_fits(state, event)
                    &&& tls::write_uses(before, buf, after, event)
                    &&& (after.spec_writing(), tls::unit_view(outcome)) == tls::write_advanced(
                        state,
                        event,
                    )
                };
            if state is Send {
                assert(answered(before, deed, after, event->Sent_0));
            }
        },
    }
}

/// Whether a stream has read and written nothing as long as its handshake is not
/// through, and its handshake has left nothing behind when it is.
pub open spec fn settled<C>(stream: TlsStream<C>) -> bool {
    match stream.spec_handshake() {
        HandshakeView::Done(rest) => rest.len() == 0,
        _ => {
            &&& stream.spec_reading() == ReadingView::Take(Seq::empty())
            &&& stream.spec_writing() is Give
        },
    }
}

/// Whether what a session has said and heard is what its calls gave and took in.
pub open spec fn recorded(session: SessionView) -> bool {
    &&& session.said == taken(session.calls)
    &&& session.heard == fed(session.calls)
}

/// A call that is noted keeps the record true if what was said and heard by it is
/// what it gave and took in.
proof fn lemma_noted(before: SessionView, call: Call, after: SessionView)
    requires
        recorded(before),
        after.calls == before.calls.push(call),
        after.said == before.said + match call {
            Call::Take(Ok(bytes)) => bytes,
            _ => Seq::empty(),
        },
        after.heard == before.heard + match call {
            Call::Feed(bytes, Ok(n)) => bytes.take(n as int),
            _ => Seq::empty(),
        },
    ensures
        recorded(after),
{
    assert(after.calls.drop_last() == before.calls);
    assert(after.calls.last() == call);
}

/// What a step of the handshake does to the bytes that are on their way, and to the
/// record of the session.
proof fn lemma_shake<C: Connection>(
    before: TlsStream<C>,
    outcome: Poll<Result<(), Error>>,
    after: TlsStream<C>,
    gone: Seq<u8>,
    come: Seq<u8>,
)
    requires
        TlsStream::shakes(before, after, outcome),
        settled(before),
        recorded(before.spec_session()),
    ensures
        settled(after),
        recorded(after.spec_session()),
        deed_keeps(before, Deed::Shake(outcome), after, gone, come),
{
    let state = before.spec_handshake();
    let old_session = before.spec_session();
    let new_session = after.spec_session();
    if !(state is Done) {
        let event = choose|event: HandshakeEvent|
            {
                &&& #[trigger] tls::fits(state, event)
                &&& tls::handshake_uses(before, after, event)
                &&& tls::shaken(before, after, event, outcome)
            };
        if let HandshakeEvent::Taken(result) = event {
            let result = session::bytes_view(result);
            lemma_noted(old_session, Call::Take(result), new_session);
        }
        if let HandshakeEvent::Fed(result) = event {
            let result = session::error_view(result);
            let bytes = state->Feed_0;
            lemma_noted(old_session, Call::Feed(bytes, result), new_session);
            if let Ok(n) = result {
                assert(bytes == bytes.take(n as int) + bytes.skip(n as int));
            }
        }
        if let HandshakeEvent::Processed(result) = event {
            lemma_noted(old_session, Call::Work(session::fault_view(result)), new_session);
        }
    }
    let deed = Deed::Shake(outcome);
    assert(!send_failed(before, deed) && before.spec_session().said == gone + waiting(before)
        ==> after.spec_session().said == gone + sent_by(before, deed, after) + waiting(after));
    assert(!turned_away(before, deed, after) && before.spec_session().heard + held(before) == come
        ==> after.spec_session().heard + held(after) == come + received_by(before, deed, after));
}

/// What a step of a read does to the bytes that are on their way, and to the record
/// of the session.
proof fn lemma_read<C: Connection>(
    before: TlsStream<C>,
    size: usize,
    answer: Poll<Result<Vec<u8>, IoError>>,
    after: TlsStream<C>,
    gone: Seq<u8>,
    come: Seq<u8>,
)
    requires
        TlsStream::reads(before, size, after, answer),
        before.spec_handshake() is Done,
        settled(before),
        recorded(before.spec_session()),
    ensures
        settled(after),
        recorded(after.spec_session()),
        deed_keeps(before, Deed::Read(size, answer), after, gone, come),
{
    let state = before.spec_reading();
    let old_session = before.spec_session();
    let new_session = after.spec_session();
    let event = choose|event: ReadEvent|
        {
            &&& #[trigger] tls::read_fits(state, event)
            &&& tls::read_uses(before, size, after, event)
            &&& (after.spec_reading(), tls::answer_view(answer)) == tls::read_advanced(
                state,
                event,
            )
        };
    match event {
        ReadEvent::Taken(result) => {
            lemma_noted(old_session, Call::Read(size, session::bytes_view(result)), new_session);
        },
        ReadEvent::Received(_) => {},
        ReadEvent::Fed(result) => {
            let result = session::error_view(result);
            let bytes = state->Feed_0;
            lemma_noted(old_session, Call::Feed(bytes, result), new_session);
            if let Ok(n) = result {
                assert(bytes == bytes.take(n as int) + bytes.skip(n as int));
            }
        },
        ReadEvent::Processed(result) => {
            lemma_noted(old_session, Call::Work(session::fault_view(result)), new_session);
        },
    }
    let deed = Deed::Read(size, answer);
    assert(!send_failed(before, deed) && before.spec_session().said == gone + waiting(before)
        ==> after.spec_session().said == gone + sent_by(before, deed, after) + waiting(after));
    assert(!turned_away(before, deed, after) && before.spec_session().heard + held(before) == come
        ==> after.spec_session().heard + held(after) == come + received_by(before, deed, after));
}

/// What a step of a write does to the bytes that are on their way, and to the record
/// of the session.
proof fn lemma_write<C: Connection>(
    before: TlsStream<C>,
    buf: Seq<u8>,
    answer: Poll<Result<(), IoError>>,
    after: TlsStream<C>,
    gone: Seq<u8>,
    come: Seq<u8>,
)
    requires
        TlsStream::writes(before, buf, after, answer),
        before.spec_handshake() is Done,
        settled(before),
        recorded(before.spec_session()),
    ensures
        settled(after),
        recorded(after.spec_session()),
        deed_keeps(before, Deed::Write(buf, answer), after, gone, come),
{
    let state = before.spec_writing();
    let old_session = before.spec_session();
    let new_session = after.spec_session();
    let event = choose|event: WriteEvent|
        {
            &&& #[trigger] tls::write_fits(state, event)
            &&& tls::write_uses(before, buf, after, event)
            &&& (after.spec_writing(), tls::unit_view(answer)) == tls::write_advanced(state, event)
        };
    match event {
        WriteEvent::Given(result) => {
            lemma_noted(old_session, Call::Give(buf, session::error_view(result)), new_session);
        },
        WriteEvent::Taken(result) => {
            lemma_noted(old_session, Call::Take(session::bytes_view(result)), new_session);
        },
        WriteEvent::Sent(_) => {},
    }
    let deed = Deed::Write(buf, answer);
    assert(!send_failed(before, deed) && before.spec_session().said == gone + waiting(before)
        ==> after.spec_session().said == gone + sent_by(before, deed, after) + waiting(after));
    assert(!turned_away(before, deed, after) && before.spec_session().heard + held(before) == come
        ==> after.spec_session().heard + held(after) == come + received_by(before, deed, after));
}

/// Whether a deed loses no byte that is on its way, and keeps the bytes in order: if
/// what the session had said was `gone` or waited, what it has said now is gone or
/// waits, and if what had come was heard by the session or held for it, what has come
/// now is.
spec fn deed_keeps<C>(
    before: TlsStream<C>,
    deed: Deed,
    after: TlsStream<C>,
    gone: Seq<u8>,
    come: Seq<u8>,
) -> bool {
    &&& !send_failed(before, deed) && before.spec_session().said == gone + waiting(before)
        ==> after.spec_session().said == gone + sent_by(before, deed, after) + waiting(after)
    &&& !turned_away(before, deed, after) && before.spec_session().heard + held(before) == come
        ==> after.spec_session().heard + held(after) == come + received_by(before, deed, after)
}

/// What the first `k` deeds do to the bytes that are on their way.
proof fn lemma_run<C: Connection>(
    inner: C,
    host: Seq<char>,
    streams: Seq<TlsStream<C>>,
    deeds: Seq<Deed>,
    k: nat,
)
    requires
        runs(inner, host, streams, deeds),
        k <= deeds.len(),
    ensures
        settled(streams[k as int]),
        recorded(streams[k as int].spec_session()),
        no_send_fails(streams, deeds) ==> streams[k as int].spec_session().said == sent(
            streams,
            deeds.take(k as int),
        ) + waiting(streams[k as int]),
        none_turned_away(streams, deeds) ==> streams[k as int].spec_session().heard + held(
            streams[k as int],
        ) == received(streams, deeds.take(k as int)),
    decreases k,
{
    if k > 0 {
        let last = k - 1;
        let before = streams[last];
        let deed = deeds[last];
        let after = streams[last + 1];
        lemma_run(inner, host, streams, deeds, last as nat);
        assert(does(before, deed, after));
        let gone = sent(streams, deeds.take(last));
        let come = received(streams, deeds.take(last));
        match deed {
            Deed::Shake(outcome) => lemma_shake(before, outcome, after, gone, come),
            Deed::Read(size, answer) => lemma_read(before, size, answer, after, gone, come),
            Deed::Write(buf, answer) => lemma_write(before, buf, answer, after, gone, come),
        }
        assert(deeds.take(k as int).drop_last() == deeds.take(last));
    } else {
        assert(deeds.take(0) == Seq::<Deed>::empty());
        let session = streams[0].spec_session();
        assert(session.said == Seq::<u8>::empty());
        assert(session.heard == Seq::<u8>::empty());
        assert(session.said == sent(streams, deeds.take(0)) + waiting(streams[0]));
        assert(session.heard + held(streams[0]) == received(streams, deeds.take(0)));
    }
}

/// Whether the connection underneath never failed at the bytes offered to it.
pub open spec fn no_send_fails<C>(streams: Seq<TlsStream<C>>, deeds: Seq<Deed>) -> bool {
    forall|i: int| 0 <= i < deeds.len() ==> !send_failed(streams[i], #[trigger] deeds[i])
}

/// Whether the session always took some of the bytes that it was handed.
pub open spec fn none_turned_away<C>(streams: Seq<TlsStream<C>>, deeds: Seq<Deed>) -> bool {
    forall|i: int|
        0 <= i < deeds.len() ==> !turned_away(streams[i], #[trigger] deeds[i], streams[i + 1])
}

/// Whatever is done with a stream, the bytes that the connection underneath has taken
/// are, in order, those that the calls of the session gave for the server, but for
/// those that still wait to be sent. This holds as long as the connection does not
/// fail at bytes that it is offered.
pub proof fn law_what_session_says_is_sent<C: Connection>(
    inner: C,
    host: Seq<char>,
    streams: Seq<TlsStream<C>>,
    deeds: Seq<Deed>,
)
    requires
        runs(inner, host, streams, deeds),
        no_send_fails(streams, deeds),
    ensures
        taken(streams.last().spec_session().calls) == sent(streams, deeds) + waiting(
            streams.last(),
        ),
{
    lemma_run(inner, host, streams, deeds, deeds.len());
    assert(deeds.take(deeds.len() as int) == deeds);
}

/// Whatever is done with a stream, the bytes that the session takes in by its calls
/// are, in order, those that were received, but for those that are still held for it.
/// This holds as long as the session takes some of the bytes that it is handed.
pub proof fn law_what_is_received_is_heard<C: Connection>(
    inner: C,
    host: Seq<char>,
    streams: Seq<TlsStream<C>>,
    deeds: Seq<Deed>,
)
    requires
        runs(inner, host, streams, deeds),
        none_turned_away(streams, deeds),
    ensures
        fed(streams.last().spec_session().calls) + held(streams.last()) == received(
            streams,
            deeds,
        ),
{
    lemma_run(inner, host, streams, deeds, deeds.len());
    assert(deeds.take(deeds.len() as int) == deeds);
}

} // verus!
