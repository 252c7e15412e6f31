use vstd::prelude::*;
use vstd::string::*;

use crate::future::Poll;
use crate::rrest::connection::Connection;
use crate::rrest::error::{Error, ErrorView, IoError, IoErrorKind, IoErrorView};
use crate::rrest::session;
use crate::rrest::session::{Session, SessionError, SessionView};
use crate::rrest::text;

verus! {

/// How many bytes are asked of the connection underneath at a time.
pub const RECV_SIZE: usize = 16384;

/// The error for trouble with TLS.
pub open spec fn tls_error(error: IoErrorView) -> ErrorView {
    ErrorView::Io(
        IoErrorView::of_kind(IoErrorKind::Other, "TLS error: "@ + error.message),
    )
}

/// The error for trouble with TLS.
fn new_tls_error(error: &IoError) -> (converted: Error)
    ensures
        converted@ == tls_error(error@),
{
    Error::Io(IoError::other(text::joined("TLS error: ", error.message.as_str())))
}

/// Where a handshake stands: what is to be done next.
pub enum Handshake {
    /// Ask the session whether it has bytes for the server.
    AskWrite,
    /// Take the bytes that the session has for the server.
    Take,
    /// Send these bytes.
    Send(Vec<u8>),
    /// Ask the session whether it waits for bytes from the server.
    AskRead,
    /// Receive bytes from the server.
    Receive,
    /// Hand the session these bytes.
    Feed(Vec<u8>),
    /// Have the session work on what it was handed; these bytes are still to be
    /// handed to it.
    Process(Vec<u8>),
    /// Ask the session whether the handshake is under way; these bytes are still to
    /// be handed to it.
    AskDone(Vec<u8>),
    /// Nothing: the handshake is through. These bytes are still to be handed to the
    /// session.
    Done(Vec<u8>),
}

/// Where a handshake stands, for specifications.
pub enum HandshakeView {
    /// Ask the session whether it has bytes for the server.
    AskWrite,
    /// Take the bytes that the session has for the server.
    Take,
    /// Send these bytes.
    Send(Seq<u8>),
    /// Ask the session whether it waits for bytes from the server.
    AskRead,
    /// Receive bytes from the server.
    Receive,
    /// Hand the session these bytes.
    Feed(Seq<u8>),
    /// Have the session work on what it was handed.
    Process(Seq<u8>),
    /// Ask the session whether the handshake is under way.
    AskDone(Seq<u8>),
    /// Nothing: the handshake is through.
    Done(Seq<u8>),
}

impl View for Handshake {
    type V = HandshakeView;

    open spec fn view(&self) -> HandshakeView {
        match self {
            Handshake::AskWrite => HandshakeView::AskWrite,
            Handshake::Take => HandshakeView::Take,
            Handshake::Send(bytes) => HandshakeView::Send(bytes@),
            Handshake::AskRead => HandshakeView::AskRead,
            Handshake::Receive => HandshakeView::Receive,
            Handshake::Feed(bytes) => HandshakeView::Feed(bytes@),
            Handshake::Process(rest) => HandshakeView::Process(rest@),
            Handshake::AskDone(rest) => HandshakeView::AskDone(rest@),
            Handshake::Done(rest) => HandshakeView::Done(rest@),
        }
    }
}

/// What is still to be handed to a session that was handed `bytes` and took `n` of
/// them: those behind. A session that takes none will take no more.
pub open spec fn not_taken(bytes: Seq<u8>, n: usize) -> Seq<u8> {
    if n == 0 {
        Seq::empty()
    } else {
        bytes.skip(n as int)
    }
}

/// What is still to be handed to a session.
fn leave(bytes: Vec<u8>, n: usize) -> (rest: Vec<u8>)
    requires
        n <= bytes@.len(),
    ensures
        rest@ == not_taken(bytes@, n),
{
    if n == 0 {
        return Vec::new();
    }
    let mut bytes = bytes;
    let rest = bytes.split_off(n);
    rest
}

/// What came of the next thing to do in a handshake.
pub enum HandshakeEvent {
    /// The session has bytes for the server, or has not.
    WantsWrite(bool),
    /// The session gave its bytes for the server.
    Taken(Result<Vec<u8>, IoError>),
    /// The connection answered to being offered the bytes.
    Sent(Poll<Result<(), IoError>>),
    /// Whether the handshake is under way, and whether the session waits for
    /// bytes from the server.
    Wants { handshaking: bool, read: bool },
    /// The connection answered to being asked for bytes.
    Received(Poll<Result<Vec<u8>, IoError>>),
    /// The session took the bytes that it was handed.
    Fed(Result<usize, IoError>),
    /// The session has worked on what it was handed.
    Processed(Result<(), String>),
    /// The handshake is under way, or is not.
    Handshaking(bool),
}

/// Whether an event can come of what a handshake does next.
pub open spec fn fits(state: HandshakeView, event: HandshakeEvent) -> bool {
    match state {
        HandshakeView::AskWrite => event is WantsWrite,
        HandshakeView::Take => event is Taken,
        HandshakeView::Send(_) => event is Sent,
        HandshakeView::AskRead => event is Wants,
        HandshakeView::Receive => event is Received,
        HandshakeView::Feed(bytes) => event matches HandshakeEvent::Fed(result) && (
        result matches Ok(n) ==> n <= bytes.len()),
        HandshakeView::Process(_) => event is Processed,
        HandshakeView::AskDone(_) => event is Handshaking,
        HandshakeView::Done(_) => false,
    }
}

/// Where a handshake stands after an event, or why it has failed.
pub open spec fn advanced(state: HandshakeView, event: HandshakeEvent) -> Result<
    HandshakeView,
    ErrorView,
> {
    match event {
        HandshakeEvent::WantsWrite(true) => Ok(HandshakeView::Take),
        HandshakeEvent::WantsWrite(false) => Ok(HandshakeView::AskRead),
        HandshakeEvent::Taken(Err(error)) => Err(tls_error(error@)),
        HandshakeEvent::Taken(Ok(bytes)) => if bytes@.len() == 0 {
            Ok(HandshakeView::AskRead)
        } else {
            Ok(HandshakeView::Send(bytes@))
        },
        HandshakeEvent::Sent(Poll::Pending) => Ok(state),
        HandshakeEvent::Sent(Poll::Ready(Err(error))) => Err(ErrorView::Io(error@)),
        HandshakeEvent::Sent(Poll::Ready(Ok(_))) => Ok(HandshakeView::AskRead),
        HandshakeEvent::Wants { handshaking, read } => if handshaking && read {
            Ok(HandshakeView::Receive)
        } else {
            Ok(HandshakeView::Process(Seq::empty()))
        },
        HandshakeEvent::Received(Poll::Pending) => Ok(state),
        HandshakeEvent::Received(Poll::Ready(Err(error))) => Err(ErrorView::Io(error@)),
        HandshakeEvent::Received(Poll::Ready(Ok(bytes))) => if bytes@.len() == 0 {
            Err(
                ErrorView::Io(
                    IoErrorView::of_kind(
                        IoErrorKind::Other,
                        "connection closed during handshake"@,
                    ),
                ),
            )
        } else {
            Ok(HandshakeView::Feed(bytes@))
        },
        HandshakeEvent::Fed(Err(error)) => Err(tls_error(error@)),
        HandshakeEvent::Fed(Ok(n)) => Ok(HandshakeView::Process(not_taken(state->Feed_0, n))),
        HandshakeEvent::Processed(_) => Ok(HandshakeView::AskDone(state->Process_0)),
        HandshakeEvent::Handshaking(true) => if state->AskDone_0.len() == 0 {
            Ok(HandshakeView::AskWrite)
        } else {
            Ok(HandshakeView::Feed(state->AskDone_0))
        },
        HandshakeEvent::Handshaking(false) => Ok(HandshakeView::Done(state->AskDone_0)),
    }
}

/// Takes a handshake on by an event. What the session has to say against the
/// bytes that it was handed does not end the handshake, and bytes that it did not
/// take at once are handed to it when it has worked on those that it took.
pub fn advance(state: Handshake, event: HandshakeEvent) -> (result: Result<Handshake, Error>)
    requires
        fits(state@, event),
    ensures
        match (result, advanced(state@, event)) {
            (Ok(next), Ok(expected)) => next@ == expected,
            (Err(error), Err(expected)) => error@ == expected,
            _ => false,
        },
{
    match (state, event) {
        (_, HandshakeEvent::WantsWrite(wants)) => {
            if wants {
                Ok(Handshake::Take)
            } else {
                Ok(Handshake::AskRead)
            }
        },
        (_, HandshakeEvent::Taken(Err(error))) => Err(new_tls_error(&error)),
        (_, HandshakeEvent::Taken(Ok(bytes))) => {
            if bytes.len() == 0 {
                Ok(Handshake::AskRead)
            } else {
                Ok(Handshake::Send(bytes))
            }
        },
        (state, HandshakeEvent::Sent(Poll::Pending)) => Ok(state),
        (_, HandshakeEvent::Sent(Poll::Ready(Err(error)))) => Err(Error::Io(error)),
        (_, HandshakeEvent::Sent(Poll::Ready(Ok(_)))) => Ok(Handshake::AskRead),
        (_, HandshakeEvent::Wants { handshaking, read }) => {
            if handshaking && read {
                Ok(Handshake::Receive)
            } else {
                Ok(Handshake::Process(Vec::new()))
            }
        },
        (state, HandshakeEvent::Received(Poll::Pending)) => Ok(state),
        (_, HandshakeEvent::Received(Poll::Ready(Err(error)))) => Err(Error::Io(error)),
        (_, HandshakeEvent::Received(Poll::Ready(Ok(bytes)))) => {
            if bytes.len() == 0 {
                Err(Error::Io(IoError::other("connection closed during handshake".to_owned())))
            } else {
                Ok(Handshake::Feed(bytes))
            }
        },
        (_, HandshakeEvent::Fed(Err(error))) => Err(new_tls_error(&error)),
        (Handshake::Feed(bytes), HandshakeEvent::Fed(Ok(n))) => Ok(
            Handshake::Process(leave(bytes, n)),
        ),
        (Handshake::Process(rest), HandshakeEvent::Processed(_)) => Ok(Handshake::AskDone(rest)),
        (Handshake::AskDone(rest), HandshakeEvent::Handshaking(handshaking)) => {
            if !handshaking {
                Ok(Handshake::Done(rest))
            } else if rest.len() == 0 {
                Ok(Handshake::AskWrite)
            } else {
                Ok(Handshake::Feed(rest))
            }
        },
        _ => vstd::pervasive::unreached(),
    }
}

/// A handshake is through only when the session says that it is no longer under
/// way.
pub proof fn law_handshake_ends_with_session(state: HandshakeView, event: HandshakeEvent)
    requires
        fits(state, event),
    ensures
        (advanced(state, event) matches Ok(next) && next is Done) <==> event
            == HandshakeEvent::Handshaking(false),
{
}

/// A handshake hands on what it gets: it sends the bytes that the session gave, feeds
/// the session the bytes that it received, and, as long as the session takes any,
/// lets go of no byte that the session has not taken.
pub proof fn law_handshake_passes_bytes_on(state: HandshakeView, event: HandshakeEvent)
    requires
        fits(state, event),
    ensures
        event matches HandshakeEvent::Taken(Ok(bytes)) ==> bytes@.len() > 0 ==> advanced(
            state,
            event,
        ) == Ok::<HandshakeView, ErrorView>(HandshakeView::Send(bytes@)),
        event matches HandshakeEvent::Received(Poll::Ready(Ok(bytes))) ==> bytes@.len() > 0
            ==> advanced(state, event) == Ok::<HandshakeView, ErrorView>(
            HandshakeView::Feed(bytes@),
        ),
        event matches HandshakeEvent::Fed(Ok(n)) ==> n > 0 ==> (advanced(state, event) matches Ok(
            next,
        ) && next is Process && state->Feed_0 == state->Feed_0.take(n as int) + next->Process_0),
{
    if let HandshakeEvent::Fed(Ok(n)) = event {
        if n > 0 {
            let bytes = state->Feed_0;
            assert(bytes == bytes.take(n as int) + bytes.skip(n as int));
        }
    }
}

/// Where a read stands: what is to be done next.
pub enum Reading {
    /// Take bytes that have come through the session; these bytes are still to be
    /// handed to it.
    Take(Vec<u8>),
    /// Receive bytes from the server.
    Receive,
    /// Hand the session these bytes.
    Feed(Vec<u8>),
    /// Have the session work on what it was handed; these bytes are still to be
    /// handed to it.
    Process(Vec<u8>),
}

/// Where a read stands, for specifications.
pub enum ReadingView {
    /// Take bytes that have come through the session.
    Take(Seq<u8>),
    /// Receive bytes from the server.
    Receive,
    /// Hand the session these bytes.
    Feed(Seq<u8>),
    /// Have the session work on what it was handed.
    Process(Seq<u8>),
}

impl View for Reading {
    type V = ReadingView;

    open spec fn view(&self) -> ReadingView {
        match self {
            Reading::Take(rest) => ReadingView::Take(rest@),
            Reading::Receive => ReadingView::Receive,
            Reading::Feed(bytes) => ReadingView::Feed(bytes@),
            Reading::Process(rest) => ReadingView::Process(rest@),
        }
    }
}

/// What came of the next thing to do in a read.
pub enum ReadEvent {
    /// The session gave what has come through it.
    Taken(Result<Vec<u8>, IoError>),
    /// The connection answered to being asked for bytes.
    Received(Poll<Result<Vec<u8>, IoError>>),
    /// The session took the bytes that it was handed.
    Fed(Result<usize, IoError>),
    /// The session has worked on what it was handed.
    Processed(Result<(), String>),
}

/// Whether an event can come of what a read does next.
pub open spec fn read_fits(state: ReadingView, event: ReadEvent) -> bool {
    match state {
        ReadingView::Take(_) => event is Taken,
        ReadingView::Receive => event is Received,
        ReadingView::Feed(bytes) => event matches ReadEvent::Fed(result) && (result matches Ok(n)
            ==> n <= bytes.len()),
        ReadingView::Process(_) => event is Processed,
    }
}

/// An answer of bytes, for specifications.
pub open spec fn answer_view(answer: Poll<Result<Vec<u8>, IoError>>) -> Poll<
    Result<Seq<u8>, IoErrorView>,
> {
    match answer {
        Poll::Pending => Poll::Pending,
        Poll::Ready(result) => Poll::Ready(session::bytes_view(result)),
    }
}

/// Where a read goes on when nothing has come through the session: what is still to
/// be handed to it comes before what the server has yet to send.
pub open spec fn fed_next(rest: Seq<u8>) -> ReadingView {
    if rest.len() == 0 {
        ReadingView::Receive
    } else {
        ReadingView::Feed(rest)
    }
}

/// Where a read stands after an event, and how it is answered. Bytes that have
/// come through the session are the answer; the end of the connection is one
/// without bytes.
pub open spec fn read_advanced(state: ReadingView, event: ReadEvent) -> (
    ReadingView,
    Poll<Result<Seq<u8>, IoErrorView>>,
) {
    match event {
        ReadEvent::Taken(Ok(bytes)) => if bytes@.len() == 0 {
            (fed_next(state->Take_0), Poll::Pending)
        } else {
            (state, Poll::Ready(Ok(bytes@)))
        },
        ReadEvent::Taken(Err(error)) => if error.kind == IoErrorKind::WouldBlock {
            (fed_next(state->Take_0), Poll::Pending)
        } else {
            (state, Poll::Ready(Err(error@)))
        },
        ReadEvent::Received(Poll::Pending) => (ReadingView::Receive, Poll::Pending),
        ReadEvent::Received(Poll::Ready(Err(error))) => (
            ReadingView::Take(Seq::empty()),
            Poll::Ready(Err(error@)),
        ),
        ReadEvent::Received(Poll::Ready(Ok(bytes))) => if bytes@.len() == 0 {
            (ReadingView::Take(Seq::empty()), Poll::Ready(Ok(Seq::empty())))
        } else {
            (ReadingView::Feed(bytes@), Poll::Pending)
        },
        ReadEvent::Fed(Ok(n)) => (
            ReadingView::Process(not_taken(state->Feed_0, n)),
            Poll::Pending,
        ),
        ReadEvent::Fed(Err(error)) => if error.kind == IoErrorKind::WouldBlock {
            (ReadingView::Take(Seq::empty()), Poll::Pending)
        } else {
            (ReadingView::Take(Seq::empty()), Poll::Ready(Err(error@)))
        },
        ReadEvent::Processed(Ok(_)) => (ReadingView::Take(state->Process_0), Poll::Pending),
        ReadEvent::Processed(Err(message)) => (
            ReadingView::Take(state->Process_0),
            Poll::Ready(
                Err(IoErrorView::of_kind(IoErrorKind::InvalidData, message@)),
            ),
        ),
    }
}

/// Where a read stands that is left bytes to be handed to the session: behind those
/// that it has to hand over itself.
pub open spec fn left_to(state: ReadingView, bytes: Seq<u8>) -> ReadingView {
    match state {
        ReadingView::Take(rest) => ReadingView::Take(rest + bytes),
        ReadingView::Receive => fed_next(bytes),
        ReadingView::Feed(first) => ReadingView::Feed(first + bytes),
        ReadingView::Process(rest) => ReadingView::Process(rest + bytes),
    }
}

/// Goes on with a read when nothing has come through the session.
fn feed_next(rest: Vec<u8>) -> (next: Reading)
    ensures
        next@ == fed_next(rest@),
{
    if rest.len() == 0 {
        Reading::Receive
    } else {
        Reading::Feed(rest)
    }
}

/// Leaves a read bytes to be handed to the session.
fn leave_to(state: Reading, bytes: Vec<u8>) -> (next: Reading)
    ensures
        next@ == left_to(state@, bytes@),
{
    let mut bytes = bytes;
    match state {
        Reading::Take(rest) => {
            let mut rest = rest;
            rest.append(&mut bytes);
            Reading::Take(rest)
        },
        Reading::Receive => feed_next(bytes),
        Reading::Feed(first) => {
            let mut first = first;
            first.append(&mut bytes);
            Reading::Feed(first)
        },
        Reading::Process(rest) => {
            let mut rest = rest;
            rest.append(&mut bytes);
            Reading::Process(rest)
        },
    }
}

/// Takes a read on by an event. Bytes that the session did not take at once are
/// handed to it when nothing more comes through it of those that it took.
pub fn read_advance(state: Reading, event: ReadEvent) -> (step: (
    Reading,
    Poll<Result<Vec<u8>, IoError>>,
))
    requires
        read_fits(state@, event),
    ensures
        (step.0@, answer_view(step.1)) == read_advanced(state@, event),
        step.1 matches Poll::Ready(Ok(bytes)) ==> bytes@.len() == 0 || event == ReadEvent::Taken(
            Ok(bytes),
        ),
{
    match (state, event) {
        (Reading::Take(rest), ReadEvent::Taken(Ok(bytes))) => {
            if bytes.len() == 0 {
                (feed_next(rest), Poll::Pending)
            } else {
                (Reading::Take(rest), Poll::Ready(Ok(bytes)))
            }
        },
        (Reading::Take(rest), ReadEvent::Taken(Err(error))) => {
            if error.is_would_block() {
                (feed_next(rest), Poll::Pending)
            } else {
                (Reading::Take(rest), Poll::Ready(Err(error)))
            }
        },
        (_, ReadEvent::Received(Poll::Pending)) => (Reading::Receive, Poll::Pending),
        (_, ReadEvent::Received(Poll::Ready(Err(error)))) => (
            Reading::Take(Vec::new()),
            Poll::Ready(Err(error)),
        ),
        (_, ReadEvent::Received(Poll::Ready(Ok(bytes)))) => {
            if bytes.len() == 0 {
                assert(bytes@ == Seq::<u8>::empty());
                (Reading::Take(Vec::new()), Poll::Ready(Ok(bytes)))
            } else {
                (Reading::Feed(bytes), Poll::Pending)
            }
        },
        (Reading::Feed(bytes), ReadEvent::Fed(Ok(n))) => (
            Reading::Process(leave(bytes, n)),
            Poll::Pending,
        ),
        (_, ReadEvent::Fed(Err(error))) => {
            if error.is_would_block() {
                (Reading::Take(Vec::new()), Poll::Pending)
            } else {
                (Reading::Take(Vec::new()), Poll::Ready(Err(error)))
            }
        },
        (Reading::Process(rest), ReadEvent::Processed(Ok(_))) => (
            Reading::Take(rest),
            Poll::Pending,
        ),
        (Reading::Process(rest), ReadEvent::Processed(Err(message))) => (
            Reading::Take(rest),
            Poll::Ready(Err(IoError::of_kind(IoErrorKind::InvalidData, message))),
        ),
        _ => vstd::pervasive::unreached(),
    }
}

/// Where a write stands: what is to be done next.
pub enum Writing {
    /// Hand the session the bytes to be sent.
    Give,
    /// Take the bytes that the session has for the server.
    Take,
    /// Send these bytes.
    Send(Vec<u8>),
}

/// Where a write stands, for specifications.
pub enum WritingView {
    /// Hand the session the bytes to be sent.
    Give,
    /// Take the bytes that the session has for the server.
    Take,
    /// Send these bytes.
    Send(Seq<u8>),
}

impl View for Writing {
    type V = WritingView;

    open spec fn view(&self) -> WritingView {
        match self {
            Writing::Give => WritingView::Give,
            Writing::Take => WritingView::Take,
            Writing::Send(bytes) => WritingView::Send(bytes@),
        }
    }
}

/// What came of the next thing to do in a write.
pub enum WriteEvent {
    /// The session took the bytes to be sent.
    Given(Result<(), IoError>),
    /// The session gave its bytes for the server.
    Taken(Result<Vec<u8>, IoError>),
    /// The connection answered to being offered the bytes.
    Sent(Poll<Result<(), IoError>>),
}

/// Whether an event can come of what a write does next.
pub open spec fn write_fits(state: WritingView, event: WriteEvent) -> bool {
    match state {
        WritingView::Give => event is Given,
        WritingView::Take => event is Taken,
        WritingView::Send(_) => event is Sent,
    }
}

/// An answer without bytes, for specifications.
pub open spec fn unit_view(answer: Poll<Result<(), IoError>>) -> Poll<Result<(), IoErrorView>> {
    match answer {
        Poll::Pending => Poll::Pending,
        Poll::Ready(Ok(_)) => Poll::Ready(Ok(())),
        Poll::Ready(Err(error)) => Poll::Ready(Err(error@)),
    }
}

/// An error of a request, as an I/O error.
pub open spec fn as_io_error(error: ErrorView) -> IoErrorView {
    IoErrorView::of_kind(IoErrorKind::Other, error.in_words())
}

/// Where a write stands after an event, and how it is answered. The session gives
/// bytes for the server until it has none left.
pub open spec fn write_advanced(state: WritingView, event: WriteEvent) -> (
    WritingView,
    Poll<Result<(), IoErrorView>>,
) {
    match event {
        WriteEvent::Given(Ok(_)) => (WritingView::Take, Poll::Pending),
        WriteEvent::Given(Err(error)) => (
            WritingView::Give,
            Poll::Ready(
                Err(IoErrorView::of_kind(IoErrorKind::InvalidData, error.message@)),
            ),
        ),
        WriteEvent::Taken(Ok(bytes)) => if bytes@.len() == 0 {
            (WritingView::Give, Poll::Ready(Ok(())))
        } else {
            (WritingView::Send(bytes@), Poll::Pending)
        },
        WriteEvent::Taken(Err(error)) => if error.kind == IoErrorKind::WouldBlock {
            (WritingView::Give, Poll::Ready(Ok(())))
        } else {
            (WritingView::Give, Poll::Ready(Err(as_io_error(tls_error(error@)))))
        },
        WriteEvent::Sent(Poll::Pending) => (state, Poll::Pending),
        WriteEvent::Sent(Poll::Ready(Ok(_))) => (WritingView::Take, Poll::Pending),
        WriteEvent::Sent(Poll::Ready(Err(error))) => (
            WritingView::Give,
            Poll::Ready(Err(as_io_error(ErrorView::Io(error@)))),
        ),
    }
}

/// Takes a write on by an event.
pub fn write_advance(state: Writing, event: WriteEvent) -> (step: (
    Writing,
    Poll<Result<(), IoError>>,
))
    requires
        write_fits(state@, event),
    ensures
        (step.0@, unit_view(step.1)) == write_advanced(state@, event),
{
    match event {
        WriteEvent::Given(Ok(_)) => (Writing::Take, Poll::Pending),
        WriteEvent::Given(Err(error)) => (
            Writing::Give,
            Poll::Ready(
                Err(IoError::of_kind(IoErrorKind::InvalidData, error.message)),
            ),
        ),
        WriteEvent::Taken(Ok(bytes)) => {
            if bytes.len() == 0 {
                (Writing::Give, Poll::Ready(Ok(())))
            } else {
                (Writing::Send(bytes), Poll::Pending)
            }
        },
        WriteEvent::Taken(Err(error)) => {
            if error.is_would_block() {
                (Writing::Give, Poll::Ready(Ok(())))
            } else {
                let error = new_tls_error(&error);
                (Writing::Give, Poll::Ready(Err(IoError::other(error.describe()))))
            }
        },
        WriteEvent::Sent(Poll::Pending) => (state, Poll::Pending),
        WriteEvent::Sent(Poll::Ready(Ok(_))) => (Writing::Take, Poll::Pending),
        WriteEvent::Sent(Poll::Ready(Err(error))) => (
            Writing::Give,
            Poll::Ready(Err(IoError::other(Error::Io(error).describe()))),
        ),
    }
}

/// A connection through a TLS session over another connection.
pub struct TlsStream<C> {
    inner: C,
    session: Session,
    handshake: Handshake,
    reading: Reading,
    writing: Writing,
}

/// The error for a host that is no name of a server.
pub open spec fn server_name_refused(message: Seq<char>) -> ErrorView {
    ErrorView::Io(
        IoErrorView::of_kind(IoErrorKind::Other, "invalid server name: "@ + message),
    )
}

/// The error for a session that cannot be made.
pub open spec fn session_refused(message: Seq<char>) -> ErrorView {
    ErrorView::Io(
        IoErrorView::of_kind(
            IoErrorKind::Other,
            "failed to create TLS connection: "@ + message,
        ),
    )
}

/// A stream over `inner` whose handshake is still to be made.
pub open spec fn at_start<C>(stream: TlsStream<C>, inner: C) -> bool {
    &&& stream.wf()
    &&& stream.spec_inner() == inner
    &&& stream.spec_handshake() is AskWrite
    &&& stream.spec_reading() == ReadingView::Take(Seq::empty())
    &&& stream.spec_writing() is Give
}

/// What setting out to a TLS session with `host` over `inner` can come to: a host
/// that is no name of a server is refused, and otherwise the handshake of a fresh
/// session with that host is next, unless no session can be made.
pub open spec fn sets_out<C>(
    inner: C,
    host: Seq<char>,
    result: Result<TlsStream<C>, Error>,
) -> bool {
    match session::server_name_error(host) {
        Some(message) => result matches Err(error) && error@ == server_name_refused(message),
        None => match result {
            Ok(stream) => {
                &&& at_start(stream, inner)
                &&& session::is_fresh(stream.spec_session(), host)
            },
            Err(error) => exists|message: Seq<char>| error@ == #[trigger] session_refused(message),
        },
    }
}

impl<C> TlsStream<C> {
    /// The connection underneath.
    pub closed spec fn spec_inner(&self) -> C {
        self.inner
    }

    /// The session.
    pub closed spec fn spec_session(&self) -> SessionView {
        self.session@
    }

    /// Where the handshake stands.
    pub closed spec fn spec_handshake(&self) -> HandshakeView {
        self.handshake@
    }

    /// Where a read stands.
    pub closed spec fn spec_reading(&self) -> ReadingView {
        self.reading@
    }

    /// Where a write stands.
    pub closed spec fn spec_writing(&self) -> WritingView {
        self.writing@
    }

    /// A handshake that is through is so for the session too.
    pub open spec fn wf(&self) -> bool {
        self.spec_handshake() is Done ==> !self.spec_session().handshaking
    }

    /// Goes by what came of making a session: a stream over `inner` whose handshake
    /// is still to be made, or the error.
    pub fn over(inner: C, made: Result<Session, SessionError>) -> (result: Result<Self, Error>)
        ensures
            match made {
                Ok(session) => {
                    &&& result matches Ok(stream)
                    &&& at_start(stream, inner)
                    &&& stream.spec_session() == session@
                },
                Err(SessionError::Name(message)) => result matches Err(error) && error@
                    == server_name_refused(message@),
                Err(SessionError::Session(message)) => result matches Err(error) && error@
                    == session_refused(message@),
            },
    {
        match made {
            Ok(session) => Ok(
                TlsStream {
                    inner,
                    session,
                    handshake: Handshake::AskWrite,
                    reading: Reading::Take(Vec::new()),
                    writing: Writing::Give,
                },
            ),
            Err(SessionError::Name(message)) => Err(
                Error::Io(
                    IoError::other(text::joined("invalid server name: ", message.as_str())),
                ),
            ),
            Err(SessionError::Session(message)) => Err(
                Error::Io(
                    IoError::other(
                        text::joined("failed to create TLS connection: ", message.as_str()),
                    ),
                ),
            ),
        }
    }

    /// Sets out to a TLS session with `host` over `inner`. The handshake is still
    /// to be made.
    pub fn new(inner: C, host: &str) -> (result: Result<Self, Error>)
        ensures
            sets_out(inner, host@, result),
    {
        let made = session::client_connection(host);
        Self::over(inner, made)
    }
}

/// Whether `event` is what comes of doing what a handshake does next, and the
/// session and the connection are used for just that.
pub open spec fn handshake_uses<C: Connection>(
    before: TlsStream<C>,
    after: TlsStream<C>,
    event: HandshakeEvent,
) -> bool {
    let state = before.spec_handshake();
    let session = before.spec_session();
    &&& match state {
        HandshakeView::Send(bytes) => event matches HandshakeEvent::Sent(answer) && C::writes(
            before.spec_inner(),
            bytes,
            after.spec_inner(),
            answer,
        ),
        HandshakeView::Receive => event matches HandshakeEvent::Received(answer) && C::reads(
            before.spec_inner(),
            RECV_SIZE,
            after.spec_inner(),
            answer,
        ),
        _ => after.spec_inner() == before.spec_inner(),
    }
    &&& match state {
        HandshakeView::AskWrite => {
            &&& event == HandshakeEvent::WantsWrite(session.wants_write)
            &&& after.spec_session() == session
        },
        HandshakeView::Take => event matches HandshakeEvent::Taken(result) && session::takes(
            session,
            after.spec_session(),
            session::bytes_view(result),
        ),
        HandshakeView::AskRead => {
            &&& event == HandshakeEvent::Wants {
                handshaking: session.handshaking,
                read: session.wants_read,
            }
            &&& after.spec_session() == session
        },
        HandshakeView::Feed(bytes) => event matches HandshakeEvent::Fed(result) && session::feeds(
            session,
            bytes,
            after.spec_session(),
            session::error_view(result),
        ),
        HandshakeView::Process(_) => event matches HandshakeEvent::Processed(result)
            && session::works(session, after.spec_session(), session::fault_view(result)),
        HandshakeView::AskDone(_) => {
            &&& event == HandshakeEvent::Handshaking(session.handshaking)
            &&& after.spec_session() == session
        },
        _ => after.spec_session() == session,
    }
}

/// Whether `event` is what comes of doing what a read of `size` bytes does next, and
/// the session and the connection are used for just that.
pub open spec fn read_uses<C: Connection>(
    before: TlsStream<C>,
    size: usize,
    after: TlsStream<C>,
    event: ReadEvent,
) -> bool {
    let session = before.spec_session();
    &&& match before.spec_reading() {
        ReadingView::Receive => event matches ReadEvent::Received(answer) && C::reads(
            before.spec_inner(),
            RECV_SIZE,
            after.spec_inner(),
            answer,
        ),
        _ => after.spec_inner() == before.spec_inner(),
    }
    &&& match before.spec_reading() {
        ReadingView::Take(_) => event matches ReadEvent::Taken(result) && session::hands_over(
            session,
            size,
            after.spec_session(),
            session::bytes_view(result),
        ),
        ReadingView::Receive => after.spec_session() == session,
        ReadingView::Feed(bytes) => event matches ReadEvent::Fed(result) && session::feeds(
            session,
            bytes,
            after.spec_session(),
            session::error_view(result),
        ),
        ReadingView::Process(_) => event matches ReadEvent::Processed(result) && session::works(
            session,
            after.spec_session(),
            session::fault_view(result),
        ),
    }
}

/// Whether `event` is what comes of doing what a write of `buf` does next, and the
/// session and the connection are used for just that.
pub open spec fn write_uses<C: Connection>(
    before: TlsStream<C>,
    buf: Seq<u8>,
    after: TlsStream<C>,
    event: WriteEvent,
) -> bool {
    let session = before.spec_session();
    &&& match before.spec_writing() {
        WritingView::Send(bytes) => event matches WriteEvent::Sent(answer) && C::writes(
            before.spec_inner(),
            bytes,
            after.spec_inner(),
            answer,
        ),
        _ => after.spec_inner() == before.spec_inner(),
    }
    &&& match before.spec_writing() {
        WritingView::Give => event matches WriteEvent::Given(result) && session::accepts(
            session,
            buf,
            after.spec_session(),
            session::error_view(result),
        ),
        WritingView::Take => event matches WriteEvent::Taken(result) && session::takes(
            session,
            after.spec_session(),
            session::bytes_view(result),
        ),
        WritingView::Send(_) => after.spec_session() == session,
    }
}

/// Whether a stream whose handshake an event has taken a step further stands where
/// it is to stand, and that step comes to `outcome`. Bytes that are left over when the
/// handshake is through are left to the reads.
pub open spec fn shaken<C>(
    before: TlsStream<C>,
    after: TlsStream<C>,
    event: HandshakeEvent,
    outcome: Poll<Result<(), Error>>,
) -> bool {
    match advanced(before.spec_handshake(), event) {
        Ok(HandshakeView::Done(rest)) => {
            &&& outcome == Poll::Ready(Ok::<(), Error>(()))
            &&& after.spec_handshake() == HandshakeView::Done(Seq::empty())
            &&& after.spec_reading() == left_to(before.spec_reading(), rest)
        },
        Ok(next) => {
            &&& outcome is Pending
            &&& after.spec_handshake() == next
            &&& after.spec_reading() == before.spec_reading()
        },
        Err(expected) => {
            &&& outcome matches Poll::Ready(Err(error)) && error@ == expected
            &&& after.spec_handshake() is AskWrite
            &&& after.spec_reading() == before.spec_reading()
        },
    }
}

impl<C: Connection> TlsStream<C> {
    /// Whether taking the handshake of `before` a step further can leave `after`
    /// behind and come to `outcome`.
    pub open spec fn shakes(before: Self, after: Self, outcome: Poll<Result<(), Error>>) -> bool {
        let state = before.spec_handshake();
        &&& after.spec_writing() == before.spec_writing()
        &&& if state is Done {
            &&& outcome == Poll::Ready(Ok::<(), Error>(()))
            &&& after.spec_handshake() == HandshakeView::Done(Seq::empty())
            &&& after.spec_reading() == before.spec_reading()
            &&& after.spec_inner() == before.spec_inner()
            &&& after.spec_session() == before.spec_session()
        } else {
            exists|event: HandshakeEvent|
                {
                    &&& #[trigger] fits(state, event)
                    &&& handshake_uses(before, after, event)
                    &&& shaken(before, after, event, outcome)
                }
        }
    }

    /// Takes the handshake a step further. It is ready when the handshake is
    /// through or has failed.
    pub fn handshake(&mut self) -> (outcome: Poll<Result<(), Error>>)
        requires
            old(self).wf(),
        ensures
            final(self).wf(),
            Self::shakes(*old(self), *final(self), outcome),
            outcome == Poll::Ready(Ok::<(), Error>(())) ==> !final(self).spec_session().handshaking,
    {
        let mut state = Handshake::AskWrite;
        std::mem::swap(&mut self.handshake, &mut state);
        let event = match &state {
            Handshake::AskWrite => HandshakeEvent::WantsWrite(session::wants_write(&self.session)),
            Handshake::Take => HandshakeEvent::Taken(session::write_tls(&mut self.session)),
            Handshake::Send(bytes) => HandshakeEvent::Sent(self.inner.write_all(bytes.as_slice())),
            Handshake::AskRead => HandshakeEvent::Wants {
                handshaking: session::is_handshaking(&self.session),
                read: session::wants_read(&self.session),
            },
            Handshake::Receive => HandshakeEvent::Received(self.inner.read(RECV_SIZE)),
            Handshake::Feed(bytes) => HandshakeEvent::Fed(
                session::read_tls(&mut self.session, bytes.as_slice()),
            ),
            Handshake::Process(_) => HandshakeEvent::Processed(
                session::process_new_packets(&mut self.session),
            ),
            Handshake::AskDone(_) => HandshakeEvent::Handshaking(
                session::is_handshaking(&self.session),
            ),
            Handshake::Done(_) => {
                self.handshake = Handshake::Done(Vec::new());
                assert(self.handshake@ == HandshakeView::Done(Seq::empty()));
                return Poll::Ready(Ok(()));
            },
        };
        let ghost given = event;
        assert(fits(old(self).spec_handshake(), given));
        match advance(state, event) {
            Ok(Handshake::Done(rest)) => {
                self.handshake = Handshake::Done(Vec::new());
                let mut reading = Reading::Receive;
                std::mem::swap(&mut self.reading, &mut reading);
                self.reading = leave_to(reading, rest);
                assert(self.handshake@ == HandshakeView::Done(Seq::empty()));
                Poll::Ready(Ok(()))
            },
            Ok(next) => {
                self.handshake = next;
                Poll::Pending
            },
            Err(error) => Poll::Ready(Err(error)),
        }
    }
}

impl<C: Connection> Connection for TlsStream<C> {
    open spec fn reads(
        before: Self,
        size: usize,
        after: Self,
        answer: Poll<Result<Vec<u8>, IoError>>,
    ) -> bool {
        &&& after.spec_handshake() == before.spec_handshake()
        &&& after.spec_writing() == before.spec_writing()
        &&& exists|event: ReadEvent|
            {
                &&& #[trigger] read_fits(before.spec_reading(), event)
                &&& read_uses(before, size, after, event)
                &&& (after.spec_reading(), answer_view(answer)) == read_advanced(
                    before.spec_reading(),
                    event,
                )
            }
    }

    open spec fn writes(
        before: Self,
        buf: Seq<u8>,
        after: Self,
        answer: Poll<Result<(), IoError>>,
    ) -> bool {
        &&& after.spec_handshake() == before.spec_handshake()
        &&& after.spec_reading() == before.spec_reading()
        &&& exists|event: WriteEvent|
            {
                &&& #[trigger] write_fits(before.spec_writing(), event)
                &&& write_uses(before, buf, after, event)
                &&& (after.spec_writing(), unit_view(answer)) == write_advanced(
                    before.spec_writing(),
                    event,
                )
            }
    }

    fn read(&mut self, size: usize) -> (answer: Poll<Result<Vec<u8>, IoError>>) {
        let mut state = Reading::Receive;
        std::mem::swap(&mut self.reading, &mut state);
        let event = match &state {
            Reading::Take(_) => ReadEvent::Taken(session::read_plain(&mut self.session, size)),
            Reading::Receive => ReadEvent::Received(self.inner.read(RECV_SIZE)),
            Reading::Feed(bytes) => ReadEvent::Fed(
                session::read_tls(&mut self.session, bytes.as_slice()),
            ),
            Reading::Process(_) => ReadEvent::Processed(
                session::process_new_packets(&mut self.session),
            ),
        };
        let ghost given = event;
        assert(read_fits(old(self).spec_reading(), given));
        let (next, answer) = read_advance(state, event);
        self.reading = next;
        answer
    }

    fn write_all(&mut self, buf: &[u8]) -> (answer: Poll<Result<(), IoError>>) {
        let mut state = Writing::Give;
        std::mem::swap(&mut self.writing, &mut state);
        let event = match &state {
            Writing::Give => WriteEvent::Given(session::write_plain(&mut self.session, buf)),
            Writing::Take => WriteEvent::Taken(session::write_tls(&mut self.session)),
            Writing::Send(bytes) => WriteEvent::Sent(self.inner.write_all(bytes.as_slice())),
        };
        let ghost given = event;
        assert(write_fits(old(self).spec_writing(), given));
        let (next, answer) = write_advance(state, event);
        self.writing = next;
        answer
    }
}

/// A connection through a TLS session with `host` over `inner`, whose handshake is
/// still to be made.
pub fn wrap_tls<C>(inner: C, host: &str) -> (result: Result<TlsStream<C>, Error>)
    ensures
        sets_out(inner, host@, result),
{
    TlsStream::new(inner, host)
}

/// A stream stays with its host, and a session whose handshake is through stays so,
/// whatever is done with the stream.
pub proof fn law_stream_keeps_its_session<C: Connection>(
    before: TlsStream<C>,
    after: TlsStream<C>,
    shaken: Poll<Result<(), Error>>,
    size: usize,
    read: Poll<Result<Vec<u8>, IoError>>,
    buf: Seq<u8>,
    written: Poll<Result<(), IoError>>,
)
    requires
        TlsStream::shakes(before, after, shaken) || TlsStream::reads(before, size, after, read)
            || TlsStream::writes(before, buf, after, written),
    ensures
        after.spec_session().host == before.spec_session().host,
        !before.spec_session().handshaking ==> !after.spec_session().handshaking,
        before.wf() ==> after.wf(),
{
}

/// What a read answers with has come through the session: it is the front of what
/// was not handed over before, no longer than was asked for, and the rest stays.
pub proof fn law_read_bytes_come_through_session<C: Connection>(
    before: TlsStream<C>,
    size: usize,
    after: TlsStream<C>,
    answer: Poll<Result<Vec<u8>, IoError>>,
    bytes: Vec<u8>,
)
    requires
        TlsStream::reads(before, size, after, answer),
        answer == Poll::Ready(Ok::<Vec<u8>, IoError>(bytes)),
        bytes@.len() > 0,
    ensures
        before.spec_session().unread == bytes@ + after.spec_session().unread,
        bytes@.len() <= size,
        bytes@.len() == size || after.spec_session().unread.len() == 0,
{
    assert(answer_view(answer) == Poll::Ready(Ok::<Seq<u8>, IoErrorView>(bytes@)));
    let event = choose|event: ReadEvent|
        {
            &&& #[trigger] read_fits(before.spec_reading(), event)
            &&& read_uses(before, size, after, event)
            &&& (after.spec_reading(), answer_view(answer)) == read_advanced(
                before.spec_reading(),
                event,
            )
        };
    assert(event is Taken);
    let unread = before.spec_session().unread;
    let n = bytes@.len() as int;
    assert(unread == unread.take(n) + unread.skip(n));
}

/// A write that goes on from one call to the next: each call finds the stream as the
/// one before left it, and all but the last are pending.
pub open spec fn writes_on<C: Connection>(
    streams: Seq<TlsStream<C>>,
    buf: Seq<u8>,
    answers: Seq<Poll<Result<(), IoError>>>,
) -> bool {
    &&& answers.len() > 0
    &&& streams.len() == answers.len() + 1
    &&& forall|i: int|
        0 <= i < answers.len() ==> TlsStream::writes(
            streams[i],
            buf,
            streams[i + 1],
            #[trigger] answers[i],
        )
    &&& forall|i: int| 0 <= i < answers.len() - 1 ==> (#[trigger] answers[i]) is Pending
}

/// Once the session has been given the bytes, the calls that follow give it nothing.
proof fn lemma_given_once<C: Connection>(
    streams: Seq<TlsStream<C>>,
    buf: Seq<u8>,
    answers: Seq<Poll<Result<(), IoError>>>,
)
    requires
        writes_on(streams, buf, answers),
        !(streams[0].spec_writing() is Give),
    ensures
        streams.last().spec_session().given == streams[0].spec_session().given,
    decreases answers.len(),
{
    assert(TlsStream::writes(streams[0], buf, streams[1], answers[0]));
    if answers.len() > 1 {
        assert(answers[0] is Pending);
        assert(!(streams[1].spec_writing() is Give));
        let later = streams.skip(1);
        let rest = answers.skip(1);
        assert forall|i: int| 0 <= i < rest.len() implies TlsStream::writes(
            later[i],
            buf,
            later[i + 1],
            #[trigger] rest[i],
        ) by {
            assert(rest[i] == answers[i + 1]);
        }
        assert forall|i: int| 0 <= i < rest.len() - 1 implies (#[trigger] rest[i]) is Pending by {
            assert(rest[i] == answers[i + 1]);
        }
        lemma_given_once(later, buf, rest);
        assert(later.last() == streams.last());
    }
}

/// A write that ends well has given the session all the bytes, once and in their
/// order, and nothing else.
pub proof fn law_written_bytes_reach_session<C: Connection>(
    streams: Seq<TlsStream<C>>,
    buf: Seq<u8>,
    answers: Seq<Poll<Result<(), IoError>>>,
)
    requires
        writes_on(streams, buf, answers),
        streams[0].spec_writing() is Give,
        answers.last() == Poll::Ready(Ok::<(), IoError>(())),
    ensures
        streams.last().spec_session().given == streams[0].spec_session().given + buf,
{
    assert(TlsStream::writes(streams[0], buf, streams[1], answers[0]));
    if answers.len() > 1 {
        assert(answers[0] is Pending);
        let later = streams.skip(1);
        let rest = answers.skip(1);
        assert forall|i: int| 0 <= i < rest.len() implies TlsStream::writes(
            later[i],
            buf,
            later[i + 1],
            #[trigger] rest[i],
        ) by {
            assert(rest[i] == answers[i + 1]);
        }
        assert forall|i: int| 0 <= i < rest.len() - 1 implies (#[trigger] rest[i]) is Pending by {
            assert(rest[i] == answers[i + 1]);
        }
        lemma_given_once(later, buf, rest);
        assert(later.last() == streams.last());
    }
}

/// A handshake serves its session. If the session has bytes for the server they are taken,
/// and sent; if not, and the session waits for bytes, they are received, and handed to the
/// session, all of them, as long as it takes any; then the session works on them; and the
/// handshake is through as soon as, and only when, the session says so. A step that the
/// connection does not answer is done again.
pub proof fn law_handshake_serves_session<C: Connection>(
    before: TlsStream<C>,
    after: TlsStream<C>,
    outcome: Poll<Result<(), Error>>,
)
    requires
        TlsStream::shakes(before, after, outcome),
        !(outcome matches Poll::Ready(Err(_))),
    ensures
        match before.spec_handshake() {
            HandshakeView::AskWrite => {
                &&& outcome is Pending
                &&& before.spec_session().wants_write ==> after.spec_handshake() is Take
                &&& !before.spec_session().wants_write ==> after.spec_handshake() is AskRead
            },
            HandshakeView::Take => {
                &&& outcome is Pending
                &&& exists|bytes: Seq<u8>|
                    {
                        &&& #[trigger] session::takes(
                            before.spec_session(),
                            after.spec_session(),
                            Ok(bytes),
                        )
                        &&& bytes.len() > 0 ==> after.spec_handshake() == HandshakeView::Send(bytes)
                        &&& bytes.len() == 0 ==> after.spec_handshake() is AskRead
                    }
            },
            HandshakeView::Send(bytes) => {
                &&& outcome is Pending
                &&& after.spec_session() == before.spec_session()
                &&& {
                    ||| after.spec_handshake() == HandshakeView::Send(bytes) && C::writes(
                        before.spec_inner(),
                        bytes,
                        after.spec_inner(),
                        Poll::Pending,
                    )
                    ||| after.spec_handshake() is AskRead && C::writes(
                        before.spec_inner(),
                        bytes,
                        after.spec_inner(),
                        Poll::Ready(Ok(())),
                    )
                }
            },
            HandshakeView::AskRead => {
                let waits = before.spec_session().handshaking && before.spec_session().wants_read;
                &&& outcome is Pending
                &&& waits ==> after.spec_handshake() is Receive
                &&& !waits ==> after.spec_handshake() == HandshakeView::Process(Seq::empty())
            },
            HandshakeView::Receive => {
                &&& outcome is Pending
                &&& after.spec_session() == before.spec_session()
                &&& {
                    ||| after.spec_handshake() is Receive && C::reads(
                        before.spec_inner(),
                        16384,
                        after.spec_inner(),
                        Poll::Pending,
                    )
                    ||| exists|bytes: Vec<u8>|
                        {
                            &&& #[trigger] C::reads(
                                before.spec_inner(),
                                16384,
                                after.spec_inner(),
                                Poll::Ready(Ok(bytes)),
                            )
                            &&& bytes@.len() > 0
                            &&& after.spec_handshake() == HandshakeView::Feed(bytes@)
                        }
                }
            },
            HandshakeView::Feed(bytes) => {
                &&& outcome is Pending
                &&& exists|n: usize|
                    {
                        &&& #[trigger] session::feeds(
                            before.spec_session(),
                            bytes,
                            after.spec_session(),
                            Ok(n),
                        )
                        &&& n > 0 ==> after.spec_handshake() == HandshakeView::Process(
                            bytes.skip(n as int),
                        )
                        &&& n == 0 ==> after.spec_handshake() == HandshakeView::Process(
                            Seq::empty(),
                        )
                    }
            },
            HandshakeView::Process(rest) => {
                &&& outcome is Pending
                &&& after.spec_handshake() == HandshakeView::AskDone(rest)
                &&& exists|fault: Result<(), Seq<char>>| #[trigger]
                    session::works(before.spec_session(), after.spec_session(), fault)
            },
            HandshakeView::AskDone(rest) => if before.spec_session().handshaking {
                &&& outcome is Pending
                &&& rest.len() == 0 ==> after.spec_handshake() is AskWrite
                &&& rest.len() > 0 ==> after.spec_handshake() == HandshakeView::Feed(rest)
            } else {
                &&& outcome == Poll::Ready(Ok::<(), Error>(()))
                &&& after.spec_handshake() is Done
                &&& before.spec_reading() == ReadingView::Take(Seq::empty())
                    ==> after.spec_reading() == ReadingView::Take(rest)
            },
            HandshakeView::Done(_) => outcome == Poll::Ready(Ok::<(), Error>(())),
        },
{
    let state = before.spec_handshake();
    if !(state is Done) {
        let event = choose|event: HandshakeEvent|
            {
                &&& #[trigger] fits(state, event)
                &&& handshake_uses(before, after, event)
                &&& shaken(before, after, event, outcome)
            };
        match state {
            HandshakeView::Take => {
                let result = session::bytes_view(event->Taken_0);
                assert(session::takes(
                    before.spec_session(),
                    after.spec_session(),
                    Ok(result->Ok_0),
                ));
            },
            HandshakeView::Send(bytes) => {
                if let Poll::Ready(Ok(unit)) = event->Sent_0 {
                    assert(unit == ());
                }
            },
            HandshakeView::Receive => {
                if let Poll::Ready(Ok(bytes)) = event->Received_0 {
                    assert(C::reads(
                        before.spec_inner(),
                        16384,
                        after.spec_inner(),
                        Poll::Ready(Ok(bytes)),
                    ));
                }
            },
            HandshakeView::Feed(bytes) => {
                let n = event->Fed_0->Ok_0;
                assert(session::feeds(
                    before.spec_session(),
                    bytes,
                    after.spec_session(),
                    Ok(n),
                ));
            },
            HandshakeView::Process(_) => {
                let fault = session::fault_view(event->Processed_0);
                assert(session::works(before.spec_session(), after.spec_session(), fault));
            },
            HandshakeView::AskDone(rest) => {
                if before.spec_reading() == ReadingView::Take(Seq::empty()) {
                    assert(Seq::<u8>::empty() + rest == rest);
                }
            },
            _ => {},
        }
    }
}

/// A handshake fails only for cause: the session could not give its bytes or take those of
/// the server, the connection failed, with its error, or the server closed it.
pub proof fn law_handshake_fails_for_cause<C: Connection>(
    before: TlsStream<C>,
    after: TlsStream<C>,
    error: Error,
)
    requires
        TlsStream::shakes(before, after, Poll::Ready(Err(error))),
    ensures
        match before.spec_handshake() {
            HandshakeView::Take => exists|cause: IoErrorView|
                {
                    &&& #[trigger] session::takes(
                        before.spec_session(),
                        after.spec_session(),
                        Err(cause),
                    )
                    &&& error@ == tls_error(cause)
                },
            HandshakeView::Feed(bytes) => exists|cause: IoErrorView|
                {
                    &&& #[trigger] session::feeds(
                        before.spec_session(),
                        bytes,
                        after.spec_session(),
                        Err(cause),
                    )
                    &&& error@ == tls_error(cause)
                },
            HandshakeView::Send(bytes) => exists|cause: IoError|
                {
                    &&& #[trigger] C::writes(
                        before.spec_inner(),
                        bytes,
                        after.spec_inner(),
                        Poll::Ready(Err(cause)),
                    )
                    &&& error@ == ErrorView::Io(cause@)
                },
            HandshakeView::Receive => {
                ||| exists|cause: IoError|
                    {
                        &&& #[trigger] C::reads(
                            before.spec_inner(),
                            16384,
                            after.spec_inner(),
                            Poll::Ready(Err(cause)),
                        )
                        &&& error@ == ErrorView::Io(cause@)
                    }
                ||| exists|bytes: Vec<u8>|
                    {
                        &&& #[trigger] C::reads(
                            before.spec_inner(),
                            16384,
                            after.spec_inner(),
                            Poll::Ready(Ok(bytes)),
                        )
                        &&& bytes@.len() == 0
                        &&& error@ is Io
                    }
            },
            _ => false,
        },
        before.spec_handshake() is Take || before.spec_handshake() is Feed ==> error@ is Io,
{
    let state = before.spec_handshake();
    let outcome = Poll::<Result<(), Error>>::Ready(Err(error));
    let event = choose|event: HandshakeEvent|
        {
            &&& #[trigger] fits(state, event)
            &&& handshake_uses(before, after, event)
            &&& shaken(before, after, event, outcome)
        };
    match state {
        HandshakeView::Take => {
            let cause = event->Taken_0->Err_0;
            assert(session::takes(before.spec_session(), after.spec_session(), Err(cause@)));
        },
        HandshakeView::Feed(bytes) => {
            let cause = event->Fed_0->Err_0;
            assert(session::feeds(
                before.spec_session(),
                bytes,
                after.spec_session(),
                Err(cause@),
            ));
        },
        HandshakeView::Send(bytes) => {
            let cause = event->Sent_0->Ready_0->Err_0;
            assert(C::writes(
                before.spec_inner(),
                bytes,
                after.spec_inner(),
                Poll::Ready(Err(cause)),
            ));
        },
        HandshakeView::Receive => {
            match event->Received_0 {
                Poll::Ready(Err(cause)) => {
                    assert(C::reads(
                        before.spec_inner(),
                        16384,
                        after.spec_inner(),
                        Poll::Ready(Err(cause)),
                    ));
                },
                Poll::Ready(Ok(bytes)) => {
                    assert(C::reads(
                        before.spec_inner(),
                        16384,
                        after.spec_inner(),
                        Poll::Ready(Ok(bytes)),
                    ));
                },
                Poll::Pending => {},
            }
        },
        _ => {},
    }
}

/// What a session says of trouble goes on in the words of the session.
pub proof fn law_tls_error_says_the_cause(cause: IoErrorView)
    ensures
        tls_error(cause) matches ErrorView::Io(error) && {
            &&& error.kind is Other
            &&& error.message == "TLS error: "@ + cause.message
            &&& error.code is None
        },
{
}

/// A read through a session ends only for cause: with bytes only if they have come through
/// the session, without any only if the server has closed the connection, and with an error
/// only if the session or the connection has failed, with that error, or the session finds
/// fault with what it was handed, which is then what the error says. As long as it does not
/// end, it takes what has come through the session, hands the session what it was given,
/// and asks the connection only if it holds nothing for the session.
pub proof fn law_read_ends_for_cause<C: Connection>(
    before: TlsStream<C>,
    size: usize,
    after: TlsStream<C>,
    answer: Poll<Result<Vec<u8>, IoError>>,
)
    requires
        TlsStream::reads(before, size, after, answer),
    ensures
        match before.spec_reading() {
            ReadingView::Take(rest) => match answer {
                Poll::Ready(Ok(bytes)) => {
                    &&& bytes@.len() > 0
                    &&& after.spec_reading() == ReadingView::Take(rest)
                    &&& session::hands_over(
                        before.spec_session(),
                        size,
                        after.spec_session(),
                        Ok(bytes@),
                    )
                },
                Poll::Ready(Err(error)) => {
                    &&& error.kind != IoErrorKind::WouldBlock
                    &&& after.spec_reading() == ReadingView::Take(rest)
                    &&& session::hands_over(
                        before.spec_session(),
                        size,
                        after.spec_session(),
                        Err(error@),
                    )
                },
                Poll::Pending => {
                    &&& before.spec_session().unread.len() == 0 || size == 0
                    &&& {
                        ||| session::hands_over(
                            before.spec_session(),
                            size,
                            after.spec_session(),
                            Ok(Seq::empty()),
                        )
                        ||| exists|cause: IoErrorView|
                            {
                                &&& #[trigger] session::hands_over(
                                    before.spec_session(),
                                    size,
                                    after.spec_session(),
                                    Err(cause),
                                )
                                &&& cause.kind == IoErrorKind::WouldBlock
                            }
                    }
                    &&& rest.len() == 0 ==> after.spec_reading() is Receive
                    &&& rest.len() > 0 ==> after.spec_reading() == ReadingView::Feed(rest)
                },
            },
            ReadingView::Receive => match answer {
                Poll::Ready(Ok(bytes)) => bytes@.len() == 0 && exists|given: Vec<u8>|
                    {
                        &&& #[trigger] C::reads(
                            before.spec_inner(),
                            16384,
                            after.spec_inner(),
                            Poll::Ready(Ok(given)),
                        )
                        &&& given@.len() == 0
                    },
                Poll::Ready(Err(error)) => exists|cause: IoError|
                    {
                        &&& #[trigger] C::reads(
                            before.spec_inner(),
                            16384,
                            after.spec_inner(),
                            Poll::Ready(Err(cause)),
                        )
                        &&& error@ == cause@
                    },
                Poll::Pending => {
                    ||| after.spec_reading() is Receive && C::reads(
                        before.spec_inner(),
                        16384,
                        after.spec_inner(),
                        Poll::Pending,
                    )
                    ||| exists|given: Vec<u8>|
                        {
                            &&& #[trigger] C::reads(
                                before.spec_inner(),
                                16384,
                                after.spec_inner(),
                                Poll::Ready(Ok(given)),
                            )
                            &&& given@.len() > 0
                            &&& after.spec_reading() == ReadingView::Feed(given@)
                        }
                },
            },
            ReadingView::Feed(bytes) => match answer {
                Poll::Ready(Ok(_)) => false,
                Poll::Ready(Err(error)) => {
                    &&& error.kind != IoErrorKind::WouldBlock
                    &&& session::feeds(
                        before.spec_session(),
                        bytes,
                        after.spec_session(),
                        Err(error@),
                    )
                },
                Poll::Pending => {
                    ||| exists|n: usize|
                        {
                            &&& #[trigger] session::feeds(
                                before.spec_session(),
                                bytes,
                                after.spec_session(),
                                Ok(n),
                            )
                            &&& after.spec_reading() == ReadingView::Process(
                                if n == 0 {
                                    Seq::empty()
                                } else {
                                    bytes.skip(n as int)
                                },
                            )
                        }
                    ||| exists|cause: IoErrorView|
                        {
                            &&& #[trigger] session::feeds(
                                before.spec_session(),
                                bytes,
                                after.spec_session(),
                                Err(cause),
                            )
                            &&& cause.kind == IoErrorKind::WouldBlock
                            &&& after.spec_reading() == ReadingView::Take(Seq::empty())
                        }
                },
            },
            ReadingView::Process(rest) => {
                &&& after.spec_reading() == ReadingView::Take(rest)
                &&& match answer {
                    Poll::Ready(Ok(_)) => false,
                    Poll::Ready(Err(error)) => {
                        &&& error.kind is InvalidData
                        &&& session::works(
                            before.spec_session(),
                            after.spec_session(),
                            Err(error@.message),
                        )
                    },
                    Poll::Pending => session::works(
                        before.spec_session(),
                        after.spec_session(),
                        Ok(()),
                    ),
                }
            },
        },
{
    let state = before.spec_reading();
    let event = choose|event: ReadEvent|
        {
            &&& #[trigger] read_fits(state, event)
            &&& read_uses(before, size, after, event)
            &&& (after.spec_reading(), answer_view(answer)) == read_advanced(state, event)
        };
    match event {
        ReadEvent::Taken(Ok(bytes)) => {
            if bytes@.len() == 0 {
                assert(bytes@ == Seq::<u8>::empty());
            }
        },
        ReadEvent::Taken(Err(cause)) => {
            assert(session::hands_over(
                before.spec_session(),
                size,
                after.spec_session(),
                Err(cause@),
            ));
        },
        ReadEvent::Received(Poll::Ready(Ok(given))) => {
            assert(C::reads(
                before.spec_inner(),
                16384,
                after.spec_inner(),
                Poll::Ready(Ok(given)),
            ));
        },
        ReadEvent::Received(Poll::Ready(Err(cause))) => {
            assert(C::reads(
                before.spec_inner(),
                16384,
                after.spec_inner(),
                Poll::Ready(Err(cause)),
            ));
        },
        ReadEvent::Received(Poll::Pending) => {},
        ReadEvent::Fed(Ok(n)) => {
            assert(session::feeds(
                before.spec_session(),
                state->Feed_0,
                after.spec_session(),
                Ok(n),
            ));
        },
        ReadEvent::Fed(Err(cause)) => {
            assert(session::feeds(
                before.spec_session(),
                state->Feed_0,
                after.spec_session(),
                Err(cause@),
            ));
        },
        ReadEvent::Processed(Ok(unit)) => {
            assert(unit == ());
        },
        ReadEvent::Processed(Err(_)) => {},
    }
}

/// A write through a session ends only for cause: well only if the session has been given
/// the bytes and has nothing left for the server, and badly only if the session does not
/// take them or give its own, or the connection fails, in the words of that error. As long
/// as it does not end, it takes what the session has for the server, sends just that, and
/// looks for more.
pub proof fn law_write_ends_for_cause<C: Connection>(
    before: TlsStream<C>,
    buf: Seq<u8>,
    after: TlsStream<C>,
    answer: Poll<Result<(), IoError>>,
)
    requires
        TlsStream::writes(before, buf, after, answer),
    ensures
        match before.spec_writing() {
            WritingView::Give => match answer {
                Poll::Ready(Ok(_)) => false,
                Poll::Ready(Err(error)) => {
                    &&& error.kind is InvalidData
                    &&& exists|cause: IoErrorView|
                        {
                            &&& #[trigger] session::accepts(
                                before.spec_session(),
                                buf,
                                after.spec_session(),
                                Err(cause),
                            )
                            &&& error@.message == cause.message
                        }
                },
                Poll::Pending => {
                    &&& after.spec_writing() is Take
                    &&& session::accepts(before.spec_session(), buf, after.spec_session(), Ok(()))
                },
            },
            WritingView::Take => match answer {
                Poll::Ready(Ok(_)) => {
                    &&& after.spec_writing() is Give
                    &&& {
                        ||| session::takes(
                            before.spec_session(),
                            after.spec_session(),
                            Ok(Seq::empty()),
                        )
                        ||| exists|cause: IoErrorView|
                            {
                                &&& #[trigger] session::takes(
                                    before.spec_session(),
                                    after.spec_session(),
                                    Err(cause),
                                )
                                &&& cause.kind == IoErrorKind::WouldBlock
                            }
                    }
                },
                Poll::Ready(Err(error)) => exists|cause: IoErrorView|
                    {
                        &&& #[trigger] session::takes(
                            before.spec_session(),
                            after.spec_session(),
                            Err(cause),
                        )
                        &&& cause.kind != IoErrorKind::WouldBlock
                        &&& error@ == IoErrorView::of_kind(
                            IoErrorKind::Other,
                            "TLS error: "@ + cause.message,
                        )
                    },
                Poll::Pending => exists|bytes: Seq<u8>|
                    {
                        &&& #[trigger] session::takes(
                            before.spec_session(),
                            after.spec_session(),
                            Ok(bytes),
                        )
                        &&& bytes.len() > 0
                        &&& after.spec_writing() == WritingView::Send(bytes)
                    },
            },
            WritingView::Send(bytes) => {
                &&& after.spec_session() == before.spec_session()
                &&& match answer {
                    Poll::Ready(Ok(_)) => false,
                    Poll::Ready(Err(error)) => exists|cause: IoError|
                        {
                            &&& #[trigger] C::writes(
                                before.spec_inner(),
                                bytes,
                                after.spec_inner(),
                                Poll::Ready(Err(cause)),
                            )
                            &&& error@ == IoErrorView::of_kind(IoErrorKind::Other, cause@.message)
                        },
                    Poll::Pending => {
                        ||| after.spec_writing() == WritingView::Send(bytes) && C::writes(
                            before.spec_inner(),
                            bytes,
                            after.spec_inner(),
                            Poll::Pending,
                        )
                        ||| after.spec_writing() is Take && C::writes(
                            before.spec_inner(),
                            bytes,
                            after.spec_inner(),
                            Poll::Ready(Ok(())),
                        )
                    },
                }
            },
        },
{
    let state = before.spec_writing();
    let event = choose|event: WriteEvent|
        {
            &&& #[trigger] write_fits(state, event)
            &&& write_uses(before, buf, after, event)
            &&& (after.spec_writing(), unit_view(answer)) == write_advanced(state, event)
        };
    match event {
        WriteEvent::Given(Ok(unit)) => {
            assert(unit == ());
        },
        WriteEvent::Given(Err(cause)) => {
            assert(session::accepts(
                before.spec_session(),
                buf,
                after.spec_session(),
                Err(cause@),
            ));
        },
        WriteEvent::Taken(Ok(bytes)) => {
            assert(session::takes(before.spec_session(), after.spec_session(), Ok(bytes@)));
            if bytes@.len() == 0 {
                assert(bytes@ == Seq::<u8>::empty());
            }
        },
        WriteEvent::Taken(Err(cause)) => {
            assert(session::takes(before.spec_session(), after.spec_session(), Err(cause@)));
        },
        WriteEvent::Sent(Poll::Ready(Err(cause))) => {
            assert(C::writes(
                before.spec_inner(),
                state->Send_0,
                after.spec_inner(),
                Poll::Ready(Err(cause)),
            ));
        },
        WriteEvent::Sent(Poll::Ready(Ok(unit))) => {
            assert(unit == ());
        },
        WriteEvent::Sent(Poll::Pending) => {},
    }
}

/// A handshake leaves alone how far a read and a write have come, but that a read finds
/// first what the handshake has received and not handed to the session; and a read leaves
/// the handshake and the write alone, as a write does the handshake and the read.
pub proof fn law_operations_leave_each_other_alone<C: Connection>(
    before: TlsStream<C>,
    after: TlsStream<C>,
    outcome: Poll<Result<(), Error>>,
    size: usize,
    read: Poll<Result<Vec<u8>, IoError>>,
    buf: Seq<u8>,
    written: Poll<Result<(), IoError>>,
)
    ensures
        TlsStream::shakes(before, after, outcome) ==> {
            &&& after.spec_writing() == before.spec_writing()
            &&& outcome is Pending ==> after.spec_reading() == before.spec_reading()
        },
        TlsStream::reads(before, size, after, read) ==> {
            &&& after.spec_handshake() == before.spec_handshake()
            &&& after.spec_writing() == before.spec_writing()
        },
        TlsStream::writes(before, buf, after, written) ==> {
            &&& after.spec_handshake() == before.spec_handshake()
            &&& after.spec_reading() == before.spec_reading()
        },
{
}

/// A stream to a host begins at the beginning: with the connection that it was given and
/// a session for that host, whose first bytes go out before anything is received. The
/// first write hands what is to be written to the session, and the first read asks the
/// session first. Only a host that is no name of a server, or a session that cannot be
/// made, stands against it, and the error says what was found wrong.
pub proof fn law_stream_begins_with_session<C: Connection>(
    inner: C,
    host: Seq<char>,
    result: Result<TlsStream<C>, Error>,
)
    requires
        sets_out(inner, host, result),
    ensures
        session::server_name_error(host) matches Some(message) ==> (result matches Err(error)
            && error@ == ErrorView::Io(
            (IoErrorView {
                kind: IoErrorKind::Other,
                message: "invalid server name: "@ + message,
                code: None,
            }),
        )),
        result matches Err(error) ==> session::server_name_error(host) is None ==> {
            &&& error@ is Io
            &&& error@->Io_0.kind is Other
            &&& error@->Io_0.code is None
            &&& exists|message: Seq<char>| error@->Io_0.message == #[trigger] (
            "failed to create TLS connection: "@ + message)
        },
        result matches Ok(stream) ==> {
            &&& stream.spec_inner() == inner
            &&& session::is_fresh(stream.spec_session(), host)
            &&& forall|after: TlsStream<C>, outcome: Poll<Result<(), Error>>| #[trigger]
                TlsStream::shakes(stream, after, outcome) ==> {
                    &&& outcome is Pending
                    &&& stream.spec_session().wants_write ==> after.spec_handshake() is Take
                    &&& !stream.spec_session().wants_write ==> after.spec_handshake() is AskRead
                }
            &&& forall|buf: Seq<u8>, after: TlsStream<C>, answer: Poll<Result<(), IoError>>|
                #[trigger]
                TlsStream::writes(stream, buf, after, answer) && answer is Pending
                    ==> session::accepts(
                    stream.spec_session(),
                    buf,
                    after.spec_session(),
                    Ok(()),
                )
            &&& forall|size: usize, after: TlsStream<C>, answer: Poll<Result<Vec<u8>, IoError>>|
                #[trigger]
                TlsStream::reads(stream, size, after, answer) ==> after.spec_inner() == inner
        },
{
    match result {
        Ok(stream) => {
            assert forall|after: TlsStream<C>, outcome: Poll<Result<(), Error>>| #[trigger]
                TlsStream::shakes(stream, after, outcome) implies {
                &&& outcome is Pending
                &&& stream.spec_session().wants_write ==> after.spec_handshake() is Take
                &&& !stream.spec_session().wants_write ==> after.spec_handshake() is AskRead
            } by {
                if let Poll::Ready(Err(error)) = outcome {
                    law_handshake_fails_for_cause(stream, after, error);
                } else {
                    law_handshake_serves_session(stream, after, outcome);
                }
            }
            assert forall|buf: Seq<u8>, after: TlsStream<C>, answer: Poll<Result<(), IoError>>|
                #[trigger]
                TlsStream::writes(stream, buf, after, answer)
                    && answer is Pending implies session::accepts(
                stream.spec_session(),
                buf,
                after.spec_session(),
                Ok(()),
            ) by {
                law_write_ends_for_cause(stream, buf, after, answer);
            }
        },
        Err(error) => {
            if session::server_name_error(host) is None {
                let message = choose|message: Seq<char>| error@ == #[trigger] session_refused(
                    message,
                );
                assert(error@->Io_0.message == ("failed to create TLS connection: "@ + message));
            }
        },
    }
}

} // verus!
