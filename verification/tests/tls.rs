use std::cell::RefCell;
use std::rc::Rc;

use mar::future::Poll;
use mar::rrest::error::{Error, IoError, IoErrorKind};
use mar::rrest::request::Request;
use mar::rrest::session::SessionError;
use mar::rrest::tls::{
    advance, read_advance, wrap_tls, write_advance, Handshake, HandshakeEvent, ReadEvent, Reading,
    TlsStream, WriteEvent, Writing, RECV_SIZE,
};
use mar::rrest::Connection;

// A server that has hung up, or says nothing sensible, and keeps what is written to
// it.
#[derive(Default)]
struct Server {
    written: Rc<RefCell<Vec<u8>>>,
    offers: Rc<RefCell<Vec<Vec<u8>>>>,
    says: Vec<u8>,
    silent: usize,
    busy: usize,
}

impl Connection for Server {
    fn read(&mut self, size: usize) -> Poll<Result<Vec<u8>, IoError>> {
        assert_eq!(size, RECV_SIZE);
        if self.silent > 0 {
            self.silent -= 1;
            return Poll::Pending;
        }
        Poll::Ready(Ok(std::mem::take(&mut self.says)))
    }

    fn write_all(&mut self, buf: &[u8]) -> Poll<Result<(), IoError>> {
        self.offers.borrow_mut().push(buf.to_vec());
        if self.busy > 0 {
            self.busy -= 1;
            return Poll::Pending;
        }
        self.written.borrow_mut().extend_from_slice(buf);
        Poll::Ready(Ok(()))
    }
}

fn shake(stream: &mut TlsStream<Server>) -> Result<(), Error> {
    loop {
        if let Poll::Ready(result) = stream.handshake() {
            return result;
        }
    }
}

fn io_message(error: Error) -> String {
    match error {
        Error::Io(error) => error.message,
        other => panic!("{other:?}"),
    }
}

fn blocked() -> IoError {
    IoError::of_kind(IoErrorKind::WouldBlock, "later".to_string())
}

fn broken() -> IoError {
    IoError::of_kind(IoErrorKind::InvalidData, "broken".to_string())
}

#[test]
fn host_that_is_no_server_name_is_refused() {
    let error = wrap_tls(Server::default(), "not a host").err().unwrap();
    assert_eq!(io_message(error), "invalid server name: invalid dns name");
}

#[test]
fn handshake_starts_with_a_hello_and_fails_if_the_server_hangs_up() {
    let server = Server { silent: 3, ..Server::default() };
    let mut stream = TlsStream::new(server, "example.com").unwrap();
    let error = shake(&mut stream).unwrap_err();
    assert_eq!(io_message(error), "connection closed during handshake");
}

// A server that is busy is offered the same bytes again, and takes them once.
#[test]
fn hello_is_offered_until_the_server_takes_it() {
    let server = Server { busy: 2, ..Server::default() };
    let written = server.written.clone();
    let offers = server.offers.clone();
    let mut stream = TlsStream::new(server, "example.com").unwrap();
    let error = shake(&mut stream).unwrap_err();
    assert_eq!(io_message(error), "connection closed during handshake");
    let hello = written.borrow().clone();
    assert_eq!(hello[..2], [22, 3]);
    assert_eq!(*offers.borrow(), vec![hello.clone(), hello.clone(), hello]);
}

// The start of a message of the handshake that takes 5005 bytes and is found faulty at
// its end.
fn faulty(length: usize) -> Vec<u8> {
    let mut message = vec![22, 3, 3, (5000 / 256) as u8, (5000 % 256) as u8];
    message.extend([2, 0, (4996 / 256) as u8, (4996 % 256) as u8]);
    message.resize(length, 0);
    message
}

// The session takes no more than so many bytes at a time. It finds fault with a
// message only when it has heard all of it, and then it says so to the server.
#[test]
fn handshake_hears_all_that_the_server_says() {
    let said_after_hello = |length: usize| {
        let server = Server { says: faulty(length), ..Server::default() };
        let offers = server.offers.clone();
        let mut stream = TlsStream::new(server, "example.com").unwrap();
        let error = shake(&mut stream).unwrap_err();
        assert_eq!(io_message(error), "connection closed during handshake");
        let offers = offers.borrow();
        offers[1..].concat()
    };
    assert_eq!(said_after_hello(5004), Vec::<u8>::new());
    // An alert, which is fatal.
    let alert = said_after_hello(5005);
    assert_eq!(alert.len(), 7);
    assert_eq!(alert[..6], [21, 3, 3, 0, 2, 2]);
}

// What is no TLS does not end the handshake by itself; the end of the connection
// does.
#[test]
fn handshake_goes_on_after_nonsense() {
    let server = Server { says: b"HTTP/1.1 400 Bad Request\r\n\r\n".to_vec(), ..Server::default() };
    let mut stream = TlsStream::new(server, "example.com").unwrap();
    let error = shake(&mut stream).unwrap_err();
    assert_eq!(io_message(error), "connection closed during handshake");
}

fn write(stream: &mut TlsStream<Server>, buf: &[u8]) -> Result<(), IoError> {
    loop {
        if let Poll::Ready(answer) = stream.write_all(buf) {
            return answer;
        }
    }
}

fn holds(bytes: &[u8], text: &[u8]) -> bool {
    bytes.windows(text.len()).any(|window| window == text)
}

// Before the handshake is through the session keeps what it is given to itself, and
// only has its hello for the server, which names the host.
#[test]
fn session_says_hello_to_the_host_before_anything_else() {
    for host in ["example.com", "example.org"] {
        let server = Server::default();
        let written = server.written.clone();
        let mut stream = TlsStream::new(server, host).unwrap();
        assert!(write(&mut stream, b"keep this to yourself").is_ok());
        let hello = written.borrow().clone();
        // A record of the handshake, and in it a hello of a client.
        assert_eq!(hello[..2], [22, 3]);
        assert_eq!(hello[5], 1);
        assert_eq!(usize::from(hello[3]) * 256 + usize::from(hello[4]), hello.len() - 5);
        assert!(holds(&hello, host.as_bytes()));
        assert!(!holds(&hello, b"keep this"));
        // The hello is not said twice.
        assert!(write(&mut stream, b"nor this").is_ok());
        assert_eq!(*written.borrow(), hello);
    }
}

// The session has room for so much before the handshake is through, which it would
// not run out of if it were not given the bytes.
#[test]
fn session_runs_out_of_room_for_what_it_is_given() {
    let mut stream = TlsStream::new(Server::default(), "example.com").unwrap();
    assert!(write(&mut stream, &[7; 60_000]).is_ok());
    let error = write(&mut stream, &[7; 60_000]).unwrap_err();
    assert_eq!(error.kind, IoErrorKind::InvalidData);
    assert_eq!(error.message, "failed to write whole buffer");
}

// What came of making a session decides how a stream starts.
#[test]
fn stream_goes_by_what_came_of_the_session() {
    let refuse = |error| io_message(TlsStream::over(Server::default(), Err(error)).err().unwrap());
    assert_eq!(refuse(SessionError::Name("no".to_string())), "invalid server name: no");
    assert_eq!(
        refuse(SessionError::Session("no".to_string())),
        "failed to create TLS connection: no"
    );
}

// Kinds of errors that mean nothing here are handed on as they are.
#[test]
fn other_kinds_of_errors_are_kept() {
    let reset = IoErrorKind::Std(std::io::ErrorKind::ConnectionReset);
    let error = IoError { kind: reset, message: "reset".to_string(), code: Some(104) };
    match read_advance(Reading::Receive, ReadEvent::Received(Poll::Ready(Err(error)))).1 {
        Poll::Ready(Err(error)) => {
            assert_eq!(error.kind, reset);
            assert_eq!(error.code, Some(104));
        }
        other => panic!("{other:?}"),
    }
}

#[test]
fn session_without_bytes_asks_the_server() {
    let server = Server { silent: 1, ..Server::default() };
    let mut stream = TlsStream::new(server, "example.com").unwrap();
    assert!(stream.read(16).is_pending());
    assert!(stream.read(16).is_pending());
    match stream.read(16) {
        Poll::Ready(Ok(bytes)) => assert!(bytes.is_empty()),
        other => panic!("{other:?}"),
    }
}

// A read hands the session all that the server says, too.
#[test]
fn read_hears_all_that_the_server_says() {
    let read_all = |length: usize| {
        let server = Server { says: faulty(length), ..Server::default() };
        let mut stream = TlsStream::new(server, "example.com").unwrap();
        loop {
            if let Poll::Ready(answer) = stream.read(16) {
                return answer;
            }
        }
    };
    assert!(matches!(read_all(5004), Ok(bytes) if bytes.is_empty()));
    let error = read_all(5005).unwrap_err();
    assert_eq!(error.kind, IoErrorKind::InvalidData);
    assert!(error.message.starts_with("received corrupt message"));
}

#[test]
fn request_with_tls_shakes_hands_first() {
    let mut request = Request::start(
        Server::default(),
        Some("example.com".to_string()),
        "https://example.com/",
    )
    .unwrap();
    assert!(matches!(request, Request::Securing(_, _)));
    let error = loop {
        if let Poll::Ready(result) = request.poll() {
            break result.unwrap_err();
        }
    };
    assert_eq!(io_message(error), "connection closed during handshake");
    assert!(matches!(request, Request::Over));
}

#[test]
fn handshake_goes_by_its_events() {
    let go = |state, event| advance(state, event).unwrap();
    assert!(matches!(
        go(Handshake::AskWrite, HandshakeEvent::WantsWrite(true)),
        Handshake::Take
    ));
    assert!(matches!(
        go(Handshake::AskWrite, HandshakeEvent::WantsWrite(false)),
        Handshake::AskRead
    ));
    assert!(matches!(
        go(Handshake::Take, HandshakeEvent::Taken(Ok(vec![1, 2]))),
        Handshake::Send(bytes) if bytes == [1, 2]
    ));
    assert!(matches!(
        go(Handshake::Take, HandshakeEvent::Taken(Ok(vec![]))),
        Handshake::AskRead
    ));
    assert!(matches!(
        go(Handshake::Send(vec![7]), HandshakeEvent::Sent(Poll::Pending)),
        Handshake::Send(bytes) if bytes == [7]
    ));
    assert!(matches!(
        go(Handshake::Send(vec![7]), HandshakeEvent::Sent(Poll::Ready(Ok(())))),
        Handshake::AskRead
    ));
    assert!(matches!(
        go(Handshake::AskRead, HandshakeEvent::Wants { handshaking: true, read: true }),
        Handshake::Receive
    ));
    assert!(matches!(
        go(Handshake::AskRead, HandshakeEvent::Wants { handshaking: false, read: true }),
        Handshake::Process(rest) if rest.is_empty()
    ));
    assert!(matches!(
        go(Handshake::Receive, HandshakeEvent::Received(Poll::Ready(Ok(vec![5])))),
        Handshake::Feed(bytes) if bytes == [5]
    ));
    assert!(matches!(
        go(Handshake::Feed(vec![5]), HandshakeEvent::Fed(Ok(1))),
        Handshake::Process(rest) if rest.is_empty()
    ));
    assert!(matches!(
        go(Handshake::Process(vec![]), HandshakeEvent::Processed(Err("bad".to_string()))),
        Handshake::AskDone(rest) if rest.is_empty()
    ));
    assert!(matches!(
        go(Handshake::AskDone(vec![]), HandshakeEvent::Handshaking(true)),
        Handshake::AskWrite
    ));
    assert!(matches!(
        go(Handshake::AskDone(vec![]), HandshakeEvent::Handshaking(false)),
        Handshake::Done(rest) if rest.is_empty()
    ));
}

// What the session does not take at once it is handed when it has worked on the rest.
#[test]
fn handshake_feeds_what_the_session_did_not_take() {
    let go = |state, event| advance(state, event).unwrap();
    let state = go(Handshake::Feed(vec![5, 6, 7]), HandshakeEvent::Fed(Ok(1)));
    assert!(matches!(&state, Handshake::Process(rest) if *rest == [6, 7]));
    let state = go(state, HandshakeEvent::Processed(Ok(())));
    assert!(matches!(&state, Handshake::AskDone(rest) if *rest == [6, 7]));
    let state = go(state, HandshakeEvent::Handshaking(true));
    assert!(matches!(&state, Handshake::Feed(bytes) if *bytes == [6, 7]));
    let state = go(state, HandshakeEvent::Fed(Ok(2)));
    assert!(matches!(&state, Handshake::Process(rest) if rest.is_empty()));
    // What is left when the handshake is through is left to the reads.
    assert!(matches!(
        go(Handshake::AskDone(vec![6, 7]), HandshakeEvent::Handshaking(false)),
        Handshake::Done(rest) if rest == [6, 7]
    ));
    // A session that takes nothing is not asked again.
    assert!(matches!(
        go(Handshake::Feed(vec![5, 6]), HandshakeEvent::Fed(Ok(0))),
        Handshake::Process(rest) if rest.is_empty()
    ));
}

#[test]
fn handshake_fails_with_its_events() {
    let fail = |state, event| io_message(advance(state, event).err().unwrap());
    assert_eq!(
        fail(Handshake::Take, HandshakeEvent::Taken(Err(broken()))),
        "TLS error: broken"
    );
    assert_eq!(
        fail(Handshake::Send(vec![1]), HandshakeEvent::Sent(Poll::Ready(Err(broken())))),
        "broken"
    );
    assert_eq!(
        fail(Handshake::Receive, HandshakeEvent::Received(Poll::Ready(Err(broken())))),
        "broken"
    );
    assert_eq!(
        fail(Handshake::Receive, HandshakeEvent::Received(Poll::Ready(Ok(vec![])))),
        "connection closed during handshake"
    );
    assert_eq!(
        fail(Handshake::Feed(vec![1]), HandshakeEvent::Fed(Err(broken()))),
        "TLS error: broken"
    );
}

#[test]
fn read_goes_by_its_events() {
    let take = || Reading::Take(vec![]);
    let (next, answer) = read_advance(take(), ReadEvent::Taken(Ok(vec![1])));
    assert!(matches!(next, Reading::Take(rest) if rest.is_empty()));
    assert!(matches!(answer, Poll::Ready(Ok(bytes)) if bytes == [1]));
    assert!(matches!(
        read_advance(take(), ReadEvent::Taken(Ok(vec![]))),
        (Reading::Receive, Poll::Pending)
    ));
    assert!(matches!(
        read_advance(take(), ReadEvent::Taken(Err(blocked()))),
        (Reading::Receive, Poll::Pending)
    ));
    assert!(matches!(
        read_advance(take(), ReadEvent::Taken(Err(broken()))),
        (Reading::Take(rest), Poll::Ready(Err(e))) if rest.is_empty() && e.message == "broken"
    ));
    assert!(matches!(
        read_advance(Reading::Receive, ReadEvent::Received(Poll::Pending)),
        (Reading::Receive, Poll::Pending)
    ));
    assert!(matches!(
        read_advance(Reading::Receive, ReadEvent::Received(Poll::Ready(Ok(vec![])))),
        (Reading::Take(rest), Poll::Ready(Ok(bytes))) if rest.is_empty() && bytes.is_empty()
    ));
    assert!(matches!(
        read_advance(Reading::Receive, ReadEvent::Received(Poll::Ready(Ok(vec![9])))),
        (Reading::Feed(bytes), Poll::Pending) if bytes == [9]
    ));
    assert!(matches!(
        read_advance(Reading::Receive, ReadEvent::Received(Poll::Ready(Err(broken())))),
        (Reading::Take(rest), Poll::Ready(Err(_))) if rest.is_empty()
    ));
    assert!(matches!(
        read_advance(Reading::Feed(vec![9]), ReadEvent::Fed(Err(blocked()))),
        (Reading::Take(rest), Poll::Pending) if rest.is_empty()
    ));
    assert!(matches!(
        read_advance(Reading::Feed(vec![9]), ReadEvent::Fed(Err(broken()))),
        (Reading::Take(rest), Poll::Ready(Err(_))) if rest.is_empty()
    ));
    assert!(matches!(
        read_advance(Reading::Feed(vec![7, 8, 9]), ReadEvent::Fed(Ok(3))),
        (Reading::Process(rest), Poll::Pending) if rest.is_empty()
    ));
    assert!(matches!(
        read_advance(Reading::Process(vec![]), ReadEvent::Processed(Ok(()))),
        (Reading::Take(rest), Poll::Pending) if rest.is_empty()
    ));
    assert!(matches!(
        read_advance(Reading::Process(vec![]), ReadEvent::Processed(Err("bad".to_string()))),
        (Reading::Take(_), Poll::Ready(Err(e))) if e.kind == IoErrorKind::InvalidData
            && e.message == "bad"
    ));
}

// What the session does not take at once it is handed when nothing more comes through
// it, and before the server is asked for more.
#[test]
fn read_feeds_what_the_session_did_not_take() {
    let (state, answer) = read_advance(Reading::Feed(vec![7, 8, 9]), ReadEvent::Fed(Ok(1)));
    assert!(matches!(&state, Reading::Process(rest) if *rest == [8, 9]));
    assert!(answer.is_pending());
    let (state, answer) = read_advance(state, ReadEvent::Processed(Ok(())));
    assert!(matches!(&state, Reading::Take(rest) if *rest == [8, 9]));
    assert!(answer.is_pending());
    let (state, answer) = read_advance(state, ReadEvent::Taken(Ok(vec![1])));
    assert!(matches!(&state, Reading::Take(rest) if *rest == [8, 9]));
    assert!(matches!(answer, Poll::Ready(Ok(bytes)) if bytes == [1]));
    let (state, answer) = read_advance(state, ReadEvent::Taken(Err(blocked())));
    assert!(matches!(&state, Reading::Feed(bytes) if *bytes == [8, 9]));
    assert!(answer.is_pending());
    // A session that takes nothing is not asked again.
    assert!(matches!(
        read_advance(state, ReadEvent::Fed(Ok(0))),
        (Reading::Process(rest), Poll::Pending) if rest.is_empty()
    ));
}

#[test]
fn write_goes_by_its_events() {
    assert!(matches!(
        write_advance(Writing::Give, WriteEvent::Given(Ok(()))),
        (Writing::Take, Poll::Pending)
    ));
    assert!(matches!(
        write_advance(Writing::Give, WriteEvent::Given(Err(blocked()))),
        (Writing::Give, Poll::Ready(Err(e))) if e.kind == IoErrorKind::InvalidData
            && e.message == "later"
    ));
    assert!(matches!(
        write_advance(Writing::Take, WriteEvent::Taken(Ok(vec![]))),
        (Writing::Give, Poll::Ready(Ok(())))
    ));
    assert!(matches!(
        write_advance(Writing::Take, WriteEvent::Taken(Err(blocked()))),
        (Writing::Give, Poll::Ready(Ok(())))
    ));
    assert!(matches!(
        write_advance(Writing::Take, WriteEvent::Taken(Err(broken()))),
        (Writing::Give, Poll::Ready(Err(e))) if e.kind == IoErrorKind::Other
            && e.message == "TLS error: broken"
    ));
    assert!(matches!(
        write_advance(Writing::Take, WriteEvent::Taken(Ok(vec![4]))),
        (Writing::Send(bytes), Poll::Pending) if bytes == [4]
    ));
    assert!(matches!(
        write_advance(Writing::Send(vec![4]), WriteEvent::Sent(Poll::Pending)),
        (Writing::Send(bytes), Poll::Pending) if bytes == [4]
    ));
    assert!(matches!(
        write_advance(Writing::Send(vec![4]), WriteEvent::Sent(Poll::Ready(Ok(())))),
        (Writing::Take, Poll::Pending)
    ));
    assert!(matches!(
        write_advance(Writing::Send(vec![4]), WriteEvent::Sent(Poll::Ready(Err(broken())))),
        (Writing::Give, Poll::Ready(Err(e))) if e.kind == IoErrorKind::Other
            && e.message == "broken"
    ));
}
