use std::io::{Read, Write};

use vstd::prelude::*;
use vstd::string::*;

use crate::rrest::error::{IoError, IoErrorKind, IoErrorView};

verus! {

/// The client's side of a TLS session of the `rustls` crate.
#[verifier::external_type_specification]
#[verifier::external_body]
pub struct ExClientConnection(rustls::ClientConnection);

/// The I/O error of the standard library.
#[verifier::external_type_specification]
#[verifier::external_body]
pub struct ExStdIoError(std::io::Error);

/// What is asked of a session that can change it, and what comes of it.
pub enum Call {
    /// To give bytes for the server.
    Take(Result<Seq<u8>, IoErrorView>),
    /// To take these bytes from the server in, of which it takes so many.
    Feed(Seq<u8>, Result<usize, IoErrorView>),
    /// To work on the bytes that it has taken in.
    Work(Result<(), Seq<char>>),
    /// To hand over up to so many bytes that have come through it.
    Read(usize, Result<Seq<u8>, IoErrorView>),
    /// To send these bytes to the server.
    Give(Seq<u8>, Result<(), IoErrorView>),
}

/// A result of bytes, for specifications.
pub open spec fn bytes_view(result: Result<Vec<u8>, IoError>) -> Result<Seq<u8>, IoErrorView> {
    match result {
        Ok(bytes) => Ok(bytes@),
        Err(error) => Err(error@),
    }
}

/// A result that holds nothing to be viewed but the error, for specifications.
pub open spec fn error_view<T>(result: Result<T, IoError>) -> Result<T, IoErrorView> {
    match result {
        Ok(value) => Ok(value),
        Err(error) => Err(error@),
    }
}

/// What a session has to say against bytes, for specifications.
pub open spec fn fault_view(result: Result<(), String>) -> Result<(), Seq<char>> {
    match result {
        Ok(_) => Ok(()),
        Err(message) => Err(message@),
    }
}

/// A session, for specifications.
pub struct SessionView {
    /// The host that the session is with.
    pub host: Seq<char>,
    /// What has been asked of the session and what came of it, in order.
    pub calls: Seq<Call>,
    /// The bytes that the session has given for the server.
    pub said: Seq<u8>,
    /// The bytes that the session has accepted to send to the server.
    pub given: Seq<u8>,
    /// The bytes from the server that the session has taken in.
    pub heard: Seq<u8>,
    /// The bytes that have come through the session and were not handed over.
    pub unread: Seq<u8>,
    /// Whether the handshake is under way.
    pub handshaking: bool,
    /// Whether the session waits for bytes from the server.
    pub wants_read: bool,
    /// Whether the session has bytes for the server.
    pub wants_write: bool,
}

/// The client's side of a TLS session with a host, with a record of it for
/// specifications.
pub struct Session {
    tls: rustls::ClientConnection,
    state: Ghost<SessionView>,
}

impl View for Session {
    type V = SessionView;

    closed spec fn view(&self) -> SessionView {
        self.state@
    }
}

/// Why there is no session.
pub enum SessionError {
    /// The host is no name of a server; the text says why.
    Name(String),
    /// The session cannot be made; the text says why.
    Session(String),
}

/// A session in which nothing has been said.
pub open spec fn is_fresh(session: SessionView, host: Seq<char>) -> bool {
    &&& session.host == host
    &&& session.calls.len() == 0
    &&& session.said.len() == 0
    &&& session.given.len() == 0
    &&& session.heard.len() == 0
    &&& session.unread.len() == 0
    &&& session.handshaking
}

/// What every call keeps, and that it is noted: the host stays, and a handshake that
/// is through stays so.
pub open spec fn calls(before: SessionView, call: Call, after: SessionView) -> bool {
    &&& after.host == before.host
    &&& after.calls == before.calls.push(call)
    &&& !before.handshaking ==> !after.handshaking
}

/// What it does to a session to give its bytes for the server, of which there are
/// none exactly when it has none.
pub open spec fn takes(
    before: SessionView,
    after: SessionView,
    result: Result<Seq<u8>, IoErrorView>,
) -> bool {
    &&& calls(before, Call::Take(result), after)
    &&& after.given == before.given
    &&& after.heard == before.heard
    &&& after.unread == before.unread
    &&& after.handshaking == before.handshaking
    &&& match result {
        Ok(bytes) => {
            &&& after.said == before.said + bytes
            &&& bytes.len() == 0 <==> !before.wants_write
        },
        Err(_) => after.said == before.said,
    }
}

/// What it does to a session to be fed bytes: it takes in as many from the front as
/// it says, or none.
pub open spec fn feeds(
    before: SessionView,
    bytes: Seq<u8>,
    after: SessionView,
    result: Result<usize, IoErrorView>,
) -> bool {
    &&& calls(before, Call::Feed(bytes, result), after)
    &&& after.said == before.said
    &&& after.given == before.given
    &&& after.unread == before.unread
    &&& after.handshaking == before.handshaking
    &&& match result {
        Ok(n) => n <= bytes.len() && after.heard == before.heard + bytes.take(n as int),
        Err(_) => after.heard == before.heard,
    }
}

/// What it does to a session to work on what it has taken in: more may have come
/// through it.
pub open spec fn works(
    before: SessionView,
    after: SessionView,
    result: Result<(), Seq<char>>,
) -> bool {
    &&& calls(before, Call::Work(result), after)
    &&& after.said == before.said
    &&& after.given == before.given
    &&& after.heard == before.heard
    &&& before.unread.is_prefix_of(after.unread)
}

/// What it does to a session to hand over up to `size` bytes that have come through
/// it: it hands over as many as there are, from the front. Only when there are none
/// can it fail.
pub open spec fn hands_over(
    before: SessionView,
    size: usize,
    after: SessionView,
    result: Result<Seq<u8>, IoErrorView>,
) -> bool {
    let n: int = if before.unread.len() < size {
        before.unread.len() as int
    } else {
        size as int
    };
    &&& calls(before, Call::Read(size, result), after)
    &&& after.said == before.said
    &&& after.given == before.given
    &&& after.heard == before.heard
    &&& after.handshaking == before.handshaking
    &&& after.unread == before.unread.skip(n)
    &&& match result {
        Ok(bytes) => bytes == before.unread.take(n),
        Err(_) => before.unread.len() == 0 && size > 0,
    }
}

/// What it does to a session to be given bytes for the server: it accepts all of
/// them, or it fails and has accepted some from the front, but not all.
pub open spec fn accepts(
    before: SessionView,
    bytes: Seq<u8>,
    after: SessionView,
    result: Result<(), IoErrorView>,
) -> bool {
    &&& calls(before, Call::Give(bytes, result), after)
    &&& after.said == before.said
    &&& after.heard == before.heard
    &&& after.unread == before.unread
    &&& if result is Ok {
        after.given == before.given + bytes
    } else {
        exists|n: int|
            0 <= n < bytes.len() && after.given == before.given + #[trigger] bytes.take(n)
    }
}

/// What `rustls::pki_types::ServerName::try_from` has against a host as the name
/// of a server, if it has anything.
pub uninterp spec fn server_name_error(host: Seq<char>) -> Option<Seq<char>>;

/// Makes the client's side of a TLS session with a host, by
/// `rustls::pki_types::ServerName::try_from` and `rustls::ClientConnection::new`,
/// that trusts the roots of `webpki_roots` and shows no certificate of its own.
/// Whether the host can be taken as the name of a server, and what the error says,
/// is a function of the text alone, which `server_name_error` names. A session that
/// is made has said and heard nothing, and its handshake is under way. Whether one
/// can be made, and what it will say, rests on chance and on the machine, and
/// nothing is claimed of it.
#[verifier::external_body]
pub(crate) fn client_connection(host: &str) -> (result: Result<Session, SessionError>)
    ensures
        match result {
            Ok(session) => server_name_error(host@) is None && is_fresh(session@, host@),
            Err(SessionError::Name(message)) => server_name_error(host@) == Some(message@),
            Err(SessionError::Session(_)) => server_name_error(host@) is None,
        },
{
    let roots: rustls::RootCertStore = webpki_roots::TLS_SERVER_ROOTS.iter().cloned().collect();
    let config = rustls::ClientConfig::builder()
        .with_root_certificates(roots)
        .with_no_client_auth();
    let name = rustls::pki_types::ServerName::try_from(host.to_owned())
        .map_err(|e| SessionError::Name(e.to_string()))?;
    let tls = rustls::ClientConnection::new(std::sync::Arc::new(config), name)
        .map_err(|e| SessionError::Session(e.to_string()))?;
    Ok(Session { tls, state: Ghost(arbitrary()) })
}

/// Whether the session has bytes for the server, by
/// `rustls::ClientConnection::wants_write`.
#[verifier::external_body]
pub(crate) fn wants_write(session: &Session) -> (wants: bool)
    ensures
        wants == session@.wants_write,
{
    session.tls.wants_write()
}

/// Whether the session waits for bytes from the server, by
/// `rustls::ClientConnection::wants_read`.
#[verifier::external_body]
pub(crate) fn wants_read(session: &Session) -> (wants: bool)
    ensures
        wants == session@.wants_read,
{
    session.tls.wants_read()
}

/// Whether the handshake is under way, by
/// `rustls::ClientConnection::is_handshaking`.
#[verifier::external_body]
pub(crate) fn is_handshaking(session: &Session) -> (handshaking: bool)
    ensures
        handshaking == session@.handshaking,
{
    session.tls.is_handshaking()
}

/// Takes the bytes that the session has for the server, by
/// `rustls::ClientConnection::write_tls` into an empty vector. There are none
/// exactly when the session has none. Which they are rests on chance: they are noted
/// as what the session has said, and nothing else is claimed of them. What the session
/// has accepted, taken in and received stays.
#[verifier::external_body]
pub(crate) fn write_tls(session: &mut Session) -> (result: Result<Vec<u8>, IoError>)
    ensures
        takes(old(session)@, final(session)@, bytes_view(result)),
{
    let mut bytes = Vec::new();
    session.tls.write_tls(&mut bytes).map(|_| bytes).map_err(io_error)
}

/// Hands the session bytes from the server, by one call of
/// `rustls::ClientConnection::read_tls`. The session takes in as many of them, from
/// the front, as it says, and none if it fails.
#[verifier::external_body]
pub(crate) fn read_tls(session: &mut Session, bytes: &[u8]) -> (result: Result<usize, IoError>)
    ensures
        feeds(old(session)@, bytes@, final(session)@, error_view(result)),
{
    session.tls.read_tls(&mut std::io::Cursor::new(bytes)).map_err(io_error)
}

/// Has the session work on the bytes that it has taken in, by
/// `rustls::ClientConnection::process_new_packets`. What has come through the
/// session by that is behind what was there; which bytes these are, and whether the
/// session finds fault, rests on what it has said and heard, and nothing is claimed
/// of it.
#[verifier::external_body]
pub(crate) fn process_new_packets(session: &mut Session) -> (result: Result<(), String>)
    ensures
        works(old(session)@, final(session)@, fault_view(result)),
{
    session.tls.process_new_packets().map(|_| ()).map_err(|e| e.to_string())
}

/// Takes up to `size` bytes that have come through the session, by
/// `std::io::Read::read` on `rustls::ClientConnection::reader`: as many as there
/// are, from the front. It fails only when there are none. Whether it then fails,
/// or gives none, rests on how the server has ended the session.
#[verifier::external_body]
pub(crate) fn read_plain(session: &mut Session, size: usize) -> (result: Result<Vec<u8>, IoError>)
    requires
        size <= isize::MAX,
    ensures
        hands_over(old(session)@, size, final(session)@, bytes_view(result)),
{
    let mut bytes = vec![0u8; size];
    session.tls.reader().read(&mut bytes).map(|n| bytes[..n].to_vec()).map_err(io_error)
}

/// Hands the session bytes to be sent to the server, by
/// `std::io::Write::write_all` on `rustls::ClientConnection::writer`. The session
/// accepts all of them, or it fails and has accepted some from the front, but not
/// all; which of the two rests on what it has said and heard.
#[verifier::external_body]
pub(crate) fn write_plain(session: &mut Session, buf: &[u8]) -> (result: Result<(), IoError>)
    ensures
        accepts(old(session)@, buf@, final(session)@, error_view(result)),
{
    session.tls.writer().write_all(buf).map_err(io_error)
}

/// What an error of `std::io` says, of which kind it is and which number it has, by
/// `std::io::Error::kind`, `to_string` and `raw_os_error`: the form in which the functions above
/// hand their errors on and note them. Nothing is claimed of how it depends on the
/// error.
#[verifier::external_body]
fn io_error(error: std::io::Error) -> (converted: IoError) {
    let kind = match error.kind() {
        std::io::ErrorKind::WouldBlock => IoErrorKind::WouldBlock,
        std::io::ErrorKind::WriteZero => IoErrorKind::WriteZero,
        std::io::ErrorKind::InvalidData => IoErrorKind::InvalidData,
        std::io::ErrorKind::Other => IoErrorKind::Other,
        kind => IoErrorKind::Std(kind),
    };
    IoError { kind, message: error.to_string(), code: error.raw_os_error() }
}

} // verus!
