use vstd::prelude::*;
use vstd::string::*;

use crate::rrest::error::{Error, ErrorView, IoError, IoErrorKind, IoErrorView};
use crate::rrest::text;
use crate::rrest::url_parts;
use crate::rrest::url_parts::{UrlParts, UrlPartsView};

verus! {

/// The port of a URL: that which it gives, or else the one of its scheme.
pub open spec fn port_of(parts: UrlPartsView) -> u16 {
    match parts.port {
        Some(port) => port,
        None => if parts.scheme == "https"@ {
            443
        } else {
            80
        },
    }
}

/// Where to connect to for a URL: the host, a colon and the port. A URL without a
/// host, or one that is not of HTTP, leads nowhere.
pub open spec fn address_of(parts: UrlPartsView) -> Result<Seq<char>, ErrorView> {
    match parts.host {
        Some(host) => if url_parts::is_http(parts) {
            Ok(host + ":"@ + text::decimal_digits(port_of(parts) as nat))
        } else {
            Err(ErrorView::InvalidUrl("scheme is neither http nor https"@))
        },
        None => Err(ErrorView::InvalidUrl("missing host"@)),
    }
}

/// Whether `result` is what working out where to connect to for the URL in `parts` is to
/// come to.
pub open spec fn located(parts: UrlPartsView, result: Result<String, Error>) -> bool {
    match (result, address_of(parts)) {
        (Ok(address), Ok(expected)) => address@ == expected,
        (Err(error), Err(expected)) => error@ == expected,
        _ => false,
    }
}

/// Whether `result` is what working out where to connect to for `url` is to come to.
pub open spec fn located_for(url: Seq<char>, result: Result<String, Error>) -> bool {
    match url_parts::url_parse(url) {
        Err(message) => result matches Err(error) && error@ == ErrorView::InvalidUrl(message),
        Ok(parts) => located(parts, result),
    }
}

/// Where to connect to for a URL that has been taken apart.
pub fn address(parts: &UrlParts) -> (result: Result<String, Error>)
    ensures
        located(parts@, result),
{
    let host = match &parts.host {
        Some(host) => host,
        None => {
            return Err(Error::InvalidUrl("missing host".to_owned()));
        },
    };
    if !parts.has_http_scheme() {
        return Err(Error::InvalidUrl("scheme is neither http nor https".to_owned()));
    }
    let port: u16 = match parts.port {
        Some(port) => port,
        None => {
            if parts.scheme == "https".to_owned() {
                443
            } else {
                80
            }
        },
    };
    let address = host.clone().concat(":").concat(text::decimal(port).as_str());
    Ok(address)
}

/// Where to connect to for a URL.
pub fn connect(url: &str) -> (result: Result<String, Error>)
    ensures
        located_for(url@, result),
{
    match UrlParts::parse(url) {
        Ok(parts) => address(&parts),
        Err(error) => Err(error),
    }
}

/// What a socket said when it was asked to go on.
#[derive(Debug)]
pub enum Attempt {
    /// It moved so many bytes.
    Moved(usize),
    /// It failed.
    Failed(IoError),
}

/// What is to be done after an attempt.
#[derive(Debug)]
pub enum Step<T> {
    /// Nothing: this is the result.
    Finished(Result<T, IoError>),
    /// The next attempt, at once.
    Again,
    /// The next attempt, after a pause of so many milliseconds.
    Pause(u64),
}

/// How long to wait for a socket that cannot go on right now, in milliseconds.
pub const PAUSE_MILLIS: u64 = 1;

/// Goes by what a socket said when it was asked for bytes: a socket that cannot
/// go on right now is asked again after a pause.
pub fn read_step(attempt: Attempt) -> (step: Step<usize>)
    ensures
        read_on(attempt, step),
{
    match attempt {
        Attempt::Moved(n) => Step::Finished(Ok(n)),
        Attempt::Failed(error) => {
            if error.is_would_block() {
                Step::Pause(PAUSE_MILLIS)
            } else {
                Step::Finished(Err(error))
            }
        },
    }
}

/// Whether what a socket said when it was offered the bytes in `before` leaves those in
/// `after` to be written, and this to be done.
pub open spec fn went_on(
    before: Seq<u8>,
    attempt: Attempt,
    after: Seq<u8>,
    step: Step<()>,
) -> bool {
    match attempt {
        Attempt::Moved(n) => {
            &&& after == before.skip(n as int)
            &&& if n == 0 {
                step matches Step::Finished(Err(error)) && error@ == IoErrorView::of_kind(
                    IoErrorKind::WriteZero,
                    "write zero"@,
                )
            } else if n == before.len() {
                step == Step::<()>::Finished(Ok(()))
            } else {
                step is Again
            }
        },
        Attempt::Failed(error) => {
            &&& after == before
            &&& if error.kind == IoErrorKind::WouldBlock {
                step == Step::<()>::Pause(PAUSE_MILLIS)
            } else {
                step == Step::<()>::Finished(Err(error))
            }
        },
    }
}

/// Whether this is to be done after what a socket said when it was asked for bytes.
pub open spec fn read_on(attempt: Attempt, step: Step<usize>) -> bool {
    match attempt {
        Attempt::Moved(n) => step == Step::<usize>::Finished(Ok(n)),
        Attempt::Failed(error) => if error.kind == IoErrorKind::WouldBlock {
            step == Step::<usize>::Pause(PAUSE_MILLIS)
        } else {
            step == Step::<usize>::Finished(Err(error))
        },
    }
}

/// A write of a whole buffer to a socket, in as many goes as the socket needs.
pub struct WriteAll {
    buf: Vec<u8>,
    written: usize,
}

impl WriteAll {
    /// No more is written than there is.
    pub closed spec fn wf(&self) -> bool {
        self.written <= self.buf@.len()
    }

    /// The bytes that the socket has not taken.
    pub closed spec fn spec_remaining(&self) -> Seq<u8> {
        self.buf@.skip(self.written as int)
    }

    /// A write of `buf`.
    pub fn new(buf: Vec<u8>) -> (write: Self)
        ensures
            write.wf(),
            write.spec_remaining() == buf@,
    {
        let write = WriteAll { buf, written: 0 };
        assert(write.spec_remaining() == buf@);
        write
    }

    /// The bytes to offer to the socket.
    pub fn remaining(&self) -> (bytes: &[u8])
        requires
            self.wf(),
        ensures
            bytes@ == self.spec_remaining(),
    {
        vstd::slice::slice_subrange(self.buf.as_slice(), self.written, self.buf.len())
    }

    /// Goes by what the socket said. A socket that takes nothing is an error; one
    /// that cannot go on right now is asked again after a pause.
    pub fn step(&mut self, attempt: Attempt) -> (step: Step<()>)
        requires
            old(self).wf(),
            attempt matches Attempt::Moved(n) ==> n <= old(self).spec_remaining().len(),
        ensures
            final(self).wf(),
            went_on(
                old(self).spec_remaining(),
                attempt,
                final(self).spec_remaining(),
                step,
            ),
    {
        match attempt {
            Attempt::Moved(n) => {
                let len: usize = self.buf.len();
                self.written = self.written + n;
                assert(self.spec_remaining() == old(self).spec_remaining().skip(n as int));
                if n == 0 {
                    Step::Finished(
                        Err(
                            IoError::of_kind(IoErrorKind::WriteZero, "write zero".to_owned()),
                        ),
                    )
                } else if self.written == len {
                    Step::Finished(Ok(()))
                } else {
                    Step::Again
                }
            },
            Attempt::Failed(error) => {
                if error.is_would_block() {
                    Step::Pause(PAUSE_MILLIS)
                } else {
                    Step::Finished(Err(error))
                }
            },
        }
    }
}

/// What a socket moved is gone from the front of what remains, and nothing else is. A
/// write ends well exactly when the socket has taken the last byte; it ends badly with the
/// error of the socket, if that is not that it cannot go on right now, or if the socket
/// takes nothing; and otherwise it goes on, after a millisecond if the socket could not.
pub proof fn law_write_ends_when_all_is_written(
    before: Seq<u8>,
    attempt: Attempt,
    after: Seq<u8>,
    step: Step<()>,
)
    requires
        went_on(before, attempt, after, step),
        attempt matches Attempt::Moved(n) ==> n <= before.len(),
    ensures
        attempt matches Attempt::Moved(n) ==> before == before.take(n as int) + after,
        attempt is Failed ==> after == before,
        step == Step::<()>::Finished(Ok(())) <==> attempt is Moved && before.len() > 0
            && after.len() == 0,
        step matches Step::Finished(Err(error)) ==> match attempt {
            Attempt::Moved(n) => {
                &&& n == 0
                &&& error@.kind is WriteZero
                &&& error@.message == "write zero"@
                &&& error@.code is None
            },
            Attempt::Failed(cause) => cause == error && error.kind != IoErrorKind::WouldBlock,
        },
        step is Again <==> attempt is Moved && 0 < after.len() < before.len(),
        step is Pause <==> (attempt matches Attempt::Failed(error) && error.kind
            == IoErrorKind::WouldBlock),
        step matches Step::Pause(millis) ==> millis == 1,
{
    if let Attempt::Moved(n) = attempt {
        assert(before == before.take(n as int) + before.skip(n as int));
    }
}

/// A read ends with what the socket moved, or with its error; a socket that cannot go on
/// right now, and only that, is asked again.
pub proof fn law_read_ends_with_what_moved(attempt: Attempt, step: Step<usize>)
    requires
        read_on(attempt, step),
    ensures
        attempt matches Attempt::Moved(n) ==> step == Step::<usize>::Finished(Ok(n)),
        attempt matches Attempt::Failed(error) ==> (error.kind != IoErrorKind::WouldBlock ==> step
            == Step::<usize>::Finished(Err(error))),
        step is Pause <==> (attempt matches Attempt::Failed(error) && error.kind
            == IoErrorKind::WouldBlock),
        step matches Step::Pause(millis) ==> millis == 1,
        step !is Again,
{
}

} // verus!
