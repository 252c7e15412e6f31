use vstd::prelude::*;

use crate::future::Poll;
use crate::rrest::client;
use crate::rrest::client::{Http, Response, StageView};
use crate::rrest::connection::Connection;
use crate::rrest::error::Error;
use crate::rrest::tls;
use crate::rrest::tls::TlsStream;
use crate::rrest::url_parts;

verus! {

/// A request over a connection that is open, with the TLS session that it may
/// need.
pub enum Request<C> {
    /// The TLS session is being set up; then this URL is asked for.
    Securing(TlsStream<C>, String),
    /// The request goes over the connection as it is.
    Plain(Http<C>),
    /// The request goes through the TLS session.
    Secure(Http<TlsStream<C>>),
    /// The request is over.
    Over,
}

/// Whether asking for `url` over a connection can lead to a request that is at
/// its start, or to this error.
pub open spec fn asked<D>(connection: D, url: Seq<char>, result: Result<Http<D>, Error>) -> bool {
    match result {
        Ok(http) => {
            &&& http.wf()
            &&& http.spec_connection() == connection
            &&& client::asks(StageView::Over, url, http.spec_stage(), Ok(()))
        },
        Err(error) => client::asks(StageView::Over, url, StageView::Over, Err(error)),
    }
}

/// Asks for `url` over a connection.
fn ask<D>(connection: D, url: &str) -> (result: Result<Http<D>, Error>)
    ensures
        asked(connection, url@, result),
{
    let mut http = Http::new(connection);
    match http.get(url) {
        Ok(_) => Ok(http),
        Err(error) => Err(error),
    }
}

impl<C> Request<C> {
    /// A request that is not over is one that can go on.
    pub open spec fn wf(&self) -> bool {
        match self {
            Request::Plain(http) => http.wf(),
            Request::Secure(http) => http.wf(),
            Request::Securing(stream, _) => stream.wf(),
            Request::Over => true,
        }
    }

    /// Whether starting to ask for `url` over `connection` can come to `result`:
    /// with a host for TLS the session comes first, and without one the request
    /// goes out at once.
    pub open spec fn starts(
        connection: C,
        tls_host: Option<Seq<char>>,
        url: Seq<char>,
        result: Result<Self, Error>,
    ) -> bool {
        match tls_host {
            Some(host) => match result {
                Ok(Request::Securing(stream, later)) => {
                    &&& tls::sets_out(connection, host, Ok(stream))
                    &&& later@ == url
                },
                Ok(_) => false,
                Err(error) => tls::sets_out(connection, host, Err(error)),
            },
            None => match result {
                Ok(Request::Plain(http)) => asked(connection, url, Ok(http)),
                Ok(_) => false,
                Err(error) => asked(connection, url, Err(error)),
            },
        }
    }

    /// Starts to ask for `url` over `connection`, through a TLS session with
    /// `tls_host` if there is one.
    pub fn start(connection: C, tls_host: Option<String>, url: &str) -> (result: Result<
        Self,
        Error,
    >)
        ensures
            Self::starts(connection, url_parts::text_view(tls_host), url@, result),
            result matches Ok(request) ==> request.wf(),
    {
        match tls_host {
            Some(host) => match tls::wrap_tls(connection, host.as_str()) {
                Ok(stream) => Ok(Request::Securing(stream, url.to_owned())),
                Err(error) => Err(error),
            },
            None => match ask(connection, url) {
                Ok(http) => Ok(Request::Plain(http)),
                Err(error) => Err(error),
            },
        }
    }
}

impl<C: Connection> Request<C> {
    /// Whether taking a request a step further while its TLS session is being
    /// set up can lead to `after` and `outcome`: the request goes out when the
    /// handshake is through.
    pub open spec fn secures(
        stream: TlsStream<C>,
        url: Seq<char>,
        after: Self,
        outcome: Poll<Result<Response, Error>>,
    ) -> bool {
        exists|next: TlsStream<C>, shaken: Poll<Result<(), Error>>|
            {
                &&& #[trigger] TlsStream::shakes(stream, next, shaken)
                &&& match shaken {
                    Poll::Pending => {
                        &&& outcome is Pending
                        &&& after matches Request::Securing(kept, later) && kept == next
                            && later@ == url
                    },
                    Poll::Ready(Err(error)) => {
                        &&& outcome == Poll::Ready(Err::<Response, Error>(error))
                        &&& after is Over
                    },
                    Poll::Ready(Ok(_)) => match after {
                        Request::Secure(http) => outcome is Pending && asked(next, url, Ok(http)),
                        Request::Over => outcome matches Poll::Ready(Err(error)) && asked::<
                            TlsStream<C>,
                        >(next, url, Err(error)),
                        _ => false,
                    },
                }
            }
    }

    /// Whether taking the request `before` a step further can leave `after`
    /// behind and come to `outcome`.
    pub open spec fn steps(
        before: Self,
        after: Self,
        outcome: Poll<Result<Response, Error>>,
    ) -> bool {
        match before {
            Request::Securing(stream, url) => Self::secures(stream, url@, after, outcome),
            Request::Plain(http) => exists|next: Http<C>|
                {
                    &&& #[trigger] Http::steps(http, next, outcome)
                    &&& after == (if outcome is Pending {
                        Request::Plain(next)
                    } else {
                        Request::Over
                    })
                },
            Request::Secure(http) => exists|next: Http<TlsStream<C>>|
                {
                    &&& #[trigger] Http::steps(http, next, outcome)
                    &&& after == (if outcome is Pending {
                        Request::Secure(next)
                    } else {
                        Request::Over
                    })
                },
            Request::Over => after is Over && outcome is Pending,
        }
    }

    /// Takes the request a step further.
    pub fn poll(&mut self) -> (outcome: Poll<Result<Response, Error>>)
        requires
            old(self).wf(),
        ensures
            final(self).wf(),
            Self::steps(*old(self), *final(self), outcome),
    {
        let mut before = Request::Over;
        std::mem::swap(self, &mut before);
        match before {
            Request::Securing(mut stream, url) => {
                let ghost start = stream;
                let shaken = stream.handshake();
                let ghost end = stream;
                let ghost given = shaken;
                assert(TlsStream::shakes(start, end, given));
                match shaken {
                    Poll::Pending => {
                        *self = Request::Securing(stream, url);
                        Poll::Pending
                    },
                    Poll::Ready(Err(error)) => Poll::Ready(Err(error)),
                    Poll::Ready(Ok(_)) => match ask(stream, url.as_str()) {
                        Ok(http) => {
                            *self = Request::Secure(http);
                            Poll::Pending
                        },
                        Err(error) => Poll::Ready(Err(error)),
                    },
                }
            },
            Request::Plain(mut http) => {
                let ghost start = http;
                let outcome = http.poll();
                assert(Http::steps(start, http, outcome));
                if outcome.is_pending() {
                    *self = Request::Plain(http);
                }
                outcome
            },
            Request::Secure(mut http) => {
                let ghost start = http;
                let outcome = http.poll();
                assert(Http::steps(start, http, outcome));
                if outcome.is_pending() {
                    *self = Request::Secure(http);
                }
                outcome
            },
            Request::Over => Poll::Pending,
        }
    }
}

} // verus!
