use vstd::prelude::*;
use vstd::string::*;

use crate::future::Poll;
use crate::lemmas;
use crate::rrest::connection::Connection;
use crate::rrest::error::{Error, ErrorView, IoError};
use crate::rrest::headers;
use crate::rrest::headers::Headers;
use crate::rrest::parse;
use crate::rrest::parse::{ParsedResponse, ParsedResponseView, Version, MAX_HEADERS};
use crate::rrest::text;
use crate::rrest::url_parts;
use crate::rrest::url_parts::{UrlParts, UrlPartsView};

verus! {

/// How many bytes are asked for at a time.
pub const READ_SIZE: usize = 4096;

/// What a request asks for: the path and, behind a question mark, the query, or
/// the root if both are empty.
pub open spec fn request_path(parts: UrlPartsView) -> Seq<char> {
    let path = match parts.query {
        Some(query) => parts.path + ("?"@ + query),
        None => parts.path,
    };
    if path.len() == 0 {
        "/"@
    } else {
        path
    }
}

/// The request for a URL. There is none for a URL without a host, nor for one that
/// is not of HTTP.
pub open spec fn request_text(parts: UrlPartsView) -> Result<Seq<char>, ErrorView> {
    match parts.host {
        Some(host) => if url_parts::is_http(parts) {
            Ok(
                "GET "@ + request_path(parts) + " HTTP/1.1\r\nHost: "@ + host
                    + "\r\nConnection: close\r\n\r\n"@,
            )
        } else {
            Err(ErrorView::InvalidUrl("scheme is neither http nor https"@))
        },
        None => Err(ErrorView::InvalidUrl("no host in URL"@)),
    }
}

/// Whether `result` is what making the request for the URL in `parts` is to come to.
pub open spec fn written(parts: UrlPartsView, result: Result<String, Error>) -> bool {
    match (result, request_text(parts)) {
        (Ok(request), Ok(expected)) => request@ == expected,
        (Err(error), Err(expected)) => error@ == expected,
        _ => false,
    }
}

/// The request for a URL that has been taken apart.
pub fn request(parts: &UrlParts) -> (result: Result<String, Error>)
    ensures
        written(parts@, result),
{
    let host = match &parts.host {
        Some(host) => host,
        None => {
            return Err(Error::InvalidUrl("no host in URL".to_owned()));
        },
    };
    if !parts.has_http_scheme() {
        return Err(Error::InvalidUrl("scheme is neither http nor https".to_owned()));
    }
    let path = match &parts.query {
        Some(query) => parts.path.clone().concat(text::joined("?", query.as_str()).as_str()),
        None => parts.path.clone(),
    };
    let path = if path.as_str().is_empty() {
        "/".to_owned()
    } else {
        path
    };
    let start = "GET ".to_owned().concat(path.as_str()).concat(" HTTP/1.1\r\nHost: ");
    Ok(start.concat(host.as_str()).concat("\r\nConnection: close\r\n\r\n"))
}

/// Whether a status is a success, by `http::StatusCode::is_success`, which says
/// so of those from 200 to 299.
#[verifier::external_body]
fn is_success(status: u16) -> (success: bool)
    requires
        100 <= status <= 999,
    ensures
        success == (200 <= status <= 299),
{
    http::StatusCode::from_u16(status).unwrap().is_success()
}

/// A response.
#[derive(Debug)]
pub struct Response {
    /// The version of HTTP.
    pub version: Version,
    /// The status.
    pub status: u16,
    /// The headers.
    pub headers: Headers,
    /// The body.
    pub body: Vec<u8>,
}

/// A response, for specifications.
pub struct ResponseView {
    /// The version of HTTP.
    pub version: Version,
    /// The status.
    pub status: u16,
    /// The headers.
    pub fields: Map<Seq<char>, Seq<Seq<u8>>>,
    /// The body.
    pub body: Seq<u8>,
}

impl View for Response {
    type V = ResponseView;

    open spec fn view(&self) -> ResponseView {
        ResponseView {
            version: self.version,
            status: self.status,
            fields: headers::header_fields(self.headers),
            body: self.body@,
        }
    }
}

/// How long the headers say that the body is, if they say it: the number in the
/// first content length.
pub open spec fn content_length(fields: Map<Seq<char>, Seq<Seq<u8>>>) -> Option<usize> {
    match headers::header_name(parse::bytes_of("content-length"@)) {
        Some(key) if fields.contains_key(key) => text::number_in(fields[key][0]),
        _ => None,
    }
}

/// How long the headers say that the body is.
fn length_of(headers: &Headers) -> (len: Option<usize>)
    ensures
        len == content_length(headers::header_fields(*headers)),
{
    match headers::get(headers, "content-length") {
        Some(value) => text::parse_usize(value.as_slice()),
        None => None,
    }
}

/// What has become of an exchange.
#[derive(Debug)]
pub enum Progress {
    /// More bytes are wanted.
    Read,
    /// It is over.
    Finished(Result<Response, Error>),
}

/// What has become of an exchange, for specifications.
pub enum ProgressView {
    /// More bytes are wanted.
    Read,
    /// It is over.
    Finished(Result<ResponseView, ErrorView>),
}

impl View for Progress {
    type V = ProgressView;

    open spec fn view(&self) -> ProgressView {
        match self {
            Progress::Read => ProgressView::Read,
            Progress::Finished(Ok(response)) => ProgressView::Finished(Ok(response@)),
            Progress::Finished(Err(error)) => ProgressView::Finished(Err(error@)),
        }
    }
}

/// The receiving side of a request: puts a response together from the bytes as
/// they come.
pub struct Exchange {
    buf: Vec<u8>,
    parsed: Option<ParsedResponse>,
    over: bool,
}

/// How far the receiving side of a request has come, for specifications.
pub enum ExchangeView {
    /// The head is not complete; these bytes have come.
    Head(Seq<u8>),
    /// The head is complete, and these bytes of the body have come.
    Body(ParsedResponseView, Seq<u8>),
    /// The exchange is over.
    Over,
}

impl View for Exchange {
    type V = ExchangeView;

    closed spec fn view(&self) -> ExchangeView {
        if self.over {
            ExchangeView::Over
        } else {
            match self.parsed {
                None => ExchangeView::Head(self.buf@),
                Some(parsed) => ExchangeView::Body(parsed@, self.buf@),
            }
        }
    }
}

/// Whether the whole body is there, as far as the headers say how long it is.
pub open spec fn body_complete(head: ParsedResponseView, body: Seq<u8>) -> bool {
    content_length(head.fields) matches Some(len) && body.len() >= len
}

/// The body among the bytes behind the head: as many of them as the headers say, or
/// all of them if the headers do not say or there are fewer.
pub open spec fn body_of(head: ParsedResponseView, bytes: Seq<u8>) -> Seq<u8> {
    match content_length(head.fields) {
        Some(len) if bytes.len() >= len => bytes.take(len as int),
        _ => bytes,
    }
}

/// What a request comes to when `bytes` have come behind the head: the response if
/// its status is a success, and an error with the status otherwise.
pub open spec fn verdict(head: ParsedResponseView, bytes: Seq<u8>) -> Result<
    ResponseView,
    ErrorView,
> {
    if 200 <= head.status <= 299 {
        Ok(
            ResponseView {
                version: head.version,
                status: head.status,
                fields: head.fields,
                body: body_of(head, bytes),
            },
        )
    } else {
        Err(ErrorView::Http(head.status))
    }
}

/// How an exchange stands when `body` has come behind a complete head.
pub open spec fn with_body(head: ParsedResponseView, body: Seq<u8>) -> (
    ExchangeView,
    ProgressView,
) {
    if body_complete(head, body) {
        (ExchangeView::Over, ProgressView::Finished(verdict(head, body)))
    } else {
        (ExchangeView::Body(head, body), ProgressView::Read)
    }
}

/// How an exchange stands when `buf` has come and `head` is what it says in
/// front of the body; what is no complete head may still become one.
pub open spec fn with_head(buf: Seq<u8>, head: Result<ParsedResponseView, ErrorView>) -> (
    ExchangeView,
    ProgressView,
) {
    match head {
        Err(_) => (ExchangeView::Head(buf), ProgressView::Read),
        Ok(head) => with_body(head, buf.skip(head.head_len as int)),
    }
}

/// How an exchange stands when `buf` has come and no head was complete before.
pub open spec fn looked_at(buf: Seq<u8>) -> (ExchangeView, ProgressView) {
    with_head(buf, parse::response_of(parse::http_head(buf, MAX_HEADERS)))
}

/// How an exchange stands after some more bytes, or none if there will be no
/// more.
pub open spec fn received(before: ExchangeView, chunk: Seq<u8>) -> (ExchangeView, ProgressView) {
    match before {
        ExchangeView::Head(buf) => if chunk.len() == 0 {
            (
                ExchangeView::Over,
                ProgressView::Finished(
                    Err(ErrorView::Protocol("connection closed before headers"@)),
                ),
            )
        } else {
            looked_at(buf + chunk)
        },
        ExchangeView::Body(head, body) => if chunk.len() == 0 {
            (ExchangeView::Over, ProgressView::Finished(verdict(head, body)))
        } else {
            with_body(head, body + chunk)
        },
        ExchangeView::Over => (ExchangeView::Over, ProgressView::Read),
    }
}

impl Exchange {
    /// The status of a complete head is a status.
    pub closed spec fn wf(&self) -> bool {
        self.parsed matches Some(parsed) ==> 100 <= parsed.status <= 999
    }

    /// An exchange in which nothing has come.
    pub fn new() -> (exchange: Self)
        ensures
            exchange.wf(),
            exchange@ == ExchangeView::Head(Seq::<u8>::empty()),
    {
        Exchange { buf: Vec::new(), parsed: None, over: false }
    }

    /// Ends the exchange with what it comes to.
    fn conclude(&mut self, head: ParsedResponse) -> (progress: Progress)
        requires
            100 <= head.status <= 999,
        ensures
            final(self).wf(),
            final(self)@ is Over,
            progress@ == ProgressView::Finished(verdict(head@, old(self).buf@)),
    {
        let mut body: Vec<u8> = Vec::new();
        std::mem::swap(&mut self.buf, &mut body);
        self.parsed = None;
        self.over = true;
        if !is_success(head.status) {
            return Progress::Finished(Err(Error::Http(head.status)));
        }
        if let Some(len) = length_of(&head.headers) {
            body.truncate(len);
        }
        Progress::Finished(
            Ok(
                Response {
                    version: head.version,
                    status: head.status,
                    headers: head.headers,
                    body,
                },
            ),
        )
    }

    /// Goes by what the bytes say in front of the body. If the head is complete
    /// the rest of the bytes is the body so far.
    pub fn settle(&mut self, head: Result<ParsedResponse, Error>) -> (progress: Progress)
        requires
            old(self).wf(),
            old(self)@ matches ExchangeView::Head(buf) && (head matches Ok(head)
                ==> head.head_len <= buf.len() && 100 <= head.status <= 999),
        ensures
            final(self).wf(),
            (final(self)@, progress@) == with_head(
                old(self)@->Head_0,
                match head {
                    Ok(head) => Ok(head@),
                    Err(error) => Err(error@),
                },
            ),
    {
        match head {
            Err(_) => Progress::Read,
            Ok(head) => {
                let body = self.buf.split_off(head.head_len);
                assert(body@ == old(self).buf@.skip(head.head_len as int));
                self.buf = body;
                self.go_on(head)
            },
        }
    }

    /// Ends the exchange if the whole body is there.
    fn go_on(&mut self, head: ParsedResponse) -> (progress: Progress)
        requires
            old(self).wf(),
            !old(self).over,
            100 <= head.status <= 999,
        ensures
            final(self).wf(),
            (final(self)@, progress@) == with_body(head@, old(self).buf@),
    {
        let complete = match length_of(&head.headers) {
            Some(len) => self.buf.len() >= len,
            None => false,
        };
        if complete {
            self.conclude(head)
        } else {
            self.parsed = Some(head);
            Progress::Read
        }
    }

    /// Looks for a complete head in what has come so far.
    fn look(&mut self) -> (progress: Progress)
        requires
            old(self).wf(),
            old(self)@ is Head,
        ensures
            final(self).wf(),
            (final(self)@, progress@) == looked_at(old(self)@->Head_0),
            old(self)@->Head_0.len() == 0 ==> progress is Read && final(self)@ == old(self)@,
    {
        let head = parse::parse_response(self.buf.as_slice());
        self.settle(head)
    }

    /// Starts the exchange.
    pub fn begin(&mut self) -> (progress: Progress)
        requires
            old(self).wf(),
            old(self)@ == ExchangeView::Head(Seq::<u8>::empty()),
        ensures
            final(self).wf(),
            (final(self)@, progress@) == looked_at(Seq::<u8>::empty()),
            progress is Read,
            final(self)@ == old(self)@,
    {
        self.look()
    }

    /// Takes some more bytes in; none if there will be no more.
    pub fn step(&mut self, chunk: &[u8]) -> (progress: Progress)
        requires
            old(self).wf(),
            old(self)@ !is Over,
        ensures
            final(self).wf(),
            (final(self)@, progress@) == received(old(self)@, chunk@),
    {
        if chunk.len() == 0 {
            let parsed = self.parsed.take();
            match parsed {
                Some(head) => self.conclude(head),
                None => {
                    self.over = true;
                    Progress::Finished(
                        Err(Error::Protocol("connection closed before headers".to_owned())),
                    )
                },
            }
        } else {
            self.buf.extend_from_slice(chunk);
            assert(self.buf@ == old(self).buf@ + chunk@);
            let parsed = self.parsed.take();
            match parsed {
                Some(head) => self.go_on(head),
                None => self.look(),
            }
        }
    }
}

/// How an exchange that is waiting for bytes stands after chunk upon chunk.
pub open spec fn received_all(before: ExchangeView, chunks: Seq<Seq<u8>>) -> ExchangeView
    decreases chunks.len(),
{
    if chunks.len() == 0 {
        before
    } else {
        received(received_all(before, chunks.drop_last()), chunks.last()).0
    }
}

/// A body whose length the headers do not say is everything that comes until the
/// server closes the connection, in whatever chunks it comes.
pub proof fn law_body_until_close(head: ParsedResponseView, start: Seq<u8>, chunks: Seq<Seq<u8>>)
    requires
        content_length(head.fields) is None,
        forall|i: int| 0 <= i < chunks.len() ==> (#[trigger] chunks[i]).len() > 0,
    ensures
        received_all(ExchangeView::Body(head, start), chunks) == ExchangeView::Body(
            head,
            start + chunks.flatten(),
        ),
        received(
            received_all(ExchangeView::Body(head, start), chunks),
            Seq::<u8>::empty(),
        ).1 == ProgressView::Finished(verdict(head, start + chunks.flatten())),
    decreases chunks.len(),
{
    if chunks.len() == 0 {
        assert(start + chunks.flatten() == start);
    } else {
        let rest = chunks.drop_last();
        assert forall|i: int| 0 <= i < rest.len() implies (#[trigger] rest[i]).len() > 0 by {
            assert(rest[i] == chunks[i]);
        }
        law_body_until_close(head, start, rest);
        assert(chunks == rest.push(chunks.last()));
        rest.lemma_flatten_push(chunks.last());
        assert(chunks.last() == chunks[chunks.len() - 1]);
        assert((start + rest.flatten()) + chunks.last() == start + chunks.flatten());
    }
}

/// As long as no head is complete, everything that has come is kept.
proof fn lemma_head_keeps_everything(chunks: Seq<Seq<u8>>)
    requires
        forall|i: int| 0 <= i < chunks.len() ==> (#[trigger] chunks[i]).len() > 0,
        received_all(ExchangeView::Head(Seq::empty()), chunks) is Head,
    ensures
        received_all(ExchangeView::Head(Seq::empty()), chunks) == ExchangeView::Head(
            chunks.flatten(),
        ),
    decreases chunks.len(),
{
    let start = ExchangeView::Head(Seq::<u8>::empty());
    if chunks.len() == 0 {
        assert(chunks.flatten() == Seq::<u8>::empty());
    } else {
        let rest = chunks.drop_last();
        assert forall|i: int| 0 <= i < rest.len() implies (#[trigger] rest[i]).len() > 0 by {
            assert(rest[i] == chunks[i]);
        }
        assert(received_all(start, rest) is Head);
        lemma_head_keeps_everything(rest);
        assert(chunks == rest.push(chunks.last()));
        rest.lemma_flatten_push(chunks.last());
        assert(chunks.last() == chunks[chunks.len() - 1]);
    }
}

/// A response can come in any chunks, whether its headers say how long its body is
/// or not. Let the head become complete with the chunk `m`, and let no chunk before
/// the last complete the body. Then the body is what stands behind the head in all
/// the bytes together: up to the length that the headers say, when the last chunk
/// reaches it, and otherwise up to where the server closes the connection.
pub proof fn law_response_in_any_chunks(chunks: Seq<Seq<u8>>, m: int, head: ParsedResponseView)
    requires
        0 <= m < chunks.len(),
        forall|i: int| 0 <= i < chunks.len() ==> (#[trigger] chunks[i]).len() > 0,
        received_all(ExchangeView::Head(Seq::empty()), chunks.take(m)) is Head,
        parse::response_of(parse::http_head(chunks.take(m + 1).flatten(), MAX_HEADERS)) == Ok::<
            ParsedResponseView,
            ErrorView,
        >(head),
        head.head_len <= chunks.take(m + 1).flatten().len(),
        m < chunks.len() - 1 ==> !body_complete(
            head,
            chunks.drop_last().flatten().skip(head.head_len as int),
        ),
    ensures
        ({
            let bytes = chunks.flatten().skip(head.head_len as int);
            let before = received_all(ExchangeView::Head(Seq::empty()), chunks.drop_last());
            if body_complete(head, bytes) {
                received(before, chunks.last()).1 == ProgressView::Finished(verdict(head, bytes))
            } else {
                let after = received(before, chunks.last());
                &&& after == (ExchangeView::Body(head, bytes), ProgressView::Read)
                &&& received(after.0, Seq::<u8>::empty()).1 == ProgressView::Finished(
                    verdict(head, bytes),
                )
            }
        }),
{
    lemma_behind_head(chunks, m, head);
    let rest = chunks.drop_last();
    assert(chunks == rest.push(chunks.last()));
    rest.lemma_flatten_push(chunks.last());
    assert(chunks.last() == chunks[chunks.len() - 1]);
    let cut = head.head_len as int;
    if m == chunks.len() - 1 {
        assert(chunks.take(m) == rest);
        assert(chunks.take(m + 1) == chunks);
        assert forall|i: int| 0 <= i < rest.len() implies (#[trigger] rest[i]).len() > 0 by {
            assert(rest[i] == chunks[i]);
        }
        lemma_head_keeps_everything(rest);
    } else {
        assert(rest.flatten().skip(cut) + chunks.last() == chunks.flatten().skip(cut)) by {
            lemma_take_flatten_len(rest, m + 1);
            assert(rest.take(m + 1) == chunks.take(m + 1));
        }
    }
}

/// Some of the chunks together are no longer than all of them.
proof fn lemma_take_flatten_len(chunks: Seq<Seq<u8>>, k: int)
    requires
        0 <= k <= chunks.len(),
    ensures
        chunks.take(k).flatten().len() <= chunks.flatten().len(),
{
    assert(chunks == chunks.take(k) + chunks.skip(k));
    lemmas::lemma_flatten_add(chunks.take(k), chunks.skip(k));
}

/// When the head has become complete with the chunk `m`, and chunks have come behind
/// it that do not complete the body, all the bytes behind the head are kept.
proof fn lemma_behind_head(chunks: Seq<Seq<u8>>, m: int, head: ParsedResponseView)
    requires
        0 <= m < chunks.len(),
        forall|i: int| 0 <= i < chunks.len() ==> (#[trigger] chunks[i]).len() > 0,
        received_all(ExchangeView::Head(Seq::empty()), chunks.take(m)) is Head,
        parse::response_of(parse::http_head(chunks.take(m + 1).flatten(), MAX_HEADERS)) == Ok::<
            ParsedResponseView,
            ErrorView,
        >(head),
        head.head_len <= chunks.take(m + 1).flatten().len(),
        m < chunks.len() - 1 ==> !body_complete(
            head,
            chunks.drop_last().flatten().skip(head.head_len as int),
        ),
    ensures
        m < chunks.len() - 1 ==> received_all(
            ExchangeView::Head(Seq::empty()),
            chunks.drop_last(),
        ) == ExchangeView::Body(
            head,
            chunks.drop_last().flatten().skip(head.head_len as int),
        ),
    decreases chunks.len(),
{
    let start = ExchangeView::Head(Seq::<u8>::empty());
    let cut = head.head_len as int;
    let rest = chunks.drop_last();
    if m < chunks.len() - 1 {
        assert forall|i: int| 0 <= i < rest.len() implies (#[trigger] rest[i]).len() > 0 by {
            assert(rest[i] == chunks[i]);
        }
        assert(rest.take(m) == chunks.take(m));
        assert(rest.take(m + 1) == chunks.take(m + 1));
        let less = rest.drop_last();
        assert(rest == less.push(rest.last()));
        less.lemma_flatten_push(rest.last());
        assert(rest.last() == rest[rest.len() - 1]);
        if m == rest.len() - 1 {
            assert(rest.take(m) == less);
            assert(rest.take(m + 1) == rest);
            assert forall|i: int| 0 <= i < less.len() implies (#[trigger] less[i]).len() > 0 by {
                assert(less[i] == chunks[i]);
            }
            lemma_head_keeps_everything(less);
        } else {
            lemma_take_flatten_len(less, m + 1);
            assert(less.take(m + 1) == chunks.take(m + 1));
            assert(less.flatten().skip(cut) + rest.last() == rest.flatten().skip(cut));
            lemma_behind_head(rest, m, head);
        }
    }
}

/// A body whose length the headers say is taken in, in whatever chunks it comes,
/// until it is that long: the chunk with which it is ends the exchange, what that
/// chunk holds beyond the length is left out, and no further one is waited for. If
/// the server closes the connection before, the body is what has come.
pub proof fn law_body_of_length(
    head: ParsedResponseView,
    start: Seq<u8>,
    chunks: Seq<Seq<u8>>,
    chunk: Seq<u8>,
    len: usize,
)
    requires
        content_length(head.fields) == Some(len),
        forall|i: int| 0 <= i < chunks.len() ==> (#[trigger] chunks[i]).len() > 0,
        (start + chunks.flatten()).len() < len,
        chunk.len() > 0,
    ensures
        received_all(ExchangeView::Body(head, start), chunks) == ExchangeView::Body(
            head,
            start + chunks.flatten(),
        ),
        received(received_all(ExchangeView::Body(head, start), chunks), chunk).1 == (if (start
            + chunks.flatten() + chunk).len() >= len {
            ProgressView::Finished(verdict(head, start + chunks.flatten() + chunk))
        } else {
            ProgressView::Read
        }),
        (start + chunks.flatten() + chunk).len() >= len ==> body_of(
            head,
            start + chunks.flatten() + chunk,
        ) == (start + chunks.flatten() + chunk).take(len as int),
        received(
            received_all(ExchangeView::Body(head, start), chunks),
            Seq::<u8>::empty(),
        ).1 == ProgressView::Finished(verdict(head, start + chunks.flatten())),
        body_of(head, start + chunks.flatten()) == start + chunks.flatten(),
    decreases chunks.len(),
{
    if chunks.len() == 0 {
        assert(start + chunks.flatten() == start);
    } else {
        let rest = chunks.drop_last();
        assert forall|i: int| 0 <= i < rest.len() implies (#[trigger] rest[i]).len() > 0 by {
            assert(rest[i] == chunks[i]);
        }
        assert(chunks == rest.push(chunks.last()));
        rest.lemma_flatten_push(chunks.last());
        assert(chunks.last() == chunks[chunks.len() - 1]);
        assert((start + rest.flatten()) + chunks.last() == start + chunks.flatten());
        law_body_of_length(head, start, rest, chunks.last(), len);
    }
}

/// No byte is lost or made up between the head and the body: when the head
/// becomes complete, the bytes that it takes up and the body together are all
/// that has come.
pub proof fn law_head_and_body_are_everything(buf: Seq<u8>, head: ParsedResponseView, body: Seq<u8>)
    requires
        looked_at(buf).0 == ExchangeView::Body(head, body),
        head.head_len <= buf.len(),
    ensures
        buf == buf.take(head.head_len as int) + body,
{
    assert(buf == buf.take(head.head_len as int) + buf.skip(head.head_len as int));
}

/// A request over a connection.
pub struct Http<C> {
    connection: C,
    stage: Stage,
}

/// How far a request has come.
enum Stage {
    /// The request is being sent.
    Sending(Vec<u8>),
    /// The response is being received.
    Receiving(Exchange),
    /// It is over.
    Over,
}

/// How far a request has come, for specifications.
pub enum StageView {
    /// The request is being sent.
    Sending(Seq<u8>),
    /// The response is being received.
    Receiving(ExchangeView),
    /// It is over.
    Over,
}

/// What a request has come to, for specifications.
pub open spec fn outcome_view(outcome: Poll<Result<Response, Error>>) -> Poll<
    Result<ResponseView, ErrorView>,
> {
    match outcome {
        Poll::Pending => Poll::Pending,
        Poll::Ready(Ok(response)) => Poll::Ready(Ok(response@)),
        Poll::Ready(Err(error)) => Poll::Ready(Err(error@)),
    }
}

/// How a request stands when its exchange stands so.
pub open spec fn stage_of(step: (ExchangeView, ProgressView)) -> (
    StageView,
    Poll<Result<ResponseView, ErrorView>>,
) {
    match step.1 {
        ProgressView::Read => (StageView::Receiving(step.0), Poll::Pending),
        ProgressView::Finished(result) => (StageView::Over, Poll::Ready(result)),
    }
}

/// How a request stands after the connection has answered to being offered it.
pub open spec fn sent(request: Seq<u8>, answer: Poll<Result<(), IoError>>) -> (
    StageView,
    Poll<Result<ResponseView, ErrorView>>,
) {
    match answer {
        Poll::Pending => (StageView::Sending(request), Poll::Pending),
        Poll::Ready(Err(error)) => (StageView::Over, Poll::Ready(Err(ErrorView::Io(error@)))),
        Poll::Ready(Ok(_)) => (
            StageView::Receiving(ExchangeView::Head(Seq::<u8>::empty())),
            Poll::Pending,
        ),
    }
}

/// How a request stands after the connection has answered to being asked for
/// bytes.
pub open spec fn answered(exchange: ExchangeView, answer: Poll<Result<Vec<u8>, IoError>>) -> (
    StageView,
    Poll<Result<ResponseView, ErrorView>>,
) {
    match answer {
        Poll::Pending => (StageView::Receiving(exchange), Poll::Pending),
        Poll::Ready(Err(error)) => (StageView::Over, Poll::Ready(Err(ErrorView::Io(error@)))),
        Poll::Ready(Ok(bytes)) => stage_of(received(exchange, bytes@)),
    }
}

/// Whether setting out to ask for what `url` stands for can take a request from
/// `before` to `after` and come to `result`.
pub open spec fn asks(
    before: StageView,
    url: Seq<char>,
    after: StageView,
    result: Result<(), Error>,
) -> bool {
    match url_parts::url_parse(url) {
        Err(message) => {
            &&& result matches Err(error) && error@ == ErrorView::InvalidUrl(message)
            &&& after == before
        },
        Ok(parts) => match request_text(parts) {
            Err(expected) => {
                &&& result matches Err(error) && error@ == expected
                &&& after == before
            },
            Ok(text) => {
                &&& result is Ok
                &&& after == StageView::Sending(parse::bytes_of(text))
            },
        },
    }
}

impl<C> Http<C> {
    /// The connection.
    pub closed spec fn spec_connection(&self) -> C {
        self.connection
    }

    /// How far the request has come.
    pub closed spec fn spec_stage(&self) -> StageView {
        match self.stage {
            Stage::Sending(request) => StageView::Sending(request@),
            Stage::Receiving(exchange) => StageView::Receiving(exchange@),
            Stage::Over => StageView::Over,
        }
    }

    /// An exchange that is being received is not over.
    pub closed spec fn wf(&self) -> bool {
        self.stage matches Stage::Receiving(exchange) ==> exchange.wf() && exchange@ !is Over
    }

    /// A connection over which nothing has been asked.
    pub fn new(connection: C) -> (http: Self)
        ensures
            http.wf(),
            http.spec_connection() == connection,
            http.spec_stage() is Over,
    {
        Http { connection, stage: Stage::Over }
    }

    /// Sets out to ask for what a URL stands for.
    pub fn get(&mut self, url: &str) -> (result: Result<(), Error>)
        requires
            old(self).wf(),
        ensures
            final(self).wf(),
            final(self).spec_connection() == old(self).spec_connection(),
            asks(old(self).spec_stage(), url@, final(self).spec_stage(), result),
    {
        let parts = match UrlParts::parse(url) {
            Ok(parts) => parts,
            Err(error) => {
                return Err(error);
            },
        };
        let text = match request(&parts) {
            Ok(text) => text,
            Err(error) => {
                return Err(error);
            },
        };
        let mut bytes: Vec<u8> = Vec::new();
        bytes.extend_from_slice(text.as_str().as_bytes());
        assert(bytes@ == parse::bytes_of(text@));
        self.stage = Stage::Sending(bytes);
        Ok(())
    }

    /// Goes by what has become of the exchange.
    fn proceed(&mut self, exchange: Exchange, progress: Progress) -> (outcome: Poll<
        Result<Response, Error>,
    >)
        requires
            exchange.wf(),
            progress is Read ==> exchange@ !is Over,
        ensures
            final(self).wf(),
            final(self).connection == old(self).connection,
            (final(self).spec_stage(), outcome_view(outcome)) == stage_of(
                (exchange@, progress@),
            ),
    {
        match progress {
            Progress::Read => {
                self.stage = Stage::Receiving(exchange);
                Poll::Pending
            },
            Progress::Finished(result) => {
                self.stage = Stage::Over;
                Poll::Ready(result)
            },
        }
    }

    /// Goes by how the connection has answered to being offered the request.
    pub fn on_sent(&mut self, answer: Poll<Result<(), IoError>>) -> (outcome: Poll<
        Result<Response, Error>,
    >)
        requires
            old(self).wf(),
            old(self).spec_stage() is Sending,
        ensures
            final(self).wf(),
            final(self).spec_connection() == old(self).spec_connection(),
            (final(self).spec_stage(), outcome_view(outcome)) == sent(
                old(self).spec_stage()->Sending_0,
                answer,
            ),
    {
        match answer {
            Poll::Pending => Poll::Pending,
            Poll::Ready(Err(error)) => {
                self.stage = Stage::Over;
                Poll::Ready(Err(Error::Io(error)))
            },
            Poll::Ready(Ok(_)) => {
                let mut exchange = Exchange::new();
                let progress = exchange.begin();
                self.proceed(exchange, progress)
            },
        }
    }

    /// Goes by how the connection has answered to being asked for bytes.
    pub fn on_received(&mut self, answer: Poll<Result<Vec<u8>, IoError>>) -> (outcome: Poll<
        Result<Response, Error>,
    >)
        requires
            old(self).wf(),
            old(self).spec_stage() is Receiving,
        ensures
            final(self).wf(),
            final(self).spec_connection() == old(self).spec_connection(),
            (final(self).spec_stage(), outcome_view(outcome)) == answered(
                old(self).spec_stage()->Receiving_0,
                answer,
            ),
    {
        match answer {
            Poll::Pending => Poll::Pending,
            Poll::Ready(Err(error)) => {
                self.stage = Stage::Over;
                Poll::Ready(Err(Error::Io(error)))
            },
            Poll::Ready(Ok(bytes)) => {
                let mut stage = Stage::Over;
                std::mem::swap(&mut self.stage, &mut stage);
                match stage {
                    Stage::Receiving(mut exchange) => {
                        let progress = exchange.step(bytes.as_slice());
                        self.proceed(exchange, progress)
                    },
                    _ => Poll::Pending,
                }
            },
        }
    }
}

impl<C: Connection> Http<C> {
    /// Whether taking the request of `before` a step further can leave `after`
    /// behind and come to `outcome`.
    pub open spec fn steps(
        before: Self,
        after: Self,
        outcome: Poll<Result<Response, Error>>,
    ) -> bool {
        match before.spec_stage() {
            StageView::Sending(request) => exists|answer: Poll<Result<(), IoError>>|
                {
                    &&& #[trigger] C::writes(
                        before.spec_connection(),
                        request,
                        after.spec_connection(),
                        answer,
                    )
                    &&& (after.spec_stage(), outcome_view(outcome)) == sent(request, answer)
                },
            StageView::Receiving(exchange) => exists|answer: Poll<Result<Vec<u8>, IoError>>|
                {
                    &&& #[trigger] C::reads(
                        before.spec_connection(),
                        READ_SIZE,
                        after.spec_connection(),
                        answer,
                    )
                    &&& (after.spec_stage(), outcome_view(outcome)) == answered(exchange, answer)
                },
            StageView::Over => after == before && outcome is Pending,
        }
    }

    /// Takes the request a step further: offers it to the connection until that
    /// has taken it, and then asks for bytes until the response is there.
    pub fn poll(&mut self) -> (outcome: Poll<Result<Response, Error>>)
        requires
            old(self).wf(),
        ensures
            final(self).wf(),
            Self::steps(*old(self), *final(self), outcome),
    {
        match &self.stage {
            Stage::Sending(request) => {
                let answer = self.connection.write_all(request.as_slice());
                let ghost given = answer;
                let outcome = self.on_sent(answer);
                assert(C::writes(
                    old(self).spec_connection(),
                    old(self).spec_stage()->Sending_0,
                    self.spec_connection(),
                    given,
                ));
                outcome
            },
            Stage::Receiving(_) => {
                let answer = self.connection.read(READ_SIZE);
                let ghost given = answer;
                let outcome = self.on_received(answer);
                assert(C::reads(
                    old(self).spec_connection(),
                    READ_SIZE,
                    self.spec_connection(),
                    given,
                ));
                outcome
            },
            Stage::Over => Poll::Pending,
        }
    }
}

} // verus!
