use vstd::prelude::*;
use vstd::string::*;

use crate::future::Poll;
use crate::rrest;
use crate::rrest::client;
use crate::rrest::client::{ExchangeView, Http, ProgressView, Response, ResponseView};
use crate::rrest::client::StageView;
use crate::rrest::connection::Connection;
use crate::rrest::error::{Error, ErrorView, IoError};
use crate::rrest::headers;
use crate::rrest::net;
use crate::rrest::parse;
use crate::rrest::parse::ParsedResponseView;
use crate::rrest::request;
use crate::rrest::request::Request;
use crate::rrest::session;
use crate::rrest::text;
use crate::rrest::tls::TlsStream;
use crate::rrest::url_parts;
use crate::rrest::url_parts::UrlPartsView;
use crate::rrest::{Plan, PlanView};

verus! {

/// A URL can be asked for exactly if it has a host and its scheme is that of HTTP or
/// HTTPS, whatever else it holds; a plan can be made for it, and a connection for it,
/// in just the same cases.
pub proof fn law_which_urls_can_be_asked_for(parts: UrlPartsView)
    ensures
        client::request_text(parts) is Ok <==> parts.host is Some && (parts.scheme == "http"@
            || parts.scheme == "https"@),
        net::address_of(parts) is Ok <==> client::request_text(parts) is Ok,
        rrest::plan_of(parts) is Ok <==> client::request_text(parts) is Ok,
        client::request_text(parts) matches Err(error) ==> error is InvalidUrl,
        net::address_of(parts) matches Err(error) ==> error is InvalidUrl,
        rrest::plan_of(parts) is Err ==> rrest::plan_of(parts)->Err_0 == net::address_of(
            parts,
        )->Err_0,
        parts.host is None ==> {
            &&& client::request_text(parts) == Err::<Seq<char>, ErrorView>(
                ErrorView::InvalidUrl("no host in URL"@),
            )
            &&& net::address_of(parts) == Err::<Seq<char>, ErrorView>(
                ErrorView::InvalidUrl("missing host"@),
            )
        },
        parts.host is Some && parts.scheme != "http"@ && parts.scheme != "https"@ ==> {
            &&& client::request_text(parts) == Err::<Seq<char>, ErrorView>(
                ErrorView::InvalidUrl("scheme is neither http nor https"@),
            )
            &&& net::address_of(parts) == Err::<Seq<char>, ErrorView>(
                ErrorView::InvalidUrl("scheme is neither http nor https"@),
            )
        },
{
}

/// A plan wants TLS exactly if the scheme of the URL is that of HTTPS, and then with
/// the URL's host, whatever its port, path and query are.
pub proof fn law_tls_goes_by_scheme(parts: UrlPartsView, plan: PlanView)
    requires
        rrest::plan_of(parts) == Ok::<PlanView, ErrorView>(plan),
    ensures
        plan.tls_host is Some <==> parts.scheme == "https"@,
        plan.tls_host is None <==> parts.scheme == "http"@,
        plan.tls_host is Some ==> parts.host is Some && plan.tls_host->0 == parts.host->0,
{
    reveal_strlit("http");
    reveal_strlit("https");
    assert("http"@.len() != "https"@.len());
}

/// Where a connection goes depends on nothing of a URL but the scheme, the host and
/// the port: two URLs that differ in their paths and queries alone have one plan.
pub proof fn law_plan_ignores_path_and_query(
    parts: UrlPartsView,
    path: Seq<char>,
    query: Option<Seq<char>>,
)
    ensures
        rrest::plan_of(UrlPartsView { path, query, ..parts }) == rrest::plan_of(parts),
        net::address_of(UrlPartsView { path, query, ..parts }) == net::address_of(parts),
{
}

/// The request for a URL names its host, and what it asks for can be read off it: the
/// path and behind it, if there is a query, a question mark and the query; or the root,
/// if there is neither.
pub proof fn law_request_asks_for_path_and_query(parts: UrlPartsView, request: Seq<char>)
    requires
        client::request_text(parts) == Ok::<Seq<char>, ErrorView>(request),
    ensures
        parts.host is Some,
        exists|target: Seq<char>|
            {
                &&& request == #[trigger] ("GET "@ + target) + " HTTP/1.1\r\nHost: "@
                    + parts.host->0 + "\r\nConnection: close\r\n\r\n"@
                &&& match parts.query {
                    Some(query) => {
                        &&& target.len() == parts.path.len() + 1 + query.len()
                        &&& target.take(parts.path.len() as int) == parts.path
                        &&& target[parts.path.len() as int] == '?'
                        &&& target.skip(parts.path.len() as int + 1) == query
                    },
                    None => if parts.path.len() == 0 {
                        target.len() == 1 && target[0] == '/'
                    } else {
                        target == parts.path
                    },
                }
            },
{
    reveal_strlit("?");
    reveal_strlit("/");
    let target = client::request_path(parts);
    assert(request == ("GET "@ + target) + " HTTP/1.1\r\nHost: "@ + parts.host->0
        + "\r\nConnection: close\r\n\r\n"@);
    if let Some(query) = parts.query {
        assert(target == parts.path + ("?"@ + query));
        assert(target.take(parts.path.len() as int) == parts.path);
        assert(target.skip(parts.path.len() as int + 1) == query);
    }
}

/// A connection goes to the host of the URL and, behind a colon, to the port in decimal
/// digits: the one that the URL gives, and otherwise 443 for HTTPS and 80 for HTTP.
pub proof fn law_address_is_host_and_port(parts: UrlPartsView, address: Seq<char>)
    requires
        net::address_of(parts) == Ok::<Seq<char>, ErrorView>(address),
    ensures
        parts.host is Some,
        exists|digits: Seq<char>|
            {
                &&& address == #[trigger] (parts.host->0 + ":"@ + digits)
                &&& digits.len() > 0
                &&& forall|i: int| 0 <= i < digits.len() ==> '0' <= #[trigger] digits[i] <= '9'
                &&& text::digits_value(digits.map_values(|c: char| c as u8)) == (match parts.port {
                    Some(port) => port as int,
                    None => if parts.scheme == "https"@ {
                        443
                    } else {
                        80
                    },
                })
            },
        rrest::plan_of(parts) matches Ok(plan) && plan.address == address,
{
    let port = net::port_of(parts) as nat;
    text::law_decimal_reads_back(port);
    assert(address == (parts.host->0 + ":"@ + text::decimal_digits(port)));
}

/// Where the first space in a request behind its start stands.
proof fn lemma_target_ends_at_space(
    first: Seq<char>,
    first_rest: Seq<char>,
    other: Seq<char>,
    other_rest: Seq<char>,
)
    requires
        "GET "@ + first + first_rest == "GET "@ + other + other_rest,
        forall|i: int| 0 <= i < other.len() ==> #[trigger] other[i] != ' ',
        first_rest.len() > 0 && first_rest[0] == ' ',
    ensures
        first.len() >= other.len(),
{
    if first.len() < other.len() {
        let k = "GET "@.len() + first.len();
        assert(("GET "@ + first + first_rest)[k as int] == first_rest[0]);
        assert(("GET "@ + other + other_rest)[k as int] == other[first.len() as int]);
    }
}

/// Where the first question mark in what is asked for stands.
proof fn lemma_path_ends_at_mark(
    path: Seq<char>,
    rest: Seq<char>,
    other: Seq<char>,
    other_rest: Seq<char>,
)
    requires
        path + rest == other + other_rest,
        forall|i: int| 0 <= i < other.len() ==> #[trigger] other[i] != '?',
        rest.len() > 0 && rest[0] == '?',
    ensures
        path.len() >= other.len(),
{
    if path.len() < other.len() {
        assert((path + rest)[path.len() as int] == rest[0]);
        assert((other + other_rest)[path.len() as int] == other[path.len() as int]);
    }
}

/// Two URLs with one request have one host and one query, and one path, but for an
/// empty path and the root without a query. No path here holds a question mark, and no
/// path or query a space: those stand percent-encoded in a URL.
pub proof fn law_requests_tell_urls_apart(a: UrlPartsView, b: UrlPartsView)
    requires
        client::request_text(a) is Ok,
        client::request_text(a) == client::request_text(b),
        forall|i: int| 0 <= i < a.path.len() ==> #[trigger] a.path[i] != '?' && a.path[i] != ' ',
        forall|i: int| 0 <= i < b.path.len() ==> #[trigger] b.path[i] != '?' && b.path[i] != ' ',
        a.query matches Some(query) ==> forall|i: int|
            0 <= i < query.len() ==> #[trigger] query[i] != ' ',
        b.query matches Some(query) ==> forall|i: int|
            0 <= i < query.len() ==> #[trigger] query[i] != ' ',
    ensures
        a.host == b.host,
        a.query == b.query,
        a.path == b.path || (a.query is None && (a.path.len() == 0 || a.path == "/"@) && (
        b.path.len() == 0 || b.path == "/"@)),
{
    reveal_strlit("GET ");
    reveal_strlit("?");
    reveal_strlit("/");
    reveal_strlit(" HTTP/1.1\r\nHost: ");
    let ta = client::request_path(a);
    let tb = client::request_path(b);
    let middle = " HTTP/1.1\r\nHost: "@;
    let end = "\r\nConnection: close\r\n\r\n"@;
    let ra = middle + a.host->0 + end;
    let rb = middle + b.host->0 + end;
    let request = client::request_text(a)->Ok_0;
    assert(request == "GET "@ + ta + ra);
    assert(request == "GET "@ + tb + rb);
    lemma_target_ends_at_space(ta, ra, tb, rb);
    lemma_target_ends_at_space(tb, rb, ta, ra);
    let cut = ("GET "@.len() + ta.len()) as int;
    assert(ta == request.subrange("GET "@.len() as int, cut));
    assert(tb == request.subrange("GET "@.len() as int, cut));
    assert(ra == request.skip(cut));
    assert(rb == request.skip(cut));
    let host_end = (ra.len() - end.len()) as int;
    assert(a.host->0 == ra.subrange(middle.len() as int, host_end));
    assert(b.host->0 == rb.subrange(middle.len() as int, host_end));
    lemma_targets_tell_apart(a, b);
}

/// As the law, of what is asked for alone.
proof fn lemma_targets_tell_apart(a: UrlPartsView, b: UrlPartsView)
    requires
        client::request_path(a) == client::request_path(b),
        forall|i: int| 0 <= i < a.path.len() ==> #[trigger] a.path[i] != '?' && a.path[i] != ' ',
        forall|i: int| 0 <= i < b.path.len() ==> #[trigger] b.path[i] != '?' && b.path[i] != ' ',
    ensures
        a.query == b.query,
        a.path == b.path || (a.query is None && (a.path.len() == 0 || a.path == "/"@) && (
        b.path.len() == 0 || b.path == "/"@)),
{
    reveal_strlit("?");
    reveal_strlit("/");
    let t = client::request_path(a);
    match (a.query, b.query) {
        (Some(qa), Some(qb)) => {
            let ra = "?"@ + qa;
            let rb = "?"@ + qb;
            assert(t == a.path + ra);
            assert(t == b.path + rb);
            lemma_path_ends_at_mark(a.path, ra, b.path, rb);
            lemma_path_ends_at_mark(b.path, rb, a.path, ra);
            let k = a.path.len() as int;
            assert(a.path == t.take(k));
            assert(b.path == t.take(k));
            assert(qa == t.skip(k + 1));
            assert(qb == t.skip(k + 1));
        },
        (Some(qa), None) => {
            assert(t == a.path + ("?"@ + qa));
            assert(t[a.path.len() as int] == '?');
        },
        (None, Some(qb)) => {
            assert(t == b.path + ("?"@ + qb));
            assert(t[b.path.len() as int] == '?');
        },
        (None, None) => {},
    }
}

/// How long a body is goes by the first content length among the headers: if that is
/// written in digits, the number is how long; if there is none, or it is no number, how
/// long it is does not go by the headers.
pub proof fn law_length_goes_by_first_content_length(
    fields: Map<Seq<char>, Seq<Seq<u8>>>,
    key: Seq<char>,
)
    requires
        headers::header_name(parse::bytes_of("content-length"@)) == Some(key),
    ensures
        !fields.contains_key(key) ==> client::content_length(fields) is None,
        fields.contains_key(key) && fields[key].len() > 0 ==> client::content_length(fields)
            == text::number_in(fields[key].first()),
{
}

/// An answer with a complete head is a response exactly if its status is from 200 to
/// 299, and otherwise an error with just that status. A response has the version, the
/// status and the headers of the head, and its body is the front of the bytes behind
/// it: all of them if the headers do not say how long it is, and as many as they say, or
/// as there are if there are fewer, if they do.
pub proof fn law_status_decides(head: ParsedResponseView, bytes: Seq<u8>)
    ensures
        client::verdict(head, bytes) is Ok <==> 200 <= head.status <= 299,
        client::verdict(head, bytes) matches Err(error) ==> error == ErrorView::Http(head.status),
        client::verdict(head, bytes) matches Ok(response) ==> {
            &&& response.status == head.status
            &&& response.version == head.version
            &&& response.fields == head.fields
            &&& response.body.is_prefix_of(bytes)
            &&& match client::content_length(head.fields) {
                None => response.body == bytes,
                Some(len) => {
                    &&& response.body.len() <= len
                    &&& bytes.len() <= len ==> response.body == bytes
                    &&& bytes.len() >= len ==> response.body.len() == len
                },
            }
        },
{
}

/// When and how an exchange ends. It ends with the bytes that make the body as long as
/// the headers say, or when the server closes the connection, and at no other time.
/// Behind a complete head it ends with a response if the status is from 200 to 299, and
/// with an error with just that status otherwise; before one, only by the server closing
/// the connection, which is an error.
pub proof fn law_exchange_ends_as_status_says(
    before: ExchangeView,
    chunk: Seq<u8>,
    after: ExchangeView,
    progress: ProgressView,
)
    requires
        client::received(before, chunk) == (after, progress),
        before !is Over,
    ensures
        progress is Finished <==> after is Over,
        before is Head && chunk.len() == 0 ==> (progress matches ProgressView::Finished(Err(error))
            && error == ErrorView::Protocol("connection closed before headers"@)),
        before matches ExchangeView::Head(buf) ==> chunk.len() > 0 ==> {
            let found = parse::response_of(parse::http_head(buf + chunk, 64));
            &&& found is Err ==> progress is Read && after == ExchangeView::Head(buf + chunk)
            &&& found matches Ok(head) ==> {
                let bytes = (buf + chunk).skip(head.head_len as int);
                &&& progress is Finished <==> (client::content_length(head.fields) matches Some(len)
                    && bytes.len() >= len)
                &&& progress is Read ==> after == ExchangeView::Body(head, bytes)
                &&& progress matches ProgressView::Finished(result) ==> ends_as_status_says(
                    head,
                    bytes,
                    result,
                )
            }
        },
        before matches ExchangeView::Body(head, body) ==> {
            &&& progress is Finished <==> chunk.len() == 0 || (client::content_length(
                head.fields,
            ) matches Some(len) && body.len() + chunk.len() >= len)
            &&& progress is Read ==> after == ExchangeView::Body(head, body + chunk)
            &&& progress matches ProgressView::Finished(result) ==> ends_as_status_says(
                head,
                body + chunk,
                result,
            )
        },
{
    if let ExchangeView::Body(head, body) = before {
        assert(body + Seq::<u8>::empty() == body);
        if chunk.len() == 0 {
            assert(body + chunk == body);
        }
        law_status_decides(head, body + chunk);
    }
    if let ExchangeView::Head(buf) = before {
        if chunk.len() > 0 {
            if let Ok(head) = parse::response_of(parse::http_head(buf + chunk, 64)) {
                law_status_decides(head, (buf + chunk).skip(head.head_len as int));
            }
        }
    }
}

/// Whether a result is the one that an answer with this head and these bytes behind it
/// is to have.
pub open spec fn ends_as_status_says(
    head: ParsedResponseView,
    bytes: Seq<u8>,
    result: Result<ResponseView, ErrorView>,
) -> bool {
    match result {
        Ok(response) => {
            &&& 200 <= head.status <= 299
            &&& response.status == head.status
            &&& response.version == head.version
            &&& response.fields == head.fields
            &&& response.body.is_prefix_of(bytes)
            &&& match client::content_length(head.fields) {
                Some(len) if len <= bytes.len() => response.body.len() == len,
                _ => response.body == bytes,
            }
        },
        Err(error) => !(200 <= head.status <= 299) && error == ErrorView::Http(head.status),
    }
}

/// A request that is taken further step by step, each time from where the step before
/// left it, until it is ready.
pub open spec fn runs<C: Connection>(
    https: Seq<Http<C>>,
    outcomes: Seq<Poll<Result<Response, Error>>>,
) -> bool {
    &&& https.len() == outcomes.len() + 1
    &&& outcomes.len() > 0
    &&& forall|i: int|
        0 <= i < outcomes.len() ==> Http::steps(https[i], https[i + 1], #[trigger] outcomes[i])
    &&& forall|i: int| 0 <= i < outcomes.len() - 1 ==> (#[trigger] outcomes[i]) is Pending
}

/// Whether the connection has taken all of `request` in the step `i`.
pub open spec fn taken_in<C: Connection>(https: Seq<Http<C>>, i: int, request: Seq<u8>) -> bool {
    C::writes(
        https[i].spec_connection(),
        request,
        https[i + 1].spec_connection(),
        Poll::Ready(Ok(())),
    )
}

/// Whether the connection has given `bytes` in the step `i`.
pub open spec fn read_in<C: Connection>(https: Seq<Http<C>>, i: int, bytes: Seq<u8>) -> bool {
    exists|given: Vec<u8>|
        {
            &&& given@ == bytes
            &&& #[trigger] C::reads(
                https[i].spec_connection(),
                4096,
                https[i + 1].spec_connection(),
                Poll::Ready(Ok(given)),
            )
        }
}

/// Whether the connection has first taken the request, in the step `sent`, and then
/// given these chunks of bytes, one after the other, in the steps `at`.
pub open spec fn transcript<C: Connection>(
    https: Seq<Http<C>>,
    request: Seq<u8>,
    sent: int,
    at: Seq<int>,
    chunks: Seq<Seq<u8>>,
) -> bool {
    &&& 0 <= sent < https.len() - 1
    &&& taken_in(https, sent, request)
    &&& at.len() == chunks.len()
    &&& forall|j: int|
        0 <= j < at.len() ==> sent < #[trigger] at[j] < https.len() - 1 && read_in(
            https,
            at[j],
            chunks[j],
        )
    &&& forall|j: int, k: int| 0 <= j < k < at.len() ==> #[trigger] at[j] < #[trigger] at[k]
}

/// Whether the head of the answer is complete with the chunk `m`, not before, and says
/// this.
pub open spec fn head_in(chunks: Seq<Seq<u8>>, m: int, head: ParsedResponseView) -> bool {
    &&& 0 <= m < chunks.len()
    &&& parse::response_of(parse::http_head(chunks.take(m + 1).flatten(), 64)) == Ok::<
        ParsedResponseView,
        ErrorView,
    >(head)
    &&& no_head_before(chunks, m)
}

/// Whether no head is complete with any of the first `m` chunks.
pub open spec fn no_head_before(chunks: Seq<Seq<u8>>, m: int) -> bool {
    forall|j: int|
        0 < j <= m ==> parse::response_of(
            parse::http_head((#[trigger] chunks.take(j)).flatten(), 64),
        ) is Err
}

/// The bytes behind a head that is complete with the chunk `m`.
pub open spec fn behind_head(chunks: Seq<Seq<u8>>, m: int, head: ParsedResponseView) -> Seq<u8> {
    chunks.take(m + 1).flatten().skip(head.head_len as int) + chunks.skip(m + 1).flatten()
}

/// Whether an answer in these chunks comes to `result` with the last of them: behind a
/// complete head by its status, when the body is as long as the headers say or the
/// server has closed the connection, and before one by an error, if the server closes
/// the connection.
pub open spec fn answers(chunks: Seq<Seq<u8>>, result: Result<ResponseView, ErrorView>) -> bool {
    &&& chunks.len() > 0
    &&& {
        ||| exists|m: int, head: ParsedResponseView|
            {
                &&& #[trigger] head_in(chunks, m, head)
                &&& ends_as_status_says(head, behind_head(chunks, m, head), result)
                &&& chunks.last().len() == 0 || (client::content_length(head.fields) matches Some(
                    len,
                ) && len <= behind_head(chunks, m, head).len())
            }
        ||| {
            &&& chunks.last().len() == 0
            &&& no_head_before(chunks, chunks.len() - 1)
            &&& result == Err::<ResponseView, ErrorView>(
                ErrorView::Protocol("connection closed before headers"@),
            )
        }
    }
}

/// Whether a connection can fail so when it is offered `request`.
pub open spec fn fails_to_send<C: Connection>(
    before: C,
    request: Seq<u8>,
    after: C,
    error: IoError,
) -> bool {
    C::writes(before, request, after, Poll::Ready(Err(error)))
}

/// Whether a request that has come to `result` in its last step had a reason to: the
/// connection failed at the request or at the answer, or it took the request and then
/// gave an answer that comes to just that.
pub open spec fn has_reason<C: Connection>(
    https: Seq<Http<C>>,
    request: Seq<u8>,
    result: Result<ResponseView, ErrorView>,
) -> bool {
    let before = https[https.len() - 2].spec_connection();
    let after = https[https.len() - 1].spec_connection();
    ||| exists|error: IoError| #[trigger]
        fails_to_send(before, request, after, error) && result == Err::<ResponseView, ErrorView>(
            ErrorView::Io(error@),
        )
    ||| exists|error: IoError|
        {
            &&& #[trigger] C::reads(before, 4096, after, Poll::Ready(Err(error)))
            &&& result == Err::<ResponseView, ErrorView>(ErrorView::Io(error@))
        }
    ||| exists|sent: int, at: Seq<int>, chunks: Seq<Seq<u8>>|
        #[trigger] transcript(https, request, sent, at, chunks) && answers(chunks, result)
}

/// Where an exchange stands that some chunks have not ended.
spec fn stands(exchange: ExchangeView, chunks: Seq<Seq<u8>>) -> bool {
    match exchange {
        ExchangeView::Head(buf) => buf == chunks.flatten() && no_head_before(
            chunks,
            chunks.len() as int,
        ),
        ExchangeView::Body(head, body) => exists|m: int| #[trigger]
            head_in(chunks, m, head) && body == behind_head(chunks, m, head),
        ExchangeView::Over => false,
    }
}

/// A chunk more takes an exchange on from where it stands, or ends it with a reason.
proof fn lemma_chunk_more(exchange: ExchangeView, chunks: Seq<Seq<u8>>, chunk: Seq<u8>)
    requires
        stands(exchange, chunks),
    ensures
        match client::received(exchange, chunk) {
            (after, ProgressView::Read) => stands(after, chunks.push(chunk)),
            (_, ProgressView::Finished(result)) => answers(chunks.push(chunk), result),
        },
{
    let more = chunks.push(chunk);
    let (after, progress) = client::received(exchange, chunk);
    law_exchange_ends_as_status_says(exchange, chunk, after, progress);
    chunks.lemma_flatten_push(chunk);
    assert(more.last() == chunk);
    assert(forall|j: int| 0 <= j <= chunks.len() ==> #[trigger] more.take(j) == chunks.take(j));
    match exchange {
        ExchangeView::Head(buf) => {
            assert(more.take(more.len() as int) == more);
            assert(no_head_before(more, more.len() - 1)) by {
                assert forall|j: int| 0 < j <= more.len() - 1 implies parse::response_of(
                    parse::http_head((#[trigger] more.take(j)).flatten(), 64),
                ) is Err by {
                    assert(more.take(j) == chunks.take(j));
                }
            }
            if chunk.len() > 0 {
                let found = parse::response_of(parse::http_head(buf + chunk, 64));
                if let Ok(head) = found {
                    let m = chunks.len() as int;
                    assert(head_in(more, m, head));
                    assert(more.skip(m + 1) == Seq::<Seq<u8>>::empty());
                    assert(behind_head(more, m, head) == (buf + chunk).skip(head.head_len as int));
                } else {
                    assert(no_head_before(more, more.len() as int)) by {
                        assert forall|j: int| 0 < j <= more.len() implies parse::response_of(
                            parse::http_head((#[trigger] more.take(j)).flatten(), 64),
                        ) is Err by {
                            if j < more.len() {
                                assert(more.take(j) == chunks.take(j));
                            }
                        }
                    }
                }
            }
        },
        ExchangeView::Body(head, body) => {
            let m = choose|m: int| #[trigger]
                head_in(chunks, m, head) && body == behind_head(chunks, m, head);
            assert(more.take(m + 1) == chunks.take(m + 1));
            assert(no_head_before(more, m)) by {
                assert forall|j: int| 0 < j <= m implies parse::response_of(
                    parse::http_head((#[trigger] more.take(j)).flatten(), 64),
                ) is Err by {
                    assert(more.take(j) == chunks.take(j));
                }
            }
            assert(head_in(more, m, head));
            assert(more.skip(m + 1) == chunks.skip(m + 1).push(chunk));
            chunks.skip(m + 1).lemma_flatten_push(chunk);
            assert(behind_head(more, m, head) == body + chunk);
        },
        ExchangeView::Over => {},
    }
}

/// Where a request stands after `k` steps that were not its last.
spec fn under_way<C: Connection>(https: Seq<Http<C>>, k: int, request: Seq<u8>) -> bool {
    match https[k].spec_stage() {
        StageView::Sending(bytes) => bytes == request,
        StageView::Receiving(exchange) => exists|sent: int, at: Seq<int>, chunks: Seq<Seq<u8>>|
            {
                &&& #[trigger] transcript(https, request, sent, at, chunks)
                &&& sent < k
                &&& forall|j: int| 0 <= j < at.len() ==> #[trigger] at[j] < k
                &&& stands(exchange, chunks)
            },
        StageView::Over => false,
    }
}

/// A step that reads more adds to what has been read.
proof fn lemma_reads_more<C: Connection>(
    https: Seq<Http<C>>,
    k: int,
    request: Seq<u8>,
    sent: int,
    at: Seq<int>,
    chunks: Seq<Seq<u8>>,
    given: Vec<u8>,
)
    requires
        0 <= k < https.len() - 1,
        transcript(https, request, sent, at, chunks),
        sent < k,
        forall|j: int| 0 <= j < at.len() ==> #[trigger] at[j] < k,
        C::reads(
            https[k].spec_connection(),
            4096,
            https[k + 1].spec_connection(),
            Poll::Ready(Ok(given)),
        ),
    ensures
        transcript(https, request, sent, at.push(k), chunks.push(given@)),
{
    let more_at = at.push(k);
    let more = chunks.push(given@);
    assert(read_in(https, k, given@));
    assert forall|j: int| 0 <= j < more_at.len() implies sent < #[trigger] more_at[j] < https.len()
        - 1 && read_in(https, more_at[j], more[j]) by {
        if j < at.len() {
            assert(more_at[j] == at[j]);
            assert(more[j] == chunks[j]);
        }
    }
    assert forall|i: int, j: int| 0 <= i < j < more_at.len() implies #[trigger] more_at[i]
        < #[trigger] more_at[j] by {
        assert(more_at[i] == at[i]);
        if j < at.len() {
            assert(more_at[j] == at[j]);
        }
    }
}

/// Every step that is not the last leaves a request under way.
proof fn lemma_under_way<C: Connection>(
    https: Seq<Http<C>>,
    outcomes: Seq<Poll<Result<Response, Error>>>,
    request: Seq<u8>,
    k: int,
)
    requires
        runs(https, outcomes),
        https[0].spec_stage() == StageView::Sending(request),
        0 <= k < outcomes.len(),
    ensures
        under_way(https, k, request),
    decreases k,
{
    if k > 0 {
        let i = k - 1;
        lemma_under_way(https, outcomes, request, i);
        assert(Http::steps(https[i], https[i + 1], outcomes[i]));
        assert(outcomes[i] is Pending);
        match https[i].spec_stage() {
            StageView::Sending(bytes) => {
                let answer = choose|answer: Poll<Result<(), IoError>>|
                    {
                        &&& #[trigger] C::writes(
                            https[i].spec_connection(),
                            request,
                            https[i + 1].spec_connection(),
                            answer,
                        )
                        &&& (https[i + 1].spec_stage(), client::outcome_view(outcomes[i]))
                            == client::sent(request, answer)
                    };
                if let Poll::Ready(Ok(unit)) = answer {
                    assert(unit == ());
                    assert(taken_in(https, i, request));
                    let none = Seq::<Seq<u8>>::empty();
                    assert(none.flatten() == Seq::<u8>::empty());
                    assert(transcript(https, request, i, Seq::<int>::empty(), none));
                }
            },
            StageView::Receiving(exchange) => {
                let (sent, at, chunks) = choose|sent: int, at: Seq<int>, chunks: Seq<Seq<u8>>|
                    {
                        &&& #[trigger] transcript(https, request, sent, at, chunks)
                        &&& sent < i
                        &&& forall|j: int| 0 <= j < at.len() ==> #[trigger] at[j] < i
                        &&& stands(exchange, chunks)
                    };
                let answer = choose|answer: Poll<Result<Vec<u8>, IoError>>|
                    {
                        &&& #[trigger] C::reads(
                            https[i].spec_connection(),
                            4096,
                            https[i + 1].spec_connection(),
                            answer,
                        )
                        &&& (https[i + 1].spec_stage(), client::outcome_view(outcomes[i]))
                            == client::answered(exchange, answer)
                    };
                if let Poll::Ready(Ok(given)) = answer {
                    lemma_chunk_more(exchange, chunks, given@);
                    lemma_reads_more(https, i, request, sent, at, chunks, given);
                    let more_at = at.push(i);
                    assert forall|j: int| 0 <= j < more_at.len() implies #[trigger] more_at[j]
                        < k by {
                        if j < at.len() {
                            assert(more_at[j] == at[j]);
                        }
                    }
                } else {
                    assert(transcript(https, request, sent, at, chunks));
                }
            },
            StageView::Over => {},
        }
    }
}

/// A request comes to a result only with a reason. It comes to a response only if the
/// connection has taken all of the request, and then given an answer whose head is
/// complete and has a status from 200 to 299; the response is just what the bytes say.
/// It comes to an error only if the connection failed, or closed before the head was
/// complete, or the head has another status.
pub proof fn law_request_ends_with_reason<C: Connection>(
    https: Seq<Http<C>>,
    outcomes: Seq<Poll<Result<Response, Error>>>,
    request: Seq<u8>,
)
    requires
        runs(https, outcomes),
        https[0].spec_stage() == StageView::Sending(request),
        outcomes.last() is Ready,
    ensures
        client::outcome_view(outcomes.last()) matches Poll::Ready(result) && has_reason(
            https,
            request,
            result,
        ),
{
    let i = outcomes.len() - 1;
    lemma_under_way(https, outcomes, request, i);
    assert(Http::steps(https[i], https[i + 1], outcomes[i]));
    assert(https[https.len() - 2] == https[i]);
    assert(https[https.len() - 1] == https[i + 1]);
    let before = https[i].spec_connection();
    let after = https[i + 1].spec_connection();
    match https[i].spec_stage() {
        StageView::Sending(bytes) => {
            let answer = choose|answer: Poll<Result<(), IoError>>|
                {
                    &&& #[trigger] C::writes(before, request, after, answer)
                    &&& (https[i + 1].spec_stage(), client::outcome_view(outcomes[i]))
                        == client::sent(request, answer)
                };
            if let Poll::Ready(Err(error)) = answer {
                assert(fails_to_send(before, request, after, error));
                let result = client::outcome_view(outcomes.last())->Ready_0;
                assert(result == Err::<ResponseView, ErrorView>(ErrorView::Io(error@)));
                assert(has_reason(https, request, result));
            }
        },
        StageView::Receiving(exchange) => {
            let (sent, at, chunks) = choose|sent: int, at: Seq<int>, chunks: Seq<Seq<u8>>|
                {
                    &&& #[trigger] transcript(https, request, sent, at, chunks)
                    &&& sent < i
                    &&& forall|j: int| 0 <= j < at.len() ==> #[trigger] at[j] < i
                    &&& stands(exchange, chunks)
                };
            let answer = choose|answer: Poll<Result<Vec<u8>, IoError>>|
                {
                    &&& #[trigger] C::reads(before, 4096, after, answer)
                    &&& (https[i + 1].spec_stage(), client::outcome_view(outcomes[i]))
                        == client::answered(exchange, answer)
                };
            match answer {
                Poll::Ready(Ok(given)) => {
                    lemma_chunk_more(exchange, chunks, given@);
                    lemma_reads_more(https, i, request, sent, at, chunks, given);
                    let result = client::outcome_view(outcomes.last())->Ready_0;
                    assert(answers(chunks.push(given@), result));
                    assert(has_reason(https, request, result));
                },
                Poll::Ready(Err(error)) => {
                    assert(C::reads(before, 4096, after, Poll::Ready(Err(error))));
                    let result = client::outcome_view(outcomes.last())->Ready_0;
                    assert(has_reason(https, request, result));
                },
                Poll::Pending => {},
            }
        },
        StageView::Over => {},
    }
}

/// How a request starts. With a host for TLS it starts with the handshake of a fresh
/// session with that host over the connection, and keeps the URL for later; without
/// one it starts by sending the request for the URL over the connection. It fails to
/// only if the host is no name of a server or no session can be made, or if the URL
/// cannot be asked for.
pub proof fn law_request_starts<C>(
    connection: C,
    tls_host: Option<Seq<char>>,
    url: Seq<char>,
    result: Result<Request<C>, Error>,
)
    requires
        Request::starts(connection, tls_host, url, result),
    ensures
        tls_host matches Some(host) ==> match result {
            Ok(request) => {
                &&& request matches Request::Securing(stream, later)
                &&& stream.spec_inner() == connection
                &&& stream.spec_session().host == host
                &&& stream.spec_session().calls.len() == 0
                &&& stream.spec_session().handshaking
                &&& later@ == url
            },
            Err(error) => error@ is Io,
        },
        tls_host matches Some(host) ==> session::server_name_error(host) is Some ==> result is Err,
        tls_host is None ==> match result {
            Ok(request) => {
                &&& request matches Request::Plain(http)
                &&& http.spec_connection() == connection
                &&& sends_request_for(url, http.spec_stage())
            },
            Err(error) => cannot_be_asked_for(url, error@),
        },
{
}

/// Whether a request is at sending the bytes of the request for `url`.
pub open spec fn sends_request_for(url: Seq<char>, stage: StageView) -> bool {
    &&& url_parts::url_parse(url) matches Ok(parts)
    &&& client::request_text(parts) matches Ok(request)
    &&& stage == StageView::Sending(vstd::utf8::encode_utf8(request))
}

/// Whether `url` is no URL, or one that cannot be asked for, with this error.
pub open spec fn cannot_be_asked_for(url: Seq<char>, error: ErrorView) -> bool {
    match url_parts::url_parse(url) {
        Err(message) => error == ErrorView::InvalidUrl(message),
        Ok(parts) => client::request_text(parts) == Err::<Seq<char>, ErrorView>(error),
    }
}

/// A handshake that ends well is followed by the request: as long as the handshake is
/// under way the request waits, and when it has ended well the bytes of the request for
/// that very URL are sent next, through that very session. The request ends before only
/// if the handshake has failed, with its error, or if the URL cannot be asked for.
pub proof fn law_request_follows_handshake<C: Connection>(
    stream: TlsStream<C>,
    url: String,
    after: Request<C>,
    outcome: Poll<Result<Response, Error>>,
)
    requires
        Request::steps(Request::Securing(stream, url), after, outcome),
    ensures
        match outcome {
            Poll::Pending => match after {
                Request::Securing(next, later) => {
                    &&& TlsStream::shakes(stream, next, Poll::Pending)
                    &&& later@ == url@
                },
                Request::Secure(http) => {
                    &&& TlsStream::shakes(stream, http.spec_connection(), Poll::Ready(Ok(())))
                    &&& sends_request_for(url@, http.spec_stage())
                },
                _ => false,
            },
            Poll::Ready(Ok(_)) => false,
            Poll::Ready(Err(error)) => {
                &&& after is Over
                &&& shake_fails(stream, error) || cannot_be_asked_for(url@, error@)
            },
        },
{
    let (next, shaken) = choose|next: TlsStream<C>, shaken: Poll<Result<(), Error>>|
        {
            &&& #[trigger] TlsStream::shakes(stream, next, shaken)
            &&& match shaken {
                Poll::Pending => {
                    &&& outcome is Pending
                    &&& after matches Request::Securing(kept, later) && kept == next && later@
                        == url@
                },
                Poll::Ready(Err(error)) => {
                    &&& outcome == Poll::Ready(Err::<Response, Error>(error))
                    &&& after is Over
                },
                Poll::Ready(Ok(_)) => match after {
                    Request::Secure(http) => outcome is Pending && request::asked(
                        next,
                        url@,
                        Ok(http),
                    ),
                    Request::Over => outcome matches Poll::Ready(Err(error)) && request::asked::<
                        TlsStream<C>,
                    >(next, url@, Err(error)),
                    _ => false,
                },
            }
        };
    match shaken {
        Poll::Pending => {},
        Poll::Ready(Err(error)) => {
            assert(TlsStream::shakes(stream, next, Poll::Ready(Err(error))));
        },
        Poll::Ready(Ok(unit)) => {
            assert(unit == ());
        },
    }
}

/// Whether the next step of a handshake can fail with this error.
pub open spec fn shake_fails<C: Connection>(stream: TlsStream<C>, error: Error) -> bool {
    exists|next: TlsStream<C>| #[trigger]
        TlsStream::shakes(stream, next, Poll::Ready(Err(error)))
}

/// A request over a connection that is taken further step by step until it is ready.
pub open spec fn request_runs<C: Connection>(
    requests: Seq<Request<C>>,
    outcomes: Seq<Poll<Result<Response, Error>>>,
) -> bool {
    &&& requests.len() == outcomes.len() + 1
    &&& outcomes.len() > 0
    &&& forall|i: int|
        0 <= i < outcomes.len() ==> Request::steps(
            requests[i],
            requests[i + 1],
            #[trigger] outcomes[i],
        )
    &&& forall|i: int| 0 <= i < outcomes.len() - 1 ==> (#[trigger] outcomes[i]) is Pending
}

/// The first steps of a request, as far as `k`.
spec fn begins<C: Connection>(
    https: Seq<Http<C>>,
    outcomes: Seq<Poll<Result<Response, Error>>>,
    k: int,
) -> bool {
    &&& https.len() == k + 1
    &&& forall|i: int|
        0 <= i < k ==> Http::steps(https[i], https[i + 1], #[trigger] outcomes[i])
}

/// One step more.
proof fn lemma_begins_more<C: Connection>(
    https: Seq<Http<C>>,
    outcomes: Seq<Poll<Result<Response, Error>>>,
    k: int,
    next: Http<C>,
)
    requires
        0 <= k < outcomes.len(),
        begins(https, outcomes, k),
        Http::steps(https[k], next, outcomes[k]),
    ensures
        begins(https.push(next), outcomes, k + 1),
{
    let more = https.push(next);
    assert forall|i: int| 0 <= i < k + 1 implies Http::steps(
        more[i],
        more[i + 1],
        #[trigger] outcomes[i],
    ) by {
        if i < k {
            assert(Http::steps(https[i], https[i + 1], outcomes[i]));
        }
    }
}

/// A request that goes over the connection as it is goes as one over any connection.
proof fn lemma_plain_run<C: Connection>(
    requests: Seq<Request<C>>,
    outcomes: Seq<Poll<Result<Response, Error>>>,
    k: int,
) -> (https: Seq<Http<C>>)
    requires
        request_runs(requests, outcomes),
        requests[0] is Plain,
        0 <= k <= outcomes.len(),
    ensures
        begins(https, outcomes, k),
        https[0] == requests[0]->Plain_0,
        k < outcomes.len() ==> requests[k] == Request::Plain(https[k]),
    decreases k,
{
    if k == 0 {
        seq![requests[0]->Plain_0]
    } else {
        let i = k - 1;
        let before = lemma_plain_run(requests, outcomes, i);
        assert(Request::steps(requests[i], requests[i + 1], outcomes[i]));
        let http = before[i];
        let next = choose|next: Http<C>|
            {
                &&& #[trigger] Http::steps(http, next, outcomes[i])
                &&& requests[i + 1] == (if outcomes[i] is Pending {
                    Request::Plain(next)
                } else {
                    Request::Over
                })
            };
        lemma_begins_more(before, outcomes, i, next);
        before.push(next)
    }
}

/// A request that goes through a TLS session goes as one over any connection.
proof fn lemma_secure_run<C: Connection>(
    requests: Seq<Request<C>>,
    outcomes: Seq<Poll<Result<Response, Error>>>,
    k: int,
) -> (https: Seq<Http<TlsStream<C>>>)
    requires
        request_runs(requests, outcomes),
        requests[0] is Secure,
        0 <= k <= outcomes.len(),
    ensures
        begins(https, outcomes, k),
        https[0] == requests[0]->Secure_0,
        k < outcomes.len() ==> requests[k] == Request::<C>::Secure(https[k]),
    decreases k,
{
    if k == 0 {
        seq![requests[0]->Secure_0]
    } else {
        let i = k - 1;
        let before = lemma_secure_run(requests, outcomes, i);
        assert(Request::steps(requests[i], requests[i + 1], outcomes[i]));
        let http = before[i];
        let next = choose|next: Http<TlsStream<C>>|
            {
                &&& #[trigger] Http::steps(http, next, outcomes[i])
                &&& requests[i + 1] == (if outcomes[i] is Pending {
                    Request::<C>::Secure(next)
                } else {
                    Request::Over
                })
            };
        lemma_begins_more(before, outcomes, i, next);
        before.push(next)
    }
}

/// A request without TLS comes to a result only with a reason: that of the steps by
/// which the request for the URL went over its connection.
pub proof fn law_plain_request_ends_with_reason<C: Connection>(
    requests: Seq<Request<C>>,
    outcomes: Seq<Poll<Result<Response, Error>>>,
    request: Seq<u8>,
)
    requires
        request_runs(requests, outcomes),
        requests[0] matches Request::Plain(http) && http.spec_stage() == StageView::Sending(
            request,
        ),
        outcomes.last() is Ready,
    ensures
        exists|https: Seq<Http<C>>|
            {
                &&& #[trigger] runs(https, outcomes)
                &&& requests[0] == Request::Plain(https[0])
                &&& has_reason(https, request, client::outcome_view(outcomes.last())->Ready_0)
            },
{
    let https = lemma_plain_run(requests, outcomes, outcomes.len() as int);
    assert(runs(https, outcomes));
    law_request_ends_with_reason(https, outcomes, request);
}

/// A request through TLS comes to a result only with a reason: the handshake has
/// failed, with its error; or the URL cannot be asked for; or the handshake has ended
/// well, the request for that URL went through the session, and the steps by which it
/// went have a reason for the result.
pub proof fn law_secure_request_ends_with_reason<C: Connection>(
    requests: Seq<Request<C>>,
    outcomes: Seq<Poll<Result<Response, Error>>>,
    url: Seq<char>,
)
    requires
        request_runs(requests, outcomes),
        requests[0] matches Request::Securing(_, later) && later@ == url,
        outcomes.last() is Ready,
    ensures
        ends_in_handshake(requests, outcomes, url) || ends_through_session(
            requests,
            outcomes,
            url,
        ),
    decreases outcomes.len(),
{
    let stream = requests[0]->Securing_0;
    let later = requests[0]->Securing_1;
    assert(Request::steps(requests[0], requests[1], outcomes[0]));
    law_request_follows_handshake(stream, later, requests[1], outcomes[0]);
    if outcomes.len() > 1 {
        assert(outcomes[0] is Pending);
        let rest = requests.skip(1);
        let more = outcomes.skip(1);
        assert(request_runs(rest, more)) by {
            assert forall|i: int| 0 <= i < more.len() implies Request::steps(
                rest[i],
                rest[i + 1],
                #[trigger] more[i],
            ) by {
                assert(more[i] == outcomes[i + 1]);
            }
            assert forall|i: int| 0 <= i < more.len() - 1 implies (#[trigger] more[i])
                is Pending by {
                assert(more[i] == outcomes[i + 1]);
            }
        }
        assert(more.last() == outcomes.last());
        if rest[0] is Securing {
            law_secure_request_ends_with_reason(rest, more, url);
            if ends_in_handshake(rest, more, url) {
                assert(rest[rest.len() - 2] == requests[requests.len() - 2]);
            } else {
                let (m, https) = choose|m: int, https: Seq<Http<TlsStream<C>>>| #[trigger]
                    goes_through_session(rest, more, url, m, https);
                assert(more.skip(m) == outcomes.skip(m + 1));
                assert(rest[m] == requests[m + 1]);
                assert(goes_through_session(requests, outcomes, url, m + 1, https));
            }
        } else {
            let https = lemma_secure_run(rest, more, more.len() as int);
            assert(runs(https, more));
            let http = rest[0]->Secure_0;
            law_request_ends_with_reason(https, more, http.spec_stage()->Sending_0);
            assert(rest[0] == requests[1]);
            assert(goes_through_session(requests, outcomes, url, 1, https));
        }
    }
}

/// Whether a request has ended in its last step for the handshake has failed, or for
/// its URL cannot be asked for.
pub open spec fn ends_in_handshake<C: Connection>(
    requests: Seq<Request<C>>,
    outcomes: Seq<Poll<Result<Response, Error>>>,
    url: Seq<char>,
) -> bool {
    &&& requests[requests.len() - 2] matches Request::Securing(stream, _)
    &&& outcomes.last() matches Poll::Ready(Err(error))
    &&& shake_fails(stream, error) || cannot_be_asked_for(url, error@)
}

/// Whether the request for `url` went through the session from the step `m` on, when the
/// handshake had ended well, by the steps `https`, and these have a reason for the
/// result.
pub open spec fn goes_through_session<C: Connection>(
    requests: Seq<Request<C>>,
    outcomes: Seq<Poll<Result<Response, Error>>>,
    url: Seq<char>,
    m: int,
    https: Seq<Http<TlsStream<C>>>,
) -> bool {
    &&& 0 < m < outcomes.len()
    &&& requests[m] == Request::<C>::Secure(https[0])
    &&& requests[m - 1] matches Request::Securing(stream, _) && TlsStream::shakes(
        stream,
        https[0].spec_connection(),
        Poll::Ready(Ok(())),
    )
    &&& sends_request_for(url, https[0].spec_stage())
    &&& runs(https, outcomes.skip(m))
    &&& has_reason(
        https,
        https[0].spec_stage()->Sending_0,
        client::outcome_view(outcomes.last())->Ready_0,
    )
}

/// Whether the request for `url` went through the session and has ended with a reason.
pub open spec fn ends_through_session<C: Connection>(
    requests: Seq<Request<C>>,
    outcomes: Seq<Poll<Result<Response, Error>>>,
    url: Seq<char>,
) -> bool {
    exists|m: int, https: Seq<Http<TlsStream<C>>>| #[trigger]
        goes_through_session(requests, outcomes, url, m, https)
}

/// What a client does with a URL hangs together. A text that is no URL is refused with
/// what the parser says of it, by all alike; of a URL, the plan leads to the address that
/// is worked out for it, and there is a plan, an address and a request for it or none of
/// the three.
pub proof fn law_url_is_taken_apart_once(
    url: Seq<char>,
    plan: Result<Plan, Error>,
    address: Result<String, Error>,
    before: StageView,
    after: StageView,
    asked: Result<(), Error>,
)
    requires
        rrest::planned_for(url, plan),
        net::located_for(url, address),
        client::asks(before, url, after, asked),
    ensures
        plan is Ok <==> address is Ok,
        plan is Ok <==> asked is Ok,
        plan is Ok ==> plan->Ok_0.address@ == address->Ok_0@,
        url_parts::url_parse(url) matches Err(message) ==> {
            &&& plan matches Err(error) && error@ == ErrorView::InvalidUrl(message)
            &&& address matches Err(error) && error@ == ErrorView::InvalidUrl(message)
            &&& asked matches Err(error) && error@ == ErrorView::InvalidUrl(message)
        },
        url_parts::url_parse(url) matches Ok(parts) ==> {
            &&& plan matches Ok(plan) ==> parts.host is Some && (parts.scheme == "https"@
                ==> plan.tls_host is Some && plan.tls_host->0@ == parts.host->0) && (parts.scheme
                == "http"@ ==> plan.tls_host is None)
            &&& plan is Ok <==> parts.host is Some && (parts.scheme == "http"@ || parts.scheme
                == "https"@)
        },
        asked is Ok ==> sends_request_for(url, after),
        asked matches Err(error) ==> after == before && cannot_be_asked_for(url, error@),
{
    reveal_strlit("http");
    reveal_strlit("https");
    assert("http"@.len() != "https"@.len());
}

/// What is made of the parts of a URL goes by nothing but what was said of them.
pub proof fn law_parts_decide(
    parts: UrlPartsView,
    plan: Result<Plan, Error>,
    address: Result<String, Error>,
    request: Result<String, Error>,
)
    requires
        rrest::planned(parts, plan),
        net::located(parts, address),
        client::written(parts, request),
    ensures
        plan is Ok <==> parts.host is Some && (parts.scheme == "http"@ || parts.scheme == "https"@),
        address is Ok <==> plan is Ok,
        request is Ok <==> plan is Ok,
        plan matches Ok(plan) ==> {
            &&& plan.address@ == address->Ok_0@
            &&& parts.scheme == "https"@ ==> plan.tls_host is Some && plan.tls_host->0@
                == parts.host->0
            &&& parts.scheme == "http"@ ==> plan.tls_host is None
        },
        request matches Ok(text) ==> client::request_text(parts) == Ok::<Seq<char>, ErrorView>(
            text@,
        ),
        address matches Ok(text) ==> net::address_of(parts) == Ok::<Seq<char>, ErrorView>(text@),
        request matches Err(error) ==> error@ is InvalidUrl,
        plan matches Err(error) ==> error@ is InvalidUrl,
{
    reveal_strlit("http");
    reveal_strlit("https");
    assert("http"@.len() != "https"@.len());
}

/// A request goes by what the connection answers. One that is not answered stays where
/// it is; one that was taken has its answer waited for, from the first byte on; and one
/// at which the connection fails ends with that error.
pub proof fn law_request_goes_by_answers(
    request: Seq<u8>,
    exchange: ExchangeView,
    written: Poll<Result<(), IoError>>,
    read: Poll<Result<Vec<u8>, IoError>>,
)
    requires
        exchange !is Over,
    ensures
        written is Pending ==> client::sent(request, written) == (
            StageView::Sending(request),
            Poll::<Result<ResponseView, ErrorView>>::Pending,
        ),
        written matches Poll::Ready(Ok(_)) ==> client::sent(request, written) == (
            StageView::Receiving(ExchangeView::Head(Seq::<u8>::empty())),
            Poll::<Result<ResponseView, ErrorView>>::Pending,
        ),
        written matches Poll::Ready(Err(error)) ==> client::sent(request, written).1
            == Poll::Ready(Err::<ResponseView, ErrorView>(ErrorView::Io(error@))),
        read is Pending ==> client::answered(exchange, read) == (
            StageView::Receiving(exchange),
            Poll::<Result<ResponseView, ErrorView>>::Pending,
        ),
        read matches Poll::Ready(Err(error)) ==> client::answered(exchange, read).1
            == Poll::Ready(Err::<ResponseView, ErrorView>(ErrorView::Io(error@))),
        read matches Poll::Ready(Ok(bytes)) ==> match client::answered(exchange, read) {
            (StageView::Receiving(after), Poll::Pending) => client::received(exchange, bytes@) == (
                after,
                ProgressView::Read,
            ),
            (StageView::Over, Poll::Ready(result)) => client::received(exchange, bytes@).1
                == ProgressView::Finished(result),
            _ => false,
        },
{
}

} // verus!
