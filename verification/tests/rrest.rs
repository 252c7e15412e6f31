use std::collections::VecDeque;

use mar::future::Poll;
use mar::rrest::client::{self, Exchange, Http, Progress, Response, READ_SIZE};
use mar::rrest::error::{Error, IoError, IoErrorKind};
use mar::rrest::net::{self, Attempt, Step, WriteAll};
use mar::rrest::parse::{self, Field, Head, Parsed, Version};
use mar::rrest::request::Request;
use mar::rrest::text;
use mar::rrest::url_parts::UrlParts;
use mar::rrest::{Connection, Rrest};

// A connection in memory: hands out the answers in turn and keeps what is
// written.
struct Script {
    answers: VecDeque<Poll<Result<Vec<u8>, IoError>>>,
    written: Vec<u8>,
    refuse: bool,
    blocked: usize,
}

impl Script {
    fn new(chunks: &[&[u8]]) -> Self {
        Script {
            answers: chunks.iter().map(|c| Poll::Ready(Ok(c.to_vec()))).collect(),
            written: Vec::new(),
            refuse: false,
            blocked: 0,
        }
    }
}

impl Connection for Script {
    fn read(&mut self, size: usize) -> Poll<Result<Vec<u8>, IoError>> {
        assert_eq!(size, READ_SIZE);
        self.answers.pop_front().expect("read past the end")
    }

    fn write_all(&mut self, buf: &[u8]) -> Poll<Result<(), IoError>> {
        if self.refuse {
            return Poll::Ready(Err(IoError::other("refused".to_string())));
        }
        if self.blocked > 0 {
            self.blocked -= 1;
            return Poll::Pending;
        }
        self.written.extend_from_slice(buf);
        Poll::Ready(Ok(()))
    }
}

fn fetch(script: Script, url: &str) -> Result<Response, Error> {
    let mut http = Http::new(script);
    http.get(url)?;
    loop {
        if let Poll::Ready(result) = http.poll() {
            return result;
        }
    }
}

fn message(error: Error) -> String {
    match error {
        Error::InvalidUrl(m) | Error::Protocol(m) => m,
        Error::Io(e) => e.message,
        Error::Http(status) => panic!("status {status}"),
    }
}

#[test]
fn url_is_taken_apart() {
    let parts = UrlParts::parse("HTTP://EXAMPLE.com:8080/a b?q=1#frag").unwrap();
    assert_eq!(parts.scheme, "http");
    assert_eq!(parts.host.as_deref(), Some("example.com"));
    assert_eq!(parts.port, Some(8080));
    assert_eq!(parts.path, "/a%20b");
    assert_eq!(parts.query.as_deref(), Some("q=1"));
}

#[test]
fn text_that_is_no_url_is_invalid() {
    for result in [
        UrlParts::parse("not a url").err(),
        net::connect("not a url").err(),
        Rrest::get("not a url").err(),
        fetch(Script::new(&[]), "not a url").err(),
    ] {
        match result {
            Some(Error::InvalidUrl(m)) => assert_eq!(m, "relative URL without a base"),
            other => panic!("{other:?}"),
        }
    }
}

#[test]
fn address_has_the_port_of_the_scheme() {
    assert_eq!(net::connect("http://example.com/x").unwrap(), "example.com:80");
    assert_eq!(net::connect("https://example.com/x").unwrap(), "example.com:443");
    assert_eq!(net::connect("https://example.com:8443/x").unwrap(), "example.com:8443");
    assert_eq!(net::connect("https://example.com:80/x").unwrap(), "example.com:80");
    assert_eq!(net::connect("http://[::1]:65535/").unwrap(), "[::1]:65535");
}

#[test]
fn url_that_is_not_of_http_is_invalid() {
    let words = "scheme is neither http nor https";
    for result in [
        net::connect("ftp://example.com/").err(),
        Rrest::get("ws://example.com/").err(),
        client::request(&UrlParts::parse("ftp://example.com/").unwrap()).err(),
    ] {
        assert!(matches!(result, Some(Error::InvalidUrl(m)) if m == words));
    }
    // Nothing is sent and nothing is read.
    let mut http = Http::new(Script { refuse: true, ..Script::new(&[]) });
    assert!(matches!(http.get("ftp://example.com/"), Err(Error::InvalidUrl(m)) if m == words));
    assert!(http.poll().is_pending());
}

#[test]
fn url_without_host_is_invalid() {
    assert_eq!(message(net::connect("data:text/plain,x").unwrap_err()), "missing host");
    assert_eq!(message(Rrest::get("data:text/plain,x").unwrap_err()), "missing host");
    let error = fetch(Script::new(&[]), "data:text/plain,x").unwrap_err();
    assert_eq!(message(error), "no host in URL");
}

#[test]
fn plan_wants_tls_for_https_only() {
    let plan = Rrest::get("https://example.com/a").unwrap();
    assert_eq!(plan.address, "example.com:443");
    assert_eq!(plan.tls_host.as_deref(), Some("example.com"));
    let plan = Rrest::get("http://example.com/a").unwrap();
    assert_eq!(plan.address, "example.com:80");
    assert_eq!(plan.tls_host, None);
}

#[test]
fn request_has_path_query_and_host() {
    let request = |url: &str| client::request(&UrlParts::parse(url).unwrap()).unwrap();
    assert_eq!(
        request("http://example.com/path?x=1&y=2"),
        "GET /path?x=1&y=2 HTTP/1.1\r\nHost: example.com\r\nConnection: close\r\n\r\n"
    );
    assert_eq!(
        request("http://example.com"),
        "GET / HTTP/1.1\r\nHost: example.com\r\nConnection: close\r\n\r\n"
    );
    let bare = UrlParts {
        scheme: "http".to_string(),
        host: Some("h".to_string()),
        port: None,
        path: String::new(),
        query: None,
    };
    assert_eq!(
        client::request(&bare).unwrap(),
        "GET / HTTP/1.1\r\nHost: h\r\nConnection: close\r\n\r\n"
    );
    let only_query = UrlParts { query: Some(String::new()), ..bare };
    assert_eq!(
        client::request(&only_query).unwrap(),
        "GET ? HTTP/1.1\r\nHost: h\r\nConnection: close\r\n\r\n"
    );
}

#[test]
fn response_with_content_length_is_not_read_past_its_end() {
    let script = Script::new(&[
        b"HTTP/1.1 200 OK\r\nContent-",
        b"LENGTH: 5\r\nX-A: 1\r\nx-a: 2\r\n\r\nhel",
        b"lo",
    ]);
    let response = fetch(script, "http://example.com/").unwrap();
    assert_eq!(response.status, 200);
    assert_eq!(response.version, Version::Http11);
    assert_eq!(response.body, b"hello");
    let values: Vec<_> = response.headers.get_all("X-A").iter().collect();
    assert_eq!(values, ["1", "2"]);
}

#[test]
fn bytes_behind_the_content_length_are_left_out() {
    let script = Script::new(&[b"HTTP/1.1 200 OK\r\nContent-Length: 2\r\n\r\nabc"]);
    let response = fetch(script, "http://example.com/").unwrap();
    assert_eq!(response.status, 200);
    assert_eq!(response.body, b"ab");
    let script =
        Script::new(&[b"HTTP/1.1 200 OK\r\nContent-Length: 4\r\n\r\nab", b"c", b"def"]);
    assert_eq!(fetch(script, "http://example.com/").unwrap().body, b"abcd");
    let script = Script::new(&[b"HTTP/1.1 200 OK\r\nContent-Length: 0\r\n\r\nabc"]);
    assert_eq!(fetch(script, "http://example.com/").unwrap().body, b"");
}

// However a response is cut up, what comes of it is the same.
#[test]
fn response_of_a_length_comes_in_any_chunks() {
    let whole: &[u8] = b"HTTP/1.1 200 OK\r\nContent-Length: 9\r\n\r\none two three";
    for size in [1usize, 2, 7, 40, 200] {
        let chunks: Vec<&[u8]> = whole.chunks(size).collect();
        let response = fetch(Script::new(&chunks), "http://example.com/").unwrap();
        assert_eq!(response.body, b"one two t");
    }
}

#[test]
fn body_without_length_goes_on_until_the_end() {
    let whole: &[u8] = b"HTTP/1.0 204 No Content\r\nServer: x\r\n\r\none two three";
    for size in [1usize, 7, 40, 200] {
        let mut chunks: Vec<&[u8]> = whole.chunks(size).collect();
        chunks.push(b"");
        let response = fetch(Script::new(&chunks), "http://example.com/").unwrap();
        assert_eq!(response.body, b"one two three");
        assert_eq!(response.version, Version::Http10);
        assert_eq!(response.status, 204);
    }
}

#[test]
fn body_that_ends_early_is_handed_over() {
    let script = Script::new(&[b"HTTP/1.1 200 OK\r\nContent-Length: 10\r\n\r\nabc", b""]);
    assert_eq!(fetch(script, "http://example.com/").unwrap().body, b"abc");
}

#[test]
fn content_length_that_is_no_number_is_ignored() {
    for value in ["abc", "-1", "", "99999999999999999999999", "5 "] {
        let head = format!("HTTP/1.1 200 OK\r\nContent-Length: {value}x\r\n\r\nhi");
        let script = Script::new(&[head.as_bytes(), b" there", b""]);
        assert_eq!(fetch(script, "http://example.com/").unwrap().body, b"hi there");
    }
}

#[test]
fn first_content_length_counts() {
    let script =
        Script::new(&[b"HTTP/1.1 200 OK\r\nContent-Length: +3\r\nContent-Length: 9\r\n\r\nabc"]);
    assert_eq!(fetch(script, "http://example.com/").unwrap().body, b"abc");
}

#[test]
fn status_that_is_no_success_is_an_error() {
    for (line, status) in [("404 Not Found", 404u16), ("199 X", 199), ("300 X", 300)] {
        let head = format!("HTTP/1.1 {line}\r\nContent-Length: 2\r\n\r\nno");
        match fetch(Script::new(&[head.as_bytes()]), "http://example.com/") {
            Err(Error::Http(code)) => assert_eq!(code, status),
            other => panic!("{other:?}"),
        }
    }
    let script = Script::new(&[b"HTTP/1.1 299 X\r\nContent-Length: 0\r\n\r\n"]);
    assert!(fetch(script, "http://example.com/").is_ok());
}

#[test]
fn end_before_the_head_is_an_error() {
    for chunks in [vec![&b""[..]], vec![&b"HTTP/1.1 200 OK\r\n"[..], b""], vec![&b"\0"[..], b""]] {
        let error = fetch(Script::new(&chunks), "http://example.com/").unwrap_err();
        assert_eq!(message(error), "connection closed before headers");
    }
}

#[test]
fn trouble_with_the_connection_is_an_io_error() {
    let mut script = Script::new(&[]);
    script.refuse = true;
    let error = fetch(script, "http://example.com/").unwrap_err();
    assert_eq!(error.describe(), "refused");

    let mut script = Script::new(&[b"HTTP/1.1 200 OK\r\n"]);
    let reset = IoError::other("reset".to_string());
    script.answers.push_back(Poll::Ready(Err(reset)));
    match fetch(script, "http://example.com/") {
        Err(Error::Io(error)) => assert_eq!(error.message, "reset"),
        other => panic!("{other:?}"),
    }
}

#[test]
fn pending_connection_is_asked_again() {
    let mut script = Script::new(&[]);
    script.blocked = 2;
    script.answers.push_back(Poll::Pending);
    let head = b"HTTP/1.1 200 OK\r\nContent-Length: 0\r\n\r\n".to_vec();
    script.answers.push_back(Poll::Ready(Ok(head)));
    assert!(fetch(script, "http://example.com/").unwrap().body.is_empty());
}

#[test]
fn request_without_tls_goes_out_at_once() {
    let script = Script::new(&[b"HTTP/1.1 200 OK\r\nContent-Length: 2\r\n\r\nok"]);
    let mut request = Request::start(script, None, "http://example.com/").unwrap();
    assert!(matches!(request, Request::Plain(_)));
    let response = loop {
        if let Poll::Ready(result) = request.poll() {
            break result.unwrap();
        }
    };
    assert_eq!(response.body, b"ok");
    assert!(matches!(request, Request::Over));
    assert!(request.poll().is_pending());
}

#[test]
fn head_is_read_out_of_the_bytes() {
    let parsed =
        parse::parse_response(b"HTTP/1.0 206 Partial\r\nA: b\r\nB: c\r\nA: d\r\n\r\nrest").unwrap();
    assert_eq!(parsed.version, Version::Http10);
    assert_eq!(parsed.status, 206);
    assert_eq!(parsed.head_len, 42);
    assert_eq!(parsed.headers.len(), 3);
    let values: Vec<_> = parsed.headers.get_all("a").iter().collect();
    assert_eq!(values, ["b", "d"]);
}

#[test]
fn head_that_is_not_there_is_a_protocol_error() {
    for (bytes, expected) in [
        (&b""[..], "incomplete response headers"),
        (b"HTTP/1.1 200 OK\r\nA: b\r\n", "incomplete response headers"),
        (b"HTTP/3.1 200 OK\r\n\r\n", "parse error: invalid HTTP version"),
        (b"HTTP/1.1 2x0 OK\r\n\r\n", "parse error: invalid response status"),
        (b"HTTP/1.1 099 OK\r\n\r\n", "invalid status code"),
    ] {
        assert_eq!(message(parse::parse_response(bytes).unwrap_err()), expected);
    }
}

#[test]
fn head_may_have_so_many_headers() {
    let mut head = b"HTTP/1.1 200 OK\r\n".to_vec();
    for i in 0..64 {
        head.extend_from_slice(format!("H{i}: v\r\n").as_bytes());
    }
    let mut full = head.clone();
    full.extend_from_slice(b"\r\n");
    assert_eq!(parse::parse_response(&full).unwrap().headers.len(), 64);
    head.extend_from_slice(b"One: more\r\n\r\n");
    let error = parse::parse_response(&head).unwrap_err();
    assert_eq!(message(error), "parse error: too many headers");
}

fn head(code: Option<u16>, version: Option<u8>, fields: Vec<(&str, &[u8])>) -> Parsed {
    let fields = fields
        .into_iter()
        .map(|(name, value)| Field { name: name.to_string(), value: value.to_vec() })
        .collect();
    Parsed::Complete(Head { version, code, fields, len: 9 })
}

#[test]
fn parsed_head_is_checked() {
    let refused = |parsed| message(parse::from_parsed(parsed).unwrap_err());
    assert_eq!(refused(head(None, Some(1), vec![])), "missing status code");
    assert_eq!(refused(head(Some(1000), Some(1), vec![])), "invalid status code");
    assert_eq!(
        refused(head(Some(200), Some(1), vec![("a", b"1"), ("bad name", b"\x01")])),
        "invalid header name: bad name"
    );
    assert_eq!(
        refused(head(Some(200), Some(1), vec![("a", b"\x7f"), ("bad name", b"1")])),
        "invalid header value"
    );
    let parsed = parse::from_parsed(head(Some(999), None, vec![("Tab", b"a\tb\xff")])).unwrap();
    assert_eq!(parsed.version, Version::Http11);
    assert_eq!(parsed.status, 999);
    assert_eq!(parsed.head_len, 9);
    assert_eq!(parsed.headers.get("tab").unwrap().as_bytes(), b"a\tb\xff");
}

#[test]
fn exchange_takes_chunks_in() {
    let mut exchange = Exchange::new();
    assert!(matches!(exchange.begin(), Progress::Read));
    assert!(matches!(exchange.step(b"HTTP/1.1 200 OK\r\n"), Progress::Read));
    assert!(matches!(exchange.step(b"\r\n"), Progress::Read));
    assert!(matches!(exchange.step(b"body"), Progress::Read));
    match exchange.step(b"") {
        Progress::Finished(Ok(response)) => assert_eq!(response.body, b"body"),
        other => panic!("{other:?}"),
    }
}

#[test]
fn numbers_are_written_and_read() {
    for (n, expected) in [(0u16, "0"), (9, "9"), (10, "10"), (443, "443"), (65535, "65535")] {
        assert_eq!(text::decimal(n), expected);
    }
    assert_eq!(text::parse_usize(b"0"), Some(0));
    assert_eq!(text::parse_usize(b"+007"), Some(7));
    let max = usize::MAX.to_string();
    assert_eq!(text::parse_usize(max.as_bytes()), Some(usize::MAX));
    for bad in [&b""[..], b"+", b"++1", b"-1", b"1 ", b"1x", b"0x1", b"184467440737095516160"] {
        assert_eq!(text::parse_usize(bad), None);
    }
    let above = format!("{}", usize::MAX as u128 + 1);
    assert_eq!(text::parse_usize(above.as_bytes()), None);
}

#[test]
fn errors_are_put_in_words() {
    assert_eq!(Error::InvalidUrl("x".to_string()).describe(), "invalid URL: x");
    assert_eq!(Error::Http(404).describe(), "HTTP status 404");
    assert_eq!(Error::Protocol("x".to_string()).describe(), "protocol error: x");
}

#[test]
fn socket_that_would_block_is_asked_again_after_a_pause() {
    let blocked =
        || IoError::of_kind(IoErrorKind::WouldBlock, "would block".to_string());
    assert!(matches!(net::read_step(Attempt::Moved(3)), Step::Finished(Ok(3))));
    assert!(matches!(net::read_step(Attempt::Failed(blocked())), Step::Pause(1)));
    let broken = net::read_step(Attempt::Failed(IoError::other("broken".to_string())));
    assert!(matches!(broken, Step::Finished(Err(e)) if e.message == "broken"));

    let mut write = WriteAll::new(b"abcde".to_vec());
    assert!(matches!(write.step(Attempt::Moved(2)), Step::Again));
    assert_eq!(write.remaining(), b"cde");
    assert!(matches!(write.step(Attempt::Failed(blocked())), Step::Pause(1)));
    assert_eq!(write.remaining(), b"cde");
    assert!(matches!(write.step(Attempt::Moved(3)), Step::Finished(Ok(()))));
}

#[test]
fn socket_that_takes_nothing_is_an_error() {
    let mut write = WriteAll::new(Vec::new());
    match write.step(Attempt::Moved(0)) {
        Step::Finished(Err(error)) => {
            assert_eq!(error.kind, IoErrorKind::WriteZero);
            assert_eq!(error.message, "write zero");
        }
        other => panic!("{other:?}"),
    }
    let mut write = WriteAll::new(b"x".to_vec());
    let broken = write.step(Attempt::Failed(IoError::other("broken".to_string())));
    assert!(matches!(broken, Step::Finished(Err(e)) if e.message == "broken"));
}
