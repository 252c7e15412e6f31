use vstd::prelude::*;
use vstd::string::*;

use crate::rrest::error::{Error, ErrorView};
use crate::rrest::headers;
use crate::rrest::headers::Headers;
use crate::rrest::text;

verus! {

/// How many headers a response may have.
pub const MAX_HEADERS: usize = 64;

/// The versions of HTTP that a response may be in.
#[derive(Clone, Copy, PartialEq, Eq, Structural, Debug)]
pub enum Version {
    /// HTTP/1.0
    Http10,
    /// HTTP/1.1
    Http11,
}

/// A header as it stands in a response.
#[derive(Debug)]
pub struct Field {
    /// The name.
    pub name: String,
    /// The value.
    pub value: Vec<u8>,
}

/// A header, for specifications.
pub struct FieldView {
    /// The name.
    pub name: Seq<char>,
    /// The value.
    pub value: Seq<u8>,
}

impl View for Field {
    type V = FieldView;

    open spec fn view(&self) -> FieldView {
        FieldView { name: self.name@, value: self.value@ }
    }
}

/// What stands in front of the body of a response.
#[derive(Debug)]
pub struct Head {
    /// The minor version of HTTP.
    pub version: Option<u8>,
    /// The status.
    pub code: Option<u16>,
    /// The headers, in the order in which they stand.
    pub fields: Vec<Field>,
    /// How many bytes the head takes up.
    pub len: usize,
}

/// The head of a response, for specifications.
pub struct HeadView {
    /// The minor version of HTTP.
    pub version: Option<u8>,
    /// The status.
    pub code: Option<u16>,
    /// The headers.
    pub fields: Seq<FieldView>,
    /// How many bytes the head takes up.
    pub len: nat,
}

/// Headers, for specifications.
pub open spec fn fields_view(fields: Seq<Field>) -> Seq<FieldView> {
    fields.map_values(|field: Field| field@)
}

impl View for Head {
    type V = HeadView;

    open spec fn view(&self) -> HeadView {
        HeadView {
            version: self.version,
            code: self.code,
            fields: fields_view(self.fields@),
            len: self.len as nat,
        }
    }
}

/// What the parser made of the bytes that have come so far.
#[derive(Debug)]
pub enum Parsed {
    /// The head is complete.
    Complete(Head),
    /// More bytes have to come.
    Partial,
    /// This is no head; the text says why.
    Failed(String),
}

/// What the parser made of the bytes, for specifications.
pub enum ParsedView {
    /// The head is complete.
    Complete(HeadView),
    /// More bytes have to come.
    Partial,
    /// This is no head.
    Failed(Seq<char>),
}

impl View for Parsed {
    type V = ParsedView;

    open spec fn view(&self) -> ParsedView {
        match self {
            Parsed::Complete(head) => ParsedView::Complete(head@),
            Parsed::Partial => ParsedView::Partial,
            Parsed::Failed(message) => ParsedView::Failed(message@),
        }
    }
}

/// What `httparse::Response::parse` makes of bytes, with room for so many
/// headers.
pub uninterp spec fn http_head(bytes: Seq<u8>, max_headers: usize) -> ParsedView;

/// Parses the head of a response, by `httparse::Response::parse`. The result is
/// a function of the bytes and of the room for headers, which `http_head` names.
/// Beyond that it is claimed that a complete head takes up no more bytes than
/// there are and has no more headers than there is room for, and that no bytes
/// at all are a head of which more has to come.
#[verifier::external_body]
fn parse_head(bytes: &[u8], max_headers: usize) -> (parsed: Parsed)
    requires
        max_headers <= MAX_HEADERS,
    ensures
        parsed@ == http_head(bytes@, max_headers),
        parsed matches Parsed::Complete(head) ==> head.len <= bytes@.len() && head.fields@.len()
            <= max_headers,
        bytes@.len() == 0 ==> parsed is Partial,
{
    let mut room = vec![httparse::EMPTY_HEADER; max_headers];
    let mut response = httparse::Response::new(&mut room);
    let to_field =
        |h: &httparse::Header| Field { name: h.name.to_owned(), value: h.value.to_vec() };
    match response.parse(bytes) {
        Ok(httparse::Status::Complete(len)) => Parsed::Complete(Head {
            version: response.version,
            code: response.code,
            fields: response.headers.iter().map(to_field).collect(),
            len,
        }),
        Ok(httparse::Status::Partial) => Parsed::Partial,
        Err(error) => Parsed::Failed(error.to_string()),
    }
}

/// Whether a number is a status, and which, by `http::StatusCode::from_u16`,
/// which takes the numbers from 100 to 999.
#[verifier::external_body]
fn status_code(code: u16) -> (status: Option<u16>)
    ensures
        status == (if 100 <= code <= 999 {
            Some(code)
        } else {
            None
        }),
{
    http::StatusCode::from_u16(code).ok().map(|status| status.as_u16())
}

/// What a response says in front of its body.
#[derive(Debug)]
pub struct ParsedResponse {
    /// The version of HTTP.
    pub version: Version,
    /// The status.
    pub status: u16,
    /// The headers.
    pub headers: Headers,
    /// How many bytes the head takes up.
    pub head_len: usize,
}

/// What a response says in front of its body, for specifications.
pub struct ParsedResponseView {
    /// The version of HTTP.
    pub version: Version,
    /// The status.
    pub status: u16,
    /// The headers: for each name the values in the order in which they stand.
    pub fields: Map<Seq<char>, Seq<Seq<u8>>>,
    /// How many bytes the head takes up.
    pub head_len: nat,
}

impl View for ParsedResponse {
    type V = ParsedResponseView;

    open spec fn view(&self) -> ParsedResponseView {
        ParsedResponseView {
            version: self.version,
            status: self.status,
            fields: headers::header_fields(self.headers),
            head_len: self.head_len as nat,
        }
    }
}

/// The bytes of a text.
pub open spec fn bytes_of(text: Seq<char>) -> Seq<u8> {
    vstd::utf8::encode_utf8(text)
}

/// Why a header cannot be taken in, if it cannot.
pub open spec fn field_error(field: FieldView) -> Option<ErrorView> {
    if headers::header_name(bytes_of(field.name)) is None {
        Some(ErrorView::Protocol("invalid header name: "@ + field.name))
    } else if !headers::is_header_value(field.value) {
        Some(ErrorView::Protocol("invalid header value"@))
    } else {
        None
    }
}

/// The headers of a response by name, or why the first header that cannot be
/// taken in cannot.
pub open spec fn collected(fields: Seq<FieldView>) -> Result<
    Map<Seq<char>, Seq<Seq<u8>>>,
    ErrorView,
>
    decreases fields.len(),
{
    if fields.len() == 0 {
        Ok(Map::empty())
    } else {
        match collected(fields.drop_last()) {
            Err(error) => Err(error),
            Ok(map) => match field_error(fields.last()) {
                Some(error) => Err(error),
                None => Ok(
                    headers::appended(
                        map,
                        headers::header_name(bytes_of(fields.last().name))->0,
                        fields.last().value,
                    ),
                ),
            },
        }
    }
}

/// What is made of the outcome of parsing a head.
pub open spec fn response_of(parsed: ParsedView) -> Result<ParsedResponseView, ErrorView> {
    match parsed {
        ParsedView::Partial => Err(ErrorView::Protocol("incomplete response headers"@)),
        ParsedView::Failed(message) => Err(ErrorView::Protocol("parse error: "@ + message)),
        ParsedView::Complete(head) => match head.code {
            None => Err(ErrorView::Protocol("missing status code"@)),
            Some(code) => if !(100 <= code <= 999) {
                Err(ErrorView::Protocol("invalid status code"@))
            } else {
                match collected(head.fields) {
                    Err(error) => Err(error),
                    Ok(fields) => Ok(
                        ParsedResponseView {
                            version: if head.version == Some(0u8) {
                                Version::Http10
                            } else {
                                Version::Http11
                            },
                            status: code,
                            fields,
                            head_len: head.len,
                        },
                    ),
                }
            },
        },
    }
}

/// A header that cannot be taken in stops all those behind it.
proof fn lemma_collected_error(fields: Seq<FieldView>, k: int)
    requires
        0 <= k <= fields.len(),
        collected(fields.take(k)) is Err,
    ensures
        collected(fields) == collected(fields.take(k)),
    decreases fields.len(),
{
    if k == fields.len() {
        assert(fields.take(k) == fields);
    } else {
        let rest = fields.drop_last();
        assert(rest.take(k) == fields.take(k));
        lemma_collected_error(rest, k);
    }
}

/// Takes the headers of a response in.
fn collect_headers(fields: &Vec<Field>) -> (result: Result<Headers, Error>)
    requires
        fields@.len() <= MAX_HEADERS,
    ensures
        match (result, collected(fields_view(fields@))) {
            (Ok(map), Ok(expected)) => headers::header_fields(map) == expected,
            (Err(error), Err(expected)) => error@ == expected,
            _ => false,
        },
{
    let ghost all = fields_view(fields@);
    let mut map = headers::empty();
    let mut i: usize = 0;
    assert(all.take(0) == Seq::<FieldView>::empty());
    while i < fields.len()
        invariant
            i <= fields@.len() <= MAX_HEADERS,
            all == fields_view(fields@),
            collected(all.take(i as int)) == Ok::<Map<Seq<char>, Seq<Seq<u8>>>, ErrorView>(
                headers::header_fields(map),
            ),
            headers::header_fields(map).dom().finite(),
            headers::header_fields(map).dom().len() <= i,
        decreases fields.len() - i,
    {
        let field = &fields[i];
        proof {
            assert(all[i as int] == field@);
            assert(all.take(i + 1).drop_last() == all.take(i as int));
            assert(all.take(i + 1).last() == field@);
        }
        if !headers::is_header_name(field.name.as_str()) {
            proof {
                lemma_collected_error(all, i + 1);
            }
            return Err(
                Error::Protocol(text::joined("invalid header name: ", field.name.as_str())),
            );
        }
        if !headers::is_valid_value(field.value.as_slice()) {
            proof {
                lemma_collected_error(all, i + 1);
            }
            return Err(Error::Protocol("invalid header value".to_owned()));
        }
        headers::append(&mut map, field.name.as_str(), field.value.as_slice());
        i = i + 1;
    }
    assert(all.take(i as int) == all);
    Ok(map)
}

/// Goes by what the parser made of the bytes.
pub fn from_parsed(parsed: Parsed) -> (result: Result<ParsedResponse, Error>)
    requires
        parsed matches Parsed::Complete(head) ==> head.fields@.len() <= MAX_HEADERS,
    ensures
        match (result, response_of(parsed@)) {
            (Ok(response), Ok(expected)) => response@ == expected,
            (Err(error), Err(expected)) => error@ == expected,
            _ => false,
        },
{
    let head = match parsed {
        Parsed::Complete(head) => head,
        Parsed::Partial => {
            return Err(Error::Protocol("incomplete response headers".to_owned()));
        },
        Parsed::Failed(message) => {
            return Err(Error::Protocol(text::joined("parse error: ", message.as_str())));
        },
    };
    let code: u16 = match head.code {
        Some(code) => code,
        None => {
            return Err(Error::Protocol("missing status code".to_owned()));
        },
    };
    let status: u16 = match status_code(code) {
        Some(status) => status,
        None => {
            return Err(Error::Protocol("invalid status code".to_owned()));
        },
    };
    let version = match head.version {
        Some(0) => Version::Http10,
        _ => Version::Http11,
    };
    match collect_headers(&head.fields) {
        Ok(headers) => Ok(ParsedResponse { version, status, headers, head_len: head.len }),
        Err(error) => Err(error),
    }
}

/// Reads the head of a response out of the bytes that have come so far.
pub fn parse_response(buf: &[u8]) -> (result: Result<ParsedResponse, Error>)
    ensures
        match (result, response_of(http_head(buf@, MAX_HEADERS))) {
            (Ok(response), Ok(expected)) => response@ == expected,
            (Err(error), Err(expected)) => error@ == expected,
            _ => false,
        },
        result matches Ok(response) ==> response.head_len <= buf@.len(),
        buf@.len() == 0 ==> result is Err,
{
    from_parsed(parse_head(buf, MAX_HEADERS))
}

/// The headers of a response that have a name, whatever its spelling: `key` is the name
/// in the form in which maps hold it.
pub open spec fn values_under(fields: Seq<FieldView>, key: Seq<char>) -> Seq<Seq<u8>> {
    fields.filter(
        |field: FieldView| headers::header_name(bytes_of(field.name)) == Some(key),
    ).map_values(|field: FieldView| field.value)
}

/// No header is lost, made up, changed or moved: under every name stand the values that
/// the headers of that name have, in the order in which they stand in the response.
/// Headers are taken in exactly if all of their names are header names and all of their
/// values header values; otherwise the first that is not decides the error.
pub proof fn law_headers_are_kept(fields: Seq<FieldView>, key: Seq<char>)
    ensures
        collected(fields) is Ok <==> (forall|i: int|
            0 <= i < fields.len() ==> headers::header_name(bytes_of((#[trigger] fields[i]).name))
                is Some && headers::is_header_value(fields[i].value)),
        collected(fields) matches Ok(map) ==> {
            &&& map.contains_key(key) <==> values_under(fields, key).len() > 0
            &&& map.contains_key(key) ==> map[key] == values_under(fields, key)
        },
        collected(fields) matches Err(error) ==> exists|k: int|
            {
                &&& 0 <= k < fields.len()
                &&& collected(fields.take(k)) is Ok
                &&& error == if headers::header_name(
                    bytes_of((#[trigger] fields[k]).name),
                ) is None {
                    ErrorView::Protocol("invalid header name: "@ + fields[k].name)
                } else {
                    ErrorView::Protocol("invalid header value"@)
                }
            },
    decreases fields.len(),
{
    let named = |field: FieldView| headers::header_name(bytes_of(field.name)) == Some(key);
    let value = |field: FieldView| field.value;
    reveal(Seq::filter);
    if fields.len() == 0 {
        assert(values_under(fields, key).len() == 0);
    } else {
        let rest = fields.drop_last();
        let last = fields.last();
        law_headers_are_kept(rest, key);
        assert(last == fields[fields.len() - 1]);
        assert(forall|i: int| 0 <= i < rest.len() ==> rest[i] == #[trigger] fields[i]);
        if collected(rest) is Ok {
            assert forall|i: int| 0 <= i < rest.len() implies headers::header_name(
                bytes_of((#[trigger] fields[i]).name),
            ) is Some && headers::is_header_value(fields[i].value) by {
                assert(rest[i] == fields[i]);
            }
            assert(fields.take(fields.len() - 1) == rest);
        } else {
            let k = choose|k: int|
                {
                    &&& 0 <= k < rest.len()
                    &&& collected(rest.take(k)) is Ok
                    &&& collected(rest)->Err_0 == if headers::header_name(
                        bytes_of((#[trigger] rest[k]).name),
                    ) is None {
                        ErrorView::Protocol("invalid header name: "@ + rest[k].name)
                    } else {
                        ErrorView::Protocol("invalid header value"@)
                    }
                };
            assert(rest[k] == fields[k]);
            assert(fields.take(k) == rest.take(k));
            let bad = choose|i: int|
                0 <= i < rest.len() && !(headers::header_name(bytes_of((#[trigger] rest[i]).name))
                    is Some && headers::is_header_value(rest[i].value));
            assert(fields[bad] == rest[bad]);
        }
        let before = rest.filter(named);
        if named(last) {
            assert(fields.filter(named) == before.push(last));
            assert(values_under(fields, key) == values_under(rest, key).push(last.value));
        } else {
            assert(values_under(fields, key) == values_under(rest, key));
        }
        if let Ok(map) = collected(fields) {
            assert(collected(rest) is Ok);
            if values_under(rest, key).len() == 0 && named(last) {
                assert(values_under(fields, key) == seq![last.value]);
            }
        }
    }
}

/// A complete head with a status from 100 to 999 and headers that can be taken in is
/// that of a response: with just that status and length, and the version that stands
/// there. Without a status, with another one, or with other headers it is an error, and
/// so is what is no complete head.
pub proof fn law_head_is_taken_as_it_stands(parsed: ParsedView)
    ensures
        response_of(parsed) is Ok <==> (parsed matches ParsedView::Complete(head) && (
        head.code matches Some(code) && 100 <= code <= 999) && collected(head.fields) is Ok),
        response_of(parsed) matches Err(error) ==> error is Protocol,
        parsed matches ParsedView::Complete(head) ==> (response_of(parsed) matches Ok(response)
            ==> {
            &&& head.code == Some(response.status)
            &&& response.head_len == head.len
            &&& response.version is Http10 <==> head.version == Some(0u8)
            &&& collected(head.fields) == Ok::<Map<Seq<char>, Seq<Seq<u8>>>, ErrorView>(
                response.fields,
            )
        }),
{
    if let ParsedView::Complete(head) = parsed {
        law_headers_are_kept(head.fields, Seq::empty());
    }
}

} // verus!
