use vstd::prelude::*;
use vstd::string::*;

verus! {

/// The header map of the `http` crate; `header_fields` names what one holds.
#[verifier::external_type_specification]
#[verifier::external_body]
#[verifier::reject_recursive_types(T)]
pub struct ExHeaderMap<T>(http::HeaderMap<T>);

/// The header value of the `http` crate.
#[verifier::external_type_specification]
#[verifier::external_body]
pub struct ExHeaderValue(http::HeaderValue);

/// A map from header names to header values.
pub type Headers = http::HeaderMap<http::HeaderValue>;

/// More distinct names than this are never put into one map.
pub const MAX_NAMES: usize = 1024;

/// What `http::HeaderName::from_bytes` makes of a name: the name in the form in
/// which maps hold it, or nothing if it is no header name.
pub uninterp spec fn header_name(name: Seq<u8>) -> Option<Seq<char>>;

/// What a header map holds: for each name, the values in the order in which they
/// were added.
pub uninterp spec fn header_fields(
    map: http::HeaderMap<http::HeaderValue>,
) -> Map<Seq<char>, Seq<Seq<u8>>>;

/// Whether a byte may stand in a header value.
pub open spec fn is_value_byte(b: u8) -> bool {
    (b >= 32 && b != 127) || b == 9
}

/// Whether bytes are a header value.
pub open spec fn is_header_value(value: Seq<u8>) -> bool {
    forall|i: int| 0 <= i < value.len() ==> is_value_byte(#[trigger] value[i])
}

/// What an empty map holds.
pub open spec fn no_fields() -> Map<Seq<char>, Seq<Seq<u8>>> {
    Map::empty()
}

/// What a map holds when a value has been added under `name`.
pub open spec fn appended(
    fields: Map<Seq<char>, Seq<Seq<u8>>>,
    name: Seq<char>,
    value: Seq<u8>,
) -> Map<Seq<char>, Seq<Seq<u8>>> {
    fields.insert(
        name,
        if fields.contains_key(name) {
            fields[name].push(value)
        } else {
            seq![value]
        },
    )
}

/// Whether a text is a header name, by `http::HeaderName::from_bytes`. The form
/// that it gives the name is a function of the bytes alone, which `header_name`
/// names; nothing more is claimed of it.
#[verifier::external_body]
pub(crate) fn is_header_name(name: &str) -> (valid: bool)
    ensures
        valid == (header_name(name.spec_bytes()) is Some),
{
    http::HeaderName::from_bytes(name.as_bytes()).is_ok()
}

/// Whether bytes are a header value, by `http::HeaderValue::from_bytes`, which
/// takes every byte from 32 on but 127, and the tab.
#[verifier::external_body]
pub(crate) fn is_valid_value(value: &[u8]) -> (valid: bool)
    ensures
        valid == is_header_value(value@),
{
    http::HeaderValue::from_bytes(value).is_ok()
}

/// An empty map, by `http::HeaderMap::new`.
#[verifier::external_body]
pub(crate) fn empty() -> (fresh: Headers)
    ensures
        header_fields(fresh) == no_fields(),
{
    http::HeaderMap::new()
}

/// Adds a value under a name, behind those that are there, by
/// `http::HeaderMap::append`. That panics when the map is full, which it is not
/// as long as it holds fewer than `MAX_NAMES` names.
#[verifier::external_body]
pub(crate) fn append(map: &mut Headers, name: &str, value: &[u8])
    requires
        header_name(name.spec_bytes()) is Some,
        is_header_value(value@),
        header_fields(*old(map)).dom().finite(),
        header_fields(*old(map)).dom().len() < MAX_NAMES,
    ensures
        header_fields(*final(map)) == appended(
            header_fields(*old(map)),
            header_name(name.spec_bytes())->0,
            value@,
        ),
{
    let name = http::HeaderName::from_bytes(name.as_bytes()).unwrap();
    let value = http::HeaderValue::from_bytes(value).unwrap();
    map.append(name, value);
}

/// The first value under a name, by `http::HeaderMap::get`: the name is brought
/// into the form in which the map holds it, and a text that is no header name
/// has no value.
#[verifier::external_body]
pub(crate) fn get(map: &Headers, name: &str) -> (value: Option<Vec<u8>>)
    ensures
        value is Some <==> (header_name(name.spec_bytes()) matches Some(key)
            && header_fields(*map).contains_key(key)),
        value matches Some(bytes) ==> bytes@ == header_fields(
            *map,
        )[header_name(name.spec_bytes())->0][0],
{
    map.get(name).map(|value| value.as_bytes().to_vec())
}

} // verus!
