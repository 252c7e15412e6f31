use vstd::prelude::*;

use crate::rrest::error::Error;

verus! {

/// The parts of a URL that a request is made of.
#[derive(Debug)]
pub struct UrlParts {
    /// The scheme, in lower case and without the colon.
    pub scheme: String,
    /// The host, if there is one.
    pub host: Option<String>,
    /// The port, if it is given and not the default of the scheme.
    pub port: Option<u16>,
    /// The path, percent-encoded.
    pub path: String,
    /// The query, percent-encoded and without the question mark, if there is
    /// one.
    pub query: Option<String>,
}

/// The parts of a URL, for specifications.
pub struct UrlPartsView {
    /// The scheme.
    pub scheme: Seq<char>,
    /// The host.
    pub host: Option<Seq<char>>,
    /// The port.
    pub port: Option<u16>,
    /// The path.
    pub path: Seq<char>,
    /// The query.
    pub query: Option<Seq<char>>,
}

/// A text that may be missing, for specifications.
pub open spec fn text_view(text: Option<String>) -> Option<Seq<char>> {
    match text {
        Some(text) => Some(text@),
        None => None,
    }
}

impl View for UrlParts {
    type V = UrlPartsView;

    open spec fn view(&self) -> UrlPartsView {
        UrlPartsView {
            scheme: self.scheme@,
            host: text_view(self.host),
            port: self.port,
            path: self.path@,
            query: text_view(self.query),
        }
    }
}

/// Whether the scheme of a URL is one of HTTP.
pub open spec fn is_http(parts: UrlPartsView) -> bool {
    parts.scheme == "http"@ || parts.scheme == "https"@
}

/// What `url::Url::parse` makes of a text: the parts of the URL, or what its
/// error says.
pub uninterp spec fn url_parse(url: Seq<char>) -> Result<UrlPartsView, Seq<char>>;

/// Takes a URL apart, by `url::Url::parse` and the accessors of what it returns.
/// The result is a function of the text alone, which `url_parse` names; nothing
/// more is claimed of it.
#[verifier::external_body]
fn parse_url(url: &str) -> (result: Result<UrlParts, String>)
    ensures
        match result {
            Ok(parts) => url_parse(url@) == Ok::<UrlPartsView, Seq<char>>(parts@),
            Err(message) => url_parse(url@) == Err::<UrlPartsView, Seq<char>>(message@),
        },
{
    match url::Url::parse(url) {
        Ok(parsed) => Ok(UrlParts {
            scheme: parsed.scheme().to_owned(),
            host: parsed.host_str().map(|host| host.to_owned()),
            port: parsed.port(),
            path: parsed.path().to_owned(),
            query: parsed.query().map(|query| query.to_owned()),
        }),
        Err(error) => Err(error.to_string()),
    }
}

impl UrlParts {
    /// Whether the scheme of the URL is one of HTTP.
    pub fn has_http_scheme(&self) -> (yes: bool)
        ensures
            yes == is_http(self@),
    {
        self.scheme == "http".to_owned() || self.scheme == "https".to_owned()
    }

    /// Takes a URL apart. A text that is no URL is an invalid URL, with what
    /// the parser says of it.
    pub fn parse(url: &str) -> (result: Result<Self, Error>)
        ensures
            match (result, url_parse(url@)) {
                (Ok(parts), Ok(expected)) => parts@ == expected,
                (Err(Error::InvalidUrl(message)), Err(expected)) => message@ == expected,
                _ => false,
            },
    {
        match parse_url(url) {
            Ok(parts) => Ok(parts),
            Err(message) => Err(Error::InvalidUrl(message)),
        }
    }
}

} // verus!
