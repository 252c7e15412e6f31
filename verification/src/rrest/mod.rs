pub mod client;
pub mod connection;
pub mod error;
pub mod fetch;
pub mod headers;
pub mod net;
pub mod parse;
pub mod request;
pub mod session;
pub mod text;
pub mod tls;
pub mod url_parts;
pub mod wire;

pub use connection::Connection;
pub use error::Error;

use vstd::prelude::*;

use error::ErrorView;
use url_parts::{UrlParts, UrlPartsView};

verus! {

/// What it takes to ask for what a URL stands for.
#[derive(Debug)]
pub struct Plan {
    /// Where to connect to: a host and a port.
    pub address: String,
    /// The host to make a TLS session with over that connection, if the URL wants
    /// one.
    pub tls_host: Option<String>,
}

/// A plan, for specifications.
pub struct PlanView {
    /// Where to connect to.
    pub address: Seq<char>,
    /// The host to make a TLS session with.
    pub tls_host: Option<Seq<char>>,
}

impl View for Plan {
    type V = PlanView;

    open spec fn view(&self) -> PlanView {
        PlanView { address: self.address@, tls_host: url_parts::text_view(self.tls_host) }
    }
}

/// What it takes to ask for what a URL stands for: a connection to its address,
/// and TLS if its scheme is that of HTTPS.
pub open spec fn plan_of(parts: UrlPartsView) -> Result<PlanView, ErrorView> {
    match net::address_of(parts) {
        Err(error) => Err(error),
        Ok(address) => Ok(
            PlanView {
                address,
                tls_host: if parts.scheme == "https"@ {
                    parts.host
                } else {
                    None
                },
            },
        ),
    }
}

/// Whether `result` is what planning for the URL in `parts` is to come to.
pub open spec fn planned(parts: UrlPartsView, result: Result<Plan, Error>) -> bool {
    match (result, plan_of(parts)) {
        (Ok(plan), Ok(expected)) => plan@ == expected,
        (Err(error), Err(expected)) => error@ == expected,
        _ => false,
    }
}

/// Whether `result` is what planning for `url` is to come to.
pub open spec fn planned_for(url: Seq<char>, result: Result<Plan, Error>) -> bool {
    match url_parts::url_parse(url) {
        Err(message) => result matches Err(error) && error@ == ErrorView::InvalidUrl(message),
        Ok(parts) => planned(parts, result),
    }
}

/// An HTTP client.
pub struct Rrest;

impl Rrest {
    /// What it takes to ask for what a URL that has been taken apart stands for.
    pub fn plan(parts: UrlParts) -> (result: Result<Plan, Error>)
        ensures
            planned(parts@, result),
    {
        let address = match net::address(&parts) {
            Ok(address) => address,
            Err(error) => {
                return Err(error);
            },
        };
        let tls_host = if parts.scheme == "https".to_owned() {
            parts.host
        } else {
            None
        };
        Ok(Plan { address, tls_host })
    }

    /// What it takes to ask for what a URL stands for. The request itself goes
    /// over an `Http` on the connection that the plan leads to.
    pub fn get(url: &str) -> (result: Result<Plan, Error>)
        ensures
            planned_for(url@, result),
    {
        match UrlParts::parse(url) {
            Ok(parts) => Self::plan(parts),
            Err(error) => Err(error),
        }
    }
}

} // verus!
