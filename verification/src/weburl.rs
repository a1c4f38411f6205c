//! The parts of a parsed URL, as plain values, and the calls into the `url`
//! crate that produce them.

use vstd::prelude::*;

verus! {

/// The components of a URL that the library reads.
pub struct UrlParts {
    pub scheme: String,
    pub host: Option<String>,
    pub port: Option<u16>,
    pub path: String,
    pub query: Option<String>,
}

/// Mathematical form of [`UrlParts`].
pub struct UrlPartsView {
    pub scheme: Seq<char>,
    pub host: Option<Seq<char>>,
    pub port: Option<u16>,
    pub path: Seq<char>,
    pub query: Option<Seq<char>>,
}

pub open spec fn opt_view(o: Option<String>) -> Option<Seq<char>> {
    match o {
        Some(s) => Some(s@),
        None => None,
    }
}

impl View for UrlParts {
    type V = UrlPartsView;

    open spec fn view(&self) -> UrlPartsView {
        UrlPartsView {
            scheme: self.scheme@,
            host: opt_view(self.host),
            port: self.port,
            path: self.path@,
            query: opt_view(self.query),
        }
    }
}

/// What `url::Url::parse` makes of a string: its scheme, host, port, path and
/// query on success, the text of the parse error on failure.
pub uninterp spec fn url_parse_result(input: Seq<char>) -> Result<UrlPartsView, Seq<char>>;

/// What `url::Url::join` gives for a reference `href` resolved against `base`
/// (itself parsed with `url::Url::parse`): the serialised URL, or `None` when
/// either step fails.
pub uninterp spec fn url_join_result(base: Seq<char>, href: Seq<char>) -> Option<Seq<char>>;

/// Calls `url::Url::parse` and reads `scheme()`, `host_str()`, `port()`,
/// `path()` and `query()` of the result, or the error's text. The contract
/// claims only that the outcome is the one named by `url_parse_result` for
/// the input; nothing about URL syntax is claimed.
#[verifier::external_body]
pub(crate) fn parse_url(input: &str) -> (r: Result<UrlParts, String>)
    ensures
        match r {
            Ok(p) => url_parse_result(input@) == Ok::<UrlPartsView, Seq<char>>(p@),
            Err(e) => url_parse_result(input@) == Err::<UrlPartsView, Seq<char>>(e@),
        },
{
    match url::Url::parse(input) {
        Ok(u) => Ok(UrlParts {
            scheme: u.scheme().to_string(),
            host: u.host_str().map(|h| h.to_string()),
            port: u.port(),
            path: u.path().to_string(),
            query: u.query().map(|q| q.to_string()),
        }),
        Err(e) => Err(e.to_string()),
    }
}

/// Calls `url::Url::parse` on `base` and `url::Url::join` with `href` on the
/// result, and serialises it with `as_str()`. The contract claims only that
/// the outcome is the one named by `url_join_result` for the two arguments.
#[verifier::external_body]
pub(crate) fn join_url(base: &str, href: &str) -> (r: Option<String>)
    ensures
        match r {
            Some(u) => url_join_result(base@, href@) == Some(u@),
            None => url_join_result(base@, href@) is None,
        },
{
    url::Url::parse(base).ok().and_then(|b| b.join(href).ok()).map(|u| u.as_str().to_string())
}

} // verus!
