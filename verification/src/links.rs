//! Links: a web address taken apart by the `url` crate into the pieces the
//! rest of the library reads.

use vstd::prelude::*;

verus! {

/// The parts of a parsed URL that the newspaper's rules look at.
pub struct ParsedUrl {
    /// Lower-case scheme, as `Url::scheme` gives it ("https").
    pub scheme: String,
    /// `Url::host_str`: the host, when the URL has one.
    pub host: Option<String>,
    /// `Url::path`: the path, percent-encoded ("/a/status/1").
    pub path: String,
    /// `Url::path_segments`: the path split on `/`, when the URL has a path
    /// that starts with one.
    pub segments: Option<Vec<String>>,
    /// `Url::query_pairs`: the query string's key/value pairs, decoded, in order.
    pub query: Vec<(String, String)>,
    /// `Url::port`: the port, when the URL names one other than the scheme's
    /// default.
    pub port: Option<u16>,
    /// `Url::as_str`: the whole URL as the crate writes it.
    pub text: String,
}

/// The text of each part of a parsed URL.
pub struct UrlParts {
    pub scheme: Seq<char>,
    pub host: Option<Seq<char>>,
    pub path: Seq<char>,
    pub segments: Option<Seq<Seq<char>>>,
    pub query: Seq<(Seq<char>, Seq<char>)>,
    pub port: Option<u16>,
    pub text: Seq<char>,
}

impl View for ParsedUrl {
    type V = UrlParts;

    open spec fn view(&self) -> UrlParts {
        UrlParts {
            scheme: self.scheme@,
            host: self.host.deep_view(),
            path: self.path@,
            segments: self.segments.deep_view(),
            query: self.query.deep_view(),
            port: self.port,
            text: self.text@,
        }
    }
}

/// What `url::Url::parse` makes of a text: `None` when it is not a valid
/// absolute URL.
pub uninterp spec fn spec_parse_url(s: Seq<char>) -> Option<UrlParts>;

/// The parts of an optional parsed URL.
pub open spec fn parts_of(u: Option<ParsedUrl>) -> Option<UrlParts> {
    match u {
        Some(p) => Some(p@),
        None => None,
    }
}

/// `url::Url::parse`, with the parts the library reads copied out of the
/// parsed URL. Claims only that the result is the one that name stands for:
/// the same text always parses to the same parts.
#[verifier::external_body]
pub(crate) fn parse_url(s: &str) -> (r: Option<ParsedUrl>)
    ensures
        parts_of(r) == spec_parse_url(s@),
{
    match url::Url::parse(s) {
        Ok(u) => Some(ParsedUrl {
            scheme: u.scheme().to_string(),
            host: u.host_str().map(|h| h.to_string()),
            path: u.path().to_string(),
            segments: u.path_segments().map(|p| p.map(|x| x.to_string()).collect()),
            query: u.query_pairs().map(|(k, v)| (k.to_string(), v.to_string())).collect(),
            port: u.port(),
            text: u.as_str().to_string(),
        }),
        Err(_) => None,
    }
}

impl ParsedUrl {
    /// A web address taken apart into the pieces the library reads; `None`
    /// when the text is not a URL.
    pub fn parse(s: &str) -> (r: Option<ParsedUrl>)
        ensures
            parts_of(r) == spec_parse_url(s@),
    {
        parse_url(s)
    }
}

/// What `Url::set_scheme("https")` leaves of a URL, written out with
/// `Url::as_str`; `None` when the text is not a URL or the scheme cannot be
/// changed.
pub uninterp spec fn spec_with_https(s: Seq<char>) -> Option<Seq<char>>;

/// `url::Url::parse`, then `Url::set_scheme("https")` and `Url::as_str`.
/// Claims only that the result is the one `spec_with_https` names.
#[verifier::external_body]
pub(crate) fn with_https(s: &str) -> (r: Option<String>)
    ensures
        r.deep_view() == spec_with_https(s@),
{
    let mut u = url::Url::parse(s).ok()?;
    u.set_scheme("https").ok()?;
    Some(u.as_str().to_string())
}

/// What `Url::parse_with_params(base, pairs)` writes out (`Url::as_str`):
/// the base with the pairs as its query, form-encoded.
pub uninterp spec fn spec_url_with_params(base: Seq<char>, pairs: Seq<(Seq<char>, Seq<char>)>) -> Option<Seq<char>>;

/// `url::Url::parse_with_params`, written out with `Url::as_str`. Claims only
/// that the result is the one `spec_url_with_params` names.
#[verifier::external_body]
pub(crate) fn url_with_params(base: &str, pairs: &Vec<(String, String)>) -> (r: Option<String>)
    ensures
        r.deep_view() == spec_url_with_params(base@, pairs.deep_view()),
{
    let u = url::Url::parse_with_params(base, pairs.iter().map(|(k, v)| (k.as_str(), v.as_str()))).ok()?;
    Some(u.as_str().to_string())
}

/// What `Url::join(link)` on the parsed `base` writes out: `link` resolved
/// against `base`.
pub uninterp spec fn spec_url_join(base: Seq<char>, link: Seq<char>) -> Option<Seq<char>>;

/// `url::Url::parse(base)`, then `Url::join(link)` and `to_string`. Claims
/// only that the result is the one `spec_url_join` names.
#[verifier::external_body]
pub(crate) fn url_join(base: &str, link: &str) -> (r: Option<String>)
    ensures
        r.deep_view() == spec_url_join(base@, link@),
{
    let u = url::Url::parse(base).ok()?.join(link).ok()?;
    Some(u.to_string())
}

} // verus!
