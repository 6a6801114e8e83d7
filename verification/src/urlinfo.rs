//! Trusted view of the `url` crate's parser.
//!
//! The library never stores a parsed URL; it asks the parser once and works
//! on the plain values that come back. The spec names below stand for what
//! the parser computes; they are functions of the input text alone.

use vstd::prelude::*;

verus! {

/// Whether `url::Url::parse` accepts the text.
pub uninterp spec fn url_ok(s: Seq<char>) -> bool;

/// The scheme of the parsed URL (`url::Url::scheme`), lower-cased, without `:`.
pub uninterp spec fn scheme_of(s: Seq<char>) -> Seq<char>;

/// Whether the parsed URL has a host (`url::Url::host`).
pub uninterp spec fn url_has_host(s: Seq<char>) -> bool;

/// The host of the parsed URL (`url::Url::host_str`), when it has one.
pub uninterp spec fn host_of(s: Seq<char>) -> Seq<char>;

/// The serialization of the parsed URL (its `Display` form).
pub uninterp spec fn normal_form(s: Seq<char>) -> Seq<char>;

/// Whether the parsed URL's host is a domain name (`url::Url::domain`).
pub uninterp spec fn url_has_domain(s: Seq<char>) -> bool;

/// The domain of the parsed URL, when it has one.
pub uninterp spec fn domain_of(s: Seq<char>) -> Seq<char>;

/// What one parse of a URL yields, as plain values.
pub(crate) struct UrlParts {
    pub(crate) scheme: String,
    pub(crate) has_host: bool,
    pub(crate) host: Option<String>,
    pub(crate) normalized: String,
    pub(crate) domain: Option<String>,
}

/// Relies on `url::Url::parse` and, on the parsed value, `Url::scheme`,
/// `Url::host`, `Url::host_str`, `Url::domain` and the `Display`
/// serialization: each is a pure function of the input text. The last two
/// clauses are the parser's round trip on its own output: a serialization
/// parses, and parses back to itself, so serializing is idempotent.
#[verifier::external_body]
pub(crate) fn parse_url(s: &str) -> (r: Option<UrlParts>)
    ensures
        r is Some <==> url_ok(s@),
        r matches Some(p) ==> {
            &&& p.scheme@ == scheme_of(s@)
            &&& p.has_host == url_has_host(s@)
            &&& (p.host is Some <==> url_has_host(s@))
            &&& (p.host matches Some(h) ==> h@ == host_of(s@))
            &&& p.normalized@ == normal_form(s@)
            &&& (p.domain is Some <==> url_has_domain(s@))
            &&& (p.domain matches Some(d) ==> d@ == domain_of(s@))
        },
        r is Some ==> url_ok(normal_form(s@)),
        r is Some ==> normal_form(normal_form(s@)) == normal_form(s@),
{
    match url::Url::parse(s) {
        Ok(u) => Some(UrlParts {
            scheme: u.scheme().to_string(),
            has_host: u.host().is_some(),
            host: u.host_str().map(|h| h.to_string()),
            normalized: u.to_string(),
            domain: u.domain().map(|d| d.to_string()),
        }),
        Err(_) => None,
    }
}

/// The domain of a URL, if the text parses and its host is a
/// domain name.
pub open spec fn spec_extract_domain(url: Seq<char>) -> Option<Seq<char>> {
    if url_ok(url) && url_has_domain(url) {
        Some(domain_of(url))
    } else {
        None
    }
}

/// The domain of a URL as the allowlist keys it: scheme, path and port
/// stripped; `None` when the text does not parse or the host is not a domain.
pub fn extract_domain(url: &str) -> (r: Option<String>)
    ensures
        r matches Some(d) ==> spec_extract_domain(url@) == Some(d@),
        r is None ==> spec_extract_domain(url@) is None,
{
    match parse_url(url) {
        Some(p) => p.domain,
        None => None,
    }
}

} // verus!
