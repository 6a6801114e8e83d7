//! User settings and the search engines the address bar can fall back to.
//!
//! Loading and saving the settings file is the shell's business; the values
//! themselves, their defaults and the search-URL construction live here.

use vstd::prelude::*;

verus! {

/// What `urlencoding::encode` yields for the text: every byte outside
/// `A-Z a-z 0-9 - . _ ~` percent-encoded; a pure function of the text.
pub uninterp spec fn urlencoded(s: Seq<char>) -> Seq<char>;

/// Relies on `urlencoding::encode`: percent-encodes the query for use in a
/// URL.
#[verifier::external_body]
fn urlencode(s: &str) -> (r: String)
    ensures
        r@ == urlencoded(s@),
{
    urlencoding::encode(s).into_owned()
}

/// The search engine queries are sent to when the address-bar input is not
/// a URL.
#[derive(Clone, Copy, Debug, PartialEq, Eq, Structural)]
pub enum SearchEngine {
    DuckDuckGo,
    Google,
    Bing,
    Brave,
}

impl core::default::Default for SearchEngine {
    /// The default engine is DuckDuckGo.
    fn default() -> (r: SearchEngine)
        ensures
            r == SearchEngine::DuckDuckGo,
    {
        SearchEngine::DuckDuckGo
    }
}

/// The search URL an engine builds for a query.
pub open spec fn spec_query_url(engine: SearchEngine, query: Seq<char>) -> Seq<char> {
    match engine {
        SearchEngine::DuckDuckGo => "https://duckduckgo.com/?q="@ + urlencoded(query),
        SearchEngine::Google => "https://google.com/search?q="@ + urlencoded(query),
        SearchEngine::Bing => "https://bing.com/search?q="@ + urlencoded(query),
        SearchEngine::Brave => "https://search.brave.com/search?q="@ + urlencoded(query),
    }
}

impl SearchEngine {
    /// The search URL for `query`: the engine's query endpoint with the
    /// percent-encoded query appended.
    pub fn query_url(&self, query: &str) -> (r: String)
        ensures
            r@ == spec_query_url(*self, query@),
    {
        let q = urlencode(query);
        match self {
            SearchEngine::DuckDuckGo => String::from_str("https://duckduckgo.com/?q=").concat(
                q.as_str(),
            ),
            SearchEngine::Google => String::from_str("https://google.com/search?q=").concat(
                q.as_str(),
            ),
            SearchEngine::Bing => String::from_str("https://bing.com/search?q=").concat(
                q.as_str(),
            ),
            SearchEngine::Brave => String::from_str("https://search.brave.com/search?q=").concat(
                q.as_str(),
            ),
        }
    }
}

/// The user-visible settings. Persisting them is the shell's business.
#[derive(Clone, Debug)]
pub struct Settings {
    pub homepage: String,
    pub search_engine: SearchEngine,
    pub block_trackers: bool,
    pub https_only: bool,
    pub clear_on_exit: bool,
    /// `dark`, `light` or `system`.
    pub theme: String,
    pub compact_mode: bool,
}

impl core::default::Default for Settings {
    /// Fresh-profile settings: DuckDuckGo homepage and search, tracker
    /// blocking and HTTPS-only on, dark theme.
    fn default() -> (r: Settings)
        ensures
            r.homepage@ == "https://duckduckgo.com"@,
            r.search_engine == SearchEngine::DuckDuckGo,
            r.block_trackers,
            r.https_only,
            !r.clear_on_exit,
            r.theme@ == "dark"@,
            !r.compact_mode,
    {
        Settings {
            homepage: String::from_str("https://duckduckgo.com"),
            search_engine: SearchEngine::DuckDuckGo,
            block_trackers: true,
            https_only: true,
            clear_on_exit: false,
            theme: String::from_str("dark"),
            compact_mode: false,
        }
    }
}

} // verus!
