use sovereign_core::settings::{SearchEngine, Settings};

#[test]
fn test_default_settings() {
    let s = Settings::default();
    assert_eq!(s.homepage, "https://duckduckgo.com");
    assert_eq!(s.search_engine, SearchEngine::DuckDuckGo);
    assert!(s.block_trackers);
    assert!(s.https_only);
    assert!(!s.clear_on_exit);
    assert_eq!(s.theme, "dark");
    assert!(!s.compact_mode);
}

#[test]
fn test_query_urls() {
    let q = "rust programming";
    let enc = urlencoding::encode(q);
    assert_eq!(
        SearchEngine::DuckDuckGo.query_url(q),
        format!("https://duckduckgo.com/?q={}", enc)
    );
    assert_eq!(
        SearchEngine::Google.query_url(q),
        format!("https://google.com/search?q={}", enc)
    );
    assert_eq!(
        SearchEngine::Bing.query_url(q),
        format!("https://bing.com/search?q={}", enc)
    );
    assert_eq!(
        SearchEngine::Brave.query_url(q),
        format!("https://search.brave.com/search?q={}", enc)
    );
}

#[test]
fn test_query_url_encodes_reserved_characters() {
    assert_eq!(
        SearchEngine::DuckDuckGo.query_url("a&b=c"),
        "https://duckduckgo.com/?q=a%26b%3Dc"
    );
}
