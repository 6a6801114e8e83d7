use sovereign_core::navigation::{guess_request_type, smart_parse_url};
use sovereign_core::settings::{SearchEngine, Settings};

#[test]
fn test_smart_parse_url() {
    let s = Settings::default();

    // Standard URLs - expect normalization (trailing slash)
    assert_eq!(smart_parse_url("https://example.com", &s), "https://example.com/");
    assert_eq!(smart_parse_url("http://example.com", &s), "http://example.com/");
    assert_eq!(smart_parse_url("about:blank", &s), "about:blank");

    // Localhost / IPs
    assert_eq!(smart_parse_url("localhost", &s), "http://localhost/");
    assert_eq!(smart_parse_url("localhost:3000", &s), "http://localhost:3000/");
    assert_eq!(smart_parse_url("127.0.0.1", &s), "http://127.0.0.1/");
    assert_eq!(smart_parse_url("192.168.1.10", &s), "http://192.168.1.10/");

    // Domains without scheme
    assert_eq!(smart_parse_url("example.com", &s), "https://example.com/");
    assert_eq!(smart_parse_url("sub.domain.co.uk", &s), "https://sub.domain.co.uk/");
    // Params/fragment preserved
    assert_eq!(
        smart_parse_url("google.com/test?x=1#frag", &s),
        "https://google.com/test?x=1#frag"
    );

    // Search queries (uses default DuckDuckGo)
    let hello_encoded = urlencoding::encode("hello world");
    assert_eq!(
        smart_parse_url("hello world", &s),
        format!("https://duckduckgo.com/?q={}", hello_encoded)
    );

    // Encoding tests
    let cpp_encoded = urlencoding::encode("c++");
    assert_eq!(
        smart_parse_url("c++", &s),
        format!("https://duckduckgo.com/?q={}", cpp_encoded)
    );

    let ampersand_encoded = urlencoding::encode("hello & world");
    assert_eq!(
        smart_parse_url("hello & world", &s),
        format!("https://duckduckgo.com/?q={}", ampersand_encoded)
    );

    let unicode_encoded = urlencoding::encode("café");
    assert_eq!(
        smart_parse_url("café", &s),
        format!("https://duckduckgo.com/?q={}", unicode_encoded)
    );

    let cpp_pointers = urlencoding::encode("c++ pointers");
    assert_eq!(
        smart_parse_url("c++ pointers", &s),
        format!("https://duckduckgo.com/?q={}", cpp_pointers)
    );

    let cafe_near_me = urlencoding::encode("café near me");
    assert_eq!(
        smart_parse_url("café near me", &s),
        format!("https://duckduckgo.com/?q={}", cafe_near_me)
    );

    let quotes_amp = urlencoding::encode("hello \"world\" & others");
    assert_eq!(
        smart_parse_url("hello \"world\" & others", &s),
        format!("https://duckduckgo.com/?q={}", quotes_amp)
    );
}

#[test]
fn test_more_address_inputs() {
    let s = Settings::default();
    assert_eq!(
        smart_parse_url("localhost:8080/path", &s),
        "http://localhost:8080/path"
    );
    assert_eq!(smart_parse_url("127.0.0.1:8080", &s), "http://127.0.0.1:8080/");
    assert_eq!(smart_parse_url("docs.rs/my-crate", &s), "https://docs.rs/my-crate");
    assert_eq!(
        smart_parse_url("file:///Users/test/doc.html", &s),
        "file:///Users/test/doc.html"
    );
    assert_eq!(
        smart_parse_url("data:text/html,<h1>Hello</h1>", &s),
        "data:text/html,<h1>Hello</h1>"
    );
    // A trailing dot is not taken for a domain.
    let dot_encoded = urlencoding::encode("thing.");
    assert_eq!(
        smart_parse_url("thing.", &s),
        format!("https://duckduckgo.com/?q={}", dot_encoded)
    );
}

#[test]
fn test_empty_input_is_blank() {
    let s = Settings::default();
    assert_eq!(smart_parse_url("", &s), "about:blank");
    assert_eq!(smart_parse_url("   ", &s), "about:blank");
}

#[test]
fn test_google_search_engine() {
    let mut settings = Settings::default();
    settings.search_engine = SearchEngine::Google;
    assert_eq!(
        smart_parse_url("test query", &settings),
        "https://google.com/search?q=test%20query"
    );
}

#[test]
fn test_https_only_off() {
    let mut settings = Settings::default();
    settings.https_only = false;
    // When https_only is false, domains should get http://
    assert_eq!(smart_parse_url("example.com", &settings), "http://example.com/");
}

#[test]
fn test_guess_request_type() {
    assert_eq!(guess_request_type("https://example.com/script.js"), "script");
    assert_eq!(guess_request_type("https://example.com/style.css"), "stylesheet");
    assert_eq!(guess_request_type("https://example.com/image.png"), "image");
    assert_eq!(guess_request_type("https://example.com/photo.jpg"), "image");
    assert_eq!(guess_request_type("https://example.com/icon.ico"), "image");
    assert_eq!(guess_request_type("https://example.com/font.woff2"), "font");
    assert_eq!(guess_request_type("https://example.com/video.mp4"), "media");
    assert_eq!(guess_request_type("https://example.com/api/data"), "xmlhttprequest");
    assert_eq!(guess_request_type("https://example.com/page.html"), "other");
}

#[test]
fn test_guess_request_type_case_insensitive() {
    assert_eq!(guess_request_type("https://example.com/SCRIPT.JS"), "script");
    assert_eq!(guess_request_type("https://example.com/IMG.PNG"), "image");
}
