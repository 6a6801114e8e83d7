use sovereign_core::allowlist::{render_allowlist_json, RuleExpiry};
use sovereign_core::manager::AdBlockManager;

const NOW: u64 = 1_700_000_000;

fn manager_with_rules(texts: &[&str]) -> AdBlockManager {
    let mut m = AdBlockManager::new();
    let texts: Vec<String> = texts.iter().map(|t| t.to_string()).collect();
    let artifacts = m.apply_update(&texts, false);
    assert!(artifacts.is_some());
    m
}

#[test]
fn test_blocks_matching_request() {
    let m = manager_with_rules(&["||ads.example.com^"]);
    assert!(m.should_block_request(
        "https://ads.example.com/banner.js",
        "https://news.example/",
        "script",
        NOW
    ));
    assert!(!m.should_block_request(
        "https://img.example.com/logo.png",
        "https://news.example/",
        "image",
        NOW
    ));
}

#[test]
fn test_allowlist_overrides_blocking() {
    // End to end: the rule blocks, then a permanent exception for the
    // initiator's domain turns the same query off.
    let mut m = manager_with_rules(&["||ads.example.com^"]);
    assert!(m.should_block_request(
        "https://ads.example.com/banner.js",
        "https://news.example/",
        "script",
        NOW
    ));
    m.add_exception("news.example".to_string(), None, NOW);
    assert!(!m.should_block_request(
        "https://ads.example.com/banner.js",
        "https://news.example/",
        "script",
        NOW
    ));
}

#[test]
fn test_timed_exception_active_then_expired() {
    let mut m = manager_with_rules(&["||ads.example.com^"]);
    m.add_exception("news.example".to_string(), Some(3600), NOW);
    // In force strictly before the deadline.
    assert!(!m.should_block_request(
        "https://ads.example.com/banner.js",
        "https://news.example/",
        "script",
        NOW + 3599
    ));
    assert!(m.is_exception("https://news.example/", NOW + 3599));
    // At and after the deadline the entry is as if absent.
    assert!(m.should_block_request(
        "https://ads.example.com/banner.js",
        "https://news.example/",
        "script",
        NOW + 3600
    ));
    assert!(!m.is_exception("https://news.example/", NOW + 3600));
}

#[test]
fn test_malformed_urls_fail_open() {
    let m = manager_with_rules(&["||ads.example.com^"]);
    assert!(!m.should_block_request("not a url", "also not a url", "script", NOW));
    assert!(!m.should_block_request("not a url", "https://news.example/", "script", NOW));
}

#[test]
fn test_empty_fetch_changes_nothing() {
    // If every fetched text is empty, the run is abandoned: the engine and
    // the declarative document afterwards are identical to before.
    let mut m = manager_with_rules(&["||ads.example.com^"]);
    let safari_before = m.get_safari_rules();
    let blocked_before = m.should_block_request(
        "https://ads.example.com/banner.js",
        "https://news.example/",
        "script",
        NOW,
    );

    let empty: Vec<String> = vec![String::new(), String::new()];
    let outcome = m.apply_update(&empty, true);
    assert!(outcome.is_none());

    assert_eq!(m.get_safari_rules(), safari_before);
    assert_eq!(
        m.should_block_request(
            "https://ads.example.com/banner.js",
            "https://news.example/",
            "script",
            NOW
        ),
        blocked_before
    );
}

#[test]
fn test_same_text_compiles_identically() {
    // Compiling the same filter text twice classifies every probe alike.
    let m1 = manager_with_rules(&["||ads.example.com^", "example.com##.banner"]);
    let m2 = manager_with_rules(&["||ads.example.com^", "example.com##.banner"]);
    let probes = [
        ("https://ads.example.com/banner.js", "https://news.example/", "script"),
        ("https://example.com/a.js", "https://example.com/", "script"),
        ("https://cdn.example.org/x.png", "https://example.com/", "image"),
    ];
    for (url, src, ty) in probes {
        assert_eq!(
            m1.should_block_request(url, src, ty, NOW),
            m2.should_block_request(url, src, ty, NOW)
        );
    }
    assert_eq!(
        m1.get_cosmetic_css("https://example.com/", NOW),
        m2.get_cosmetic_css("https://example.com/", NOW)
    );
}

#[test]
fn test_cosmetic_css_and_exemptions() {
    let mut m = manager_with_rules(&["example.com##.banner"]);
    let css = m.get_cosmetic_css("https://example.com/", NOW);
    assert!(css.contains(".banner { display: none !important; }\n"));

    // An allowlisted page gets no hiding rules, whatever is compiled.
    m.add_exception("example.com".to_string(), None, NOW);
    assert_eq!(m.get_cosmetic_css("https://example.com/", NOW), "");

    // The webmail context is always exempt.
    assert_eq!(m.get_cosmetic_css("https://mail.google.com/mail/u/0/", NOW), "");
    assert_eq!(m.get_cosmetic_css("https://gmail.com/", NOW), "");
}

#[test]
fn test_engine_cache_round_trip() {
    let mut m = manager_with_rules(&["||ads.example.com^"]);
    let artifacts = m.apply_update(&vec!["||ads.example.com^".to_string()], false).unwrap();

    let mut fresh = AdBlockManager::new();
    assert!(!fresh.should_block_request(
        "https://ads.example.com/banner.js",
        "https://news.example/",
        "script",
        NOW
    ));
    assert!(fresh.install_engine_cache(&artifacts.engine_bytes));
    assert!(fresh.should_block_request(
        "https://ads.example.com/banner.js",
        "https://news.example/",
        "script",
        NOW
    ));
}

#[test]
fn test_engine_cache_rejects_garbage() {
    let mut m = AdBlockManager::new();
    assert!(!m.install_engine_cache(&[0u8, 1, 2, 3, 4, 5]));
}

#[test]
fn test_set_site_exception_commands() {
    let mut m = AdBlockManager::new();

    m.set_site_exception("https://news.example/page", "1hour", NOW);
    let entries = m.get_exceptions();
    assert_eq!(entries.len(), 1);
    assert_eq!(entries[0].0, "news.example");
    assert_eq!(entries[0].1, RuleExpiry::Until(NOW + 3600));

    m.set_site_exception("https://news.example/", "24hours", NOW);
    let entries = m.get_exceptions();
    assert_eq!(entries[0].1, RuleExpiry::Until(NOW + 86400));

    m.set_site_exception("https://news.example/", "forever", NOW);
    let entries = m.get_exceptions();
    assert_eq!(entries[0].1, RuleExpiry::Forever);

    // An unknown word changes nothing.
    m.set_site_exception("https://news.example/", "sometimes", NOW);
    assert_eq!(m.get_exceptions().len(), 1);

    m.set_site_exception("https://news.example/", "off", NOW);
    assert_eq!(m.get_exceptions().len(), 0);

    // A URL without a registrable domain changes nothing.
    m.set_site_exception("not a url", "forever", NOW);
    assert_eq!(m.get_exceptions().len(), 0);
}

#[test]
fn test_remove_exception() {
    let mut m = AdBlockManager::new();
    m.add_exception("a.example".to_string(), None, NOW);
    m.add_exception("b.example".to_string(), Some(60), NOW);
    assert_eq!(m.get_exceptions().len(), 2);
    m.remove_exception("a.example");
    let entries = m.get_exceptions();
    assert_eq!(entries.len(), 1);
    assert_eq!(entries[0].0, "b.example");
}

#[test]
fn test_insert_same_domain_overwrites() {
    let mut m = AdBlockManager::new();
    m.add_exception("news.example".to_string(), Some(60), NOW);
    m.add_exception("news.example".to_string(), None, NOW);
    let entries = m.get_exceptions();
    assert_eq!(entries.len(), 1);
    assert_eq!(entries[0].1, RuleExpiry::Forever);
}

#[test]
fn test_rule_expiry_is_active() {
    assert!(RuleExpiry::Forever.is_active(u64::MAX));
    assert!(RuleExpiry::Until(10).is_active(9));
    assert!(!RuleExpiry::Until(10).is_active(10));
    assert!(!RuleExpiry::Until(10).is_active(11));
}

#[test]
fn test_allowlist_json_document() {
    let mut m = AdBlockManager::new();
    assert_eq!(m.allowlist_json(), "{}");

    m.add_exception("news.example".to_string(), None, NOW);
    assert_eq!(m.allowlist_json(), "{\"news.example\":\"Forever\"}");

    m.add_exception("ads.example".to_string(), Some(10), NOW);
    let doc = m.allowlist_json();
    // Two entries, in whatever order the concurrent map yields them.
    let a = format!("{{\"news.example\":\"Forever\",\"ads.example\":{{\"Until\":{}}}}}", NOW + 10);
    let b = format!("{{\"ads.example\":{{\"Until\":{}}},\"news.example\":\"Forever\"}}", NOW + 10);
    assert!(doc == a || doc == b, "unexpected document: {doc}");
}

#[test]
fn test_render_allowlist_json_escapes() {
    let entries = vec![
        ("a\"b.example".to_string(), RuleExpiry::Forever),
        ("c\\d.example".to_string(), RuleExpiry::Until(5)),
    ];
    assert_eq!(
        render_allowlist_json(&entries),
        "{\"a\\\"b.example\":\"Forever\",\"c\\\\d.example\":{\"Until\":5}}"
    );
}

#[test]
fn test_saturating_exception_deadline() {
    let mut m = AdBlockManager::new();
    m.add_exception("news.example".to_string(), Some(u64::MAX), 10);
    let entries = m.get_exceptions();
    assert_eq!(entries[0].1, RuleExpiry::Until(u64::MAX));
}

#[test]
fn test_store_then_load_sees_latest() {
    // The engine holder serves whole snapshots: after a publish, queries see
    // the new rules; before any publish, the empty engine blocks nothing.
    let mut m = AdBlockManager::new();
    assert!(!m.should_block_request(
        "https://ads.example.com/banner.js",
        "https://news.example/",
        "script",
        NOW
    ));
    m.apply_update(&vec!["||ads.example.com^".to_string()], false);
    assert!(m.should_block_request(
        "https://ads.example.com/banner.js",
        "https://news.example/",
        "script",
        NOW
    ));
}

#[test]
fn test_webmail_filters_always_injected() {
    // The fixed exception lines ride along with every compiled engine: a
    // blanket third-party rule must not block Google infrastructure on the
    // webmail pages.
    let m = manager_with_rules(&["||gstatic.com^"]);
    assert!(m.should_block_request(
        "https://gstatic.com/x.js",
        "https://news.example/",
        "script",
        NOW
    ));
    assert!(!m.should_block_request(
        "https://gstatic.com/x.js",
        "https://mail.google.com/",
        "script",
        NOW
    ));
}
