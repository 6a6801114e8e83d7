use sovereign_core::manager::AdBlockManager;
use sovereign_core::safari::{augment_cb_document, build_anchored_pattern, build_exception_rule};

#[test]
fn test_anchored_pattern_escapes_dots() {
    assert_eq!(
        build_anchored_pattern("google.com"),
        "^https?://([^/]*\\.)?google\\.com(/|$)"
    );
    assert_eq!(
        build_anchored_pattern("googleusercontent.com"),
        "^https?://([^/]*\\.)?googleusercontent\\.com(/|$)"
    );
}

#[test]
fn test_anchored_pattern_bare_word() {
    // A domain without a dot is matched exactly, without the subdomain
    // group.
    assert_eq!(build_anchored_pattern("localhost"), "^https?://localhost(/|$)");
}

#[test]
fn test_exception_rule_shape() {
    let rule = build_exception_rule("google.com");
    assert_eq!(
        rule,
        "{\"trigger\":{\"url-filter\":\"^https?://([^/]*\\\\.)?google\\\\.com(/|$)\",\
         \"if-domain\":[\"*mail.google.com\",\"*gmail.com\"]},\
         \"action\":{\"type\":\"allow\"}}"
    );
    // The rule is well-formed JSON.
    assert!(serde_json::from_str::<serde_json::Value>(&rule).is_ok());
}

#[test]
fn test_augment_empty_document() {
    let doc = augment_cb_document("[]");
    assert!(doc.starts_with("[{\"trigger\""));
    assert!(doc.ends_with("}]"));
    let parsed: serde_json::Value = serde_json::from_str(&doc).unwrap();
    assert_eq!(parsed.as_array().unwrap().len(), 5);
}

#[test]
fn test_augment_keeps_base_rules_first() {
    let doc = augment_cb_document("[{\"base\":1}]");
    assert!(doc.starts_with("[{\"base\":1},{\"trigger\""));
    let parsed: serde_json::Value = serde_json::from_str(&doc).unwrap();
    assert_eq!(parsed.as_array().unwrap().len(), 6);
}

#[test]
fn test_declarative_compilation_synthesizes_webmail_allows() {
    // A compiled filter set plus the fixed webmail exceptions must yield at
    // least one synthesized allow-rule whose trigger anchors google.com and
    // whose if-domain names the webmail context.
    let mut m = AdBlockManager::new();
    let texts = vec!["||ads.example.com^".to_string()];
    let artifacts = m.apply_update(&texts, true).unwrap();
    let doc = artifacts.safari_json.unwrap();

    assert!(doc.contains("^https?://([^/]*\\\\.)?google\\\\.com(/|$)"));
    assert!(doc.contains("\"if-domain\":[\"*mail.google.com\",\"*gmail.com\"]"));
    assert!(doc.contains("\"type\":\"allow\""));

    // The document is one well-formed JSON array, and it is what the cache
    // now serves.
    let parsed: serde_json::Value = serde_json::from_str(&doc).unwrap();
    assert!(parsed.as_array().unwrap().len() >= 5);
    assert_eq!(m.get_safari_rules(), doc);
}

#[test]
fn test_declarative_document_keeps_converted_rules() {
    // The published document carries the converted rules' url-filter
    // members as well as the five synthesized allow-rules.
    let mut m = AdBlockManager::new();
    let texts = vec!["||ads.example.com^".to_string()];
    let artifacts = m.apply_update(&texts, true).unwrap();
    let doc = artifacts.safari_json.unwrap();
    let url_filter_members = doc.matches("\"url-filter\":\"").count();
    assert!(url_filter_members >= 6, "only {url_filter_members} url-filter members in {doc}");
    assert!(doc.contains("ads"));
}

#[test]
fn test_no_declarative_document_when_not_asked() {
    let mut m = AdBlockManager::new();
    let texts = vec!["||ads.example.com^".to_string()];
    let artifacts = m.apply_update(&texts, false).unwrap();
    assert!(artifacts.safari_json.is_none());
    assert_eq!(m.get_safari_rules(), "[]");
}
