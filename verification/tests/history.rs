use sovereign_core::history::{normalize_url, HistoryEntry, HistoryStore};

const NOW: u64 = 1_700_000_000;
const DAY: u64 = 86_400;

#[test]
fn test_normalize_url_idempotent() {
    let once = normalize_url("https://example.com");
    assert_eq!(once, "https://example.com/");
    assert_eq!(normalize_url(&once), once);
    // Text that does not parse stays as it is, so a second pass changes
    // nothing either.
    let raw = normalize_url("not a url");
    assert_eq!(raw, "not a url");
    assert_eq!(normalize_url(&raw), raw);
}

#[test]
fn test_add_visit_creates_and_updates() {
    let mut store = HistoryStore::new();

    let first = store.add_visit(
        "https://example.com".to_string(),
        Some("Example".to_string()),
        true,
        NOW,
    );
    // The key is the parser's serialization.
    assert_eq!(first.url, "https://example.com/");
    assert_eq!(first.title, "Example");
    assert_eq!(first.last_visit, NOW);
    assert_eq!(first.visit_count, 1);
    assert_eq!(first.typed_count, 1);

    // A repeat visit bumps the counts; an absent title keeps the old one.
    let second = store.add_visit("https://example.com/".to_string(), None, false, NOW + 5);
    assert_eq!(second.url, "https://example.com/");
    assert_eq!(second.title, "Example");
    assert_eq!(second.last_visit, NOW + 5);
    assert_eq!(second.visit_count, 2);
    assert_eq!(second.typed_count, 1);

    // An empty new title keeps the old one too.
    let third = store.add_visit(
        "https://example.com".to_string(),
        Some(String::new()),
        false,
        NOW + 9,
    );
    assert_eq!(third.title, "Example");
    assert_eq!(third.visit_count, 3);
}

#[test]
fn test_load_entries_later_record_wins() {
    let mut store = HistoryStore::new();
    store.load_entries(vec![
        HistoryEntry {
            url: "https://a.example/".to_string(),
            title: "old".to_string(),
            last_visit: 1,
            visit_count: 1,
            typed_count: 0,
        },
        HistoryEntry {
            url: "https://b.example/".to_string(),
            title: "b".to_string(),
            last_visit: 2,
            visit_count: 4,
            typed_count: 1,
        },
        HistoryEntry {
            url: "https://a.example/".to_string(),
            title: "new".to_string(),
            last_visit: 3,
            visit_count: 7,
            typed_count: 2,
        },
    ]);

    let results = store.search("a.example".to_string(), 10, NOW);
    assert_eq!(results.len(), 1);
    assert_eq!(results[0].title, "new");
}

#[test]
fn test_search_scores_and_orders() {
    let mut store = HistoryStore::new();
    store.add_visit(
        "https://google.com".to_string(),
        Some("Google".to_string()),
        true,
        NOW,
    );
    store.add_visit(
        "https://blog.example/about-google-maps".to_string(),
        Some("Maps post".to_string()),
        false,
        NOW,
    );
    store.add_visit(
        "https://unrelated.example/".to_string(),
        Some("Nothing here".to_string()),
        false,
        NOW,
    );

    let results = store.search("goo".to_string(), 10, NOW);
    assert_eq!(results.len(), 2);
    // The scheme-less prefix match outranks the substring match.
    assert_eq!(results[0].url, "https://google.com/");
    assert!(results[0].is_ghost_candidate);
    // Strong match, typed once, visited once, zero days old:
    // 5000 + 500 + 1000 + 10.
    assert_eq!(results[0].score, 6510);
    assert_eq!(results[1].url, "https://blog.example/about-google-maps");
    assert!(!results[1].is_ghost_candidate);
    // Weak match, never typed, visited once, zero days old:
    // 100 + 0 + 1000 + 10.
    assert_eq!(results[1].score, 1110);
}

#[test]
fn test_search_host_prefix_counts_as_strong() {
    let mut store = HistoryStore::new();
    // The scheme is not one the stripper removes, so only the host makes
    // this a strong match.
    store.add_visit("ftp://files.example/pub".to_string(), None, false, NOW);
    let results = store.search("files".to_string(), 10, NOW);
    assert_eq!(results.len(), 1);
    assert!(results[0].is_ghost_candidate);
    assert_eq!(results[0].score, 5000 + 1000 + 10);
}

#[test]
fn test_search_is_case_insensitive() {
    let mut store = HistoryStore::new();
    store.add_visit(
        "https://docs.example/RUST-Guide".to_string(),
        Some("The Guide".to_string()),
        false,
        NOW,
    );
    assert_eq!(store.search("rust-guide".to_string(), 10, NOW).len(), 1);
    assert_eq!(store.search("THE GUIDE".to_string(), 10, NOW).len(), 1);
    assert_eq!(store.search("absent".to_string(), 10, NOW).len(), 0);
}

#[test]
fn test_search_recency_decay() {
    let mut store = HistoryStore::new();
    store.add_visit("https://old.example/".to_string(), None, false, NOW - 30 * DAY);
    store.add_visit("https://new.example/".to_string(), None, false, NOW);

    let results = store.search("example".to_string(), 10, NOW);
    assert_eq!(results.len(), 2);
    assert_eq!(results[0].url, "https://new.example/");
    // 30 days cost 300 of the 1000 recency points.
    assert_eq!(results[0].score - results[1].score, 300);
}

#[test]
fn test_search_limit_takes_best() {
    let mut store = HistoryStore::new();
    store.add_visit("https://one.example/".to_string(), None, true, NOW);
    store.add_visit("https://two.example/".to_string(), None, false, NOW);
    store.add_visit("https://three.example/".to_string(), None, false, NOW);

    let results = store.search("example".to_string(), 1, NOW);
    assert_eq!(results.len(), 1);
    // The typed entry scores highest and survives the cut.
    assert_eq!(results[0].url, "https://one.example/");
}
