use sovereign_core::closed_tabs::{ClosedTab, ClosedTabsStore, MAX_CLOSED_TABS};
use sovereign_core::tabs::Tab;

fn make_tab(id: &str, title: &str, url: &str) -> Tab {
    Tab {
        id: id.to_string(),
        webview_label: format!("webview-{}", id),
        title: title.to_string(),
        url: url.to_string(),
        favicon: Some("data:image/png;base64,AAAA".to_string()),
        last_accessed: Some(0),
        is_loading: false,
        can_go_back: false,
        can_go_forward: false,
        last_focus_was_content: false,
        screenshot: None,
    }
}

#[test]
fn test_from_tab_carries_fields() {
    let tab = make_tab("tab-1", "Docs", "https://docs.example/");
    let closed = ClosedTab::from_tab(&tab, 42);
    assert_eq!(closed.id, "tab-1");
    assert_eq!(closed.title, "Docs");
    assert_eq!(closed.url, "https://docs.example/");
    assert_eq!(closed.favicon, Some("data:image/png;base64,AAAA".to_string()));
    assert_eq!(closed.closed_at, 42);
}

#[test]
fn test_archive_and_restore_cycle() {
    let mut store = ClosedTabsStore::new();
    assert_eq!(store.closed_tab_count(), 0);
    assert!(store.pop_closed_tab().is_none());

    store.archive_tab(&make_tab("tab-1", "One", "https://one.example/"), 1);
    store.archive_tab(&make_tab("tab-2", "Two", "https://two.example/"), 2);
    assert_eq!(store.closed_tab_count(), 2);

    // Last in, first out.
    let restored = store.pop_closed_tab().unwrap();
    assert_eq!(restored.id, "tab-2");
    let restored = store.pop_closed_tab().unwrap();
    assert_eq!(restored.id, "tab-1");
    assert!(store.pop_closed_tab().is_none());
}

#[test]
fn test_archive_drops_oldest_past_limit() {
    let mut store = ClosedTabsStore::new();
    for i in 0..(MAX_CLOSED_TABS + 3) {
        let id = format!("tab-{}", i);
        store.archive_tab(&make_tab(&id, "T", "https://t.example/"), i as u64);
    }
    assert_eq!(store.closed_tab_count(), MAX_CLOSED_TABS);
    // The oldest three fell out; the newest is on top.
    let top = store.pop_closed_tab().unwrap();
    assert_eq!(top.id, format!("tab-{}", MAX_CLOSED_TABS + 2));
    let mut last_seen = top.id.clone();
    while let Some(t) = store.pop_closed_tab() {
        last_seen = t.id.clone();
    }
    assert_eq!(last_seen, "tab-3");
}
