use sovereign_core::tabs::{generate_tab_id, reorder_logic, Tab};

fn create_test_tab(id: &str, title: &str) -> Tab {
    Tab {
        id: id.to_string(),
        webview_label: format!("webview-{}", id),
        title: title.to_string(),
        url: "https://example.com".to_string(),
        favicon: None,
        last_accessed: Some(0),
        is_loading: false,
        can_go_back: false,
        can_go_forward: false,
        last_focus_was_content: true,
        screenshot: None,
    }
}

#[test]
fn test_reorder_logic() {
    let mut tabs = vec![
        create_test_tab("tab-1", "Tab 1"),
        create_test_tab("tab-2", "Tab 2"),
        create_test_tab("tab-3", "Tab 3"),
    ];

    let new_order = vec!["tab-3".to_string(), "tab-1".to_string(), "tab-2".to_string()];
    let changed = reorder_logic(&mut tabs, &new_order);

    assert!(changed);
    assert_eq!(tabs[0].id, "tab-3");
    assert_eq!(tabs[1].id, "tab-1");
    assert_eq!(tabs[2].id, "tab-2");
}

#[test]
fn test_reorder_with_missing_id() {
    let mut tabs = vec![
        create_test_tab("tab-1", "Tab 1"),
        create_test_tab("tab-2", "Tab 2"),
        create_test_tab("tab-3", "Tab 3"),
    ];

    let new_order = vec!["tab-3".to_string(), "tab-1".to_string()];
    let changed = reorder_logic(&mut tabs, &new_order);

    assert!(changed);
    assert_eq!(tabs[0].id, "tab-3");
    assert_eq!(tabs[1].id, "tab-1");
    assert_eq!(tabs[2].id, "tab-2");
    assert_eq!(tabs.len(), 3);
}

#[test]
fn test_no_change() {
    let mut tabs = vec![
        create_test_tab("tab-1", "Tab 1"),
        create_test_tab("tab-2", "Tab 2"),
    ];

    let new_order = vec!["tab-1".to_string(), "tab-2".to_string()];
    let changed = reorder_logic(&mut tabs, &new_order);

    assert!(!changed);
    assert_eq!(tabs[0].id, "tab-1");
    assert_eq!(tabs[1].id, "tab-2");
}

#[test]
fn test_empty_new_order() {
    let mut tabs = vec![create_test_tab("tab-1", "Tab 1")];
    let new_order: Vec<String> = vec![];

    let changed = reorder_logic(&mut tabs, &new_order);
    assert!(!changed);
    assert_eq!(tabs.len(), 1);
}

#[test]
fn test_reorder_unknown_ids_only() {
    let mut tabs = vec![
        create_test_tab("tab-1", "Tab 1"),
        create_test_tab("tab-2", "Tab 2"),
    ];

    let new_order = vec!["tab-9".to_string()];
    let changed = reorder_logic(&mut tabs, &new_order);

    assert!(!changed);
    assert_eq!(tabs[0].id, "tab-1");
    assert_eq!(tabs[1].id, "tab-2");
}

#[test]
fn test_generate_tab_id() {
    assert_eq!(generate_tab_id(0), "tab-0");
    assert_eq!(generate_tab_id(1234567890), "tab-1234567890");
}
