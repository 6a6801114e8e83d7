use sovereign_core::devtools::DevToolsManager;

#[test]
fn test_bootstrapper_points_at_bridge_port() {
    let manager = DevToolsManager::new(9876, "console.log('test');".to_string());
    let script = manager.get_bootstrapper();
    assert!(script.contains("http://127.0.0.1:9876/target.js"));
    assert!(script.contains("__SOVEREIGN_DEVTOOLS_READY__"));
    assert!(script.contains("__SOVEREIGN_LOAD_DEVTOOLS__"));
}

#[test]
fn test_recognizes_target_js_request() {
    assert!(DevToolsManager::is_target_js_request(
        "GET /target.js HTTP/1.1\r\nHost: 127.0.0.1:9876\r\n\r\n"
    ));
    assert!(!DevToolsManager::is_target_js_request(
        "GET / HTTP/1.1\r\nUpgrade: websocket\r\n\r\n"
    ));
    assert!(!DevToolsManager::is_target_js_request("POST /target.js HTTP/1.1\r\n\r\n"));
}

#[test]
fn test_http_response_serves_js() {
    let manager = DevToolsManager::new(9876, "console.log('test');".to_string());
    let response = manager.http_js_response();
    assert_eq!(
        response,
        format!(
            "HTTP/1.1 200 OK\r\nContent-Type: application/javascript\r\nContent-Length: {}\r\nAccess-Control-Allow-Origin: *\r\n\r\n{}",
            "console.log('test');".len(),
            "console.log('test');"
        )
    );
}
