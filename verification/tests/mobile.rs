use codex_plus_core::mobile::{
    env_or_setting, parse_mobile_relay_http_response, parse_mobile_relay_http_response_text,
    percent_encode_query, MobileRelayHostConfig,
};

#[test]
fn mobile_relay_host_url_appends_host_path_and_credentials() {
    let config = MobileRelayHostConfig {
        relay_url: "ws://example.test:57323".to_string(),
        room: "项目 A".to_string(),
        token: "a+b&c".to_string(),
        encryption_key: "test-key".to_string(),
    };
    assert_eq!(
        config.host_url(),
        "ws://example.test:57323/host?room=%E9%A1%B9%E7%9B%AE%20A&token=a%2Bb%26c"
    );
}

#[test]
fn mobile_relay_percent_encode_keeps_url_safe_bytes() {
    assert_eq!(percent_encode_query("abc-._~ 1+2"), "abc-._~%201%2B2");
}

#[test]
fn host_url_keeps_an_existing_host_path_and_query() {
    let config = MobileRelayHostConfig {
        relay_url: "wss://relay.test/host?x=1".to_string(),
        room: "r".to_string(),
        token: "t".to_string(),
        encryption_key: "k".to_string(),
    };
    assert_eq!(config.host_url(), "wss://relay.test/host?x=1&room=r&token=t");
    let config = MobileRelayHostConfig {
        relay_url: "wss://relay.test//".to_string(),
        room: "r".to_string(),
        token: "t".to_string(),
        encryption_key: "k".to_string(),
    };
    assert_eq!(config.host_url(), "wss://relay.test/host?room=r&token=t");
}

#[test]
fn environment_value_wins_over_setting_when_not_blank() {
    assert_eq!(env_or_setting(Some("  env  "), "setting"), Some("env".to_string()));
    assert_eq!(env_or_setting(Some("   "), " setting "), Some("setting".to_string()));
    assert_eq!(env_or_setting(None, "  "), None);
}

#[test]
fn helper_response_is_split_into_status_headers_and_body() {
    let response = parse_mobile_relay_http_response(
        b"HTTP/1.1 201 Created\r\nContent-Type: text/plain\r\nX-A : b \r\n\r\nhello",
    )
    .unwrap();
    assert_eq!(response.status, 201);
    assert_eq!(
        response.headers,
        vec![
            ("content-type".to_string(), "text/plain".to_string()),
            ("x-a".to_string(), "b".to_string())
        ]
    );
    assert_eq!(response.body, "hello");
}

#[test]
fn helper_response_without_status_defaults_to_bad_gateway() {
    let response = parse_mobile_relay_http_response_text("garbage\r\n\r\n").unwrap();
    assert_eq!(response.status, 502);
    assert!(parse_mobile_relay_http_response_text("no blank line").is_err());
}
