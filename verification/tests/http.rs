use codex_plus_core::helper::{
    helper_request_target, helper_route, http_no_store_response_head, http_response_head,
    http_stream_head, options_response_text, overlay_image_candidate, overlay_image_content_type,
    passthrough_content_type, protocol_proxy_reply, request_read_state, HelperRoute, ProxyReply,
    RequestRead,
};
use codex_plus_core::http::{
    app_server_port_from_url, content_length_from_headers, find_header_end,
    header_value_from_request, http_request_body, rewrite_app_server_ws_request,
    sanitize_diagnostic_event, script_safe_json,
};

#[test]
fn overlay_image_content_type_accepts_common_images_only() {
    assert_eq!(overlay_image_content_type("overlay.PNG"), Some("image/png"));
    assert_eq!(overlay_image_content_type("overlay.jpeg"), Some("image/jpeg"));
    assert_eq!(overlay_image_content_type("overlay.webp"), Some("image/webp"));
    assert_eq!(overlay_image_content_type("overlay.txt"), None);
}

#[test]
fn header_value_from_request_reads_user_agent_case_insensitively() {
    let request = "POST /v1/chat/completions HTTP/1.1\r\nHost: 127.0.0.1\r\nUser-Agent: Codex/26.614\r\nContent-Length: 2\r\n\r\n{}";

    assert_eq!(
        header_value_from_request(request, "user-agent").as_deref(),
        Some("Codex/26.614")
    );
}

#[test]
fn header_value_skips_the_request_line_and_empty_values() {
    let request = "GET /x: HTTP/1.1\r\nX-Empty:   \r\nX-Empty: later\r\n\r\nX-Body: no";
    assert_eq!(header_value_from_request(request, "x-empty"), None);
    assert_eq!(header_value_from_request(request, "x-body"), None);
    assert_eq!(header_value_from_request(request, "get /x"), None);
}

#[test]
fn request_body_follows_the_blank_line() {
    assert_eq!(http_request_body("POST / HTTP/1.1\r\nA: b\r\n\r\n{\"a\":1}"), "{\"a\":1}");
    assert_eq!(http_request_body("POST / HTTP/1.1\r\nA: b\r\n"), "");
}

#[test]
fn header_end_and_content_length_are_read_from_bytes() {
    let request = b"POST / HTTP/1.1\r\ncontent-LENGTH:  12 \r\n\r\nhello";
    let end = find_header_end(request).unwrap();
    assert_eq!(end, 37);
    assert_eq!(content_length_from_headers(&request[..end]), Some(12));
    assert_eq!(find_header_end(b"GET / HTTP/1.1\r\n"), None);
    assert_eq!(content_length_from_headers(b"GET / HTTP/1.1\r\nContent-Length: x"), None);
}

#[test]
fn diagnostic_events_keep_safe_characters_only() {
    assert_eq!(sanitize_diagnostic_event("page.load ok/1"), "page.load_ok_1");
    assert_eq!(sanitize_diagnostic_event(""), "event");
}

#[test]
fn app_server_websocket_request_is_rewritten_for_the_local_port() {
    let request = "GET /app-server/ws HTTP/1.1\r\nHost: example\r\nOrigin: x\r\nUpgrade: websocket\r\nSec-WebSocket-Protocol: p\r\nSec-WebSocket-Key: k\r\n\r\n";
    assert_eq!(
        rewrite_app_server_ws_request(request, 4500),
        "GET /rpc HTTP/1.1\r\nHost: 127.0.0.1:4500\r\nUpgrade: websocket\r\nSec-WebSocket-Key: k\r\n\r\n"
    );
}

#[test]
fn app_server_port_is_read_from_local_urls_only() {
    assert_eq!(app_server_port_from_url(" ws://127.0.0.1:4500/rpc "), Some(4500));
    assert_eq!(app_server_port_from_url("http://localhost:81"), Some(81));
    assert_eq!(app_server_port_from_url("ws://example.com:4500/rpc"), None);
    assert_eq!(app_server_port_from_url("https://127.0.0.1:4500"), None);
    assert_eq!(app_server_port_from_url("ws://127.0.0.1:port"), None);
}

#[test]
fn json_is_made_safe_for_a_script_tag() {
    assert_eq!(
        script_safe_json("{\"a\":\"<b>&\u{2028}\"}"),
        "{\"a\":\"\\u003cb\\u003e\\u0026\\u2028\"}"
    );
}

#[test]
fn request_reading_waits_for_the_announced_body() {
    assert_eq!(request_read_state(b"POST / HTTP/1.1\r\nContent-Length: 4\r\n\r\nab"), RequestRead::NeedMore);
    assert_eq!(request_read_state(b"POST / HTTP/1.1\r\nContent-Length: 4\r\n\r\nabcd"), RequestRead::Complete);
    assert_eq!(request_read_state(b"GET / HTTP/1.1\r\n\r\n"), RequestRead::Complete);
    assert_eq!(request_read_state(b"GET / HTTP/1.1\r\n"), RequestRead::NeedMore);
    let big = vec![b'a'; 32 * 1024 * 1024 + 1];
    assert_eq!(request_read_state(&big), RequestRead::TooLarge);
}

#[test]
fn helper_request_target_drops_the_query() {
    let (method, path) = helper_request_target("GET /mobile?x=1 HTTP/1.1\r\nHost: a\r\n\r\n");
    assert_eq!(method, "GET");
    assert_eq!(path, "/mobile");
    let (method, path) = helper_request_target("");
    assert_eq!(method, "");
    assert_eq!(path, "");
}

#[test]
fn helper_routes_by_method_and_path() {
    assert_eq!(helper_route("GET", "/mobile", false, false, false), HelperRoute::MobilePage);
    assert_eq!(helper_route("POST", "/mobile", false, false, false), HelperRoute::NotFound);
    assert_eq!(helper_route("OPTIONS", "/app-server/rpc", false, false, false), HelperRoute::AppServerRpc);
    assert_eq!(helper_route("POST", "/v1/responses", true, false, false), HelperRoute::ResponsesProxy);
    assert_eq!(helper_route("GET", "/v1/responses", true, false, false), HelperRoute::NotFound);
    assert_eq!(helper_route("POST", "/v1/chat/completions", false, true, false), HelperRoute::ChatCompletionsProxy);
    assert_eq!(helper_route("GET", "/v1/models", false, false, true), HelperRoute::ModelsProxy);
    assert_eq!(helper_route("POST", "/backend/repair", false, false, false), HelperRoute::BackendRepair);
    assert_eq!(helper_route("GET", "/backend/status", false, false, false), HelperRoute::BackendStatus);
    assert_eq!(helper_route("POST", "/diagnostics/log", false, false, false), HelperRoute::DiagnosticsLog);
    assert_eq!(helper_route("GET", "/overlay/image", false, false, false), HelperRoute::OverlayImage);
    assert_eq!(helper_route("GET", "/app-server/ws", false, false, false), HelperRoute::AppServerWebsocket);
    assert_eq!(helper_route("GET", "/app-server/status", false, false, false), HelperRoute::AppServerStatus);
}

#[test]
fn helper_response_heads_carry_cors_headers() {
    let cors = "Access-Control-Allow-Origin: *\r\nAccess-Control-Allow-Methods: GET, POST, OPTIONS\r\nAccess-Control-Allow-Headers: Content-Type, Authorization\r\n";
    assert_eq!(
        http_response_head("200 OK", "text/plain", 5),
        format!("HTTP/1.1 200 OK\r\nContent-Type: text/plain\r\n{cors}Content-Length: 5\r\nConnection: close\r\n\r\n")
    );
    assert_eq!(
        http_no_store_response_head("200 OK", "text/html", 0),
        format!("HTTP/1.1 200 OK\r\nContent-Type: text/html\r\nCache-Control: no-store\r\n{cors}Content-Length: 0\r\nConnection: close\r\n\r\n")
    );
    assert_eq!(
        http_stream_head("200 OK", "text/event-stream"),
        format!("HTTP/1.1 200 OK\r\nContent-Type: text/event-stream\r\nCache-Control: no-cache\r\n{cors}Connection: close\r\n\r\n")
    );
    assert_eq!(
        options_response_text(),
        format!("HTTP/1.1 204 No Content\r\n{cors}Content-Length: 0\r\nConnection: close\r\n\r\n")
    );
}

#[test]
fn overlay_candidate_needs_an_enabled_image_path() {
    assert_eq!(
        overlay_image_candidate(true, "  /tmp/a.GIF "),
        Some(("/tmp/a.GIF".to_string(), "image/gif"))
    );
    assert_eq!(overlay_image_candidate(false, "/tmp/a.gif"), None);
    assert_eq!(overlay_image_candidate(true, "   "), None);
    assert_eq!(overlay_image_candidate(true, "/tmp/a.svg"), None);
}

#[test]
fn protocol_proxy_reply_follows_the_upstream() {
    assert_eq!(protocol_proxy_reply(false, true, true, true), ProxyReply::BadGateway);
    assert_eq!(protocol_proxy_reply(true, false, true, true), ProxyReply::UpstreamError);
    assert_eq!(protocol_proxy_reply(true, true, true, true), ProxyReply::StreamPassthrough);
    assert_eq!(protocol_proxy_reply(true, true, true, false), ProxyReply::StreamConverted);
    assert_eq!(protocol_proxy_reply(true, true, false, true), ProxyReply::BodyPassthrough);
    assert_eq!(protocol_proxy_reply(true, true, false, false), ProxyReply::BodyConverted);
    assert_eq!(ProxyReply::StreamConverted.log_event(), "helper.protocol_proxy_stream_ok");
    assert_eq!(ProxyReply::BadGateway.log_event(), "helper.protocol_proxy_failed");
    assert_eq!(passthrough_content_type(""), "application/json; charset=utf-8");
    assert_eq!(passthrough_content_type("text/plain"), "text/plain");
}
