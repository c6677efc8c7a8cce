use codex_plus_core::host::{
    app_server_event_thread_id, app_server_message_parts, app_server_turn_finished_for_thread,
    host_request_kind, mobile_model_catalog, mobile_relay_http_wire, next_retry_delay_ms,
    requested_session_id, runtime_evaluate_result_is_true, HostRequestKind,
};
use codex_plus_core::json::JsonValue;

fn object(members: Vec<(&str, JsonValue)>) -> JsonValue {
    JsonValue::Object(members.into_iter().map(|(k, v)| (k.to_string(), v)).collect())
}

fn text(s: &str) -> JsonValue {
    JsonValue::Str(s.to_string())
}

#[test]
fn host_requests_are_dispatched_on_their_type() {
    assert_eq!(host_request_kind(&object(vec![("type", text("httpRequest"))])), HostRequestKind::HttpRequest);
    assert_eq!(host_request_kind(&object(vec![("type", text("appServerConnect"))])), HostRequestKind::AppServerConnect);
    assert_eq!(host_request_kind(&object(vec![("type", text("appServerMessage"))])), HostRequestKind::AppServerMessage);
    assert_eq!(host_request_kind(&object(vec![("type", text("appServerClose"))])), HostRequestKind::AppServerClose);
    assert_eq!(host_request_kind(&object(vec![("type", text("other"))])), HostRequestKind::Ignored);
    assert_eq!(host_request_kind(&JsonValue::Null), HostRequestKind::Ignored);
}

#[test]
fn proxied_requests_become_helper_http_requests() {
    let request = object(vec![
        ("method", text("post")),
        ("path", text("/backend/status")),
        ("body", text("{\"a\":\"é\"}")),
        ("headers", object(vec![("Content-Type", text("text/plain"))])),
    ]);
    assert_eq!(
        mobile_relay_http_wire(&request, 57321),
        "POST /backend/status HTTP/1.1\r\nHost: 127.0.0.1:57321\r\nContent-Type: text/plain\r\nContent-Length: 10\r\nConnection: close\r\n\r\n{\"a\":\"é\"}"
    );
    let bare = object(vec![("path", text("relative"))]);
    assert_eq!(
        mobile_relay_http_wire(&bare, 1),
        "GET / HTTP/1.1\r\nHost: 127.0.0.1:1\r\nContent-Type: application/json; charset=utf-8\r\nContent-Length: 0\r\nConnection: close\r\n\r\n"
    );
}

#[test]
fn sessions_and_messages_need_string_ids() {
    assert_eq!(requested_session_id(&object(vec![("sessionId", text("s1"))])), Some("s1".to_string()));
    assert_eq!(requested_session_id(&object(vec![("sessionId", text(""))])), None);
    assert_eq!(
        app_server_message_parts(&object(vec![("sessionId", text("s")), ("message", text("m"))])),
        Some(("s".to_string(), "m".to_string()))
    );
    assert_eq!(app_server_message_parts(&object(vec![("sessionId", text("s"))])), None);
}

#[test]
fn runtime_evaluate_reads_the_nested_value() {
    let yes = object(vec![(
        "result",
        object(vec![("result", object(vec![("value", JsonValue::Bool(true))]))]),
    )]);
    assert!(runtime_evaluate_result_is_true(&yes));
    let no = object(vec![("result", object(vec![("result", object(vec![("value", text("true"))]))]))]);
    assert!(!runtime_evaluate_result_is_true(&no));
    assert!(!runtime_evaluate_result_is_true(&JsonValue::Null));
}

#[test]
fn thread_ids_are_found_in_several_places() {
    let direct = object(vec![("params", object(vec![("threadId", text("t1"))]))]);
    assert_eq!(app_server_event_thread_id(&direct), Some("t1".to_string()));
    let nested = object(vec![("params", object(vec![("turn", object(vec![("thread_id", text("t2"))]))]))]);
    assert_eq!(app_server_event_thread_id(&nested), Some("t2".to_string()));
    let number = object(vec![("params", object(vec![("threadId", JsonValue::Number("3".to_string()))]))]);
    assert_eq!(app_server_event_thread_id(&number), None);
    assert_eq!(app_server_event_thread_id(&object(vec![])), None);
}

#[test]
fn turns_end_with_completion_or_idle_status() {
    let completed = object(vec![
        ("method", text("turn/completed")),
        ("params", object(vec![("threadId", text("t1"))])),
    ]);
    assert!(app_server_turn_finished_for_thread(&completed, "", Some("t1")));
    assert!(!app_server_turn_finished_for_thread(&completed, "", Some("t2")));
    assert!(app_server_turn_finished_for_thread(&completed, "", None));
    let busy = object(vec![
        ("method", text("thread/status/changed")),
        ("params", object(vec![("status", text("running"))])),
    ]);
    assert!(!app_server_turn_finished_for_thread(&busy, "", None));
    let idle = object(vec![
        ("method", text("thread/status/changed")),
        ("params", object(vec![("status", text("idle"))])),
    ]);
    assert!(app_server_turn_finished_for_thread(&idle, "{\"x\":\"t9\"}", Some("t9")));
    let delta = object(vec![("method", text("item/delta"))]);
    assert!(!app_server_turn_finished_for_thread(&delta, "", None));
}

#[test]
fn retry_delay_doubles_up_to_thirty_seconds() {
    assert_eq!(next_retry_delay_ms(1000), 2000);
    assert_eq!(next_retry_delay_ms(16000), 30000);
    assert_eq!(next_retry_delay_ms(30000), 30000);
}

#[test]
fn model_catalog_lists_each_model_once() {
    let catalog = mobile_model_catalog("gpt-a, gpt-b\r\n\ngpt-a", " gpt-c ", " relay ", "  ");
    assert_eq!(catalog.status, "ok");
    assert_eq!(catalog.models, vec!["gpt-a".to_string(), "gpt-b".to_string(), "gpt-c".to_string()]);
    assert_eq!(catalog.model, "gpt-c");
    assert_eq!(catalog.model_provider, "relay");
    assert_eq!(catalog.provider_name, "relay");
    assert_eq!(catalog.default_model, "gpt-a");
    let exact = mobile_model_catalog("", "m", "id", "Name");
    assert_eq!(exact.default_model, "m");
    assert_eq!(exact.provider_name, "Name");
    let empty = mobile_model_catalog(" , ", " ", "id", "");
    assert_eq!(empty.status, "not_configured");
    assert!(empty.models.is_empty());
    assert_eq!(empty.default_model, "");
}
