use codex_plus_core::helper::{
    helper_answer, helper_reply_head, helper_route, proxy_failure_answer, HelperBody, HelperRoute,
};
use codex_plus_core::json::JsonValue;
use codex_plus_core::launcher::{
    advance_launch, codex_launch_plan, existing_activation, ensure_injection_progress, guard_event, inject_progress,
    injection_via, BridgeContextLookup, CodexLaunch, GuardAttempt, GuardEvent, InjectVia,
    LaunchAdvance, LaunchFlags, LaunchStep, MacosCleanupPolicy, ProcessWaitStrategy, RetryProgress,
};
use codex_plus_core::manager::open_external_url_result;

const OPTIONS_TEXT: &str = "HTTP/1.1 204 No Content\r\nAccess-Control-Allow-Origin: *\r\nAccess-Control-Allow-Methods: GET, POST, OPTIONS\r\nAccess-Control-Allow-Headers: Content-Type, Authorization\r\nContent-Length: 0\r\nConnection: close\r\n\r\n";

fn members(body: &HelperBody) -> Vec<(String, String)> {
    match body {
        HelperBody::JsonObject(m) => m.clone(),
        HelperBody::Empty => Vec::new(),
    }
}

fn pairs(items: &[(&str, &str)]) -> Vec<(String, String)> {
    items.iter().map(|(k, v)| (k.to_string(), v.to_string())).collect()
}

#[test]
fn unknown_paths_get_a_json_404() {
    let route = helper_route("GET", "/nope", false, false, false);
    assert_eq!(route, HelperRoute::NotFound);
    let answer = helper_answer(route, "GET", "1.2.3").unwrap();
    assert_eq!(answer.status, "404 Not Found");
    assert_eq!(answer.content_type, "application/json; charset=utf-8");
    assert_eq!(members(&answer.body), pairs(&[("status", "failed"), ("message", "未知后端路径")]));
    assert_eq!(answer.log_event, "helper.unknown_path");
    let (head, body_follows) = helper_reply_head("GET", &answer.status, &answer.content_type, 42);
    assert!(body_follows);
    assert!(head.starts_with("HTTP/1.1 404 Not Found\r\nContent-Type: application/json; charset=utf-8\r\n"));
    assert!(head.ends_with("Content-Length: 42\r\nConnection: close\r\n\r\n"));
}

#[test]
fn preflight_requests_get_the_204_answer() {
    for path in ["/backend/status", "/backend/repair", "/diagnostics/log", "/overlay/image", "/nope"] {
        let route = helper_route("OPTIONS", path, false, false, false);
        let answer = helper_answer(route, "OPTIONS", "1").unwrap();
        assert!(!answer.logs_renderer_event);
        let (head, body_follows) = helper_reply_head("OPTIONS", &answer.status, &answer.content_type, 10);
        assert_eq!(head, OPTIONS_TEXT);
        assert!(!body_follows);
    }
}

#[test]
fn backend_and_diagnostics_answers() {
    let status = helper_answer(HelperRoute::BackendStatus, "GET", "9.9.9").unwrap();
    assert_eq!(status.status, "200 OK");
    assert_eq!(
        members(&status.body),
        pairs(&[("status", "ok"), ("message", "后端已连接"), ("version", "9.9.9"), ("transport", "http-helper")])
    );
    assert_eq!(status.log_event, "helper.backend_status_ok");
    let repair = helper_answer(HelperRoute::BackendRepair, "POST", "9.9.9").unwrap();
    assert_eq!(repair.log_event, "helper.backend_repair_ok");
    let log = helper_answer(HelperRoute::DiagnosticsLog, "POST", "1").unwrap();
    assert!(log.logs_renderer_event);
    assert_eq!(members(&log.body), pairs(&[("status", "ok"), ("message", "日志已记录")]));
    assert!(helper_answer(HelperRoute::OverlayImage, "GET", "1").is_none());
    assert!(helper_answer(HelperRoute::MobilePage, "GET", "1").is_none());
    let overlay = helper_answer(HelperRoute::OverlayImage, "OPTIONS", "1").unwrap();
    assert!(matches!(overlay.body, HelperBody::Empty));
    assert_eq!(overlay.content_type, "application/octet-stream");
}

#[test]
fn proxy_failure_is_a_502_with_the_error_text() {
    let answer = proxy_failure_answer("connection refused", "helper.protocol_proxy_failed");
    assert_eq!(answer.status, "502 Bad Gateway");
    assert_eq!(answer.content_type, "application/json; charset=utf-8");
    assert_eq!(members(&answer.body), pairs(&[("status", "failed"), ("message", "connection refused")]));
    assert_eq!(answer.log_event, "helper.protocol_proxy_failed");
}

#[test]
fn external_links_must_be_http() {
    let refused = open_external_url_result("file:///C:/Windows/win.ini", None);
    assert_eq!(refused.status, "failed");
    assert!(refused.message.contains("只允许打开 http 或 https 链接"));
    assert!(matches!(refused.payload, JsonValue::Object(ref m) if m.is_empty()));
    let opened = open_external_url_result(" https://example.test ", None);
    assert_eq!(opened.status, "ok");
    match &opened.payload {
        JsonValue::Object(m) => {
            assert_eq!(m.len(), 1);
            assert_eq!(m[0].0, "url");
            assert!(matches!(&m[0].1, JsonValue::Str(s) if s == "https://example.test"));
        }
        _ => panic!("payload is not an object"),
    }
    let failed = open_external_url_result("http://x", Some("boom"));
    assert_eq!(failed.status, "failed");
    assert_eq!(failed.message, "打开链接失败：boom");
}

fn flags() -> LaunchFlags {
    LaunchFlags {
        provider_sync_enabled: true,
        computer_use_guard_enabled: false,
        protocol_proxy_enabled: false,
        enhancements_enabled: true,
    }
}

#[test]
fn a_failed_launch_step_saves_a_failed_status_and_returns_its_error() {
    let r = advance_launch(flags(), LaunchStep::ProviderSync, Err::<bool, &str>("sync broke"), false, "sync broke", 9229, 57321, "/apps/Codex", 7);
    match r {
        LaunchAdvance::Failed { cleanup, status, error } => {
            assert_eq!(error, "sync broke");
            assert!(!cleanup.shutdown_helper && !cleanup.terminate_codex);
            assert_eq!(status.status, "failed");
            assert_eq!(status.message, "sync broke");
            assert_eq!(status.codex_app.as_deref(), Some("/apps/Codex"));
        }
        _ => panic!("expected a failure"),
    }
    let r = advance_launch(flags(), LaunchStep::LaunchCodex, Err::<bool, &str>("spawn"), false, "spawn", 1, 2, "a", 0);
    assert!(matches!(r, LaunchAdvance::Failed { cleanup, .. } if cleanup.shutdown_helper && !cleanup.terminate_codex));
    let r = advance_launch(flags(), LaunchStep::Begin, Err::<bool, &str>("no settings"), false, "no settings", 1, 2, "a", 0);
    assert!(matches!(r, LaunchAdvance::Abort("no settings")));
    let r = advance_launch(flags(), LaunchStep::Begin, Ok::<bool, &str>(true), false, "", 1, 2, "a", 0);
    assert!(matches!(r, LaunchAdvance::Next(LaunchStep::ProviderSync)));
    let r = advance_launch(flags(), LaunchStep::EnsureInjection, Ok::<bool, &str>(false), false, "", 1, 2, "a", 0);
    assert!(matches!(r, LaunchAdvance::Next(LaunchStep::SaveDegraded)));
}

#[test]
fn an_occupied_guard_is_logged_as_already_running() {
    let e = guard_event(GuardAttempt::WouldBlock, 57320, 9229).unwrap();
    assert_eq!(e, GuardEvent::AlreadyRunning { guard_port: 57320, debug_port: 9229 });
    assert_eq!(e.name(), "launcher.already_running");
    assert_eq!(guard_event(GuardAttempt::AddrInUse, 1, 2), Some(GuardEvent::AlreadyRunning { guard_port: 1, debug_port: 2 }));
    assert_eq!(guard_event(GuardAttempt::Acquired { fallback: false }, 1, 2), None);
    assert_eq!(guard_event(GuardAttempt::Acquired { fallback: true }, 1, 2).unwrap().name(), "launcher.guard_fallback");
    assert_eq!(guard_event(GuardAttempt::Failed, 1, 2), None);
}

#[test]
fn codex_is_launched_by_the_kind_of_app() {
    let extra = vec!["--x".to_string()];
    match codex_launch_plan(None, "/Applications/Codex.app", "unused", true, 9229, &extra) {
        CodexLaunch::Process { command, wait_strategy, macos_cleanup_policy } => {
            assert_eq!(command[0..5], ["open", "-W", "-a", "/Applications/Codex.app", "--args"]);
            assert_eq!(wait_strategy, ProcessWaitStrategy::ExternalWaitCommand);
            assert_eq!(macos_cleanup_policy, Some(MacosCleanupPolicy::SkipQuitBecauseAlreadyRunning));
        }
        _ => panic!("expected a process"),
    }
    match codex_launch_plan(None, "C:/Codex", "C:/Codex/Codex.exe", false, 9229, &extra) {
        CodexLaunch::Process { command, wait_strategy, macos_cleanup_policy } => {
            assert_eq!(command, vec!["C:/Codex/Codex.exe", "--remote-debugging-port=9229", "--remote-allow-origins=http://127.0.0.1:9229", "--x"]);
            assert_eq!(wait_strategy, ProcessWaitStrategy::TrackedChild);
            assert_eq!(macos_cleanup_policy, None);
        }
        _ => panic!("expected a process"),
    }
    assert!(matches!(
        codex_launch_plan(Some("OpenAI.Codex!App".to_string()), "C:/Codex", "x", false, 9229, &extra),
        CodexLaunch::PackagedActivation { ref app_user_model_id, process_id: None, .. } if app_user_model_id == "OpenAI.Codex!App"
    ));
}

#[test]
fn injection_retries_are_bounded() {
    assert_eq!(injection_via(BridgeContextLookup::Found), InjectVia::Bridge);
    assert_eq!(injection_via(BridgeContextLookup::Missing), InjectVia::Plain);
    assert_eq!(injection_via(BridgeContextLookup::Failed), InjectVia::Fail);
    assert_eq!(ensure_injection_progress(1, true), RetryProgress::Done);
    assert_eq!(ensure_injection_progress(1, false), RetryProgress::Retry { next_attempt: 2, wait_ms: 1000 });
    assert_eq!(ensure_injection_progress(120, false), RetryProgress::GiveUp);
    assert_eq!(inject_progress(19, false), RetryProgress::Retry { next_attempt: 20, wait_ms: 500 });
    assert_eq!(inject_progress(20, false), RetryProgress::GiveUp);
}

#[test]
fn handing_over_to_a_running_instance() {
    let ready = existing_activation(true, true);
    assert!(ready.start_helper && ready.ensure_injection && ready.start_bridge_watchdog);
    assert_eq!(ready.status, Some("running"));
    let degraded = existing_activation(true, false);
    assert!(!degraded.start_bridge_watchdog);
    assert_eq!(degraded.status, Some("running_degraded"));
    let plain = existing_activation(false, false);
    assert!(!plain.start_helper && !plain.ensure_injection && !plain.start_bridge_watchdog);
    assert_eq!(plain.status, None);
}
