use codex_plus_core::json::JsonValue;
use codex_plus_core::zed::{
    build_zed_remote_url, zed_cli_args_for_strategy, zed_open_strategy_from_payload, SshTarget,
    ZedOpenStrategy, ZedRemoteError,
};

fn object(members: Vec<(&str, JsonValue)>) -> JsonValue {
    JsonValue::Object(members.into_iter().map(|(k, v)| (k.to_string(), v)).collect())
}

fn text(s: &str) -> JsonValue {
    JsonValue::Str(s.to_string())
}

#[test]
fn build_zed_remote_url_with_user_host_port_and_encoded_path() {
    let url = build_zed_remote_url(
        &SshTarget {
            user: "alice".to_string(),
            host: "example.com".to_string(),
            port: Some(2222),
        },
        "/home/alice/My Project/你好.py",
    )
    .unwrap();

    assert_eq!(
        url,
        "ssh://alice@example.com:2222/home/alice/My%20Project/%E4%BD%A0%E5%A5%BD.py"
    );
}

#[test]
fn build_zed_remote_url_allows_host_without_user() {
    let url = build_zed_remote_url(
        &SshTarget {
            user: String::new(),
            host: "box.internal".to_string(),
            port: None,
        },
        "/srv/app/main.py",
    )
    .unwrap();

    assert_eq!(url, "ssh://box.internal/srv/app/main.py");
}

#[test]
fn build_zed_remote_url_rejects_invalid_inputs() {
    let error = build_zed_remote_url(
        &SshTarget {
            user: "alice".to_string(),
            host: "bad host".to_string(),
            port: None,
        },
        "/a.py",
    )
    .unwrap_err();

    assert!(matches!(error, ZedRemoteError::Validation("Invalid SSH host")));
}

#[test]
fn build_zed_remote_url_allows_bracketed_ipv6_host() {
    let url = build_zed_remote_url(
        &SshTarget {
            user: "alice".to_string(),
            host: "[::1]".to_string(),
            port: Some(2222),
        },
        "/home/alice/a.py",
    )
    .unwrap();

    assert_eq!(url, "ssh://alice@[::1]:2222/home/alice/a.py");
}

#[test]
fn build_zed_remote_url_rejects_relative_paths() {
    let error = build_zed_remote_url(
        &SshTarget {
            user: "alice".to_string(),
            host: "example.com".to_string(),
            port: None,
        },
        "relative/a.py",
    )
    .unwrap_err();

    assert!(matches!(error, ZedRemoteError::Validation("Remote path must be absolute")));
}

#[test]
fn build_zed_remote_url_rejects_bad_users() {
    let error = build_zed_remote_url(
        &SshTarget {
            user: "al ice".to_string(),
            host: "example.com".to_string(),
            port: None,
        },
        "/a.py",
    )
    .unwrap_err();

    assert!(matches!(error, ZedRemoteError::Validation("Invalid SSH user")));
}

#[test]
fn open_strategy_defaults_to_add_to_focused_workspace() {
    assert_eq!(
        zed_open_strategy_from_payload(&object(vec![])),
        ZedOpenStrategy::AddToFocusedWorkspace
    );
    assert_eq!(
        zed_open_strategy_from_payload(&object(vec![("strategy", text("reuseWindow"))])),
        ZedOpenStrategy::ReuseWindow
    );
    assert_eq!(
        zed_open_strategy_from_payload(&object(vec![("strategy", text("unknown"))])),
        ZedOpenStrategy::AddToFocusedWorkspace
    );
}

#[test]
fn launch_args_for_add_strategy_are_zed_dash_a_url() {
    assert_eq!(
        zed_cli_args_for_strategy(
            ZedOpenStrategy::AddToFocusedWorkspace,
            "ssh://example.com/home/app"
        ),
        vec!["-a".to_string(), "ssh://example.com/home/app".to_string()]
    );
}

#[test]
fn launch_args_for_reuse_strategy_are_zed_dash_r_url() {
    assert_eq!(
        zed_cli_args_for_strategy(ZedOpenStrategy::ReuseWindow, "ssh://example.com/home/app"),
        vec!["-r".to_string(), "ssh://example.com/home/app".to_string()]
    );
}

#[test]
fn launch_args_for_new_window_strategy_are_zed_dash_n_url() {
    assert_eq!(
        zed_cli_args_for_strategy(ZedOpenStrategy::NewWindow, "ssh://example.com/home/app"),
        vec!["-n".to_string(), "ssh://example.com/home/app".to_string()]
    );
}

#[test]
fn launch_args_for_default_strategy_are_plain_url() {
    assert_eq!(
        zed_cli_args_for_strategy(ZedOpenStrategy::Default, "ssh://example.com/home/app"),
        vec!["ssh://example.com/home/app".to_string()]
    );
}

#[test]
fn default_open_strategy_adds_to_the_focused_workspace() {
    assert_eq!(ZedOpenStrategy::default(), ZedOpenStrategy::AddToFocusedWorkspace);
}
