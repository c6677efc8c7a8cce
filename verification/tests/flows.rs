use codex_plus_core::host::{app_server_frame_action, app_server_rpc_frame, FrameAction, RpcFrameError};
use codex_plus_core::launcher::{
    guard_wait_seconds, next_stable_attempts, post_launch_guard_schedule, GuardCheck,
};
use codex_plus_core::manager::{
    clear_relay_auth_contents, relay_apply_outcome, relay_apply_step, relay_login_step,
    RelayApplyMode, RelayApplyStep,
};
use codex_plus_core::rooms::FrameKind;

#[test]
fn guard_checks_follow_the_schedule() {
    let schedule = post_launch_guard_schedule();
    assert_eq!(schedule, vec![0, 5, 15, 30, 60, 120, 180, 240, 300]);
    assert_eq!(guard_wait_seconds(15, 5), 10);
    assert_eq!(guard_wait_seconds(0, 0), 0);
    assert_eq!(guard_wait_seconds(3, 5), 0);
}

#[test]
fn only_unchanged_ready_checks_count_as_stable() {
    let applied = |changed, ready| GuardCheck::ConfigApplied { changed, artifacts_ready: ready };
    assert_eq!(next_stable_attempts(2, applied(false, true)), 3);
    assert_eq!(next_stable_attempts(2, applied(true, true)), 0);
    assert_eq!(next_stable_attempts(2, applied(false, false)), 0);
    assert_eq!(next_stable_attempts(2, GuardCheck::ConfigFailed), 0);
    assert_eq!(next_stable_attempts(2, GuardCheck::ResolveFailed), 0);
}

#[test]
fn relay_profiles_are_applied_by_their_files_or_login() {
    assert_eq!(relay_apply_step(RelayApplyMode::Relay, false, true), RelayApplyStep::Disabled);
    assert_eq!(relay_apply_step(RelayApplyMode::Relay, true, true), RelayApplyStep::SwitchProfileFiles);
    assert_eq!(relay_apply_step(RelayApplyMode::Relay, true, false), RelayApplyStep::CheckLogin);
    assert_eq!(relay_apply_step(RelayApplyMode::PureApi, true, false), RelayApplyStep::WriteConfig);
    assert_eq!(relay_login_step(true), RelayApplyStep::WriteConfig);
    assert_eq!(relay_login_step(false), RelayApplyStep::NeedLogin);
}

#[test]
fn relay_apply_outcomes_say_what_happened() {
    let written = relay_apply_outcome(RelayApplyMode::Relay, RelayApplyStep::WriteConfig, Ok(true));
    assert!(written.ok);
    assert_eq!(written.message, "中转配置已写入，密钥未在界面明文显示。");
    assert!(written.report_backup);

    let failed = relay_apply_outcome(RelayApplyMode::Relay, RelayApplyStep::WriteConfig, Err("disk full"));
    assert!(!failed.ok);
    assert_eq!(failed.message, "写入中转配置失败：disk full");
    assert!(!failed.report_backup);

    let incomplete = relay_apply_outcome(RelayApplyMode::PureApi, RelayApplyStep::WriteConfig, Ok(false));
    assert!(!incomplete.ok);
    assert!(incomplete.report_backup);
    assert!(incomplete.message.starts_with("纯 API 配置写入后未检测到完整 custom provider"));

    let switched = relay_apply_outcome(RelayApplyMode::PureApi, RelayApplyStep::SwitchProfileFiles, Ok(true));
    assert_eq!(switched.message, "已按兼容切换规则切换供应商。");

    let login = relay_apply_outcome(RelayApplyMode::Relay, RelayApplyStep::NeedLogin, Ok(true));
    assert!(!login.ok);
    assert_eq!(login.message, "未检测到 ChatGPT 登录状态，已停止写入中转配置。");

    let off = relay_apply_outcome(RelayApplyMode::PureApi, RelayApplyStep::Disabled, Ok(true));
    assert_eq!(off.message, "供应商配置总开关已关闭，未写入 config.toml / auth.json。");
}

#[test]
fn clearing_keeps_the_official_login_file() {
    assert_eq!(clear_relay_auth_contents(true, false, "{\"a\":1}"), Some("{\"a\":1}".to_string()));
    assert_eq!(clear_relay_auth_contents(true, true, "{\"a\":1}"), None);
    assert_eq!(clear_relay_auth_contents(false, false, "{\"a\":1}"), None);
    assert_eq!(clear_relay_auth_contents(true, false, "  "), None);
}

#[test]
fn app_server_frames_are_relayed_skipped_or_end_the_session() {
    assert_eq!(app_server_frame_action(FrameKind::Text, true), FrameAction::Relay);
    assert_eq!(app_server_frame_action(FrameKind::Binary, true), FrameAction::Relay);
    assert_eq!(app_server_frame_action(FrameKind::Binary, false), FrameAction::Fail);
    assert_eq!(app_server_frame_action(FrameKind::Ping, true), FrameAction::Skip);
    assert_eq!(app_server_frame_action(FrameKind::Close, true), FrameAction::Stop);
    assert_eq!(app_server_rpc_frame(FrameKind::Text, false), Ok(()));
    assert_eq!(app_server_rpc_frame(FrameKind::Close, true), Err(RpcFrameError::Closed));
    assert_eq!(app_server_rpc_frame(FrameKind::Pong, true), Err(RpcFrameError::Unsupported));
    assert_eq!(app_server_rpc_frame(FrameKind::Binary, false), Err(RpcFrameError::NonUtf8Binary));
}
