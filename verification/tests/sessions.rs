use codex_plus_core::launcher::{guard_step, GuardAttempt, GuardStep};
use codex_plus_core::sessions::AppServerSessions;

#[test]
fn sessions_replace_and_close_their_senders() {
    let mut sessions = AppServerSessions::new();
    assert_eq!(sessions.connect("s1".to_string(), 10), None);
    assert_eq!(sessions.connect("s2".to_string(), 20), None);
    assert_eq!(sessions.connect("s1".to_string(), 11), Some(10));
    assert_eq!(sessions.sender_of("s1"), Some(11));
    assert_eq!(sessions.sender_of("s3"), None);
    assert_eq!(sessions.close("s1"), Some(11));
    assert_eq!(sessions.close("s1"), None);
    assert_eq!(sessions.sender_of("s2"), Some(20));
    assert_eq!(sessions.senders(), vec![20]);
}

#[test]
fn launcher_guard_steps() {
    assert_eq!(
        guard_step(GuardAttempt::Acquired { fallback: true }, true),
        GuardStep::Launch { log_fallback: true }
    );
    assert_eq!(guard_step(GuardAttempt::WouldBlock, true), GuardStep::AlreadyRunning);
    assert_eq!(guard_step(GuardAttempt::AddrInUse, true), GuardStep::CheckStale);
    assert_eq!(guard_step(GuardAttempt::AddrInUse, false), GuardStep::AlreadyRunning);
    assert_eq!(guard_step(GuardAttempt::Failed, true), GuardStep::Fail);
}

use codex_plus_core::launcher::{
    launch_cleanup, launch_helper_port, next_launch_step, LaunchCleanup, LaunchFlags, LaunchStep,
};

fn flags(sync: bool, guard: bool, proxy: bool, enhance: bool) -> LaunchFlags {
    LaunchFlags {
        provider_sync_enabled: sync,
        computer_use_guard_enabled: guard,
        protocol_proxy_enabled: proxy,
        enhancements_enabled: enhance,
    }
}

fn run(f: LaunchFlags, ready: bool) -> Vec<LaunchStep> {
    let mut steps = Vec::new();
    let mut last = LaunchStep::Begin;
    loop {
        let next = next_launch_step(f, last, ready);
        if next == LaunchStep::Finished {
            return steps;
        }
        steps.push(next);
        last = next;
    }
}

#[test]
fn a_full_launch_runs_every_step() {
    assert_eq!(
        run(flags(true, true, false, true), true),
        vec![
            LaunchStep::ProviderSync,
            LaunchStep::ComputerUseConfig,
            LaunchStep::StartHelper,
            LaunchStep::LaunchCodex,
            LaunchStep::GuardWatchdog,
            LaunchStep::EnsureInjection,
            LaunchStep::BridgeWatchdog,
            LaunchStep::SaveRunning
        ]
    );
}

#[test]
fn a_plain_launch_only_starts_codex() {
    assert_eq!(
        run(flags(false, false, false, false), false),
        vec![LaunchStep::LaunchCodex, LaunchStep::SaveRunning]
    );
    assert_eq!(
        run(flags(false, false, true, false), false),
        vec![LaunchStep::StartHelper, LaunchStep::LaunchCodex, LaunchStep::SaveRunning]
    );
}

#[test]
fn a_launch_without_bridge_is_degraded() {
    assert_eq!(
        run(flags(false, false, false, true), false),
        vec![
            LaunchStep::StartHelper,
            LaunchStep::LaunchCodex,
            LaunchStep::EnsureInjection,
            LaunchStep::SaveDegraded
        ]
    );
}

#[test]
fn failed_launches_undo_what_they_started() {
    let f = flags(false, true, false, true);
    assert_eq!(
        launch_cleanup(f, LaunchStep::StartHelper, false),
        LaunchCleanup { shutdown_helper: false, terminate_codex: false }
    );
    assert_eq!(
        launch_cleanup(f, LaunchStep::GuardWatchdog, false),
        LaunchCleanup { shutdown_helper: true, terminate_codex: false }
    );
    assert_eq!(
        launch_cleanup(f, LaunchStep::BridgeWatchdog, true),
        LaunchCleanup { shutdown_helper: true, terminate_codex: true }
    );
    assert_eq!(
        launch_cleanup(flags(false, false, false, false), LaunchStep::SaveRunning, true),
        LaunchCleanup { shutdown_helper: false, terminate_codex: false }
    );
    assert_eq!(launch_helper_port(57321, true, 57400), 57400);
    assert_eq!(launch_helper_port(57321, false, 57400), 57321);
}
