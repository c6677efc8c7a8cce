use codex_plus_core::launcher::{
    build_codex_arguments, build_codex_command, build_macos_cleanup_command,
    build_macos_open_command, build_packaged_activation, command_line_arguments, launch_status,
    macos_app_dir_from_open_command, parse_launch_options, post_launch_guard_artifacts_ready,
    quote_windows_argument, should_stop_post_launch_computer_use_guard,
    windows_process_control_strategy, CodexLaunch, GuardArtifacts, LaunchOptions,
    MacosCleanupPolicy, WindowsProcessControlStrategy,
};

fn args(items: &[&str]) -> Vec<String> {
    items.iter().map(|s| s.to_string()).collect()
}

#[test]
fn parse_launch_options_accepts_manager_forwarded_ports_and_app_path() {
    let options = parse_launch_options(&args(&[
        "--app-path",
        "C:/Codex/App",
        "--debug-port",
        "9333",
        "--helper-port",
        "57322",
    ]));

    assert_eq!(options.app_dir, Some("C:/Codex/App".to_string()));
    assert_eq!(options.debug_port, 9333);
    assert_eq!(options.helper_port, 57322);
}

#[test]
fn parse_launch_options_ignores_invalid_ports() {
    let options = parse_launch_options(&args(&["--debug-port", "nope", "--helper-port", "70000"]));

    assert_eq!(options.debug_port, LaunchOptions::default().debug_port);
    assert_eq!(options.helper_port, LaunchOptions::default().helper_port);
}

#[test]
fn post_launch_guard_stops_after_stable_ready_artifacts() {
    let artifacts = GuardArtifacts {
        notify_exe: Some("codex-computer-use.exe".to_string()),
        marketplace_path: Some("openai-bundled".to_string()),
        sky_package_json: None,
        runtime_exports_needed: false,
    };

    assert!(!should_stop_post_launch_computer_use_guard(2, &artifacts));
    assert!(should_stop_post_launch_computer_use_guard(3, &artifacts));
}

#[test]
fn post_launch_guard_keeps_retrying_until_artifacts_are_ready() {
    let missing_notify = GuardArtifacts {
        notify_exe: None,
        marketplace_path: Some("openai-bundled".to_string()),
        sky_package_json: None,
        runtime_exports_needed: false,
    };
    let missing_marketplace = GuardArtifacts {
        notify_exe: Some("codex-computer-use.exe".to_string()),
        marketplace_path: None,
        sky_package_json: None,
        runtime_exports_needed: false,
    };
    let missing_runtime_package = GuardArtifacts {
        notify_exe: Some("codex-computer-use.exe".to_string()),
        marketplace_path: Some("openai-bundled".to_string()),
        sky_package_json: None,
        runtime_exports_needed: true,
    };

    assert!(!should_stop_post_launch_computer_use_guard(3, &missing_notify));
    assert!(!should_stop_post_launch_computer_use_guard(3, &missing_marketplace));
    assert!(!should_stop_post_launch_computer_use_guard(3, &missing_runtime_package));
}

#[test]
fn launch_options_default_to_manager_ports() {
    let options = LaunchOptions::default();
    assert_eq!(options.app_dir, None);
    assert_eq!(options.debug_port, 9229);
    assert_eq!(options.helper_port, 57321);
}

#[test]
fn parse_launch_options_takes_the_last_valid_port() {
    let options = parse_launch_options(&args(&["--debug-port", "9300", "--debug-port", "9400"]));
    assert_eq!(options.debug_port, 9400);
}

#[test]
fn guard_artifacts_with_runtime_package_are_ready() {
    let artifacts = GuardArtifacts {
        notify_exe: Some("notify".to_string()),
        marketplace_path: Some("market".to_string()),
        sky_package_json: Some("package.json".to_string()),
        runtime_exports_needed: true,
    };
    assert!(post_launch_guard_artifacts_ready(&artifacts));
}

#[test]
fn codex_arguments_open_the_debug_port_to_localhost() {
    let built = build_codex_arguments(9229, &args(&["--extra"]));
    assert_eq!(
        built,
        args(&[
            "--remote-debugging-port=9229",
            "--remote-allow-origins=http://127.0.0.1:9229",
            "--extra"
        ])
    );
}

#[test]
fn codex_command_starts_with_the_executable() {
    let built = build_codex_command("C:/Codex/Codex.exe", 9333, &Vec::new());
    assert_eq!(
        built,
        args(&[
            "C:/Codex/Codex.exe",
            "--remote-debugging-port=9333",
            "--remote-allow-origins=http://127.0.0.1:9333"
        ])
    );
}

#[test]
fn macos_open_command_waits_for_the_app() {
    let built = build_macos_open_command("/Applications/Codex.app", 9229, &Vec::new());
    assert_eq!(
        built,
        args(&[
            "open",
            "-W",
            "-a",
            "/Applications/Codex.app",
            "--args",
            "--remote-debugging-port=9229",
            "--remote-allow-origins=http://127.0.0.1:9229"
        ])
    );
    assert_eq!(
        macos_app_dir_from_open_command(&built),
        Some("/Applications/Codex.app".to_string())
    );
    assert_eq!(macos_app_dir_from_open_command(&args(&["open", "-W"])), None);
}

#[test]
fn macos_cleanup_quits_the_app_by_name_unless_it_was_running() {
    assert_eq!(
        build_macos_cleanup_command("/Applications/Codex.app", MacosCleanupPolicy::QuitIfNotPreviouslyRunning),
        Some(args(&["osascript", "-e", "tell application \"Codex\" to quit"]))
    );
    assert_eq!(
        build_macos_cleanup_command(
            "/Applications/Codex.app",
            MacosCleanupPolicy::SkipQuitBecauseAlreadyRunning
        ),
        None
    );
}

#[test]
fn windows_arguments_are_quoted_only_when_needed() {
    assert_eq!(quote_windows_argument("plain"), "plain");
    assert_eq!(quote_windows_argument(""), "\"\"");
    assert_eq!(quote_windows_argument("a b"), "\"a b\"");
    assert_eq!(quote_windows_argument("say \"hi\""), "\"say \\\"hi\\\"\"");
    assert_eq!(quote_windows_argument("dir\\ x\\"), "\"dir\\ x\\\\\"");
    assert_eq!(command_line_arguments(&args(&["a", "b c"])), "a \"b c\"");
}

#[test]
fn packaged_activation_needs_an_app_user_model_id() {
    assert!(build_packaged_activation(None, 9229, &Vec::new()).is_none());
    match build_packaged_activation(Some("OpenAI.Codex!App".to_string()), 9229, &Vec::new()) {
        Some(CodexLaunch::PackagedActivation { app_user_model_id, arguments, process_id }) => {
            assert_eq!(app_user_model_id, "OpenAI.Codex!App");
            assert_eq!(
                arguments,
                "--remote-debugging-port=9229 --remote-allow-origins=http://127.0.0.1:9229"
            );
            assert_eq!(process_id, None);
        }
        other => panic!("unexpected launch: {other:?}"),
    }
}

#[test]
fn windows_processes_are_controlled_natively() {
    assert_eq!(
        windows_process_control_strategy(),
        WindowsProcessControlStrategy::NativeWindowsApi
    );
}

#[test]
fn launch_status_records_ports_and_app() {
    let status = launch_status("ok", "started", 9229, 57321, "C:/Codex", 42);
    assert_eq!(status.status, "ok");
    assert_eq!(status.message, "started");
    assert_eq!(status.started_at_ms, 42);
    assert_eq!(status.debug_port, Some(9229));
    assert_eq!(status.helper_port, Some(57321));
    assert_eq!(status.codex_app, Some("C:/Codex".to_string()));
}
