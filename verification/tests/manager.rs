use codex_plus_core::json::JsonValue;
use codex_plus_core::manager::{
    ads_payload, default_debug_port, default_helper_port, default_log_lines, external_url_target,
    failed, installed_market_versions, market_install_state, normalize_provider_sync_provider_list,
    ok, path_state, provider_sync_selection, relay_file_kind, relay_has_complete_files,
    relay_payload, remove_linked_ccs_profiles_for_local_storage, sanitize_manager_event,
    shortcut_state, should_show_update, tail_lines, CcsLinkSettings, LaunchRequest, LogRequest,
    RelayAuthStatus, RelayFileKind, RelayProfileRef,
};

fn strings(items: &[&str]) -> Vec<String> {
    items.iter().map(|s| s.to_string()).collect()
}

fn object(members: Vec<(&str, JsonValue)>) -> JsonValue {
    JsonValue::Object(members.into_iter().map(|(k, v)| (k.to_string(), v)).collect())
}

fn text(s: &str) -> JsonValue {
    JsonValue::Str(s.to_string())
}

fn profile(id: &str, name: &str, linked: &str) -> RelayProfileRef {
    RelayProfileRef {
        id: id.to_string(),
        name: name.to_string(),
        linked_ccs_provider_id: linked.to_string(),
    }
}

#[test]
fn startup_options_honors_show_update_argument() {
    assert!(should_show_update(
        &strings(&["codex-plus-plus-manager.exe", "--show-update"]),
        None
    ));
}

#[test]
fn show_update_follows_the_environment_value() {
    assert!(should_show_update(&strings(&["manager"]), Some("1")));
    assert!(!should_show_update(&strings(&["manager"]), Some("true")));
    assert!(!should_show_update(&strings(&["manager"]), None));
}

#[test]
fn remove_linked_ccs_profiles_for_local_storage_drops_external_profiles() {
    let mut settings = CcsLinkSettings {
        ccs_link_enabled: true,
        active_relay_id: "ccs-one".to_string(),
        relay_profiles: vec![profile("local", "Local", ""), profile("ccs-one", "External", "provider-one")],
    };

    remove_linked_ccs_profiles_for_local_storage(&mut settings, "default");

    assert_eq!(settings.relay_profiles.len(), 1);
    assert_eq!(settings.relay_profiles[0].id, "local");
    assert_eq!(settings.active_relay_id, "ccs-one");
}

#[test]
fn unlinked_settings_fall_back_to_the_first_kept_profile() {
    let mut settings = CcsLinkSettings {
        ccs_link_enabled: false,
        active_relay_id: "ccs-one".to_string(),
        relay_profiles: vec![profile("ccs-one", "External", " p "), profile("local", "Local", "  ")],
    };
    remove_linked_ccs_profiles_for_local_storage(&mut settings, "default");
    assert_eq!(settings.active_relay_id, "local");

    let mut empty = CcsLinkSettings {
        ccs_link_enabled: false,
        active_relay_id: "gone".to_string(),
        relay_profiles: vec![profile("gone", "External", "p")],
    };
    remove_linked_ccs_profiles_for_local_storage(&mut empty, "default");
    assert!(empty.relay_profiles.is_empty());
    assert_eq!(empty.active_relay_id, "default");
}

#[test]
fn provider_lists_are_trimmed_deduplicated_and_sorted() {
    assert_eq!(
        normalize_provider_sync_provider_list(strings(&[" b ", "a", "", "b", "bad\u{7}", "  ", "A"])),
        strings(&["A", "a", "b"])
    );
}

#[test]
fn provider_selection_joins_the_saved_list() {
    let (selected, list) = provider_sync_selection(strings(&["z", "a"]), "  m ").unwrap();
    assert_eq!(selected, "m");
    assert_eq!(list, strings(&["a", "m", "z"]));
    assert!(provider_sync_selection(strings(&["a"]), "   ").is_none());
    let (_, again) = provider_sync_selection(strings(&["a"]), "a").unwrap();
    assert_eq!(again, strings(&["a"]));
}

#[test]
fn manager_events_are_named_under_manager() {
    assert_eq!(sanitize_manager_event(" click button "), "manager.ui.click_button");
    assert_eq!(sanitize_manager_event("manager.save"), "manager.save");
    assert_eq!(sanitize_manager_event(" .-_ "), "manager.ui.event");
    assert_eq!(sanitize_manager_event("..a/b.."), "manager.ui.a_b");
}

#[test]
fn only_web_links_are_opened() {
    assert_eq!(external_url_target(" https://x.test "), Some("https://x.test".to_string()));
    assert_eq!(external_url_target("http://x"), Some("http://x".to_string()));
    assert_eq!(external_url_target("file:///C:/Windows/win.ini"), None);
}

#[test]
fn command_results_carry_status_and_message() {
    let good = ok("done", 3);
    assert_eq!(good.status, "ok");
    assert_eq!(good.message, "done");
    assert_eq!(good.payload, 3);
    let bad = failed("nope", ());
    assert_eq!(bad.status, "failed");
    assert_eq!(bad.message, "nope");
}

#[test]
fn path_states_say_found_installed_or_missing() {
    let found = path_state(Some("C:/Codex".to_string()));
    assert_eq!(found.status, "found");
    assert_eq!(found.path, Some("C:/Codex".to_string()));
    assert_eq!(path_state(None).status, "missing");
    assert_eq!(shortcut_state(true, None).status, "installed");
    assert_eq!(shortcut_state(false, Some("x".to_string())).status, "missing");
}

#[test]
fn request_defaults() {
    assert_eq!(default_debug_port(), 9229);
    assert_eq!(default_helper_port(), 57321);
    assert_eq!(default_log_lines(), 200);
    let launch = LaunchRequest::default();
    assert_eq!(launch.app_path, "");
    assert_eq!(launch.debug_port, 9229);
    assert_eq!(launch.helper_port, 57321);
    assert_eq!(LogRequest::default().lines, 200);
}

#[test]
fn relay_profiles_need_their_files() {
    assert!(relay_has_complete_files(true, true, "x", ""));
    assert!(!relay_has_complete_files(true, false, "x", " "));
    assert!(relay_has_complete_files(false, false, "x", "y"));
    assert!(!relay_has_complete_files(false, true, " ", "y"));
}

#[test]
fn only_known_relay_files_are_saved() {
    assert_eq!(relay_file_kind("config"), Some(RelayFileKind::Config));
    assert_eq!(relay_file_kind("auth"), Some(RelayFileKind::Auth));
    assert_eq!(relay_file_kind("other"), None);
    assert_eq!(RelayFileKind::Config.file_name(), "config.toml");
    assert_eq!(RelayFileKind::Auth.file_name(), "auth.json");
}

#[test]
fn relay_payload_copies_the_status() {
    let payload = relay_payload(
        RelayAuthStatus {
            authenticated: true,
            auth_source: "chatgpt".to_string(),
            account_label: None,
            config_path: "/c".to_string(),
            configured: false,
            requires_openai_auth: true,
            has_bearer_token: false,
        },
        Some("/b".to_string()),
    );
    assert!(payload.authenticated);
    assert_eq!(payload.auth_source, "chatgpt");
    assert_eq!(payload.config_path, "/c");
    assert!(payload.requires_openai_auth);
    assert_eq!(payload.backup_path, Some("/b".to_string()));
}

#[test]
fn log_tail_keeps_the_last_lines() {
    assert_eq!(tail_lines("a\nb\r\nc\n", 2), "b\nc");
    assert_eq!(tail_lines("a\nb", 5), "a\nb");
    assert_eq!(tail_lines("a\nb", 0), "");
}

#[test]
fn ads_payload_keeps_version_and_ad_items() {
    let payload = ads_payload(object(vec![
        ("version", JsonValue::Number("1".to_string())),
        (
            "ads",
            JsonValue::Array(vec![object(vec![
                ("id", text("ad-1")),
                ("type", text("normal")),
                ("title", text("Ad")),
            ])]),
        ),
    ]));

    assert_eq!(payload.version, 1);
    assert_eq!(payload.ads.len(), 1);
    match &payload.ads[0] {
        JsonValue::Object(members) => {
            assert_eq!(members[0].0, "id");
            assert!(matches!(&members[0].1, JsonValue::Str(s) if s == "ad-1"));
        }
        other => panic!("unexpected ad: {other:?}"),
    }
}

#[test]
fn ads_payload_defaults() {
    let payload = ads_payload(object(vec![("ads", text("x"))]));
    assert_eq!(payload.version, 1);
    assert!(payload.ads.is_empty());
}

#[test]
fn market_versions_are_keyed_by_id_with_the_last_script_winning() {
    let scripts = object(vec![(
        "scripts",
        JsonValue::Array(vec![
            object(vec![("market_id", text("b")), ("version", text("1"))]),
            object(vec![("market_id", text("a"))]),
            object(vec![("market_id", text(""))]),
            object(vec![("market_id", text("b")), ("version", text("2"))]),
            object(vec![("name", text("local"))]),
        ]),
    )]);
    let installed = installed_market_versions(&scripts);
    assert_eq!(
        installed,
        vec![("a".to_string(), String::new()), ("b".to_string(), "2".to_string())]
    );
    let state = market_install_state(&installed, "b", "3");
    assert!(state.installed);
    assert_eq!(state.installed_version, "2");
    assert!(state.update_available);
    let same = market_install_state(&installed, "b", "2");
    assert!(!same.update_available);
    let blank = market_install_state(&installed, "a", "1");
    assert!(!blank.installed);
    assert!(!blank.update_available);
    let missing = market_install_state(&installed, "c", "1");
    assert!(!missing.installed);
    assert_eq!(missing.installed_version, "");
}

fn relay_payload_json(payload: &codex_plus_core::manager::RelayPayload) -> String {
    let mut map = serde_json::Map::new();
    map.insert("authenticated".to_string(), serde_json::Value::Bool(payload.authenticated));
    map.insert("authSource".to_string(), serde_json::Value::String(payload.auth_source.clone()));
    map.insert(
        "accountLabel".to_string(),
        match &payload.account_label {
            Some(label) => serde_json::Value::String(label.clone()),
            None => serde_json::Value::Null,
        },
    );
    map.insert("configPath".to_string(), serde_json::Value::String(payload.config_path.clone()));
    map.insert("configured".to_string(), serde_json::Value::Bool(payload.configured));
    map.insert(
        "requiresOpenaiAuth".to_string(),
        serde_json::Value::Bool(payload.requires_openai_auth),
    );
    map.insert("hasBearerToken".to_string(), serde_json::Value::Bool(payload.has_bearer_token));
    map.insert(
        "backupPath".to_string(),
        match &payload.backup_path {
            Some(path) => serde_json::Value::String(path.clone()),
            None => serde_json::Value::Null,
        },
    );
    serde_json::to_string(&serde_json::Value::Object(map)).unwrap()
}

#[test]
fn relay_payload_does_not_expose_token_text() {
    let payload = relay_payload(
        RelayAuthStatus {
            authenticated: true,
            auth_source: "registry.json".to_string(),
            account_label: Some("user@example.test".to_string()),
            config_path: "config.toml".to_string(),
            configured: true,
            requires_openai_auth: true,
            has_bearer_token: true,
        },
        None,
    );
    let text = relay_payload_json(&payload);

    assert!(!text.contains("sk-"));
    assert!(text.contains("hasBearerToken"));
}
