use codex_plus_core::relay_text::{
    common_config_anchors, ensure_text_newline, relay_combined_common_config,
    relay_join_config_sections, split_relay_context_config_sections,
    strip_common_config_text_fallback, toml_key_from_line,
};

#[test]
fn toml_keys_are_read_from_assignments() {
    assert_eq!(toml_key_from_line("  model = \"x\" "), Some("model".to_string()));
    assert_eq!(toml_key_from_line("# model = 1"), None);
    assert_eq!(toml_key_from_line("[features]"), None);
    assert_eq!(toml_key_from_line(" = 1"), None);
    assert_eq!(toml_key_from_line(""), None);
}

#[test]
fn text_gets_one_trailing_newline() {
    assert_eq!(ensure_text_newline("a = 1  \n\n"), "a = 1\n");
    assert_eq!(ensure_text_newline("  \n"), "");
}

#[test]
fn anchors_are_root_keys_and_table_headers() {
    let anchors = common_config_anchors("model = \"x\"\n# c = 1\n[features]\nweb = true\n [tools] \n");
    assert_eq!(anchors.root_keys, vec!["model".to_string()]);
    assert_eq!(anchors.table_headers, vec!["[features]".to_string(), "[tools]".to_string()]);
}

#[test]
fn common_keys_and_tables_are_stripped_from_a_profile() {
    let common = "model_reasoning_effort = \"high\"\n\n[features]\nweb_search = true\n";
    let profile = "model = \"gpt\"\nmodel_reasoning_effort = \"high\"\n\n[features]\nweb_search = true\n\n[model_providers.x]\nbase_url = \"u\"\n";
    assert_eq!(
        strip_common_config_text_fallback(profile, common),
        "model = \"gpt\"\n\n[model_providers.x]\nbase_url = \"u\"\n"
    );
    assert_eq!(strip_common_config_text_fallback("a = 1  \n", ""), "a = 1\n");
}

#[test]
fn context_tables_are_split_from_common_configuration() {
    let (common, context) = split_relay_context_config_sections(
        "model = \"x\"\n[mcp_servers.context7]\ncommand = \"npx\"\n[features]\nweb = true\n[skills.a]\nx = 1\n",
    );
    assert_eq!(common, "model = \"x\"\n[features]\nweb = true\n");
    assert_eq!(context, "[mcp_servers.context7]\ncommand = \"npx\"\n[skills.a]\nx = 1\n");
}

#[test]
fn sections_are_joined_by_a_blank_line() {
    assert_eq!(
        relay_join_config_sections(&vec![" a = 1 ".to_string(), "  ".to_string(), "b = 2\n".to_string()]),
        "a = 1\n\nb = 2\n"
    );
    assert_eq!(relay_join_config_sections(&vec![" ".to_string()]), "");
    assert_eq!(relay_combined_common_config("a = 1", "[mcp_servers.x]"), "a = 1\n\n[mcp_servers.x]\n");
}
