use codex_plus_core::json::JsonValue;
use codex_plus_core::remote_state::{
    host_id_for_remote_path, host_id_from_hint, ordered_remote_projects, workspace_path_from_hint,
};

fn object(members: Vec<(&str, JsonValue)>) -> JsonValue {
    JsonValue::Object(members.into_iter().map(|(k, v)| (k.to_string(), v)).collect())
}

fn text(s: &str) -> JsonValue {
    JsonValue::Str(s.to_string())
}

fn project(id: &str, host: &str, path: &str) -> JsonValue {
    object(vec![("id", text(id)), ("hostId", text(host)), ("remotePath", text(path))])
}

fn state() -> JsonValue {
    object(vec![
        (
            "remote-projects",
            JsonValue::Array(vec![
                project("a", "h1", "/srv/a"),
                text("not a project"),
                project("b", "h2", "/srv/b/"),
                project("c", "h3", "/srv"),
            ]),
        ),
        ("project-order", JsonValue::Array(vec![text("c"), text("missing"), text("b")])),
        ("selected-remote-host-id", text("selected")),
    ])
}

#[test]
fn remote_projects_follow_project_order_then_the_rest() {
    assert_eq!(ordered_remote_projects(&state()), vec![3, 2, 0]);
    assert_eq!(ordered_remote_projects(&object(vec![])), Vec::<usize>::new());
}

#[test]
fn hosts_are_found_for_paths_inside_projects() {
    let s = state();
    assert_eq!(host_id_for_remote_path(&s, "preferred", "/x"), "preferred");
    assert_eq!(host_id_for_remote_path(&s, "", "/srv/b/src"), "h3");
    assert_eq!(host_id_for_remote_path(&s, "", "/other"), "selected");
    let ordered_first = object(vec![(
        "remote-projects",
        JsonValue::Array(vec![project("a", "h1", "/srv/a"), project("c", "h3", "/srv")]),
    )]);
    assert_eq!(host_id_for_remote_path(&ordered_first, "", "/srv/a/x"), "h1");
    assert_eq!(host_id_for_remote_path(&ordered_first, "", "/srvx"), "");
}

#[test]
fn thread_hints_name_a_workspace_and_host() {
    assert_eq!(workspace_path_from_hint(Some(&text("  /srv/a  "))), "/srv/a");
    assert_eq!(
        workspace_path_from_hint(Some(&object(vec![("path", text("/p")), ("cwd", text("/c"))]))),
        "/p"
    );
    assert_eq!(workspace_path_from_hint(Some(&object(vec![("workspaceRoot", text(" "))]))), "");
    assert_eq!(workspace_path_from_hint(None), "");
    assert_eq!(
        host_id_from_hint(Some(&object(vec![("remoteHostId", text("r"))]))),
        "r"
    );
    assert_eq!(
        host_id_from_hint(Some(&object(vec![("hostId", text("h")), ("remoteHostId", text("r"))]))),
        "h"
    );
    assert_eq!(host_id_from_hint(Some(&text("h"))), "");
}
