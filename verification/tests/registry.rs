use codex_plus_core::paths::{path_extension, path_file_name, path_file_stem};
use codex_plus_core::registry::{
    add_recent_projects,
    forget_project, label_from_path, project_from_parts, project_id, project_path_matches,
    push_project, remember_project, sort_by_recency, source_priority, stable_hash, ZedRemoteProject,
    ZedRemoteProjectSource,
};
use codex_plus_core::zed::SshTarget;

fn target() -> SshTarget {
    SshTarget {
        user: "alice".to_string(),
        host: "example.com".to_string(),
        port: Some(2222),
    }
}

fn candidate(path: &str, source: ZedRemoteProjectSource, opened: Option<i64>, current: bool) -> ZedRemoteProject {
    project_from_parts(
        " host-1 ",
        target(),
        path,
        "ssh://alice@example.com:2222/srv/app",
        String::new(),
        source,
        opened,
        current,
    )
}

#[test]
fn stable_hash_is_fnv1a() {
    assert_eq!(stable_hash(""), 0xcbf29ce484222325);
    assert_eq!(stable_hash("a"), 0xaf63dc4c8601ec8c);
}

#[test]
fn project_id_hashes_user_host_port_and_path() {
    assert_eq!(project_id(&target(), " /srv/app "), "zed-remote-project:58de9cd77c323778");
}

#[test]
fn labels_come_from_the_last_path_component() {
    assert_eq!(label_from_path("/srv/app/"), "app");
    assert_eq!(label_from_path("/srv/app"), "app");
    assert_eq!(label_from_path("/"), "/");
}

#[test]
fn project_from_parts_fills_in_the_label() {
    let project = candidate(" /srv/app ", ZedRemoteProjectSource::Recent, Some(5), false);
    assert_eq!(project.label, "app ");
    assert_eq!(project.host_id, "host-1");
    assert_eq!(project.path, "/srv/app");
    assert_eq!(project.id, "zed-remote-project:58de9cd77c323778");
}

#[test]
fn sources_rank_current_thread_first() {
    assert_eq!(source_priority(ZedRemoteProjectSource::CurrentThread), 0);
    assert_eq!(source_priority(ZedRemoteProjectSource::CodexRemoteProject), 1);
    assert_eq!(source_priority(ZedRemoteProjectSource::ThreadWorkspaceHint), 2);
    assert_eq!(source_priority(ZedRemoteProjectSource::SqliteThreadCwd), 3);
    assert_eq!(source_priority(ZedRemoteProjectSource::Recent), 4);
}

#[test]
fn pushing_the_same_project_merges_it() {
    let mut projects = Vec::new();
    push_project(&mut projects, candidate("/srv/app", ZedRemoteProjectSource::Recent, Some(5), false));
    push_project(&mut projects, candidate("/srv/app", ZedRemoteProjectSource::CurrentThread, Some(3), true));
    push_project(&mut projects, candidate("/srv/other", ZedRemoteProjectSource::Recent, None, false));
    assert_eq!(projects.len(), 2);
    assert_eq!(projects[0].source, ZedRemoteProjectSource::CurrentThread);
    assert_eq!(projects[0].last_opened_at_ms, Some(5));
    assert!(projects[0].is_current);
    assert_eq!(projects[1].path, "/srv/other");
}

#[test]
fn forgetting_removes_every_copy() {
    let mut projects = Vec::new();
    push_project(&mut projects, candidate("/srv/app", ZedRemoteProjectSource::Recent, None, false));
    push_project(&mut projects, candidate("/srv/other", ZedRemoteProjectSource::Recent, None, false));
    let id = projects[0].id.clone();
    assert_eq!(forget_project(&mut projects, &id), 1);
    assert_eq!(projects.len(), 1);
    assert_eq!(forget_project(&mut projects, "missing"), 0);
}

#[test]
fn remote_paths_match_project_directories() {
    assert!(project_path_matches("/srv/app", "/srv/app/"));
    assert!(project_path_matches("/srv/app/src", "/srv/app"));
    assert!(!project_path_matches("/srv/apple", "/srv/app"));
    assert!(!project_path_matches("/srv/app", "/"));
}

#[test]
fn path_parts_follow_std_path() {
    assert_eq!(path_file_name("/a/b.tar.gz").map(|v| v.into_iter().collect::<String>()), Some("b.tar.gz".to_string()));
    assert_eq!(path_file_stem("/a/b.tar.gz"), Some("b.tar".to_string()));
    assert_eq!(path_extension("/a/b.tar.gz").map(|v| v.into_iter().collect::<String>()), Some("gz".to_string()));
    assert_eq!(path_extension("/a/.profile"), None);
    assert_eq!(path_file_name("/a/.."), None);
}

#[test]
fn recent_projects_are_sorted_newest_first_and_stable() {
    let a = candidate("/srv/a", ZedRemoteProjectSource::Recent, Some(10), false);
    let b = candidate("/srv/b", ZedRemoteProjectSource::Recent, None, false);
    let c = candidate("/srv/c", ZedRemoteProjectSource::Recent, Some(30), false);
    let d = candidate("/srv/d", ZedRemoteProjectSource::Recent, Some(10), false);
    let sorted = sort_by_recency(vec![a, b, c, d]);
    let paths: Vec<&str> = sorted.iter().map(|p| p.path.as_str()).collect();
    assert_eq!(paths, vec!["/srv/c", "/srv/a", "/srv/d", "/srv/b"]);
}

#[test]
fn remembering_merges_sorts_and_keeps_one_hundred() {
    let mut projects: Vec<ZedRemoteProject> = (0..100)
        .map(|i| candidate(&format!("/srv/p{i}"), ZedRemoteProjectSource::Recent, Some(i), false))
        .collect();
    remember_project(
        &mut projects,
        candidate("/srv/new", ZedRemoteProjectSource::Recent, Some(1000), false),
    );
    assert_eq!(projects.len(), 100);
    assert_eq!(projects[0].path, "/srv/new");
    assert_eq!(projects[1].path, "/srv/p99");
    assert_eq!(projects[99].path, "/srv/p1");

    remember_project(
        &mut projects,
        candidate("/srv/p5", ZedRemoteProjectSource::Recent, Some(2000), false),
    );
    assert_eq!(projects.len(), 100);
    assert_eq!(projects[0].path, "/srv/p5");
    assert_eq!(projects[0].last_opened_at_ms, Some(2000));
    assert_eq!(projects.iter().filter(|p| p.path == "/srv/p5").count(), 1);
}

#[test]
fn recent_projects_join_the_candidates_as_recent() {
    let mut projects = vec![candidate("/srv/a", ZedRemoteProjectSource::CurrentThread, None, true)];
    let recent = vec![
        candidate("/srv/a", ZedRemoteProjectSource::CurrentThread, Some(7), true),
        candidate("/srv/b", ZedRemoteProjectSource::CurrentThread, Some(3), true),
    ];
    add_recent_projects(&mut projects, recent);
    assert_eq!(projects.len(), 2);
    assert_eq!(projects[0].source, ZedRemoteProjectSource::CurrentThread);
    assert!(projects[0].is_current);
    assert_eq!(projects[0].last_opened_at_ms, Some(7));
    assert_eq!(projects[1].path, "/srv/b");
    assert_eq!(projects[1].source, ZedRemoteProjectSource::Recent);
    assert!(!projects[1].is_current);
}
