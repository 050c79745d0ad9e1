use orbit_pi::family::SessionInfo;
use orbit_pi::origin::{PathStyle, SubagentOrigin};
use orbit_pi::sidebar::{build_sidebar_rows, with_subagent_rows, SideRow};

fn session(name: &str, parent: Option<&str>) -> SessionInfo {
    SessionInfo {
        path: format!("/store/{name}.jsonl"),
        id: name.into(),
        cwd: "/work/game".into(),
        title: name.into(),
        first_message: "task".into(),
        subagent: parent.map(|p| SubagentOrigin {
            parent: format!("/store/{p}.jsonl"),
            kind: "scout".into(),
        }),
    }
}

fn rows(sessions: &[SessionInfo], expanded: Vec<String>) -> Vec<SideRow> {
    with_subagent_rows(
        build_sidebar_rows(sessions, &["/work/game".into()], &[], &None),
        sessions,
        PathStyle::Unix,
        &expanded,
    )
}

#[test]
fn dozen_children_do_not_displace_main_sessions_or_inflate_project_count() {
    let mut sessions: Vec<_> = (0..12)
        .map(|i| session(&format!("child-{i}"), Some("main")))
        .collect();
    sessions.extend([session("main", None), session("older", None)]);
    let rows = rows(&sessions, Vec::new());
    assert!(matches!(&rows[0], SideRow::Workspace { count: 2, .. }));
    assert!(matches!(&rows[1], SideRow::Session(12)));
    assert!(matches!(
        &rows[2],
        SideRow::Subagents {
            count: 12,
            expanded: false,
            ..
        }
    ));
    assert!(matches!(&rows[3], SideRow::Session(13)));
    assert_eq!(rows.len(), 4);
}

#[test]
fn expanding_a_family_reveals_children_and_nested_descendants() {
    let sessions = [
        session("nested", Some("child")),
        session("child", Some("main")),
        session("main", None),
    ];
    let rows = rows(&sessions, vec![sessions[2].path.clone()]);
    assert_eq!(
        rows.iter()
            .filter(|r| matches!(r, SideRow::ChildSession(_)))
            .count(),
        2
    );
    assert!(matches!(
        &rows[2],
        SideRow::Subagents {
            count: 2,
            expanded: true,
            ..
        }
    ));
}

#[test]
fn orphan_and_cyclic_children_remain_discoverable_in_a_collapsed_group() {
    let sessions = [
        session("orphan", Some("gone")),
        session("a", Some("b")),
        session("b", Some("a")),
    ];
    let rows = rows(&sessions, Vec::new());
    assert!(matches!(&rows[0], SideRow::Workspace { count: 0, .. }));
    assert!(matches!(
        &rows[1],
        SideRow::Subagents {
            orphan: true,
            count: 3,
            expanded: false,
            ..
        }
    ));
}

#[test]
fn collapsing_workspace_hides_even_an_expanded_active_family() {
    let sessions = [session("child", Some("main")), session("main", None)];
    let roots = build_sidebar_rows(
        &sessions,
        &["/work/game".into()],
        &["game".into()],
        &Some(sessions[1].path.clone()),
    );
    let rows = with_subagent_rows(roots, &sessions, PathStyle::Unix, &[sessions[1].path.clone()]);
    assert_eq!(rows.len(), 2);
    assert!(matches!(&rows[1], SideRow::Session(1)));
}

#[test]
fn a_child_in_another_workspace_stays_under_its_parent() {
    let mut child = session("child", Some("main"));
    child.cwd = "/work/worktree".into();
    let sessions = [child, session("main", None)];
    let rows = rows(&sessions, vec![sessions[1].path.clone()]);
    assert!(matches!(rows.last(), Some(SideRow::ChildSession(0))));
}

#[test]
fn workspaces_are_named_by_their_last_component_and_list_their_sessions() {
    let mut other = session("other", None);
    other.cwd = "/work/tools".into();
    let sessions = [session("main", None), other, session("older", None)];
    let rows = build_sidebar_rows(&sessions, &["/work/game".into(), "/work/tools".into()], &[], &None);
    assert_eq!(
        rows,
        vec![
            SideRow::Workspace { name: "game".into(), count: 2, collapsed: false },
            SideRow::Session(0),
            SideRow::Session(2),
            SideRow::Workspace { name: "tools".into(), count: 1, collapsed: false },
            SideRow::Session(1),
        ]
    );
}

#[test]
fn the_orphan_group_expands_under_the_empty_key() {
    let sessions = [session("orphan", Some("gone")), session("main", None)];
    let rows = rows(&sessions, vec![String::new()]);
    assert_eq!(
        rows[2..],
        [
            SideRow::Subagents { root: None, count: 1, expanded: true, orphan: true },
            SideRow::ChildSession(0),
        ]
    );
}
