use orbit_pi::family::{family_roots, SessionInfo};
use orbit_pi::origin::{PathStyle, SubagentOrigin};

fn session(name: &str, parent: Option<&str>) -> SessionInfo {
    SessionInfo {
        path: format!("/store/{name}.jsonl"),
        id: name.into(),
        cwd: "/work/game".into(),
        title: name.into(),
        first_message: "task".into(),
        subagent: parent.map(|p| SubagentOrigin {
            parent: format!("/store/{p}.jsonl"),
            kind: "scout".into(),
        }),
    }
}

#[test]
fn deeply_nested_imports_resolve_without_recursion() {
    let mut sessions: Vec<_> = (0..10_000)
        .map(|i| session(&i.to_string(), Some(&(i + 1).to_string())))
        .collect();
    sessions.push(session("10000", None));
    assert!(family_roots(&sessions, PathStyle::Unix)
        .iter()
        .all(|root| *root == Some(10_000)));
}

#[test]
fn ordinary_sessions_are_their_own_roots_and_children_join_them() {
    let sessions = [
        session("nested", Some("child")),
        session("child", Some("main")),
        session("main", None),
        session("older", None),
    ];
    assert_eq!(family_roots(&sessions, PathStyle::Unix), vec![Some(2), Some(2), Some(2), Some(3)]);
}

#[test]
fn orphans_and_cycles_have_no_root() {
    let sessions = [
        session("orphan", Some("gone")),
        session("a", Some("b")),
        session("b", Some("a")),
        session("into-cycle", Some("a")),
        session("self", Some("self")),
        session("main", None),
        session("child", Some("main")),
    ];
    assert_eq!(
        family_roots(&sessions, PathStyle::Unix),
        vec![None, None, None, None, None, Some(5), Some(5)]
    );
}

#[test]
fn a_repeated_path_links_to_its_last_session() {
    let mut first = session("main", None);
    first.title = "stale".into();
    let sessions = [first, session("child", Some("main")), session("main", None)];
    assert_eq!(family_roots(&sessions, PathStyle::Unix), vec![Some(0), Some(2), Some(2)]);
}

#[test]
fn no_sessions_no_roots() {
    assert!(family_roots(&[], PathStyle::Unix).is_empty());
}

#[test]
fn windows_parent_links_ignore_case_separators_and_prefix() {
    let mut main = session("main", None);
    main.path = r"C:\Store\Main.jsonl".into();
    let mut child = session("child", None);
    child.subagent = Some(SubagentOrigin { parent: r"\\?\c:\store\MAIN.jsonl".into(), kind: "scout".into() });
    let sessions = [main, child];
    assert_eq!(family_roots(&sessions, PathStyle::Windows), vec![Some(0), Some(0)]);
    assert_eq!(family_roots(&sessions, PathStyle::Unix), vec![Some(0), None]);
}
