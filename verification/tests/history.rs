use orbit_pi::family::SessionInfo;
use orbit_pi::history::{snapshot_from_lines, AgentHistory, MAX_TEXT};

fn lines(entries: &[&str]) -> Vec<String> {
    entries.iter().map(|e| e.to_string()).collect()
}

fn fixture() -> Vec<String> {
    lines(&[
        r#"{"type":"session","id":"child","cwd":"/work/game"}"#,
        r#"{"type":"message","id":"user","parentId":null,"message":{"role":"user","content":"Task"}}"#,
        r#"{"type":"message","id":"abandoned","parentId":"user","message":{"role":"assistant","content":"Old branch"}}"#,
        r#"{"type":"message","id":"active","parentId":"user","message":{"role":"assistant","content":[{"type":"text","text":"Current branch"}]}}"#,
        r#"{"type":"session_info","id":"name","parentId":"active","name":"scout"}"#,
    ])
}

#[test]
fn subagent_snapshot_follows_active_branch_without_modifying_the_file() {
    let input = fixture();
    let before = input.clone();
    let snapshot = snapshot_from_lines(&input, false);
    assert_eq!(
        snapshot
            .messages
            .iter()
            .map(|m| m.text.as_str())
            .collect::<Vec<_>>(),
        ["Task", "Current branch"]
    );
    assert!(!snapshot.limited);
    assert_eq!(input, before);
}

#[test]
fn subagent_snapshot_tolerates_a_partial_live_append() {
    let mut input = fixture();
    input.push("{\"type\":".to_string());
    assert_eq!(snapshot_from_lines(&input, false).messages.len(), 2);
}

#[test]
fn subagent_snapshot_bounds_large_text_and_marks_the_preview() {
    let text = "界".repeat(MAX_TEXT + 1);
    let line = format!(
        r#"{{"type":"message","id":"x","parentId":null,"message":{{"role":"assistant","content":"{}"}}}}"#,
        text
    );
    let snapshot = snapshot_from_lines(&[line], false);
    assert!(snapshot.limited);
    assert_eq!(snapshot.messages[0].text.chars().count(), MAX_TEXT);
}

#[test]
fn roles_are_kept_and_system_messages_hidden() {
    let snapshot = snapshot_from_lines(
        &lines(&[
            r#"{"type":"message","id":"s","parentId":null,"message":{"role":"system","content":"rules"}}"#,
            r#"{"type":"message","id":"u","parentId":"s","message":{"role":"user","content":"Task"}}"#,
            r#"{"type":"message","id":"a","parentId":"u","message":{"role":"assistant","content":"Done"}}"#,
        ]),
        false,
    );
    let got: Vec<_> = snapshot
        .messages
        .iter()
        .map(|m| (m.role.as_str(), m.text.as_str()))
        .collect();
    assert_eq!(got, [("user", "Task"), ("assistant", "Done")]);
    assert!(!snapshot.limited);
}

#[test]
fn content_blocks_are_joined_by_blank_lines() {
    let snapshot = snapshot_from_lines(
        &lines(&[r#"{"type":"message","id":"a","parentId":null,"message":{"role":"assistant","content":[{"type":"thinking","thinking":"Hmm"},{"type":"toolCall","name":"Read","arguments":{"path":"a.go"}},{"type":"toolCall"},{"type":"image"},{"data":1}]}}"#]),
        false,
    );
    assert_eq!(
        snapshot.messages[0].text,
        "Hmm\n\nRead\n{\"path\":\"a.go\"}\n\ntoolCall\nnull\n\nimage\n\n"
    );
}

#[test]
fn a_missing_parent_or_a_cycle_marks_the_view_limited() {
    let missing = snapshot_from_lines(
        &lines(&[r#"{"type":"message","id":"a","parentId":"gone","message":{"role":"user","content":"Task"}}"#]),
        false,
    );
    assert_eq!(missing.messages.len(), 1);
    assert!(missing.limited);
    let cycle = snapshot_from_lines(
        &lines(&[
            r#"{"type":"message","id":"a","parentId":"b","message":{"role":"user","content":"A"}}"#,
            r#"{"type":"message","id":"b","parentId":"a","message":{"role":"assistant","content":"B"}}"#,
        ]),
        false,
    );
    let texts: Vec<_> = cycle.messages.iter().map(|m| m.text.as_str()).collect();
    assert_eq!(texts, ["A", "B"]);
    assert!(cycle.limited);
}

#[test]
fn an_oversized_file_is_limited_and_an_empty_one_is_empty() {
    assert!(snapshot_from_lines(&fixture(), true).limited);
    let empty = snapshot_from_lines(&[], false);
    assert!(empty.messages.is_empty());
    assert!(!empty.limited);
}

#[test]
fn a_rewritten_entry_replaces_the_earlier_one() {
    let snapshot = snapshot_from_lines(
        &lines(&[
            r#"{"type":"message","id":"a","parentId":null,"message":{"role":"user","content":"First"}}"#,
            r#"{"type":"message","id":"a","parentId":null,"message":{"role":"user","content":"Second"}}"#,
        ]),
        false,
    );
    let texts: Vec<_> = snapshot.messages.iter().map(|m| m.text.as_str()).collect();
    assert_eq!(texts, ["Second"]);
}

#[test]
fn the_history_view_reads_once_at_a_time_and_keeps_messages_on_failure() {
    let session = SessionInfo {
        path: "/store/child.jsonl".into(),
        id: "child".into(),
        cwd: "/work/game".into(),
        title: "Scout".into(),
        first_message: "Task".into(),
        subagent: None,
    };
    let mut view = AgentHistory::new(session);
    assert_eq!(view.path(), "/store/child.jsonl");
    assert_eq!(view.title(), "Scout");
    assert!(view.notices().loading);
    assert!(!view.reload());
    assert!(view.take_focus_request());
    assert!(!view.take_focus_request());
    view.finish_reload(Ok(snapshot_from_lines(&fixture(), false)));
    let notices = view.notices();
    assert!(!notices.loading && !notices.empty && !notices.limited && notices.error.is_none());
    assert_eq!(view.messages().len(), 2);
    assert!(view.reload());
    view.finish_reload(Err("No such file".to_string()));
    let notices = view.notices();
    assert_eq!(notices.error.as_deref(), Some("No such file"));
    assert!(!notices.empty);
    assert_eq!(view.messages().len(), 2);
    assert!(view.reload());
    view.finish_reload(Ok(snapshot_from_lines(&[], true)));
    let notices = view.notices();
    assert!(notices.empty && notices.limited && notices.error.is_none());
}
