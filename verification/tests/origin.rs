use orbit_pi::json::{Json, JsonNumber};
use orbit_pi::origin::{
    declared_origin, path_key, OriginResolver, PathStyle, Resolution, SubagentOrigin,
};

const PARENT: &str = "/store/project/parent.jsonl";
const CHILD: &str = "/store/project/child.jsonl";

fn parent_lines(record: bool) -> Vec<String> {
    let mut lines = vec![
        r#"{"type":"session","id":"parent","cwd":"/work/game"}"#.to_string(),
        r#"{"type":"message","message":{"role":"user","content":"Main task"}}"#.to_string(),
        r#"{"type":"message","message":{"role":"assistant","content":[{"type":"toolCall","name":"Agent","arguments":{"subagent_type":"scout","prompt":"Inspect\nfiles"}}]}}"#.to_string(),
    ];
    if record {
        lines.push(
            r#"{"type":"custom","customType":"subagents:record","data":{"id":"9ef6e557-abcd","type":"scout"}}"#
                .to_string(),
        );
    }
    lines
}

fn resolver() -> OriginResolver {
    OriginResolver::new(&[PARENT.to_string(), CHILD.to_string()], PathStyle::Unix)
}

/// Resolves, reading the parent's lines when the resolver asks for them.
fn resolve_with(
    resolver: &mut OriginResolver,
    lines: &[String],
    name: &str,
    prompt: &str,
    context: bool,
) -> Option<SubagentOrigin> {
    match resolver.resolve(PARENT, name, prompt, context) {
        Resolution::Decided(origin) => origin,
        Resolution::ScanParent(path) => {
            assert_eq!(path, PARENT);
            resolver.record_scan(&path, lines);
            match resolver.resolve(PARENT, name, prompt, context) {
                Resolution::Decided(origin) => origin,
                Resolution::ScanParent(_) => panic!("a recorded parent is scanned again"),
            }
        }
    }
}

#[test]
fn running_subagent_is_recognised_by_its_exact_spawn_and_child_context() {
    let origin = resolve_with(&mut resolver(), &parent_lines(false), "scout#9ef6e557", "Inspect files", true);
    assert_eq!(
        origin,
        Some(SubagentOrigin { parent: PARENT.to_string(), kind: "scout".to_string() })
    );
}

#[test]
fn a_name_and_parent_link_alone_are_no_evidence() {
    let origin = resolve_with(&mut resolver(), &parent_lines(false), "scout#9ef6e557", "Inspect files", false);
    assert_eq!(origin, None);
}

#[test]
fn a_settled_record_identifies_an_older_child_without_context() {
    let origin = resolve_with(&mut resolver(), &parent_lines(true), "scout#9ef6e557", "Other task", false);
    assert_eq!(origin.map(|o| o.kind), Some("scout".to_string()));
}

#[test]
fn a_renamed_session_is_not_a_subagent_name() {
    let mut r = resolver();
    assert_eq!(r.resolve(PARENT, "Renamed child", "Inspect files", true), Resolution::Decided(None));
    for name in ["#9ef6e557", "scout#9ef6e55", "scout#9ef6e5570", "scout#9ef6e55g", "scout9ef6e557"] {
        assert_eq!(r.resolve(PARENT, name, "Inspect files", true), Resolution::Decided(None));
    }
    let origin = resolve_with(&mut r, &parent_lines(true), "my#scout#9EF6E557", "x", false);
    assert_eq!(origin, None);
    let origin = resolve_with(&mut r, &parent_lines(true), "my#scout#9ef6e557", "x", false);
    assert_eq!(origin.map(|o| o.kind), Some("my#scout".to_string()));
}

#[test]
fn parents_outside_the_discovered_store_are_not_followed() {
    let r = resolver();
    assert_eq!(
        r.resolve("/store/external.jsonl", "scout#9ef6e557", "Inspect files", true),
        Resolution::Decided(None)
    );
}

#[test]
fn an_unrelated_spawn_prompt_does_not_prove_ownership() {
    let origin = resolve_with(&mut resolver(), &parent_lines(false), "scout#9ef6e557", "Other task", true);
    assert_eq!(origin, None);
    let origin = resolve_with(&mut resolver(), &parent_lines(false), "worker#9ef6e557", "Inspect files", true);
    assert_eq!(origin, None);
}

#[test]
fn each_parent_is_scanned_once_per_pass() {
    let mut r = resolver();
    assert_eq!(
        r.resolve(PARENT, "scout#9ef6e557", "Inspect files", true),
        Resolution::ScanParent(PARENT.to_string())
    );
    r.record_scan(PARENT, &parent_lines(false));
    // A second scan of different lines is ignored: the first evidence stays.
    r.record_scan(PARENT, &parent_lines(true));
    assert_eq!(r.resolve(PARENT, "scout#9ef6e557", "Other", false), Resolution::Decided(None));
}

#[test]
fn a_transcript_without_a_session_header_is_no_evidence() {
    let mut lines = parent_lines(true);
    lines[0] = r#"{"type":"message","id":"x"}"#.to_string();
    let origin = resolve_with(&mut resolver(), &lines, "scout#9ef6e557", "Inspect files", true);
    assert_eq!(origin, None);
    let mut lines = parent_lines(true);
    lines[0] = "not json".to_string();
    let origin = resolve_with(&mut resolver(), &lines, "scout#9ef6e557", "Inspect files", true);
    assert_eq!(origin, None);
    let origin = resolve_with(&mut resolver(), &[], "scout#9ef6e557", "Inspect files", true);
    assert_eq!(origin, None);
}

#[test]
fn agent_ids_in_message_details_are_records_too() {
    let mut lines = parent_lines(false);
    lines.push("{broken".to_string());
    lines.push(
        r#"{"type":"message","message":{"role":"toolResult","details":{"displayName":"Scout","subagentType":"scout","status":"completed","agentId":"abcdef01-2345"}}}"#
            .to_string(),
    );
    let origin = resolve_with(&mut resolver(), &lines, "scout#abcdef01", "x", false);
    assert_eq!(origin.map(|o| o.parent), Some(PARENT.to_string()));
    let origin = resolve_with(&mut resolver(), &lines, "scout#abcdef02", "x", false);
    assert_eq!(origin, None);
}

#[test]
fn short_or_non_ascii_record_ids_are_ignored() {
    let mut lines = parent_lines(false);
    lines.push(r#"{"type":"custom","customType":"subagents:record","data":{"id":"9ef6e5"}}"#.to_string());
    lines.push(r#"{"type":"custom","customType":"subagents:record","data":{"id":"abcdef01é"}}"#.to_string());
    let origin = resolve_with(&mut resolver(), &lines, "scout#9ef6e500", "x", false);
    assert_eq!(origin, None);
    let origin = resolve_with(&mut resolver(), &lines, "scout#abcdef01", "x", false);
    assert_eq!(origin, None);
}

#[test]
fn path_keys_are_the_path_text() {
    assert_eq!(path_key("/store/a.jsonl", PathStyle::Unix), "/store/a.jsonl");
    assert_eq!(path_key("/Store/A.jsonl", PathStyle::Unix), "/Store/A.jsonl");
}

fn s(text: &str) -> Json {
    Json::Str(text.to_string())
}

fn obj(entries: Vec<(&str, Json)>) -> Json {
    Json::Object(entries.into_iter().map(|(k, v)| (k.to_string(), v)).collect())
}

fn declared(session: &str, parent: &str, version: Json, kind: &str) -> Json {
    obj(vec![
        ("type", s("custom")),
        ("customType", s("subagents:session")),
        (
            "data",
            obj(vec![
                ("version", version),
                ("sessionId", s(session)),
                ("parentSession", s(parent)),
                ("agentType", s(kind)),
            ]),
        ),
    ])
}

fn one() -> Json {
    Json::Number(JsonNumber::PosInt(1))
}

#[test]
fn declared_origin_is_bound_to_child_identity_and_parent() {
    let missing = "/store/project/missing.jsonl";
    let entry = declared("declared", missing, one(), " scout\n");
    assert_eq!(
        declared_origin(&entry, "declared", missing, PathStyle::Unix),
        Some(SubagentOrigin { parent: missing.to_string(), kind: "scout".to_string() })
    );
    assert_eq!(declared_origin(&entry, "clone", missing, PathStyle::Unix), None);
    assert_eq!(declared_origin(&entry, "declared", "/store/project/other.jsonl", PathStyle::Unix), None);
}

#[test]
fn declared_origin_needs_version_one_and_a_kind() {
    let p = "/store/p.jsonl";
    assert_eq!(declared_origin(&declared("d", p, Json::Number(JsonNumber::PosInt(2)), "scout"), "d", p, PathStyle::Unix), None);
    assert_eq!(declared_origin(&declared("d", p, s("1"), "scout"), "d", p, PathStyle::Unix), None);
    assert_eq!(declared_origin(&declared("d", p, one(), "  "), "d", p, PathStyle::Unix), None);
    let mut wrong_type = declared("d", p, one(), "scout");
    if let Json::Object(entries) = &mut wrong_type {
        entries[1].1 = s("subagents:record");
    }
    assert_eq!(declared_origin(&wrong_type, "d", p, PathStyle::Unix), None);
    assert_eq!(declared_origin(&Json::Null, "d", p, PathStyle::Unix), None);
}

#[test]
fn windows_path_keys_fold_separators_prefix_and_case() {
    assert_eq!(path_key(r"\\?\C:\Work\Main.JSONL", PathStyle::Windows), "c:/work/main.jsonl");
    assert_eq!(path_key("C:/Work/Main.jsonl", PathStyle::Windows), "c:/work/main.jsonl");
    assert_eq!(path_key(r"\\?\\\?\D:\x", PathStyle::Windows), "d:/x");
    assert_eq!(path_key("", PathStyle::Windows), "");
}

#[test]
fn windows_parent_recorded_in_another_spelling_is_found() {
    let given = r"C:\Store\Project\Parent.jsonl";
    let mut resolver =
        OriginResolver::new(&[given.to_string(), r"C:\Store\Project\Child.jsonl".to_string()], PathStyle::Windows);
    let recorded = r"\\?\c:\store\project\PARENT.jsonl";
    let path = match resolver.resolve(recorded, "scout#9ef6e557", "Inspect files", true) {
        Resolution::ScanParent(path) => path,
        Resolution::Decided(_) => panic!("an unscanned parent is decided"),
    };
    assert_eq!(path, given);
    resolver.record_scan(&path, &parent_lines(false));
    assert_eq!(
        resolver.resolve(recorded, "scout#9ef6e557", "Inspect files", true),
        Resolution::Decided(Some(SubagentOrigin { parent: given.to_string(), kind: "scout".to_string() }))
    );
    let unix = OriginResolver::new(&[given.to_string()], PathStyle::Unix);
    assert_eq!(unix.resolve(recorded, "scout#9ef6e557", "Inspect files", true), Resolution::Decided(None));
}

#[test]
fn windows_declared_origin_matches_folded_parent() {
    let entry = declared("d", r"C:\Store\P.jsonl", one(), "scout");
    assert_eq!(
        declared_origin(&entry, "d", "c:/store/p.jsonl", PathStyle::Windows),
        Some(SubagentOrigin { parent: "c:/store/p.jsonl".to_string(), kind: "scout".to_string() })
    );
    assert_eq!(declared_origin(&entry, "d", "c:/store/p.jsonl", PathStyle::Unix), None);
}
