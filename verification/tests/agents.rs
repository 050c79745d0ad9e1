use orbit_pi::agents::{
    AgentDetails, AgentState, Fact, FactKind, FactValue, Section, SectionKind, StateLabel, Tone,
};
use orbit_pi::json::{Json, JsonNumber};

fn s(text: &str) -> Json {
    Json::Str(text.to_string())
}

fn n(value: u64) -> Json {
    Json::Number(JsonNumber::PosInt(value))
}

fn obj(entries: Vec<(&str, Json)>) -> Json {
    Json::Object(entries.into_iter().map(|(k, v)| (k.to_string(), v)).collect())
}

fn scout(status: &str, extra: Vec<(&str, Json)>) -> Json {
    let mut entries = vec![
        ("displayName", s("Scout")),
        ("subagentType", s("scout")),
        ("status", s(status)),
    ];
    entries.extend(extra);
    obj(entries)
}

#[test]
fn unrelated_or_incomplete_details_are_not_agents() {
    for value in [
        obj(vec![("status", s("running"))]),
        obj(vec![
            ("displayName", s("Scout")),
            ("subagentType", n(4)),
            ("status", s("running")),
        ]),
        Json::Null,
    ] {
        assert!(AgentDetails::from_details(&value).is_none());
    }
}

#[test]
fn optional_malformed_fields_do_not_hide_identity() {
    let agent = AgentDetails::from_details(&scout(
        "running",
        vec![
            ("cost", s("bad")),
            ("tags", Json::Array(vec![s("thinking: high"), n(4)])),
            ("toolUses", Json::Number(JsonNumber::NegInt(-1))),
        ],
    ))
    .unwrap();
    assert_eq!(
        (agent.cost, agent.tools, agent.tags),
        (None, None, vec!["thinking: high".to_owned()])
    );
}

#[test]
fn spinner_and_subsecond_updates_are_coalesced() {
    let base = scout("running", vec![("durationMs", n(1200)), ("spinnerFrame", n(1))]);
    let next = scout("running", vec![("durationMs", n(1280)), ("spinnerFrame", n(2))]);
    assert_eq!(
        AgentDetails::from_details(&base),
        AgentDetails::from_details(&next)
    );
}

#[test]
fn unknown_pricing_is_not_a_free_run() {
    let agent = AgentDetails::from_details(&scout("completed", vec![("cost", n(0))])).unwrap();
    assert_eq!(agent.cost, None);
}

#[test]
fn future_states_are_preserved_not_reported_as_completed() {
    let agent = AgentDetails::from_details(&scout("waiting_for_review", vec![])).unwrap();
    assert_eq!(agent.status, "waiting_for_review");
}

fn full_details(status: &str, id: &str) -> Json {
    obj(vec![
        ("displayName", s("Scout")),
        ("description", s("Inspect collision handling")),
        ("subagentType", s("scout")),
        ("agentId", s(id)),
        ("status", s(status)),
        ("activity", s("Reading internal/player.go")),
        ("modelName", s("test-model")),
        ("tags", Json::Array(vec![s("thinking: high")])),
        ("toolUses", n(3)),
        ("tokens", s("1.2k token")),
        ("durationMs", n(2400)),
        ("turnCount", n(2)),
        ("maxTurns", n(8)),
        (
            "cost",
            Json::Number(float(0.003)),
        ),
    ])
}

#[test]
fn every_reported_fact_is_read() {
    let agent = AgentDetails::from_details(&full_details("running", "agent-1")).unwrap();
    assert_eq!(agent.name, "Scout");
    assert_eq!(agent.description, "Inspect collision handling");
    assert_eq!(agent.kind, "scout");
    assert_eq!(agent.status, "running");
    assert!(!agent.live);
    assert_eq!(agent.activity.as_deref(), Some("Reading internal/player.go"));
    assert_eq!(agent.model.as_deref(), Some("test-model"));
    assert_eq!(agent.tags, vec!["thinking: high".to_string()]);
    assert_eq!(agent.id.as_deref(), Some("agent-1"));
    assert_eq!(agent.run_id, None);
    assert_eq!(agent.tools, Some(3));
    assert_eq!(agent.tokens.as_deref(), Some("1.2k token"));
    assert_eq!(agent.duration_secs, Some(2));
    assert_eq!(agent.turns, Some(2));
    assert_eq!(agent.max_turns, Some(8));
    assert!(matches!(agent.cost, Some(JsonNumber::Float { .. })));
}

#[test]
fn empty_strings_and_zero_turn_limits_are_unknown() {
    let agent = AgentDetails::from_details(&scout(
        "running",
        vec![("description", s("")), ("agentId", s("")), ("maxTurns", n(0))],
    ))
    .unwrap();
    assert_eq!(agent.description, "");
    assert_eq!(agent.id, None);
    assert_eq!(agent.max_turns, None);
    assert!(AgentDetails::from_details(&scout("", vec![])).is_none());
}

#[test]
fn negative_and_zero_float_costs_are_dropped() {
    let negative = Json::Number(float(-0.5));
    let zero = Json::Number(float(0.0));
    for cost in [negative, zero, Json::Number(JsonNumber::NegInt(-3))] {
        let agent = AgentDetails::from_details(&scout("completed", vec![("cost", cost)])).unwrap();
        assert_eq!(agent.cost, None);
    }
    let agent = AgentDetails::from_details(&scout("completed", vec![("cost", n(2))])).unwrap();
    assert_eq!(agent.cost, Some(JsonNumber::PosInt(2)));
}

#[test]
fn history_only_running_state_is_a_last_known_state() {
    let mut agent = AgentDetails::from_details(&scout("running", vec![])).unwrap();
    assert_eq!(
        agent.state_label(),
        StateLabel { state: AgentState::Running, last_known: true }
    );
    agent.live = true;
    assert_eq!(
        agent.state_label(),
        StateLabel { state: AgentState::Running, last_known: false }
    );
}

#[test]
fn every_status_has_its_label() {
    let cases = [
        ("queued", AgentState::Queued, true),
        ("completed", AgentState::Completed, false),
        ("steered", AgentState::Steered, false),
        ("aborted", AgentState::Stopped, false),
        ("stopped", AgentState::Stopped, false),
        ("error", AgentState::Failed, false),
        ("background", AgentState::Background, false),
        ("unknown", AgentState::Unknown, false),
        (
            "waiting_for_review",
            AgentState::Other("waiting_for_review".to_string()),
            false,
        ),
    ];
    for (status, state, last_known) in cases {
        let agent = AgentDetails::from_details(&scout(status, vec![])).unwrap();
        assert_eq!(agent.state_label(), StateLabel { state, last_known });
    }
}

#[test]
fn tone_marks_failures_and_completions() {
    let tone = |status: &str| AgentDetails::from_details(&scout(status, vec![])).unwrap().tone();
    assert_eq!(tone("error"), Tone::Error);
    assert_eq!(tone("completed"), Tone::Success);
    assert_eq!(tone("running"), Tone::Neutral);
}

#[test]
fn summary_shows_clock_tools_and_tokens() {
    let agent = AgentDetails::from_details(&full_details("completed", "agent-1")).unwrap();
    let summary = agent.summary();
    assert_eq!(summary.state.state, AgentState::Completed);
    assert_eq!(summary.clock.as_deref(), Some("0:02"));
    assert_eq!(summary.tools, Some(3));
    assert_eq!(summary.tokens.as_deref(), Some("1.2k token"));
    assert_eq!(summary.line("Completed", "3 tools"), "Completed · 0:02 · 3 tools · 1.2k token");
    let bare = AgentDetails::from_details(&scout("running", vec![])).unwrap().summary();
    assert_eq!(bare.line("Running", "no tools"), "Running");
    assert_eq!((bare.clock, bare.tools, bare.tokens), (None, None, None));
}

#[test]
fn clock_is_minutes_and_padded_seconds() {
    assert_eq!(orbit_pi::agents::clock_text(0), "0:00");
    assert_eq!(orbit_pi::agents::clock_text(65), "1:05");
    assert_eq!(orbit_pi::agents::clock_text(600), "10:00");
    assert_eq!(orbit_pi::agents::clock_text(3599), "59:59");
    assert_eq!(orbit_pi::agents::clock_text(7272), "121:12");
}

#[test]
fn inspector_facts_follow_the_reported_details() {
    let agent = AgentDetails::from_details(&full_details("running", "agent-1")).unwrap();
    let facts = agent.inspector_facts();
    let text = |kind, t: &str| Fact { kind, value: FactValue::Text(t.to_string()) };
    assert_eq!(facts.len(), 6);
    assert_eq!(facts[0], text(FactKind::Type, "scout"));
    assert_eq!(facts[1], text(FactKind::Model, "test-model"));
    assert_eq!(facts[2], text(FactKind::Configuration, "thinking: high"));
    assert_eq!(facts[3], text(FactKind::Id, "agent-1"));
    assert_eq!(facts[4], text(FactKind::Turns, "2 / 8"));
    assert_eq!(facts[5].kind, FactKind::EstimatedCost);
    let mut more = agent.clone();
    more.tags.push("fast".to_string());
    more.max_turns = None;
    more.run_id = Some("run-7".to_string());
    more.outcome = Some("fixed".to_string());
    let facts = more.inspector_facts();
    assert_eq!(facts[2], text(FactKind::Configuration, "thinking: high · fast"));
    assert_eq!(facts[4], text(FactKind::RunId, "run-7"));
    assert_eq!(facts[5], text(FactKind::Turns, "2"));
    assert_eq!(facts[7], text(FactKind::Outcome, "fixed"));
    let bare = AgentDetails::from_details(&scout("running", vec![])).unwrap();
    assert_eq!(bare.inspector_facts(), vec![text(FactKind::Type, "scout")]);
}

#[test]
fn inspector_sections_show_task_prompt_and_output() {
    let agent = AgentDetails::from_details(&full_details("running", "agent-1")).unwrap();
    let args = obj(vec![("prompt", s("Inspect the code")), ("subagent_type", s("scout"))]);
    let output = s("3 tool uses...");
    let sections = agent.inspector_sections(Some(&args), Some(&output));
    let section = |kind, t: &str| Section { kind, text: t.to_string() };
    assert_eq!(
        sections,
        vec![
            section(SectionKind::Task, "Inspect collision handling"),
            section(SectionKind::Activity, "Reading internal/player.go"),
            section(SectionKind::Prompt, "Inspect the code"),
            section(SectionKind::ReportedOutput, "3 tool uses..."),
        ]
    );
    let structured = obj(vec![("b", n(1)), ("a", Json::Array(vec![s("x"), Json::Null, Json::Bool(true)]))]);
    let bare = AgentDetails::from_details(&scout("error", vec![("error", s("Aborted"))])).unwrap();
    assert_eq!(
        bare.inspector_sections(None, Some(&structured)),
        vec![
            section(SectionKind::Error, "Aborted"),
            section(SectionKind::ReportedOutput, "{\"a\":[\"x\",null,true],\"b\":1}"),
        ]
    );
    assert_eq!(bare.inspector_sections(Some(&Json::Null), None), vec![section(SectionKind::Error, "Aborted")]);
}

fn float(x: f64) -> JsonNumber {
    JsonNumber::Float { bits: x.to_bits(), number: serde_json::Number::from_f64(x).unwrap() }
}

#[test]
fn numbers_are_positive_by_their_value() {
    assert!(JsonNumber::PosInt(1).positive());
    assert!(!JsonNumber::PosInt(0).positive());
    assert!(!JsonNumber::NegInt(-3).positive());
    assert!(JsonNumber::NegInt(3).positive());
    assert!(float(0.5).positive());
    assert!(!float(-0.5).positive());
    assert!(!float(0.0).positive());
}
