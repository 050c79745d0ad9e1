//! Read-only pi-subagents observations. These are reported tool facts, not a
//! second agent runtime: inspecting a child never resumes or consumes its result.
use vstd::prelude::*;

use crate::json::{print_json, printed_json, Json, JsonNumber};
use crate::text::{decimal, join, joined, push_char, push_decimal, str_eq, two_digits};

verus! {

/// What the pi-subagents extension reports about one child agent.
#[derive(Clone, Debug, PartialEq)]
pub struct AgentDetails {
    pub name: String,
    pub description: String,
    pub kind: String,
    pub status: String,
    /// Only an active tool progress event establishes liveness, never history.
    pub live: bool,
    pub activity: Option<String>,
    pub model: Option<String>,
    pub tags: Vec<String>,
    pub id: Option<String>,
    pub run_id: Option<String>,
    pub tools: Option<u64>,
    pub tokens: Option<String>,
    pub duration_secs: Option<u64>,
    pub turns: Option<u64>,
    pub max_turns: Option<u64>,
    /// The reported cost, kept only when it is a number greater than zero.
    pub cost: Option<JsonNumber>,
    pub error: Option<String>,
    pub outcome: Option<String>,
}

/// The text of an optional string.
pub open spec fn opt_text(o: Option<String>) -> Option<Seq<char>> {
    match o {
        Some(s) => Some(s@),
        None => None,
    }
}

/// `text(key)` of the details reader: the value under `key` when it is a
/// non-empty string.
pub open spec fn detail_text(v: Json, key: Seq<char>) -> Option<Seq<char>> {
    match v.spec_get(key) {
        Some(x) => match x.text_of() {
            Some(s) => if s.len() > 0 {
                Some(s)
            } else {
                None
            },
            None => None,
        },
        None => None,
    }
}

/// `value.get(key).and_then(as_u64)`.
pub open spec fn detail_u64(v: Json, key: Seq<char>) -> Option<u64> {
    match v.spec_get(key) {
        Some(x) => x.u64_of(),
        None => None,
    }
}

/// The strings among a list of values, in order; other values are skipped.
pub open spec fn string_items(items: Seq<Json>) -> Seq<Seq<char>>
    decreases items.len(),
{
    if items.len() == 0 {
        seq![]
    } else {
        let rest = string_items(items.drop_last());
        match items.last().text_of() {
            Some(s) => rest.push(s),
            None => rest,
        }
    }
}

/// The tags of the details: the strings of the `tags` array, or none.
pub open spec fn detail_tags(v: Json) -> Seq<Seq<char>> {
    match v.spec_get("tags"@) {
        Some(x) => match x.items_of() {
            Some(items) => string_items(items),
            None => seq![],
        },
        None => seq![],
    }
}

/// The cost of the details: a reported number greater than zero. Zero also
/// means unknown model pricing in pi-subagents.
pub open spec fn detail_cost(v: Json) -> Option<JsonNumber> {
    match v.spec_get("cost"@) {
        Some(Json::Number(n)) => if n.is_positive() {
            Some(n)
        } else {
            None
        },
        _ => None,
    }
}

/// The details carry the three required facts: a display name, a subagent
/// type and a status, each a non-empty string.
pub open spec fn is_agent_details(v: Json) -> bool {
    &&& detail_text(v, "displayName"@) is Some
    &&& detail_text(v, "subagentType"@) is Some
    &&& detail_text(v, "status"@) is Some
}

/// Two details values report the same facts: they agree on every field the
/// reader takes, and their durations agree in whole seconds. Anything else,
/// such as a spinner frame, may differ.
pub open spec fn same_facts(v: Json, w: Json) -> bool {
    &&& forall|key: Seq<char>| #[trigger] detail_text(v, key) == detail_text(w, key)
    &&& detail_tags(v) == detail_tags(w)
    &&& detail_u64(v, "toolUses"@) == detail_u64(w, "toolUses"@)
    &&& detail_u64(v, "turnCount"@) == detail_u64(w, "turnCount"@)
    &&& detail_u64(v, "maxTurns"@) == detail_u64(w, "maxTurns"@)
    &&& detail_cost(v) == detail_cost(w)
    &&& match (detail_u64(v, "durationMs"@), detail_u64(w, "durationMs"@)) {
        (Some(a), Some(b)) => a / 1000 == b / 1000,
        (None, None) => true,
        _ => false,
    }
}

/// Spinner frames and sub-second clocks do not change what is read: two
/// details values that report the same facts are read alike.
pub proof fn lemma_unread_changes_are_coalesced(a: AgentDetails, b: AgentDetails, v: Json, w: Json)
    requires
        a.reports(v),
        b.reports(w),
        same_facts(v, w),
    ensures
        a.same_facts_as(b),
{
    assert(detail_text(v, "displayName"@) == detail_text(w, "displayName"@));
    assert(detail_text(v, "subagentType"@) == detail_text(w, "subagentType"@));
    assert(detail_text(v, "status"@) == detail_text(w, "status"@));
    assert(detail_text(v, "description"@) == detail_text(w, "description"@));
    assert(detail_text(v, "activity"@) == detail_text(w, "activity"@));
    assert(detail_text(v, "modelName"@) == detail_text(w, "modelName"@));
    assert(detail_text(v, "agentId"@) == detail_text(w, "agentId"@));
    assert(detail_text(v, "runId"@) == detail_text(w, "runId"@));
    assert(detail_text(v, "tokens"@) == detail_text(w, "tokens"@));
    assert(detail_text(v, "error"@) == detail_text(w, "error"@));
    assert(detail_text(v, "taskOutcome"@) == detail_text(w, "taskOutcome"@));
}

/// How a child's reported status is shown.
#[derive(Clone, Debug, PartialEq, Eq)]
pub enum AgentState {
    Queued,
    Running,
    Completed,
    Steered,
    Stopped,
    Failed,
    /// The spawn tool has returned, not the child.
    Background,
    Unknown,
    /// A state this version does not know, kept as reported.
    Other(String),
}

/// The label of a child's state. `last_known` marks a running or queued
/// state that only history reports: it is the last state seen, not a live one.
#[derive(Clone, Debug, PartialEq, Eq)]
pub struct StateLabel {
    pub state: AgentState,
    pub last_known: bool,
}

/// The colour class of a child's summary.
#[derive(Clone, Copy, Debug, PartialEq, Eq)]
pub enum Tone {
    Error,
    Success,
    Neutral,
}

/// The one-line summary of a child: its state, its run time as `m:ss`, its
/// tool count and its token report, each shown when known.
#[derive(Clone, Debug, PartialEq, Eq)]
pub struct AgentSummary {
    pub state: StateLabel,
    pub clock: Option<String>,
    pub tools: Option<u64>,
    pub tokens: Option<String>,
}

impl AgentSummary {
    /// The parts of the summary line: the state's label, the clock, the
    /// tool count's label and the token report, each when known.
    pub open spec fn parts(self, state_text: Seq<char>, tools_text: Seq<char>) -> Seq<Seq<char>> {
        seq![state_text] + (match self.clock {
            Some(c) => seq![c@],
            None => seq![],
        }) + (match self.tools {
            Some(_) => seq![tools_text],
            None => seq![],
        }) + (match self.tokens {
            Some(t) => seq![t@],
            None => seq![],
        })
    }

    /// The summary line: its parts separated by `" · "`. The caller gives
    /// the localized label of the state and of the tool count.
    pub fn line(&self, state_text: &str, tools_text: &str) -> (res: String)
        ensures
            res@ == joined(self.parts(state_text@, tools_text@), " · "@),
    {
        let mut parts: Vec<String> = Vec::new();
        parts.push(state_text.to_owned());
        match &self.clock {
            Some(c) => parts.push(c.clone()),
            None => {},
        }
        match self.tools {
            Some(_) => parts.push(tools_text.to_owned()),
            None => {},
        }
        match &self.tokens {
            Some(t) => parts.push(t.clone()),
            None => {},
        }
        proof {
            assert(parts@.map_values(|p: String| p@) =~= self.parts(state_text@, tools_text@));
        }
        join(&parts, " · ")
    }
}

/// `m:ss` of a number of seconds.
pub open spec fn clock(secs: nat) -> Seq<char> {
    decimal(secs / 60) + seq![':'] + two_digits(secs % 60)
}

/// The run time of a child as `m:ss`.
pub fn clock_text(secs: u64) -> (res: String)
    ensures
        res@ == clock(secs as nat),
{
    let mut s = String::new();
    push_decimal(&mut s, secs / 60);
    push_char(&mut s, ':');
    let rem = secs % 60;
    if rem < 10 {
        push_char(&mut s, '0');
    }
    push_decimal(&mut s, rem);
    proof {
        assert(s@ =~= clock(secs as nat));
    }
    s
}

/// The state shown for a reported status; a status this version does not
/// know is kept as it was reported, never shown as completed.
pub open spec fn shows_state(state: AgentState, status: Seq<char>) -> bool {
    if status == "queued"@ {
        state == AgentState::Queued
    } else if status == "running"@ {
        state == AgentState::Running
    } else if status == "completed"@ {
        state == AgentState::Completed
    } else if status == "steered"@ {
        state == AgentState::Steered
    } else if status == "aborted"@ || status == "stopped"@ {
        state == AgentState::Stopped
    } else if status == "error"@ {
        state == AgentState::Failed
    } else if status == "background"@ {
        state == AgentState::Background
    } else if status == "unknown"@ {
        state == AgentState::Unknown
    } else {
        state matches AgentState::Other(s) && s@ == status
    }
}

/// `text(key)`: an owned copy of the non-empty string under `key`.
fn text_field(value: &Json, key: &str) -> (res: Option<String>)
    ensures
        opt_text(res) == detail_text(*value, key@),
{
    match value.get(key) {
        Some(v) => match v.as_text() {
            Some(s) => if s.as_str().is_empty() {
                None
            } else {
                Some(s.clone())
            },
            None => None,
        },
        None => None,
    }
}

/// `value.get(key).and_then(as_u64)`.
fn u64_field(value: &Json, key: &str) -> (res: Option<u64>)
    ensures
        res == detail_u64(*value, key@),
{
    match value.get(key) {
        Some(v) => v.as_u64(),
        None => None,
    }
}

/// The string tags of the details.
fn tags_field(value: &Json) -> (res: Vec<String>)
    ensures
        res@.map_values(|s: String| s@) == detail_tags(*value),
{
    let mut out: Vec<String> = Vec::new();
    match value.get("tags") {
        Some(v) => match v.as_items() {
            Some(items) => {
                let mut i: usize = 0;
                while i < items.len()
                    invariant
                        i <= items.len(),
                        out@.map_values(|s: String| s@) == string_items(items@.take(i as int)),
                    decreases items.len() - i,
                {
                    proof {
                        assert(items@.take(i + 1).drop_last() =~= items@.take(i as int));
                    }
                    match items[i].as_text() {
                        Some(s) => {
                            out.push(s.clone());
                            proof {
                                assert(out@.map_values(|s: String| s@) =~= string_items(
                                    items@.take(i as int),
                                ).push(s@));
                            }
                        },
                        None => {},
                    }
                    i = i + 1;
                }
                proof {
                    assert(items@.take(items@.len() as int) =~= items@);
                }
            },
            None => {
                proof {
                    assert(out@.map_values(|s: String| s@) =~= Seq::<Seq<char>>::empty());
                }
            },
        },
        None => {
            proof {
                assert(out@.map_values(|s: String| s@) =~= Seq::<Seq<char>>::empty());
            }
        },
    }
    out
}

impl AgentDetails {
    /// The fields of `self` are those that `v` reports (everything but
    /// liveness, which the caller decides).
    pub open spec fn reports(self, v: Json) -> bool {
        &&& Some(self.name@) == detail_text(v, "displayName"@)
        &&& Some(self.kind@) == detail_text(v, "subagentType"@)
        &&& Some(self.status@) == detail_text(v, "status"@)
        &&& self.description@ == match detail_text(v, "description"@) {
            Some(s) => s,
            None => Seq::<char>::empty(),
        }
        &&& opt_text(self.activity) == detail_text(v, "activity"@)
        &&& opt_text(self.model) == detail_text(v, "modelName"@)
        &&& self.tags@.map_values(|s: String| s@) == detail_tags(v)
        &&& opt_text(self.id) == detail_text(v, "agentId"@)
        &&& opt_text(self.run_id) == detail_text(v, "runId"@)
        &&& self.tools == detail_u64(v, "toolUses"@)
        &&& opt_text(self.tokens) == detail_text(v, "tokens"@)
        &&& self.duration_secs == match detail_u64(v, "durationMs"@) {
            Some(ms) => Some((ms / 1000) as u64),
            None => None,
        }
        &&& self.turns == detail_u64(v, "turnCount"@)
        &&& self.max_turns == match detail_u64(v, "maxTurns"@) {
            Some(n) => if n > 0 {
                Some(n)
            } else {
                None
            },
            None => None,
        }
        &&& self.cost == detail_cost(v)
        &&& opt_text(self.error) == detail_text(v, "error"@)
        &&& opt_text(self.outcome) == detail_text(v, "taskOutcome"@)
    }

    /// Every field of the two details reads the same (liveness aside).
    pub open spec fn same_facts_as(self, other: AgentDetails) -> bool {
        &&& self.name@ == other.name@
        &&& self.description@ == other.description@
        &&& self.kind@ == other.kind@
        &&& self.status@ == other.status@
        &&& opt_text(self.activity) == opt_text(other.activity)
        &&& opt_text(self.model) == opt_text(other.model)
        &&& self.tags@.map_values(|s: String| s@) == other.tags@.map_values(|s: String| s@)
        &&& opt_text(self.id) == opt_text(other.id)
        &&& opt_text(self.run_id) == opt_text(other.run_id)
        &&& self.tools == other.tools
        &&& opt_text(self.tokens) == opt_text(other.tokens)
        &&& self.duration_secs == other.duration_secs
        &&& self.turns == other.turns
        &&& self.max_turns == other.max_turns
        &&& self.cost == other.cost
        &&& opt_text(self.error) == opt_text(other.error)
        &&& opt_text(self.outcome) == opt_text(other.outcome)
    }

    /// A running or queued state that no live progress event backs.
    pub open spec fn is_last_known(self) -> bool {
        !self.live && (self.status@ == "running"@ || self.status@ == "queued"@)
    }

    /// The tone of the reported status.
    pub open spec fn tone_of(self) -> Tone {
        if self.status@ == "error"@ {
            Tone::Error
        } else if self.status@ == "completed"@ {
            Tone::Success
        } else {
            Tone::Neutral
        }
    }

    /// The label of the reported state.
    pub fn state_label(&self) -> (res: StateLabel)
        ensures
            shows_state(res.state, self.status@),
            res.last_known == self.is_last_known(),
    {
        let status = self.status.as_str();
        let state = if str_eq(status, "queued") {
            AgentState::Queued
        } else if str_eq(status, "running") {
            AgentState::Running
        } else if str_eq(status, "completed") {
            AgentState::Completed
        } else if str_eq(status, "steered") {
            AgentState::Steered
        } else if str_eq(status, "aborted") || str_eq(status, "stopped") {
            AgentState::Stopped
        } else if str_eq(status, "error") {
            AgentState::Failed
        } else if str_eq(status, "background") {
            AgentState::Background
        } else if str_eq(status, "unknown") {
            AgentState::Unknown
        } else {
            AgentState::Other(self.status.clone())
        };
        let last_known = !self.live && (str_eq(status, "running") || str_eq(status, "queued"));
        StateLabel { state, last_known }
    }

    /// The tone of the summary: failures and completions stand out.
    pub fn tone(&self) -> (res: Tone)
        ensures
            res == self.tone_of(),
    {
        let status = self.status.as_str();
        if str_eq(status, "error") {
            Tone::Error
        } else if str_eq(status, "completed") {
            Tone::Success
        } else {
            Tone::Neutral
        }
    }

    /// The one-line summary of the child.
    pub fn summary(&self) -> (res: AgentSummary)
        ensures
            shows_state(res.state.state, self.status@),
            res.state.last_known == self.is_last_known(),
            opt_text(res.clock) == match self.duration_secs {
                Some(secs) => Some(clock(secs as nat)),
                None => None,
            },
            res.tools == self.tools,
            opt_text(res.tokens) == opt_text(self.tokens),
    {
        let clock = match self.duration_secs {
            Some(secs) => Some(clock_text(secs)),
            None => None,
        };
        let tokens = match &self.tokens {
            Some(t) => Some(t.clone()),
            None => None,
        };
        AgentSummary { state: self.state_label(), clock, tools: self.tools, tokens }
    }

    /// Match the extension's structured AgentDetails shape, not tool names or
    /// prose. Optional malformed fields do not hide otherwise useful facts.
    pub fn from_details(value: &Json) -> (res: Option<AgentDetails>)
        ensures
            res is Some <==> is_agent_details(*value),
            res matches Some(a) ==> a.reports(*value) && !a.live,
    {
        let name = match text_field(value, "displayName") {
            Some(s) => s,
            None => return None,
        };
        let kind = match text_field(value, "subagentType") {
            Some(s) => s,
            None => return None,
        };
        let status = match text_field(value, "status") {
            Some(s) => s,
            None => return None,
        };
        let description = match text_field(value, "description") {
            Some(s) => s,
            None => String::new(),
        };
        let cost = match value.get("cost") {
            Some(Json::Number(n)) => if n.positive() {
                Some(n.copied())
            } else {
                None
            },
            _ => None,
        };
        let duration_secs = match u64_field(value, "durationMs") {
            Some(ms) => Some(ms / 1000),
            None => None,
        };
        let max_turns = match u64_field(value, "maxTurns") {
            Some(n) => if n > 0 {
                Some(n)
            } else {
                None
            },
            None => None,
        };
        Some(
            AgentDetails {
                name,
                kind,
                description,
                status,
                live: false,
                activity: text_field(value, "activity"),
                model: text_field(value, "modelName"),
                tags: tags_field(value),
                id: text_field(value, "agentId"),
                run_id: text_field(value, "runId"),
                tools: u64_field(value, "toolUses"),
                tokens: text_field(value, "tokens"),
                duration_secs,
                turns: u64_field(value, "turnCount"),
                max_turns,
                cost,
                error: text_field(value, "error"),
                outcome: text_field(value, "taskOutcome"),
            },
        )
    }
}

/// What a fact row of the inspector names.
#[derive(Clone, Copy, Debug, PartialEq, Eq)]
pub enum FactKind {
    Type,
    Model,
    Configuration,
    Id,
    RunId,
    Turns,
    EstimatedCost,
    Outcome,
}

/// The value of a fact row: text, or the reported cost (its display is a
/// matter of floating point and left to the caller).
#[derive(Clone, Debug, PartialEq, Eq)]
pub enum FactValue {
    Text(String),
    Cost(JsonNumber),
}

/// One fact row of the inspector.
#[derive(Clone, Debug, PartialEq, Eq)]
pub struct Fact {
    pub kind: FactKind,
    pub value: FactValue,
}

/// What a text section of the inspector shows.
#[derive(Clone, Copy, Debug, PartialEq, Eq)]
pub enum SectionKind {
    Task,
    Activity,
    Prompt,
    Error,
    ReportedOutput,
}

/// One text section of the inspector, with its full text (painting bounds
/// the preview; copying takes all of it).
#[derive(Clone, Debug, PartialEq, Eq)]
pub struct Section {
    pub kind: SectionKind,
    pub text: String,
}

/// A fact row in plain values.
pub enum FactView {
    Text(FactKind, Seq<char>),
    Cost(FactKind, JsonNumber),
}

impl Fact {
    pub open spec fn view_of(self) -> FactView {
        match self.value {
            FactValue::Text(t) => FactView::Text(self.kind, t@),
            FactValue::Cost(n) => FactView::Cost(self.kind, n),
        }
    }
}

/// A text fact when the text is known.
pub open spec fn text_fact(kind: FactKind, t: Option<Seq<char>>) -> Seq<FactView> {
    match t {
        Some(t) => seq![FactView::Text(kind, t)],
        None => seq![],
    }
}

/// The turn count as `turns` or `turns / max`.
pub open spec fn turns_text(turns: u64, max: Option<u64>) -> Seq<char> {
    match max {
        Some(m) => decimal(turns as nat) + " / "@ + decimal(m as nat),
        None => decimal(turns as nat),
    }
}

/// The fact rows of the inspector, in order: type, model, configuration
/// tags, id, run id, turns, estimated cost and outcome, each when known.
pub open spec fn facts_of(a: AgentDetails) -> Seq<FactView> {
    seq![FactView::Text(FactKind::Type, a.kind@)]
        + text_fact(FactKind::Model, opt_text(a.model))
        + (if a.tags.len() > 0 {
            seq![FactView::Text(FactKind::Configuration, joined(a.tags@.map_values(|t: String| t@), " · "@))]
        } else {
            seq![]
        })
        + text_fact(FactKind::Id, opt_text(a.id))
        + text_fact(FactKind::RunId, opt_text(a.run_id))
        + (match a.turns {
            Some(t) => seq![FactView::Text(FactKind::Turns, turns_text(t, a.max_turns))],
            None => seq![],
        })
        + (match a.cost {
            Some(n) => seq![FactView::Cost(FactKind::EstimatedCost, n)],
            None => seq![],
        })
        + text_fact(FactKind::Outcome, opt_text(a.outcome))
}

/// A text section when the text is known.
pub open spec fn text_section(kind: SectionKind, t: Option<Seq<char>>) -> Seq<(SectionKind, Seq<char>)> {
    match t {
        Some(t) => seq![(kind, t)],
        None => seq![],
    }
}

/// The text of reported output: a string as it is, anything else as JSON.
pub open spec fn output_text(output: Json) -> Seq<char> {
    match output.text_of() {
        Some(s) => s,
        None => printed_json(output),
    }
}

/// The text sections of the inspector, in order: the task (when not empty),
/// the current activity, the prompt from the tool's arguments, the error,
/// and the reported output.
pub open spec fn sections_of(a: AgentDetails, args: Option<Json>, output: Option<Json>) -> Seq<
    (SectionKind, Seq<char>),
> {
    (if a.description@.len() > 0 {
        seq![(SectionKind::Task, a.description@)]
    } else {
        seq![]
    }) + text_section(SectionKind::Activity, opt_text(a.activity)) + text_section(
        SectionKind::Prompt,
        match args {
            Some(v) => v.at("prompt"@).text_of(),
            None => None,
        },
    ) + text_section(SectionKind::Error, opt_text(a.error)) + text_section(
        SectionKind::ReportedOutput,
        match output {
            Some(o) => Some(output_text(o)),
            None => None,
        },
    )
}

/// Appends a text fact when the text is known.
fn push_text_fact(facts: &mut Vec<Fact>, kind: FactKind, t: &Option<String>)
    ensures
        final(facts)@.map_values(|f: Fact| f.view_of()) == old(facts)@.map_values(
            |f: Fact| f.view_of(),
        ) + text_fact(kind, opt_text(*t)),
{
    let ghost before = facts@;
    match t {
        Some(t) => {
            facts.push(Fact { kind, value: FactValue::Text(t.clone()) });
        },
        None => {},
    }
    proof {
        assert(facts@.map_values(|f: Fact| f.view_of()) =~= before.map_values(|f: Fact| f.view_of())
            + text_fact(kind, opt_text(*t)));
    }
}

/// Appends a text section when the text is known.
fn push_section(sections: &mut Vec<Section>, kind: SectionKind, t: Option<String>)
    ensures
        final(sections)@.map_values(|s: Section| (s.kind, s.text@)) == old(sections)@.map_values(
            |s: Section| (s.kind, s.text@),
        ) + text_section(kind, opt_text(t)),
{
    let ghost before = sections@;
    match t {
        Some(t) => {
            sections.push(Section { kind, text: t });
        },
        None => {},
    }
    proof {
        assert(sections@.map_values(|s: Section| (s.kind, s.text@)) =~= before.map_values(
            |s: Section| (s.kind, s.text@),
        ) + text_section(kind, opt_text(t)));
    }
}

impl AgentDetails {
    /// The fact rows of the inspector.
    pub fn inspector_facts(&self) -> (res: Vec<Fact>)
        ensures
            res@.map_values(|f: Fact| f.view_of()) == facts_of(*self),
    {
        let mut facts: Vec<Fact> = Vec::new();
        facts.push(Fact { kind: FactKind::Type, value: FactValue::Text(self.kind.clone()) });
        proof {
            assert(facts@.map_values(|f: Fact| f.view_of()) =~= seq![
                FactView::Text(FactKind::Type, self.kind@),
            ]);
        }
        push_text_fact(&mut facts, FactKind::Model, &self.model);
        let ghost before_tags = facts@;
        if self.tags.len() > 0 {
            let tags = join(&self.tags, " · ");
            facts.push(Fact { kind: FactKind::Configuration, value: FactValue::Text(tags) });
        }
        proof {
            assert(facts@.map_values(|f: Fact| f.view_of()) =~= before_tags.map_values(
                |f: Fact| f.view_of(),
            ) + (if self.tags.len() > 0 {
                seq![FactView::Text(FactKind::Configuration, joined(self.tags@.map_values(|t: String| t@), " · "@))]
            } else {
                seq![]
            }));
        }
        push_text_fact(&mut facts, FactKind::Id, &self.id);
        push_text_fact(&mut facts, FactKind::RunId, &self.run_id);
        let ghost before_turns = facts@;
        match self.turns {
            Some(t) => {
                let mut text = String::new();
                push_decimal(&mut text, t);
                match self.max_turns {
                    Some(m) => {
                        text.append(" / ");
                        push_decimal(&mut text, m);
                    },
                    None => {},
                }
                proof {
                    assert(text@ =~= turns_text(t, self.max_turns));
                }
                facts.push(Fact { kind: FactKind::Turns, value: FactValue::Text(text) });
            },
            None => {},
        }
        proof {
            assert(facts@.map_values(|f: Fact| f.view_of()) =~= before_turns.map_values(
                |f: Fact| f.view_of(),
            ) + match self.turns {
                Some(t) => seq![FactView::Text(FactKind::Turns, turns_text(t, self.max_turns))],
                None => seq![],
            });
        }
        let ghost before_cost = facts@;
        match &self.cost {
            Some(n) => {
                facts.push(Fact { kind: FactKind::EstimatedCost, value: FactValue::Cost(n.copied()) });
            },
            None => {},
        }
        proof {
            assert(facts@.map_values(|f: Fact| f.view_of()) =~= before_cost.map_values(
                |f: Fact| f.view_of(),
            ) + match self.cost {
                Some(n) => seq![FactView::Cost(FactKind::EstimatedCost, n)],
                None => seq![],
            });
        }
        push_text_fact(&mut facts, FactKind::Outcome, &self.outcome);
        proof {
            assert(facts@.map_values(|f: Fact| f.view_of()) =~= facts_of(*self));
        }
        facts
    }

    /// The text sections of the inspector, from the details, the tool call's
    /// arguments and the output the tool reported.
    pub fn inspector_sections(&self, args: Option<&Json>, output: Option<&Json>) -> (res: Vec<
        Section,
    >)
        ensures
            res@.map_values(|s: Section| (s.kind, s.text@)) == sections_of(
                *self,
                match args {
                    Some(a) => Some(*a),
                    None => None,
                },
                match output {
                    Some(o) => Some(*o),
                    None => None,
                },
            ),
    {
        let mut sections: Vec<Section> = Vec::new();
        let description = if self.description.as_str().is_empty() {
            None
        } else {
            Some(self.description.clone())
        };
        push_section(&mut sections, SectionKind::Task, description);
        let activity = match &self.activity {
            Some(a) => Some(a.clone()),
            None => None,
        };
        push_section(&mut sections, SectionKind::Activity, activity);
        let prompt = match args {
            Some(a) => match a.text_at("prompt") {
                Some(p) => Some(p.clone()),
                None => None,
            },
            None => None,
        };
        push_section(&mut sections, SectionKind::Prompt, prompt);
        let error = match &self.error {
            Some(e) => Some(e.clone()),
            None => None,
        };
        push_section(&mut sections, SectionKind::Error, error);
        let reported = match output {
            Some(o) => match o.as_text() {
                Some(t) => Some(t.clone()),
                None => Some(print_json(o)),
            },
            None => None,
        };
        push_section(&mut sections, SectionKind::ReportedOutput, reported);
        proof {
            assert(sections@.map_values(|s: Section| (s.kind, s.text@)) =~= sections_of(
                *self,
                match args {
                    Some(a) => Some(*a),
                    None => None,
                },
                match output {
                    Some(o) => Some(*o),
                    None => None,
                },
            ));
        }
        sections
    }
}

/// Only a completed child is painted as a success and only a failed one as
/// an error; every other status, such as a background child whose spawn
/// tool merely returned, is neutral.
pub proof fn lemma_tone_follows_status(a: AgentDetails)
    ensures
        (a.tone_of() == Tone::Success) <==> a.status@ == "completed"@,
        (a.tone_of() == Tone::Error) <==> a.status@ == "error"@,
        a.status@ != "completed"@ && a.status@ != "error"@ ==> a.tone_of() == Tone::Neutral,
{
    reveal_strlit("error");
    reveal_strlit("completed");
    assert("error"@.len() != "completed"@.len());
}

/// The reported activity is shown whatever the status: when the details
/// carry one, the sections hold exactly one activity section with exactly
/// that text, after the task and before every other section; without one
/// there is no activity section.
pub proof fn lemma_activity_is_always_shown(a: AgentDetails, args: Option<Json>, output: Option<Json>)
    ensures
        match a.activity {
            Some(t) => {
                let secs = sections_of(a, args, output);
                let i: int = if a.description@.len() > 0 { 1 } else { 0 };
                &&& 0 <= i < secs.len()
                &&& secs[i] == (SectionKind::Activity, t@)
                &&& forall|j: int| 0 <= j < i ==> #[trigger] secs[j].0 == SectionKind::Task
                &&& forall|j: int|
                    0 <= j < secs.len() && j != i ==> #[trigger] secs[j].0 != SectionKind::Activity
            },
            None => forall|j: int|
                0 <= j < sections_of(a, args, output).len() ==> #[trigger] sections_of(
                    a,
                    args,
                    output,
                )[j].0 != SectionKind::Activity,
        },
{
    let task: Seq<(SectionKind, Seq<char>)> = if a.description@.len() > 0 {
        seq![(SectionKind::Task, a.description@)]
    } else {
        seq![]
    };
    let act = text_section(SectionKind::Activity, opt_text(a.activity));
    let prompt = text_section(
        SectionKind::Prompt,
        match args {
            Some(v) => v.at("prompt"@).text_of(),
            None => None,
        },
    );
    let err = text_section(SectionKind::Error, opt_text(a.error));
    let out = text_section(
        SectionKind::ReportedOutput,
        match output {
            Some(o) => Some(output_text(o)),
            None => None,
        },
    );
    let rest = prompt + err + out;
    assert(forall|j: int| 0 <= j < rest.len() ==> #[trigger] rest[j].0 != SectionKind::Activity) by {
        assert forall|j: int| 0 <= j < rest.len() implies #[trigger] rest[j].0 != SectionKind::Activity by {
            if j < prompt.len() {
                assert(rest[j] == prompt[j]);
            } else if j < prompt.len() + err.len() {
                assert(rest[j] == (prompt + err)[j]);
            } else {
                assert(rest[j] == out[j - prompt.len() - err.len()]);
            }
        }
    }
    let secs = sections_of(a, args, output);
    assert(secs =~= task + act + rest);
    assert forall|j: int| 0 <= j < task.len() implies #[trigger] task[j].0 == SectionKind::Task by {}
    assert forall|j: int| 0 <= j < secs.len() && j >= task.len() + act.len() implies #[trigger] secs[j].0
        != SectionKind::Activity by {
        assert(secs[j] == rest[j - task.len() - act.len()]);
    }
    assert forall|j: int| 0 <= j < secs.len() && j < task.len() implies #[trigger] secs[j].0
        == SectionKind::Task by {
        assert(secs[j] == task[j]);
    }
}

} // verus!

