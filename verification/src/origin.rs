//! Conservative discovery of subagent sessions, independent of display titles.
//! Names alone and pi's generic `parentSession` (also used by clones) are not
//! evidence. Reading files is the caller's part: the resolver asks for the
//! lines of a parent transcript and decides from what it is given.
use vstd::prelude::*;
use vstd::hash_map::StringHashMap;
use vstd::hash_set::StringHashSet;
use vstd::utf8::is_ascii_chars;

use crate::agents::{detail_text, is_agent_details, AgentDetails};
use crate::json::{parse_json, parsed_json, Json};
use crate::text::{chars_of, newlines_to_spaces, owned, replace_newlines, str_eq, string_of, trim, trimmed};

verus! {

/// A session recognised as a subagent: the parent transcript that spawned it
/// and the kind of agent it runs.
#[derive(Clone, Debug, PartialEq, Eq)]
pub struct SubagentOrigin {
    pub parent: String,
    pub kind: String,
}

/// How the platform spells session paths.
#[derive(Clone, Copy, Debug, PartialEq, Eq)]
pub enum PathStyle {
    /// Paths are compared by their text.
    Unix,
    /// Separators, the verbatim `\\?\` prefix and letter case do not
    /// distinguish paths.
    Windows,
}

/// Every `\` of a path read as `/`.
pub open spec fn forward_slashes(p: Seq<char>) -> Seq<char> {
    p.map_values(|c: char| if c == '\\' { '/' } else { c })
}

/// The verbatim path prefix `//?/` (`\\?\` with forward slashes).
pub open spec fn verbatim_prefix() -> Seq<char> {
    seq!['/', '/', '?', '/']
}

/// `trim_start_matches("//?/")`: every leading verbatim prefix removed.
pub open spec fn strip_verbatim(p: Seq<char>) -> Seq<char>
    decreases p.len(),
{
    if p.len() >= 4 && p.take(4) == verbatim_prefix() {
        strip_verbatim(p.skip(4))
    } else {
        p
    }
}

/// The text that `str::to_lowercase` gives (Unicode lower case).
pub uninterp spec fn lowercased(s: Seq<char>) -> Seq<char>;

/// A Windows path with forward slashes and without the verbatim prefix.
pub open spec fn folded(path: Seq<char>) -> Seq<char> {
    strip_verbatim(forward_slashes(path))
}

/// The key under which a session path is compared: its text, or on Windows
/// its text with forward slashes, without the verbatim prefix, in lower case.
pub open spec fn key_of(path: Seq<char>, style: PathStyle) -> Seq<char> {
    match style {
        PathStyle::Unix => path,
        PathStyle::Windows => lowercased(folded(path)),
    }
}

/// What is left after the verbatim prefixes is a suffix of the path.
proof fn lemma_strip_verbatim_is_suffix(p: Seq<char>)
    ensures
        strip_verbatim(p).len() <= p.len(),
        strip_verbatim(p) == p.skip(p.len() - strip_verbatim(p).len()),
    decreases p.len(),
{
    if p.len() >= 4 && p.take(4) == verbatim_prefix() {
        lemma_strip_verbatim_is_suffix(p.skip(4));
        let s = strip_verbatim(p.skip(4));
        assert(p.skip(4).skip(p.skip(4).len() - s.len()) =~= p.skip(p.len() - s.len()));
    } else {
        assert(p.skip(0) =~= p);
    }
}

/// Stripping the verbatim prefixes a second time strips nothing.
proof fn lemma_strip_verbatim_is_stable(p: Seq<char>)
    ensures
        strip_verbatim(strip_verbatim(p)) == strip_verbatim(p),
    decreases p.len(),
{
    if p.len() >= 4 && p.take(4) == verbatim_prefix() {
        lemma_strip_verbatim_is_stable(p.skip(4));
    }
}

/// Folding a path twice is folding it once, verbatim prefixes repeated or
/// not, and on Windows a path keys as its folded text does. (Whether a
/// second lower-casing changes the key is a matter of std's Unicode case
/// mapping, which `lowercased` only names.) On Unix a key is its own key.
pub proof fn lemma_path_folding_is_stable(path: Seq<char>)
    ensures
        folded(folded(path)) == folded(path),
        key_of(folded(path), PathStyle::Windows) == key_of(path, PathStyle::Windows),
        key_of(key_of(path, PathStyle::Unix), PathStyle::Unix) == key_of(path, PathStyle::Unix),
{
    let q = forward_slashes(path);
    assert(forward_slashes(q) =~= q);
    let s = strip_verbatim(q);
    lemma_strip_verbatim_is_suffix(q);
    let j = q.len() - s.len();
    assert(forward_slashes(s) =~= s) by {
        assert forall|i: int| 0 <= i < s.len() implies forward_slashes(s)[i] == s[i] by {
            assert(s[i] == q[i + j]);
            assert(q[i + j] == forward_slashes(q)[i + j]);
        }
    }
    lemma_strip_verbatim_is_stable(q);
}

/// `str::to_lowercase`. The contract names the result; Unicode's case
/// mapping is std's and is not restated.
#[verifier::external_body]
fn to_lowercase(s: &str) -> (res: String)
    ensures
        res@ == lowercased(s@),
{
    s.to_lowercase()
}

/// The key under which a session path is compared.
pub fn path_key(path: &str, style: PathStyle) -> (res: String)
    ensures
        res@ == key_of(path@, style),
{
    match style {
        PathStyle::Unix => owned(path),
        PathStyle::Windows => {
            let cs = chars_of(path);
            let mut slashed: Vec<char> = Vec::new();
            let mut i: usize = 0;
            while i < cs.len()
                invariant
                    i <= cs.len(),
                    cs@ == path@,
                    slashed@ == forward_slashes(cs@.take(i as int)),
                decreases cs.len() - i,
            {
                let c = if cs[i] == '\\' {
                    '/'
                } else {
                    cs[i]
                };
                slashed.push(c);
                proof {
                    assert(forward_slashes(cs@.take(i + 1)) =~= forward_slashes(cs@.take(i as int)).push(c));
                }
                i = i + 1;
            }
            proof {
                assert(cs@.take(cs@.len() as int) =~= cs@);
            }
            let mut start: usize = 0;
            proof {
                assert(slashed@.skip(0) =~= slashed@);
            }
            while slashed.len() - start >= 4 && slashed[start] == '/' && slashed[start + 1] == '/'
                && slashed[start + 2] == '?' && slashed[start + 3] == '/'
                invariant
                    start <= slashed.len(),
                    strip_verbatim(slashed@) == strip_verbatim(slashed@.skip(start as int)),
                decreases slashed.len() - start,
            {
                proof {
                    let rest = slashed@.skip(start as int);
                    assert(rest.take(4) =~= verbatim_prefix());
                    assert(rest.skip(4) =~= slashed@.skip(start + 4));
                }
                start = start + 4;
            }
            proof {
                let rest = slashed@.skip(start as int);
                if rest.len() >= 4 {
                    assert(rest.take(4) != verbatim_prefix()) by {
                        if rest.take(4) == verbatim_prefix() {
                            assert(rest.take(4)[0] == slashed@[start as int]);
                            assert(rest.take(4)[1] == slashed@[start + 1]);
                            assert(rest.take(4)[2] == slashed@[start + 2]);
                            assert(rest.take(4)[3] == slashed@[start + 3]);
                        }
                    }
                }
            }
            let mut kept: Vec<char> = Vec::new();
            let mut j: usize = start;
            while j < slashed.len()
                invariant
                    start <= j <= slashed.len(),
                    kept@ == slashed@.subrange(start as int, j as int),
                decreases slashed.len() - j,
            {
                proof {
                    assert(slashed@.subrange(start as int, j + 1) =~= slashed@.subrange(
                        start as int,
                        j as int,
                    ).push(slashed@[j as int]));
                }
                kept.push(slashed[j]);
                j = j + 1;
            }
            proof {
                assert(kept@ =~= slashed@.skip(start as int));
            }
            let text = string_of(&kept);
            to_lowercase(text.as_str())
        },
    }
}

/// The first eight characters of an agent id, when the id is ASCII and at
/// least that long.
pub open spec fn short_id(id: Seq<char>) -> Option<Seq<char>> {
    if id.len() >= 8 && is_ascii_chars(id) {
        Some(id.take(8))
    } else {
        None
    }
}

/// The short id that a settled `subagents:record` entry records.
pub open spec fn record_ids(v: Json) -> Set<Seq<char>> {
    if v.at("type"@).is_text("custom"@) && v.at("customType"@).is_text("subagents:record"@) {
        match v.at("data"@).at("id"@).text_of() {
            Some(id) => match short_id(id) {
                Some(s) => set![s],
                None => Set::empty(),
            },
            None => Set::empty(),
        }
    } else {
        Set::empty()
    }
}

/// The short id of the agent that a message's AgentDetails report.
pub open spec fn reported_ids(v: Json) -> Set<Seq<char>> {
    let details = v.at("message"@).at("details"@);
    if v.at("type"@).is_text("message"@) && is_agent_details(details) {
        match detail_text(details, "agentId"@) {
            Some(id) => match short_id(id) {
                Some(s) => set![s],
                None => Set::empty(),
            },
            None => Set::empty(),
        }
    } else {
        Set::empty()
    }
}

/// The short ids that one entry of a parent transcript records.
pub open spec fn entry_ids(v: Json) -> Set<Seq<char>> {
    record_ids(v) + reported_ids(v)
}

/// The `Agent` spawns among the blocks of an assistant message: the subagent
/// type and the prompt, with line breaks read as spaces.
pub open spec fn block_spawns(blocks: Seq<Json>) -> Seq<(Seq<char>, Seq<char>)>
    decreases blocks.len(),
{
    if blocks.len() == 0 {
        seq![]
    } else {
        let rest = block_spawns(blocks.drop_last());
        let b = blocks.last();
        let args = b.at("arguments"@);
        if b.at("type"@).is_text("toolCall"@) && b.at("name"@).is_text("Agent"@) {
            match (args.at("subagent_type"@).text_of(), args.at("prompt"@).text_of()) {
                (Some(kind), Some(prompt)) => rest.push((kind, newlines_to_spaces(prompt))),
                _ => rest,
            }
        } else {
            rest
        }
    }
}

/// The spawns that one entry of a parent transcript records.
pub open spec fn entry_spawns(v: Json) -> Seq<(Seq<char>, Seq<char>)> {
    let message = v.at("message"@);
    if v.at("type"@).is_text("message"@) && message.at("role"@).is_text("assistant"@) {
        match message.at("content"@).items_of() {
            Some(blocks) => block_spawns(blocks),
            None => seq![],
        }
    } else {
        seq![]
    }
}

/// What a parent transcript says about its children: the short ids of the
/// agents it recorded and the spawns it made.
pub struct Evidence {
    pub ids: Set<Seq<char>>,
    pub spawns: Seq<(Seq<char>, Seq<char>)>,
}

/// The evidence of the entries after the header; lines that are not JSON
/// are skipped.
pub open spec fn body_evidence(lines: Seq<Seq<char>>) -> Evidence
    decreases lines.len(),
{
    if lines.len() == 0 {
        Evidence { ids: Set::empty(), spawns: seq![] }
    } else {
        let before = body_evidence(lines.drop_last());
        match parsed_json(lines.last()) {
            Some(v) => Evidence {
                ids: before.ids + entry_ids(v),
                spawns: before.spawns + entry_spawns(v),
            },
            None => before,
        }
    }
}

/// The evidence of a parent transcript, given its lines: nothing unless the
/// first line is a session header.
pub open spec fn parent_evidence(lines: Seq<Seq<char>>) -> Evidence {
    if lines.len() == 0 {
        Evidence { ids: Set::empty(), spawns: seq![] }
    } else {
        match parsed_json(lines[0]) {
            Some(v) => if v.at("type"@).is_text("session"@) {
                body_evidence(lines.skip(1))
            } else {
                Evidence { ids: Set::empty(), spawns: seq![] }
            },
            None => Evidence { ids: Set::empty(), spawns: seq![] },
        }
    }
}

/// The texts of a list of strings.
pub open spec fn texts(lines: Seq<String>) -> Seq<Seq<char>> {
    lines.map_values(|s: String| s@)
}

/// The evidence found in one parent transcript.
pub struct ParentEvidence {
    agent_ids: StringHashSet,
    spawns: Vec<(String, String)>,
}

impl View for ParentEvidence {
    type V = Evidence;

    closed spec fn view(&self) -> Evidence {
        Evidence {
            ids: self.agent_ids@,
            spawns: self.spawns@.map_values(|p: (String, String)| (p.0@, p.1@)),
        }
    }
}

/// The short id of an agent id, when there is one.
fn short_id_of(id: &String) -> (res: Option<String>)
    ensures
        match res {
            Some(s) => short_id(id@) == Some(s@),
            None => short_id(id@) is None,
        },
{
    let s = id.as_str();
    if s.is_ascii() && s.unicode_len() >= 8 {
        Some(owned(s.substring_ascii(0, 8)))
    } else {
        None
    }
}

impl ParentEvidence {
    /// No evidence.
    pub fn new() -> (res: ParentEvidence)
        ensures
            res@.ids == Set::<Seq<char>>::empty(),
            res@.spawns == Seq::<(Seq<char>, Seq<char>)>::empty(),
    {
        let res = ParentEvidence { agent_ids: StringHashSet::new(), spawns: Vec::new() };
        proof {
            assert(res@.spawns =~= Seq::<(Seq<char>, Seq<char>)>::empty());
        }
        res
    }

    /// Records a short id, when the agent id has one.
    fn add_id(&mut self, id: &String)
        ensures
            final(self)@.spawns == old(self)@.spawns,
            final(self)@.ids == match short_id(id@) {
                Some(s) => old(self)@.ids.insert(s),
                None => old(self)@.ids,
            },
    {
        match short_id_of(id) {
            Some(s) => {
                self.agent_ids.insert(s);
            },
            None => {},
        }
    }

    /// Records the spawns among the blocks of an assistant message.
    fn add_spawns(&mut self, blocks: &Vec<Json>)
        ensures
            final(self)@.ids == old(self)@.ids,
            final(self)@.spawns == old(self)@.spawns + block_spawns(blocks@),
    {
        let mut i: usize = 0;
        proof {
            assert(old(self)@.spawns + block_spawns(blocks@.take(0)) =~= old(self)@.spawns);
        }
        while i < blocks.len()
            invariant
                i <= blocks.len(),
                self@.ids == old(self)@.ids,
                self@.spawns == old(self)@.spawns + block_spawns(blocks@.take(i as int)),
            decreases blocks.len() - i,
        {
            let b = &blocks[i];
            proof {
                assert(blocks@.take(i + 1).drop_last() =~= blocks@.take(i as int));
                assert(blocks@.take(i + 1).last() == blocks@[i as int]);
            }
            if b.field_is("type", "toolCall") && b.field_is("name", "Agent") {
                match b.get("arguments") {
                    Some(args) => match (args.text_at("subagent_type"), args.text_at("prompt")) {
                        (Some(kind), Some(prompt)) => {
                            let pair = (kind.clone(), replace_newlines(prompt.as_str()));
                            let ghost before = self@.spawns;
                            self.spawns.push(pair);
                            proof {
                                assert(b.at("arguments"@) == *args);
                                assert(block_spawns(blocks@.take(i + 1)) == block_spawns(
                                    blocks@.take(i as int),
                                ).push((kind@, newlines_to_spaces(prompt@))));
                                assert(self@.spawns =~= before.push((kind@, newlines_to_spaces(prompt@))));
                                assert(self@.spawns =~= old(self)@.spawns + block_spawns(
                                    blocks@.take(i + 1),
                                ));
                            }
                        },
                        _ => {
                            proof {
                                assert(self@.spawns =~= old(self)@.spawns + block_spawns(
                                    blocks@.take(i + 1),
                                ));
                            }
                        },
                    },
                    None => {
                        proof {
                            assert(self@.spawns =~= old(self)@.spawns + block_spawns(
                                blocks@.take(i + 1),
                            ));
                        }
                    },
                }
            } else {
                proof {
                    assert(self@.spawns =~= old(self)@.spawns + block_spawns(blocks@.take(i + 1)));
                }
            }
            i = i + 1;
        }
        proof {
            assert(blocks@.take(blocks@.len() as int) =~= blocks@);
        }
    }

    /// Records what one entry after the header says.
    fn add_entry(&mut self, v: &Json)
        ensures
            final(self)@.ids == old(self)@.ids + entry_ids(*v),
            final(self)@.spawns == old(self)@.spawns + entry_spawns(*v),
    {
        let ghost start = self@;
        if v.field_is("type", "custom") && v.field_is("customType", "subagents:record") {
            match v.get("data") {
                Some(data) => match data.text_at("id") {
                    Some(id) => self.add_id(id),
                    None => {},
                },
                None => {},
            }
        }
        proof {
            assert(self@.ids =~= start.ids + record_ids(*v));
        }
        let ghost after_record = self@;
        if v.field_is("type", "message") {
            match v.get("message") {
                Some(message) => {
                    match message.get("details") {
                        Some(details) => match AgentDetails::from_details(details) {
                            Some(agent) => match &agent.id {
                                Some(id) => self.add_id(id),
                                None => {},
                            },
                            None => {},
                        },
                        None => {
                            proof {
                                assert(!is_agent_details(Json::Null));
                            }
                        },
                    }
                    if message.field_is("role", "assistant") {
                        match message.get("content") {
                            Some(content) => match content.as_items() {
                                Some(blocks) => self.add_spawns(blocks),
                                None => {},
                            },
                            None => {},
                        }
                    }
                },
                None => {
                    proof {
                        assert(!is_agent_details(Json::Null));
                    }
                },
            }
        }
        proof {
            assert(self@.ids =~= start.ids + entry_ids(*v));
        }
    }
}

/// Reads the evidence of a parent transcript from its lines, as far as the
/// caller read it. One scan per parent and discovery pass: the resolver keeps
/// the result.
pub fn scan_parent(lines: &[String]) -> (res: ParentEvidence)
    ensures
        res@ == parent_evidence(texts(lines@)),
{
    let mut evidence = ParentEvidence::new();
    if lines.len() == 0 {
        return evidence;
    }
    let header = match parse_json(lines[0].as_str()) {
        Some(v) => v,
        None => return evidence,
    };
    if !header.field_is("type", "session") {
        return evidence;
    }
    let ghost all = texts(lines@);
    let mut i: usize = 1;
    proof {
        assert(all.skip(1).take(0) =~= Seq::<Seq<char>>::empty());
        assert(evidence@.ids =~= body_evidence(all.skip(1).take(0)).ids);
    }
    while i < lines.len()
        invariant
            1 <= i <= lines.len(),
            all == texts(lines@),
            evidence@ == body_evidence(all.skip(1).take(i - 1)),
        decreases lines.len() - i,
    {
        proof {
            assert(all.skip(1).take(i as int).drop_last() =~= all.skip(1).take(i - 1));
            assert(all.skip(1).take(i as int).last() == lines@[i as int]@);
        }
        match parse_json(lines[i].as_str()) {
            Some(v) => {
                evidence.add_entry(&v);
            },
            None => {},
        }
        i = i + 1;
    }
    proof {
        assert(all.skip(1).take(lines.len() - 1) =~= all.skip(1));
    }
    evidence
}

/// Whether a character is an ASCII hexadecimal digit (`u8::is_ascii_hexdigit`).
pub open spec fn is_hex(c: char) -> bool {
    ('0' <= c && c <= '9') || ('a' <= c && c <= 'f') || ('A' <= c && c <= 'F')
}

/// The position of the last `#` in a text.
pub open spec fn last_hash(s: Seq<char>) -> Option<int>
    decreases s.len(),
{
    if s.len() == 0 {
        None
    } else if s.last() == '#' {
        Some(s.len() - 1)
    } else {
        last_hash(s.drop_last())
    }
}

/// The initial name that evidence-subagents gives a child, split at its last
/// `#` into the agent kind and an eight-digit hexadecimal short id. A
/// renamed session no longer has it; other names are not subagent names.
pub open spec fn subagent_name(name: Seq<char>) -> Option<(Seq<char>, Seq<char>)> {
    match last_hash(name) {
        Some(k) => {
            let kind = name.take(k);
            let id = name.skip(k + 1);
            if kind.len() > 0 && id.len() == 8 && (forall|i: int| 0 <= i < 8 ==> is_hex(#[trigger] id[i])) {
                Some((kind, id))
            } else {
                None
            }
        },
        None => None,
    }
}

/// Where `last_hash` points, there is a `#`.
proof fn lemma_last_hash(s: Seq<char>)
    ensures
        last_hash(s) matches Some(k) ==> 0 <= k < s.len() && s[k] == '#',
    decreases s.len(),
{
    if s.len() > 0 && s.last() != '#' {
        lemma_last_hash(s.drop_last());
    }
}

/// Whether the evidence of a parent proves a child: a settled record of its
/// short id, or, while it runs, both the fork's child context and an exact
/// spawn of that kind with that prompt.
pub open spec fn attests(
    ev: Evidence,
    kind: Seq<char>,
    id: Seq<char>,
    prompt: Seq<char>,
    child_context: bool,
) -> bool {
    ev.ids.contains(id) || (child_context && ev.spawns.contains((kind, prompt)))
}

/// Splits a subagent name, when it is one.
fn split_subagent_name(name: &str) -> (res: Option<(String, String)>)
    ensures
        match res {
            Some((kind, id)) => subagent_name(name@) == Some((kind@, id@)),
            None => subagent_name(name@) is None,
        },
{
    let cs = chars_of(name);
    let mut last: Option<usize> = None;
    let mut i: usize = 0;
    while i < cs.len()
        invariant
            i <= cs.len(),
            cs@ == name@,
            match last {
                Some(k) => last_hash(cs@.take(i as int)) == Some(k as int),
                None => last_hash(cs@.take(i as int)) is None,
            },
        decreases cs.len() - i,
    {
        proof {
            assert(cs@.take(i + 1).drop_last() =~= cs@.take(i as int));
        }
        if cs[i] == '#' {
            last = Some(i);
        }
        i = i + 1;
    }
    proof {
        assert(cs@.take(cs@.len() as int) =~= cs@);
    }
    let k = match last {
        Some(k) => k,
        None => return None,
    };
    proof {
        lemma_last_hash(cs@);
    }
    if k == 0 || cs.len() - (k + 1) != 8 {
        return None;
    }
    let mut j: usize = k + 1;
    while j < cs.len()
        invariant
            k + 1 <= j <= cs.len(),
            cs.len() == k + 9,
            cs@ == name@,
            last_hash(name@) == Some(k as int),
            forall|t: int| k + 1 <= t < j ==> is_hex(#[trigger] cs@[t]),
        decreases cs.len() - j,
    {
        let c = cs[j];
        if !(('0' <= c && c <= '9') || ('a' <= c && c <= 'f') || ('A' <= c && c <= 'F')) {
            proof {
                let id = name@.skip(k + 1);
                assert(id[j - (k + 1)] == c);
                assert(!is_hex(id[j - (k + 1)]));
            }
            return None;
        }
        j = j + 1;
    }
    let mut kind: Vec<char> = Vec::new();
    let mut t: usize = 0;
    while t < k
        invariant
            t <= k < cs.len(),
            kind@ == cs@.take(t as int),
        decreases k - t,
    {
        proof {
            assert(cs@.take(t + 1) =~= cs@.take(t as int).push(cs@[t as int]));
        }
        kind.push(cs[t]);
        t = t + 1;
    }
    let mut id: Vec<char> = Vec::new();
    let mut u: usize = k + 1;
    while u < cs.len()
        invariant
            k + 1 <= u <= cs.len(),
            id@ == cs@.subrange(k + 1, u as int),
        decreases cs.len() - u,
    {
        proof {
            assert(cs@.subrange(k + 1, u + 1) =~= cs@.subrange(k + 1, u as int).push(cs@[u as int]));
        }
        id.push(cs[u]);
        u = u + 1;
    }
    proof {
        assert(id@ =~= name@.skip(k + 1));
        assert forall|i: int| 0 <= i < 8 implies is_hex(#[trigger] name@.skip(k + 1)[i]) by {
            assert(name@.skip(k + 1)[i] == cs@[k + 1 + i]);
        }
    }
    Some((string_of(&kind), string_of(&id)))
}

/// One parent scan per discovery pass, even when it owns dozens of children.
/// Only files already discovered in pi's store may be followed.
pub struct OriginResolver {
    style: PathStyle,
    paths: StringHashMap<String>,
    parents: StringHashMap<ParentEvidence>,
}

impl OriginResolver {
    /// Every discovered path is filed under its own key.
    #[verifier::type_invariant]
    spec fn paths_under_their_keys(self) -> bool {
        forall|k: Seq<char>|
            #[trigger] self.paths@.contains_key(k) ==> key_of(self.paths@[k]@, self.style) == k
    }
}

/// Each path of the table is filed under its own key.
pub proof fn lemma_path_table_keys(paths: Seq<Seq<char>>, style: PathStyle, k: Seq<char>)
    requires
        path_table(paths, style).contains_key(k),
    ensures
        key_of(path_table(paths, style)[k], style) == k,
    decreases paths.len(),
{
    if paths.len() > 0 && k != key_of(paths.last(), style) {
        lemma_path_table_keys(paths.drop_last(), style, k);
    }
}

/// The discovered paths by key; of several paths with one key the last one.
pub open spec fn path_table(paths: Seq<Seq<char>>, style: PathStyle) -> Map<Seq<char>, Seq<char>>
    decreases paths.len(),
{
    if paths.len() == 0 {
        Map::empty()
    } else {
        path_table(paths.drop_last(), style).insert(key_of(paths.last(), style), paths.last())
    }
}

/// The next step of resolving a session's origin.
#[derive(Debug, PartialEq, Eq)]
pub enum Resolution {
    /// The decision: the origin, or none.
    Decided(Option<SubagentOrigin>),
    /// The lines of this parent transcript are needed first; hand them to
    /// `record_scan` and resolve again.
    ScanParent(String),
}

impl OriginResolver {
    /// How the paths of this pass are spelled.
    pub closed spec fn style(self) -> PathStyle {
        self.style
    }

    /// The session files that discovery found, by key.
    pub closed spec fn known(self) -> Map<Seq<char>, Seq<char>> {
        self.paths@.map_values(|p: String| p@)
    }

    /// The parents scanned so far, by key, with what they showed.
    pub closed spec fn scanned(self) -> Map<Seq<char>, Evidence> {
        self.parents@.map_values(|e: ParentEvidence| e@)
    }

    /// A resolver for the session files of one discovery pass.
    pub fn new(paths: &[String], style: PathStyle) -> (res: OriginResolver)
        ensures
            res.style() == style,
            res.known() == path_table(texts(paths@), style),
            res.scanned() == Map::<Seq<char>, Evidence>::empty(),
    {
        let mut known: StringHashMap<String> = StringHashMap::new();
        let mut i: usize = 0;
        proof {
            assert(known@.map_values(|p: String| p@) =~= path_table(texts(paths@.take(0)), style));
        }
        while i < paths.len()
            invariant
                i <= paths.len(),
                known@.map_values(|p: String| p@) == path_table(texts(paths@.take(i as int)), style),
            decreases paths.len() - i,
        {
            let key = path_key(paths[i].as_str(), style);
            let ghost before = known@;
            known.insert(key, paths[i].clone());
            proof {
                assert(texts(paths@.take(i + 1)).drop_last() =~= texts(paths@.take(i as int)));
                assert(texts(paths@.take(i + 1)).last() == paths@[i as int]@);
                assert(known@.map_values(|p: String| p@) =~= path_table(
                    texts(paths@.take(i + 1)),
                    style,
                ));
            }
            i = i + 1;
        }
        proof {
            assert(paths@.take(paths@.len() as int) =~= paths@);
        }
        proof {
            assert forall|k: Seq<char>| #[trigger] known@.contains_key(k) implies key_of(
                known@[k]@,
                style,
            ) == k by {
                assert(known@.map_values(|p: String| p@).contains_key(k));
                lemma_path_table_keys(texts(paths@), style, k);
            }
        }
        let res = OriginResolver { style, paths: known, parents: StringHashMap::new() };
        proof {
            assert(res.scanned() =~= Map::<Seq<char>, Evidence>::empty());
        }
        res
    }

    /// Resolving against `parent` needs that parent's lines first: the name
    /// is a subagent name, discovery found the parent, and it was not scanned.
    pub open spec fn needs_scan(self, parent: Seq<char>, name: Seq<char>) -> bool {
        &&& subagent_name(name) is Some
        &&& self.known().contains_key(key_of(parent, self.style()))
        &&& !self.scanned().contains_key(key_of(parent, self.style()))
    }

    /// Decides whether a session is a subagent of `parent`, from its initial
    /// name, the first prompt it was given, and whether it carries the fork's
    /// machine-added child context. When the parent's evidence is not at hand
    /// yet, asks for the parent's lines instead.
    pub fn resolve(&self, parent: &str, name: &str, prompt: &str, child_context: bool) -> (res:
        Resolution)
        ensures
            match subagent_name(name@) {
                None => res == Resolution::Decided(None),
                Some((kind, id)) => {
                    let key = key_of(parent@, self.style());
                    if !self.known().contains_key(key) {
                        res == Resolution::Decided(None)
                    } else if !self.scanned().contains_key(key) {
                        res matches Resolution::ScanParent(p) && p@ == self.known()[key]
                    } else if attests(self.scanned()[key], kind, id, prompt@, child_context) {
                        res matches Resolution::Decided(Some(o)) && o.parent@ == self.known()[key]
                            && o.kind@ == kind
                    } else {
                        res == Resolution::Decided(None)
                    }
                },
            },
            res is ScanParent <==> self.needs_scan(parent@, name@),
            res matches Resolution::ScanParent(p) ==> key_of(p@, self.style()) == key_of(
                parent@,
                self.style(),
            ),
    {
        proof {
            use_type_invariant(self);
        }
        let (kind, id) = match split_subagent_name(name) {
            Some(parts) => parts,
            None => return Resolution::Decided(None),
        };
        let key = path_key(parent, self.style);
        let path = match self.paths.get(key.as_str()) {
            Some(p) => p,
            None => return Resolution::Decided(None),
        };
        let evidence = match self.parents.get(key.as_str()) {
            Some(e) => e,
            None => return Resolution::ScanParent(path.clone()),
        };
        proof {
            assert(self.scanned()[key@] == evidence@);
        }
        let recorded = evidence.agent_ids.contains(id.as_str());
        let mut spawning = false;
        if child_context {
            let mut i: usize = 0;
            while i < evidence.spawns.len() && !spawning
                invariant
                    i <= evidence.spawns.len(),
                    spawning ==> evidence@.spawns.contains((kind@, prompt@)),
                    !spawning ==> forall|j: int|
                        0 <= j < i ==> #[trigger] evidence@.spawns[j] != (kind@, prompt@),
                decreases evidence.spawns.len() - i,
            {
                let (ty, task) = &evidence.spawns[i];
                proof {
                    assert(evidence@.spawns[i as int] == (ty@, task@));
                }
                if *ty == kind && str_eq(task.as_str(), prompt) {
                    spawning = true;
                }
                i = i + 1;
            }
        }
        if recorded || spawning {
            Resolution::Decided(Some(SubagentOrigin { parent: path.clone(), kind }))
        } else {
            Resolution::Decided(None)
        }
    }

    /// Keeps what a parent transcript shows, read from its lines. A parent
    /// is scanned once per pass: evidence already kept stays as it is.
    pub fn record_scan(&mut self, parent: &str, lines: &[String])
        ensures
            final(self).style() == old(self).style(),
            final(self).known() == old(self).known(),
            final(self).scanned() == if old(self).scanned().contains_key(
                key_of(parent@, old(self).style()),
            ) {
                old(self).scanned()
            } else {
                old(self).scanned().insert(
                    key_of(parent@, old(self).style()),
                    parent_evidence(texts(lines@)),
                )
            },
    {
        proof {
            use_type_invariant(&*self);
        }
        let key = path_key(parent, self.style);
        if self.parents.contains_key(key.as_str()) {
            return;
        }
        let evidence = scan_parent(lines);
        let mut parents: StringHashMap<ParentEvidence> = StringHashMap::new();
        std::mem::swap(&mut parents, &mut self.parents);
        parents.insert(key, evidence);
        self.parents = parents;
        proof {
            assert(self.scanned() =~= old(self).scanned().insert(
                key_of(parent@, old(self).style()),
                parent_evidence(texts(lines@)),
            ));
        }
    }
}

/// Once a parent's lines were recorded, under the parent's own spelling or
/// under the path that `resolve` asked for (which has the parent's key),
/// resolving any session against that parent never asks for them again:
/// one scan per parent and pass.
pub proof fn lemma_parent_scanned_once(
    before: OriginResolver,
    after: OriginResolver,
    parent: Seq<char>,
    recorded: Seq<char>,
    lines: Seq<Seq<char>>,
    name: Seq<char>,
)
    requires
        key_of(recorded, before.style()) == key_of(parent, before.style()),
        after.style() == before.style(),
        after.known() == before.known(),
        after.scanned() == if before.scanned().contains_key(key_of(recorded, before.style())) {
            before.scanned()
        } else {
            before.scanned().insert(key_of(recorded, before.style()), parent_evidence(lines))
        },
    ensures
        !after.needs_scan(parent, name),
{
}

/// A session is never taken for a subagent on its name and parent link
/// alone: the decision needs a settled record of its short id, or the child
/// context together with an exact spawn in the parent.
pub proof fn lemma_name_alone_is_no_evidence(
    ev: Evidence,
    kind: Seq<char>,
    id: Seq<char>,
    prompt: Seq<char>,
)
    requires
        !ev.ids.contains(id),
    ensures
        !attests(ev, kind, id, prompt, false),
        attests(ev, kind, id, prompt, true) <==> ev.spawns.contains((kind, prompt)),
{
}

/// Optional versioned origin record for extensions. Bound to the *child's*
/// session id, so verbatim cloned history cannot misclassify the clone.
/// The kind it declares, when the record holds.
pub open spec fn declared_kind(
    entry: Json,
    session_id: Seq<char>,
    parent: Seq<char>,
    style: PathStyle,
) -> Option<
    Seq<char>,
> {
    let data = entry.at("data"@);
    if entry.at("type"@).is_text("custom"@) && entry.at("customType"@).is_text(
        "subagents:session"@,
    ) && data.at("version"@).i64_of() == Some(1int) && data.at("sessionId"@).text_of() == Some(
        session_id,
    ) && (match data.at("parentSession"@).text_of() {
        Some(p) => key_of(p, style) == key_of(parent, style),
        None => false,
    }) {
        match data.at("agentType"@).text_of() {
            Some(t) => if trimmed(t).len() > 0 {
                Some(trimmed(t))
            } else {
                None
            },
            None => None,
        }
    } else {
        None
    }
}

/// A declared origin is bound to the child's own session id: the same
/// record read for any other session id (a verbatim clone) declares nothing.
pub proof fn lemma_declared_origin_bound_to_child(
    entry: Json,
    session_id: Seq<char>,
    other_id: Seq<char>,
    parent: Seq<char>,
    style: PathStyle,
)
    requires
        declared_kind(entry, session_id, parent, style) is Some,
        other_id != session_id,
    ensures
        declared_kind(entry, other_id, parent, style) is None,
{
}

/// Reads an extension's declared origin record from a child's entry.
pub fn declared_origin(entry: &Json, session_id: &str, parent: &str, style: PathStyle) -> (res: Option<
    SubagentOrigin,
>)
    ensures
        match res {
            Some(o) => declared_kind(*entry, session_id@, parent@, style) == Some(o.kind@) && o.parent@
                == parent@,
            None => declared_kind(*entry, session_id@, parent@, style) is None,
        },
{
    if !entry.field_is("type", "custom") || !entry.field_is("customType", "subagents:session") {
        return None;
    }
    let data = match entry.get("data") {
        Some(d) => d,
        None => return None,
    };
    let version_one = match data.get("version") {
        Some(v) => match v.as_i64() {
            Some(n) => n == 1,
            None => false,
        },
        None => false,
    };
    if !version_one {
        return None;
    }
    let sid = match data.text_at("sessionId") {
        Some(s) => s,
        None => return None,
    };
    if !str_eq(sid.as_str(), session_id) {
        return None;
    }
    let declared_parent = match data.text_at("parentSession") {
        Some(p) => p,
        None => return None,
    };
    let declared_key = path_key(declared_parent.as_str(), style);
    let parent_key = path_key(parent, style);
    if declared_key != parent_key {
        return None;
    }
    let agent_type = match data.text_at("agentType") {
        Some(t) => t,
        None => return None,
    };
    let kind = trim(agent_type.as_str());
    if kind.as_str().is_empty() {
        return None;
    }
    Some(SubagentOrigin { parent: owned(parent), kind })
}

/// Every entry of a transcript body adds its short ids to the evidence.
proof fn lemma_body_ids_include(lines: Seq<Seq<char>>, j: int, v: Json)
    requires
        0 <= j < lines.len(),
        parsed_json(lines[j]) == Some(v),
    ensures
        entry_ids(v).subset_of(body_evidence(lines).ids),
    decreases lines.len(),
{
    if j < lines.len() - 1 {
        assert(lines.drop_last()[j] == lines[j]);
        lemma_body_ids_include(lines.drop_last(), j, v);
    }
}

/// An agent id reported in a parent's AgentDetails is evidence whatever the
/// reported status: when a message of the parent transcript (after its
/// session header) carries details with a display name, a subagent type and
/// any status, and an ASCII agent id of at least eight characters, the first
/// eight characters are among the parent's evidence ids, and they attest a
/// child of any kind and prompt.
pub proof fn lemma_reported_agent_id_is_evidence(
    lines: Seq<Seq<char>>,
    header: Json,
    i: int,
    v: Json,
    id: Seq<char>,
)
    requires
        0 < i < lines.len(),
        parsed_json(lines[0]) == Some(header),
        header.at("type"@).is_text("session"@),
        parsed_json(lines[i]) == Some(v),
        v.at("type"@).is_text("message"@),
        detail_text(v.at("message"@).at("details"@), "displayName"@) is Some,
        detail_text(v.at("message"@).at("details"@), "subagentType"@) is Some,
        detail_text(v.at("message"@).at("details"@), "status"@) is Some,
        detail_text(v.at("message"@).at("details"@), "agentId"@) == Some(id),
        id.len() >= 8,
        is_ascii_chars(id),
    ensures
        parent_evidence(lines).ids.contains(id.take(8)),
        forall|kind: Seq<char>, prompt: Seq<char>, child_context: bool|
            #[trigger] attests(parent_evidence(lines), kind, id.take(8), prompt, child_context),
{
    let body = lines.skip(1);
    assert(body[i - 1] == lines[i]);
    lemma_body_ids_include(body, i - 1, v);
    assert(reported_ids(v).contains(id.take(8)));
    assert(entry_ids(v).contains(id.take(8)));
}

} // verus!

