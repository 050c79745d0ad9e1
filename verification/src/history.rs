//! Disk-only child-session inspection: what a saved child transcript shows.
//! The caller reads the file; this module follows its active branch.
use vstd::prelude::*;
use vstd::hash_map::StringHashMap;
use vstd::hash_set::StringHashSet;

use crate::family::SessionInfo;
use crate::json::{parse_json, parsed_json, print_json, printed_json, Json};
use crate::text::{bounded, bounded_text, joined, owned};

verus! {

/// How much of a transcript file is read.
pub const MAX_BYTES: u64 = 8388608;

/// How many characters of one message are kept.
pub const MAX_TEXT: usize = 12000;

/// One saved message as the history view shows it.
#[derive(Clone, Debug, PartialEq, Eq)]
pub struct SavedMessage {
    pub role: String,
    pub text: String,
}

/// The messages of the active branch, oldest first, and whether the view is
/// limited: the file was cut at `MAX_BYTES`, the branch could not be followed
/// to its root, or a message was shortened.
#[derive(Clone, Debug, PartialEq, Eq)]
pub struct Snapshot {
    pub messages: Vec<SavedMessage>,
    pub limited: bool,
}

/// The entries of a transcript by id, and the id of the last of them.
pub struct EntryIndex {
    pub entries: Map<Seq<char>, Json>,
    pub leaf: Option<Seq<char>>,
}

/// The id under which an entry is indexed: every entry with a string id but
/// the session header.
pub open spec fn entry_key(v: Json) -> Option<Seq<char>> {
    if v.at("type"@).is_text("session"@) {
        None
    } else {
        v.at("id"@).text_of()
    }
}

/// The index of the entries of a transcript's lines; a later entry with the
/// same id replaces an earlier one, and lines that are not JSON are skipped.
pub open spec fn index_lines(lines: Seq<Seq<char>>) -> EntryIndex
    decreases lines.len(),
{
    if lines.len() == 0 {
        EntryIndex { entries: Map::empty(), leaf: None }
    } else {
        let before = index_lines(lines.drop_last());
        match parsed_json(lines.last()) {
            Some(v) => match entry_key(v) {
                Some(id) => EntryIndex { entries: before.entries.insert(id, v), leaf: Some(id) },
                None => before,
            },
            None => before,
        }
    }
}

/// The text of one content block: its text or thinking, a tool call's name
/// and JSON arguments, or else its type.
pub open spec fn block_text(b: Json) -> Seq<char> {
    match b.at("text"@).text_of() {
        Some(t) => t,
        None => match b.at("thinking"@).text_of() {
            Some(t) => t,
            None => if b.at("type"@).is_text("toolCall"@) {
                let name = match b.at("name"@).text_of() {
                    Some(n) => n,
                    None => "toolCall"@,
                };
                name + "\n"@ + printed_json(b.at("arguments"@))
            } else {
                match b.at("type"@).text_of() {
                    Some(t) => t,
                    None => seq![],
                }
            },
        },
    }
}

/// The texts of a list of blocks.
pub open spec fn block_texts(blocks: Seq<Json>) -> Seq<Seq<char>> {
    blocks.map_values(|b: Json| block_text(b))
}

/// The text of a message's content: a string as it is, or the texts of its
/// blocks separated by blank lines.
pub open spec fn content_text(content: Json) -> Seq<char> {
    match content.text_of() {
        Some(s) => s,
        None => match content.items_of() {
            Some(blocks) => joined(block_texts(blocks), "\n\n"@),
            None => seq![],
        },
    }
}

/// The role and full text of an entry that the history shows: a message
/// with a role other than `system`.
pub open spec fn shown_message(v: Json) -> Option<(Seq<char>, Seq<char>)> {
    let message = v.at("message"@);
    if v.at("type"@).is_text("message"@) {
        match message.at("role"@).text_of() {
            Some(role) => if role != "system"@ {
                Some((role, content_text(message.at("content"@))))
            } else {
                None
            },
            None => None,
        }
    } else {
        None
    }
}

/// The messages on a branch, from its leaf towards its root, and whether
/// the walk broke off at a repeated or missing id.
pub struct Walk {
    pub messages: Seq<(Seq<char>, Seq<char>)>,
    pub broken: bool,
}

/// Follows the `parentId` links from `leaf`, never visiting an id twice.
pub open spec fn walk(
    entries: Map<Seq<char>, Json>,
    leaf: Option<Seq<char>>,
    seen: Set<Seq<char>>,
) -> Walk
    decreases entries.dom().len() - seen.len(),
    when entries.dom().finite() && seen.finite() && seen.subset_of(entries.dom())
{
    match leaf {
        None => Walk { messages: seq![], broken: false },
        Some(id) => if seen.contains(id) || !entries.contains_key(id) {
            Walk { messages: seq![], broken: true }
        } else {
            let v = entries[id];
            proof {
                vstd::set_lib::lemma_len_subset(seen.insert(id), entries.dom());
            }
            let rest = walk(entries, v.at("parentId"@).text_of(), seen.insert(id));
            match shown_message(v) {
                Some(m) => Walk { messages: seq![m] + rest.messages, broken: rest.broken },
                None => rest,
            }
        }
    }
}

/// Whether some message of a list was longer than `MAX_TEXT`.
pub open spec fn any_long(messages: Seq<(Seq<char>, Seq<char>)>) -> bool {
    exists|i: int| 0 <= i < messages.len() && #[trigger] messages[i].1.len() > MAX_TEXT
}

/// A message as the history keeps it: its text bounded to `MAX_TEXT`.
pub open spec fn kept(m: (Seq<char>, Seq<char>)) -> (Seq<char>, Seq<char>) {
    (m.0, bounded(m.1, MAX_TEXT as nat))
}

impl SavedMessage {
    pub open spec fn pair(self) -> (Seq<char>, Seq<char>) {
        (self.role@, self.text@)
    }
}

/// The texts of a transcript's lines.
pub open spec fn line_texts(lines: Seq<String>) -> Seq<Seq<char>> {
    lines.map_values(|s: String| s@)
}

/// The branch walk of a transcript's lines, from its last entry.
pub open spec fn branch_of(lines: Seq<Seq<char>>) -> Walk {
    let index = index_lines(lines);
    walk(index.entries, index.leaf, Set::empty())
}

/// The index of a transcript has finitely many entries.
proof fn lemma_index_finite(lines: Seq<Seq<char>>)
    ensures
        index_lines(lines).entries.dom().finite(),
        index_lines(lines).leaf matches Some(id) ==> index_lines(lines).entries.contains_key(id),
    decreases lines.len(),
{
    if lines.len() > 0 {
        lemma_index_finite(lines.drop_last());
    }
}

/// A line that is not JSON, such as a partially written last entry, changes
/// nothing in the index of a transcript, so neither the branch nor the view.
pub proof fn lemma_partial_line_ignored(lines: Seq<Seq<char>>, partial: Seq<char>)
    requires
        parsed_json(partial) is None,
    ensures
        index_lines(lines.push(partial)) == index_lines(lines),
        branch_of(lines.push(partial)) == branch_of(lines),
{
    assert(lines.push(partial).drop_last() =~= lines);
}

/// Builds the index of a transcript's lines.
fn index_entries(lines: &[String]) -> (res: (StringHashMap<Json>, Option<String>))
    ensures
        res.0@ == index_lines(line_texts(lines@)).entries,
        match res.1 {
            Some(id) => index_lines(line_texts(lines@)).leaf == Some(id@),
            None => index_lines(line_texts(lines@)).leaf is None,
        },
{
    let ghost all = line_texts(lines@);
    let mut entries: StringHashMap<Json> = StringHashMap::new();
    let mut leaf: Option<String> = None;
    let mut i: usize = 0;
    proof {
        assert(entries@ =~= index_lines(all.take(0)).entries);
    }
    while i < lines.len()
        invariant
            i <= lines.len(),
            all == line_texts(lines@),
            entries@ == index_lines(all.take(i as int)).entries,
            match leaf {
                Some(id) => index_lines(all.take(i as int)).leaf == Some(id@),
                None => index_lines(all.take(i as int)).leaf is None,
            },
        decreases lines.len() - i,
    {
        proof {
            assert(all.take(i + 1).drop_last() =~= all.take(i as int));
            assert(all.take(i + 1).last() == lines@[i as int]@);
        }
        match parse_json(lines[i].as_str()) {
            Some(v) => {
                if !v.field_is("type", "session") {
                    match v.text_at("id") {
                        Some(id) => {
                            let key = id.clone();
                            let key2 = id.clone();
                            entries.insert(key, v);
                            leaf = Some(key2);
                        },
                        None => {},
                    }
                }
            },
            None => {},
        }
        i = i + 1;
    }
    proof {
        assert(all.take(lines.len() as int) =~= all);
    }
    (entries, leaf)
}

/// The text of one content block.
fn text_of_block(b: &Json) -> (res: String)
    ensures
        res@ == block_text(*b),
{
    match b.text_at("text") {
        Some(t) => return t.clone(),
        None => {},
    }
    match b.text_at("thinking") {
        Some(t) => return t.clone(),
        None => {},
    }
    if b.field_is("type", "toolCall") {
        let mut out = match b.text_at("name") {
            Some(n) => n.clone(),
            None => owned("toolCall"),
        };
        out.append("\n");
        let args = match b.get("arguments") {
            Some(a) => print_json(a),
            None => print_json(&Json::Null),
        };
        out.append(args.as_str());
        out
    } else {
        match b.text_at("type") {
            Some(t) => t.clone(),
            None => String::new(),
        }
    }
}

/// The text of a message's content.
fn text_of_content(content: &Json) -> (res: String)
    ensures
        res@ == content_text(*content),
{
    match content.as_text() {
        Some(s) => return s.clone(),
        None => {},
    }
    let blocks = match content.as_items() {
        Some(b) => b,
        None => return String::new(),
    };
    let mut out = String::new();
    let mut i: usize = 0;
    let ghost texts = block_texts(blocks@);
    while i < blocks.len()
        invariant
            i <= blocks.len(),
            texts == block_texts(blocks@),
            out@ == joined(texts.take(i as int), "\n\n"@),
        decreases blocks.len() - i,
    {
        let part = text_of_block(&blocks[i]);
        proof {
            assert(texts.take(i + 1).drop_last() =~= texts.take(i as int));
            assert(texts.take(i + 1).last() == part@);
        }
        if i > 0 {
            out.append("\n\n");
        } else {
            proof {
                assert(texts.take(1) =~= seq![part@]);
            }
        }
        out.append(part.as_str());
        i = i + 1;
    }
    proof {
        assert(texts.take(blocks.len() as int) =~= texts);
    }
    out
}

/// The message an entry shows, if any.
fn message_of(v: &Json) -> (res: Option<(String, String)>)
    ensures
        match res {
            Some((role, text)) => shown_message(*v) == Some((role@, text@)),
            None => shown_message(*v) is None,
        },
{
    if !v.field_is("type", "message") {
        return None;
    }
    let message = match v.get("message") {
        Some(m) => m,
        None => return None,
    };
    let role = match message.text_at("role") {
        Some(r) => r,
        None => return None,
    };
    if *role == owned("system") {
        return None;
    }
    let text = match message.get("content") {
        Some(c) => text_of_content(c),
        None => text_of_content(&Json::Null),
    };
    Some((role.clone(), text))
}

/// What a saved child transcript shows, given the lines the caller read and
/// whether the file was longer than `MAX_BYTES`. Follows the saved active
/// branch from the last entry, not every abandoned branch in the file.
pub fn snapshot_from_lines(lines: &[String], oversized: bool) -> (res: Snapshot)
    ensures
        res.messages@.map_values(|m: SavedMessage| m.pair()) == branch_of(
            line_texts(lines@),
        ).messages.reverse().map_values(|m: (Seq<char>, Seq<char>)| kept(m)),
        res.limited == (oversized || branch_of(line_texts(lines@)).broken || any_long(
            branch_of(line_texts(lines@)).messages,
        )),
{
    let ghost all = line_texts(lines@);
    let (entries, first) = index_entries(lines);
    proof {
        lemma_index_finite(all);
    }
    let ghost total = branch_of(all);
    let mut seen = StringHashSet::new();
    let mut leaf = first;
    let mut found: Vec<SavedMessage> = Vec::new();
    let ghost mut done: Seq<(Seq<char>, Seq<char>)> = seq![];
    let mut limited = oversized;
    let mut broken = false;
    proof {
        assert(done + walk(entries@, index_lines(all).leaf, seen@).messages =~= total.messages);
        assert(found@.map_values(|m: SavedMessage| m.pair()) =~= done.map_values(
            |m: (Seq<char>, Seq<char>)| kept(m),
        ));
    }
    loop
        invariant_except_break
            entries@.dom().finite(),
            seen@.finite(),
            seen@.subset_of(entries@.dom()),
            total == branch_of(all),
            total.messages == done + walk(
                entries@,
                match leaf {
                    Some(id) => Some(id@),
                    None => None,
                },
                seen@,
            ).messages,
            total.broken == walk(
                entries@,
                match leaf {
                    Some(id) => Some(id@),
                    None => None,
                },
                seen@,
            ).broken,
            found@.map_values(|m: SavedMessage| m.pair()) == done.map_values(
                |m: (Seq<char>, Seq<char>)| kept(m),
            ),
            limited == (oversized || any_long(done)),
            !broken,
        ensures
            total == branch_of(all),
            total.messages == done,
            total.broken == broken,
            found@.map_values(|m: SavedMessage| m.pair()) == done.map_values(
                |m: (Seq<char>, Seq<char>)| kept(m),
            ),
            limited == (oversized || any_long(done)),
        decreases entries@.dom().len() - seen@.len(),
    {
        let id = match leaf {
            Some(id) => id,
            None => {
                proof {
                    assert(done + seq![] =~= done);
                }
                break;
            },
        };
        if seen.contains(id.as_str()) {
            broken = true;
            proof {
                assert(done + seq![] =~= done);
            }
            break;
        }
        let v = match entries.get(id.as_str()) {
            Some(v) => v,
            None => {
                broken = true;
                proof {
                    assert(done + seq![] =~= done);
                }
                break;
            },
        };
        proof {
            vstd::set_lib::lemma_len_subset(seen@.insert(id@), entries@.dom());
        }
        leaf = match v.text_at("parentId") {
            Some(p) => Some(p.clone()),
            None => None,
        };
        match message_of(v) {
            Some((role, text)) => {
                let (short, cut) = bounded_text(text.as_str(), MAX_TEXT);
                if cut {
                    limited = true;
                }
                let ghost m = (role@, text@);
                let ghost old_found = found@;
                found.push(SavedMessage { role, text: short });
                proof {
                    assert(found@[found@.len() - 1].pair() == kept(m));
                    assert(found@ == old_found.push(found@[found@.len() - 1]));
                    let before = done;
                    done = done.push(m);
                    assert(done[done.len() - 1].1.len() > MAX_TEXT <==> cut);
                    if any_long(before) {
                        let j = choose|j: int|
                            0 <= j < before.len() && #[trigger] before[j].1.len() > MAX_TEXT;
                        assert(done[j] == before[j]);
                    }
                    if any_long(done) && !cut {
                        let j = choose|j: int|
                            0 <= j < done.len() && #[trigger] done[j].1.len() > MAX_TEXT;
                        assert(j < before.len());
                        assert(before[j] == done[j]);
                    }
                    assert(old_found.map_values(|m: SavedMessage| m.pair()) == before.map_values(
                        |m: (Seq<char>, Seq<char>)| kept(m),
                    ));
                    assert(old_found.map_values(|m: SavedMessage| m.pair()).len() == old_found.len());
                    assert(old_found.len() == before.len());
                    assert forall|j: int| 0 <= j < done.len() implies found@[j].pair() == kept(
                        done[j],
                    ) by {
                        if j < before.len() {
                            assert(old_found.map_values(|m: SavedMessage| m.pair())[j]
                                == before.map_values(|m: (Seq<char>, Seq<char>)| kept(m))[j]);
                        }
                    }
                    assert(found@.map_values(|m: SavedMessage| m.pair()) =~= done.map_values(
                        |m: (Seq<char>, Seq<char>)| kept(m),
                    ));
                }
            },
            None => {},
        }
        seen.insert(id);
        proof {
            assert(total.messages =~= done + walk(
                entries@,
                match leaf {
                    Some(id) => Some(id@),
                    None => None,
                },
                seen@,
            ).messages);
        }
    }
    if broken {
        limited = true;
    }
    let mut messages: Vec<SavedMessage> = Vec::new();
    let ghost order = found@;
    while found.len() > 0
        invariant
            found@ == order.take(found.len() as int),
            found.len() <= order.len(),
            messages@.len() == order.len() - found.len(),
            forall|j: int|
                0 <= j < messages@.len() ==> #[trigger] messages@[j] == order[order.len() - 1 - j],
        decreases found.len(),
    {
        let m = found.pop().unwrap();
        proof {
            assert(order.take(found.len() as int) =~= order.take(found.len() + 1).drop_last());
        }
        messages.push(m);
    }
    proof {
        assert(messages@.map_values(|m: SavedMessage| m.pair()) =~= done.reverse().map_values(
            |m: (Seq<char>, Seq<char>)| kept(m),
        )) by {
            assert(order.map_values(|m: SavedMessage| m.pair()).len() == done.len());
            assert forall|j: int| 0 <= j < done.len() implies messages@[j].pair() == kept(
                done.reverse()[j],
            ) by {
                assert(order.map_values(|m: SavedMessage| m.pair())[done.len() - 1 - j]
                    == kept(done[done.len() - 1 - j]));
            }
        }
    }
    Snapshot { messages, limited }
}

/// What the history view shows besides its messages.
#[derive(Clone, Debug, PartialEq, Eq)]
pub struct HistoryNotices {
    /// A read is in progress.
    pub loading: bool,
    /// The last read succeeded and found no message.
    pub empty: bool,
    /// The messages are a limited view of the transcript.
    pub limited: bool,
    /// Why the last read failed.
    pub error: Option<String>,
}

/// The read-only history view of a child session. It has no RPC client,
/// composer, session-switch callback, or executable tool actions: it shows
/// what the caller reads from disk.
pub struct AgentHistory {
    session: SessionInfo,
    messages: Vec<SavedMessage>,
    loading: bool,
    limited: bool,
    error: Option<String>,
    focus_pending: bool,
}

impl AgentHistory {
    /// The session shown.
    pub closed spec fn session_of(self) -> SessionInfo {
        self.session
    }

    /// The messages shown, as (role, text) pairs.
    pub closed spec fn shown(self) -> Seq<(Seq<char>, Seq<char>)> {
        self.messages@.map_values(|m: SavedMessage| m.pair())
    }

    /// Whether a read is in progress.
    pub closed spec fn is_loading(self) -> bool {
        self.loading
    }

    /// Whether the view is limited.
    pub closed spec fn is_limited(self) -> bool {
        self.limited
    }

    /// The error of the last read.
    pub closed spec fn last_error(self) -> Option<Seq<char>> {
        match self.error {
            Some(e) => Some(e@),
            None => None,
        }
    }

    /// Whether the view still has to take the keyboard focus.
    pub closed spec fn wants_focus(self) -> bool {
        self.focus_pending
    }

    /// The view of a child session, with its first read begun: the caller
    /// reads the transcript and hands the result to `finish_reload`.
    pub fn new(session: SessionInfo) -> (res: AgentHistory)
        ensures
            res.session_of() == session,
            res.shown().len() == 0,
            res.is_loading(),
            !res.is_limited(),
            res.last_error() is None,
            res.wants_focus(),
    {
        let res = AgentHistory {
            session,
            messages: Vec::new(),
            loading: true,
            limited: false,
            error: None,
            focus_pending: true,
        };
        proof {
            assert(res.shown() =~= Seq::<(Seq<char>, Seq<char>)>::empty());
        }
        res
    }

    /// The path of the transcript shown.
    pub fn path(&self) -> (res: &String)
        ensures
            res@ == self.session_of().path@,
    {
        &self.session.path
    }

    /// The title of the session shown.
    pub fn title(&self) -> (res: &String)
        ensures
            res@ == self.session_of().title@,
    {
        &self.session.title
    }

    /// The messages shown.
    pub fn messages(&self) -> (res: &Vec<SavedMessage>)
        ensures
            res@.map_values(|m: SavedMessage| m.pair()) == self.shown(),
    {
        &self.messages
    }

    /// Asks for a new read. Returns whether the caller should start one: not
    /// while a read is still in progress.
    pub fn reload(&mut self) -> (start: bool)
        ensures
            start == !old(self).is_loading(),
            final(self).is_loading(),
            final(self).session_of() == old(self).session_of(),
            final(self).shown() == old(self).shown(),
            final(self).is_limited() == old(self).is_limited(),
            final(self).last_error() == old(self).last_error(),
            final(self).wants_focus() == old(self).wants_focus(),
    {
        if self.loading {
            return false;
        }
        self.loading = true;
        true
    }

    /// Takes the result of a read: a snapshot replaces the messages and
    /// clears the error; a failure keeps the messages and records why.
    pub fn finish_reload(&mut self, result: Result<Snapshot, String>)
        ensures
            !final(self).is_loading(),
            final(self).session_of() == old(self).session_of(),
            final(self).wants_focus() == old(self).wants_focus(),
            match result {
                Ok(snapshot) => {
                    &&& final(self).shown() == snapshot.messages@.map_values(
                        |m: SavedMessage| m.pair(),
                    )
                    &&& final(self).is_limited() == snapshot.limited
                    &&& final(self).last_error() is None
                },
                Err(e) => {
                    &&& final(self).shown() == old(self).shown()
                    &&& final(self).is_limited() == old(self).is_limited()
                    &&& final(self).last_error() == Some(e@)
                },
            },
    {
        self.loading = false;
        match result {
            Ok(snapshot) => {
                self.error = None;
                self.limited = snapshot.limited;
                self.messages = snapshot.messages;
            },
            Err(e) => {
                self.error = Some(e);
            },
        }
    }

    /// Whether the view should take the keyboard focus now; it asks once.
    pub fn take_focus_request(&mut self) -> (res: bool)
        ensures
            res == old(self).wants_focus(),
            !final(self).wants_focus(),
            final(self).session_of() == old(self).session_of(),
            final(self).shown() == old(self).shown(),
            final(self).is_loading() == old(self).is_loading(),
            final(self).is_limited() == old(self).is_limited(),
            final(self).last_error() == old(self).last_error(),
    {
        let res = self.focus_pending;
        self.focus_pending = false;
        res
    }

    /// The notices the view shows: loading, empty, limited, and the error.
    pub fn notices(&self) -> (res: HistoryNotices)
        ensures
            res.loading == self.is_loading(),
            res.empty == (!self.is_loading() && self.last_error() is None && self.shown().len()
                == 0),
            res.limited == self.is_limited(),
            match res.error {
                Some(e) => self.last_error() == Some(e@),
                None => self.last_error() is None,
            },
    {
        let error = match &self.error {
            Some(e) => Some(e.clone()),
            None => None,
        };
        HistoryNotices {
            loading: self.loading,
            empty: !self.loading && self.error.is_none() && self.messages.len() == 0,
            limited: self.limited,
            error,
        }
    }
}

/// Only `system` messages are hidden: a message entry with any other role
/// shows that role and the text of its content.
pub proof fn lemma_every_role_but_system_is_shown(v: Json, role: Seq<char>)
    requires
        v.at("type"@).is_text("message"@),
        v.at("message"@).at("role"@).text_of() == Some(role),
        role != "system"@,
    ensures
        shown_message(v) == Some((role, content_text(v.at("message"@).at("content"@)))),
{
}

/// A `system` message, and an entry that is no message, shows nothing.
pub proof fn lemma_system_messages_are_hidden(v: Json)
    requires
        !v.at("type"@).is_text("message"@) || v.at("message"@).at("role"@).is_text("system"@),
    ensures
        shown_message(v) is None,
{
}

/// The last entry of a transcript is the leaf of its active branch: when it
/// is a message with a role other than `system`, it is the newest message
/// the history shows, with that role and its content's text.
pub proof fn lemma_last_message_is_shown(lines: Seq<Seq<char>>, v: Json, role: Seq<char>)
    requires
        lines.len() > 0,
        parsed_json(lines.last()) == Some(v),
        entry_key(v) is Some,
        v.at("type"@).is_text("message"@),
        v.at("message"@).at("role"@).text_of() == Some(role),
        role != "system"@,
    ensures
        branch_of(lines).messages.len() > 0,
        branch_of(lines).messages[0] == (role, content_text(v.at("message"@).at("content"@))),
{
    lemma_index_finite(lines);
    let index = index_lines(lines);
    let id = entry_key(v)->0;
    assert(index.leaf == Some(id));
    assert(index.entries[id] == v);
    assert(Set::<Seq<char>>::empty().subset_of(index.entries.dom()));
    lemma_every_role_but_system_is_shown(v, role);
}

} // verus!

