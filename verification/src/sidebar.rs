//! The session sidebar: workspaces, their ordinary sessions, and under each
//! session the group of subagent sessions of its family.
use vstd::prelude::*;

use crate::origin::PathStyle;
use crate::family::{family_roots, lemma_root_unique, reaches_root, root_is, SessionInfo};
use crate::text::{chars_of, string_of, str_eq};

verus! {

/// One row of the sidebar. Session rows hold the index of their session.
#[derive(Clone, Debug, PartialEq, Eq)]
pub enum SideRow {
    /// A workspace header: its name, how many ordinary sessions it holds,
    /// and whether it is collapsed.
    Workspace { name: String, count: usize, collapsed: bool },
    /// An ordinary session.
    Session(usize),
    /// The subagent group of a family (`root` is its ordinary session), or
    /// with `orphan` the group of subagents whose family has no root.
    Subagents { root: Option<usize>, count: usize, expanded: bool, orphan: bool },
    /// A subagent session inside an expanded group.
    ChildSession(usize),
}

/// A sidebar row in terms of plain values.
pub enum RowView {
    Workspace { name: Seq<char>, count: usize, collapsed: bool },
    Session(usize),
    Subagents { root: Option<usize>, count: usize, expanded: bool, orphan: bool },
    ChildSession(usize),
}

impl View for SideRow {
    type V = RowView;

    open spec fn view(&self) -> RowView {
        match self {
            SideRow::Workspace { name, count, collapsed } => RowView::Workspace {
                name: name@,
                count: *count,
                collapsed: *collapsed,
            },
            SideRow::Session(i) => RowView::Session(*i),
            SideRow::Subagents { root, count, expanded, orphan } => RowView::Subagents {
                root: *root,
                count: *count,
                expanded: *expanded,
                orphan: *orphan,
            },
            SideRow::ChildSession(i) => RowView::ChildSession(*i),
        }
    }
}

/// The plain values of a list of rows.
pub open spec fn row_views(rows: Seq<SideRow>) -> Seq<RowView> {
    rows.map_values(|r: SideRow| r@)
}

/// The position of the last `/` in a path.
pub open spec fn last_slash(p: Seq<char>) -> int
    decreases p.len(),
{
    if p.len() == 0 {
        -1
    } else if p.last() == '/' {
        p.len() - 1
    } else {
        last_slash(p.drop_last())
    }
}

/// The name of a workspace: the last component of its path.
pub open spec fn workspace_name(path: Seq<char>) -> Seq<char> {
    path.skip(last_slash(path) + 1)
}

/// An ordinary session of a workspace: not a subagent, started in it.
pub open spec fn in_workspace(s: SessionInfo, workspace: Seq<char>) -> bool {
    s.subagent is None && s.cwd@ == workspace
}

/// The ordinary sessions of a workspace among the first `k`, in order.
pub open spec fn members(sessions: Seq<SessionInfo>, workspace: Seq<char>, k: int) -> Seq<usize>
    decreases k,
{
    if k <= 0 {
        seq![]
    } else {
        let before = members(sessions, workspace, k - 1);
        if in_workspace(sessions[k - 1], workspace) {
            before.push((k - 1) as usize)
        } else {
            before
        }
    }
}

/// The sessions a workspace section lists among the first `k`: all its
/// ordinary sessions, or when it is collapsed only the active one.
pub open spec fn listed(
    sessions: Seq<SessionInfo>,
    workspace: Seq<char>,
    collapsed: bool,
    active: Option<Seq<char>>,
    k: int,
) -> Seq<usize>
    decreases k,
{
    if k <= 0 {
        seq![]
    } else {
        let before = listed(sessions, workspace, collapsed, active, k - 1);
        if in_workspace(sessions[k - 1], workspace) && (!collapsed || active == Some(
            sessions[k - 1].path@,
        )) {
            before.push((k - 1) as usize)
        } else {
            before
        }
    }
}

/// Whether a list of names holds a name.
pub open spec fn names_contain(names: Seq<String>, name: Seq<char>) -> bool {
    exists|i: int| 0 <= i < names.len() && #[trigger] names[i]@ == name
}

/// The rows of one workspace: its header and the sessions it lists.
pub open spec fn section(
    sessions: Seq<SessionInfo>,
    workspace: Seq<char>,
    collapsed_names: Seq<String>,
    active: Option<Seq<char>>,
) -> Seq<RowView> {
    let name = workspace_name(workspace);
    let collapsed = names_contain(collapsed_names, name);
    seq![
        RowView::Workspace {
            name,
            count: members(sessions, workspace, sessions.len() as int).len() as usize,
            collapsed,
        },
    ] + listed(sessions, workspace, collapsed, active, sessions.len() as int).map_values(
        |i: usize| RowView::Session(i),
    )
}

/// The sections of the first `k` workspaces, in order.
pub open spec fn sections(
    sessions: Seq<SessionInfo>,
    workspaces: Seq<String>,
    collapsed_names: Seq<String>,
    active: Option<Seq<char>>,
    k: int,
) -> Seq<RowView>
    decreases k,
{
    if k <= 0 {
        seq![]
    } else {
        sections(sessions, workspaces, collapsed_names, active, k - 1) + section(
            sessions,
            workspaces[k - 1]@,
            collapsed_names,
            active,
        )
    }
}

/// The text of an optional path.
pub open spec fn opt_path(p: Option<String>) -> Option<Seq<char>> {
    match p {
        Some(s) => Some(s@),
        None => None,
    }
}

/// The name of a workspace path.
fn name_of(path: &str) -> (res: String)
    ensures
        res@ == workspace_name(path@),
{
    let cs = chars_of(path);
    let mut cut: usize = 0;
    let mut i: usize = 0;
    while i < cs.len()
        invariant
            i <= cs.len(),
            cs@ == path@,
            cut as int == last_slash(cs@.take(i as int)) + 1,
        decreases cs.len() - i,
    {
        proof {
            assert(cs@.take(i + 1).drop_last() =~= cs@.take(i as int));
        }
        if cs[i] == '/' {
            cut = i + 1;
        }
        i = i + 1;
    }
    proof {
        assert(cs@.take(cs@.len() as int) =~= cs@);
        lemma_last_slash_bounds(cs@);
    }
    let mut out: Vec<char> = Vec::new();
    let mut j: usize = cut;
    while j < cs.len()
        invariant
            cut <= j <= cs.len(),
            out@ == cs@.subrange(cut as int, j as int),
        decreases cs.len() - j,
    {
        proof {
            assert(cs@.subrange(cut as int, j + 1) =~= cs@.subrange(cut as int, j as int).push(
                cs@[j as int],
            ));
        }
        out.push(cs[j]);
        j = j + 1;
    }
    proof {
        assert(out@ =~= path@.skip(cut as int));
    }
    string_of(&out)
}

proof fn lemma_last_slash_bounds(p: Seq<char>)
    ensures
        -1 <= last_slash(p) < p.len(),
    decreases p.len(),
{
    if p.len() > 0 && p.last() != '/' {
        lemma_last_slash_bounds(p.drop_last());
    }
}

/// Whether a list of names holds a name.
fn contains_name(names: &[String], name: &str) -> (res: bool)
    ensures
        res == names_contain(names@, name@),
{
    let mut i: usize = 0;
    while i < names.len()
        invariant
            i <= names.len(),
            forall|j: int| 0 <= j < i ==> #[trigger] names@[j]@ != name@,
        decreases names.len() - i,
    {
        if str_eq(names[i].as_str(), name) {
            return true;
        }
        i = i + 1;
    }
    false
}

/// The workspace sections of the sidebar: for each workspace a header with
/// its count of ordinary sessions, then those sessions in order. A collapsed
/// workspace lists only the active session. Subagent sessions are not listed
/// here; `with_subagent_rows` groups them under their families.
pub fn build_sidebar_rows(
    sessions: &[SessionInfo],
    workspaces: &[String],
    collapsed: &[String],
    active: &Option<String>,
) -> (res: Vec<SideRow>)
    ensures
        row_views(res@) == sections(
            sessions@,
            workspaces@,
            collapsed@,
            opt_path(*active),
            workspaces.len() as int,
        ),
{
    let mut rows: Vec<SideRow> = Vec::new();
    let mut w: usize = 0;
    proof {
        assert(row_views(rows@) =~= Seq::<RowView>::empty());
    }
    while w < workspaces.len()
        invariant
            w <= workspaces.len(),
            row_views(rows@) == sections(
                sessions@,
                workspaces@,
                collapsed@,
                opt_path(*active),
                w as int,
            ),
        decreases workspaces.len() - w,
    {
        let workspace = workspaces[w].as_str();
        let name = name_of(workspace);
        let is_collapsed = contains_name(collapsed, name.as_str());
        let ghost before = rows@;
        let mut count: usize = 0;
        let mut listed_rows: Vec<SideRow> = Vec::new();
        let mut i: usize = 0;
        while i < sessions.len()
            invariant
                i <= sessions.len(),
                w < workspaces.len(),
                workspace@ == workspaces@[w as int]@,
                count == members(sessions@, workspace@, i as int).len(),
                count <= i,
                row_views(listed_rows@) == listed(
                    sessions@,
                    workspace@,
                    is_collapsed,
                    opt_path(*active),
                    i as int,
                ).map_values(|i: usize| RowView::Session(i)),
            decreases sessions.len() - i,
        {
            let s = &sessions[i];
            let ghost prev = listed(sessions@, workspace@, is_collapsed, opt_path(*active), i as int);
            let ghost prev_rows = listed_rows@;
            let member = s.subagent.is_none() && str_eq(s.cwd.as_str(), workspace);
            if member {
                count = count + 1;
                let is_active = match active {
                    Some(a) => str_eq(a.as_str(), s.path.as_str()),
                    None => false,
                };
                if !is_collapsed || is_active {
                    listed_rows.push(SideRow::Session(i));
                    proof {
                        assert(row_views(listed_rows@) =~= row_views(prev_rows).push(RowView::Session(i)));
                        assert(prev.push(i).map_values(|i: usize| RowView::Session(i)) =~= prev.map_values(|i: usize| RowView::Session(i)).push(RowView::Session(i)));
                    }
                }
            }
            proof {
                assert(listed(sessions@, workspace@, is_collapsed, opt_path(*active), i + 1) == if in_workspace(sessions@[i as int], workspace@) && (!is_collapsed || opt_path(*active) == Some(sessions@[i as int].path@)) {
                    prev.push(i)
                } else {
                    prev
                });
                assert(row_views(listed_rows@) =~= listed(
                    sessions@,
                    workspace@,
                    is_collapsed,
                    opt_path(*active),
                    i + 1,
                ).map_values(|i: usize| RowView::Session(i)));
            }
            i = i + 1;
        }
        rows.push(SideRow::Workspace { name, count, collapsed: is_collapsed });
        let ghost header = rows@;
        let ghost tail = listed_rows@;
        rows.append(&mut listed_rows);
        proof {
            assert(rows@ == header + tail);
            assert(row_views(rows@) =~= row_views(before) + section(
                sessions@,
                workspace@,
                collapsed@,
                opt_path(*active),
            ));
        }
        w = w + 1;
    }
    rows
}

/// The family root of a session: the ordinary session its parent links lead
/// to, if any.
pub open spec fn family_root(sessions: Seq<SessionInfo>, style: PathStyle, i: int) -> Option<usize> {
    if exists|r: int| reaches_root(sessions, style, i, r) {
        Some((choose|r: int| reaches_root(sessions, style, i, r)) as usize)
    } else {
        None
    }
}

/// A recorded root is the family root.
proof fn lemma_recorded_root(sessions: Seq<SessionInfo>, style: PathStyle, i: int, root: Option<usize>)
    requires
        root_is(sessions, style, i, root),
    ensures
        root == family_root(sessions, style, i),
{
    match root {
        Some(r) => {
            assert(reaches_root(sessions, style, i, r as int));
            let c = choose|c: int| reaches_root(sessions, style, i, c);
            lemma_root_unique(sessions, style, i, c, r as int);
        },
        None => {},
    }
}

/// The subagent sessions among the first `k` whose family root is session
/// `root`, in order.
pub open spec fn children(sessions: Seq<SessionInfo>, style: PathStyle, root: usize, k: int) -> Seq<usize>
    decreases k,
{
    if k <= 0 {
        seq![]
    } else {
        let before = children(sessions, style, root, k - 1);
        if k - 1 != root && family_root(sessions, style, k - 1) == Some(root) {
            before.push((k - 1) as usize)
        } else {
            before
        }
    }
}

/// The sessions among the first `k` whose family has no root.
pub open spec fn orphans(sessions: Seq<SessionInfo>, style: PathStyle, k: int) -> Seq<usize>
    decreases k,
{
    if k <= 0 {
        seq![]
    } else {
        let before = orphans(sessions, style, k - 1);
        if family_root(sessions, style, k - 1) is None {
            before.push((k - 1) as usize)
        } else {
            before
        }
    }
}

/// A group row, followed by its members when it is expanded; nothing for
/// an empty group.
pub open spec fn group_rows(
    members: Seq<usize>,
    root: Option<usize>,
    expanded: bool,
    orphan: bool,
) -> Seq<RowView> {
    if members.len() == 0 {
        seq![]
    } else {
        seq![
            RowView::Subagents {
                root,
                count: members.len() as usize,
                expanded,
                orphan,
            },
        ] + if expanded {
            members.map_values(|j: usize| RowView::ChildSession(j))
        } else {
            seq![]
        }
    }
}

/// The group of the family of an ordinary session; it is expanded when the
/// session's path is among the expanded paths.
pub open spec fn family_rows(
    sessions: Seq<SessionInfo>, style: PathStyle,
    root: usize,
    expanded: Seq<String>,
) -> Seq<RowView> {
    group_rows(
        children(sessions, style, root, sessions.len() as int),
        Some(root),
        names_contain(expanded, sessions[root as int].path@),
        false,
    )
}

/// The group of sessions without a family root. It is keyed by the empty
/// path, which names no session.
pub open spec fn orphan_rows(sessions: Seq<SessionInfo>, style: PathStyle, expanded: Seq<String>) -> Seq<RowView> {
    group_rows(orphans(sessions, style, sessions.len() as int), None, names_contain(expanded, seq![]), true)
}

/// Whether the rows before position `k` end inside a collapsed workspace.
pub open spec fn hidden_at(rows: Seq<RowView>, k: int) -> bool
    decreases k,
{
    if k <= 0 {
        false
    } else {
        match rows[k - 1] {
            RowView::Workspace { collapsed, .. } => collapsed,
            _ => hidden_at(rows, k - 1),
        }
    }
}

/// The first `k` rows, each ordinary session of an open workspace followed
/// by its family's group.
pub open spec fn with_groups(
    rows: Seq<RowView>,
    sessions: Seq<SessionInfo>,
    style: PathStyle,
    expanded: Seq<String>,
    k: int,
) -> Seq<RowView>
    decreases k,
{
    if k <= 0 {
        seq![]
    } else {
        let extra = match rows[k - 1] {
            RowView::Session(i) => if !hidden_at(rows, k - 1) && i < sessions.len() {
                family_rows(sessions, style, i, expanded)
            } else {
                seq![]
            },
            _ => seq![],
        };
        with_groups(rows, sessions, style, expanded, k - 1) + seq![rows[k - 1]] + extra
    }
}

/// No subagent disappears from the sidebar: a subagent session is in the
/// group of its family's root, or, when its family has no root (a missing
/// parent or a cycle), in the orphan group.
pub proof fn lemma_every_subagent_has_a_group(sessions: Seq<SessionInfo>, style: PathStyle, j: int)
    requires
        0 <= j < sessions.len(),
        sessions[j].subagent is Some,
    ensures
        match family_root(sessions, style, j) {
            Some(r) => r != j && children(sessions, style, r, sessions.len() as int).contains(j as usize),
            None => orphans(sessions, style, sessions.len() as int).contains(j as usize),
        },
{
    match family_root(sessions, style, j) {
        Some(r) => {
            let c = choose|c: int| reaches_root(sessions, style, j, c);
            let k = choose|k: nat|
                #[trigger] crate::family::ancestor(sessions, style, j, k) == Some(c)
                    && crate::family::is_ordinary(sessions, c);
            if k == 0 {
                assert(crate::family::ancestor(sessions, style, j, 0) == Some(j));
            }
            assert(r as int != j);
            lemma_children_contain(sessions, style, r, j, sessions.len() as int);
        },
        None => {
            lemma_orphans_contain(sessions, style, j, sessions.len() as int);
        },
    }
}

proof fn lemma_children_contain(sessions: Seq<SessionInfo>, style: PathStyle, r: usize, j: int, k: int)
    requires
        0 <= j < k,
        j != r,
        family_root(sessions, style, j) == Some(r),
    ensures
        children(sessions, style, r, k).contains(j as usize),
    decreases k,
{
    if k - 1 == j {
        let c = children(sessions, style, r, k);
        assert(c[c.len() - 1] == j as usize);
    } else {
        lemma_children_contain(sessions, style, r, j, k - 1);
        let before = children(sessions, style, r, k - 1);
        let i = choose|i: int| 0 <= i < before.len() && before[i] == j as usize;
        assert(children(sessions, style, r, k)[i] == j as usize);
    }
}

proof fn lemma_orphans_contain(sessions: Seq<SessionInfo>, style: PathStyle, j: int, k: int)
    requires
        0 <= j < k,
        family_root(sessions, style, j) is None,
    ensures
        orphans(sessions, style, k).contains(j as usize),
    decreases k,
{
    if k - 1 == j {
        let o = orphans(sessions, style, k);
        assert(o[o.len() - 1] == j as usize);
    } else {
        lemma_orphans_contain(sessions, style, j, k - 1);
        let before = orphans(sessions, style, k - 1);
        let i = choose|i: int| 0 <= i < before.len() && before[i] == j as usize;
        assert(orphans(sessions, style, k)[i] == j as usize);
    }
}

/// A copy of a row.
fn copy_row(row: &SideRow) -> (res: SideRow)
    ensures
        res@ == row@,
{
    match row {
        SideRow::Workspace { name, count, collapsed } => SideRow::Workspace {
            name: name.clone(),
            count: *count,
            collapsed: *collapsed,
        },
        SideRow::Session(i) => SideRow::Session(*i),
        SideRow::Subagents { root, count, expanded, orphan } => SideRow::Subagents {
            root: *root,
            count: *count,
            expanded: *expanded,
            orphan: *orphan,
        },
        SideRow::ChildSession(i) => SideRow::ChildSession(*i),
    }
}

/// Appends a group row and, when expanded, its members.
fn push_group(
    out: &mut Vec<SideRow>,
    members: &Vec<usize>,
    root: Option<usize>,
    expanded: bool,
    orphan: bool,
)
    ensures
        row_views(final(out)@) == row_views(old(out)@) + group_rows(members@, root, expanded, orphan),
{
    let ghost start = out@;
    if members.len() == 0 {
        proof {
            assert(row_views(out@) =~= row_views(start) + group_rows(members@, root, expanded, orphan));
        }
        return;
    }
    out.push(SideRow::Subagents { root, count: members.len(), expanded, orphan });
    if expanded {
        let mut j: usize = 0;
        while j < members.len()
            invariant
                j <= members.len(),
                row_views(out@) == row_views(start) + seq![
                    RowView::Subagents { root, count: members.len(), expanded, orphan },
                ] + members@.take(j as int).map_values(|m: usize| RowView::ChildSession(m)),
            decreases members.len() - j,
        {
            let ghost prev = out@;
            out.push(SideRow::ChildSession(members[j]));
            proof {
                assert(members@.take(j + 1) =~= members@.take(j as int).push(members@[j as int]));
                assert(members@.take(j + 1).map_values(|m: usize| RowView::ChildSession(m)) =~= members@.take(
                    j as int,
                ).map_values(|m: usize| RowView::ChildSession(m)).push(RowView::ChildSession(members@[j as int])));
                assert(row_views(out@) =~= row_views(prev).push(RowView::ChildSession(members@[j as int])));
                assert(row_views(out@) =~= row_views(start) + seq![
                    RowView::Subagents { root, count: members.len(), expanded, orphan },
                ] + members@.take(j + 1).map_values(|m: usize| RowView::ChildSession(m)));
            }
            j = j + 1;
        }
        proof {
            assert(members@.take(members.len() as int) =~= members@);
        }
    }
    proof {
        assert(row_views(out@) =~= row_views(start) + group_rows(members@, root, expanded, orphan));
    }
}

/// Adds the subagent groups to the rows of the workspace sections: after
/// each ordinary session of an open workspace the group of its family,
/// listing the members when the group is expanded; at the end the group of
/// subagents whose parent is missing or whose links form a cycle, so that
/// none disappears. A child started in another workspace stays under its
/// parent.
pub fn with_subagent_rows(
    rows: Vec<SideRow>,
    sessions: &[SessionInfo],
    style: PathStyle,
    expanded: &[String],
) -> (res: Vec<SideRow>)
    ensures
        row_views(res@) == with_groups(row_views(rows@), sessions@, style, expanded@, rows.len() as int)
            + orphan_rows(sessions@, style, expanded@),
{
    let roots = family_roots(sessions, style);
    let n = sessions.len();
    let ghost s = sessions@;
    proof {
        assert forall|j: int| 0 <= j < n implies #[trigger] roots@[j] == family_root(s, style, j) by {
            lemma_recorded_root(s, style, j, roots@[j]);
        }
    }
    let ghost views = row_views(rows@);
    let mut out: Vec<SideRow> = Vec::new();
    let mut hidden = false;
    let mut k: usize = 0;
    proof {
        assert(row_views(out@) =~= with_groups(views, s, style, expanded@, 0));
    }
    while k < rows.len()
        invariant
            k <= rows.len(),
            n == sessions.len() == roots.len(),
            s == sessions@,
            views == row_views(rows@),
            forall|j: int| 0 <= j < n ==> #[trigger] roots@[j] == family_root(s, style, j),
            hidden == hidden_at(views, k as int),
            row_views(out@) == with_groups(views, s, style, expanded@, k as int),
        decreases rows.len() - k,
    {
        let row = &rows[k];
        let ghost before = out@;
        out.push(copy_row(row));
        proof {
            assert(views[k as int] == row@);
        }
        match row {
            SideRow::Workspace { collapsed, .. } => {
                hidden = *collapsed;
                proof {
                    assert(row_views(out@) =~= with_groups(views, s, style, expanded@, k + 1));
                }
            },
            SideRow::Session(i) => {
                let i = *i;
                if !hidden && i < n {
                    let mut kids: Vec<usize> = Vec::new();
                    let mut j: usize = 0;
                    while j < n
                        invariant
                            j <= n == roots.len(),
                            i < n,
                            forall|x: int| 0 <= x < n ==> #[trigger] roots@[x] == family_root(s, style, x),
                            kids@ == children(s, style, i, j as int),
                        decreases n - j,
                    {
                        if j != i && roots[j] == Some(i) {
                            kids.push(j);
                        }
                        j = j + 1;
                    }
                    let open = contains_name(expanded, sessions[i].path.as_str());
                    push_group(&mut out, &kids, Some(i), open, false);
                }
                proof {
                    assert(row_views(out@) =~= with_groups(views, s, style, expanded@, k + 1));
                }
            },
            _ => {
                proof {
                    assert(row_views(out@) =~= with_groups(views, s, style, expanded@, k + 1));
                }
            },
        }
        k = k + 1;
    }
    let mut lost: Vec<usize> = Vec::new();
    let mut j: usize = 0;
    while j < n
        invariant
            j <= n == roots.len(),
            forall|x: int| 0 <= x < n ==> #[trigger] roots@[x] == family_root(s, style, x),
            lost@ == orphans(s, style, j as int),
        decreases n - j,
    {
        if roots[j].is_none() {
            lost.push(j);
        }
        j = j + 1;
    }
    let open = contains_name(expanded, "");
    proof {
        assert(""@ =~= Seq::<char>::empty()) by {
            reveal_strlit("");
        }
    }
    push_group(&mut out, &lost, None, open, true);
    out
}

/// The session a row shows, or -1 for any other row.
pub open spec fn session_of(r: RowView) -> int {
    match r {
        RowView::Session(i) => i as int,
        _ => -1,
    }
}

/// What a workspace section lists among the first `k` sessions: in order,
/// exactly its ordinary sessions, or when collapsed exactly those whose
/// path is the active path.
proof fn lemma_listed_exactly(
    sessions: Seq<SessionInfo>,
    workspace: Seq<char>,
    collapsed: bool,
    active: Option<Seq<char>>,
    k: int,
)
    requires
        0 <= k <= sessions.len() <= usize::MAX,
    ensures
        forall|j: int|
            0 <= j < listed(sessions, workspace, collapsed, active, k).len() ==> {
                let i = #[trigger] listed(sessions, workspace, collapsed, active, k)[j];
                &&& i < k
                &&& in_workspace(sessions[i as int], workspace)
                &&& (collapsed ==> active == Some(sessions[i as int].path@))
            },
        forall|i: int|
            0 <= i < k && in_workspace(sessions[i], workspace) && (!collapsed || active == Some(
                sessions[i].path@,
            )) ==> #[trigger] listed(sessions, workspace, collapsed, active, k).contains(
                i as usize,
            ),
        forall|a: int, b: int|
            0 <= a < b < listed(sessions, workspace, collapsed, active, k).len() ==> #[trigger] listed(
                sessions,
                workspace,
                collapsed,
                active,
                k,
            )[a] < #[trigger] listed(sessions, workspace, collapsed, active, k)[b],
        members(sessions, workspace, k) == listed(sessions, workspace, false, active, k),
        listed(sessions, workspace, collapsed, active, k).len() <= k,
    decreases k,
{
    if k > 0 {
        lemma_listed_exactly(sessions, workspace, collapsed, active, k - 1);
        let before = listed(sessions, workspace, collapsed, active, k - 1);
        let now = listed(sessions, workspace, collapsed, active, k);
        lemma_listed_exactly(sessions, workspace, false, active, k - 1);
        assert forall|a: int, b: int| 0 <= a < b < now.len() implies #[trigger] now[a] < #[trigger] now[b] by {
            if b < before.len() {
                assert(now[a] == before[a] && now[b] == before[b]);
            } else {
                assert(now[a] == before[a]);
            }
        }
        assert forall|j: int| 0 <= j < now.len() implies {
            let i = #[trigger] now[j];
            &&& i < k
            &&& in_workspace(sessions[i as int], workspace)
            &&& (collapsed ==> active == Some(sessions[i as int].path@))
        } by {
            if j < before.len() {
                assert(now[j] == before[j]);
            }
        }
        assert forall|i: int|
            0 <= i < k && in_workspace(sessions[i], workspace) && (!collapsed || active == Some(
                sessions[i].path@,
            )) implies #[trigger] now.contains(i as usize) by {
            if i < k - 1 {
                assert(before.contains(i as usize));
                let w = choose|w: int| 0 <= w < before.len() && before[w] == i as usize;
                assert(now[w] == i as usize);
            } else {
                assert(now[now.len() - 1] == i as usize);
            }
        }
    }
}

/// A workspace section is its header, then session rows only, in session
/// order: each is an ordinary session of the workspace, and in a collapsed
/// section each is the active session. Every ordinary session of an
/// expanded section, and the active one of a collapsed section, has its row.
/// The header counts the rows the section lists when expanded, collapsed or
/// not.
pub proof fn lemma_section_rows(
    sessions: Seq<SessionInfo>,
    workspace: Seq<char>,
    collapsed_names: Seq<String>,
    active: Option<Seq<char>>,
)
    requires
        sessions.len() <= usize::MAX,
    ensures
        ({
            let rows = section(sessions, workspace, collapsed_names, active);
            let collapsed = names_contain(collapsed_names, workspace_name(workspace));
            &&& rows.len() >= 1
            &&& rows[0] matches RowView::Workspace { name, collapsed: c, count } && name
                == workspace_name(workspace) && c == collapsed && count == listed(
                sessions,
                workspace,
                false,
                active,
                sessions.len() as int,
            ).len()
            &&& forall|a: int, b: int|
                1 <= a < b < rows.len() ==> #[trigger] session_of(rows[a]) < #[trigger] session_of(
                    rows[b],
                )
            &&& forall|j: int|
                1 <= j < rows.len() ==> (#[trigger] rows[j] matches RowView::Session(i) && i
                    < sessions.len() && in_workspace(sessions[i as int], workspace) && (collapsed
                    ==> active == Some(sessions[i as int].path@)))
            &&& forall|i: int|
                0 <= i < sessions.len() && in_workspace(sessions[i], workspace) && (!collapsed
                    || active == Some(sessions[i].path@)) ==> exists|j: int|
                    1 <= j < rows.len() && #[trigger] rows[j] == RowView::Session(i as usize)
        }),
{
    let rows = section(sessions, workspace, collapsed_names, active);
    let collapsed = names_contain(collapsed_names, workspace_name(workspace));
    let n = sessions.len() as int;
    let l = listed(sessions, workspace, collapsed, active, n);
    lemma_listed_exactly(sessions, workspace, collapsed, active, n);
    lemma_listed_exactly(sessions, workspace, false, active, n);
    assert forall|a: int, b: int| 1 <= a < b < rows.len() implies #[trigger] session_of(rows[a])
        < #[trigger] session_of(rows[b]) by {
        assert(rows[a] == RowView::Session(l[a - 1]));
        assert(rows[b] == RowView::Session(l[b - 1]));
    }
    assert forall|j: int| 1 <= j < rows.len() implies (#[trigger] rows[j] matches RowView::Session(i)
        && i < sessions.len() && in_workspace(sessions[i as int], workspace) && (collapsed ==> active
        == Some(sessions[i as int].path@))) by {
        assert(rows[j] == RowView::Session(l[j - 1]));
        let i = l[j - 1];
        assert(i < n);
    }
    assert forall|i: int|
        0 <= i < sessions.len() && in_workspace(sessions[i], workspace) && (!collapsed || active
            == Some(sessions[i].path@)) implies exists|j: int|
        1 <= j < rows.len() && #[trigger] rows[j] == RowView::Session(i as usize) by {
        assert(l.contains(i as usize));
        let w = choose|w: int| 0 <= w < l.len() && l[w] == i as usize;
        assert(rows[w + 1] == RowView::Session(i as usize));
    }
}

} // verus!

