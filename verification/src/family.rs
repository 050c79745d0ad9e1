//! Session families: every subagent session belongs under the ordinary
//! session at the top of its chain of parents.
use vstd::prelude::*;
use vstd::hash_map::StringHashMap;

use crate::origin::{key_of, path_key, PathStyle, SubagentOrigin};

verus! {

/// A saved session as discovery reports it.
#[derive(Clone, Debug, PartialEq, Eq)]
pub struct SessionInfo {
    pub path: String,
    pub id: String,
    pub cwd: String,
    pub title: String,
    pub first_message: String,
    pub subagent: Option<SubagentOrigin>,
}

/// The index of each session path: the last session with that path.
pub open spec fn path_index(sessions: Seq<SessionInfo>, style: PathStyle) -> Map<Seq<char>, usize>
    decreases sessions.len(),
{
    if sessions.len() == 0 {
        Map::empty()
    } else {
        path_index(sessions.drop_last(), style).insert(
            key_of(sessions.last().path@, style),
            (sessions.len() - 1) as usize,
        )
    }
}

/// The session whose path a subagent's origin names, if discovery found it.
pub open spec fn parent_of(sessions: Seq<SessionInfo>, style: PathStyle, i: int) -> Option<int> {
    match sessions[i].subagent {
        Some(origin) => if path_index(sessions, style).contains_key(key_of(origin.parent@, style)) {
            Some(path_index(sessions, style)[key_of(origin.parent@, style)] as int)
        } else {
            None
        },
        None => None,
    }
}

/// The session `k` parent links above session `i`, if the links go that far.
pub open spec fn ancestor(sessions: Seq<SessionInfo>, style: PathStyle, i: int, k: nat) -> Option<int>
    decreases k,
{
    if k == 0 {
        Some(i)
    } else {
        match ancestor(sessions, style, i, (k - 1) as nat) {
            Some(j) => parent_of(sessions, style, j),
            None => None,
        }
    }
}

/// An ordinary session: one that is not a recognised subagent.
pub open spec fn is_ordinary(sessions: Seq<SessionInfo>, r: int) -> bool {
    sessions[r].subagent is None
}

/// Session `r` is the family root of session `i`: the ordinary session that
/// the parent links of `i` lead to.
pub open spec fn reaches_root(sessions: Seq<SessionInfo>, style: PathStyle, i: int, r: int) -> bool {
    exists|k: nat| #[trigger] ancestor(sessions, style, i, k) == Some(r) && is_ordinary(sessions, r)
}

/// The family root recorded for session `i` is right: `Some(r)` when the
/// parent links of `i` lead to the ordinary session `r`, `None` when they
/// end at a missing parent or go round a cycle.
pub open spec fn root_is(sessions: Seq<SessionInfo>, style: PathStyle, i: int, root: Option<usize>) -> bool {
    match root {
        Some(r) => reaches_root(sessions, style, i, r as int),
        None => forall|r: int| !reaches_root(sessions, style, i, r),
    }
}

/// Every index in the path index names a session.
proof fn lemma_path_index_bounds(sessions: Seq<SessionInfo>, style: PathStyle)
    ensures
        forall|p: Seq<char>|
            #[trigger] path_index(sessions, style).contains_key(p) ==> path_index(sessions, style)[p]
                < sessions.len(),
    decreases sessions.len(),
{
    if sessions.len() > 0 {
        let before = sessions.drop_last();
        lemma_path_index_bounds(before, style);
        assert forall|p: Seq<char>| #[trigger] path_index(sessions, style).contains_key(p) implies path_index(
            sessions, style,
        )[p] < sessions.len() by {
            if p != key_of(sessions.last().path@, style) {
                assert(path_index(before, style).contains_key(p));
            }
        }
    }
}

/// Going up `k + 1` links from `i` is going up `k` links from its parent.
proof fn lemma_ancestor_shift(sessions: Seq<SessionInfo>, style: PathStyle, i: int, k: nat)
    ensures
        ancestor(sessions, style, i, k + 1) == match parent_of(sessions, style, i) {
            Some(j) => ancestor(sessions, style, j, k),
            None => None::<int>,
        },
    decreases k,
{
    assert(ancestor(sessions, style, i, k + 1) == match ancestor(sessions, style, i, k) {
        Some(j) => parent_of(sessions, style, j),
        None => None::<int>,
    });
    if k > 0 {
        lemma_ancestor_shift(sessions, style, i, (k - 1) as nat);
        assert(((k - 1) as nat) + 1 == k);
        match parent_of(sessions, style, i) {
            Some(j) => {
                assert(ancestor(sessions, style, j, k) == match ancestor(sessions, style, j, (k - 1) as nat) {
                    Some(x) => parent_of(sessions, style, x),
                    None => None::<int>,
                });
            },
            None => {},
        }
    } else {
        assert(ancestor(sessions, style, i, 0) == Some(i));
    }
}

/// A session that has a parent shares its parent's family root.
pub proof fn lemma_child_shares_root(sessions: Seq<SessionInfo>, style: PathStyle, i: int, r: int)
    requires
        parent_of(sessions, style, i) is Some,
    ensures
        reaches_root(sessions, style, i, r) <==> reaches_root(sessions, style, parent_of(sessions, style, i)->0, r),
{
    let j = parent_of(sessions, style, i)->0;
    if reaches_root(sessions, style, j, r) {
        let k = choose|k: nat| #[trigger] ancestor(sessions, style, j, k) == Some(r) && is_ordinary(sessions, r);
        lemma_ancestor_shift(sessions, style, i, k);
        assert(ancestor(sessions, style, i, k + 1) == Some(r));
    }
    if reaches_root(sessions, style, i, r) {
        let k = choose|k: nat| #[trigger] ancestor(sessions, style, i, k) == Some(r) && is_ordinary(sessions, r);
        if k == 0 {
            assert(ancestor(sessions, style, i, 0) == Some(i));
            assert(!is_ordinary(sessions, i));
        } else {
            lemma_ancestor_shift(sessions, style, i, (k - 1) as nat);
            assert(ancestor(sessions, style, j, (k - 1) as nat) == Some(r));
        }
    }
}

/// Above a session without a parent link there is nothing.
proof fn lemma_no_parent_ends(sessions: Seq<SessionInfo>, style: PathStyle, i: int, k: nat)
    requires
        parent_of(sessions, style, i) is None,
        k > 0,
    ensures
        ancestor(sessions, style, i, k) is None,
    decreases k,
{
    assert(ancestor(sessions, style, i, k) == match ancestor(sessions, style, i, (k - 1) as nat) {
        Some(j) => parent_of(sessions, style, j),
        None => None::<int>,
    });
    if k > 1 {
        lemma_no_parent_ends(sessions, style, i, (k - 1) as nat);
    } else {
        assert(ancestor(sessions, style, i, 0) == Some(i));
    }
}

/// An ordinary session is its own family root, and the only one.
pub proof fn lemma_ordinary_is_own_root(sessions: Seq<SessionInfo>, style: PathStyle, i: int, r: int)
    requires
        is_ordinary(sessions, i),
    ensures
        reaches_root(sessions, style, i, r) <==> r == i,
{
    assert(ancestor(sessions, style, i, 0) == Some(i));
    if reaches_root(sessions, style, i, r) {
        let k = choose|k: nat| #[trigger] ancestor(sessions, style, i, k) == Some(r) && is_ordinary(sessions, r);
        if k > 0 {
            lemma_no_parent_ends(sessions, style, i, k);
        }
    }
}

/// A subagent whose parent is missing has no family root.
pub proof fn lemma_missing_parent_orphans(sessions: Seq<SessionInfo>, style: PathStyle, i: int, r: int)
    requires
        !is_ordinary(sessions, i),
        parent_of(sessions, style, i) is None,
    ensures
        !reaches_root(sessions, style, i, r),
{
    if reaches_root(sessions, style, i, r) {
        let k = choose|k: nat| #[trigger] ancestor(sessions, style, i, k) == Some(r) && is_ordinary(sessions, r);
        if k > 0 {
            lemma_no_parent_ends(sessions, style, i, k);
        }
    }
}

/// Sessions whose parent links stay among themselves have no family root:
/// they form a cycle, or lead into one.
pub proof fn lemma_cycle_orphans(sessions: Seq<SessionInfo>, style: PathStyle, cycle: Set<int>, i: int, r: int)
    requires
        cycle.contains(i),
        forall|c: int|
            #[trigger] cycle.contains(c) ==> (parent_of(sessions, style, c) matches Some(p) && cycle.contains(p)),
    ensures
        !reaches_root(sessions, style, i, r),
{
    assert forall|k: nat| #[trigger] ancestor(sessions, style, i, k) matches Some(c) && cycle.contains(c) by {
        lemma_ancestor_in(sessions, style, cycle, i, k);
    }
    if reaches_root(sessions, style, i, r) {
        let k = choose|k: nat| #[trigger] ancestor(sessions, style, i, k) == Some(r) && is_ordinary(sessions, r);
        assert(cycle.contains(r));
        assert(parent_of(sessions, style, r) is Some);
    }
}

proof fn lemma_ancestor_in(sessions: Seq<SessionInfo>, style: PathStyle, cycle: Set<int>, i: int, k: nat)
    requires
        cycle.contains(i),
        forall|c: int|
            #[trigger] cycle.contains(c) ==> (parent_of(sessions, style, c) matches Some(p) && cycle.contains(p)),
    ensures
        ancestor(sessions, style, i, k) matches Some(c) && cycle.contains(c),
    decreases k,
{
    if k > 0 {
        lemma_ancestor_in(sessions, style, cycle, i, (k - 1) as nat);
        assert(ancestor(sessions, style, i, k) == match ancestor(sessions, style, i, (k - 1) as nat) {
            Some(j) => parent_of(sessions, style, j),
            None => None::<int>,
        });
    }
}

/// A family has one root: the parent links of a session lead to at most one
/// ordinary session.
pub proof fn lemma_root_unique(sessions: Seq<SessionInfo>, style: PathStyle, i: int, r1: int, r2: int)
    requires
        reaches_root(sessions, style, i, r1),
        reaches_root(sessions, style, i, r2),
    ensures
        r1 == r2,
{
    let k1 = choose|k: nat| #[trigger] ancestor(sessions, style, i, k) == Some(r1) && is_ordinary(sessions, r1);
    let k2 = choose|k: nat| #[trigger] ancestor(sessions, style, i, k) == Some(r2) && is_ordinary(sessions, r2);
    if k1 < k2 {
        lemma_ancestor_after_root(sessions, style, i, k1, k2);
    } else if k2 < k1 {
        lemma_ancestor_after_root(sessions, style, i, k2, k1);
    }
}

/// Past an ordinary session the parent links end.
proof fn lemma_ancestor_after_root(sessions: Seq<SessionInfo>, style: PathStyle, i: int, k: nat, m: nat)
    requires
        k < m,
        ancestor(sessions, style, i, k) matches Some(r) && is_ordinary(sessions, r),
    ensures
        ancestor(sessions, style, i, m) is None,
    decreases m,
{
    assert(ancestor(sessions, style, i, m) == match ancestor(sessions, style, i, (m - 1) as nat) {
        Some(j) => parent_of(sessions, style, j),
        None => None::<int>,
    });
    if m > k + 1 {
        lemma_ancestor_after_root(sessions, style, i, k, (m - 1) as nat);
    }
}

/// Distinct indices below `n` number at most `n`.
proof fn lemma_distinct_below(s: Seq<usize>, n: usize)
    requires
        s.no_duplicates(),
        forall|i: int| 0 <= i < s.len() ==> s[i] < n,
    ensures
        s.len() <= n,
{
    let t = s.map_values(|x: usize| x as int);
    assert(t.no_duplicates()) by {
        assert forall|a: int, b: int| 0 <= a < t.len() && 0 <= b < t.len() && a != b implies t[a]
            != t[b] by {
            assert(s[a] != s[b]);
        }
    }
    t.unique_seq_to_set();
    vstd::set_lib::lemma_int_range(0, n as int);
    assert(t.to_set().subset_of(vstd::set_lib::set_int_range(0, n as int)));
    vstd::set_lib::lemma_len_subset(t.to_set(), vstd::set_lib::set_int_range(0, n as int));
}

/// Walks up the parent links from `start` until a session whose root is
/// known, a session this walk passed already (a cycle), an ordinary session
/// or a missing parent. Returns the root of the walk and the sessions it
/// passed, each marked as visited by this walk.
fn climb(
    sessions: &[SessionInfo], style: PathStyle,
    indices: &StringHashMap<usize>,
    memo: &Vec<Option<Option<usize>>>,
    visited: &mut Vec<usize>,
    start: usize,
) -> (res: (Option<usize>, Vec<usize>))
    requires
        start < sessions.len(),
        indices@ == path_index(sessions@, style),
        forall|p: Seq<char>|
            #[trigger] path_index(sessions@, style).contains_key(p) ==> path_index(sessions@, style)[p]
                < sessions.len(),
        memo.len() == sessions.len(),
        old(visited).len() == sessions.len(),
        memo@[start as int] is None,
        forall|x: int|
            0 <= x < sessions.len() ==> (#[trigger] memo@[x] matches Some(o) ==> root_is(
                sessions@, style,
                x,
                o,
            )),
        forall|x: int|
            0 <= x < sessions.len() ==> #[trigger] old(visited)@[x] < start || old(visited)@[x]
                == usize::MAX,
    ensures
        final(visited).len() == sessions.len(),
        forall|x: int|
            0 <= x < sessions.len() ==> #[trigger] final(visited)@[x] <= start || final(visited)@[x]
                == usize::MAX,
        res.1.len() > 0 && res.1@[0] == start,
        forall|t: int| 0 <= t < res.1.len() ==> #[trigger] res.1@[t] < sessions.len(),
        forall|t: int| 0 <= t < res.1.len() ==> root_is(sessions@, style, #[trigger] res.1@[t] as int, res.0),
{
    let n = sessions.len();
    let ghost s = sessions@;
        let mut current: usize = start;
    let mut chain: Vec<usize> = Vec::new();
    let root: Option<usize>;
    loop
        invariant_except_break
            current < n,
            chain@.no_duplicates(),
            forall|t: int| 0 <= t < chain.len() ==> #[trigger] chain@[t] < n,
            forall|x: int|
                0 <= x < n ==> (#[trigger] visited@[x] == start <==> chain@.contains(x as usize)),
            forall|x: int|
                0 <= x < n ==> #[trigger] visited@[x] <= start || visited@[x] == usize::MAX,
            forall|t: int|
                0 <= t < chain.len() ==> parent_of(s, style, #[trigger] chain@[t] as int) == Some(
                    if t + 1 < chain.len() {
                        chain@[t + 1] as int
                    } else {
                        current as int
                    },
                ),
            forall|t: int, r: int|
                #![trigger reaches_root(s, style, chain@[t] as int, r)]
                0 <= t < chain.len() ==> (reaches_root(s, style, chain@[t] as int, r)
                    <==> reaches_root(s, style, current as int, r)),
            chain.len() == 0 ==> current == start,
            chain.len() > 0 ==> chain@[0] == start,
            chain.len() <= n,
        invariant
            s == sessions@,
            n == sessions.len(),
            indices@ == path_index(s, style),
            forall|p: Seq<char>|
                #[trigger] path_index(s, style).contains_key(p) ==> path_index(s, style)[p] < s.len(),
            memo.len() == n,
            visited.len() == n,
            forall|x: int|
                0 <= x < n ==> (#[trigger] memo@[x] matches Some(o) ==> root_is(s, style, x, o)),
            start < n,
            memo@[start as int] is None,
        ensures
            forall|x: int|
                0 <= x < n ==> #[trigger] visited@[x] <= start || visited@[x] == usize::MAX,
            forall|t: int| 0 <= t < chain.len() ==> #[trigger] chain@[t] < n,
            forall|t: int| 0 <= t < chain.len() ==> root_is(s, style, #[trigger] chain@[t] as int, root),
            chain.len() > 0 && chain@[0] == start,
        decreases n - chain.len(),
    {
        match memo[current] {
            Some(r) => {
                proof {
                    assert(root_is(s, style, current as int, r));
                    if chain.len() == 0 {
                        assert(current == start);
                        assert(memo@[start as int] is None);
                        assert(false);
                    }
                }
                root = r;
                break;
            },
            None => {},
        }
        if visited[current] == start {
            proof {
                assert(chain@.contains(current));
                let t0 = choose|t: int| 0 <= t < chain.len() && chain@[t] == current;
                let cycle = Set::new(|c: int| exists|t: int| t0 <= t < chain.len() && chain@[t] as int == c);
                assert forall|c: int| #[trigger] cycle.contains(c) implies (parent_of(s, style, c) matches Some(p) && cycle.contains(p)) by {
                    let t = choose|t: int| t0 <= t < chain.len() && chain@[t] as int == c;
                    if t + 1 < chain.len() {
                        assert(cycle.contains(chain@[t + 1] as int));
                    } else {
                        assert(cycle.contains(chain@[t0] as int));
                    }
                }
                assert(cycle.contains(current as int));
                assert forall|r: int| !reaches_root(s, style, current as int, r) by {
                    lemma_cycle_orphans(s, style, cycle, current as int, r);
                }
            }
            root = None;
            break;
        }
        proof {
            assert(!chain@.contains(current));
            lemma_distinct_below(chain@.push(current), n);
        }
        visited.set(current, start);
        let ghost before = chain@;
        chain.push(current);
        proof {
            assert forall|x: int| 0 <= x < n implies (#[trigger] visited@[x] == start <==> chain@.contains(x as usize)) by {
                if x == current as int {
                    assert(chain@[chain.len() - 1] == current);
                } else if before.contains(x as usize) {
                    let t = choose|t: int| 0 <= t < before.len() && before[t] == x as usize;
                    assert(chain@[t] == x as usize);
                } else if chain@.contains(x as usize) {
                    let t = choose|t: int| 0 <= t < chain.len() && chain@[t] == x as usize;
                    assert(t < before.len());
                    assert(before[t] == x as usize);
                }
            }
        }
        match &sessions[current].subagent {
            None => {
                proof {
                    assert forall|r: int| reaches_root(s, style, current as int, r) <==> r == current as int by {
                        lemma_ordinary_is_own_root(s, style, current as int, r);
                    }
                    assert forall|t: int| 0 <= t < chain.len() implies root_is(s, style, #[trigger] chain@[t] as int, Some(current)) by {
                        if t < before.len() {
                            assert(reaches_root(s, style, before[t] as int, current as int) <==> reaches_root(s, style, current as int, current as int));
                        }
                    }
                }
                root = Some(current);
                break;
            },
            Some(origin) => {
                let key = path_key(origin.parent.as_str(), style);
                match indices.get(key.as_str()) {
                    None => {
                        proof {
                            assert(parent_of(s, style, current as int) is None);
                            assert forall|r: int| !reaches_root(s, style, current as int, r) by {
                                lemma_missing_parent_orphans(s, style, current as int, r);
                            }
                            assert forall|t: int| 0 <= t < chain.len() implies root_is(s, style, #[trigger] chain@[t] as int, None) by {
                                if t < before.len() {
                                    assert forall|r: int| !reaches_root(s, style, before[t] as int, r) by {
                                        assert(reaches_root(s, style, before[t] as int, r) <==> reaches_root(s, style, current as int, r));
                                    }
                                }
                            }
                        }
                        root = None;
                        break;
                    },
                    Some(p) => {
                        let next: usize = *p;
                        proof {
                            assert(parent_of(s, style, current as int) == Some(next as int));
                            assert forall|r: int| reaches_root(s, style, current as int, r) <==> reaches_root(s, style, next as int, r) by {
                                lemma_child_shares_root(s, style, current as int, r);
                            }
                        }
                        current = next;
                    },
                }
            },
        }
    }
    (root, chain)
}

/// Associate descendants with their nearest ordinary-session ancestor. Cycles
/// and missing parents become an orphan group rather than disappearing.
/// Each chain of links is walked once: a session's root is kept for every
/// session the walk passed, so even a deep imported chain costs linear work.
pub fn family_roots(sessions: &[SessionInfo], style: PathStyle) -> (res: Vec<Option<usize>>)
    ensures
        res.len() == sessions.len(),
        forall|i: int| 0 <= i < sessions.len() ==> root_is(sessions@, style, i, #[trigger] res@[i]),
{
    let n = sessions.len();
    let ghost s = sessions@;
    let mut indices: StringHashMap<usize> = StringHashMap::new();
    let mut i: usize = 0;
    while i < n
        invariant
            i <= n == sessions.len(),
            s == sessions@,
            indices@ == path_index(s.take(i as int), style),
        decreases n - i,
    {
        proof {
            assert(s.take(i + 1).drop_last() =~= s.take(i as int));
        }
        indices.insert(path_key(sessions[i].path.as_str(), style), i);
        i = i + 1;
    }
    proof {
        assert(s.take(n as int) =~= s);
        lemma_path_index_bounds(s, style);
    }
    let mut memo: Vec<Option<Option<usize>>> = Vec::new();
    let mut visited: Vec<usize> = Vec::new();
    let mut i: usize = 0;
    while i < n
        invariant
            i <= n,
            memo.len() == i,
            visited.len() == i,
            forall|x: int| 0 <= x < i ==> #[trigger] memo@[x] is None,
            forall|x: int| 0 <= x < i ==> #[trigger] visited@[x] == usize::MAX,
        decreases n - i,
    {
        memo.push(None);
        visited.push(usize::MAX);
        i = i + 1;
    }
    let mut start: usize = 0;
    while start < n
        invariant
            start <= n == sessions.len(),
            s == sessions@,
            indices@ == path_index(s, style),
            forall|p: Seq<char>|
                #[trigger] path_index(s, style).contains_key(p) ==> path_index(s, style)[p] < s.len(),
            memo.len() == n,
            visited.len() == n,
            forall|x: int| 0 <= x < start ==> #[trigger] memo@[x] is Some,
            forall|x: int|
                0 <= x < n ==> (#[trigger] memo@[x] matches Some(o) ==> root_is(s, style, x, o)),
            forall|x: int| 0 <= x < n ==> #[trigger] visited@[x] < start || visited@[x] == usize::MAX,
        decreases n - start,
    {
        if memo[start].is_some() {
            start = start + 1;
            continue;
        }
        let (root, chain) = climb(sessions, style, &indices, &memo, &mut visited, start);
        let mut t: usize = 0;
        while t < chain.len()
            invariant
                t <= chain.len(),
                memo.len() == n,
                forall|u: int| 0 <= u < chain.len() ==> #[trigger] chain@[u] < n,
                forall|u: int| 0 <= u < chain.len() ==> root_is(s, style, #[trigger] chain@[u] as int, root),
                chain.len() > 0 && chain@[0] == start,
                forall|x: int| 0 <= x < start ==> #[trigger] memo@[x] is Some,
                forall|x: int|
                    0 <= x < n ==> (#[trigger] memo@[x] matches Some(o) ==> root_is(s, style, x, o)),
                t > 0 ==> memo@[start as int] is Some,
            decreases chain.len() - t,
        {
            memo.set(chain[t], Some(root));
            t = t + 1;
        }
        start = start + 1;
    }
    let mut res: Vec<Option<usize>> = Vec::new();
    let mut i: usize = 0;
    while i < n
        invariant
            i <= n == sessions.len(),
            s == sessions@,
            memo.len() == n,
            res.len() == i,
            forall|x: int| 0 <= x < n ==> #[trigger] memo@[x] is Some,
            forall|x: int|
                0 <= x < n ==> (#[trigger] memo@[x] matches Some(o) ==> root_is(s, style, x, o)),
            forall|x: int| 0 <= x < i ==> root_is(s, style, x, #[trigger] res@[x]),
        decreases n - i,
    {
        let r = match memo[i] {
            Some(o) => o,
            None => None,
        };
        res.push(r);
        i = i + 1;
    }
    res
}

} // verus!
