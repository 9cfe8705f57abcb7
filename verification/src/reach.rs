//! What the level-order and root-ward enumerations of a tree hold: each
//! descendant, or each ancestor, exactly once.

use vstd::prelude::*;
use crate::forest::{climbs_to, is_within, links_ok, ranked};
use crate::node::NodeView;
use crate::queries::{children_in, is_root_path, kids_of, level, levels};

verus! {

/// Following parent links from `from` reaches `to` after exactly `steps`
/// links.
pub open spec fn climbs_exactly(m: Map<u64, NodeView>, from: u64, to: u64, steps: nat) -> bool
    decreases steps,
{
    m.dom().contains(from) && if steps == 0 {
        from == to
    } else {
        m[from].parent is Some && climbs_exactly(m, m[from].parent->0, to, (steps - 1) as nat)
    }
}

/// A walk of exactly `steps` links is a walk within `steps` links.
pub proof fn lemma_exact_is_within(m: Map<u64, NodeView>, from: u64, to: u64, steps: nat)
    requires
        climbs_exactly(m, from, to, steps),
    ensures
        climbs_to(m, from, to, steps),
        is_within(m, from, to),
    decreases steps,
{
    if steps > 0 {
        lemma_exact_is_within(m, m[from].parent->0, to, (steps - 1) as nat);
    }
    assert(climbs_to(m, from, to, steps));
}

/// A walk within `steps` links takes some exact number of them.
pub proof fn lemma_within_is_exact(m: Map<u64, NodeView>, from: u64, to: u64, steps: nat) -> (exact: nat)
    requires
        climbs_to(m, from, to, steps),
    ensures
        exact <= steps,
        climbs_exactly(m, from, to, exact),
    decreases steps,
{
    if from == to {
        0
    } else {
        let e = lemma_within_is_exact(m, m[from].parent->0, to, (steps - 1) as nat);
        e + 1
    }
}

/// Every link of a walk raises the rank.
pub proof fn lemma_exact_rank(m: Map<u64, NodeView>, rank: Map<u64, nat>, bound: nat, from: u64, to: u64, steps: nat)
    requires
        ranked(m, rank, bound),
        climbs_exactly(m, from, to, steps),
    ensures
        m.dom().contains(to),
        rank[to] + steps <= rank[from],
    decreases steps,
{
    if steps > 0 {
        lemma_exact_rank(m, rank, bound, m[from].parent->0, to, (steps - 1) as nat);
    }
}

/// A longer walk from the same node passes where the shorter walk ends.
pub proof fn lemma_exact_split(m: Map<u64, NodeView>, from: u64, mid: u64, to: u64, steps: nat, more: nat)
    requires
        climbs_exactly(m, from, mid, steps),
        climbs_exactly(m, from, to, steps + more),
    ensures
        climbs_exactly(m, mid, to, more),
    decreases steps,
{
    if steps > 0 {
        lemma_exact_split(m, m[from].parent->0, mid, to, (steps - 1) as nat, more);
    }
}

/// A walk that goes on from where another ends is a walk of both lengths.
pub proof fn lemma_exact_join(m: Map<u64, NodeView>, from: u64, mid: u64, to: u64, steps: nat, more: nat)
    requires
        climbs_exactly(m, from, mid, steps),
        climbs_exactly(m, mid, to, more),
    ensures
        climbs_exactly(m, from, to, steps + more),
    decreases steps,
{
    if steps > 0 {
        lemma_exact_join(m, m[from].parent->0, mid, to, (steps - 1) as nat, more);
    }
}

/// In a ranked tree a node is reached from another by walks of one length
/// only.
pub proof fn lemma_exact_unique(
    m: Map<u64, NodeView>,
    rank: Map<u64, nat>,
    bound: nat,
    from: u64,
    to: u64,
    a: nat,
    b: nat,
)
    requires
        ranked(m, rank, bound),
        climbs_exactly(m, from, to, a),
        climbs_exactly(m, from, to, b),
    ensures
        a == b,
{
    if a < b {
        lemma_exact_split(m, from, to, to, a, (b - a) as nat);
        lemma_exact_rank(m, rank, bound, to, to, (b - a) as nat);
    } else if b < a {
        lemma_exact_split(m, from, to, to, b, (a - b) as nat);
        lemma_exact_rank(m, rank, bound, to, to, (a - b) as nat);
    }
}

/// The children of a row are the children of its nodes.
pub proof fn lemma_kids(m: Map<u64, NodeView>, row: Seq<u64>)
    ensures
        forall|c: u64| #[trigger]
            kids_of(m, row).contains(c) <==> exists|i: int|
                0 <= i < row.len() && children_in(m, #[trigger] row[i]).contains(c),
    decreases row.len(),
{
    if row.len() > 0 {
        let front = row.drop_last();
        lemma_kids(m, front);
        let a = kids_of(m, front);
        let b = children_in(m, row.last());
        assert forall|c: u64| #[trigger] kids_of(m, row).contains(c) <==> exists|i: int|
            0 <= i < row.len() && children_in(m, #[trigger] row[i]).contains(c) by {
            if kids_of(m, row).contains(c) {
                let k = choose|k: int| 0 <= k < (a + b).len() && (a + b)[k] == c;
                if k < a.len() {
                    assert(a.contains(c));
                } else {
                }
            }
            if exists|i: int| 0 <= i < row.len() && children_in(m, #[trigger] row[i]).contains(c) {
                let i = choose|i: int| 0 <= i < row.len() && children_in(m, #[trigger] row[i]).contains(c);
                if i < front.len() {
                    assert(front[i] == row[i]);
                    assert(a.contains(c));
                    let k = choose|k: int| 0 <= k < a.len() && a[k] == c;
                    assert((a + b)[k] == c);
                } else {
                    let k = choose|k: int| 0 <= k < b.len() && b[k] == c;
                    assert((a + b)[a.len() + k] == c);
                }
            }
        }
    }
}

/// The children of a row of distinct stored nodes are distinct.
pub proof fn lemma_kids_distinct(m: Map<u64, NodeView>, row: Seq<u64>)
    requires
        links_ok(m),
        row.no_duplicates(),
        forall|i: int| 0 <= i < row.len() ==> m.dom().contains(#[trigger] row[i]),
    ensures
        kids_of(m, row).no_duplicates(),
    decreases row.len(),
{
    if row.len() > 0 {
        let front = row.drop_last();
        lemma_kids_distinct(m, front);
        lemma_kids(m, front);
        let a = kids_of(m, front);
        let b = children_in(m, row.last());
        assert forall|i: int, j: int| 0 <= i < a.len() && 0 <= j < b.len() implies a[i] != b[j] by {
            if a[i] == b[j] {
                let c = a[i];
                assert(a.contains(c));
            }
        }
    }
}

/// A level holds exactly the nodes that many links below `x`, each once.
pub proof fn lemma_level(m: Map<u64, NodeView>, x: u64, depth: nat)
    requires
        links_ok(m),
    ensures
        level(m, x, depth).no_duplicates(),
        forall|y: u64| #[trigger] level(m, x, depth).contains(y) <==> climbs_exactly(m, y, x, depth + 1),
    decreases depth,
{
    let row = level(m, x, depth);
    if depth == 0 {
        assert forall|y: u64| #[trigger] row.contains(y) <==> climbs_exactly(m, y, x, 1) by {
            if row.contains(y) {
                assert(climbs_exactly(m, x, x, 0));
            }
            if climbs_exactly(m, y, x, 1) {
                assert(climbs_exactly(m, m[y].parent->0, x, 0));
            }
        }
    } else {
        let above = level(m, x, (depth - 1) as nat);
        lemma_level(m, x, (depth - 1) as nat);
        lemma_kids(m, above);
        assert forall|i: int| 0 <= i < above.len() implies m.dom().contains(#[trigger] above[i]) by {
            assert(above.contains(above[i]));
        }
        lemma_kids_distinct(m, above);
        assert forall|y: u64| #[trigger] row.contains(y) <==> climbs_exactly(m, y, x, depth + 1) by {
            if row.contains(y) {
                let i = choose|i: int| 0 <= i < above.len() && children_in(m, #[trigger] above[i]).contains(y);
                let p = above[i];
                assert(above.contains(p));
            }
            if climbs_exactly(m, y, x, depth + 1) {
                let p = m[y].parent->0;
                assert(above.contains(p));
            }
        }
    }
}

/// Below an empty level every level is empty.
pub proof fn lemma_level_stays_empty(m: Map<u64, NodeView>, x: u64, depth: nat, deeper: nat)
    requires
        level(m, x, depth).len() == 0,
        depth <= deeper,
    ensures
        level(m, x, deeper).len() == 0,
    decreases deeper,
{
    if depth < deeper {
        lemma_level_stays_empty(m, x, depth, (deeper - 1) as nat);
    }
}

/// The first `depth` levels hold exactly the nodes at most that many links
/// below `x`, each once.
pub proof fn lemma_levels(m: Map<u64, NodeView>, rank: Map<u64, nat>, bound: nat, x: u64, depth: nat)
    requires
        links_ok(m),
        ranked(m, rank, bound),
    ensures
        levels(m, x, depth).no_duplicates(),
        forall|y: u64| #[trigger]
            levels(m, x, depth).contains(y) <==> exists|k: nat| k < depth && #[trigger] climbs_exactly(m, y, x, k + 1),
    decreases depth,
{
    if depth > 0 {
        let d = (depth - 1) as nat;
        let a = levels(m, x, d);
        let b = level(m, x, d);
        lemma_levels(m, rank, bound, x, d);
        lemma_level(m, x, d);
        assert forall|i: int, j: int| 0 <= i < a.len() && 0 <= j < b.len() implies a[i] != b[j] by {
            if a[i] == b[j] {
                let y = a[i];
                assert(a.contains(y));
                assert(b.contains(y));
                let k = choose|k: nat| k < d && #[trigger] climbs_exactly(m, y, x, k + 1);
                lemma_exact_unique(m, rank, bound, y, x, k + 1, d + 1);
            }
        }
        assert forall|y: u64| #[trigger] levels(m, x, depth).contains(y) <==> exists|k: nat|
            k < depth && #[trigger] climbs_exactly(m, y, x, k + 1) by {
            if levels(m, x, depth).contains(y) {
                let i = choose|i: int| 0 <= i < (a + b).len() && (a + b)[i] == y;
                if i < a.len() {
                    assert(a.contains(y));
                } else {
                    assert(b.contains(y));
                }
            }
            if exists|k: nat| k < depth && #[trigger] climbs_exactly(m, y, x, k + 1) {
                let k = choose|k: nat| k < depth && #[trigger] climbs_exactly(m, y, x, k + 1);
                if k < d {
                    assert(a.contains(y));
                    let i = choose|i: int| 0 <= i < a.len() && a[i] == y;
                    assert((a + b)[i] == y);
                } else {
                    assert(b.contains(y));
                    let i = choose|i: int| 0 <= i < b.len() && b[i] == y;
                    assert((a + b)[a.len() + i] == y);
                }
            }
        }
    } else {
    }
}

/// The levels down to the first empty one hold every descendant of `x`
/// exactly once, and nothing else.
pub proof fn lemma_level_order(m: Map<u64, NodeView>, rank: Map<u64, nat>, bound: nat, x: u64, depth: nat)
    requires
        links_ok(m),
        ranked(m, rank, bound),
        level(m, x, depth).len() == 0,
    ensures
        levels(m, x, depth).no_duplicates(),
        forall|y: u64| #[trigger] levels(m, x, depth).contains(y) <==> (y != x && is_within(m, y, x)),
{
    lemma_levels(m, rank, bound, x, depth);
    assert forall|y: u64| #[trigger] levels(m, x, depth).contains(y) <==> (y != x && is_within(m, y, x)) by {
        if levels(m, x, depth).contains(y) {
            let k = choose|k: nat| k < depth && #[trigger] climbs_exactly(m, y, x, k + 1);
            lemma_exact_is_within(m, y, x, k + 1);
            lemma_exact_rank(m, rank, bound, y, x, k + 1);
        }
        if y != x && is_within(m, y, x) {
            let steps = choose|steps: nat| climbs_to(m, y, x, steps);
            let e = lemma_within_is_exact(m, y, x, steps);
            let k = (e - 1) as nat;
            if k >= depth {
                lemma_level_stays_empty(m, x, depth, k);
                lemma_level(m, x, k);
                assert(level(m, x, k).contains(y));
            }
            assert(k < depth && climbs_exactly(m, y, x, k + 1));
        }
    }
}

/// The way from `x` up to its root holds every ancestor of `x` exactly once,
/// and nothing else.
pub proof fn lemma_root_path(m: Map<u64, NodeView>, rank: Map<u64, nat>, bound: nat, x: u64, path: Seq<u64>)
    requires
        links_ok(m),
        ranked(m, rank, bound),
        is_root_path(m, x, path),
    ensures
        path.no_duplicates(),
        forall|a: u64| #[trigger] path.contains(a) <==> (a != x && is_within(m, x, a)),
{
    assert forall|i: int| 0 <= i < path.len() implies climbs_exactly(m, x, #[trigger] path[i], (i + 1) as nat) by {
        lemma_path_prefix(m, x, path, i);
    }
    assert forall|i: int, j: int| 0 <= i < path.len() && 0 <= j < path.len() && i != j implies path[i] != path[j] by {
        if path[i] == path[j] {
            lemma_exact_unique(m, rank, bound, x, path[i], (i + 1) as nat, (j + 1) as nat);
        }
    }
    assert forall|a: u64| #[trigger] path.contains(a) <==> (a != x && is_within(m, x, a)) by {
        if path.contains(a) {
            let i = choose|i: int| 0 <= i < path.len() && path[i] == a;
            lemma_exact_is_within(m, x, a, (i + 1) as nat);
            lemma_exact_rank(m, rank, bound, x, a, (i + 1) as nat);
        }
        if a != x && is_within(m, x, a) {
            let steps = choose|steps: nat| climbs_to(m, x, a, steps);
            let e = lemma_within_is_exact(m, x, a, steps);
            lemma_path_reaches(m, x, path, a, e);
        }
    }
}

/// The node at place `i` of the way up from `x` is `i + 1` links above `x`.
proof fn lemma_path_prefix(m: Map<u64, NodeView>, x: u64, path: Seq<u64>, i: int)
    requires
        links_ok(m),
        is_root_path(m, x, path),
        0 <= i < path.len(),
    ensures
        climbs_exactly(m, x, path[i], (i + 1) as nat),
    decreases i,
{
    if i == 0 {
        assert(climbs_exactly(m, path[0], path[0], 0));
    } else {
        lemma_path_prefix(m, x, path, i - 1);
        assert(climbs_exactly(m, path[i], path[i], 0));
        lemma_exact_join(m, x, path[i - 1], path[i], i as nat, 1);
    }
}

/// A node that many links above `x` is on the way up from `x`.
proof fn lemma_path_reaches(m: Map<u64, NodeView>, x: u64, path: Seq<u64>, a: u64, steps: nat)
    requires
        links_ok(m),
        is_root_path(m, x, path),
        climbs_exactly(m, x, a, steps),
        steps > 0,
    ensures
        steps <= path.len(),
        path[steps - 1] == a,
    decreases steps,
{
    if steps == 1 {
        assert(climbs_exactly(m, m[x].parent->0, a, 0));
    } else {
        let b = lemma_exact_last(m, x, a, steps);
        lemma_path_reaches(m, x, path, b, (steps - 1) as nat);
        if path.len() == steps - 1 {
            assert(path.last() == b);
        }
    }
}

/// The node one link before the end of a walk.
proof fn lemma_exact_last(m: Map<u64, NodeView>, from: u64, to: u64, steps: nat) -> (before: u64)
    requires
        climbs_exactly(m, from, to, steps),
        steps > 0,
    ensures
        climbs_exactly(m, from, before, (steps - 1) as nat),
        m.dom().contains(before),
        m[before].parent == Some(to),
    decreases steps,
{
    if steps == 1 {
        assert(climbs_exactly(m, m[from].parent->0, to, 0));
        from
    } else {
        lemma_exact_last(m, m[from].parent->0, to, (steps - 1) as nat)
    }
}

} // verus!
