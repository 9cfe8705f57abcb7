//! The mathematical model of the element tree: a map from ids to node views,
//! the changes that the tree's operations make to it, and the facts that
//! those changes preserve.

use vstd::prelude::*;
use crate::node::{attr_names, NodeView};
use crate::layout::{climbs, descends};

verus! {

/// Parent and child links agree: every child names its parent, every parent
/// lists each of its children once, and every link ends at a stored node.
pub open spec fn links_ok(m: Map<u64, NodeView>) -> bool {
    &&& forall|x: u64| m.dom().contains(x) ==> (#[trigger] m[x]).children.no_duplicates()
    &&& forall|x: u64, i: int|
        m.dom().contains(x) && 0 <= i < m[x].children.len() ==> m.dom().contains(
            #[trigger] m[x].children[i],
        ) && m[m[x].children[i]].parent == Some(x)
    &&& forall|x: u64|
        m.dom().contains(x) && (#[trigger] m[x]).parent is Some ==> m.dom().contains(
            m[x].parent->0,
        ) && m[m[x].parent->0].children.contains(x)
}

/// Following parent links from `from` reaches `to` within `steps` links.
pub open spec fn climbs_to(m: Map<u64, NodeView>, from: u64, to: u64, steps: nat) -> bool
    decreases steps,
{
    m.dom().contains(from) && (from == to || (steps > 0 && m[from].parent is Some && climbs_to(
        m,
        m[from].parent->0,
        to,
        (steps - 1) as nat,
    )))
}

/// `x` is `top` or one of its descendants.
pub open spec fn is_within(m: Map<u64, NodeView>, x: u64, top: u64) -> bool {
    exists|steps: nat| climbs_to(m, x, top, steps)
}

/// Every node ranks above its parent, and all ranks stay under `bound`. A
/// ranking exists only where no node is its own ancestor.
pub open spec fn ranked(m: Map<u64, NodeView>, rank: Map<u64, nat>, bound: nat) -> bool {
    forall|x: u64| #[trigger]
        m.dom().contains(x) ==> rank.dom().contains(x) && rank[x] < bound && (m[x].parent is Some
            ==> rank.dom().contains(m[x].parent->0) && rank[m[x].parent->0] < rank[x])
}

/// The tree after `n` has left its parent: the parent no longer lists it, and
/// it has no parent. Nothing changes for a root or an id that is not stored.
pub open spec fn detached(m: Map<u64, NodeView>, n: u64) -> Map<u64, NodeView> {
    if m.dom().contains(n) && m[n].parent is Some {
        let p = m[n].parent->0;
        m.insert(p, NodeView { children: m[p].children.remove_value(n), ..m[p] }).insert(
            n,
            NodeView { parent: None, ..m[n] },
        )
    } else {
        m
    }
}

/// The tree after the root `n` became the child of `p` at position `at`.
pub open spec fn attached(m: Map<u64, NodeView>, n: u64, p: u64, at: int) -> Map<u64, NodeView> {
    m.insert(p, NodeView { children: m[p].children.insert(at, n), ..m[p] }).insert(
        n,
        NodeView { parent: Some(p), ..m[n] },
    )
}

/// Where a node lands among `len` children. Without an index it is appended.
/// An index from zero up names the position, and one past the end appends. A
/// negative index counts from the end, one place further than its size: `-1`
/// puts the node before the last two children, `-2` before the last three,
/// and one too far back puts it first.
pub open spec fn insertion_index(len: int, idx: Option<int>) -> int {
    match idx {
        None => len,
        Some(i) => if i < 0 {
            if len + i - 1 < 0 {
                0
            } else {
                len + i - 1
            }
        } else if i < len {
            i
        } else {
            len
        },
    }
}

/// Removing the element at `i` from a list without duplicates removes that
/// value, and only it.
pub proof fn lemma_remove_at<A>(s: Seq<A>, i: int)
    requires
        s.no_duplicates(),
        0 <= i < s.len(),
    ensures
        s.remove_value(s[i]) == s.remove(i),
        s.remove(i).no_duplicates(),
        !s.remove(i).contains(s[i]),
        forall|v: A| v != s[i] ==> (s.remove(i).contains(v) <==> s.contains(v)),
{
    s.index_of_first_ensures(s[i]);
    let r = s.remove(i);
    assert forall|v: A| v != s[i] implies (r.contains(v) <==> s.contains(v)) by {
        if s.contains(v) {
            let j = choose|j: int| 0 <= j < s.len() && s[j] == v;
            if j < i {
                assert(r[j] == v);
            } else {
                assert(r[j - 1] == v);
            }
        }
    }
}

/// A walk that reaches `to` ends at a stored node that ranks no higher than
/// its start.
pub proof fn lemma_climb_end(m: Map<u64, NodeView>, rank: Map<u64, nat>, bound: nat, from: u64, to: u64, steps: nat)
    requires
        ranked(m, rank, bound),
        climbs_to(m, from, to, steps),
    ensures
        m.dom().contains(to),
        rank[to] <= rank[from],
    decreases steps,
{
    if from != to {
        lemma_climb_end(m, rank, bound, m[from].parent->0, to, (steps - 1) as nat);
    }
}

/// A node other than `top` is within `top` exactly if its parent is.
pub proof fn lemma_within_step(m: Map<u64, NodeView>, x: u64, top: u64)
    requires
        m.dom().contains(x),
        x != top,
    ensures
        is_within(m, x, top) <==> (m[x].parent is Some && is_within(m, m[x].parent->0, top)),
{
    if is_within(m, x, top) {
        let k = choose|k: nat| climbs_to(m, x, top, k);
        assert(climbs_to(m, m[x].parent->0, top, (k - 1) as nat));
    }
    if m[x].parent is Some && is_within(m, m[x].parent->0, top) {
        let k = choose|k: nat| climbs_to(m, m[x].parent->0, top, k);
        assert(climbs_to(m, x, top, k + 1));
    }
}

/// Every stored node is within itself.
pub proof fn lemma_within_self(m: Map<u64, NodeView>, x: u64)
    requires
        m.dom().contains(x),
    ensures
        is_within(m, x, x),
{
    assert(climbs_to(m, x, x, 0));
}

/// Attaching a root keeps the links in agreement.
pub proof fn lemma_attached_links(m: Map<u64, NodeView>, n: u64, p: u64, at: int)
    requires
        links_ok(m),
        m.dom().contains(n),
        m.dom().contains(p),
        n != p,
        m[n].parent is None,
        0 <= at <= m[p].children.len(),
    ensures
        links_ok(attached(m, n, p, at)),
        attached(m, n, p, at).dom() == m.dom(),
{
    let d = attached(m, n, p, at);
    let s = m[p].children;
    let t = s.insert(at, n);
    assert forall|x: u64| d.dom().contains(x) && (#[trigger] d[x]).parent is Some implies d.dom().contains(
        d[x].parent->0,
    ) && d[d[x].parent->0].children.contains(x) by {
        if x == n {
            assert(t[at] == n);
        } else {
            let q = m[x].parent->0;
            if q == p {
                let k = choose|k: int| 0 <= k < s.len() && s[k] == x;
                if k < at {
                    assert(t[k] == x);
                } else {
                    assert(t[k + 1] == x);
                }
            }
        }
    }
}

/// The ranks after the subtree of `n` moved down by `by`.
pub open spec fn shifted(m: Map<u64, NodeView>, rank: Map<u64, nat>, n: u64, by: nat) -> Map<u64, nat> {
    Map::new(
        |x: u64| rank.dom().contains(x),
        |x: u64|
            if is_within(m, x, n) {
                rank[x] + by
            } else {
                rank[x]
            },
    )
}

/// Attaching a root under a node outside its own subtree leaves a ranking:
/// the subtree moves below its new parent.
pub proof fn lemma_attached_ranked(
    m: Map<u64, NodeView>,
    rank: Map<u64, nat>,
    bound: nat,
    n: u64,
    p: u64,
    at: int,
)
    requires
        ranked(m, rank, bound),
        m.dom().contains(n),
        m.dom().contains(p),
        m[n].parent is None,
        !is_within(m, p, n),
    ensures
        ranked(attached(m, n, p, at), shifted(m, rank, n, rank[p] + 1), bound + rank[p] + 1),
{
    let d = attached(m, n, p, at);
    let r = shifted(m, rank, n, rank[p] + 1);
    lemma_within_self(m, n);
    assert forall|x: u64| #[trigger] d.dom().contains(x) implies r.dom().contains(x) && r[x] < bound + rank[p] + 1
        && (d[x].parent is Some ==> r.dom().contains(d[x].parent->0) && r[d[x].parent->0] < r[x]) by {
        if x != n && m[x].parent is Some {
            lemma_within_step(m, x, n);
        }
    }
}

/// The layout keys of the nodes `s`, in order.
pub open spec fn keys_of(m: Map<u64, NodeView>, s: Seq<u64>) -> Seq<taffy::node::Node> {
    s.map_values(|c: u64| m[c].layout_id)
}

/// The layout key of the parent of `x`, if it has one.
pub open spec fn parent_key(m: Map<u64, NodeView>, x: u64) -> Option<taffy::node::Node> {
    match m[x].parent {
        Some(p) => Some(m[p].layout_id),
        None => None,
    }
}

/// The layout tree has one live key for each node, and links them as the
/// element tree links the nodes, children in the same order.
pub open spec fn mirrored(
    m: Map<u64, NodeView>,
    lc: Map<taffy::node::Node, Seq<taffy::node::Node>>,
    lp: Map<taffy::node::Node, Option<taffy::node::Node>>,
) -> bool {
    &&& forall|x: u64| #[trigger]
        m.dom().contains(x) ==> lc.dom().contains(m[x].layout_id) && lp.dom().contains(
            m[x].layout_id,
        )
    &&& forall|x: u64, y: u64|
        #![trigger m.dom().contains(x), m.dom().contains(y)]
        m.dom().contains(x) && m.dom().contains(y) && m[x].layout_id == m[y].layout_id ==> x == y
    &&& forall|x: u64| #[trigger] m.dom().contains(x) ==> lc[m[x].layout_id] == keys_of(m, m[x].children)
    &&& forall|x: u64| #[trigger] m.dom().contains(x) ==> lp[m[x].layout_id] == parent_key(m, x)
}

/// Distinct stored nodes have distinct layout keys, so a list of nodes and
/// the list of their keys hold the same things at the same places.
pub proof fn lemma_keys(
    m: Map<u64, NodeView>,
    lc: Map<taffy::node::Node, Seq<taffy::node::Node>>,
    lp: Map<taffy::node::Node, Option<taffy::node::Node>>,
    s: Seq<u64>,
)
    requires
        mirrored(m, lc, lp),
        s.no_duplicates(),
        forall|i: int| 0 <= i < s.len() ==> m.dom().contains(#[trigger] s[i]),
    ensures
        keys_of(m, s).no_duplicates(),
        keys_of(m, s).len() == s.len(),
        forall|y: u64| #[trigger] m.dom().contains(y) ==> (keys_of(m, s).contains(m[y].layout_id) <==> s.contains(y)),
{
    let k = keys_of(m, s);
    assert forall|y: u64| #[trigger] m.dom().contains(y) implies (k.contains(m[y].layout_id) <==> s.contains(y)) by {
        if s.contains(y) {
            let i = choose|i: int| 0 <= i < s.len() && s[i] == y;
            assert(k[i] == m[y].layout_id);
        }
    }
}

/// A walk along parent links that ends within `steps` links ends within any
/// greater number of them.
pub proof fn lemma_climbs_longer(
    parents: Map<taffy::node::Node, Option<taffy::node::Node>>,
    from: taffy::node::Node,
    avoid: Set<taffy::node::Node>,
    steps: nat,
    more: nat,
)
    requires
        climbs(parents, from, avoid, steps),
        steps <= more,
    ensures
        climbs(parents, from, avoid, more),
    decreases steps,
{
    if parents[from] is Some {
        lemma_climbs_longer(parents, parents[from]->0, avoid, (steps - 1) as nat, (more - 1) as nat);
    }
}

/// In a mirrored layout tree the walk from the key of `x` ends, and meets
/// only keys of `x` and its ancestors.
pub proof fn lemma_climbs(
    m: Map<u64, NodeView>,
    rank: Map<u64, nat>,
    bound: nat,
    lc: Map<taffy::node::Node, Seq<taffy::node::Node>>,
    lp: Map<taffy::node::Node, Option<taffy::node::Node>>,
    x: u64,
    avoid: Set<taffy::node::Node>,
)
    requires
        links_ok(m),
        ranked(m, rank, bound),
        mirrored(m, lc, lp),
        m.dom().contains(x),
        forall|a: u64| is_within(m, x, a) ==> !avoid.contains(#[trigger] m[a].layout_id),
    ensures
        climbs(lp, m[x].layout_id, avoid, rank[x]),
    decreases rank[x],
{
    lemma_within_self(m, x);
    if m[x].parent is Some {
        let q = m[x].parent->0;
        assert forall|a: u64| is_within(m, q, a) implies !avoid.contains(#[trigger] m[a].layout_id) by {
            let k = choose|k: nat| climbs_to(m, q, a, k);
            if x != a {
                assert(climbs_to(m, x, a, k + 1));
            }
        }
        lemma_climbs(m, rank, bound, lc, lp, q, avoid);
        lemma_climbs_longer(lp, m[q].layout_id, avoid, rank[q], (rank[x] - 1) as nat);
    }
}

/// What `remove_child` does to a mirrored layout tree is what detaching does
/// to the element tree.
pub proof fn lemma_detached_mirrored(
    m: Map<u64, NodeView>,
    n: u64,
    lc: Map<taffy::node::Node, Seq<taffy::node::Node>>,
    lp: Map<taffy::node::Node, Option<taffy::node::Node>>,
)
    requires
        links_ok(m),
        mirrored(m, lc, lp),
        m.dom().contains(n),
        m[n].parent is Some,
        m[n].parent != Some(n),
    ensures
        lc[m[m[n].parent->0].layout_id].contains(m[n].layout_id),
        mirrored(
            detached(m, n),
            lc.insert(
                m[m[n].parent->0].layout_id,
                lc[m[m[n].parent->0].layout_id].remove_value(m[n].layout_id),
            ),
            lp.insert(m[n].layout_id, None),
        ),
{
    let p = m[n].parent->0;
    let d = detached(m, n);
    let s = m[p].children;
    let ks = keys_of(m, s);
    let i = s.index_of(n);
    lemma_remove_at(ks, i);
    lemma_remove_at(s, i);
    let lc2 = lc.insert(m[p].layout_id, ks.remove_value(m[n].layout_id));
    assert forall|x: u64| #[trigger] d.dom().contains(x) implies lc2[d[x].layout_id] == keys_of(d, d[x].children) by {}
}

/// What `add_child` does to a mirrored layout tree is what appending a root
/// to a node's children does to the element tree.
pub proof fn lemma_appended_mirrored(
    m: Map<u64, NodeView>,
    n: u64,
    p: u64,
    lc: Map<taffy::node::Node, Seq<taffy::node::Node>>,
    lp: Map<taffy::node::Node, Option<taffy::node::Node>>,
)
    requires
        links_ok(m),
        mirrored(m, lc, lp),
        m.dom().contains(n),
        m.dom().contains(p),
        n != p,
        m[n].parent is None,
    ensures
        mirrored(
            attached(m, n, p, m[p].children.len() as int),
            lc.insert(m[p].layout_id, lc[m[p].layout_id].push(m[n].layout_id)),
            lp.insert(m[n].layout_id, Some(m[p].layout_id)),
        ),
{
    let s = m[p].children;
    let d = attached(m, n, p, s.len() as int);
    let lc2 = lc.insert(m[p].layout_id, lc[m[p].layout_id].push(m[n].layout_id));
    assert forall|x: u64| #[trigger] d.dom().contains(x) implies lc2[d[x].layout_id] == keys_of(d, d[x].children) by {}
}

/// What `set_children` does to a mirrored layout tree, given a node's keys
/// with one more key put in, is what inserting a root among the node's
/// children does to the element tree.
pub proof fn lemma_inserted_mirrored(
    m: Map<u64, NodeView>,
    n: u64,
    p: u64,
    at: int,
    lc: Map<taffy::node::Node, Seq<taffy::node::Node>>,
    lp: Map<taffy::node::Node, Option<taffy::node::Node>>,
    lp2: Map<taffy::node::Node, Option<taffy::node::Node>>,
)
    requires
        links_ok(m),
        mirrored(m, lc, lp),
        m.dom().contains(n),
        m.dom().contains(p),
        n != p,
        m[n].parent is None,
        0 <= at <= m[p].children.len(),
        lp2.dom() == lp.dom(),
        forall|k: taffy::node::Node| #[trigger]
            lp.dom().contains(k) ==> lp2[k] == (if lc[m[p].layout_id].insert(at, m[n].layout_id).contains(k) {
                Some(m[p].layout_id)
            } else if lc[m[p].layout_id].contains(k) {
                None
            } else {
                lp[k]
            }),
    ensures
        mirrored(
            attached(m, n, p, at),
            lc.insert(m[p].layout_id, lc[m[p].layout_id].insert(at, m[n].layout_id)),
            lp2,
        ),
{
    let s = m[p].children;
    let t = s.insert(at, n);
    let ks = lc[m[p].layout_id];
    let kt = ks.insert(at, m[n].layout_id);
    let d = attached(m, n, p, at);
    let lc2 = lc.insert(m[p].layout_id, kt);
    lemma_attached_links(m, n, p, at);
    assert(keys_of(m, t) =~= kt);
    assert forall|i: int| 0 <= i < t.len() implies m.dom().contains(#[trigger] t[i]) by {}
    lemma_keys(m, lc, lp, t);
    assert forall|x: u64| #[trigger] d.dom().contains(x) implies lc2[d[x].layout_id] == keys_of(d, d[x].children) by {}
    assert forall|x: u64| #[trigger] d.dom().contains(x) implies lp2[d[x].layout_id] == parent_key(d, x) by {}
}

/// A node that is not within `n` has no ancestor with the layout key of `n`.
pub proof fn lemma_outside_avoids(
    m: Map<u64, NodeView>,
    rank: Map<u64, nat>,
    bound: nat,
    lc: Map<taffy::node::Node, Seq<taffy::node::Node>>,
    lp: Map<taffy::node::Node, Option<taffy::node::Node>>,
    p: u64,
    n: u64,
    extra: Seq<taffy::node::Node>,
)
    requires
        links_ok(m),
        ranked(m, rank, bound),
        mirrored(m, lc, lp),
        m.dom().contains(p),
        m.dom().contains(n),
        !is_within(m, p, n),
        forall|i: int| 0 <= i < extra.len()
            ==> #[trigger] extra[i] == m[n].layout_id || lc[m[p].layout_id].contains(extra[i]),
    ensures
        forall|a: u64| is_within(m, p, a) ==> !extra.to_set().contains(#[trigger] m[a].layout_id),
{
    assert forall|a: u64| is_within(m, p, a) implies !extra.to_set().contains(#[trigger] m[a].layout_id) by {
        let k = choose|k: nat| climbs_to(m, p, a, k);
        lemma_climb_end(m, rank, bound, p, a, k);
    }
}

/// An optional machine index as an optional integer.
pub open spec fn as_int(idx: Option<isize>) -> Option<int> {
    match idx {
        Some(i) => Some(i as int),
        None => None,
    }
}

/// Whether `p` can take `n` as a child: it is stored, and it is neither `n`
/// nor one of its descendants.
pub open spec fn can_adopt(m: Map<u64, NodeView>, p: u64, n: u64) -> bool {
    m.dom().contains(p) && !is_within(m, p, n)
}

/// The tree after a request to move `n` under `parent` at `idx`. The node
/// first leaves its parent. It then joins the new parent, if one is named
/// that can take it; otherwise it stays a root.
pub open spec fn reparented(m: Map<u64, NodeView>, n: u64, parent: Option<u64>, idx: Option<int>) -> Map<
    u64,
    NodeView,
> {
    if !m.dom().contains(n) {
        m
    } else {
        let d = detached(m, n);
        match parent {
            Some(p) => if can_adopt(d, p, n) {
                attached(d, n, p, insertion_index(d[p].children.len() as int, idx))
            } else {
                d
            },
            None => d,
        }
    }
}

/// A node without parent or children, as `create` stores it.
pub open spec fn fresh_leaf(
    layout_id: taffy::node::Node,
    tag: Seq<char>,
    id: Option<Seq<char>>,
    classes: Seq<Seq<char>>,
    text: Option<Seq<char>>,
    attributes: Seq<(Seq<char>, serde_json::Value)>,
    style: Option<serde_json::Value>,
) -> NodeView {
    NodeView {
        layout_id,
        parent: None,
        children: Seq::empty(),
        hidden: false,
        tag,
        id,
        classes,
        text,
        attributes,
        style,
    }
}

/// The tree after `n` is gone: it is no longer stored, its parent no longer
/// lists it, and its children are roots.
pub open spec fn destroyed(m: Map<u64, NodeView>, n: u64) -> Map<u64, NodeView> {
    if !m.dom().contains(n) {
        m
    } else {
        Map::new(
            |x: u64| m.dom().contains(x) && x != n,
            |x: u64|
                NodeView {
                    parent: if m[x].parent == Some(n) {
                        None
                    } else {
                        m[x].parent
                    },
                    children: m[x].children.remove_value(n),
                    ..m[x]
                },
        )
    }
}

/// Only the parent of `n` lists `n`.
pub proof fn lemma_listed_by_parent(m: Map<u64, NodeView>, n: u64, x: u64)
    requires
        links_ok(m),
        m.dom().contains(x),
        m.dom().contains(n),
        m[n].parent != Some(x),
    ensures
        !m[x].children.contains(n),
        m[x].children.remove_value(n) == m[x].children,
{
    m[x].children.index_of_first_ensures(n);
}

/// Detaching twice is detaching once: after the first call the node has no
/// parent, and the second call changes nothing.
pub proof fn law_detach_twice(m: Map<u64, NodeView>, n: u64)
    ensures
        m.dom().contains(n) ==> detached(m, n)[n].parent is None,
        detached(detached(m, n), n) == detached(m, n),
{
}

/// A change to what a node carries, not to where it hangs, keeps links,
/// ranks and the mirrored layout tree as they are.
pub proof fn lemma_payload_kept(
    m: Map<u64, NodeView>,
    x: u64,
    v: NodeView,
    rank: Map<u64, nat>,
    bound: nat,
    lc: Map<taffy::node::Node, Seq<taffy::node::Node>>,
    lp: Map<taffy::node::Node, Option<taffy::node::Node>>,
)
    requires
        links_ok(m),
        ranked(m, rank, bound),
        mirrored(m, lc, lp),
        m.dom().contains(x),
        v.parent == m[x].parent,
        v.children == m[x].children,
        v.layout_id == m[x].layout_id,
    ensures
        links_ok(m.insert(x, v)),
        ranked(m.insert(x, v), rank, bound),
        mirrored(m.insert(x, v), lc, lp),
{
    let d = m.insert(x, v);
    assert forall|y: u64| #[trigger] d.dom().contains(y) implies lc[d[y].layout_id] == keys_of(d, d[y].children) by {}
}

/// The value of the first attribute called `name`.
pub open spec fn attr_value(attrs: Seq<(Seq<char>, serde_json::Value)>, name: Seq<char>) -> Option<
    serde_json::Value,
> {
    match attr_names(attrs).index_of_first(name) {
        Some(i) => Some(attrs[i].1),
        None => None,
    }
}

/// The attributes after `name` was given `value`: the attribute keeps its
/// place where it was there, and comes last where it was not.
pub open spec fn attr_set(attrs: Seq<(Seq<char>, serde_json::Value)>, name: Seq<char>, value: serde_json::Value) -> Seq<
    (Seq<char>, serde_json::Value),
> {
    match attr_names(attrs).index_of_first(name) {
        Some(i) => attrs.update(i, (name, value)),
        None => attrs.push((name, value)),
    }
}

/// The attributes without the one called `name`.
pub open spec fn attr_removed(attrs: Seq<(Seq<char>, serde_json::Value)>, name: Seq<char>) -> Seq<
    (Seq<char>, serde_json::Value),
> {
    match attr_names(attrs).index_of_first(name) {
        Some(i) => attrs.remove(i),
        None => attrs,
    }
}

/// The value that the first node of `ids` with an attribute called `name`
/// gives it.
pub open spec fn first_value(m: Map<u64, NodeView>, ids: Seq<u64>, name: Seq<char>) -> Option<serde_json::Value>
    decreases ids.len(),
{
    if ids.len() == 0 {
        None
    } else if m.dom().contains(ids[0]) && attr_value(m[ids[0]].attributes, name) is Some {
        attr_value(m[ids[0]].attributes, name)
    } else {
        first_value(m, ids.drop_first(), name)
    }
}

/// Setting and removing attributes keeps every name unique.
pub proof fn lemma_attr_names(attrs: Seq<(Seq<char>, serde_json::Value)>, name: Seq<char>, value: serde_json::Value)
    requires
        attr_names(attrs).no_duplicates(),
    ensures
        attr_names(attr_set(attrs, name, value)).no_duplicates(),
        attr_names(attr_removed(attrs, name)).no_duplicates(),
{
    let names = attr_names(attrs);
    names.index_of_first_ensures(name);
    match names.index_of_first(name) {
        Some(i) => {
            assert(attr_names(attrs.update(i, (name, value))) =~= names);
            assert(attr_names(attrs.remove(i)) =~= names.remove(i));
        },
        None => {
            let after = attr_names(attrs.push((name, value)));
            assert(after =~= names.push(name));
        },
    }
}

/// A walk down the child lists that ends within `depth` levels ends within
/// any greater number of them.
pub proof fn lemma_descends_deeper(
    children: Map<taffy::node::Node, Seq<taffy::node::Node>>,
    from: taffy::node::Node,
    depth: nat,
    more: nat,
)
    requires
        descends(children, from, depth),
        depth <= more,
    ensures
        descends(children, from, more),
    decreases depth,
{
    assert forall|i: int| 0 <= i < children[from].len() implies more > 0 && descends(
        children,
        #[trigger] children[from][i],
        (more - 1) as nat,
    ) by {
        lemma_descends_deeper(children, children[from][i], (depth - 1) as nat, (more - 1) as nat);
    }
}

/// In a mirrored layout tree the walk down from the key of `x` ends.
pub proof fn lemma_descends(
    m: Map<u64, NodeView>,
    rank: Map<u64, nat>,
    bound: nat,
    lc: Map<taffy::node::Node, Seq<taffy::node::Node>>,
    lp: Map<taffy::node::Node, Option<taffy::node::Node>>,
    x: u64,
)
    requires
        links_ok(m),
        ranked(m, rank, bound),
        mirrored(m, lc, lp),
        m.dom().contains(x),
    ensures
        descends(lc, m[x].layout_id, (bound - rank[x]) as nat),
    decreases bound - rank[x],
{
    let key = m[x].layout_id;
    let depth = (bound - rank[x]) as nat;
    assert forall|i: int| 0 <= i < lc[key].len() implies depth > 0 && descends(
        lc,
        #[trigger] lc[key][i],
        (depth - 1) as nat,
    ) by {
        let c = m[x].children[i];
        lemma_descends(m, rank, bound, lc, lp, c);
        lemma_descends_deeper(lc, m[c].layout_id, (bound - rank[c]) as nat, (depth - 1) as nat);
    }
}

/// Whether two trees give every node but `n` the same parent.
pub open spec fn same_parents_but(m: Map<u64, NodeView>, d: Map<u64, NodeView>, n: u64) -> bool {
    &&& d.dom() == m.dom()
    &&& forall|y: u64| y != n && m.dom().contains(y) ==> (#[trigger] d[y]).parent == m[y].parent
}

/// A change to the parent of `n` alone leaves the walk up from `x` as it
/// is, where that walk does not pass `n`.
pub proof fn lemma_walk_kept(m: Map<u64, NodeView>, d: Map<u64, NodeView>, n: u64, x: u64, a: u64, steps: nat)
    requires
        same_parents_but(m, d, n),
        !is_within(m, x, n),
    ensures
        climbs_to(d, x, a, steps) == climbs_to(m, x, a, steps),
    decreases steps,
{
    if m.dom().contains(x) {
        lemma_within_self(m, x);
        if x != a && steps > 0 && m[x].parent is Some {
            lemma_within_step(m, x, n);
            lemma_walk_kept(m, d, n, m[x].parent->0, a, (steps - 1) as nat);
        }
    }
}

/// A change to the parent of `n` alone leaves the ancestors of `x` as they
/// are, where `n` is not among them.
pub proof fn lemma_within_kept(m: Map<u64, NodeView>, d: Map<u64, NodeView>, n: u64, x: u64)
    requires
        same_parents_but(m, d, n),
        !is_within(m, x, n),
    ensures
        forall|a: u64| is_within(d, x, a) == is_within(m, x, a),
{
    assert forall|a: u64| is_within(d, x, a) == is_within(m, x, a) by {
        if is_within(d, x, a) {
            let k = choose|k: nat| climbs_to(d, x, a, k);
            lemma_walk_kept(m, d, n, x, a, k);
        }
        if is_within(m, x, a) {
            let k = choose|k: nat| climbs_to(m, x, a, k);
            lemma_walk_kept(m, d, n, x, a, k);
        }
    }
}

/// A request to move `n` changes the parent of `n` alone.
pub proof fn lemma_reparented_parents(m: Map<u64, NodeView>, n: u64, parent: Option<u64>, idx: Option<int>)
    requires
        links_ok(m),
    ensures
        same_parents_but(m, reparented(m, n, parent, idx), n),
        same_parents_but(m, detached(m, n), n),
{
    let d = detached(m, n);
    assert(d.dom() =~= m.dom());
    assert(reparented(m, n, parent, idx).dom() =~= m.dom());
}

/// The tree after each of `ids`, in order, left its parent.
pub open spec fn detached_all(m: Map<u64, NodeView>, ids: Seq<u64>) -> Map<u64, NodeView>
    decreases ids.len(),
{
    if ids.len() == 0 {
        m
    } else {
        detached(detached_all(m, ids.drop_last()), ids.last())
    }
}

/// The tree after each of `ids`, in order, was asked to become a child of
/// `node`, the first at position `at`, each next one right after.
pub open spec fn attached_all(m: Map<u64, NodeView>, node: u64, ids: Seq<u64>, at: int) -> Map<u64, NodeView>
    decreases ids.len(),
{
    if ids.len() == 0 {
        m
    } else {
        reparented(attached_all(m, node, ids.drop_last(), at), ids.last(), Some(node), Some(at + ids.len() - 1))
    }
}

/// Whether the children of `node` from `start` up to `end` can give way to
/// `ids`: the node is stored and the range lies in its children; the new
/// children are stored, each named once, and none is the node or one of its
/// ancestors.
pub open spec fn can_splice(m: Map<u64, NodeView>, node: u64, start: int, end: int, ids: Seq<u64>) -> bool {
    &&& m.dom().contains(node)
    &&& 0 <= start <= end <= m[node].children.len()
    &&& ids.no_duplicates()
    &&& forall|k: int| 0 <= k < ids.len() ==> m.dom().contains(#[trigger] ids[k]) && !is_within(m, node, ids[k])
}

/// Where the place `at` among the children of `node` has moved to after each
/// of `ids`, in order, left its parent: one place to the front for each of
/// them that was a child of `node` before that place.
pub open spec fn place_after(m: Map<u64, NodeView>, node: u64, ids: Seq<u64>, at: int) -> int
    decreases ids.len(),
{
    if ids.len() == 0 {
        at
    } else {
        let before = detached_all(m, ids.drop_last());
        let place = place_after(m, node, ids.drop_last(), at);
        if before.dom().contains(ids.last()) && before[ids.last()].parent == Some(node)
            && before[node].children.index_of(ids.last()) < place {
            place - 1
        } else {
            place
        }
    }
}

/// Where the new children stand among the children of `node` after a
/// splice: where `start` has moved to after the old children of the range
/// and the new children left their parents.
pub open spec fn splice_place(m: Map<u64, NodeView>, node: u64, start: int, end: int, ids: Seq<u64>) -> int {
    let run = m[node].children.subrange(start, end);
    place_after(detached_all(m, run), node, ids, place_after(m, node, run, start))
}

/// The tree after the children of `node` from `start` up to `end` gave way
/// to `ids`: the old children left the node, the new ones left the parents
/// they had, and then the new ones joined the node where the old ones stood.
/// Nothing changes where the splice cannot be done.
pub open spec fn spliced(m: Map<u64, NodeView>, node: u64, start: int, end: int, ids: Seq<u64>) -> Map<u64, NodeView> {
    if can_splice(m, node, start, end, ids) {
        attached_all(
            detached_all(detached_all(m, m[node].children.subrange(start, end)), ids),
            node,
            ids,
            splice_place(m, node, start, end, ids),
        )
    } else {
        m
    }
}

/// The layout tree holds the keys of the stored nodes and no others:
/// `owner` names the node of every live key.
pub open spec fn owned(
    m: Map<u64, NodeView>,
    owner: Map<taffy::node::Node, u64>,
    lc: Map<taffy::node::Node, Seq<taffy::node::Node>>,
    lp: Map<taffy::node::Node, Option<taffy::node::Node>>,
) -> bool {
    &&& lc.dom() == owner.dom()
    &&& lp.dom() == owner.dom()
    &&& forall|k: taffy::node::Node| #[trigger]
        owner.dom().contains(k) ==> m.dom().contains(owner[k]) && m[owner[k]].layout_id == k
}

/// A change that keeps the stored nodes, their layout keys and the live
/// keys keeps the layout tree free of other keys.
pub proof fn lemma_owned_kept(
    m: Map<u64, NodeView>,
    d: Map<u64, NodeView>,
    owner: Map<taffy::node::Node, u64>,
    lc: Map<taffy::node::Node, Seq<taffy::node::Node>>,
    lp: Map<taffy::node::Node, Option<taffy::node::Node>>,
    lc2: Map<taffy::node::Node, Seq<taffy::node::Node>>,
    lp2: Map<taffy::node::Node, Option<taffy::node::Node>>,
)
    requires
        owned(m, owner, lc, lp),
        d.dom() == m.dom(),
        forall|x: u64| m.dom().contains(x) ==> (#[trigger] d[x]).layout_id == m[x].layout_id,
        lc2.dom() =~= lc.dom(),
        lp2.dom() =~= lp.dom(),
    ensures
        owned(d, owner, lc2, lp2),
{
}

} // verus!
