//! Reading the element tree: ancestors, descendants, children by index, and
//! siblings.

use vstd::prelude::*;
use crate::node::NodeView;
use crate::forest::{is_within, links_ok, ranked};
use crate::reach::{lemma_level_order, lemma_root_path};
use crate::tree::{index_in, Tree};

verus! {

/// The parent of `x`; `None` for a root and for an id that is not stored.
pub open spec fn parent_in(m: Map<u64, NodeView>, x: u64) -> Option<u64> {
    if m.dom().contains(x) {
        m[x].parent
    } else {
        None
    }
}

/// The children of `x`; none for an id that is not stored.
pub open spec fn children_in(m: Map<u64, NodeView>, x: u64) -> Seq<u64> {
    if m.dom().contains(x) {
        m[x].children
    } else {
        Seq::empty()
    }
}

/// `path` is the way from `x` up to its root: the parent of `x`, then the
/// parent of each node before, ending at the node without a parent.
pub open spec fn is_root_path(m: Map<u64, NodeView>, x: u64, path: Seq<u64>) -> bool {
    &&& forall|i: int|
        0 <= i < path.len() ==> Some(#[trigger] path[i]) == parent_in(
            m,
            if i == 0 {
                x
            } else {
                path[i - 1]
            },
        )
    &&& parent_in(
        m,
        if path.len() == 0 {
            x
        } else {
            path.last()
        },
    ) is None
}

/// The children of the nodes of `row`, row order first, child order second.
pub open spec fn kids_of(m: Map<u64, NodeView>, row: Seq<u64>) -> Seq<u64>
    decreases row.len(),
{
    if row.len() == 0 {
        Seq::empty()
    } else {
        kids_of(m, row.drop_last()) + children_in(m, row.last())
    }
}

/// The descendants of `x` that are `depth + 1` links below it, in order.
pub open spec fn level(m: Map<u64, NodeView>, x: u64, depth: nat) -> Seq<u64>
    decreases depth,
{
    if depth == 0 {
        children_in(m, x)
    } else {
        kids_of(m, level(m, x, (depth - 1) as nat))
    }
}

/// The first `depth` levels below `x`, one after the other.
pub open spec fn levels(m: Map<u64, NodeView>, x: u64, depth: nat) -> Seq<u64>
    decreases depth,
{
    if depth == 0 {
        Seq::empty()
    } else {
        levels(m, x, (depth - 1) as nat) + level(m, x, (depth - 1) as nat)
    }
}

/// `all` holds the descendants of `x` in level order: every level in full
/// before the next, down to the first empty one.
pub open spec fn is_level_order(m: Map<u64, NodeView>, x: u64, all: Seq<u64>) -> bool {
    exists|depth: nat| level(m, x, depth).len() == 0 && all == levels(m, x, depth)
}

/// The element of `s` that the index `n` names: from the front for zero and
/// up, from the back for negative `n`, `-1` being the last.
pub open spec fn nth_of(s: Seq<u64>, n: int) -> Option<u64> {
    if 0 <= n < s.len() {
        Some(s[n])
    } else if n < 0 && 0 <= s.len() + n {
        Some(s[s.len() + n])
    } else {
        None
    }
}

/// The children of the parent of `x`, `x` among them; none for a root.
pub open spec fn row_of(m: Map<u64, NodeView>, x: u64) -> Seq<u64> {
    match parent_in(m, x) {
        Some(p) => children_in(m, p),
        None => Seq::empty(),
    }
}

/// The siblings after `x`, nearest first.
pub open spec fn next_in(m: Map<u64, NodeView>, x: u64) -> Seq<u64> {
    if row_of(m, x).contains(x) {
        row_of(m, x).skip(row_of(m, x).index_of(x) + 1)
    } else {
        Seq::empty()
    }
}

/// The siblings before `x`, nearest first.
pub open spec fn prev_in(m: Map<u64, NodeView>, x: u64) -> Seq<u64> {
    if row_of(m, x).contains(x) {
        row_of(m, x).take(row_of(m, x).index_of(x)).reverse()
    } else {
        Seq::empty()
    }
}

/// The sibling that `n` names: `0` is the next one, `1` the one after it;
/// `-1` is the previous one, `-2` the one before it.
pub open spec fn nth_sibling_in(m: Map<u64, NodeView>, x: u64, n: int) -> Option<u64> {
    if n >= 0 {
        if n < next_in(m, x).len() {
            Some(next_in(m, x)[n])
        } else {
            None
        }
    } else {
        if -n - 1 < prev_in(m, x).len() {
            Some(prev_in(m, x)[-n - 1])
        } else {
            None
        }
    }
}

/// Appends the ids of `src` to `dst`.
pub fn push_all(dst: &mut Vec<u64>, src: &Vec<u64>)
    ensures
        final(dst)@ == old(dst)@ + src@,
{
    let mut i: usize = 0;
    while i < src.len()
        invariant
            i <= src@.len(),
            dst@ == old(dst)@ + src@.take(i as int),
        decreases src@.len() - i,
    {
        dst.push(src[i]);
        i += 1;
    }
}

impl Tree {
    /// The ancestors of `x`, nearest first, ending at its root.
    pub fn ancestors(&self, x: u64) -> (path: Vec<u64>)
        requires
            self.wf(),
        ensures
            is_root_path(self@, x, path@),
            path@.no_duplicates(),
            forall|a: u64| #[trigger] path@.contains(a) <==> (a != x && is_within(self@, x, a)),
    {
        let mut path: Vec<u64> = Vec::new();
        let mut cur = self.parent(x);
        proof {
            self.lemma_inside();
        }
        loop
            invariant
                self.wf(),
                links_ok(self@),
                ranked(self@, self.rank@, self.bound@),
                forall|i: int|
                    0 <= i < path@.len() ==> Some(#[trigger] path@[i]) == parent_in(
                        self@,
                        if i == 0 {
                            x
                        } else {
                            path@[i - 1]
                        },
                    ),
                cur == parent_in(
                    self@,
                    if path@.len() == 0 {
                        x
                    } else {
                        path@.last()
                    },
                ),
            decreases
                    (if cur is Some {
                        self.rank@[cur->0] + 1
                    } else {
                        0
                    }),
        {
            match cur {
                None => {
                    proof {
                        lemma_root_path(self@, self.rank@, self.bound@, x, path@);
                    }
                    return path;
                },
                Some(a) => {
                    path.push(a);
                    cur = self.parent(a);
                },
            }
        }
    }

    /// The descendants of `x` in level order.
    pub fn descendants(&self, x: u64) -> (all: Vec<u64>)
        requires
            self.wf(),
        ensures
            is_level_order(self@, x, all@),
            all@.no_duplicates(),
            forall|y: u64| #[trigger] all@.contains(y) <==> (y != x && is_within(self@, y, x)),
    {
        let mut all: Vec<u64> = Vec::new();
        let mut row = self.children(x);
        let ghost depth: nat = 0;
        proof {
            self.lemma_inside();
        }
        while row.len() > 0
            invariant
                self.wf(),
                links_ok(self@),
                ranked(self@, self.rank@, self.bound@),
                row@ == level(self@, x, depth),
                all@ == levels(self@, x, depth),
                forall|i: int| 0 <= i < row@.len()
                    ==> self@.dom().contains(#[trigger] row@[i]) && self.rank@[row@[i]] >= depth,
            decreases self.bound@ - depth,
        {
            let mut next: Vec<u64> = Vec::new();
            let mut j: usize = 0;
            while j < row.len()
                invariant
                    self.wf(),
                    links_ok(self@),
                    ranked(self@, self.rank@, self.bound@),
                    j <= row@.len(),
                    next@ == kids_of(self@, row@.take(j as int)),
                    forall|i: int| 0 <= i < row@.len()
                        ==> self@.dom().contains(#[trigger] row@[i]) && self.rank@[row@[i]] >= depth,
                    forall|i: int| 0 <= i < next@.len()
                        ==> self@.dom().contains(#[trigger] next@[i]) && self.rank@[next@[i]] >= depth + 1,
                decreases row@.len() - j,
            {
                let kids = self.children(row[j]);
                proof {
                    assert(row@.take(j + 1).drop_last() =~= row@.take(j as int));
                }
                push_all(&mut next, &kids);
                j += 1;
            }
            assert(row@.take(row@.len() as int) =~= row@);
            push_all(&mut all, &row);
            row = next;
            proof {
                depth = depth + 1;
            }
        }
        proof {
            lemma_level_order(self@, self.rank@, self.bound@, x, depth);
        }
        all
    }

    /// A level-order enumeration of the descendants of `x` holds every
    /// descendant exactly once, and nothing else.
    pub proof fn law_level_order_once(&self, x: u64, all: Seq<u64>)
        requires
            self.wf(),
            is_level_order(self@, x, all),
        ensures
            all.no_duplicates(),
            forall|y: u64| #[trigger] all.contains(y) <==> (y != x && is_within(self@, y, x)),
    {
        self.lemma_inside();
        let depth = choose|depth: nat| level(self@, x, depth).len() == 0 && all == levels(self@, x, depth);
        lemma_level_order(self@, self.rank@, self.bound@, x, depth);
    }

    /// The child of `x` that the index `n` names: from the front for zero and
    /// up, from the back for negative `n`.
    pub fn nth_child(&self, x: u64, n: isize) -> (child: Option<u64>)
        ensures
            child == nth_of(children_in(self@, x), n as int),
    {
        let kids = self.children(x);
        if n >= 0 {
            if (n as usize) < kids.len() {
                Some(kids[n as usize])
            } else {
                None
            }
        } else {
            let back: usize = ((-(n + 1)) as usize) + 1;
            if back <= kids.len() {
                Some(kids[kids.len() - back])
            } else {
                None
            }
        }
    }

    /// The first child of `x`.
    pub fn first_child(&self, x: u64) -> (child: Option<u64>)
        ensures
            child == nth_of(children_in(self@, x), 0),
    {
        self.nth_child(x, 0)
    }

    /// The last child of `x`.
    pub fn last_child(&self, x: u64) -> (child: Option<u64>)
        ensures
            child == nth_of(children_in(self@, x), -1),
    {
        self.nth_child(x, -1)
    }

    /// The children of the parent of `x`, and the place of `x` among them.
    fn row(&self, x: u64) -> (found: Option<(Vec<u64>, usize)>)
        requires
            self.wf(),
        ensures
            match found {
                Some((row, at)) => row@ == row_of(self@, x) && at < row@.len() && row@[at as int] == x
                    && row@.index_of(x) == at,
                None => !row_of(self@, x).contains(x),
            },
    {
        proof {
            self.lemma_inside();
        }
        match self.parent(x) {
            None => {
                None
            },
            Some(p) => {
                let row = self.children(p);
                match index_in(&row, x) {
                    Some(at) => {
                        Some((row, at))
                    },
                    None => None,
                }
            },
        }
    }

    /// The siblings after `x`, nearest first.
    pub fn next_siblings(&self, x: u64) -> (after: Vec<u64>)
        requires
            self.wf(),
        ensures
            after@ == next_in(self@, x),
    {
        let mut after: Vec<u64> = Vec::new();
        if let Some((row, at)) = self.row(x) {
            let mut i: usize = at + 1;
            while i < row.len()
                invariant
                    at < i <= row@.len(),
                    after@ == row@.subrange(at + 1, i as int),
                decreases row@.len() - i,
            {
                after.push(row[i]);
                i += 1;
            }
        }
        after
    }

    /// The siblings before `x`, nearest first.
    pub fn prev_siblings(&self, x: u64) -> (before: Vec<u64>)
        requires
            self.wf(),
        ensures
            before@ == prev_in(self@, x),
    {
        let mut before: Vec<u64> = Vec::new();
        if let Some((row, at)) = self.row(x) {
            let mut i: usize = at;
            while i > 0
                invariant
                    i <= at < row@.len(),
                    before@.len() == at - i,
                    forall|k: int| 0 <= k < before@.len() ==> before@[k] == row@[at - 1 - k],
                decreases i,
            {
                i -= 1;
                before.push(row[i]);
            }
        }
        before
    }

    /// The siblings of `x`: those before it, nearest first, then those after
    /// it, nearest first.
    pub fn siblings(&self, x: u64) -> (all: Vec<u64>)
        requires
            self.wf(),
        ensures
            all@ == prev_in(self@, x) + next_in(self@, x),
    {
        let mut all = self.prev_siblings(x);
        let after = self.next_siblings(x);
        push_all(&mut all, &after);
        all
    }

    /// The sibling of `x` that `n` names: `0` is the next one, `-1` the
    /// previous one.
    pub fn nth_sibling(&self, x: u64, n: isize) -> (sibling: Option<u64>)
        requires
            self.wf(),
        ensures
            sibling == nth_sibling_in(self@, x, n as int),
    {
        match self.row(x) {
            None => None,
            Some((row, at)) => {
                if n >= 0 {
                    let step: usize = n as usize;
                    if step < row.len() - at - 1 {
                        Some(row[at + 1 + step])
                    } else {
                        None
                    }
                } else {
                    let back: usize = ((-(n + 1)) as usize) + 1;
                    if back <= at {
                        Some(row[at - back])
                    } else {
                        None
                    }
                }
            },
        }
    }

    /// The sibling right after `x`.
    pub fn next_sibling(&self, x: u64) -> (sibling: Option<u64>)
        requires
            self.wf(),
        ensures
            sibling == nth_sibling_in(self@, x, 0),
    {
        self.nth_sibling(x, 0)
    }

    /// The sibling right before `x`.
    pub fn prev_sibling(&self, x: u64) -> (sibling: Option<u64>)
        requires
            self.wf(),
        ensures
            sibling == nth_sibling_in(self@, x, -1),
    {
        self.nth_sibling(x, -1)
    }
}

} // verus!
