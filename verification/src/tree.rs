//! The element tree of one document, kept in step with its layout tree.

use vstd::prelude::*;
use std::collections::HashMap;
use crate::forest::{
    as_int, attached, attr_removed, attr_set, attr_value, climbs_to, destroyed, detached, first_value,
    fresh_leaf, insertion_index, is_within, keys_of, lemma_appended_mirrored, lemma_attached_links,
    lemma_attached_ranked, lemma_attr_names, lemma_climb_end, lemma_climbs, lemma_detached_mirrored,
    lemma_inserted_mirrored, lemma_listed_by_parent, lemma_outside_avoids,
    lemma_owned_kept, lemma_payload_kept, lemma_remove_at, lemma_within_self, lemma_within_step,
    links_ok, mirrored, owned, ranked, reparented, shifted,
};
use crate::layout::{
    computed_boxes, layout_add_child, layout_box, layout_boxes, layout_child_keys, layout_children,
    layout_compute, layout_new,
    layout_new_leaf, layout_parents, layout_remove, layout_remove_child, layout_set_children,
};
use crate::node::{attr_names, opt_chars, Attr, NodeData, NodeView};

verus! {

broadcast use vstd::std_specs::hash::group_hash_axioms;

/// The views of the stored records, under the same keys.
pub open spec fn views(records: Map<u64, NodeData>) -> Map<u64, NodeView> {
    records.map_values(|d: NodeData| d@)
}

/// The free list holds exactly the ids under `next` that no node has.
pub open spec fn alloc_ok(live: Set<u64>, free: Seq<u64>, next: u64) -> bool {
    &&& free.no_duplicates()
    &&& forall|i: int| 0 <= i < free.len() ==> (#[trigger] free[i]) < next && !live.contains(free[i])
    &&& forall|x: u64| #[trigger] live.contains(x) ==> x < next
    &&& forall|x: u64| x < next && !(#[trigger] live.contains(x)) ==> free.contains(x)
}

/// Every record is stored under its own id, and holds no class and no
/// attribute name twice.
pub open spec fn records_ok(records: Map<u64, NodeData>) -> bool {
    forall|x: u64| #[trigger] records.dom().contains(x) ==> records[x].xid == x && records[x]@.names_ok()
}

/// The elements of one document, the links between them, and their
/// counterparts in the layout tree.
pub struct Tree {
    pub(crate) nodes: HashMap<u64, NodeData>,
    pub(crate) layout: taffy::Taffy,
    /// Ids that `destroy` released, the latest last.
    pub(crate) free: Vec<u64>,
    /// The least id that was never handed out.
    pub(crate) next: u64,
    pub(crate) rank: Ghost<Map<u64, nat>>,
    pub(crate) bound: Ghost<nat>,
    pub(crate) owner: Ghost<Map<taffy::node::Node, u64>>,
}

impl View for Tree {
    type V = Map<u64, NodeView>;

    closed spec fn view(&self) -> Map<u64, NodeView> {
        views(self.nodes@)
    }
}

/// The first place of `x` in `v`.
pub fn index_in(v: &Vec<u64>, x: u64) -> (at: Option<usize>)
    ensures
        match at {
            Some(i) => i < v@.len() && v@[i as int] == x && forall|j: int| 0 <= j < i ==> v@[j] != x,
            None => !v@.contains(x),
        },
{
    let mut i: usize = 0;
    while i < v.len()
        invariant
            i <= v@.len(),
            forall|j: int| 0 <= j < i ==> v@[j] != x,
        decreases v@.len() - i,
    {
        if v[i] == x {
            return Some(i);
        }
        i += 1;
    }
    None
}

impl Tree {
    /// The invariant of the tree: links agree in both directions, no node is
    /// its own ancestor, the free list is exact, and the layout tree mirrors
    /// the element tree, node for node and link for link.
    pub closed spec fn wf(&self) -> bool {
        &&& self.nodes@.dom().finite()
        &&& records_ok(self.nodes@)
        &&& links_ok(self@)
        &&& ranked(self@, self.rank@, self.bound@)
        &&& alloc_ok(self@.dom(), self.free@, self.next)
        &&& mirrored(self@, layout_children(self.layout), layout_parents(self.layout))
        &&& owned(self@, self.owner@, layout_children(self.layout), layout_parents(self.layout))
    }

    /// What the invariant says of links and ranks.
    pub(crate) proof fn lemma_inside(&self)
        requires
            self.wf(),
        ensures
            links_ok(self@),
            ranked(self@, self.rank@, self.bound@),
            self@.dom().finite(),
    {
        assert(self@.dom() =~= self.nodes@.dom());
    }

    /// Links agree in both directions: every node with a parent is listed by
    /// that parent exactly once, and every listed child names the node that
    /// lists it as its parent.
    pub proof fn law_links_agree(&self)
        requires
            self.wf(),
        ensures
            links_ok(self@),
            forall|n: u64|
                self@.dom().contains(n) && (#[trigger] self@[n]).parent is Some ==> self@.dom().contains(
                    self@[n].parent->0,
                ) && self@[self@[n].parent->0].children.contains(n)
                    && self@[self@[n].parent->0].children.no_duplicates(),
    {
    }

    /// No node is its own ancestor: the parent of a node is never the node
    /// itself nor one of its descendants.
    pub proof fn law_no_cycle(&self, x: u64)
        requires
            self.wf(),
            self@.dom().contains(x),
            self@[x].parent is Some,
        ensures
            !is_within(self@, self@[x].parent->0, x),
    {
        let p = self@[x].parent->0;
        if is_within(self@, p, x) {
            let k = choose|k: nat| climbs_to(self@, p, x, k);
            lemma_climb_end(self@, self.rank@, self.bound@, p, x, k);
        }
    }

    /// The keys that are live in the layout tree.
    pub closed spec fn layout_keys(&self) -> Set<taffy::node::Node> {
        layout_children(self.layout).dom()
    }

    /// Every element has one leaf of its own in the layout tree, and the
    /// layout tree has no other nodes: a leaf is made when its element is
    /// made and dropped when its element is destroyed.
    pub proof fn law_layout_exact(&self)
        requires
            self.wf(),
        ensures
            forall|x: u64| #[trigger] self@.dom().contains(x) ==> self.layout_keys().contains(self@[x].layout_id),
            forall|x: u64, y: u64|
                #![trigger self@.dom().contains(x), self@.dom().contains(y)]
                self@.dom().contains(x) && self@.dom().contains(y) && self@[x].layout_id == self@[y].layout_id ==> x
                    == y,
            forall|k: taffy::node::Node| #[trigger]
                self.layout_keys().contains(k) ==> exists|x: u64| self@.dom().contains(x) && self@[x].layout_id == k,
    {
    }

    /// A number that falls with every step from a node to its parent.
    pub closed spec fn climb_measure(&self, x: u64) -> nat {
        if self@.dom().contains(x) {
            self.rank@[x] + 1
        } else {
            0
        }
    }

    /// Walking up from any node ends: the node has a finite path to a root.
    pub proof fn law_walk_ends(&self, x: u64) -> (path: Seq<u64>)
        requires
            self.wf(),
        ensures
            crate::queries::is_root_path(self@, x, path),
        decreases self.climb_measure(x),
    {
        if self@.dom().contains(x) && self@[x].parent is Some {
            let p = self@[x].parent->0;
            let rest = self.law_walk_ends(p);
            let path = seq![p] + rest;
            path
        } else {
            Seq::empty()
        }
    }

    /// Ids are handed out without clashes. The free list holds exactly the
    /// ids under the high-water mark that no node has, each once; the
    /// upcoming id is the one released last, or without one the high-water
    /// mark, which is then the least id that no node has; and no stored node
    /// refers to the upcoming id.
    pub proof fn law_ids_unique(&self)
        requires
            self.wf(),
        ensures
            alloc_ok(self@.dom(), self.free_ids(), self.high_water()),
            self.upcoming() == (if self.free_ids().len() > 0 {
                Some(self.free_ids().last())
            } else if self.high_water() < u64::MAX {
                Some(self.high_water())
            } else {
                None::<u64>
            }),
            self.upcoming() is Some ==> !self@.dom().contains(self.upcoming()->0),
            forall|y: u64|
                self.upcoming() is Some && self@.dom().contains(y) ==> (#[trigger] self@[y]).parent != self.upcoming()
                    && !self@[y].children.contains(self.upcoming()->0),
    {
        if self.upcoming() is Some {
            let x = self.upcoming()->0;
            if self.free@.len() > 0 {
                assert(self.free@[self.free@.len() - 1] == x);
            }
            assert forall|y: u64| self@.dom().contains(y) implies (#[trigger] self@[y]).parent != Some(x)
                && !self@[y].children.contains(x) by {}
        }
    }

    /// The released ids that wait for reuse, the latest last.
    pub closed spec fn free_ids(&self) -> Seq<u64> {
        self.free@
    }

    /// The least id that was never handed out.
    pub closed spec fn high_water(&self) -> u64 {
        self.next
    }

    /// A tree without nodes.
    pub fn new() -> (t: Tree)
        ensures
            t.wf(),
            t@.dom() == Set::<u64>::empty(),
            t.free_ids() == Seq::<u64>::empty(),
            t.high_water() == 0,
    {
        let t = Tree {
            nodes: HashMap::new(),
            layout: layout_new(),
            free: Vec::new(),
            next: 0,
            rank: Ghost(Map::empty()),
            bound: Ghost(1),
            owner: Ghost(Map::empty()),
        };
        t
    }

    /// Whether `x` is the id of a stored node.
    pub fn contains(&self, x: u64) -> (b: bool)
        ensures
            b == self@.dom().contains(x),
    {
        self.nodes.contains_key(&x)
    }

    /// The parent of `x`; `None` for a root and for an id that is not stored.
    pub fn parent(&self, x: u64) -> (p: Option<u64>)
        ensures
            p == (if self@.dom().contains(x) {
                self@[x].parent
            } else {
                None
            }),
    {
        match self.nodes.get(&x) {
            Some(node) => node.parent,
            None => None,
        }
    }

    /// Takes `n` out of its parent's children, in the element tree and in the
    /// layout tree, and returns that parent.
    pub(crate) fn unlink(&mut self, n: u64) -> (prev: Option<u64>)
        requires
            old(self).wf(),
            old(self)@.dom().contains(n),
        ensures
            final(self).wf(),
            prev == old(self)@[n].parent,
            final(self)@ == detached(old(self)@, n),
            final(self).free_ids() == old(self).free_ids(),
            final(self).high_water() == old(self).high_water(),
    {
        let prev = self.parent(n);
        if let Some(p) = prev {
            let ghost m = self@;
            let ghost lc = layout_children(self.layout);
            let ghost lp = layout_parents(self.layout);
            proof {
                lemma_detached_mirrored(m, n, lc, lp);
                lemma_climbs(m, self.rank@, self.bound@, lc, lp, p, Set::empty());
            }
            let mut node = self.nodes.remove(&n).unwrap();
            let mut parent = self.nodes.remove(&p).unwrap();
            let at = index_in(&parent.children, n);
            let i = at.unwrap();
            parent.children.remove(i);
            proof {
                lemma_remove_at(m[p].children, i as int);
            }
            layout_remove_child(&mut self.layout, parent.layout_id, node.layout_id);
            node.parent = None;
            self.nodes.insert(p, parent);
            self.nodes.insert(n, node);
            proof {
                assert(self@ =~= detached(m, n));
                lemma_owned_kept(
                    m,
                    self@,
                    self.owner@,
                    lc,
                    lp,
                    layout_children(self.layout),
                    layout_parents(self.layout),
                );
            }
        }
        prev
    }

    /// Whether `x` is `top` or one of its descendants.
    pub fn within(&self, x: u64, top: u64) -> (b: bool)
        requires
            self.wf(),
        ensures
            b == is_within(self@, x, top),
    {
        if !self.contains(x) {
            return false;
        }
        let mut c = x;
        loop
            invariant
                self.wf(),
                self@.dom().contains(c),
                is_within(self@, x, top) == is_within(self@, c, top),
            decreases self.rank@[c],
        {
            if c == top {
                proof {
                    lemma_within_self(self@, c);
                }
                return true;
            }
            proof {
                lemma_within_step(self@, c, top);
            }
            match self.parent(c) {
                None => {
                    return false;
                },
                Some(q) => {
                    c = q;
                },
            }
        }
    }

    /// Makes the root `n` the last child of `p`, in the element tree and in
    /// the layout tree.
    pub(crate) fn link_last(&mut self, n: u64, p: u64)
        requires
            old(self).wf(),
            old(self)@.dom().contains(n),
            old(self)@.dom().contains(p),
            old(self)@[n].parent is None,
            !is_within(old(self)@, p, n),
        ensures
            final(self).wf(),
            final(self)@ == attached(old(self)@, n, p, old(self)@[p].children.len() as int),
            final(self).free_ids() == old(self).free_ids(),
            final(self).high_water() == old(self).high_water(),
    {
        let ghost m = self@;
        let ghost lc = layout_children(self.layout);
        let ghost lp = layout_parents(self.layout);
        let ghost at = m[p].children.len() as int;
        proof {
            lemma_within_self(m, p);
            lemma_attached_links(m, n, p, at);
            lemma_attached_ranked(m, self.rank@, self.bound@, n, p, at);
            lemma_appended_mirrored(m, n, p, lc, lp);
            lemma_outside_avoids(m, self.rank@, self.bound@, lc, lp, p, n, seq![m[n].layout_id]);
            assert(seq![m[n].layout_id].to_set() =~= set![m[n].layout_id]) by {
                assert(seq![m[n].layout_id][0] == m[n].layout_id);
            }
            lemma_climbs(m, self.rank@, self.bound@, lc, lp, p, set![m[n].layout_id]);
        }
        let mut node = self.nodes.remove(&n).unwrap();
        let mut parent = self.nodes.remove(&p).unwrap();
        parent.children.push(n);
        layout_add_child(&mut self.layout, parent.layout_id, node.layout_id);
        node.parent = Some(p);
        self.nodes.insert(p, parent);
        self.nodes.insert(n, node);
        proof {
            self.rank@ = shifted(m, self.rank@, n, self.rank@[p] + 1);
            self.bound@ = self.bound@ + old(self).rank@[p] + 1;
            assert(m[p].children.insert(at, n) =~= m[p].children.push(n));
            assert(self@ =~= attached(m, n, p, at));
            lemma_owned_kept(m, self@, self.owner@, lc, lp, layout_children(self.layout), layout_parents(self.layout));
        }
    }

    /// Makes the root `n` the child of `p` at position `at`, in the element
    /// tree and in the layout tree.
    pub(crate) fn link_at(&mut self, n: u64, p: u64, at: usize)
        requires
            old(self).wf(),
            old(self)@.dom().contains(n),
            old(self)@.dom().contains(p),
            old(self)@[n].parent is None,
            !is_within(old(self)@, p, n),
            at <= old(self)@[p].children.len(),
        ensures
            final(self).wf(),
            final(self)@ == attached(old(self)@, n, p, at as int),
            final(self).free_ids() == old(self).free_ids(),
            final(self).high_water() == old(self).high_water(),
    {
        let ghost m = self@;
        let ghost lc = layout_children(self.layout);
        let ghost lp = layout_parents(self.layout);
        proof {
            lemma_within_self(m, p);
            lemma_attached_links(m, n, p, at as int);
            lemma_attached_ranked(m, self.rank@, self.bound@, n, p, at as int);
        }
        let mut node = self.nodes.remove(&n).unwrap();
        let mut parent = self.nodes.remove(&p).unwrap();
        parent.children.insert(at, n);
        let mut keys = layout_child_keys(&self.layout, parent.layout_id);
        keys.insert(at, node.layout_id);
        proof {
            lemma_outside_avoids(m, self.rank@, self.bound@, lc, lp, p, n, keys@);
            lemma_climbs(m, self.rank@, self.bound@, lc, lp, p, keys@.to_set());
        }
        layout_set_children(&mut self.layout, parent.layout_id, &keys);
        node.parent = Some(p);
        self.nodes.insert(p, parent);
        self.nodes.insert(n, node);
        proof {
            lemma_inserted_mirrored(m, n, p, at as int, lc, lp, layout_parents(self.layout));
            self.rank@ = shifted(m, self.rank@, n, self.rank@[p] + 1);
            self.bound@ = self.bound@ + old(self).rank@[p] + 1;
            assert(self@ =~= attached(m, n, p, at as int));
            lemma_owned_kept(m, self@, self.owner@, lc, lp, layout_children(self.layout), layout_parents(self.layout));
        }
    }

    /// The record of `x`, if it is stored.
    pub(crate) fn node(&self, x: u64) -> (found: Option<&NodeData>)
        ensures
            match found {
                Some(record) => self@.dom().contains(x) && record@ == self@[x],
                None => !self@.dom().contains(x),
            },
    {
        self.nodes.get(&x)
    }

    /// The ids of all stored nodes, in rising order.
    pub fn ids(&self) -> (all: Vec<u64>)
        requires
            self.wf(),
        ensures
            all@.no_duplicates(),
            forall|x: u64| #[trigger] all@.contains(x) <==> self@.dom().contains(x),
            forall|i: int, j: int| 0 <= i < j < all@.len() ==> all@[i] < all@[j],
    {
        let mut all: Vec<u64> = Vec::new();
        let mut x: u64 = 0;
        while x < self.next
            invariant
                self.wf(),
                x <= self.next,
                forall|i: int| 0 <= i < all@.len() ==> #[trigger] all@[i] < x && self@.dom().contains(all@[i]),
                forall|y: u64| y < x && self@.dom().contains(y) ==> #[trigger] all@.contains(y),
                forall|i: int, j: int| 0 <= i < j < all@.len() ==> all@[i] < all@[j],
            decreases self.next - x,
        {
            if self.contains(x) {
                let ghost before = all@;
                all.push(x);
                proof {
                    assert forall|y: u64| y < x + 1 && self@.dom().contains(y) implies #[trigger] all@.contains(y) by {
                        if y == x {
                            assert(all@[before.len() as int] == x);
                        } else {
                            assert(before.contains(y));
                            let i = choose|i: int| 0 <= i < before.len() && before[i] == y;
                            assert(all@[i] == y);
                        }
                    }
                }
            }
            x += 1;
        }
        all
    }

    /// The number of children of `x`; zero for an id that is not stored.
    pub fn child_count(&self, x: u64) -> (len: usize)
        ensures
            len == (if self@.dom().contains(x) {
                self@[x].children.len()
            } else {
                0
            }),
    {
        match self.nodes.get(&x) {
            Some(node) => node.children.len(),
            None => 0,
        }
    }

    /// Moves `n` under `parent` at `idx`, or makes it a root, and returns the
    /// parent it had. The node leaves its parent first. It joins the new
    /// parent only where that one is stored and is neither `n` nor one of
    /// its descendants; otherwise it stays a root. An id `n` that is not
    /// stored changes nothing.
    pub fn change_parent(&mut self, n: u64, parent: Option<u64>, idx: Option<isize>) -> (prev: Option<u64>)
        requires
            old(self).wf(),
        ensures
            final(self).wf(),
            prev == (if old(self)@.dom().contains(n) {
                old(self)@[n].parent
            } else {
                None
            }),
            final(self)@ == reparented(old(self)@, n, parent, as_int(idx)),
            final(self).free_ids() == old(self).free_ids(),
            final(self).high_water() == old(self).high_water(),
    {
        if !self.contains(n) {
            return None;
        }
        let prev = self.unlink(n);
        if let Some(p) = parent {
            if self.contains(p) && !self.within(p, n) {
                match idx {
                    None => {
                        self.link_last(n, p);
                    },
                    Some(i) => {
                        let at = place(self.child_count(p), i);
                        self.link_at(n, p, at);
                    },
                }
            }
        }
        prev
    }

    /// Makes `n` a root and returns the parent it had.
    pub fn detach(&mut self, n: u64) -> (prev: Option<u64>)
        requires
            old(self).wf(),
        ensures
            final(self).wf(),
            prev == (if old(self)@.dom().contains(n) {
                old(self)@[n].parent
            } else {
                None
            }),
            final(self)@ == detached(old(self)@, n),
            final(self).free_ids() == old(self).free_ids(),
            final(self).high_water() == old(self).high_water(),
    {
        self.change_parent(n, None, None)
    }

    /// The id that the next new node gets: the id released last, or without
    /// one the least id that was never handed out. `None` where no id is left.
    pub closed spec fn upcoming(&self) -> Option<u64> {
        if self.free@.len() > 0 {
            Some(self.free@.last())
        } else if self.next < u64::MAX {
            Some(self.next)
        } else {
            None
        }
    }

    /// The id that the next new node gets; `None` where no id is left.
    pub fn next_id(&self) -> (next: Option<u64>)
        requires
            self.wf(),
        ensures
            next == self.upcoming(),
    {
        if self.free.len() > 0 {
            Some(self.free[self.free.len() - 1])
        } else if self.next < u64::MAX {
            Some(self.next)
        } else {
            None
        }
    }

    /// The least id that was never handed out; `None` where it is the last
    /// id there is, which is never handed out.
    pub fn fresh_id(&self) -> (next: Option<u64>)
        ensures
            next == self.picked(None),
    {
        if self.next < u64::MAX {
            Some(self.next)
        } else {
            None
        }
    }

    /// How many released ids wait for reuse.
    pub fn free_count(&self) -> (count: usize)
        ensures
            count == self.free_ids().len(),
    {
        self.free.len()
    }

    /// The released id at place `i` of those that wait for reuse.
    pub fn free_at(&self, i: usize) -> (x: u64)
        requires
            i < self.free_ids().len(),
        ensures
            x == self.free_ids()[i as int],
    {
        self.free[i]
    }

    /// The id that a new node gets when `pick` names its place among the
    /// released ids, or, without a place, the least id that was never
    /// handed out. `None` where no such id is left.
    pub closed spec fn picked(&self, pick: Option<usize>) -> Option<u64> {
        match pick {
            Some(i) => Some(self.free@[i as int]),
            None => if self.next < u64::MAX {
                Some(self.next)
            } else {
                None
            },
        }
    }

    /// The released ids that wait after a new node took the id that `pick`
    /// names.
    pub closed spec fn free_after(&self, pick: Option<usize>) -> Seq<u64> {
        match pick {
            Some(i) => self.free@.remove(i as int),
            None => self.free@,
        }
    }

    /// The least id that was never handed out, after a new node took the id
    /// that `pick` names.
    pub closed spec fn high_water_after(&self, pick: Option<usize>) -> u64 {
        if pick is None && self.next < u64::MAX {
            (self.next + 1) as u64
        } else {
            self.next
        }
    }

    /// What `picked`, `free_after` and `high_water_after` are, over the free
    /// list and the high-water mark.
    pub proof fn law_picked(&self, pick: Option<usize>)
        ensures
            self.free_ids().len() <= usize::MAX,
            self.picked(pick) == (match pick {
                Some(i) => Some(self.free_ids()[i as int]),
                None => if self.high_water() < u64::MAX {
                    Some(self.high_water())
                } else {
                    None::<u64>
                },
            }),
            self.free_after(pick) == (match pick {
                Some(i) => self.free_ids().remove(i as int),
                None => self.free_ids(),
            }),
            self.high_water_after(pick) == (if pick is None && self.high_water() < u64::MAX {
                (self.high_water() + 1) as u64
            } else {
                self.high_water()
            }),
    {
        assert(self.free@.len() == self.free.len());
    }

    /// Stores a new root without children under the upcoming id, with a leaf
    /// of its own in the layout tree, and returns the id. The id leaves the
    /// free list, or the high-water mark rises by one.
    pub fn insert_leaf(
        &mut self,
        tag: String,
        id: Option<String>,
        classes: Vec<String>,
        text: Option<String>,
        attributes: Vec<Attr>,
        style: Option<serde_json::Value>,
        layout_style: taffy::style::Style,
    ) -> (made: Option<u64>)
        requires
            old(self).wf(),
            classes@.map_values(|s: String| s@).no_duplicates(),
            attr_names(attributes@.map_values(|a: Attr| a@)).no_duplicates(),
        ensures
            final(self).wf(),
            made == old(self).upcoming(),
            final(self).free_ids() == (if old(self).free_ids().len() > 0 {
                old(self).free_ids().drop_last()
            } else {
                old(self).free_ids()
            }),
            final(self).high_water() == (if old(self).free_ids().len() == 0 && old(self).high_water() < u64::MAX {
                (old(self).high_water() + 1) as u64
            } else {
                old(self).high_water()
            }),
            match made {
                Some(x) => !old(self)@.dom().contains(x) && final(self)@ == old(self)@.insert(
                    x,
                    fresh_leaf(
                        final(self)@[x].layout_id,
                        tag@,
                        opt_chars(id),
                        classes@.map_values(|s: String| s@),
                        opt_chars(text),
                        attributes@.map_values(|a: Attr| a@),
                        style,
                    ),
                ),
                None => final(self)@ == old(self)@,
            },
    {
        let pick = if self.free.len() > 0 {
            Some(self.free.len() - 1)
        } else {
            None
        };
        proof {
            assert(self.free@.remove(self.free@.len() - 1) =~= self.free@.drop_last());
        }
        self.insert_leaf_at(pick, tag, id, classes, text, attributes, style, layout_style)
    }

    /// Stores a new root without children, with a leaf of its own in the
    /// layout tree, and returns its id: the released id at place `pick`, or,
    /// without a place, the least id that was never handed out. The id
    /// leaves the free list, or the high-water mark rises by one.
    pub fn insert_leaf_at(
        &mut self,
        pick: Option<usize>,
        tag: String,
        id: Option<String>,
        classes: Vec<String>,
        text: Option<String>,
        attributes: Vec<Attr>,
        style: Option<serde_json::Value>,
        layout_style: taffy::style::Style,
    ) -> (made: Option<u64>)
        requires
            old(self).wf(),
            match pick {
                Some(i) => i < old(self).free_ids().len(),
                None => true,
            },
            classes@.map_values(|s: String| s@).no_duplicates(),
            attr_names(attributes@.map_values(|a: Attr| a@)).no_duplicates(),
        ensures
            final(self).wf(),
            made == old(self).picked(pick),
            made is Some ==> final(self).free_ids() == old(self).free_after(pick),
            made is Some ==> final(self).high_water() == old(self).high_water_after(pick),
            made is None ==> final(self).free_ids() == old(self).free_ids(),
            made is None ==> final(self).high_water() == old(self).high_water(),
            match made {
                Some(x) => !old(self)@.dom().contains(x) && final(self)@ == old(self)@.insert(
                    x,
                    fresh_leaf(
                        final(self)@[x].layout_id,
                        tag@,
                        opt_chars(id),
                        classes@.map_values(|s: String| s@),
                        opt_chars(text),
                        attributes@.map_values(|a: Attr| a@),
                        style,
                    ),
                ),
                None => final(self)@ == old(self)@,
            },
    {
        let ghost m = self@;
        let ghost free = self.free@;
        let x: u64 = match pick {
            Some(i) => self.free.remove(i),
            None => {
                if self.next < u64::MAX {
                    let x: u64 = self.next;
                    self.next = self.next + 1;
                    x
                } else {
                    return None;
                }
            },
        };
        let key = layout_new_leaf(&mut self.layout, layout_style);
        let node = NodeData {
            xid: x,
            layout_id: key,
            parent: None,
            children: Vec::new(),
            hidden: false,
            tag,
            id,
            classes,
            text,
            attributes,
            style,
        };
        self.nodes.insert(x, node);
        proof {
            self.rank@ = self.rank@.insert(x, 0);
            self.bound@ = self.bound@ + 1;
            self.owner@ = self.owner@.insert(key, x);
            let d = self@;
            assert(d =~= m.insert(x, node@));
            assert forall|y: u64| #[trigger] d.dom().contains(y) implies layout_children(self.layout)[d[y].layout_id]
                == keys_of(d, d[y].children) by {}
            assert(alloc_ok(d.dom(), self.free@, self.next)) by {
                if pick is Some {
                    let i = pick->0 as int;
                    lemma_remove_at(free, i);
                    assert forall|y: u64| y < self.next && !(#[trigger] d.dom().contains(y)) implies
                        self.free@.contains(y) by {
                        assert(free.contains(y));
                    }
                    assert forall|j: int| 0 <= j < self.free@.len() implies (#[trigger] self.free@[j]) < self.next
                        && !d.dom().contains(self.free@[j]) by {
                        assert(free.remove(i).contains(self.free@[j]));
                        assert(free.contains(self.free@[j]));
                        let k = choose|k: int| 0 <= k < free.len() && free[k] == self.free@[j];
                    }
                }
            }
        }
        Some(x)
    }

    /// The children of `x`, in order; none for an id that is not stored.
    pub fn children(&self, x: u64) -> (kids: Vec<u64>)
        ensures
            kids@ == (if self@.dom().contains(x) {
                self@[x].children
            } else {
                Seq::empty()
            }),
    {
        match self.nodes.get(&x) {
            Some(node) => copy_ids(&node.children),
            None => Vec::new(),
        }
    }

    /// Removes `n` from the tree and returns its children, which become
    /// roots. The node leaves its parent, its layout leaf is dropped, and its
    /// id is released for reuse.
    pub fn destroy(&mut self, n: u64) -> (orphans: Vec<u64>)
        requires
            old(self).wf(),
        ensures
            final(self).wf(),
            orphans@ == (if old(self)@.dom().contains(n) {
                old(self)@[n].children
            } else {
                Seq::empty()
            }),
            final(self)@ == destroyed(old(self)@, n),
            final(self).free_ids() == (if old(self)@.dom().contains(n) {
                old(self).free_ids().push(n)
            } else {
                old(self).free_ids()
            }),
            final(self).high_water() == old(self).high_water(),
    {
        if !self.contains(n) {
            return Vec::new();
        }
        let ghost m0 = self@;
        self.unlink(n);
        let ghost m1 = self@;
        let kids = self.children(n);
        let mut i: usize = 0;
        assert(kids@.skip(0) =~= kids@);
        while i < kids.len()
            invariant
                self.wf(),
                i <= kids@.len(),
                kids@ == m1[n].children,
                kids@.no_duplicates(),
                self@.dom() == m1.dom(),
                m1.dom().contains(n),
                m1[n].parent is None,
                self@[n] == (NodeView { children: kids@.skip(i as int), ..m1[n] }),
                forall|j: int| 0 <= j < i ==> self@[#[trigger] kids@[j]] == (NodeView { parent: None, ..m1[kids@[j]] }),
                forall|j: int| i <= j < kids@.len() ==> self@[#[trigger] kids@[j]] == m1[kids@[j]],
                forall|x: u64| x != n && !kids@.contains(x) && m1.dom().contains(x) ==> #[trigger] self@[x] == m1[x],
                forall|j: int| 0 <= j < kids@.len() ==> m1.dom().contains(#[trigger] kids@[j]) && kids@[j] != n,
                self.free_ids() == old(self).free_ids(),
                self.high_water() == old(self).high_water(),
            decreases kids@.len() - i,
        {
            let c: u64 = kids[i];
            let ghost cur = self@;
            proof {
                lemma_remove_at(cur[n].children, 0);
                assert(cur[n].children.remove(0) =~= kids@.skip(i + 1));
            }
            self.unlink(c);
            i += 1;
        }
        let ghost m2 = self@;
        let node = self.nodes.remove(&n).unwrap();
        layout_remove(&mut self.layout, node.layout_id);
        self.free.push(n);
        proof {
            self.owner@ = self.owner@.remove(node.layout_id);
            let d = self@;
            assert(d.dom() =~= m2.dom().remove(n));
            assert forall|x: u64| #[trigger] d.dom().contains(x) implies layout_children(self.layout)[d[x].layout_id]
                == keys_of(d, d[x].children) by {}
            let free = old(self).free@;
            assert(alloc_ok(d.dom(), self.free@, self.next)) by {
                assert forall|x: u64| x < self.next && !(#[trigger] d.dom().contains(x)) implies self.free@.contains(
                    x,
                ) by {
                    if x == n {
                        assert(self.free@[free.len() as int] == n);
                    } else {
                        let j = choose|j: int| 0 <= j < free.len() && free[j] == x;
                        assert(self.free@[j] == x);
                    }
                }
            }
            assert(d =~= destroyed(m0, n)) by {
                assert forall|x: u64| #[trigger] d.dom().contains(x) implies d[x] == destroyed(m0, n)[x] by {
                    if m0[n].parent != Some(x) {
                        lemma_listed_by_parent(m0, n, x);
                    }
                }
            }
        }
        kids
    }
}

/// A copy of a list of ids.
pub fn copy_ids(v: &Vec<u64>) -> (copy: Vec<u64>)
    ensures
        copy@ == v@,
{
    let mut copy: Vec<u64> = Vec::new();
    let mut i: usize = 0;
    while i < v.len()
        invariant
            i <= v@.len(),
            copy@ == v@.take(i as int),
        decreases v@.len() - i,
    {
        copy.push(v[i]);
        i += 1;
    }
    copy
}

impl Tree {
    /// Puts the record of `x` back after a change to what it carries.
    fn restore(&mut self, x: u64, node: NodeData, Ghost(before): Ghost<Tree>)
        requires
            before.wf(),
            before@.dom().contains(x),
            old(self).nodes@ == before.nodes@.remove(x),
            old(self).layout == before.layout,
            old(self).free == before.free,
            old(self).next == before.next,
            old(self).rank == before.rank,
            old(self).bound == before.bound,
            old(self).owner == before.owner,
            node.xid == x,
            node@.parent == before@[x].parent,
            node@.children == before@[x].children,
            node@.layout_id == before@[x].layout_id,
            node@.names_ok(),
        ensures
            final(self).wf(),
            final(self)@ == before@.insert(x, node@),
            final(self).free_ids() == before.free_ids(),
            final(self).high_water() == before.high_water(),
    {
        self.nodes.insert(x, node);
        proof {
            lemma_payload_kept(
                before@,
                x,
                node@,
                before.rank@,
                before.bound@,
                layout_children(before.layout),
                layout_parents(before.layout),
            );
            assert(self@ =~= before@.insert(x, node@));
        }
    }

    /// The tag of `x`; empty for an id that is not stored.
    pub fn tag(&self, x: u64) -> (tag: String)
        ensures
            tag@ == (if self@.dom().contains(x) {
                self@[x].tag
            } else {
                Seq::empty()
            }),
    {
        match self.nodes.get(&x) {
            Some(node) => node.tag.clone(),
            None => String::new(),
        }
    }

    /// The `id` of `x`, if it has one.
    pub fn id(&self, x: u64) -> (id: Option<String>)
        ensures
            opt_chars(id) == (if self@.dom().contains(x) {
                self@[x].id
            } else {
                None
            }),
    {
        match self.nodes.get(&x) {
            Some(node) => match &node.id {
                Some(id) => Some(id.clone()),
                None => None,
            },
            None => None,
        }
    }

    /// Gives `x` the `id` and returns the one it had. An id that is not
    /// stored changes nothing.
    pub fn set_id(&mut self, x: u64, id: String) -> (prev: Option<String>)
        requires
            old(self).wf(),
        ensures
            final(self).wf(),
            final(self).free_ids() == old(self).free_ids(),
            final(self).high_water() == old(self).high_water(),
            if old(self)@.dom().contains(x) {
                opt_chars(prev) == old(self)@[x].id && final(self)@ == old(self)@.insert(
                    x,
                    NodeView { id: Some(id@), ..old(self)@[x] },
                )
            } else {
                prev is None && final(self)@ == old(self)@
            },
    {
        if !self.contains(x) {
            return None;
        }
        let ghost before = *self;
        let mut node = self.nodes.remove(&x).unwrap();
        let prev = node.id;
        node.id = Some(id);
        self.restore(x, node, Ghost(before));
        prev
    }

    /// The text of `x`, if it has one.
    pub fn text(&self, x: u64) -> (text: Option<String>)
        ensures
            opt_chars(text) == (if self@.dom().contains(x) {
                self@[x].text
            } else {
                None
            }),
    {
        match self.nodes.get(&x) {
            Some(node) => match &node.text {
                Some(text) => Some(text.clone()),
                None => None,
            },
            None => None,
        }
    }

    /// Gives `x` the text and returns the one it had. An id that is not
    /// stored changes nothing.
    pub fn set_text(&mut self, x: u64, text: String) -> (prev: Option<String>)
        requires
            old(self).wf(),
        ensures
            final(self).wf(),
            final(self).free_ids() == old(self).free_ids(),
            final(self).high_water() == old(self).high_water(),
            if old(self)@.dom().contains(x) {
                opt_chars(prev) == old(self)@[x].text && final(self)@ == old(self)@.insert(
                    x,
                    NodeView { text: Some(text@), ..old(self)@[x] },
                )
            } else {
                prev is None && final(self)@ == old(self)@
            },
    {
        if !self.contains(x) {
            return None;
        }
        let ghost before = *self;
        let mut node = self.nodes.remove(&x).unwrap();
        let prev = node.text;
        node.text = Some(text);
        self.restore(x, node, Ghost(before));
        prev
    }

    /// Whether `x` is hidden; an id that is not stored is not.
    pub fn hidden(&self, x: u64) -> (hidden: bool)
        ensures
            hidden == (self@.dom().contains(x) && self@[x].hidden),
    {
        match self.nodes.get(&x) {
            Some(node) => node.hidden,
            None => false,
        }
    }

    /// Hides or shows `x` and returns whether it was hidden. An id that is
    /// not stored changes nothing.
    pub fn set_hidden(&mut self, x: u64, hidden: bool) -> (prev: bool)
        requires
            old(self).wf(),
        ensures
            final(self).wf(),
            final(self).free_ids() == old(self).free_ids(),
            final(self).high_water() == old(self).high_water(),
            if old(self)@.dom().contains(x) {
                prev == old(self)@[x].hidden && final(self)@ == old(self)@.insert(
                    x,
                    NodeView { hidden, ..old(self)@[x] },
                )
            } else {
                !prev && final(self)@ == old(self)@
            },
    {
        if !self.contains(x) {
            return false;
        }
        let ghost before = *self;
        let mut node = self.nodes.remove(&x).unwrap();
        let prev = node.hidden;
        node.hidden = hidden;
        self.restore(x, node, Ghost(before));
        prev
    }

    /// The raw style record of `x`, if it has one.
    pub fn style(&self, x: u64) -> (style: Option<serde_json::Value>)
        ensures
            style == (if self@.dom().contains(x) {
                self@[x].style
            } else {
                None
            }),
    {
        match self.nodes.get(&x) {
            Some(node) => match &node.style {
                Some(style) => Some(style.clone()),
                None => None,
            },
            None => None,
        }
    }

    /// Gives `x` the raw style record and returns the one it had. An id
    /// that is not stored changes nothing.
    pub fn set_style(&mut self, x: u64, style: serde_json::Value) -> (prev: Option<serde_json::Value>)
        requires
            old(self).wf(),
        ensures
            final(self).wf(),
            final(self).free_ids() == old(self).free_ids(),
            final(self).high_water() == old(self).high_water(),
            if old(self)@.dom().contains(x) {
                prev == old(self)@[x].style && final(self)@ == old(self)@.insert(
                    x,
                    NodeView { style: Some(style), ..old(self)@[x] },
                )
            } else {
                prev is None && final(self)@ == old(self)@
            },
    {
        if !self.contains(x) {
            return None;
        }
        let ghost before = *self;
        let mut node = self.nodes.remove(&x).unwrap();
        let prev = node.style;
        node.style = Some(style);
        self.restore(x, node, Ghost(before));
        prev
    }

    /// The layout keys of the children of `x`, as the layout tree lists
    /// them: those of the element's children, in the same order.
    pub fn layout_child_keys(&self, x: u64) -> (keys: Vec<taffy::node::Node>)
        requires
            self.wf(),
        ensures
            keys@ == (if self@.dom().contains(x) {
                keys_of(self@, self@[x].children)
            } else {
                Seq::empty()
            }),
    {
        match self.nodes.get(&x) {
            Some(node) => layout_child_keys(&self.layout, node.layout_id),
            None => Vec::new(),
        }
    }

    /// The box that the layout tree holds for the element `x`: the one
    /// computed last.
    pub closed spec fn box_of(&self, x: u64) -> taffy::layout::Layout {
        layout_boxes(self.layout)[self@[x].layout_id]
    }

    /// The box that the layout tree holds for the element `x` after the
    /// layout was computed from `root` for the room `space`.
    pub closed spec fn box_after(
        &self,
        root: u64,
        space: taffy::geometry::Size<taffy::style::AvailableSpace>,
        x: u64,
    ) -> taffy::layout::Layout {
        computed_boxes(self.layout, self@[root].layout_id, space)[self@[x].layout_id]
    }

    /// Computes position and size of `root` and of all elements below it,
    /// for the room `space`, and says whether `root` is stored; nothing is
    /// computed where it is not. The tree stays as it is.
    pub fn compute_layout(&mut self, root: u64, space: taffy::geometry::Size<taffy::style::AvailableSpace>) -> (done:
        bool)
        requires
            old(self).wf(),
        ensures
            final(self).wf(),
            final(self)@ == old(self)@,
            final(self).free_ids() == old(self).free_ids(),
            final(self).high_water() == old(self).high_water(),
            done == old(self)@.dom().contains(root),
            forall|x: u64|
                old(self)@.dom().contains(x) ==> #[trigger] final(self).box_of(x) == (if done {
                    old(self).box_after(root, space, x)
                } else {
                    old(self).box_of(x)
                }),
    {
        let key = match self.nodes.get(&root) {
            Some(node) => node.layout_id,
            None => {
                return false;
            },
        };
        proof {
            crate::forest::lemma_descends(
                self@,
                self.rank@,
                self.bound@,
                layout_children(self.layout),
                layout_parents(self.layout),
                root,
            );
        }
        layout_compute(&mut self.layout, key, space);
        true
    }

    /// The box last computed for `x`, if it is stored.
    pub fn layout_box(&self, x: u64) -> (found: Option<taffy::layout::Layout>)
        requires
            self.wf(),
        ensures
            found == (if self@.dom().contains(x) {
                Some(self.box_of(x))
            } else {
                None
            }),
    {
        match self.nodes.get(&x) {
            Some(node) => {
                assert(self@.dom().contains(x));
                Some(layout_box(&self.layout, node.layout_id))
            },
            None => None,
        }
    }

    /// The layout key of `x`, if it is stored.
    pub fn layout_key(&self, x: u64) -> (key: Option<taffy::node::Node>)
        ensures
            key == (if self@.dom().contains(x) {
                Some(self@[x].layout_id)
            } else {
                None
            }),
    {
        match self.nodes.get(&x) {
            Some(node) => Some(node.layout_id),
            None => None,
        }
    }

    /// The class names of `x`; none for an id that is not stored.
    pub fn classes(&self, x: u64) -> (classes: Vec<String>)
        ensures
            classes@.map_values(|s: String| s@) == (if self@.dom().contains(x) {
                self@[x].classes
            } else {
                Seq::empty()
            }),
    {
        let mut classes: Vec<String> = Vec::new();
        match self.nodes.get(&x) {
            Some(node) => {
                let mut i: usize = 0;
                while i < node.classes.len()
                    invariant
                        i <= node.classes@.len(),
                        classes@.map_values(|s: String| s@) == node@.classes.take(i as int),
                    decreases node.classes@.len() - i,
                {
                    let class = node.classes[i].clone();
                    let ghost before = classes@;
                    classes.push(class);
                    assert(classes@.map_values(|s: String| s@) =~= before.map_values(|s: String| s@).push(class@));
                    i += 1;
                }
            },
            None => {
            },
        }
        classes
    }

    /// The attributes of `x`; none for an id that is not stored.
    pub fn attributes(&self, x: u64) -> (attributes: Vec<Attr>)
        ensures
            attributes@.map_values(|a: Attr| a@) == (if self@.dom().contains(x) {
                self@[x].attributes
            } else {
                Seq::empty()
            }),
    {
        let mut attributes: Vec<Attr> = Vec::new();
        match self.nodes.get(&x) {
            Some(node) => {
                let mut i: usize = 0;
                while i < node.attributes.len()
                    invariant
                        i <= node.attributes@.len(),
                        attributes@.map_values(|a: Attr| a@) == node@.attributes.take(i as int),
                    decreases node.attributes@.len() - i,
                {
                    let a = &node.attributes[i];
                    let copy = Attr { name: a.name.clone(), value: a.value.clone() };
                    attributes.push(copy);
                    assert(node@.attributes.take(i + 1) =~= node@.attributes.take(i as int).push(
                        node@.attributes[i as int],
                    ));
                    i += 1;
                }
            },
            None => {
            },
        }
        attributes
    }

    /// The value that `x` itself gives the attribute `name`.
    pub fn own_attribute(&self, x: u64, name: &str) -> (value: Option<serde_json::Value>)
        ensures
            value == (if self@.dom().contains(x) {
                attr_value(self@[x].attributes, name@)
            } else {
                None
            }),
    {
        match self.nodes.get(&x) {
            Some(node) => {
                let name = crate::textops::to_chars(name);
                match crate::matching::find_attribute(&node.attributes, &name) {
                    Some(i) => Some(node.attributes[i].value.clone()),
                    None => None,
                }
            },
            None => None,
        }
    }

    /// The value that the first node of `ids` with an attribute `name` gives
    /// it.
    pub fn first_attribute(&self, ids: &Vec<u64>, name: &str) -> (value: Option<serde_json::Value>)
        ensures
            value == first_value(self@, ids@, name@),
    {
        let mut i: usize = 0;
        proof {
            assert(ids@.skip(0) =~= ids@);
        }
        while i < ids.len()
            invariant
                i <= ids@.len(),
                first_value(self@, ids@, name@) == first_value(self@, ids@.skip(i as int), name@),
            decreases ids@.len() - i,
        {
            let found = self.own_attribute(ids[i], name);
            proof {
                assert(ids@.skip(i as int).drop_first() =~= ids@.skip(i + 1));
            }
            if found.is_some() {
                return found;
            }
            i += 1;
        }
        None
    }

    /// The value of the attribute `name` for `x`: its own, or else that of
    /// its nearest ancestor that has one.
    pub fn attribute(&self, x: u64, name: &str) -> (value: Option<serde_json::Value>)
        requires
            self.wf(),
        ensures
            exists|path: Seq<u64>|
                crate::queries::is_root_path(self@, x, path) && value == first_value(self@, seq![x] + path, name@),
    {
        let path = self.ancestors(x);
        let mut ids: Vec<u64> = Vec::new();
        ids.push(x);
        crate::queries::push_all(&mut ids, &path);
        let value = self.first_attribute(&ids, name);
        value
    }

    /// Gives the attribute `name` of `x` the `value` and returns the one it
    /// had. An id that is not stored changes nothing.
    pub fn set_attribute(&mut self, x: u64, name: &str, value: serde_json::Value) -> (prev: Option<
        serde_json::Value,
    >)
        requires
            old(self).wf(),
        ensures
            final(self).wf(),
            final(self).free_ids() == old(self).free_ids(),
            final(self).high_water() == old(self).high_water(),
            if old(self)@.dom().contains(x) {
                prev == attr_value(old(self)@[x].attributes, name@) && final(self)@ == old(self)@.insert(
                    x,
                    NodeView { attributes: attr_set(old(self)@[x].attributes, name@, value), ..old(self)@[x] },
                )
            } else {
                prev is None && final(self)@ == old(self)@
            },
    {
        if !self.contains(x) {
            return None;
        }
        let ghost before = *self;
        let ghost attrs = self@[x].attributes;
        let mut node = self.nodes.remove(&x).unwrap();
        let chars = crate::textops::to_chars(name);
        let prev = match crate::matching::find_attribute(&node.attributes, &chars) {
            Some(i) => {
                let prev = node.attributes[i].value.clone();
                node.attributes.set(i, Attr { name: name.to_owned(), value });
                assert(node@.attributes =~= attrs.update(i as int, (name@, value)));
                Some(prev)
            },
            None => {
                node.attributes.push(Attr { name: name.to_owned(), value });
                assert(node@.attributes =~= attrs.push((name@, value)));
                None
            },
        };
        proof {
            lemma_attr_names(attrs, name@, value);
        }
        self.restore(x, node, Ghost(before));
        prev
    }

    /// Takes the attribute `name` from `x` and returns the value it had. An
    /// id that is not stored changes nothing.
    pub fn remove_attribute(&mut self, x: u64, name: &str) -> (prev: Option<serde_json::Value>)
        requires
            old(self).wf(),
        ensures
            final(self).wf(),
            final(self).free_ids() == old(self).free_ids(),
            final(self).high_water() == old(self).high_water(),
            if old(self)@.dom().contains(x) {
                prev == attr_value(old(self)@[x].attributes, name@) && final(self)@ == old(self)@.insert(
                    x,
                    NodeView { attributes: attr_removed(old(self)@[x].attributes, name@), ..old(self)@[x] },
                )
            } else {
                prev is None && final(self)@ == old(self)@
            },
    {
        if !self.contains(x) {
            return None;
        }
        let ghost before = *self;
        let ghost attrs = self@[x].attributes;
        let mut node = self.nodes.remove(&x).unwrap();
        let chars = crate::textops::to_chars(name);
        let prev = match crate::matching::find_attribute(&node.attributes, &chars) {
            Some(i) => {
                let gone = node.attributes.remove(i);
                assert(node@.attributes =~= attrs.remove(i as int));
                Some(gone.value)
            },
            None => None,
        };
        proof {
            lemma_attr_names(attrs, name@, arbitrary());
        }
        self.restore(x, node, Ghost(before));
        prev
    }
}

/// Where a node lands among `len` children when it is put at index `i`.
pub fn place(len: usize, i: isize) -> (at: usize)
    ensures
        at == insertion_index(len as int, Some(i as int)),
        at <= len,
{
    if i < 0 {
        let back: usize = ((-(i + 1)) as usize) + 2;
        if back > len {
            0
        } else {
            len - back
        }
    } else if (i as usize) < len {
        i as usize
    } else {
        len
    }
}

} // verus!
