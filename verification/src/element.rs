//! Working with one element through its handle. Every operation goes to the
//! engine of the handle's instance; an instance or an element that does not
//! exist gives the empty answer and changes nothing.

use vstd::prelude::*;
use crate::engine::Engine;
use crate::events::ElementX;
use crate::forest::{
    as_int, attr_removed, attr_set, attr_value, can_splice, destroyed, detached, first_value, is_within,
    reparented, spliced,
};
use crate::instance::{handle, handles, ids_of, routed, same_but_tree, wrap, xids, Registry};
use crate::matching::{first_in, selected};
use crate::node::{opt_chars, Attr, NodeView};
use crate::queries::{
    children_in, is_level_order, is_root_path, next_in, nth_of, nth_sibling_in, parent_in, prev_in,
};
use crate::textops::{decimal, id_selector};

verus! {

/// The id that an optional handle names.
pub open spec fn id_of(el: Option<ElementX>) -> Option<u64> {
    match el {
        Some(el) => Some(el.xid),
        None => None,
    }
}

/// Nodes that are not stored give an attribute no value.
pub proof fn lemma_no_value(m: Map<u64, NodeView>, ids: Seq<u64>, name: Seq<char>)
    requires
        forall|i: int| 0 <= i < ids.len() ==> !m.dom().contains(#[trigger] ids[i]),
    ensures
        first_value(m, ids, name) is None,
    decreases ids.len(),
{
    if ids.len() > 0 {
        lemma_no_value(m, ids.drop_first(), name);
    }
}

/// A handle on the element `id` of the instance `iid`, if there is one.
pub fn wrap_one(id: Option<u64>, iid: u64) -> (el: Option<ElementX>)
    ensures
        el == handle(id, iid),
{
    match id {
        Some(xid) => Some(ElementX { xid, iid }),
        None => None,
    }
}

impl ElementX {
    /// The parent of the element.
    pub fn parent(&self, reg: &Registry) -> (el: Option<ElementX>)
        ensures
            el == handle(parent_in(reg.tree(self.iid), self.xid), self.iid),
    {
        match reg.engine(self.iid) {
            Some(e) => wrap_one(e.tree.parent(self.xid), self.iid),
            None => None,
        }
    }

    /// The ancestors of the element, nearest first, ending at its root.
    pub fn ancestors(&self, reg: &Registry) -> (els: Vec<ElementX>)
        requires
            reg.wf(),
        ensures
            exists|path: Seq<u64>| is_root_path(reg.tree(self.iid), self.xid, path) && els@ == handles(path, self.iid),
    {
        match reg.engine(self.iid) {
            Some(e) => {
                let path = e.tree.ancestors(self.xid);
                let els = wrap(&path, self.iid);
                els
            },
            None => {
                let els: Vec<ElementX> = Vec::new();
                assert(is_root_path(reg.tree(self.iid), self.xid, Seq::empty()) && els@ =~= handles(
                    Seq::empty(),
                    self.iid,
                ));
                els
            },
        }
    }

    /// Moves the element under `parent` at `idx`, or makes it a root, and
    /// returns the parent it had. A parent that does not exist, or that is
    /// the element or one of its descendants, is not joined: the element
    /// stays a root.
    pub fn change_parent(&self, reg: &mut Registry, parent: Option<ElementX>, idx: Option<isize>) -> (prev: Option<
        ElementX,
    >)
        requires
            old(reg).wf(),
        ensures
            routed(*old(reg), *final(reg), self.iid),
            old(reg)@.dom().contains(self.iid) ==> same_but_tree(old(reg)@[self.iid], final(reg)@[self.iid]),
            prev == handle(parent_in(old(reg).tree(self.iid), self.xid), self.iid),
            final(reg).tree(self.iid) == reparented(old(reg).tree(self.iid), self.xid, id_of(parent), as_int(idx)),
    {
        let mut engine = match reg.take(self.iid) {
            Some(e) => e,
            None => {
                assert(final(reg)@ =~= old(reg)@);
                return None;
            },
        };
        let to = match parent {
            Some(p) => Some(p.xid),
            None => None,
        };
        let prev = engine.tree.change_parent(self.xid, to, idx);
        reg.put(engine);
        wrap_one(prev, self.iid)
    }

    /// Makes the element a root and returns the parent it had.
    pub fn detach(&self, reg: &mut Registry) -> (prev: Option<ElementX>)
        requires
            old(reg).wf(),
        ensures
            routed(*old(reg), *final(reg), self.iid),
            old(reg)@.dom().contains(self.iid) ==> same_but_tree(old(reg)@[self.iid], final(reg)@[self.iid]),
            prev == handle(parent_in(old(reg).tree(self.iid), self.xid), self.iid),
            final(reg).tree(self.iid) == detached(old(reg).tree(self.iid), self.xid),
    {
        self.change_parent(reg, None, None)
    }

    /// The children of the element, in order.
    pub fn children(&self, reg: &Registry) -> (els: Vec<ElementX>)
        ensures
            els@ == handles(children_in(reg.tree(self.iid), self.xid), self.iid),
    {
        match reg.engine(self.iid) {
            Some(e) => wrap(&e.tree.children(self.xid), self.iid),
            None => {
                let els: Vec<ElementX> = Vec::new();
                els
            },
        }
    }

    /// The descendants of the element in level order, each once.
    pub fn descendants(&self, reg: &Registry) -> (els: Vec<ElementX>)
        requires
            reg.wf(),
        ensures
            exists|all: Seq<u64>|
                is_level_order(reg.tree(self.iid), self.xid, all) && all.no_duplicates() && els@ == handles(
                    all,
                    self.iid,
                ) && forall|y: u64| #[trigger]
                    all.contains(y) <==> (y != self.xid && is_within(reg.tree(self.iid), y, self.xid)),
    {
        match reg.engine(self.iid) {
            Some(e) => {
                let all = e.tree.descendants(self.xid);
                let els = wrap(&all, self.iid);
                assert(is_level_order(reg.tree(self.iid), self.xid, all@) && all@.no_duplicates() && els@
                    == handles(all@, self.iid) && forall|y: u64| #[trigger]
                    all@.contains(y) <==> (y != self.xid && is_within(reg.tree(self.iid), y, self.xid)));
                els
            },
            None => {
                let els: Vec<ElementX> = Vec::new();
                let ghost none = Seq::<u64>::empty();
                let ghost m = reg.tree(self.iid);
                assert(crate::queries::level(m, self.xid, 0).len() == 0 && none == crate::queries::levels(
                    m,
                    self.xid,
                    0,
                ));
                assert forall|y: u64| #[trigger]
                    none.contains(y) <==> (y != self.xid && is_within(m, y, self.xid)) by {}
                assert(is_level_order(m, self.xid, none) && none.no_duplicates() && els@ =~= handles(none, self.iid)
                    && forall|y: u64| #[trigger] none.contains(y) <==> (y != self.xid && is_within(m, y, self.xid)));
                els
            },
        }
    }

    /// The child that the index `n` names: from the front for zero and up,
    /// from the back for negative `n`.
    pub fn nth_child(&self, reg: &Registry, n: isize) -> (el: Option<ElementX>)
        ensures
            el == handle(nth_of(children_in(reg.tree(self.iid), self.xid), n as int), self.iid),
    {
        match reg.engine(self.iid) {
            Some(e) => wrap_one(e.tree.nth_child(self.xid, n), self.iid),
            None => None,
        }
    }

    /// The first child of the element.
    pub fn first_child(&self, reg: &Registry) -> (el: Option<ElementX>)
        ensures
            el == handle(nth_of(children_in(reg.tree(self.iid), self.xid), 0), self.iid),
    {
        self.nth_child(reg, 0)
    }

    /// The last child of the element.
    pub fn last_child(&self, reg: &Registry) -> (el: Option<ElementX>)
        ensures
            el == handle(nth_of(children_in(reg.tree(self.iid), self.xid), -1), self.iid),
    {
        self.nth_child(reg, -1)
    }

    /// Replaces the children of the element from `start` up to `end` by
    /// `replacement` and returns the children that left. The new children
    /// leave the parents they had; one that was a child of the element
    /// outside the range moves. `None`, and no change, where the range does
    /// not lie in the children, or where a new child does not exist, is
    /// named twice, or is the element or one of its ancestors.
    pub fn splice_children(&self, reg: &mut Registry, start: usize, end: usize, replacement: &Vec<ElementX>) -> (out:
        Option<Vec<ElementX>>)
        requires
            old(reg).wf(),
        ensures
            routed(*old(reg), *final(reg), self.iid),
            old(reg)@.dom().contains(self.iid) ==> same_but_tree(old(reg)@[self.iid], final(reg)@[self.iid]),
            final(reg).tree(self.iid) == spliced(
                old(reg).tree(self.iid),
                self.xid,
                start as int,
                end as int,
                ids_of(replacement@),
            ),
            match out {
                Some(gone) => can_splice(
                    old(reg).tree(self.iid),
                    self.xid,
                    start as int,
                    end as int,
                    ids_of(replacement@),
                ) && gone@ == handles(
                    old(reg).tree(self.iid)[self.xid].children.subrange(start as int, end as int),
                    self.iid,
                ),
                None => !can_splice(old(reg).tree(self.iid), self.xid, start as int, end as int, ids_of(replacement@)),
            },
    {
        let mut engine = match reg.take(self.iid) {
            Some(e) => e,
            None => {
                assert(final(reg)@ =~= old(reg)@);
                return None;
            },
        };
        let ids = xids(replacement);
        let out = engine.tree.splice_children(self.xid, start, end, &ids);
        reg.put(engine);
        match out {
            Some(gone) => Some(wrap(&gone, self.iid)),
            None => None,
        }
    }

    /// The siblings of the element: those before it, nearest first, then
    /// those after it, nearest first.
    pub fn siblings(&self, reg: &Registry) -> (els: Vec<ElementX>)
        requires
            reg.wf(),
        ensures
            els@ == handles(prev_in(reg.tree(self.iid), self.xid) + next_in(reg.tree(self.iid), self.xid), self.iid),
    {
        match reg.engine(self.iid) {
            Some(e) => wrap(&e.tree.siblings(self.xid), self.iid),
            None => {
                let els: Vec<ElementX> = Vec::new();
                els
            },
        }
    }

    /// The sibling that `n` names: `0` is the next one, `-1` the previous
    /// one.
    pub fn nth_sibling(&self, reg: &Registry, n: isize) -> (el: Option<ElementX>)
        requires
            reg.wf(),
        ensures
            el == handle(nth_sibling_in(reg.tree(self.iid), self.xid, n as int), self.iid),
    {
        match reg.engine(self.iid) {
            Some(e) => wrap_one(e.tree.nth_sibling(self.xid, n), self.iid),
            None => None,
        }
    }

    /// The sibling right after the element.
    pub fn next_sibling(&self, reg: &Registry) -> (el: Option<ElementX>)
        requires
            reg.wf(),
        ensures
            el == handle(nth_sibling_in(reg.tree(self.iid), self.xid, 0), self.iid),
    {
        self.nth_sibling(reg, 0)
    }

    /// The sibling right before the element.
    pub fn prev_sibling(&self, reg: &Registry) -> (el: Option<ElementX>)
        requires
            reg.wf(),
        ensures
            el == handle(nth_sibling_in(reg.tree(self.iid), self.xid, -1), self.iid),
    {
        self.nth_sibling(reg, -1)
    }

    /// The siblings after the element, nearest first.
    pub fn next_siblings(&self, reg: &Registry) -> (els: Vec<ElementX>)
        requires
            reg.wf(),
        ensures
            els@ == handles(next_in(reg.tree(self.iid), self.xid), self.iid),
    {
        match reg.engine(self.iid) {
            Some(e) => wrap(&e.tree.next_siblings(self.xid), self.iid),
            None => {
                let els: Vec<ElementX> = Vec::new();
                els
            },
        }
    }

    /// The siblings before the element, nearest first.
    pub fn prev_siblings(&self, reg: &Registry) -> (els: Vec<ElementX>)
        requires
            reg.wf(),
        ensures
            els@ == handles(prev_in(reg.tree(self.iid), self.xid), self.iid),
    {
        match reg.engine(self.iid) {
            Some(e) => wrap(&e.tree.prev_siblings(self.xid), self.iid),
            None => {
                let els: Vec<ElementX> = Vec::new();
                els
            },
        }
    }

    /// Registers `handler` for the events called `event` that target this
    /// element. Nothing is registered where the instance does not exist.
    pub fn add_event_listener(&self, reg: &mut Registry, event: &str, handler: &str)
        requires
            old(reg).wf(),
        ensures
            routed(*old(reg), *final(reg), self.iid),
            old(reg)@.dom().contains(self.iid) ==> ({
                let before = old(reg)@[self.iid];
                let after = final(reg)@[self.iid];
                &&& after.tree == before.tree
                &&& same_but_tree(
                    Engine { listeners: after.listeners, ..before },
                    after,
                )
                &&& after.listeners@.drop_last() == before.listeners@
                &&& after.listeners@.len() == before.listeners@.len() + 1
                &&& after.listeners@.last().event@ == event@
                &&& after.listeners@.last().handler@ == handler@
                &&& after.listeners@.last().scope is Some
                &&& after.listeners@.last().scope->0@ == seq!['%'] + decimal(self.xid as nat)
            }),
    {
        let mut engine = match reg.take(self.iid) {
            Some(e) => e,
            None => {
                assert(final(reg)@ =~= old(reg)@);
                return ;
            },
        };
        let scope = id_selector(self.xid);
        engine.add_listener(event, Some(scope.as_str()), handler);
        reg.put(engine);
    }

    /// The value of the attribute `name` for the element: its own, or else
    /// that of its nearest ancestor that has one.
    pub fn attribute(&self, reg: &Registry, name: &str) -> (value: Option<serde_json::Value>)
        requires
            reg.wf(),
        ensures
            exists|path: Seq<u64>|
                is_root_path(reg.tree(self.iid), self.xid, path) && value == first_value(
                    reg.tree(self.iid),
                    seq![self.xid] + path,
                    name@,
                ),
    {
        match reg.engine(self.iid) {
            Some(e) => {
                let value = e.tree.attribute(self.xid, name);
                value
            },
            None => {
                proof {
                    let m = reg.tree(self.iid);
                    let none = Seq::<u64>::empty();
                    lemma_no_value(m, seq![self.xid] + none, name@);
                    assert(is_root_path(m, self.xid, none) && None::<serde_json::Value> == first_value(
                        m,
                        seq![self.xid] + none,
                        name@,
                    ));
                }
                None
            },
        }
    }

    /// The attributes of the element.
    pub fn attributes(&self, reg: &Registry) -> (attributes: Vec<Attr>)
        ensures
            attributes@.map_values(|a: Attr| a@) == (if reg.tree(self.iid).dom().contains(self.xid) {
                reg.tree(self.iid)[self.xid].attributes
            } else {
                Seq::empty()
            }),
    {
        match reg.engine(self.iid) {
            Some(e) => e.tree.attributes(self.xid),
            None => {
                let attributes: Vec<Attr> = Vec::new();
                attributes
            },
        }
    }

    /// Gives the attribute `name` of the element the `value` and returns the
    /// one it had.
    pub fn set_attribute(&self, reg: &mut Registry, name: &str, value: serde_json::Value) -> (prev: Option<
        serde_json::Value,
    >)
        requires
            old(reg).wf(),
        ensures
            routed(*old(reg), *final(reg), self.iid),
            old(reg)@.dom().contains(self.iid) ==> same_but_tree(old(reg)@[self.iid], final(reg)@[self.iid]),
            if old(reg).tree(self.iid).dom().contains(self.xid) {
                let before = old(reg).tree(self.iid);
                prev == attr_value(before[self.xid].attributes, name@) && final(reg).tree(self.iid) == before.insert(
                    self.xid,
                    NodeView { attributes: attr_set(before[self.xid].attributes, name@, value), ..before[self.xid] },
                )
            } else {
                prev is None && final(reg).tree(self.iid) == old(reg).tree(self.iid)
            },
    {
        let mut engine = match reg.take(self.iid) {
            Some(e) => e,
            None => {
                assert(final(reg)@ =~= old(reg)@);
                return None;
            },
        };
        let prev = engine.tree.set_attribute(self.xid, name, value);
        reg.put(engine);
        prev
    }

    /// Takes the attribute `name` from the element and returns the value it
    /// had.
    pub fn remove_attribute(&self, reg: &mut Registry, name: &str) -> (prev: Option<serde_json::Value>)
        requires
            old(reg).wf(),
        ensures
            routed(*old(reg), *final(reg), self.iid),
            old(reg)@.dom().contains(self.iid) ==> same_but_tree(old(reg)@[self.iid], final(reg)@[self.iid]),
            if old(reg).tree(self.iid).dom().contains(self.xid) {
                let before = old(reg).tree(self.iid);
                prev == attr_value(before[self.xid].attributes, name@) && final(reg).tree(self.iid) == before.insert(
                    self.xid,
                    NodeView { attributes: attr_removed(before[self.xid].attributes, name@), ..before[self.xid] },
                )
            } else {
                prev is None && final(reg).tree(self.iid) == old(reg).tree(self.iid)
            },
    {
        let mut engine = match reg.take(self.iid) {
            Some(e) => e,
            None => {
                assert(final(reg)@ =~= old(reg)@);
                return None;
            },
        };
        let prev = engine.tree.remove_attribute(self.xid, name);
        reg.put(engine);
        prev
    }

    /// The text of the element, if it has one.
    pub fn text(&self, reg: &Registry) -> (text: Option<String>)
        ensures
            opt_chars(text) == (if reg.tree(self.iid).dom().contains(self.xid) {
                reg.tree(self.iid)[self.xid].text
            } else {
                None
            }),
    {
        match reg.engine(self.iid) {
            Some(e) => e.tree.text(self.xid),
            None => None,
        }
    }

    /// Gives the element the text and returns the one it had.
    pub fn set_text(&self, reg: &mut Registry, text: &str) -> (prev: Option<String>)
        requires
            old(reg).wf(),
        ensures
            routed(*old(reg), *final(reg), self.iid),
            old(reg)@.dom().contains(self.iid) ==> same_but_tree(old(reg)@[self.iid], final(reg)@[self.iid]),
            if old(reg).tree(self.iid).dom().contains(self.xid) {
                let before = old(reg).tree(self.iid);
                opt_chars(prev) == before[self.xid].text && final(reg).tree(self.iid) == before.insert(
                    self.xid,
                    NodeView { text: Some(text@), ..before[self.xid] },
                )
            } else {
                prev is None && final(reg).tree(self.iid) == old(reg).tree(self.iid)
            },
    {
        let mut engine = match reg.take(self.iid) {
            Some(e) => e,
            None => {
                assert(final(reg)@ =~= old(reg)@);
                return None;
            },
        };
        let prev = engine.tree.set_text(self.xid, text.to_owned());
        reg.put(engine);
        prev
    }

    /// The tag of the element; empty where it does not exist.
    pub fn tag(&self, reg: &Registry) -> (tag: String)
        ensures
            tag@ == (if reg.tree(self.iid).dom().contains(self.xid) {
                reg.tree(self.iid)[self.xid].tag
            } else {
                Seq::empty()
            }),
    {
        match reg.engine(self.iid) {
            Some(e) => e.tree.tag(self.xid),
            None => String::new(),
        }
    }

    /// The `id` of the element, if it has one.
    pub fn id(&self, reg: &Registry) -> (id: Option<String>)
        ensures
            opt_chars(id) == (if reg.tree(self.iid).dom().contains(self.xid) {
                reg.tree(self.iid)[self.xid].id
            } else {
                None
            }),
    {
        match reg.engine(self.iid) {
            Some(e) => e.tree.id(self.xid),
            None => None,
        }
    }

    /// Gives the element the `id` and returns the one it had.
    pub fn set_id(&self, reg: &mut Registry, id: &str) -> (prev: Option<String>)
        requires
            old(reg).wf(),
        ensures
            routed(*old(reg), *final(reg), self.iid),
            old(reg)@.dom().contains(self.iid) ==> same_but_tree(old(reg)@[self.iid], final(reg)@[self.iid]),
            if old(reg).tree(self.iid).dom().contains(self.xid) {
                let before = old(reg).tree(self.iid);
                opt_chars(prev) == before[self.xid].id && final(reg).tree(self.iid) == before.insert(
                    self.xid,
                    NodeView { id: Some(id@), ..before[self.xid] },
                )
            } else {
                prev is None && final(reg).tree(self.iid) == old(reg).tree(self.iid)
            },
    {
        let mut engine = match reg.take(self.iid) {
            Some(e) => e,
            None => {
                assert(final(reg)@ =~= old(reg)@);
                return None;
            },
        };
        let prev = engine.tree.set_id(self.xid, id.to_owned());
        reg.put(engine);
        prev
    }

    /// The class names of the element.
    pub fn classes(&self, reg: &Registry) -> (classes: Vec<String>)
        ensures
            classes@.map_values(|s: String| s@) == (if reg.tree(self.iid).dom().contains(self.xid) {
                reg.tree(self.iid)[self.xid].classes
            } else {
                Seq::empty()
            }),
    {
        match reg.engine(self.iid) {
            Some(e) => e.tree.classes(self.xid),
            None => {
                let classes: Vec<String> = Vec::new();
                classes
            },
        }
    }

    /// The nearest ancestor of the element that the selectors of `selector`
    /// find.
    pub fn closest_ancestor(&self, reg: &Registry, selector: &str) -> (el: Option<ElementX>)
        requires
            reg.wf(),
        ensures
            exists|path: Seq<u64>|
                is_root_path(reg.tree(self.iid), self.xid, path) && el == handle(
                    first_in(path, selected(reg.tree(self.iid), selector@)),
                    self.iid,
                ),
    {
        match reg.engine(self.iid) {
            Some(e) => wrap_one(e.tree.closest_ancestor(self.xid, selector), self.iid),
            None => {
                assert(is_root_path(reg.tree(self.iid), self.xid, Seq::empty()) && None::<ElementX> == handle(
                    first_in(Seq::empty(), selected(reg.tree(self.iid), selector@)),
                    self.iid,
                ));
                None
            },
        }
    }

    /// Whether the selectors of `selector` find the element.
    pub fn matches(&self, reg: &Registry, selector: &str) -> (b: bool)
        requires
            reg.wf(),
        ensures
            b == selected(reg.tree(self.iid), selector@).contains(self.xid),
    {
        match reg.engine(self.iid) {
            Some(e) => e.tree.matches(self.xid, selector),
            None => {
                proof {
                    crate::matching::lemma_nothing_in_nothing(selector@);
                }
                false
            },
        }
    }

    /// The raw style record of the element, if it has one.
    pub fn style(&self, reg: &Registry) -> (style: Option<serde_json::Value>)
        ensures
            style == (if reg.tree(self.iid).dom().contains(self.xid) {
                reg.tree(self.iid)[self.xid].style
            } else {
                None
            }),
    {
        match reg.engine(self.iid) {
            Some(e) => e.tree.style(self.xid),
            None => None,
        }
    }

    /// Gives the element the raw style record and returns the one it had.
    pub fn set_style(&self, reg: &mut Registry, style: serde_json::Value) -> (prev: Option<serde_json::Value>)
        requires
            old(reg).wf(),
        ensures
            routed(*old(reg), *final(reg), self.iid),
            old(reg)@.dom().contains(self.iid) ==> same_but_tree(old(reg)@[self.iid], final(reg)@[self.iid]),
            if old(reg).tree(self.iid).dom().contains(self.xid) {
                let before = old(reg).tree(self.iid);
                prev == before[self.xid].style && final(reg).tree(self.iid) == before.insert(
                    self.xid,
                    NodeView { style: Some(style), ..before[self.xid] },
                )
            } else {
                prev is None && final(reg).tree(self.iid) == old(reg).tree(self.iid)
            },
    {
        let mut engine = match reg.take(self.iid) {
            Some(e) => e,
            None => {
                assert(final(reg)@ =~= old(reg)@);
                return None;
            },
        };
        let prev = engine.tree.set_style(self.xid, style);
        reg.put(engine);
        prev
    }

    /// Removes the element and returns its children, which become roots.
    pub fn destroy(self, reg: &mut Registry) -> (orphans: Vec<ElementX>)
        requires
            old(reg).wf(),
        ensures
            routed(*old(reg), *final(reg), self.iid),
            orphans@ == handles(children_in(old(reg).tree(self.iid), self.xid), self.iid),
            final(reg).tree(self.iid) == destroyed(old(reg).tree(self.iid), self.xid),
            old(reg)@.dom().contains(self.iid) ==> final(reg)@[self.iid].tree.free_ids() == (if old(reg).tree(
                self.iid,
            ).dom().contains(self.xid) {
                old(reg)@[self.iid].tree.free_ids().push(self.xid)
            } else {
                old(reg)@[self.iid].tree.free_ids()
            }) && final(reg)@[self.iid].tree.high_water() == old(reg)@[self.iid].tree.high_water(),
            old(reg)@.dom().contains(self.iid) ==> ({
                let before = old(reg)@[self.iid];
                let after = final(reg)@[self.iid];
                &&& after.animations@ == before.animations@.filter(|b: crate::engine::Binding| b.xid != self.xid)
                &&& after.root == (if before.root == Some(self.xid) {
                    None
                } else {
                    before.root
                })
                &&& same_but_tree(Engine { animations: after.animations, root: after.root, ..before }, after)
            }),
    {
        let mut engine = match reg.take(self.iid) {
            Some(e) => e,
            None => {
                assert(final(reg)@ =~= old(reg)@);
                let orphans: Vec<ElementX> = Vec::new();
                return orphans;
            },
        };
        let orphans = engine.destroy(self.xid);
        reg.put(engine);
        wrap(&orphans, self.iid)
    }
}

} // verus!
