//! The instance registry: the engines of all document instances, each under
//! its own id, and the routing of every operation to the engine it is for.

use vstd::prelude::*;
use std::collections::HashMap;
use crate::create::{adopted, blueprint, props_of};
use crate::engine::Engine;
use crate::events::ElementX;
use crate::matching::selected;
use crate::node::NodeView;

verus! {

broadcast use vstd::std_specs::hash::group_hash_axioms;

/// The id of a document instance.
pub type InstanceId = u64;

/// A handle on a document instance.
#[derive(Copy, Clone, Debug, PartialEq, Eq, Structural)]
pub struct InstanceX(pub u64);

/// The engines of all document instances.
pub struct Registry {
    pub engines: HashMap<u64, Engine>,
}

impl View for Registry {
    type V = Map<u64, Engine>;

    open spec fn view(&self) -> Map<u64, Engine> {
        self.engines@
    }
}

/// Handles on the elements `ids` of the instance `iid`, in order.
pub open spec fn handles(ids: Seq<u64>, iid: u64) -> Seq<ElementX> {
    ids.map_values(|xid: u64| ElementX { xid, iid })
}

/// A handle on the element `id` of the instance `iid`, if there is one.
pub open spec fn handle(id: Option<u64>, iid: u64) -> Option<ElementX> {
    match id {
        Some(xid) => Some(ElementX { xid, iid }),
        None => None,
    }
}

/// Whether `new` is `old` with nothing changed but the engine of `iid`.
pub open spec fn routed(old: Registry, new: Registry, iid: u64) -> bool {
    &&& new.wf()
    &&& new@.dom() == old@.dom()
    &&& forall|j: u64| j != iid && old@.dom().contains(j) ==> #[trigger] new@[j] == old@[j]
}

/// Whether the engine `new` is `old` with nothing changed but the tree.
pub open spec fn same_but_tree(old: Engine, new: Engine) -> bool {
    &&& new.state == old.state
    &&& new.root == old.root
    &&& new.listeners == old.listeners
    &&& new.queue == old.queue
    &&& new.draining == old.draining
    &&& new.passes == old.passes
    &&& new.halted == old.halted
    &&& new.next_event == old.next_event
    &&& new.animations == old.animations
}

impl Registry {
    /// Every engine keeps its invariant and knows its own id.
    pub open spec fn wf(&self) -> bool {
        forall|iid: u64| #[trigger] self@.dom().contains(iid) ==> self@[iid].wf() && self@[iid].state.iid == iid
    }

    /// The element tree of the instance `iid`; empty where there is no such
    /// instance.
    pub open spec fn tree(&self, iid: u64) -> Map<u64, NodeView> {
        if self@.dom().contains(iid) {
            self@[iid].tree@
        } else {
            Map::empty()
        }
    }

    /// A registry without instances.
    pub fn new() -> (r: Registry)
        ensures
            r.wf(),
            r@.dom() == Set::<u64>::empty(),
    {
        let r = Registry { engines: HashMap::new() };
        r
    }

    /// Starts the instance `iid` afresh, with a window of the given size and
    /// nothing in it.
    pub fn new_instance(&mut self, iid: u64, width: u32, height: u32) -> (made: InstanceX)
        requires
            old(self).wf(),
        ensures
            final(self).wf(),
            made == InstanceX(iid),
            final(self)@.dom() == old(self)@.dom().insert(iid),
            final(self).tree(iid).dom() == Set::<u64>::empty(),
            final(self)@[iid].tree.free_ids().len() == 0,
            final(self)@[iid].tree.high_water() == 0,
            final(self)@[iid].is_new_but_tree(iid, width, height),
            forall|j: u64| j != iid && old(self)@.dom().contains(j) ==> #[trigger] final(self)@[j] == old(self)@[j],
    {
        self.engines.insert(iid, Engine::new(iid, width, height));
        InstanceX(iid)
    }

    /// Whether there is an instance `iid`.
    pub fn has(&self, iid: u64) -> (b: bool)
        ensures
            b == self@.dom().contains(iid),
    {
        self.engines.contains_key(&iid)
    }

    /// The engine of the instance `iid`, if there is one.
    pub fn engine(&self, iid: u64) -> (found: Option<&Engine>)
        ensures
            match found {
                Some(e) => self@.dom().contains(iid) && *e == self@[iid],
                None => !self@.dom().contains(iid),
            },
    {
        self.engines.get(&iid)
    }

    /// Takes the engine of the instance `iid` out of the registry.
    pub fn take(&mut self, iid: u64) -> (found: Option<Engine>)
        ensures
            match found {
                Some(e) => old(self)@.dom().contains(iid) && e == old(self)@[iid],
                None => !old(self)@.dom().contains(iid),
            },
            final(self)@ == old(self)@.remove(iid),
    {
        self.engines.remove(&iid)
    }

    /// Puts `engine` into the registry, as the engine of the instance it
    /// names.
    pub fn put(&mut self, engine: Engine)
        ensures
            final(self)@ == old(self)@.insert(engine.state.iid, engine),
    {
        let iid = engine.state.iid;
        self.engines.insert(iid, engine);
    }
}

impl InstanceX {
    /// The id of the instance.
    pub fn id(&self) -> (iid: u64)
        ensures
            iid == self.0,
    {
        self.0
    }

    /// The element that rendering starts from, if one was set.
    pub fn root(&self, reg: &Registry) -> (el: Option<ElementX>)
        ensures
            el == (if reg@.dom().contains(self.0) {
                handle(reg@[self.0].root, self.0)
            } else {
                None
            }),
    {
        match reg.engine(self.0) {
            Some(e) => match e.root {
                Some(xid) => Some(ElementX { xid, iid: self.0 }),
                None => None,
            },
            None => None,
        }
    }

    /// Creates the element that `tag` and `props` describe and makes each of
    /// `children` its child, in order. The instance is started where it was
    /// not there. `None` where the instance has no id left.
    pub fn create_element(
        &self,
        reg: &mut Registry,
        tag: &str,
        props: Vec<(String, serde_json::Value)>,
        children: &Vec<ElementX>,
    ) -> (made: Option<ElementX>)
        requires
            old(reg).wf(),
        ensures
            final(reg).wf(),
            final(reg)@.dom() == old(reg)@.dom().insert(self.0),
            forall|j: u64| j != self.0 && old(reg)@.dom().contains(j) ==> #[trigger] final(reg)@[j] == old(reg)@[j],
            if old(reg)@.dom().contains(self.0) {
                same_but_tree(old(reg)@[self.0], final(reg)@[self.0])
            } else {
                final(reg)@[self.0].is_new_but_tree(self.0, 0, 0)
            },
            made == handle(
                if old(reg)@.dom().contains(self.0) {
                    old(reg)@[self.0].upcoming()
                } else {
                    Some(0u64)
                },
                self.0,
            ),
            old(reg)@.dom().contains(self.0) ==> old(reg)@[self.0].ids_after(final(reg)@[self.0], made is Some),
            !old(reg)@.dom().contains(self.0) ==> final(reg)@[self.0].tree.free_ids().len() == 0,
            !old(reg)@.dom().contains(self.0) ==> final(reg)@[self.0].tree.high_water() == 1,
            match made {
                Some(el) => el.iid == self.0 && !old(reg).tree(self.0).dom().contains(el.xid) && final(reg).tree(
                    self.0,
                ) == adopted(
                    old(reg).tree(self.0).insert(
                        el.xid,
                        blueprint(tag@, props_of(props@), final(reg).tree(self.0)[el.xid].layout_id),
                    ),
                    el.xid,
                    ids_of(children@),
                ),
                None => final(reg).tree(self.0) == old(reg).tree(self.0),
            },
    {
        let mut engine = match reg.take(self.0) {
            Some(e) => e,
            None => Engine::new(self.0, 0, 0),
        };
        let ghost before = engine.tree@;
        proof {
            assert(before =~= old(reg).tree(self.0));
            engine.tree.law_picked(engine.upcoming_place());
        }
        let ids = xids(children);
        let made = engine.create_element(tag, props, &ids);
        reg.put(engine);
        match made {
            Some(xid) => Some(ElementX { xid, iid: self.0 }),
            None => None,
        }
    }

    /// The element that takes keyboard input; element 0 of the instance
    /// where nothing was focused yet.
    pub fn active_element(&self, reg: &Registry) -> (el: ElementX)
        ensures
            el == (ElementX {
                xid: if reg@.dom().contains(self.0) {
                    reg@[self.0].state.focused
                } else {
                    0
                },
                iid: self.0,
            }),
    {
        match reg.engine(self.0) {
            Some(e) => ElementX { xid: e.state.focused, iid: self.0 },
            None => ElementX { xid: 0, iid: self.0 },
        }
    }

    /// The elements that the selectors of `selector` find, each once.
    pub fn select(&self, reg: &Registry, selector: &str) -> (found: Vec<ElementX>)
        requires
            reg.wf(),
        ensures
            found@.no_duplicates(),
            forall|el: ElementX| #[trigger]
                found@.contains(el) <==> el.iid == self.0 && selected(reg.tree(self.0), selector@).contains(el.xid),
    {
        match reg.engine(self.0) {
            Some(e) => {
                let ids = e.tree.select(selector);
                let found = wrap(&ids, self.0);
                proof {
                    assert forall|el: ElementX| #[trigger] found@.contains(el) <==> el.iid == self.0 && selected(
                        reg.tree(self.0),
                        selector@,
                    ).contains(el.xid) by {
                        if el.iid == self.0 && selected(reg.tree(self.0), selector@).contains(el.xid) {
                            let i = choose|i: int| 0 <= i < ids@.len() && ids@[i] == el.xid;
                            assert(found@[i] == el);
                        }
                    }
                }
                found
            },
            None => {
                let found: Vec<ElementX> = Vec::new();
                proof {
                    crate::matching::lemma_nothing_in_nothing(selector@);
                }
                found
            },
        }
    }

    /// One of the elements that the selectors of `selector` find; `None`
    /// where they find nothing.
    pub fn select_one(&self, reg: &Registry, selector: &str) -> (found: Option<ElementX>)
        requires
            reg.wf(),
        ensures
            match found {
                Some(el) => el.iid == self.0 && selected(reg.tree(self.0), selector@).contains(el.xid),
                None => forall|x: u64| !selected(reg.tree(self.0), selector@).contains(x),
            },
    {
        let all = self.select(reg, selector);
        if all.len() > 0 {
            assert(all@.contains(all@[0]));
            Some(all[0])
        } else {
            assert forall|x: u64| !selected(reg.tree(self.0), selector@).contains(x) by {
                if selected(reg.tree(self.0), selector@).contains(x) {
                    assert(all@.contains(ElementX { xid: x, iid: self.0 }));
                }
            }
            None
        }
    }

    /// Ends the instance: its engine leaves the registry, with all its
    /// elements, listeners and queued events.
    pub fn destroy(&self, reg: &mut Registry)
        requires
            old(reg).wf(),
        ensures
            final(reg).wf(),
            final(reg)@ == old(reg)@.remove(self.0),
    {
        reg.take(self.0);
    }
}

/// The ids of a list of handles, in order.
pub open spec fn ids_of(els: Seq<ElementX>) -> Seq<u64> {
    els.map_values(|el: ElementX| el.xid)
}

/// The ids of a list of handles, in order.
pub fn xids(els: &Vec<ElementX>) -> (ids: Vec<u64>)
    ensures
        ids@ == ids_of(els@),
{
    let mut ids: Vec<u64> = Vec::new();
    let mut i: usize = 0;
    while i < els.len()
        invariant
            i <= els@.len(),
            ids@ == ids_of(els@.take(i as int)),
        decreases els@.len() - i,
    {
        ids.push(els[i].xid);
        i += 1;
    }
    ids
}

/// Handles on the elements `ids` of the instance `iid`, in order.
pub fn wrap(ids: &Vec<u64>, iid: u64) -> (els: Vec<ElementX>)
    ensures
        els@ == handles(ids@, iid),
        ids@.no_duplicates() ==> els@.no_duplicates(),
{
    let mut els: Vec<ElementX> = Vec::new();
    let mut i: usize = 0;
    while i < ids.len()
        invariant
            i <= ids@.len(),
            els@ == handles(ids@.take(i as int), iid),
        decreases ids@.len() - i,
    {
        els.push(ElementX { xid: ids[i], iid });
        i += 1;
    }
    els
}

} // verus!
