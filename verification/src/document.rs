//! Working with the document of one engine.

use vstd::prelude::*;
use crate::create::{adopted, blueprint, props_of};
use crate::engine::{after_input, hover_of, id_after_many, produced, Engine, Hit};
use crate::events::{ElementX, EventTy};
use crate::instance::{handle, ids_of, wrap, xids};
use crate::matching::selected;

verus! {

/// The element that rendering starts from, if one was set.
pub fn root(engine: &Engine) -> (el: Option<ElementX>)
    ensures
        el == handle(engine.root, engine.state.iid),
{
    match engine.root {
        Some(xid) => Some(ElementX { xid, iid: engine.state.iid }),
        None => None,
    }
}

/// The element that takes keyboard input.
pub fn active_element(engine: &Engine) -> (el: ElementX)
    ensures
        el == (ElementX { xid: engine.state.focused, iid: engine.state.iid }),
{
    engine.state.focused()
}

/// Creates the element that `tag` and `props` describe and makes each of
/// `children` its child, in order. `None` where no id is left.
pub fn create_element(engine: &mut Engine, tag: &str, props: Vec<(String, serde_json::Value)>, children: &Vec<
    ElementX,
>) -> (made: Option<ElementX>)
    requires
        old(engine).wf(),
    ensures
        final(engine).wf(),
        made == handle(old(engine).upcoming(), old(engine).state.iid),
        old(engine).ids_after(*final(engine), made is Some),
        match made {
            Some(el) => !old(engine).tree@.dom().contains(el.xid) && final(engine).tree@ == adopted(
                old(engine).tree@.insert(el.xid, blueprint(tag@, props_of(props@),
                    final(engine).tree@[el.xid].layout_id)),
                el.xid,
                ids_of(children@),
            ),
            None => final(engine).tree@ == old(engine).tree@,
        },
        final(engine).state == old(engine).state,
        final(engine).root == old(engine).root,
        final(engine).listeners == old(engine).listeners,
        final(engine).queue == old(engine).queue,
        final(engine).draining == old(engine).draining,
        final(engine).passes == old(engine).passes,
        final(engine).halted == old(engine).halted,
        final(engine).next_event == old(engine).next_event,
        final(engine).animations == old(engine).animations,
{
    let ids = xids(children);
    match engine.create_element(tag, props, &ids) {
        Some(xid) => Some(ElementX { xid, iid: engine.state.iid }),
        None => None,
    }
}

/// Takes one raw input of kind `ty` from the element `src`: updates the
/// interaction state and queues the events that the input gives. `hits`
/// names the elements that the pointer is over.
pub fn trigger(engine: &mut Engine, ty: EventTy, src: ElementX, extra: serde_json::Value, timestamp: u128, hits: &Vec<
    Hit,
>)
    ensures
        final(engine).state == after_input(old(engine).state, ty, hover_of(old(engine).tree@, hits@)),
        final(engine).queue@ == old(engine).queue@ + produced(
            old(engine).state,
            ty,
            src.xid,
            extra,
            timestamp,
            hover_of(old(engine).tree@, hits@),
            old(engine).next_event,
        ),
        final(engine).next_event == id_after_many(
            old(engine).next_event,
            produced(
                old(engine).state,
                ty,
                src.xid,
                extra,
                timestamp,
                hover_of(old(engine).tree@, hits@),
                old(engine).next_event,
            ).len(),
        ),
        final(engine).tree == old(engine).tree,
        final(engine).root == old(engine).root,
        final(engine).listeners == old(engine).listeners,
        final(engine).draining == old(engine).draining,
        final(engine).passes == old(engine).passes,
        final(engine).halted == old(engine).halted,
        final(engine).animations == old(engine).animations,
{
    engine.emit(ty, src.xid, extra, timestamp, hits);
}

/// The elements that the selectors of `selector` find, each once.
pub fn select(engine: &Engine, selector: &str) -> (found: Vec<ElementX>)
    requires
        engine.wf(),
    ensures
        found@.no_duplicates(),
        forall|el: ElementX| #[trigger]
            found@.contains(el) <==> el.iid == engine.state.iid && selected(engine.tree@, selector@).contains(el.xid),
{
    let ids = engine.tree.select(selector);
    let found = wrap(&ids, engine.state.iid);
    proof {
        assert forall|el: ElementX| #[trigger] found@.contains(el) <==> el.iid == engine.state.iid && selected(
            engine.tree@,
            selector@,
        ).contains(el.xid) by {
            if el.iid == engine.state.iid && selected(engine.tree@, selector@).contains(el.xid) {
                let i = choose|i: int| 0 <= i < ids@.len() && ids@[i] == el.xid;
                assert(found@[i] == el);
            }
        }
    }
    found
}

/// One of the elements that the selectors of `selector` find; `None` where
/// they find nothing.
pub fn select_one(engine: &Engine, selector: &str) -> (found: Option<ElementX>)
    requires
        engine.wf(),
    ensures
        match found {
            Some(el) => el.iid == engine.state.iid && selected(engine.tree@, selector@).contains(el.xid),
            None => forall|x: u64| !selected(engine.tree@, selector@).contains(x),
        },
{
    let all = select(engine, selector);
    if all.len() > 0 {
        assert(all@.contains(all@[0]));
        Some(all[0])
    } else {
        assert forall|x: u64| !selected(engine.tree@, selector@).contains(x) by {
            if selected(engine.tree@, selector@).contains(x) {
                assert(all@.contains(ElementX { xid: x, iid: engine.state.iid }));
            }
        }
        None
    }
}

} // verus!
