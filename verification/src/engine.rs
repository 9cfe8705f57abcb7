//! The engine of one document instance: its element tree, its interaction
//! state, its listeners and its event queue.
//!
//! Input is turned into events in two steps. `emit` takes one raw input,
//! updates the interaction state and puts the raw event and the events that
//! follow from it on the queue. `begin_drain` and `next_batch` hand the
//! queued events out, batch by batch, each with the handlers to call. The
//! caller runs the handlers; what they emit in turn is queued for the next
//! batch. Only the caller that `begin_drain` made the leader drains, so
//! handlers that emit never drain within a drain.

use vstd::prelude::*;
use std::collections::HashSet;
use crate::events::{ClickEvent, ElementX, Event, EventTy, FocusEvent, MouseEvent, State, full_name, kind_name};
use crate::matching::selected;
use crate::node::NodeView;
use crate::textops::{decimal, id_selector, same_text};
use crate::tree::{index_in, Tree};

verus! {

broadcast use vstd::std_specs::hash::group_hash_axioms;

/// An element that the pointer is over, with the height it is stacked at.
#[derive(Clone, Copy, Debug)]
pub struct Hit {
    pub xid: u64,
    /// Higher elements cover lower ones.
    pub z: i64,
}

/// A registration: the handler to call for an event, and where.
#[derive(Debug)]
pub struct Listener {
    /// The kind or the full name of the events to hear.
    pub event: String,
    /// The selector whose elements the listener hears events for; `None`
    /// for all elements.
    pub scope: Option<String>,
    pub handler: String,
}

/// An event to deliver, and the names of the handlers to call with it, in
/// the order of their registration.
#[derive(Debug)]
pub struct Delivery {
    pub event: Event,
    pub handlers: Vec<String>,
}

/// One step of draining the queue.
#[derive(Debug)]
pub enum Drain {
    /// The events that were queued, to deliver in this order.
    Batch(Vec<Delivery>),
    /// The queue was empty: draining is over.
    Done,
    /// Events kept coming for too many batches: draining was given up and
    /// the queue was emptied.
    Overflow,
}

/// How many batches one drain hands out before it gives up.
pub const MAX_PASSES: usize = 1024;

/// An animation in flight, bound to an element.
#[derive(Clone, Copy, Debug)]
pub struct Binding {
    pub xid: u64,
    pub animation: u64,
}

/// Whether a hit counts: its element is stored and not hidden.
pub open spec fn counts(m: Map<u64, NodeView>, hit: Hit) -> bool {
    m.dom().contains(hit.xid) && !m[hit.xid].hidden
}

/// The place of the topmost hit that counts: the highest, and among equally
/// high ones the last.
pub open spec fn topmost(m: Map<u64, NodeView>, hits: Seq<Hit>) -> Option<int>
    decreases hits.len(),
{
    if hits.len() == 0 {
        None
    } else {
        let below = topmost(m, hits.drop_last());
        if counts(m, hits.last()) && (below is None || hits[below->0].z <= hits.last().z) {
            Some(hits.len() - 1)
        } else {
            below
        }
    }
}

/// The element that the pointer hovers over: that of the topmost hit that
/// counts, or element 0 where no hit counts.
pub open spec fn hover_of(m: Map<u64, NodeView>, hits: Seq<Hit>) -> u64 {
    match topmost(m, hits) {
        Some(i) => hits[i].xid,
        None => 0,
    }
}

/// The topmost hit counts, no hit that counts is higher, and none as high
/// comes after it; there is none exactly where no hit counts.
pub proof fn law_topmost(m: Map<u64, NodeView>, hits: Seq<Hit>)
    ensures
        match topmost(m, hits) {
            Some(i) => 0 <= i < hits.len() && counts(m, hits[i]) && forall|j: int|
                0 <= j < hits.len() && counts(m, #[trigger] hits[j]) ==> hits[j].z < hits[i].z || (hits[j].z
                    == hits[i].z && j <= i),
            None => forall|j: int| 0 <= j < hits.len() ==> !counts(m, #[trigger] hits[j]),
        },
    decreases hits.len(),
{
    if hits.len() > 0 {
        let front = hits.drop_last();
        law_topmost(m, front);
        match topmost(m, hits) {
            Some(i) => {
                assert forall|j: int| 0 <= j < hits.len() && counts(m, #[trigger] hits[j]) implies hits[j].z
                    < hits[i].z || (hits[j].z == hits[i].z && j <= i) by {
                    if j < front.len() {
                        assert(front[j] == hits[j]);
                    }
                }
            },
            None => {
                assert forall|j: int| 0 <= j < hits.len() implies !counts(m, #[trigger] hits[j]) by {
                    if j < front.len() {
                        assert(front[j] == hits[j]);
                    }
                }
            },
        }
    }
}

/// The id after `id`; the ids start over after the last.
pub open spec fn id_after(id: u64) -> u64 {
    if id == u64::MAX {
        0
    } else {
        (id + 1) as u64
    }
}

/// The id after `id`.
pub fn next_id(id: u64) -> (next: u64)
    ensures
        next == id_after(id),
{
    if id == u64::MAX {
        0
    } else {
        id + 1
    }
}

/// The interaction state after an input. A mouse input moves the hover to
/// `hover`, and a move also moves the pointer. A click moves the focus to
/// the hovered element. No other input changes the state.
pub open spec fn after_input(state: State, ty: EventTy, hover: u64) -> State {
    match ty {
        EventTy::Mouse(MouseEvent::Move(x, y)) => State { hovered: hover, mouse_x: x, mouse_y: y, ..state },
        EventTy::Mouse(_) => State { hovered: hover, ..state },
        EventTy::Click(_) => State { focused: state.hovered, ..state },
        _ => state,
    }
}

/// The events that an input puts on the queue, in order.
///
/// A mouse input gives the raw event, aimed at the element under the
/// pointer; where that element changed, a leave for the old and an enter for
/// the new one follow. A click gives the raw event, aimed at the hovered
/// element; where the focus changed, a focus-out for the old and a focus-in
/// for the new one follow. Key, change, custom and any inputs give the raw
/// event alone. All other inputs give nothing.
pub open spec fn produced(
    state: State,
    ty: EventTy,
    src: u64,
    extra: serde_json::Value,
    timestamp: u128,
    hover: u64,
    first: u64,
) -> Seq<Event> {
    let after = after_input(state, ty, hover);
    let from = ElementX { xid: src, iid: state.iid };
    match ty {
        EventTy::Mouse(_) => {
            let new = ElementX { xid: hover, iid: state.iid };
            let old = ElementX { xid: state.hovered, iid: state.iid };
            let raw = Event { id: first, timestamp, ty, state: after, prev: state, target: new, src: new, extra };
            if hover != state.hovered {
                seq![
                    raw,
                    Event { id: id_after(first), ty: EventTy::Mouse(MouseEvent::Leave), target: old, src: old, ..raw },
                    Event {
                        id: id_after(id_after(first)),
                        ty: EventTy::Mouse(MouseEvent::Enter),
                        target: new,
                        src: new,
                        ..raw
                    },
                ]
            } else {
                seq![raw]
            }
        },
        EventTy::Click(_) => {
            let new = ElementX { xid: state.hovered, iid: state.iid };
            let old = ElementX { xid: state.focused, iid: state.iid };
            let raw = Event { id: first, timestamp, ty, state: after, prev: state, target: new, src: from, extra };
            if state.hovered != state.focused {
                seq![
                    raw,
                    Event { id: id_after(first), ty: EventTy::Focus(FocusEvent::Out), target: old, src: old, ..raw },
                    Event {
                        id: id_after(id_after(first)),
                        ty: EventTy::Focus(FocusEvent::In),
                        target: new,
                        src: from,
                        ..raw
                    },
                ]
            } else {
                seq![raw]
            }
        },
        EventTy::Key(_) | EventTy::Change(_) | EventTy::Custom(_) | EventTy::Any(_) => seq![
            Event { id: first, timestamp, ty, state: after, prev: state, target: from, src: from, extra },
        ],
        _ => Seq::empty(),
    }
}

/// The id that the next event gets after `count` events from `first` on.
pub open spec fn id_after_many(first: u64, count: nat) -> u64
    decreases count,
{
    if count == 0 {
        first
    } else {
        id_after(id_after_many(first, (count - 1) as nat))
    }
}

/// A mouse input that moves the hover gives the raw event, one leave aimed
/// at the old element and one enter aimed at the new one, in this order; one
/// that leaves the hover where it is gives the raw event alone.
pub proof fn law_hover_transition(
    state: State,
    e: MouseEvent,
    src: u64,
    extra: serde_json::Value,
    timestamp: u128,
    hover: u64,
    first: u64,
    out: Seq<Event>,
)
    requires
        out == produced(state, EventTy::Mouse(e), src, extra, timestamp, hover, first),
    ensures
        out[0].ty == EventTy::Mouse(e),
        out[0].target.xid == hover,
        after_input(state, EventTy::Mouse(e), hover).hovered == hover,
        hover == state.hovered ==> out.len() == 1,
        hover != state.hovered ==> out.len() == 3,
        hover != state.hovered ==> out[1].ty == EventTy::Mouse(MouseEvent::Leave),
        hover != state.hovered ==> out[1].target.xid == state.hovered,
        hover != state.hovered ==> out[2].ty == EventTy::Mouse(MouseEvent::Enter),
        hover != state.hovered ==> out[2].target.xid == hover,
{
}

/// A click that moves the focus gives the raw event, one focus-out aimed at
/// the old element and one focus-in aimed at the new one, in this order; one
/// that leaves the focus where it is gives the raw event alone.
pub proof fn law_focus_transition(
    state: State,
    e: ClickEvent,
    src: u64,
    extra: serde_json::Value,
    timestamp: u128,
    hover: u64,
    first: u64,
    out: Seq<Event>,
)
    requires
        out == produced(state, EventTy::Click(e), src, extra, timestamp, hover, first),
    ensures
        out[0].ty == EventTy::Click(e),
        out[0].target.xid == state.hovered,
        after_input(state, EventTy::Click(e), hover).focused == state.hovered,
        state.hovered == state.focused ==> out.len() == 1,
        state.hovered != state.focused ==> out.len() == 3,
        state.hovered != state.focused ==> out[1].ty == EventTy::Focus(FocusEvent::Out),
        state.hovered != state.focused ==> out[1].target.xid == state.focused,
        state.hovered != state.focused ==> out[2].ty == EventTy::Focus(FocusEvent::In),
        state.hovered != state.focused ==> out[2].target.xid == state.hovered,
{
}

/// Whether a listener hears an event: it is registered for the event's kind
/// or full name, and the event's target is among the elements of its scope.
pub open spec fn hears(m: Map<u64, NodeView>, l: Listener, e: Event) -> bool {
    (l.event@ == full_name(e.ty) || l.event@ == kind_name(e.ty)) && match l.scope {
        None => true,
        Some(text) => selected(m, text@).contains(e.target.xid),
    }
}

/// The names of the handlers to call with an event, in the order of their
/// registration.
pub open spec fn handlers_for(m: Map<u64, NodeView>, listeners: Seq<Listener>, e: Event) -> Seq<Seq<char>> {
    listeners.filter(|l: Listener| hears(m, l, e)).map_values(|l: Listener| l.handler@)
}

/// The names in a list of strings.
pub open spec fn names_of(v: Seq<String>) -> Seq<Seq<char>> {
    v.map_values(|s: String| s@)
}

/// The engine of one document instance.
pub struct Engine {
    pub state: State,
    pub tree: Tree,
    /// The element that rendering starts from.
    pub root: Option<u64>,
    pub listeners: Vec<Listener>,
    pub queue: Vec<Event>,
    /// Whether some caller is draining the queue.
    pub draining: bool,
    /// How many batches the running drain has handed out.
    pub passes: usize,
    /// The ids of the events whose delivery was halted.
    pub halted: HashSet<u64>,
    /// The id that the next event gets.
    pub next_event: u64,
    pub animations: Vec<Binding>,
}

impl Engine {
    /// The invariant of the engine: that of its tree.
    pub open spec fn wf(&self) -> bool {
        self.tree.wf()
    }

    /// Whether the engine is as new but for its tree: the state of a new
    /// instance `iid` with a window of the given size, no listeners, nothing
    /// queued, and no drain running.
    pub open spec fn is_new_but_tree(&self, iid: u64, width: u32, height: u32) -> bool {
        &&& self.state == (State {
            iid,
            mouse_x: 0,
            mouse_y: 0,
            hovered: 0,
            focused: 0,
            window_width: width,
            window_height: height,
            modifiers: 0,
        })
        &&& self.root is None
        &&& self.listeners@.len() == 0
        &&& self.queue@.len() == 0
        &&& !self.draining
        &&& self.passes == 0
        &&& self.halted@ == Set::<u64>::empty()
        &&& self.next_event == 0
        &&& self.animations@.len() == 0
    }

    /// An engine for the instance `iid` with a window of the given size: no
    /// elements, no listeners, nothing queued.
    pub fn new(iid: u64, width: u32, height: u32) -> (e: Engine)
        ensures
            e.wf(),
            e.tree@.dom() == Set::<u64>::empty(),
            e.tree.free_ids().len() == 0,
            e.tree.high_water() == 0,
            e.is_new_but_tree(iid, width, height),
    {
        Engine {
            state: State {
                iid,
                mouse_x: 0,
                mouse_y: 0,
                hovered: 0,
                focused: 0,
                window_width: width,
                window_height: height,
                modifiers: 0,
            },
            tree: Tree::new(),
            root: None,
            listeners: Vec::new(),
            queue: Vec::new(),
            draining: false,
            passes: 0,
            halted: HashSet::new(),
            next_event: 0,
            animations: Vec::new(),
        }
    }

    /// Whether the engine still names the id `x` outside its tree: as the
    /// hovered or the focused element, or as the scope `%x` of a listener.
    pub open spec fn names(&self, x: u64) -> bool {
        ||| self.state.hovered == x
        ||| self.state.focused == x
        ||| exists|i: int|
            0 <= i < self.listeners@.len() && (#[trigger] self.listeners@[i]).scope is Some
                && self.listeners@[i].scope->0@ == seq!['%'] + decimal(x as nat)
    }

    /// The place of the released id to reuse next: the last of `free` that
    /// the engine does not name.
    pub open spec fn last_unnamed(&self, free: Seq<u64>) -> Option<usize>
        decreases free.len(),
    {
        if free.len() == 0 {
            None
        } else if !self.names(free.last()) {
            Some((free.len() - 1) as usize)
        } else {
            self.last_unnamed(free.drop_last())
        }
    }

    /// The place among the released ids that the next new element takes its
    /// id from; `None` where it takes an id that was never handed out.
    pub open spec fn upcoming_place(&self) -> Option<usize> {
        self.last_unnamed(self.tree.free_ids())
    }

    /// The id that the next new element gets: the id released last among
    /// those that the engine no longer names, or without one the least id
    /// that was never handed out. `None` where no id is left.
    pub open spec fn upcoming(&self) -> Option<u64> {
        self.tree.picked(self.upcoming_place())
    }

    /// What creating an element does to the ids: where one was made, its id
    /// left the released ids or the high-water mark rose by one; where none
    /// was made, nothing changed.
    pub open spec fn ids_after(&self, after: Engine, made: bool) -> bool {
        if made {
            &&& after.tree.free_ids() == self.tree.free_after(self.upcoming_place())
            &&& after.tree.high_water() == self.tree.high_water_after(self.upcoming_place())
        } else {
            &&& after.tree.free_ids() == self.tree.free_ids()
            &&& after.tree.high_water() == self.tree.high_water()
        }
    }

    /// Whether the engine still names the id `x` outside its tree.
    pub fn is_named(&self, x: u64) -> (b: bool)
        ensures
            b == self.names(x),
    {
        if self.state.hovered == x || self.state.focused == x {
            return true;
        }
        let scope = id_selector(x);
        let mut i: usize = 0;
        while i < self.listeners.len()
            invariant
                i <= self.listeners@.len(),
                scope@ == seq!['%'] + decimal(x as nat),
                forall|j: int|
                    0 <= j < i ==> !((#[trigger] self.listeners@[j]).scope is Some && self.listeners@[j].scope->0@
                        == scope@),
            decreases self.listeners@.len() - i,
        {
            match &self.listeners[i].scope {
                Some(text) => {
                    if same_text(text.as_str(), scope.as_str()) {
                        return true;
                    }
                },
                None => {},
            }
            i += 1;
        }
        false
    }

    /// The place among the released ids that the next new element takes its
    /// id from.
    pub fn pick(&self) -> (place: Option<usize>)
        ensures
            place == self.upcoming_place(),
            match place {
                Some(i) => i < self.tree.free_ids().len() && !self.names(self.tree.free_ids()[i as int]),
                None => true,
            },
    {
        let mut i: usize = self.tree.free_count();
        let ghost free = self.tree.free_ids();
        proof {
            assert(free.take(i as int) =~= free);
        }
        while i > 0
            invariant
                i <= free.len(),
                free == self.tree.free_ids(),
                self.last_unnamed(free) == self.last_unnamed(free.take(i as int)),
            decreases i,
        {
            proof {
                assert(free.take(i as int).drop_last() =~= free.take(i - 1));
                assert(free.take(i as int).last() == free[i - 1]);
            }
            if !self.is_named(self.tree.free_at(i - 1)) {
                return Some(i - 1);
            }
            i -= 1;
        }
        None
    }

    /// The id that the next new element gets; `None` where no id is left.
    pub fn xid(&self) -> (next: Option<u64>)
        requires
            self.wf(),
        ensures
            next == self.upcoming(),
    {
        proof {
            self.tree.law_picked(self.upcoming_place());
            self.tree.law_ids_unique();
        }
        match self.pick() {
            Some(i) => Some(self.tree.free_at(i)),
            None => {
                if self.tree.free_count() == 0 {
                    self.tree.next_id()
                } else {
                    self.tree.fresh_id()
                }
            },
        }
    }

    /// A released id that the engine still names, as the hovered or focused
    /// element or as the scope of a listener, is never the id of the next
    /// new element; nor is the id of a stored element, nor an id that a
    /// stored element names as its parent or child.
    pub proof fn law_ids_unique(&self)
        requires
            self.wf(),
        ensures
            forall|x: u64| self.tree.free_ids().contains(x) && self.names(x) ==> self.upcoming() != Some(x),
            forall|x: u64| self.tree@.dom().contains(x) ==> self.upcoming() != Some(x),
            forall|y: u64|
                self.upcoming() is Some && self.tree@.dom().contains(y) ==> (#[trigger] self.tree@[y]).parent
                    != self.upcoming() && !self.tree@[y].children.contains(self.upcoming()->0),
    {
        let place = self.upcoming_place();
        let free = self.tree.free_ids();
        self.tree.law_picked(place);
        self.tree.law_ids_unique();
        self.tree.law_links_agree();
        self.lemma_last_unnamed(free);
        if self.upcoming() is Some {
            let x = self.upcoming()->0;
            if place is Some {
                assert(free.contains(free[place->0 as int]));
            }
            assert(!self.tree@.dom().contains(x));
            assert forall|y: u64| self.tree@.dom().contains(y) implies (#[trigger] self.tree@[y]).parent != Some(x)
                && !self.tree@[y].children.contains(x) by {
                if self.tree@[y].children.contains(x) {
                    let i = choose|i: int| 0 <= i < self.tree@[y].children.len() && self.tree@[y].children[i] == x;
                    assert(self.tree@.dom().contains(self.tree@[y].children[i]));
                }
            }
            assert forall|z: u64| free.contains(z) && self.names(z) implies self.upcoming() != Some(z) by {
                if place is None {
                    let i = choose|i: int| 0 <= i < free.len() && free[i] == z;
                    assert(free[i] < self.tree.high_water());
                }
            }
        }
    }

    /// The place that `last_unnamed` gives lies in the list, and the id
    /// there is not named.
    pub proof fn lemma_last_unnamed(&self, free: Seq<u64>)
        requires
            free.len() <= usize::MAX,
        ensures
            match self.last_unnamed(free) {
                Some(i) => i < free.len() && !self.names(free[i as int]),
                None => true,
            },
        decreases free.len(),
    {
        if free.len() > 0 && self.names(free.last()) {
            self.lemma_last_unnamed(free.drop_last());
        }
    }

    /// The elements that the selectors of `text` find, each once.
    pub fn select(&self, text: &str) -> (found: Vec<u64>)
        requires
            self.wf(),
        ensures
            found@.no_duplicates(),
            found@.to_set() == selected(self.tree@, text@),
    {
        self.tree.select(text)
    }

    /// Makes `root` the element that rendering starts from and computes the
    /// layout below it, for the room `space`. An id that is not stored
    /// changes nothing.
    pub fn begin_render(&mut self, root: u64, space: taffy::geometry::Size<taffy::style::AvailableSpace>) -> (ready:
        bool)
        requires
            old(self).wf(),
        ensures
            final(self).wf(),
            ready == old(self).tree@.dom().contains(root),
            final(self).root == (if ready {
                Some(root)
            } else {
                old(self).root
            }),
            final(self).tree@ == old(self).tree@,
            final(self).tree.free_ids() == old(self).tree.free_ids(),
            final(self).tree.high_water() == old(self).tree.high_water(),
            forall|x: u64|
                old(self).tree@.dom().contains(x) ==> #[trigger] final(self).tree.box_of(x) == (if ready {
                    old(self).tree.box_after(root, space, x)
                } else {
                    old(self).tree.box_of(x)
                }),
            final(self).state == old(self).state,
            final(self).listeners == old(self).listeners,
            final(self).queue == old(self).queue,
            final(self).draining == old(self).draining,
            final(self).passes == old(self).passes,
            final(self).halted == old(self).halted,
            final(self).next_event == old(self).next_event,
            final(self).animations == old(self).animations,
    {
        if !self.tree.contains(root) {
            return false;
        }
        self.root = Some(root);
        self.tree.compute_layout(root, space);
        true
    }

    /// The element that the pointer hovers over, given the elements it is
    /// over.
    pub fn resolve_hover(&self, hits: &Vec<Hit>) -> (x: u64)
        ensures
            x == hover_of(self.tree@, hits@),
    {
        let mut best: Option<usize> = None;
        let mut i: usize = 0;
        while i < hits.len()
            invariant
                i <= hits@.len(),
                match best {
                    Some(b) => b < i && topmost(self.tree@, hits@.take(i as int)) == Some(b as int),
                    None => topmost(self.tree@, hits@.take(i as int)) is None,
                },
            decreases hits@.len() - i,
        {
            proof {
                assert(hits@.take(i + 1).drop_last() =~= hits@.take(i as int));
            }
            let counts = match self.tree.node(hits[i].xid) {
                Some(node) => !node.hidden,
                None => false,
            };
            if counts {
                match best {
                    None => {
                        best = Some(i);
                    },
                    Some(b) => {
                        if hits[b].z <= hits[i].z {
                            best = Some(i);
                        }
                    },
                }
            }
            i += 1;
        }
        proof {
            assert(hits@.take(hits@.len() as int) =~= hits@);
        }
        match best {
            Some(b) => hits[b].xid,
            None => 0,
        }
    }

    /// Takes one raw input of kind `ty` from the element `src`: updates the
    /// interaction state and queues the events that the input gives. `hits`
    /// names the elements that the pointer is over; only mouse inputs read
    /// it.
    pub fn emit(&mut self, ty: EventTy, src: u64, extra: serde_json::Value, timestamp: u128, hits: &Vec<Hit>)
        ensures
            final(self).state == after_input(old(self).state, ty, hover_of(old(self).tree@, hits@)),
            final(self).queue@ == old(self).queue@ + produced(
                old(self).state,
                ty,
                src,
                extra,
                timestamp,
                hover_of(old(self).tree@, hits@),
                old(self).next_event,
            ),
            final(self).next_event == id_after_many(
                old(self).next_event,
                produced(
                    old(self).state,
                    ty,
                    src,
                    extra,
                    timestamp,
                    hover_of(old(self).tree@, hits@),
                    old(self).next_event,
                ).len(),
            ),
            final(self).tree == old(self).tree,
            final(self).root == old(self).root,
            final(self).listeners == old(self).listeners,
            final(self).draining == old(self).draining,
            final(self).passes == old(self).passes,
            final(self).halted == old(self).halted,
            final(self).animations == old(self).animations,
    {
        let prev = self.state;
        let iid = prev.iid;
        let first = self.next_event;
        let from = ElementX { xid: src, iid };
        let ghost queue = self.queue@;
        proof {
            reveal_with_fuel(id_after_many, 4);
        }
        match ty {
            EventTy::Mouse(e) => {
                let hover = self.resolve_hover(hits);
                let new = ElementX { xid: hover, iid };
                let old = ElementX { xid: prev.hovered, iid };
                self.state.hovered = hover;
                if let MouseEvent::Move(x, y) = e {
                    self.state.mouse_x = x;
                    self.state.mouse_y = y;
                }
                let raw = Event { id: first, timestamp, ty, state: self.state, prev, target: new, src: new, extra };
                if hover != prev.hovered {
                    let second = next_id(first);
                    let third = next_id(second);
                    let leave = raw.derive(second, EventTy::Mouse(MouseEvent::Leave), old, old);
                    let enter = raw.derive(third, EventTy::Mouse(MouseEvent::Enter), new, new);
                    self.queue.push(raw);
                    self.queue.push(leave);
                    self.queue.push(enter);
                    self.next_event = next_id(third);
                } else {
                    self.queue.push(raw);
                    self.next_event = next_id(first);
                }
            },
            EventTy::Click(_) => {
                let new = ElementX { xid: prev.hovered, iid };
                let old = ElementX { xid: prev.focused, iid };
                self.state.focused = prev.hovered;
                let raw = Event { id: first, timestamp, ty, state: self.state, prev, target: new, src: from, extra };
                if prev.hovered != prev.focused {
                    let second = next_id(first);
                    let third = next_id(second);
                    let out = raw.derive(second, EventTy::Focus(FocusEvent::Out), old, old);
                    let into = raw.derive(third, EventTy::Focus(FocusEvent::In), new, from);
                    self.queue.push(raw);
                    self.queue.push(out);
                    self.queue.push(into);
                    self.next_event = next_id(third);
                } else {
                    self.queue.push(raw);
                    self.next_event = next_id(first);
                }
            },
            EventTy::Key(_) | EventTy::Change(_) | EventTy::Custom(_) | EventTy::Any(_) => {
                let raw = Event { id: first, timestamp, ty, state: prev, prev, target: from, src: from, extra };
                self.queue.push(raw);
                self.next_event = next_id(first);
            },
            _ => {
            },
        }
    }

    /// Registers `handler` for the events called `event` that target an
    /// element of `scope`, or any element where no scope is given.
    pub fn add_listener(&mut self, event: &str, scope: Option<&str>, handler: &str)
        ensures
            final(self).listeners@.len() == old(self).listeners@.len() + 1,
            final(self).listeners@.drop_last() == old(self).listeners@,
            final(self).listeners@.last().event@ == event@,
            final(self).listeners@.last().handler@ == handler@,
            match scope {
                Some(text) => final(self).listeners@.last().scope is Some && final(self).listeners@.last().scope->0@
                    == text@,
                None => final(self).listeners@.last().scope is None,
            },
            final(self).state == old(self).state,
            final(self).tree == old(self).tree,
            final(self).root == old(self).root,
            final(self).queue == old(self).queue,
            final(self).draining == old(self).draining,
            final(self).passes == old(self).passes,
            final(self).halted == old(self).halted,
            final(self).next_event == old(self).next_event,
            final(self).animations == old(self).animations,
    {
        let scope = match scope {
            Some(text) => Some(text.to_owned()),
            None => None,
        };
        self.listeners.push(Listener { event: event.to_owned(), scope, handler: handler.to_owned() });
    }

    /// Whether the listener at `at` hears `event`.
    pub fn listener_hears(&self, at: usize, event: &Event) -> (b: bool)
        requires
            self.wf(),
            at < self.listeners@.len(),
        ensures
            b == hears(self.tree@, self.listeners@[at as int], *event),
    {
        let l = &self.listeners[at];
        if !same_text(l.event.as_str(), event.ty.name()) && !same_text(l.event.as_str(), event.ty.kind()) {
            return false;
        }
        match &l.scope {
            None => true,
            Some(text) => {
                let found = self.tree.select(text.as_str());
                let at = index_in(&found, event.target.xid);
                at.is_some()
            },
        }
    }

    /// The names of the handlers to call with `event`, in the order of their
    /// registration.
    pub fn handlers(&self, event: &Event) -> (names: Vec<String>)
        requires
            self.wf(),
        ensures
            names_of(names@) == handlers_for(self.tree@, self.listeners@, *event),
    {
        let mut names: Vec<String> = Vec::new();
        let mut i: usize = 0;
        let ghost hear = |l: Listener| hears(self.tree@, l, *event);
        let ghost name = |l: Listener| l.handler@;
        while i < self.listeners.len()
            invariant
                self.wf(),
                i <= self.listeners@.len(),
                hear == |l: Listener| hears(self.tree@, l, *event),
                name == |l: Listener| l.handler@,
                names_of(names@) == self.listeners@.take(i as int).filter(hear).map_values(name),
            decreases self.listeners@.len() - i,
        {
            proof {
                reveal(Seq::filter);
                assert(self.listeners@.take(i + 1).drop_last() =~= self.listeners@.take(i as int));
            }
            if self.listener_hears(i, event) {
                names.push(self.listeners[i].handler.clone());
                proof {
                    let kept = self.listeners@.take(i as int).filter(hear);
                    assert(kept.push(self.listeners@[i as int]).map_values(name) =~= kept.map_values(name).push(
                        self.listeners@[i as int].handler@,
                    ));
                }
            }
            i += 1;
        }
        proof {
            assert(self.listeners@.take(self.listeners@.len() as int) =~= self.listeners@);
        }
        names
    }

    /// Asks to drain the queue. The caller that finds no drain running
    /// becomes the leader and has to call `next_batch` until it says that
    /// draining is over; any other caller must leave the queue alone.
    pub fn begin_drain(&mut self) -> (leader: bool)
        ensures
            leader == !old(self).draining,
            final(self).draining,
            final(self).passes == (if leader {
                0
            } else {
                old(self).passes
            }),
            final(self).state == old(self).state,
            final(self).tree == old(self).tree,
            final(self).root == old(self).root,
            final(self).listeners == old(self).listeners,
            final(self).queue == old(self).queue,
            final(self).halted == old(self).halted,
            final(self).next_event == old(self).next_event,
            final(self).animations == old(self).animations,
    {
        if self.draining {
            false
        } else {
            self.draining = true;
            self.passes = 0;
            true
        }
    }

    /// Hands out the events that are queued, each with its handlers, and
    /// empties the queue. With an empty queue draining is over: the drain
    /// mark and the halt marks are cleared. After `MAX_PASSES` batches in one
    /// drain it is given up instead: the marks are cleared and what is
    /// queued is dropped.
    pub fn next_batch(&mut self) -> (step: Drain)
        requires
            old(self).wf(),
        ensures
            final(self).wf(),
            final(self).queue@.len() == 0,
            match step {
                Drain::Batch(batch) => {
                    &&& old(self).queue@.len() > 0
                    &&& old(self).passes < MAX_PASSES
                    &&& batch@.len() == old(self).queue@.len()
                    &&& forall|i: int|
                        0 <= i < batch@.len() ==> (#[trigger] batch@[i]).event == old(self).queue@[i] && names_of(
                            batch@[i].handlers@,
                        ) == handlers_for(old(self).tree@, old(self).listeners@, old(self).queue@[i])
                    &&& final(self).passes == old(self).passes + 1
                    &&& final(self).draining == old(self).draining
                    &&& final(self).halted == old(self).halted
                },
                Drain::Done => {
                    &&& old(self).queue@.len() == 0
                    &&& !final(self).draining
                    &&& final(self).passes == 0
                    &&& final(self).halted@ == Set::<u64>::empty()
                },
                Drain::Overflow => {
                    &&& old(self).queue@.len() > 0
                    &&& old(self).passes >= MAX_PASSES
                    &&& !final(self).draining
                    &&& final(self).passes == 0
                    &&& final(self).halted@ == Set::<u64>::empty()
                },
            },
            final(self).state == old(self).state,
            final(self).tree == old(self).tree,
            final(self).root == old(self).root,
            final(self).listeners == old(self).listeners,
            final(self).next_event == old(self).next_event,
            final(self).animations == old(self).animations,
    {
        if self.queue.len() == 0 || self.passes >= MAX_PASSES {
            let empty = self.queue.len() == 0;
            self.queue = Vec::new();
            self.draining = false;
            self.passes = 0;
            self.halted = HashSet::new();
            return if empty {
                Drain::Done
            } else {
                Drain::Overflow
            };
        }
        let mut batch: Vec<Delivery> = Vec::new();
        let mut i: usize = 0;
        while i < self.queue.len()
            invariant
                self.wf(),
                *self == *old(self),
                i <= self.queue@.len(),
                batch@.len() == i,
                forall|k: int|
                    0 <= k < i ==> (#[trigger] batch@[k]).event == self.queue@[k] && names_of(batch@[k].handlers@)
                        == handlers_for(self.tree@, self.listeners@, self.queue@[k]),
            decreases self.queue@.len() - i,
        {
            let event = self.queue[i].duplicate();
            let handlers = self.handlers(&event);
            batch.push(Delivery { event, handlers });
            i += 1;
        }
        self.queue = Vec::new();
        self.passes = self.passes + 1;
        Drain::Batch(batch)
    }

    /// Marks the event `id` as halted: its remaining handlers are not to be
    /// called.
    pub fn halt(&mut self, id: u64)
        ensures
            final(self).halted@ == old(self).halted@.insert(id),
            final(self).state == old(self).state,
            final(self).tree == old(self).tree,
            final(self).root == old(self).root,
            final(self).listeners == old(self).listeners,
            final(self).queue == old(self).queue,
            final(self).draining == old(self).draining,
            final(self).passes == old(self).passes,
            final(self).next_event == old(self).next_event,
            final(self).animations == old(self).animations,
    {
        self.halted.insert(id);
    }

    /// Whether the event `id` was halted in the running drain.
    pub fn is_halted(&self, id: u64) -> (b: bool)
        ensures
            b == self.halted@.contains(id),
    {
        self.halted.contains(&id)
    }

    /// Removes the element `n` and returns its children, which become roots.
    /// Animations bound to the element are cancelled, and the engine starts
    /// rendering nowhere if it started from the element. The id joins the
    /// released ids; it is handed out again only once neither the
    /// interaction state nor a listener's scope names it.
    pub fn destroy(&mut self, n: u64) -> (orphans: Vec<u64>)
        requires
            old(self).wf(),
        ensures
            final(self).wf(),
            orphans@ == crate::queries::children_in(old(self).tree@, n),
            final(self).tree@ == crate::forest::destroyed(old(self).tree@, n),
            final(self).tree.free_ids() == (if old(self).tree@.dom().contains(n) {
                old(self).tree.free_ids().push(n)
            } else {
                old(self).tree.free_ids()
            }),
            final(self).tree.high_water() == old(self).tree.high_water(),
            final(self).animations@ == old(self).animations@.filter(|b: Binding| b.xid != n),
            final(self).root == (if old(self).root == Some(n) {
                None
            } else {
                old(self).root
            }),
            final(self).state == old(self).state,
            final(self).listeners == old(self).listeners,
            final(self).queue == old(self).queue,
            final(self).draining == old(self).draining,
            final(self).passes == old(self).passes,
            final(self).halted == old(self).halted,
            final(self).next_event == old(self).next_event,
    {
        let orphans = self.tree.destroy(n);
        let mut kept: Vec<Binding> = Vec::new();
        let mut i: usize = 0;
        let ghost keep = |b: Binding| b.xid != n;
        while i < self.animations.len()
            invariant
                i <= self.animations@.len(),
                keep == |b: Binding| b.xid != n,
                kept@ == self.animations@.take(i as int).filter(keep),
            decreases self.animations@.len() - i,
        {
            proof {
                reveal(Seq::filter);
                assert(self.animations@.take(i + 1).drop_last() =~= self.animations@.take(i as int));
            }
            if self.animations[i].xid != n {
                kept.push(self.animations[i]);
            }
            i += 1;
        }
        proof {
            assert(self.animations@.take(self.animations@.len() as int) =~= self.animations@);
        }
        self.animations = kept;
        if let Some(r) = self.root {
            if r == n {
                self.root = None;
            }
        }
        orphans
    }
}

impl Event {
    /// Halts the event: its remaining handlers are not to be called in the
    /// running drain of `engine`.
    pub fn halt(&self, engine: &mut Engine)
        ensures
            final(engine).halted@ == old(engine).halted@.insert(self.id),
            final(engine).state == old(engine).state,
            final(engine).tree == old(engine).tree,
            final(engine).root == old(engine).root,
            final(engine).listeners == old(engine).listeners,
            final(engine).queue == old(engine).queue,
            final(engine).draining == old(engine).draining,
            final(engine).passes == old(engine).passes,
            final(engine).next_event == old(engine).next_event,
            final(engine).animations == old(engine).animations,
    {
        engine.halt(self.id);
    }
}

} // verus!
