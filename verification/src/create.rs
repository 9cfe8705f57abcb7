//! Creating elements from a tag, a list of properties and a list of
//! children.
//!
//! The properties `id`, `classes`, `text` and `style` say what the element
//! is; all others become its attributes. Where a name comes twice, the later
//! value counts.

use vstd::prelude::*;
use crate::engine::Engine;
use crate::forest::{attr_removed, attr_set, attr_value, lemma_attr_names, reparented};
use crate::json::{items_of, json_items, json_string, string_of};
use crate::layout::{layout_style_default, layout_style_from};
use crate::matching::{find_attribute, has_class};
use crate::node::{attr_names, opt_chars, Attr, NodeView};
use crate::textops::to_chars;

verus! {

/// A list of properties as pairs of name and value.
pub open spec fn props_of(props: Seq<(String, serde_json::Value)>) -> Seq<(Seq<char>, serde_json::Value)> {
    props.map_values(|p: (String, serde_json::Value)| (p.0@, p.1))
}

/// The properties with each name once: the first place of the name, the
/// last value given to it.
pub open spec fn gathered(props: Seq<(Seq<char>, serde_json::Value)>) -> Seq<(Seq<char>, serde_json::Value)>
    decreases props.len(),
{
    if props.len() == 0 {
        Seq::empty()
    } else {
        attr_set(gathered(props.drop_last()), props.last().0, props.last().1)
    }
}

/// The strings among `items`, in order, each once.
pub open spec fn texts_of(items: Seq<serde_json::Value>) -> Seq<Seq<char>>
    decreases items.len(),
{
    if items.len() == 0 {
        Seq::empty()
    } else {
        let before = texts_of(items.drop_last());
        match string_of(items.last()) {
            Some(text) => if before.contains(text) {
                before
            } else {
                before.push(text)
            },
            None => before,
        }
    }
}

/// The text of the property `name`, if it is there and a string.
pub open spec fn text_prop(all: Seq<(Seq<char>, serde_json::Value)>, name: Seq<char>) -> Option<Seq<char>> {
    match attr_value(all, name) {
        Some(v) => string_of(v),
        None => None,
    }
}

/// The class names that the property `classes` lists, if it is there and an
/// array.
pub open spec fn class_prop(all: Seq<(Seq<char>, serde_json::Value)>) -> Seq<Seq<char>> {
    match attr_value(all, "classes"@) {
        Some(v) => match items_of(v) {
            Some(items) => texts_of(items),
            None => Seq::empty(),
        },
        None => Seq::empty(),
    }
}

/// The properties that become attributes: all but `id`, `classes`, `text`
/// and `style`.
pub open spec fn plain_props(all: Seq<(Seq<char>, serde_json::Value)>) -> Seq<(Seq<char>, serde_json::Value)> {
    attr_removed(attr_removed(attr_removed(attr_removed(all, "id"@), "classes"@), "text"@), "style"@)
}

/// The element that `tag` and `props` describe, as a root without children.
pub open spec fn blueprint(
    tag: Seq<char>,
    props: Seq<(Seq<char>, serde_json::Value)>,
    layout_id: taffy::node::Node,
) -> NodeView {
    let all = gathered(props);
    NodeView {
        layout_id,
        parent: None,
        children: Seq::empty(),
        hidden: false,
        tag,
        id: text_prop(all, "id"@),
        classes: class_prop(all),
        text: text_prop(all, "text"@),
        attributes: plain_props(all),
        style: attr_value(all, "style"@),
    }
}

/// The tree after each of `children`, in order, was asked to become the last
/// child of `parent`.
pub open spec fn adopted(m: Map<u64, NodeView>, parent: u64, children: Seq<u64>) -> Map<u64, NodeView>
    decreases children.len(),
{
    if children.len() == 0 {
        m
    } else {
        reparented(adopted(m, parent, children.drop_last()), children.last(), Some(parent), None)
    }
}

/// The properties with each name once.
pub fn gather(props: Vec<(String, serde_json::Value)>) -> (all: Vec<Attr>)
    ensures
        all@.map_values(|a: Attr| a@) == gathered(props_of(props@)),
        attr_names(all@.map_values(|a: Attr| a@)).no_duplicates(),
{
    let mut all: Vec<Attr> = Vec::new();
    let mut i: usize = 0;
    while i < props.len()
        invariant
            i <= props@.len(),
            all@.map_values(|a: Attr| a@) == gathered(props_of(props@).take(i as int)),
            attr_names(all@.map_values(|a: Attr| a@)).no_duplicates(),
        decreases props@.len() - i,
    {
        let name = props[i].0.clone();
        let value = props[i].1.clone();
        let ghost before = all@.map_values(|a: Attr| a@);
        proof {
            assert(props_of(props@).take(i + 1).drop_last() =~= props_of(props@).take(i as int));
            lemma_attr_names(before, name@, value);
        }
        let chars = to_chars(name.as_str());
        match find_attribute(&all, &chars) {
            Some(at) => {
                all.set(at, Attr { name, value });
                assert(all@.map_values(|a: Attr| a@) =~= before.update(at as int, (name@, value)));
            },
            None => {
                all.push(Attr { name, value });
            },
        }
        i += 1;
    }
    proof {
        assert(props_of(props@).take(props@.len() as int) =~= props_of(props@));
    }
    all
}

/// The value of the property `name`.
pub fn prop(all: &Vec<Attr>, name: &str) -> (value: Option<serde_json::Value>)
    ensures
        value == attr_value(all@.map_values(|a: Attr| a@), name@),
{
    let chars = to_chars(name);
    match find_attribute(all, &chars) {
        Some(at) => Some(all[at].value.clone()),
        None => None,
    }
}

/// Takes the property `name` out of `all` and returns its value.
pub fn take_prop(all: &mut Vec<Attr>, name: &str) -> (value: Option<serde_json::Value>)
    requires
        attr_names(old(all)@.map_values(|a: Attr| a@)).no_duplicates(),
    ensures
        value == attr_value(old(all)@.map_values(|a: Attr| a@), name@),
        final(all)@.map_values(|a: Attr| a@) == attr_removed(old(all)@.map_values(|a: Attr| a@), name@),
        attr_names(final(all)@.map_values(|a: Attr| a@)).no_duplicates(),
{
    let ghost before = all@.map_values(|a: Attr| a@);
    proof {
        lemma_attr_names(before, name@, arbitrary());
    }
    let chars = to_chars(name);
    match find_attribute(all, &chars) {
        Some(at) => {
            let gone = all.remove(at);
            assert(all@.map_values(|a: Attr| a@) =~= before.remove(at as int));
            Some(gone.value)
        },
        None => None,
    }
}

/// The strings among `items`, in order, each once.
pub fn texts(items: &Vec<serde_json::Value>) -> (names: Vec<String>)
    ensures
        names@.map_values(|s: String| s@) == texts_of(items@),
        names@.map_values(|s: String| s@).no_duplicates(),
{
    let mut names: Vec<String> = Vec::new();
    let mut i: usize = 0;
    while i < items.len()
        invariant
            i <= items@.len(),
            names@.map_values(|s: String| s@) == texts_of(items@.take(i as int)),
            names@.map_values(|s: String| s@).no_duplicates(),
        decreases items@.len() - i,
    {
        proof {
            assert(items@.take(i + 1).drop_last() =~= items@.take(i as int));
        }
        let ghost before = names@.map_values(|s: String| s@);
        match json_string(&items[i]) {
            Some(text) => {
                let chars = to_chars(text.as_str());
                if !has_class(&names, &chars) {
                    names.push(text);
                    assert(names@.map_values(|s: String| s@) =~= before.push(text@));
                }
            },
            None => {},
        }
        i += 1;
    }
    proof {
        assert(items@.take(items@.len() as int) =~= items@);
    }
    names
}

/// The text of a property value, if there is one and it is a string.
fn text_of(value: &Option<serde_json::Value>) -> (text: Option<String>)
    ensures
        opt_chars(text) == (match *value {
            Some(v) => string_of(v),
            None => None,
        }),
{
    match value {
        Some(v) => json_string(v),
        None => None,
    }
}

impl Engine {
    /// Creates the element that `tag` and `props` describe, with a layout
    /// leaf made from its style, and makes each of `children` its child, in
    /// order. Returns the new element's id, or `None` where no id is left.
    /// The id is the one released last among those that neither the
    /// interaction state nor a listener's scope still names, or without one
    /// the least id that was never handed out.
    pub fn create_element(&mut self, tag: &str, props: Vec<(String, serde_json::Value)>, children: &Vec<u64>) -> (made:
        Option<u64>)
        requires
            old(self).wf(),
        ensures
            final(self).wf(),
            made == old(self).upcoming(),
            old(self).ids_after(*final(self), made is Some),
            match made {
                Some(x) => !old(self).tree@.dom().contains(x) && final(self).tree@.dom().contains(x)
                    && final(self).tree@ == adopted(
                    old(self).tree@.insert(x, blueprint(tag@, props_of(props@), final(self).tree@[x].layout_id)),
                    x,
                    children@,
                ),
                None => final(self).tree@ == old(self).tree@,
            },
            final(self).state == old(self).state,
            final(self).root == old(self).root,
            final(self).listeners == old(self).listeners,
            final(self).queue == old(self).queue,
            final(self).draining == old(self).draining,
            final(self).passes == old(self).passes,
            final(self).halted == old(self).halted,
            final(self).next_event == old(self).next_event,
            final(self).animations == old(self).animations,
    {
        let mut all = gather(props);
        let id = text_of(&prop(&all, "id"));
        let classes = prop(&all, "classes");
        let text = text_of(&prop(&all, "text"));
        let style = prop(&all, "style");
        take_prop(&mut all, "id");
        take_prop(&mut all, "classes");
        take_prop(&mut all, "text");
        take_prop(&mut all, "style");
        let classes = match classes {
            Some(v) => match json_items(&v) {
                Some(items) => texts(&items),
                None => Vec::new(),
            },
            None => Vec::new(),
        };
        let layout_style = match &style {
            Some(record) => layout_style_from(record),
            None => layout_style_default(),
        };
        proof {
            assert(classes@.map_values(|s: String| s@) =~= class_prop(gathered(props_of(props@))));
        }
        let place = self.pick();
        let made = self.tree.insert_leaf_at(place, tag.to_owned(), id, classes, text, all, style, layout_style);
        let x: u64 = match made {
            Some(x) => x,
            None => {
                return None;
            },
        };
        let ghost start = self.tree@;
        let mut i: usize = 0;
        while i < children.len()
            invariant
                self.wf(),
                i <= children@.len(),
                start.dom().contains(x),
                self.tree@.dom() == start.dom(),
                self.tree@[x].layout_id == start[x].layout_id,
                start == old(self).tree@.insert(x, blueprint(tag@, props_of(props@), start[x].layout_id)),
                self.tree@ == adopted(start, x, children@.take(i as int)),
                self.tree.free_ids() == old(self).tree.free_after(old(self).upcoming_place()),
                self.tree.high_water() == old(self).tree.high_water_after(old(self).upcoming_place()),
                self.state == old(self).state,
                self.root == old(self).root,
                self.listeners == old(self).listeners,
                self.queue == old(self).queue,
                self.draining == old(self).draining,
                self.passes == old(self).passes,
                self.halted == old(self).halted,
                self.next_event == old(self).next_event,
                self.animations == old(self).animations,
            decreases children@.len() - i,
        {
            proof {
                assert(children@.take(i + 1).drop_last() =~= children@.take(i as int));
                self.tree.law_links_agree();
            }
            self.tree.change_parent(children[i], Some(x), None);
            i += 1;
        }
        proof {
            assert(children@.take(children@.len() as int) =~= children@);
        }
        Some(x)
    }
}

} // verus!
