//! The layout collaborator.
//!
//! Every element owns one leaf of a `taffy` layout tree. This module declares
//! the `taffy` types that the element tree holds, names what a layout tree
//! contains, and wraps the calls that keep it in step with the element tree.
//! Nothing in this module is proved: each contract restates what the `taffy`
//! source does.

use vstd::prelude::*;

verus! {

/// `taffy::Taffy`, the layout tree.
#[verifier::external_type_specification]
#[verifier::external_body]
pub struct ExLayoutTree(taffy::Taffy);

/// `taffy::node::Node`, the key of one layout node.
#[verifier::external_type_specification]
#[verifier::external_body]
pub struct ExLayoutKey(taffy::node::Node);

/// `taffy::style::Style`, the layout properties a leaf is created from.
#[verifier::external_type_specification]
#[verifier::external_body]
pub struct ExLayoutStyle(taffy::style::Style);

/// `taffy::geometry::Size`, a width and a height.
#[verifier::external_type_specification]
#[verifier::external_body]
#[verifier::reject_recursive_types(T)]
pub struct ExLayoutSize<T>(taffy::geometry::Size<T>);

/// `taffy::style::AvailableSpace`, the room that a layout may take.
#[verifier::external_type_specification]
#[verifier::external_body]
pub struct ExLayoutSpace(taffy::style::AvailableSpace);

/// `taffy::layout::Layout`, the position and size computed for one node.
#[verifier::external_type_specification]
#[verifier::external_body]
pub struct ExLayoutBox(taffy::layout::Layout);

/// The child list that the layout tree keeps for each of its live keys.
pub uninterp spec fn layout_children(t: taffy::Taffy) -> Map<taffy::node::Node, Seq<taffy::node::Node>>;

/// The parent link that the layout tree keeps for each of its live keys.
pub uninterp spec fn layout_parents(t: taffy::Taffy) -> Map<taffy::node::Node, Option<taffy::node::Node>>;

/// Walking the parent links from `from` stays on live keys, never meets a key
/// of `avoid`, and reaches a key without a parent after at most `steps` links.
///
/// `taffy` marks a node and all of its ancestors dirty after each structural
/// change, by recursion along the parent links; the walk has to end.
pub open spec fn climbs(
    parents: Map<taffy::node::Node, Option<taffy::node::Node>>,
    from: taffy::node::Node,
    avoid: Set<taffy::node::Node>,
    steps: nat,
) -> bool
    decreases steps,
{
    &&& parents.dom().contains(from)
    &&& !avoid.contains(from)
    &&& match parents[from] {
        None => true,
        Some(p) => steps > 0 && climbs(parents, p, avoid, (steps - 1) as nat),
    }
}

/// Walking the child lists down from `from` stays on live keys and ends
/// after at most `depth` levels.
///
/// `taffy` computes a layout by recursion along the child lists; the walk
/// has to end.
pub open spec fn descends(
    children: Map<taffy::node::Node, Seq<taffy::node::Node>>,
    from: taffy::node::Node,
    depth: nat,
) -> bool
    decreases depth,
{
    &&& children.dom().contains(from)
    &&& forall|i: int|
        0 <= i < children[from].len() ==> depth > 0 && descends(
            children,
            #[trigger] children[from][i],
            (depth - 1) as nat,
        )
}

/// The box that the layout tree holds for each of its live keys: the one
/// computed last, as `Taffy::layout` gives it.
pub uninterp spec fn layout_boxes(t: taffy::Taffy) -> Map<taffy::node::Node, taffy::layout::Layout>;

/// The boxes that the layout tree `t` holds after `Taffy::compute_layout`
/// ran on it from `root` for the room `space`.
pub uninterp spec fn computed_boxes(
    t: taffy::Taffy,
    root: taffy::node::Node,
    space: taffy::geometry::Size<taffy::style::AvailableSpace>,
) -> Map<taffy::node::Node, taffy::layout::Layout>;

/// `Taffy::compute_layout`: computes position and size of `root` and of all
/// nodes below it, for the room `space`. It reads the child lists and the
/// styles and writes the boxes; the links between the nodes stay as they
/// are, and the boxes afterwards depend on the tree, the root and the room
/// alone. This crate builds `taffy` without its grid layout, so only the
/// flexbox and leaf algorithms run: they index live nodes and their child
/// lists, recurse along the child lists, and calculate in floating point.
#[verifier::external_body]
pub(crate) fn layout_compute(
    t: &mut taffy::Taffy,
    root: taffy::node::Node,
    space: taffy::geometry::Size<taffy::style::AvailableSpace>,
)
    requires
        exists|depth: nat| descends(layout_children(*old(t)), root, depth),
    ensures
        layout_children(*final(t)) == layout_children(*old(t)),
        layout_parents(*final(t)) == layout_parents(*old(t)),
        layout_boxes(*final(t)) == computed_boxes(*old(t), root, space),
{
    let _ = t.compute_layout(root, space);
}

/// `Taffy::layout`: the box last computed for `key`, which must be live. The
/// call returns `Ok` on every path.
#[verifier::external_body]
pub(crate) fn layout_box(t: &taffy::Taffy, key: taffy::node::Node) -> (found: taffy::layout::Layout)
    requires
        layout_children(*t).dom().contains(key),
    ensures
        found == layout_boxes(*t)[key],
{
    *t.layout(key).unwrap()
}

/// `Taffy::new`: a layout tree without nodes.
#[verifier::external_body]
pub(crate) fn layout_new() -> (t: taffy::Taffy)
    ensures
        layout_children(t).dom() == Set::<taffy::node::Node>::empty(),
        layout_parents(t).dom() == Set::<taffy::node::Node>::empty(),
{
    taffy::Taffy::new()
}

/// `Taffy::new_leaf`: inserts a node without parent or children under a key
/// that no live node has. The call returns `Ok` on every path.
#[verifier::external_body]
pub(crate) fn layout_new_leaf(t: &mut taffy::Taffy, style: taffy::style::Style) -> (key: taffy::node::Node)
    ensures
        !layout_children(*old(t)).dom().contains(key),
        !layout_parents(*old(t)).dom().contains(key),
        layout_children(*final(t)) == layout_children(*old(t)).insert(key, Seq::empty()),
        layout_parents(*final(t)) == layout_parents(*old(t)).insert(key, None),
{
    t.new_leaf(style).unwrap()
}

/// `Taffy::add_child`: sets the parent link of `child`, appends `child` to the
/// child list of `parent`, and marks `parent` and its ancestors dirty. Both
/// keys are indexed, so both must be live.
#[verifier::external_body]
pub(crate) fn layout_add_child(t: &mut taffy::Taffy, parent: taffy::node::Node, child: taffy::node::Node)
    requires
        layout_children(*old(t)).dom().contains(parent),
        layout_parents(*old(t)).dom().contains(child),
        exists|steps: nat| climbs(layout_parents(*old(t)), parent, set![child], steps),
    ensures
        layout_children(*final(t)) == layout_children(*old(t)).insert(
            parent,
            layout_children(*old(t))[parent].push(child),
        ),
        layout_parents(*final(t)) == layout_parents(*old(t)).insert(child, Some(parent)),
{
    let _ = t.add_child(parent, child);
}

/// `Taffy::remove_child`: removes the first occurrence of `child` from the
/// child list of `parent`, clears the parent link of `child`, and marks
/// `parent` and its ancestors dirty. It unwraps the position of `child` in the
/// list, so `child` must be in it.
#[verifier::external_body]
pub(crate) fn layout_remove_child(t: &mut taffy::Taffy, parent: taffy::node::Node, child: taffy::node::Node)
    requires
        layout_children(*old(t)).dom().contains(parent),
        layout_children(*old(t))[parent].contains(child),
        layout_parents(*old(t)).dom().contains(child),
        exists|steps: nat| climbs(layout_parents(*old(t)), parent, Set::empty(), steps),
    ensures
        layout_children(*final(t)) == layout_children(*old(t)).insert(
            parent,
            layout_children(*old(t))[parent].remove_value(child),
        ),
        layout_parents(*final(t)) == layout_parents(*old(t)).insert(child, None),
{
    let _ = t.remove_child(parent, child);
}

/// `Taffy::children`: a copy of the child list of `parent`, which must be
/// live. The call returns `Ok` on every path.
#[verifier::external_body]
pub(crate) fn layout_child_keys(t: &taffy::Taffy, parent: taffy::node::Node) -> (keys: Vec<taffy::node::Node>)
    requires
        layout_children(*t).dom().contains(parent),
    ensures
        keys@ == layout_children(*t)[parent],
{
    t.children(parent).unwrap()
}

/// `Taffy::set_children`: clears the parent link of every old child of
/// `parent`, points the parent link of every key of `keys` to `parent`,
/// replaces the child list by `keys`, and marks `parent` and its ancestors
/// dirty. Old and new children are indexed, so all of them must be live.
#[verifier::external_body]
pub(crate) fn layout_set_children(t: &mut taffy::Taffy, parent: taffy::node::Node, keys: &Vec<taffy::node::Node>)
    requires
        layout_children(*old(t)).dom().contains(parent),
        forall|i: int| 0 <= i < keys@.len() ==> layout_parents(*old(t)).dom().contains(#[trigger] keys@[i]),
        forall|i: int| 0 <= i < layout_children(*old(t))[parent].len() ==> layout_parents(*old(t)).dom().contains(
            #[trigger] layout_children(*old(t))[parent][i],
        ),
        exists|steps: nat| climbs(layout_parents(*old(t)), parent, keys@.to_set(), steps),
    ensures
        layout_children(*final(t)) == layout_children(*old(t)).insert(parent, keys@),
        layout_parents(*final(t)).dom() == layout_parents(*old(t)).dom(),
        forall|k: taffy::node::Node| #[trigger] layout_parents(*old(t)).dom().contains(k)
            ==> layout_parents(*final(t))[k] == (
            if keys@.contains(k) {
                Some(parent)
            } else if layout_children(*old(t))[parent].contains(k) {
                None
            } else {
                layout_parents(*old(t))[k]
            }),
{
    let _ = t.set_children(parent, keys.as_slice());
}

/// `Taffy::remove`: drops the node under `key`. The contract covers a node
/// without parent and without children, for which nothing else changes.
#[verifier::external_body]
pub(crate) fn layout_remove(t: &mut taffy::Taffy, key: taffy::node::Node)
    requires
        layout_children(*old(t)).dom().contains(key),
        layout_parents(*old(t)).dom().contains(key),
        layout_children(*old(t))[key].len() == 0,
        layout_parents(*old(t))[key] is None,
    ensures
        layout_children(*final(t)) == layout_children(*old(t)).remove(key),
        layout_parents(*final(t)) == layout_parents(*old(t)).remove(key),
{
    let _ = t.remove(key);
}

/// `serde_json::from_value` for a layout style: the layout properties that
/// a raw style record names, with the default for each one it leaves out,
/// and the defaults for all where it cannot be read as layout properties.
/// Properties of other kinds in the record are passed over. A record that
/// asks for a grid cannot be read, since this crate builds `taffy` without
/// its grid layout.
#[verifier::external_body]
pub(crate) fn layout_style_from(record: &serde_json::Value) -> taffy::style::Style {
    serde_json::from_value(record.clone()).unwrap_or_default()
}

/// `Style::default`: the layout properties of an element without a style.
#[verifier::external_body]
pub(crate) fn layout_style_default() -> taffy::style::Style {
    taffy::style::Style::default()
}

} // verus!
