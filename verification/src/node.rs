//! One element of a document.

use vstd::prelude::*;

verus! {

/// One named attribute of an element.
pub struct Attr {
    pub name: String,
    pub value: serde_json::Value,
}

impl View for Attr {
    type V = (Seq<char>, serde_json::Value);

    open spec fn view(&self) -> (Seq<char>, serde_json::Value) {
        (self.name@, self.value)
    }
}

/// An element: what it is, what it carries, and where it hangs in the tree.
pub struct NodeData {
    /// The element's id, which is also the key it is stored under.
    pub xid: u64,
    /// The element's counterpart in the layout tree.
    pub layout_id: taffy::node::Node,
    pub parent: Option<u64>,
    /// The children, in paint and traversal order.
    pub children: Vec<u64>,
    pub hidden: bool,
    pub tag: String,
    pub id: Option<String>,
    pub classes: Vec<String>,
    pub text: Option<String>,
    pub attributes: Vec<Attr>,
    /// The raw style record, as it was given.
    pub style: Option<serde_json::Value>,
}

/// What an element is to the contracts of this library.
pub struct NodeView {
    pub layout_id: taffy::node::Node,
    pub parent: Option<u64>,
    pub children: Seq<u64>,
    pub hidden: bool,
    pub tag: Seq<char>,
    pub id: Option<Seq<char>>,
    /// The class names; no name occurs twice.
    pub classes: Seq<Seq<char>>,
    pub text: Option<Seq<char>>,
    /// The attributes as pairs of name and value; no name occurs twice.
    pub attributes: Seq<(Seq<char>, serde_json::Value)>,
    pub style: Option<serde_json::Value>,
}

/// The characters of an optional string.
pub open spec fn opt_chars(s: Option<String>) -> Option<Seq<char>> {
    match s {
        Some(s) => Some(s@),
        None => None,
    }
}

impl View for NodeData {
    type V = NodeView;

    open spec fn view(&self) -> NodeView {
        NodeView {
            layout_id: self.layout_id,
            parent: self.parent,
            children: self.children@,
            hidden: self.hidden,
            tag: self.tag@,
            id: opt_chars(self.id),
            classes: self.classes@.map_values(|s: String| s@),
            text: opt_chars(self.text),
            attributes: self.attributes@.map_values(|a: Attr| a@),
            style: self.style,
        }
    }
}

/// The names of a list of attributes, in order.
pub open spec fn attr_names(attrs: Seq<(Seq<char>, serde_json::Value)>) -> Seq<Seq<char>> {
    attrs.map_values(|a: (Seq<char>, serde_json::Value)| a.0)
}

impl NodeView {
    /// No class and no attribute name occurs twice.
    pub open spec fn names_ok(self) -> bool {
        self.classes.no_duplicates() && attr_names(self.attributes).no_duplicates()
    }
}

} // verus!
