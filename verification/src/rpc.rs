//! The names of the operations that callers ask for.
//!
//! A request names its operation as `target.method`, where the target is
//! `document` or `element`; a name without a dot is a method of the
//! document. A name that is not known names nothing.

use vstd::prelude::*;
use crate::chars::{run_end, scan, CharClass};
use crate::textops::same_text;

verus! {

/// An operation that a caller can ask for.
#[derive(Clone, Copy, Debug, PartialEq, Eq, Structural)]
pub enum Method {
    Root,
    CreateElement,
    ActiveElement,
    ElementsAtPoint,
    Select,
    SelectOne,
    Parent,
    Ancestors,
    ChangeParent,
    Detach,
    Children,
    Descendants,
    NthChild,
    FirstChild,
    LastChild,
    SpliceChildren,
    Siblings,
    NthSibling,
    NextSibling,
    PrevSibling,
    NextSiblings,
    PrevSiblings,
    AddEventListener,
    RemoveEventListener,
    Attribute,
    Attributes,
    SetAttribute,
    RemoveAttribute,
    Text,
    SetText,
    Tag,
    Id,
    SetId,
    Classes,
    ClosestAncestor,
    Matches,
    Delete,
    ScrollOffset,
}

/// The operation of the document called `name`.
pub open spec fn document_method(name: Seq<char>) -> Option<Method> {
    if name == "root"@ {
        Some(Method::Root)
    } else if name == "create_element"@ {
        Some(Method::CreateElement)
    } else if name == "active_element"@ {
        Some(Method::ActiveElement)
    } else if name == "elements_at_point"@ {
        Some(Method::ElementsAtPoint)
    } else if name == "select"@ {
        Some(Method::Select)
    } else if name == "select_one"@ {
        Some(Method::SelectOne)
    } else {
        None
    }
}

/// The operation of an element called `name`.
pub open spec fn element_method(name: Seq<char>) -> Option<Method> {
    if name == "parent"@ {
        Some(Method::Parent)
    } else if name == "ancestors"@ {
        Some(Method::Ancestors)
    } else if name == "change_parent"@ {
        Some(Method::ChangeParent)
    } else if name == "detach"@ {
        Some(Method::Detach)
    } else if name == "children"@ {
        Some(Method::Children)
    } else if name == "descendants"@ {
        Some(Method::Descendants)
    } else if name == "nth_child"@ {
        Some(Method::NthChild)
    } else if name == "first_child"@ {
        Some(Method::FirstChild)
    } else if name == "last_child"@ {
        Some(Method::LastChild)
    } else if name == "splice_children"@ {
        Some(Method::SpliceChildren)
    } else if name == "siblings"@ {
        Some(Method::Siblings)
    } else if name == "nth_sibling"@ {
        Some(Method::NthSibling)
    } else if name == "next_sibling"@ {
        Some(Method::NextSibling)
    } else if name == "prev_sibling"@ {
        Some(Method::PrevSibling)
    } else if name == "next_siblings"@ {
        Some(Method::NextSiblings)
    } else if name == "prev_siblings"@ {
        Some(Method::PrevSiblings)
    } else if name == "add_event_listener"@ {
        Some(Method::AddEventListener)
    } else if name == "remove_event_listener"@ {
        Some(Method::RemoveEventListener)
    } else if name == "attribute"@ {
        Some(Method::Attribute)
    } else if name == "attributes"@ {
        Some(Method::Attributes)
    } else if name == "set_attribute"@ {
        Some(Method::SetAttribute)
    } else if name == "remove_attribute"@ {
        Some(Method::RemoveAttribute)
    } else if name == "text"@ {
        Some(Method::Text)
    } else if name == "set_text"@ {
        Some(Method::SetText)
    } else if name == "tag"@ {
        Some(Method::Tag)
    } else if name == "id"@ {
        Some(Method::Id)
    } else if name == "set_id"@ {
        Some(Method::SetId)
    } else if name == "classes"@ {
        Some(Method::Classes)
    } else if name == "closest_ancestor"@ {
        Some(Method::ClosestAncestor)
    } else if name == "matches"@ {
        Some(Method::Matches)
    } else if name == "delete"@ {
        Some(Method::Delete)
    } else if name == "scroll_offset"@ {
        Some(Method::ScrollOffset)
    } else {
        None
    }
}

/// The operation that `text` names.
pub open spec fn routed(text: Seq<char>) -> Option<Method> {
    let dot = run_end(text, 0, text.len() as int, CharClass::NotDot);
    if 0 <= dot < text.len() {
        let target = text.take(dot);
        let name = text.skip(dot + 1);
        if target == "document"@ {
            document_method(name)
        } else if target == "element"@ {
            element_method(name)
        } else {
            None
        }
    } else {
        document_method(text)
    }
}

/// The operation of the document called `name`.
pub fn find_document_method(name: &str) -> (found: Option<Method>)
    ensures
        found == document_method(name@),
{
    if same_text(name, "root") {
        Some(Method::Root)
    } else if same_text(name, "create_element") {
        Some(Method::CreateElement)
    } else if same_text(name, "active_element") {
        Some(Method::ActiveElement)
    } else if same_text(name, "elements_at_point") {
        Some(Method::ElementsAtPoint)
    } else if same_text(name, "select") {
        Some(Method::Select)
    } else if same_text(name, "select_one") {
        Some(Method::SelectOne)
    } else {
        None
    }
}

/// The operation of an element called `name`.
pub fn find_element_method(name: &str) -> (found: Option<Method>)
    ensures
        found == element_method(name@),
{
    if same_text(name, "parent") {
        Some(Method::Parent)
    } else if same_text(name, "ancestors") {
        Some(Method::Ancestors)
    } else if same_text(name, "change_parent") {
        Some(Method::ChangeParent)
    } else if same_text(name, "detach") {
        Some(Method::Detach)
    } else if same_text(name, "children") {
        Some(Method::Children)
    } else if same_text(name, "descendants") {
        Some(Method::Descendants)
    } else if same_text(name, "nth_child") {
        Some(Method::NthChild)
    } else if same_text(name, "first_child") {
        Some(Method::FirstChild)
    } else if same_text(name, "last_child") {
        Some(Method::LastChild)
    } else if same_text(name, "splice_children") {
        Some(Method::SpliceChildren)
    } else if same_text(name, "siblings") {
        Some(Method::Siblings)
    } else if same_text(name, "nth_sibling") {
        Some(Method::NthSibling)
    } else if same_text(name, "next_sibling") {
        Some(Method::NextSibling)
    } else if same_text(name, "prev_sibling") {
        Some(Method::PrevSibling)
    } else if same_text(name, "next_siblings") {
        Some(Method::NextSiblings)
    } else if same_text(name, "prev_siblings") {
        Some(Method::PrevSiblings)
    } else if same_text(name, "add_event_listener") {
        Some(Method::AddEventListener)
    } else if same_text(name, "remove_event_listener") {
        Some(Method::RemoveEventListener)
    } else if same_text(name, "attribute") {
        Some(Method::Attribute)
    } else if same_text(name, "attributes") {
        Some(Method::Attributes)
    } else if same_text(name, "set_attribute") {
        Some(Method::SetAttribute)
    } else if same_text(name, "remove_attribute") {
        Some(Method::RemoveAttribute)
    } else if same_text(name, "text") {
        Some(Method::Text)
    } else if same_text(name, "set_text") {
        Some(Method::SetText)
    } else if same_text(name, "tag") {
        Some(Method::Tag)
    } else if same_text(name, "id") {
        Some(Method::Id)
    } else if same_text(name, "set_id") {
        Some(Method::SetId)
    } else if same_text(name, "classes") {
        Some(Method::Classes)
    } else if same_text(name, "closest_ancestor") {
        Some(Method::ClosestAncestor)
    } else if same_text(name, "matches") {
        Some(Method::Matches)
    } else if same_text(name, "delete") {
        Some(Method::Delete)
    } else if same_text(name, "scroll_offset") {
        Some(Method::ScrollOffset)
    } else {
        None
    }
}

/// The operation that `text` names.
pub fn route(text: &str) -> (found: Option<Method>)
    ensures
        found == routed(text@),
{
    let len: usize = text.unicode_len();
    let dot: usize = scan(text, 0, len, CharClass::NotDot);
    if dot < len {
        let target = text.substring_char(0, dot);
        let name = text.substring_char(dot + 1, len);
        if same_text(target, "document") {
            find_document_method(name)
        } else if same_text(target, "element") {
            find_element_method(name)
        } else {
            None
        }
    } else {
        find_document_method(text)
    }
}

} // verus!
