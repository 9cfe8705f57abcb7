use heathen::events::ElementX;
use heathen::instance::Registry;
use heathen::rpc::{route, Method};
use heathen::splice::{all_distinct, cut_ids};
use heathen::tree::Tree;

fn leaf(tree: &mut Tree) -> u64 {
    tree.insert_leaf("x".to_string(), None, Vec::new(), None, Vec::new(), None, taffy::style::Style::default())
        .unwrap()
}

/// A root 0 with children 1, 2, 3, 4; another root 5 with child 6; a root 7.
fn shape() -> Tree {
    let mut tree = Tree::new();
    for _ in 0..8 {
        leaf(&mut tree);
    }
    for (child, parent) in [(1, 0), (2, 0), (3, 0), (4, 0), (6, 5)] {
        tree.change_parent(child, Some(parent), None);
    }
    tree
}

fn layout_in_step(tree: &Tree, x: u64) {
    let keys: Vec<_> = tree.children(x).into_iter().map(|c| tree.layout_key(c).unwrap()).collect();
    assert_eq!(tree.layout_child_keys(x), keys);
}

#[test]
fn splice_replaces_a_run_of_children() {
    let mut tree = shape();
    assert_eq!(tree.splice_children(0, 1, 3, &vec![6, 7]), Some(vec![2, 3]));
    assert_eq!(tree.children(0), vec![1, 6, 7, 4]);
    assert_eq!(tree.children(5), Vec::<u64>::new());
    assert_eq!(tree.parent(6), Some(0));
    assert_eq!(tree.parent(7), Some(0));
    assert_eq!(tree.parent(2), None);
    assert_eq!(tree.parent(3), None);
    layout_in_step(&tree, 0);
    layout_in_step(&tree, 5);
}

#[test]
fn splice_can_only_remove_or_only_insert() {
    let mut tree = shape();
    assert_eq!(tree.splice_children(0, 0, 2, &Vec::new()), Some(vec![1, 2]));
    assert_eq!(tree.children(0), vec![3, 4]);
    assert_eq!(tree.splice_children(0, 2, 2, &vec![7]), Some(Vec::new()));
    assert_eq!(tree.children(0), vec![3, 4, 7]);
    assert_eq!(tree.splice_children(0, 0, 0, &vec![1]), Some(Vec::new()));
    assert_eq!(tree.children(0), vec![1, 3, 4, 7]);
    layout_in_step(&tree, 0);
}

#[test]
fn splice_may_put_removed_children_back() {
    let mut tree = shape();
    assert_eq!(tree.splice_children(0, 1, 4, &vec![4, 2]), Some(vec![2, 3, 4]));
    assert_eq!(tree.children(0), vec![1, 4, 2]);
    assert_eq!(tree.parent(3), None);
    assert_eq!(tree.parent(4), Some(0));
    layout_in_step(&tree, 0);
}

#[test]
fn splice_moves_children_that_stand_outside_the_range() {
    let mut tree = shape();
    // A child after the range moves into it.
    assert_eq!(tree.splice_children(0, 0, 1, &vec![3]), Some(vec![1]));
    assert_eq!(tree.children(0), vec![3, 2, 4]);
    assert_eq!(tree.parent(1), None);
    // A child before the range moves into it, and the range moves with it.
    assert_eq!(tree.splice_children(0, 2, 3, &vec![3, 7]), Some(vec![4]));
    assert_eq!(tree.children(0), vec![2, 3, 7]);
    assert_eq!(tree.parent(4), None);
    // Children on both sides, in a new order, around an empty range.
    assert_eq!(tree.splice_children(0, 1, 1, &vec![7, 2]), Some(Vec::new()));
    assert_eq!(tree.children(0), vec![7, 2, 3]);
    for x in [2, 3, 7] {
        assert_eq!(tree.parent(x), Some(0));
    }
    layout_in_step(&tree, 0);
}

#[test]
fn splice_refuses_what_would_break_the_tree() {
    let mut tree = shape();
    let before = tree.children(0);
    // The range must lie in the children.
    assert_eq!(tree.splice_children(0, 2, 1, &Vec::new()), None);
    assert_eq!(tree.splice_children(0, 0, 5, &Vec::new()), None);
    assert_eq!(tree.splice_children(0, 5, 5, &Vec::new()), None);
    // The node and the new children must exist.
    assert_eq!(tree.splice_children(99, 0, 0, &Vec::new()), None);
    assert_eq!(tree.splice_children(0, 0, 0, &vec![99]), None);
    // No child twice.
    assert_eq!(tree.splice_children(0, 0, 1, &vec![7, 7]), None);
    // Not the node itself, not an ancestor.
    assert_eq!(tree.splice_children(0, 0, 0, &vec![0]), None);
    assert_eq!(tree.splice_children(6, 0, 0, &vec![5]), None);
    assert_eq!(tree.children(0), before);
    assert_eq!(tree.parent(6), Some(5));
    assert!(!tree.can_splice(0, 0, 1, &vec![0]));
    assert!(tree.can_splice(0, 0, 1, &vec![2]));
    assert!(tree.can_splice(0, 0, 2, &vec![2]));
}

#[test]
fn all_distinct_finds_repeats() {
    assert!(all_distinct(&vec![]));
    assert!(all_distinct(&vec![3, 1, 2]));
    assert!(!all_distinct(&vec![3, 1, 3]));
    assert!(!all_distinct(&vec![1, 1]));
    assert_eq!(cut_ids(&vec![5, 6, 7, 8], 1, 3), vec![6, 7]);
    assert_eq!(cut_ids(&vec![5, 6], 2, 2), Vec::<u64>::new());
}

#[test]
fn splice_through_handles() {
    let mut reg = Registry::new();
    let app = reg.new_instance(2, 1, 1);
    let el = |xid| ElementX { xid, iid: 2 };
    for _ in 0..4 {
        app.create_element(&mut reg, "x", Vec::new(), &Vec::new()).unwrap();
    }
    el(1).change_parent(&mut reg, Some(el(0)), None);
    el(2).change_parent(&mut reg, Some(el(0)), None);
    assert_eq!(el(0).splice_children(&mut reg, 0, 1, &vec![el(3)]), Some(vec![el(1)]));
    assert_eq!(el(0).children(&reg), vec![el(3), el(2)]);
    assert_eq!(el(0).splice_children(&mut reg, 0, 9, &Vec::new()), None);
    assert_eq!(ElementX { xid: 0, iid: 9 }.splice_children(&mut reg, 0, 0, &Vec::new()), None);
}

#[test]
fn route_names_operations() {
    assert_eq!(route("document.select"), Some(Method::Select));
    assert_eq!(route("select_one"), Some(Method::SelectOne));
    assert_eq!(route("root"), Some(Method::Root));
    assert_eq!(route("document.create_element"), Some(Method::CreateElement));
    assert_eq!(route("element.parent"), Some(Method::Parent));
    assert_eq!(route("element.splice_children"), Some(Method::SpliceChildren));
    assert_eq!(route("element.delete"), Some(Method::Delete));
    assert_eq!(route("element.set_id"), Some(Method::SetId));
    assert_eq!(route("element.id"), Some(Method::Id));
    // A method belongs to its target.
    assert_eq!(route("parent"), None);
    assert_eq!(route("element.select"), None);
    assert_eq!(route("document.parent"), None);
    assert_eq!(route("window.select"), None);
    assert_eq!(route("element.parent.x"), None);
    assert_eq!(route("element."), None);
    assert_eq!(route(".select"), None);
    assert_eq!(route(""), None);
}
