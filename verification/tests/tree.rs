use heathen::tree::{place, Tree};

fn leaf(tree: &mut Tree, tag: &str) -> u64 {
    tree.insert_leaf(
        tag.to_string(),
        None,
        Vec::new(),
        None,
        Vec::new(),
        None,
        taffy::style::Style::default(),
    )
    .unwrap()
}

/// A root `r` with children `a`, `b`, `c`; `a` has children `d`, `e`; `c` has child `f`.
fn shape() -> (Tree, [u64; 7]) {
    let mut tree = Tree::new();
    let r = leaf(&mut tree, "r");
    let a = leaf(&mut tree, "a");
    let b = leaf(&mut tree, "b");
    let c = leaf(&mut tree, "c");
    let d = leaf(&mut tree, "d");
    let e = leaf(&mut tree, "e");
    let f = leaf(&mut tree, "f");
    for (child, parent) in [(a, r), (b, r), (c, r), (d, a), (e, a), (f, c)] {
        assert_eq!(tree.change_parent(child, Some(parent), None), None);
    }
    (tree, [r, a, b, c, d, e, f])
}

#[test]
fn ids_start_at_zero_and_count_up() {
    let mut tree = Tree::new();
    assert_eq!(leaf(&mut tree, "a"), 0);
    assert_eq!(leaf(&mut tree, "b"), 1);
    assert_eq!(leaf(&mut tree, "c"), 2);
    assert_eq!(tree.ids(), vec![0, 1, 2]);
}

#[test]
fn released_ids_are_reused_latest_first() {
    let mut tree = Tree::new();
    let ids: Vec<u64> = (0..4).map(|_| leaf(&mut tree, "x")).collect();
    assert_eq!(ids, vec![0, 1, 2, 3]);
    tree.destroy(1);
    tree.destroy(2);
    assert!(!tree.contains(1));
    assert_eq!(leaf(&mut tree, "y"), 2);
    assert_eq!(leaf(&mut tree, "y"), 1);
    assert_eq!(leaf(&mut tree, "y"), 4);
    assert_eq!(tree.ids(), vec![0, 1, 2, 3, 4]);
}

#[test]
fn detach_twice_is_a_no_op() {
    let mut tree = Tree::new();
    let a = leaf(&mut tree, "a");
    let b = leaf(&mut tree, "b");
    assert_eq!(tree.change_parent(b, Some(a), None), None);
    assert_eq!(tree.parent(b), Some(a));
    assert_eq!(tree.detach(b), Some(a));
    assert_eq!(tree.detach(b), None);
    assert_eq!(tree.parent(b), None);
    assert_eq!(tree.children(a), Vec::<u64>::new());
}

#[test]
fn every_child_is_listed_once_by_its_parent() {
    let (tree, ids) = shape();
    for x in ids {
        if let Some(p) = tree.parent(x) {
            assert_eq!(tree.children(p).iter().filter(|c| **c == x).count(), 1);
        }
        for c in tree.children(x) {
            assert_eq!(tree.parent(c), Some(x));
        }
    }
}

#[test]
fn descendants_come_in_level_order() {
    let (tree, [r, a, b, c, d, e, f]) = shape();
    assert_eq!(tree.descendants(r), vec![a, b, c, d, e, f]);
    assert_eq!(tree.descendants(a), vec![d, e]);
    assert_eq!(tree.descendants(b), Vec::<u64>::new());
    assert_eq!(tree.descendants(99), Vec::<u64>::new());
}

#[test]
fn ancestors_lead_to_the_root() {
    let (tree, [r, a, _, _, d, _, _]) = shape();
    assert_eq!(tree.ancestors(d), vec![a, r]);
    assert_eq!(tree.ancestors(r), Vec::<u64>::new());
    assert_eq!(tree.ancestors(99), Vec::<u64>::new());
}

#[test]
fn within_tells_descendants() {
    let (tree, [r, a, b, _, d, _, _]) = shape();
    assert!(tree.within(d, r));
    assert!(tree.within(d, a));
    assert!(tree.within(d, d));
    assert!(!tree.within(d, b));
    assert!(!tree.within(r, d));
    assert!(!tree.within(99, r));
}

#[test]
fn a_node_cannot_move_under_itself_or_its_descendants() {
    let (mut tree, [r, a, _, _, d, _, _]) = shape();
    // The node leaves its parent, and stays a root.
    assert_eq!(tree.change_parent(a, Some(d), None), Some(r));
    assert_eq!(tree.parent(a), None);
    assert_eq!(tree.children(d), Vec::<u64>::new());
    assert_eq!(tree.change_parent(a, Some(a), None), None);
    assert_eq!(tree.parent(a), None);
    assert_eq!(tree.ancestors(d), vec![a]);
}

#[test]
fn a_missing_parent_leaves_the_node_a_root() {
    let (mut tree, [r, a, b, c, _, _, _]) = shape();
    assert_eq!(tree.change_parent(a, Some(99), None), Some(r));
    assert_eq!(tree.parent(a), None);
    assert_eq!(tree.children(r), vec![b, c]);
    assert_eq!(tree.change_parent(99, Some(r), None), None);
    assert_eq!(tree.children(r), vec![b, c]);
}

#[test]
fn insertion_index_places_the_node() {
    let (mut tree, [r, a, b, c, d, _, _]) = shape();
    // Zero and up name the position.
    assert_eq!(tree.change_parent(d, Some(r), Some(0)), Some(a));
    assert_eq!(tree.children(r), vec![d, a, b, c]);
    assert_eq!(tree.change_parent(d, Some(r), Some(2)), Some(r));
    assert_eq!(tree.children(r), vec![a, b, d, c]);
    // Past the end appends.
    assert_eq!(tree.change_parent(d, Some(r), Some(17)), Some(r));
    assert_eq!(tree.children(r), vec![a, b, c, d]);
    // -1 puts the node before the last two of the three others.
    assert_eq!(tree.change_parent(d, Some(r), Some(-1)), Some(r));
    assert_eq!(tree.children(r), vec![a, d, b, c]);
    assert_eq!(tree.change_parent(d, Some(r), Some(-2)), Some(r));
    assert_eq!(tree.children(r), vec![d, a, b, c]);
    // Too far back puts it first.
    assert_eq!(tree.change_parent(d, Some(r), Some(-40)), Some(r));
    assert_eq!(tree.children(r), vec![d, a, b, c]);
    assert_eq!(tree.change_parent(d, Some(r), Some(isize::MIN)), Some(r));
    assert_eq!(tree.children(r), vec![d, a, b, c]);
}

#[test]
fn place_computes_exact_positions() {
    assert_eq!(place(3, 0), 0);
    assert_eq!(place(3, 3), 3);
    assert_eq!(place(3, 4), 3);
    assert_eq!(place(3, -1), 1);
    assert_eq!(place(3, -2), 0);
    assert_eq!(place(3, -3), 0);
    assert_eq!(place(0, -1), 0);
    assert_eq!(place(5, isize::MAX), 5);
}

#[test]
fn children_by_index() {
    let (tree, [r, a, b, c, _, _, _]) = shape();
    assert_eq!(tree.nth_child(r, 0), Some(a));
    assert_eq!(tree.nth_child(r, 2), Some(c));
    assert_eq!(tree.nth_child(r, 3), None);
    assert_eq!(tree.nth_child(r, -1), Some(c));
    assert_eq!(tree.nth_child(r, -3), Some(a));
    assert_eq!(tree.nth_child(r, -4), None);
    assert_eq!(tree.first_child(r), Some(a));
    assert_eq!(tree.last_child(r), Some(c));
    assert_eq!(tree.first_child(b), None);
    assert_eq!(tree.last_child(99), None);
    assert_eq!(tree.child_count(r), 3);
}

#[test]
fn siblings_follow_the_parents_order() {
    let (tree, [r, a, b, c, _, _, _]) = shape();
    assert_eq!(tree.next_siblings(a), vec![b, c]);
    assert_eq!(tree.prev_siblings(c), vec![b, a]);
    assert_eq!(tree.siblings(b), vec![a, c]);
    assert_eq!(tree.next_sibling(a), Some(b));
    assert_eq!(tree.next_sibling(c), None);
    assert_eq!(tree.prev_sibling(c), Some(b));
    assert_eq!(tree.prev_sibling(a), None);
    assert_eq!(tree.nth_sibling(a, 1), Some(c));
    assert_eq!(tree.nth_sibling(c, -2), Some(a));
    assert_eq!(tree.nth_sibling(a, 2), None);
    // A root has no siblings.
    assert_eq!(tree.siblings(r), Vec::<u64>::new());
    assert_eq!(tree.next_sibling(r), None);
}

#[test]
fn destroy_orphans_the_children() {
    let (mut tree, [r, a, b, c, d, e, _]) = shape();
    assert_eq!(tree.destroy(a), vec![d, e]);
    assert!(!tree.contains(a));
    assert_eq!(tree.children(r), vec![b, c]);
    assert_eq!(tree.parent(d), None);
    assert_eq!(tree.parent(e), None);
    assert_eq!(tree.descendants(r), vec![b, c, tree.children(c)[0]]);
    assert_eq!(tree.destroy(a), Vec::<u64>::new());
    assert_eq!(tree.destroy(99), Vec::<u64>::new());
}

#[test]
fn layout_tree_mirrors_the_element_tree() {
    let (mut tree, [r, a, b, c, d, _, _]) = shape();
    let keys = |tree: &Tree, ids: Vec<u64>| -> Vec<taffy::node::Node> {
        ids.into_iter().map(|x| tree.layout_key(x).unwrap()).collect()
    };
    assert_eq!(tree.layout_child_keys(r), keys(&tree, vec![a, b, c]));
    tree.change_parent(d, Some(r), Some(1));
    assert_eq!(tree.layout_child_keys(r), keys(&tree, vec![a, d, b, c]));
    assert_eq!(tree.layout_child_keys(a), keys(&tree, tree.children(a)));
    tree.detach(b);
    assert_eq!(tree.layout_child_keys(r), keys(&tree, vec![a, d, c]));
    tree.destroy(a);
    assert_eq!(tree.layout_child_keys(r), keys(&tree, vec![d, c]));
    assert_eq!(tree.layout_child_keys(99), Vec::new());
}

#[test]
fn text_id_and_visibility() {
    let mut tree = Tree::new();
    let a = leaf(&mut tree, "a");
    assert_eq!(tree.tag(a), "a");
    assert_eq!(tree.tag(9), "");
    assert_eq!(tree.text(a), None);
    assert_eq!(tree.set_text(a, "one".to_string()), None);
    assert_eq!(tree.set_text(a, "two".to_string()), Some("one".to_string()));
    assert_eq!(tree.text(a), Some("two".to_string()));
    assert_eq!(tree.set_text(9, "x".to_string()), None);
    assert_eq!(tree.id(a), None);
    assert_eq!(tree.set_id(a, "demo".to_string()), None);
    assert_eq!(tree.set_id(a, "other".to_string()), Some("demo".to_string()));
    assert_eq!(tree.id(a), Some("other".to_string()));
    assert!(!tree.hidden(a));
    assert!(!tree.set_hidden(a, true));
    assert!(tree.hidden(a));
    assert_eq!(tree.style(a), None);
    assert_eq!(tree.set_style(a, serde_json::Value::Bool(true)), None);
    assert_eq!(tree.style(a), Some(serde_json::Value::Bool(true)));
}

#[test]
fn attributes_are_set_removed_and_inherited() {
    let (mut tree, [r, a, _, _, d, _, _]) = shape();
    let one = serde_json::Value::from(1);
    let two = serde_json::Value::from(2);
    assert_eq!(tree.set_attribute(r, "k", one.clone()), None);
    assert_eq!(tree.set_attribute(r, "j", two.clone()), None);
    assert_eq!(tree.set_attribute(r, "k", two.clone()), Some(one.clone()));
    let names: Vec<String> = tree.attributes(r).into_iter().map(|a| a.name).collect();
    assert_eq!(names, vec!["k", "j"]);
    // Own value first, then the nearest ancestor's.
    assert_eq!(tree.own_attribute(d, "k"), None);
    assert_eq!(tree.attribute(d, "k"), Some(two.clone()));
    assert_eq!(tree.set_attribute(a, "k", one.clone()), None);
    assert_eq!(tree.attribute(d, "k"), Some(one.clone()));
    assert_eq!(tree.attribute(d, "missing"), None);
    assert_eq!(tree.remove_attribute(a, "k"), Some(one));
    assert_eq!(tree.remove_attribute(a, "k"), None);
    assert_eq!(tree.attribute(d, "k"), Some(two));
    assert_eq!(tree.set_attribute(99, "k", serde_json::Value::Null), None);
}

#[test]
fn a_leaf_can_take_any_released_id() {
    let mut tree = Tree::new();
    for _ in 0..4 {
        leaf(&mut tree, "x");
    }
    tree.destroy(1);
    tree.destroy(3);
    tree.destroy(2);
    assert_eq!((tree.free_count(), tree.free_at(0), tree.free_at(1), tree.free_at(2)), (3, 1, 3, 2));
    let style = taffy::style::Style::default;
    let made = tree.insert_leaf_at(Some(1), "y".to_string(), None, Vec::new(), None, Vec::new(), None, style());
    assert_eq!(made, Some(3));
    assert_eq!((tree.free_count(), tree.free_at(0), tree.free_at(1)), (2, 1, 2));
    let made = tree.insert_leaf_at(None, "y".to_string(), None, Vec::new(), None, Vec::new(), None, style());
    assert_eq!(made, Some(4));
    assert_eq!(tree.free_count(), 2);
    assert_eq!(leaf(&mut tree, "z"), 2);
    assert_eq!(leaf(&mut tree, "z"), 1);
    assert_eq!(leaf(&mut tree, "z"), 5);
    assert_eq!(tree.ids(), vec![0, 1, 2, 3, 4, 5]);
}
