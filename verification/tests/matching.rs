use heathen::matching::value_matches;
use heathen::selectors::Op;
use heathen::textops::{decimal_of, id_selector, same_text, to_chars};
use heathen::tree::Tree;
use serde_json::Value;

fn element(tree: &mut Tree, tag: &str, id: Option<&str>, classes: &[&str], attrs: Vec<(&str, Value)>) -> u64 {
    let attrs = attrs
        .into_iter()
        .map(|(name, value)| heathen::node::Attr { name: name.to_string(), value })
        .collect();
    tree.insert_leaf(
        tag.to_string(),
        id.map(|s| s.to_string()),
        classes.iter().map(|s| s.to_string()).collect(),
        None,
        attrs,
        None,
        taffy::style::Style::default(),
    )
    .unwrap()
}

fn sorted(mut v: Vec<u64>) -> Vec<u64> {
    v.sort();
    v
}

/// `h1#demo` with children `h2` and `h3`; `h3` has the child `h4[a="123"]`.
fn demo() -> (Tree, [u64; 4]) {
    let mut tree = Tree::new();
    let h1 = element(&mut tree, "h1", Some("demo"), &[], vec![("x", Value::from(3))]);
    let h2 = element(&mut tree, "h2", None, &["big", "red"], vec![]);
    let h3 = element(&mut tree, "h3", None, &["big"], vec![]);
    let h4 = element(&mut tree, "h4", None, &[], vec![("a", Value::from("123"))]);
    tree.change_parent(h2, Some(h1), None);
    tree.change_parent(h3, Some(h1), None);
    tree.change_parent(h4, Some(h3), None);
    (tree, [h1, h2, h3, h4])
}

#[test]
fn selector_example() {
    let (mut tree, [h1, _, h3, h4]) = demo();
    assert_eq!(tree.select("h1#demo[a^=1]"), Vec::<u64>::new());
    assert_eq!(tree.select("[a^=1]"), vec![h4]);
    assert_eq!(tree.select("h3 > h4"), vec![h4]);
    tree.destroy(h3);
    assert_eq!(tree.parent(h4), None);
    assert!(!tree.descendants(h1).contains(&h4));
}

#[test]
fn rules_test_tag_id_class_and_element_id() {
    let (tree, [h1, h2, h3, h4]) = demo();
    assert_eq!(tree.select("h2"), vec![h2]);
    assert_eq!(tree.select("#demo"), vec![h1]);
    assert_eq!(tree.select("h2#demo"), Vec::<u64>::new());
    assert_eq!(sorted(tree.select(".big")), vec![h2, h3]);
    assert_eq!(tree.select(".big.red"), vec![h2]);
    assert_eq!(tree.select("h3.red"), Vec::<u64>::new());
    assert_eq!(tree.select("%3"), vec![h4]);
    assert_eq!(tree.select("h4%3"), vec![h4]);
    assert_eq!(tree.select("%03"), Vec::<u64>::new());
    assert_eq!(tree.select("%9"), Vec::<u64>::new());
    assert_eq!(sorted(tree.select("")), vec![h1, h2, h3, h4]);
}

#[test]
fn attribute_tests_compare_the_rendered_value() {
    let (tree, [h1, _, _, h4]) = demo();
    assert_eq!(tree.select("[a]"), vec![h4]);
    assert_eq!(tree.select("[a=123]"), vec![h4]);
    assert_eq!(tree.select("[a=12]"), Vec::<u64>::new());
    assert_eq!(tree.select("[a!=12]"), vec![h4]);
    assert_eq!(tree.select("[a!=123]"), Vec::<u64>::new());
    assert_eq!(tree.select("[a*=2]"), vec![h4]);
    assert_eq!(tree.select("[a$=23]"), vec![h4]);
    assert_eq!(tree.select("[a$=12]"), Vec::<u64>::new());
    // A number is compared by its JSON text.
    assert_eq!(tree.select("[x=3]"), vec![h1]);
    assert_eq!(tree.select("[x^=3][x]"), vec![h1]);
    assert_eq!(tree.select("[missing!=1]"), Vec::<u64>::new());
}

#[test]
fn combinators_lead_to_related_elements() {
    let (tree, [h1, h2, h3, h4]) = demo();
    assert_eq!(tree.select("h4 < "), Vec::<u64>::new());
    assert_eq!(tree.select("h4 < h3"), vec![h3]);
    assert_eq!(tree.select("h4 << h1"), vec![h1]);
    assert_eq!(sorted(tree.select("h4 <<")), Vec::<u64>::new());
    assert_eq!(sorted(tree.select("h4 << *")), Vec::<u64>::new());
    assert_eq!(sorted(tree.select("h1 > .big")), vec![h2, h3]);
    assert_eq!(tree.select("h1 >> h4"), vec![h4]);
    assert_eq!(tree.select("h1 > h4"), Vec::<u64>::new());
    assert_eq!(tree.select("h2 + h3"), vec![h3]);
    assert_eq!(tree.select("h2 ++ h3"), vec![h3]);
    assert_eq!(tree.select("h3 ~ h2"), vec![h2]);
    assert_eq!(tree.select("h3 ~~ h2"), vec![h2]);
    assert_eq!(tree.select("h3 ~+ h2"), vec![h2]);
    assert_eq!(tree.select("h2 ~+ h3"), vec![h3]);
    assert_eq!(tree.select("h3 + h2"), Vec::<u64>::new());
    assert_eq!(tree.select("h1 > h3 > h4"), vec![h4]);
}

#[test]
fn selector_lists_are_put_together_without_repeats() {
    let (tree, [h1, h2, h3, h4]) = demo();
    assert_eq!(sorted(tree.select("h2,h4")), vec![h2, h4]);
    assert_eq!(sorted(tree.select("h2,.big,h2")), vec![h2, h3]);
    assert_eq!(sorted(tree.select("h1 > h2,h4 << h1,h1")), vec![h1, h2]);
    // A selector that does not parse finds nothing, the others still count.
    assert_eq!(tree.select("h2 h3"), Vec::<u64>::new());
    assert_eq!(tree.select("h2, h3"), vec![h2]);
    assert_eq!(tree.select("#,h3"), vec![h3]);
    let all = tree.select("h1,h2,h3,h4,");
    assert_eq!(sorted(all), vec![h1, h2, h3, h4]);
}

#[test]
fn matches_and_closest_ancestor() {
    let (tree, [h1, _, h3, h4]) = demo();
    assert!(tree.matches(h4, "h3 > h4"));
    assert!(!tree.matches(h3, "h3 > h4"));
    assert!(!tree.matches(99, "h4"));
    assert_eq!(tree.closest_ancestor(h4, "h1,h3"), Some(h3));
    assert_eq!(tree.closest_ancestor(h4, "h1"), Some(h1));
    assert_eq!(tree.closest_ancestor(h4, "h4"), None);
    assert_eq!(tree.closest_ancestor(h1, "h1"), None);
}

#[test]
fn value_matches_each_operator() {
    assert!(value_matches(Op::Exists, "null", "whatever"));
    assert!(value_matches(Op::Equals, "\"123\"", "123"));
    assert!(!value_matches(Op::Equals, "\"123\"", "12"));
    assert!(value_matches(Op::NotEquals, "\"123\"", "12"));
    assert!(!value_matches(Op::NotEquals, "123", "123"));
    assert!(value_matches(Op::StartsWith, "\"abc\"", "ab"));
    assert!(!value_matches(Op::StartsWith, "\"abc\"", "bc"));
    assert!(!value_matches(Op::StartsWith, "\"a\"", "ab"));
    assert!(value_matches(Op::Contains, "[\"x\",\"yz\"]", "x,y"));
    assert!(value_matches(Op::Contains, "\"abc\"", "b"));
    assert!(!value_matches(Op::Contains, "\"abc\"", "ca"));
    assert!(value_matches(Op::EndsWith, "\"abc\"", "bc"));
    assert!(!value_matches(Op::EndsWith, "\"abc\"", "ab"));
    assert!(!value_matches(Op::EndsWith, "\"c\"", "bc"));
    // The quotes are dropped before the comparison.
    assert!(!value_matches(Op::StartsWith, "\"abc\"", "\""));
}

#[test]
fn text_helpers() {
    assert_eq!(to_chars("aé"), vec!['a', 'é']);
    assert!(same_text("abc", "abc"));
    assert!(!same_text("abc", "abd"));
    assert!(!same_text("abc", "ab"));
    assert_eq!(decimal_of(0), vec!['0']);
    assert_eq!(decimal_of(1207), vec!['1', '2', '0', '7']);
    assert_eq!(decimal_of(u64::MAX).iter().collect::<String>(), "18446744073709551615");
    assert_eq!(id_selector(0), "%0");
    assert_eq!(id_selector(9051), "%9051");
}
