use heathen::create::{gather, prop, take_prop, texts};
use heathen::engine::Engine;
use serde_json::Value;

fn props(list: Vec<(&str, Value)>) -> Vec<(String, Value)> {
    list.into_iter().map(|(k, v)| (k.to_string(), v)).collect()
}

#[test]
fn properties_say_what_the_element_is() {
    let mut e = Engine::new(0, 1, 1);
    let classes = Value::from(vec![Value::from("x"), Value::from(3), Value::from("y"), Value::from("x")]);
    let style = Value::Object(serde_json::Map::new());
    let x = e
        .create_element(
            "div",
            props(vec![
                ("id", Value::from("main")),
                ("k", Value::from(1)),
                ("classes", classes),
                ("text", Value::from("hello")),
                ("style", style.clone()),
                ("j", Value::from("v")),
                ("k", Value::from(2)),
            ]),
            &Vec::new(),
        )
        .unwrap();
    assert_eq!(e.tree.tag(x), "div");
    assert_eq!(e.tree.id(x), Some("main".to_string()));
    assert_eq!(e.tree.classes(x), vec!["x", "y"]);
    assert_eq!(e.tree.text(x), Some("hello".to_string()));
    assert_eq!(e.tree.style(x), Some(style));
    let attrs: Vec<(String, Value)> = e.tree.attributes(x).into_iter().map(|a| (a.name, a.value)).collect();
    assert_eq!(attrs, props(vec![("k", Value::from(2)), ("j", Value::from("v"))]));
    assert_eq!(e.tree.select("div#main.x.y[k=2][j=v]"), vec![x]);
}

#[test]
fn properties_of_another_type_are_dropped() {
    let mut e = Engine::new(0, 1, 1);
    let x = e
        .create_element(
            "p",
            props(vec![("id", Value::from(5)), ("classes", Value::from("x")), ("text", Value::Null)]),
            &Vec::new(),
        )
        .unwrap();
    assert_eq!(e.tree.id(x), None);
    assert_eq!(e.tree.classes(x), Vec::<String>::new());
    assert_eq!(e.tree.text(x), None);
    assert_eq!(e.tree.style(x), None);
    assert!(e.tree.attributes(x).is_empty());
}

#[test]
fn children_are_moved_not_copied() {
    let mut e = Engine::new(0, 1, 1);
    let a = e.create_element("a", Vec::new(), &Vec::new()).unwrap();
    let b = e.create_element("b", Vec::new(), &Vec::new()).unwrap();
    let old = e.create_element("old", Vec::new(), &vec![a, b]).unwrap();
    assert_eq!(e.tree.children(old), vec![a, b]);
    // A missing child is skipped, a child named twice moves to the end.
    let new = e.create_element("new", Vec::new(), &vec![b, 99, a, b]).unwrap();
    assert_eq!(e.tree.children(new), vec![a, b]);
    assert_eq!(e.tree.children(old), Vec::<u64>::new());
    assert_eq!(e.tree.parent(a), Some(new));
    assert_eq!(e.tree.ids(), vec![a, b, old, new]);
}

#[test]
fn gathering_keeps_the_last_value_of_a_name() {
    let mut all = gather(props(vec![("a", Value::from(1)), ("b", Value::from(2)), ("a", Value::from(3))]));
    let seen: Vec<(String, Value)> = all.iter().map(|a| (a.name.clone(), a.value.clone())).collect();
    assert_eq!(seen, props(vec![("a", Value::from(3)), ("b", Value::from(2))]));
    assert_eq!(prop(&all, "b"), Some(Value::from(2)));
    assert_eq!(prop(&all, "c"), None);
    assert_eq!(take_prop(&mut all, "a"), Some(Value::from(3)));
    assert_eq!(take_prop(&mut all, "a"), None);
    assert_eq!(all.len(), 1);
}

#[test]
fn texts_keeps_strings_once() {
    let items = vec![Value::from("b"), Value::Bool(true), Value::from("a"), Value::from("b"), Value::Null];
    assert_eq!(texts(&items), vec!["b", "a"]);
    assert_eq!(texts(&Vec::new()), Vec::<String>::new());
}
