use heathen::events::ElementX;
use heathen::instance::{InstanceX, Registry};
use serde_json::Value;

fn props(list: Vec<(&str, Value)>) -> Vec<(String, Value)> {
    list.into_iter().map(|(k, v)| (k.to_string(), v)).collect()
}

/// The tree of the selector example, in instance 0.
fn demo(reg: &mut Registry) -> (InstanceX, [ElementX; 4]) {
    let app = reg.new_instance(0, 640, 320);
    let h4 = app.create_element(reg, "h4", props(vec![("a", Value::from("123"))]), &Vec::new()).unwrap();
    let h3 = app.create_element(reg, "h3", Vec::new(), &vec![h4]).unwrap();
    let h2 = app.create_element(reg, "h2", Vec::new(), &Vec::new()).unwrap();
    let h1 = app.create_element(reg, "h1", props(vec![("x", Value::from(3))]), &vec![h2, h3]).unwrap();
    h1.set_id(reg, "demo");
    (app, [h1, h2, h3, h4])
}

#[test]
fn instances_do_not_share_elements() {
    let mut reg = Registry::new();
    let (app, [h1, _, _, _]) = demo(&mut reg);
    let other = InstanceX(5);
    assert!(!reg.has(5));
    let p = other.create_element(&mut reg, "p", props(vec![("zzz", Value::from("yyy"))]), &Vec::new()).unwrap();
    assert!(reg.has(5));
    assert_eq!(p, ElementX { xid: 0, iid: 5 });
    assert_eq!(app.id(), 0);
    assert_eq!(other.select(&reg, "p"), vec![p]);
    assert_eq!(app.select(&reg, "p"), Vec::<ElementX>::new());
    assert_eq!(app.select(&reg, "h1#demo[x^=3]"), vec![h1]);
    assert_eq!(other.select_one(&reg, "h1"), None);
    assert_eq!(app.select_one(&reg, "h1"), Some(h1));
    // An id means another element in another instance.
    let alias = ElementX { xid: h1.xid, iid: 5 };
    assert_eq!(alias.tag(&reg), "");
    assert_eq!(h1.tag(&reg), "h1");
    other.destroy(&mut reg);
    assert!(!reg.has(5));
    assert_eq!(other.select(&reg, "p"), Vec::<ElementX>::new());
    assert_eq!(h1.tag(&reg), "h1");
}

#[test]
fn a_new_instance_starts_afresh() {
    let mut reg = Registry::new();
    let (app, _) = demo(&mut reg);
    assert_eq!(app.select(&reg, "").len(), 4);
    assert_eq!(reg.new_instance(0, 10, 20), app);
    assert_eq!(app.select(&reg, "").len(), 0);
    assert_eq!(app.root(&reg), None);
    assert_eq!(app.active_element(&reg), ElementX { xid: 0, iid: 0 });
    assert_eq!(InstanceX(9).active_element(&reg), ElementX { xid: 0, iid: 9 });
    assert_eq!(InstanceX(9).root(&reg), None);
    let engine = reg.engine(0).unwrap();
    assert_eq!((engine.state.window_width, engine.state.window_height), (10, 20));
}

#[test]
fn handles_read_the_tree() {
    let mut reg = Registry::new();
    let (_, [h1, h2, h3, h4]) = demo(&mut reg);
    assert_eq!(h4.parent(&reg), Some(h3));
    assert_eq!(h1.parent(&reg), None);
    assert_eq!(h4.ancestors(&reg), vec![h3, h1]);
    assert_eq!(h1.children(&reg), vec![h2, h3]);
    assert_eq!(h1.descendants(&reg), vec![h2, h3, h4]);
    assert_eq!(h1.nth_child(&reg, 1), Some(h3));
    assert_eq!(h1.nth_child(&reg, -2), Some(h2));
    assert_eq!(h1.first_child(&reg), Some(h2));
    assert_eq!(h1.last_child(&reg), Some(h3));
    assert_eq!(h2.siblings(&reg), vec![h3]);
    assert_eq!(h2.next_siblings(&reg), vec![h3]);
    assert_eq!(h3.prev_siblings(&reg), vec![h2]);
    assert_eq!(h2.next_sibling(&reg), Some(h3));
    assert_eq!(h3.prev_sibling(&reg), Some(h2));
    assert_eq!(h2.nth_sibling(&reg, 0), Some(h3));
    assert_eq!(h2.nth_sibling(&reg, -1), None);
    assert!(h4.matches(&reg, "h3 > h4"));
    assert!(!h2.matches(&reg, "h3 > h4"));
    assert_eq!(h4.closest_ancestor(&reg, "#demo"), Some(h1));
    assert_eq!(h4.closest_ancestor(&reg, "h2"), None);
    assert_eq!(h1.id(&reg), Some("demo".to_string()));
    assert_eq!(h1.classes(&reg), Vec::<String>::new());
    assert_eq!(h1.text(&reg), None);
    assert_eq!(h1.style(&reg), None);
    assert_eq!(h4.attributes(&reg).len(), 1);
    // An attribute is looked up on the ancestors too.
    assert_eq!(h4.attribute(&reg, "x"), Some(Value::from(3)));
    assert_eq!(h4.attribute(&reg, "a"), Some(Value::from("123")));
    assert_eq!(h1.attribute(&reg, "a"), None);
}

#[test]
fn handles_on_nothing_give_nothing() {
    let mut reg = Registry::new();
    let ghost = ElementX { xid: 3, iid: 8 };
    assert_eq!(ghost.parent(&reg), None);
    assert_eq!(ghost.ancestors(&reg), Vec::<ElementX>::new());
    assert_eq!(ghost.children(&reg), Vec::<ElementX>::new());
    assert_eq!(ghost.descendants(&reg), Vec::<ElementX>::new());
    assert_eq!(ghost.siblings(&reg), Vec::<ElementX>::new());
    assert_eq!(ghost.next_siblings(&reg), Vec::<ElementX>::new());
    assert_eq!(ghost.prev_siblings(&reg), Vec::<ElementX>::new());
    assert_eq!(ghost.nth_child(&reg, 0), None);
    assert_eq!(ghost.nth_sibling(&reg, 0), None);
    assert_eq!(ghost.attribute(&reg, "a"), None);
    assert!(ghost.attributes(&reg).is_empty());
    assert_eq!(ghost.id(&reg), None);
    assert_eq!(ghost.text(&reg), None);
    assert_eq!(ghost.style(&reg), None);
    assert!(ghost.classes(&reg).is_empty());
    assert!(!ghost.matches(&reg, ""));
    assert_eq!(ghost.closest_ancestor(&reg, ""), None);
    assert_eq!(ghost.change_parent(&mut reg, None, None), None);
    assert_eq!(ghost.detach(&mut reg), None);
    assert_eq!(ghost.set_attribute(&mut reg, "a", Value::Null), None);
    assert_eq!(ghost.remove_attribute(&mut reg, "a"), None);
    assert_eq!(ghost.set_text(&mut reg, "t"), None);
    assert_eq!(ghost.set_id(&mut reg, "i"), None);
    assert_eq!(ghost.set_style(&mut reg, Value::Null), None);
    ghost.add_event_listener(&mut reg, "click", "h");
    assert_eq!(ghost.destroy(&mut reg), Vec::<ElementX>::new());
    assert!(!reg.has(8));
}

#[test]
fn handles_change_the_tree() {
    let mut reg = Registry::new();
    let (app, [h1, h2, h3, h4]) = demo(&mut reg);
    assert_eq!(h4.change_parent(&mut reg, Some(h1), Some(0)), Some(h3));
    assert_eq!(h1.children(&reg), vec![h4, h2, h3]);
    assert_eq!(h4.detach(&mut reg), Some(h1));
    assert_eq!(h4.detach(&mut reg), None);
    assert_eq!(h2.set_attribute(&mut reg, "k", Value::from(1)), None);
    assert_eq!(h2.set_attribute(&mut reg, "k", Value::from(2)), Some(Value::from(1)));
    assert_eq!(h2.remove_attribute(&mut reg, "k"), Some(Value::from(2)));
    assert_eq!(h2.set_text(&mut reg, "t"), None);
    assert_eq!(h2.text(&reg), Some("t".to_string()));
    assert_eq!(h2.set_id(&mut reg, "two"), None);
    assert_eq!(app.select(&reg, "#two"), vec![h2]);
    assert_eq!(h2.set_style(&mut reg, Value::Bool(true)), None);
    assert_eq!(h2.style(&reg), Some(Value::Bool(true)));
    assert_eq!(h1.destroy(&mut reg), vec![h2, h3]);
    assert_eq!(h2.parent(&reg), None);
    assert_eq!(app.select(&reg, "h1"), Vec::<ElementX>::new());
    // The released id is handed out again.
    let again = app.create_element(&mut reg, "h5", Vec::new(), &Vec::new()).unwrap();
    assert_eq!(again.xid, h1.xid);
}

#[test]
fn element_listeners_hear_their_element_only() {
    let mut reg = Registry::new();
    let (_, [h1, h2, _, _]) = demo(&mut reg);
    h2.add_event_listener(&mut reg, "mouse.enter", "on-h2");
    h1.add_event_listener(&mut reg, "mouse.enter", "on-h1");
    let mut engine = reg.take(0).unwrap();
    assert_eq!(engine.listeners[0].scope, Some(format!("%{}", h2.xid)));
    let hits = vec![heathen::engine::Hit { xid: h2.xid, z: 0 }];
    let ty = heathen::events::EventTy::Mouse(heathen::events::MouseEvent::Move(0, 0));
    engine.emit(ty, 0, Value::Null, 0, &hits);
    let enter = engine.queue.pop().unwrap();
    assert_eq!(engine.handlers(&enter), vec!["on-h2"]);
    assert!(engine.listener_hears(0, &enter));
    assert!(!engine.listener_hears(1, &enter));
    reg.put(engine);
    assert!(reg.has(0));
}

#[test]
fn a_small_document() {
    let mut reg = Registry::new();
    let app = reg.new_instance(0, 640, 320);
    let h4 = app.create_element(&mut reg, "h4", props(vec![("a", Value::from("123"))]), &Vec::new()).unwrap();
    let h3 = app.create_element(&mut reg, "h3", Vec::new(), &vec![h4]).unwrap();
    let h2 = app.create_element(&mut reg, "h2", Vec::new(), &Vec::new()).unwrap();
    let el = app.create_element(&mut reg, "h1", props(vec![("x", Value::from(3))]), &vec![h2, h3]).unwrap();
    el.set_id(&mut reg, "demo");
    el.set_attribute(&mut reg, "qwerty", Value::from("wow"));
    el.set_attribute(&mut reg, "abc", Value::from(2));
    let tags: Vec<String> = el.descendants(&reg).into_iter().map(|x| x.tag(&reg)).collect();
    assert_eq!(tags, vec!["h2", "h3", "h4"]);
    assert_eq!(app.select(&reg, "h1#demo[qwerty$=ow][abc^=3]"), Vec::<ElementX>::new());
    assert_eq!(app.select(&reg, "h1#demo[qwerty$=ow][abc^=2]"), vec![el]);
    let other = reg.new_instance(1, 0, 0);
    let p = other.create_element(&mut reg, "p", props(vec![("zzz", Value::from("yyy"))]), &Vec::new()).unwrap();
    assert_eq!(app.select(&reg, "p"), Vec::<ElementX>::new());
    assert_eq!(other.select(&reg, "p"), vec![p]);
    assert_eq!(other.select(&reg, "p[zzz=yyy]"), vec![p]);
}
