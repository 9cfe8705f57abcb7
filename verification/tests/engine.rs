use heathen::document::{active_element, create_element, root, select, select_one};
use heathen::engine::{next_id, Binding, Drain, Engine, Hit, MAX_PASSES};
use heathen::events::{
    AnimationEvent, ChangeEvent, ClickEvent, DoubleClickEvent, DragEvent, ElementX, Event, EventTy, FocusEvent,
    Handler, KeyEvent, MouseEvent, ScrollEvent, State, WindowEvent,
};
use serde_json::Value;

fn el(xid: u64) -> ElementX {
    ElementX { xid, iid: 7 }
}

/// An engine with the elements 0, 1 and 2, all roots.
fn engine() -> Engine {
    let mut e = Engine::new(7, 640, 320);
    for tag in ["a", "b", "c"] {
        e.create_element(tag, Vec::new(), &Vec::new()).unwrap();
    }
    e
}

fn kinds(events: &[Event]) -> Vec<String> {
    events.iter().map(|e| e.ty.name().to_string()).collect()
}

fn mouse_move(e: &mut Engine, hits: &[(u64, i64)]) {
    let hits: Vec<Hit> = hits.iter().map(|(xid, z)| Hit { xid: *xid, z: *z }).collect();
    e.emit(EventTy::Mouse(MouseEvent::Move(3, 4)), 0, Value::Null, 10, &hits);
}

#[test]
fn a_new_engine_is_empty() {
    let e = Engine::new(7, 640, 320);
    assert_eq!(e.state.iid, 7);
    assert_eq!((e.state.window_width, e.state.window_height), (640, 320));
    assert_eq!(e.state.mouse_position(), (0, 0));
    assert_eq!(e.state.hovered(), el(0));
    assert_eq!(e.state.focused(), el(0));
    assert!(e.queue.is_empty() && e.listeners.is_empty() && !e.draining);
    assert_eq!(root(&e), None);
    assert_eq!(active_element(&e), el(0));
}

#[test]
fn hover_transition() {
    let mut e = engine();
    // From element 0 to element 1: the raw event, one leave, one enter.
    mouse_move(&mut e, &[(1, 0)]);
    assert_eq!(kinds(&e.queue), vec!["mouse.move", "mouse.leave", "mouse.enter"]);
    assert_eq!(e.queue[0].target, el(1));
    assert_eq!(e.queue[1].target, el(0));
    assert_eq!(e.queue[1].src, el(0));
    assert_eq!(e.queue[2].target, el(1));
    assert_eq!(e.state.hovered, 1);
    assert_eq!(e.state.mouse_position(), (3, 4));
    for event in &e.queue {
        assert_eq!(event.prev.hovered, 0);
        assert_eq!(event.state.hovered, 1);
        assert_eq!(event.timestamp, 10);
    }
    assert_eq!(e.queue.iter().map(|e| e.id).collect::<Vec<_>>(), vec![0, 1, 2]);
    // The same element again: the raw event alone.
    e.queue.clear();
    mouse_move(&mut e, &[(1, 0)]);
    assert_eq!(kinds(&e.queue), vec!["mouse.move"]);
    assert_eq!(e.queue[0].id, 3);
    // To another element: both derived events again.
    mouse_move(&mut e, &[(2, 0)]);
    assert_eq!(kinds(&e.queue), vec!["mouse.move", "mouse.move", "mouse.leave", "mouse.enter"]);
    assert_eq!(e.queue[2].target, el(1));
    assert_eq!(e.queue[3].target, el(2));
}

#[test]
fn hover_takes_the_topmost_visible_hit() {
    let mut e = engine();
    assert_eq!(e.resolve_hover(&vec![]), 0);
    let hits = |v: &[(u64, i64)]| v.iter().map(|(xid, z)| Hit { xid: *xid, z: *z }).collect::<Vec<_>>();
    assert_eq!(e.resolve_hover(&hits(&[(1, 5), (2, 9), (0, 7)])), 2);
    // Among equally high hits the last wins.
    assert_eq!(e.resolve_hover(&hits(&[(1, 5), (2, 5), (0, 1)])), 2);
    assert_eq!(e.resolve_hover(&hits(&[(2, 5), (1, 5)])), 1);
    assert_eq!(e.resolve_hover(&hits(&[(1, -3), (2, -4)])), 1);
    // Hidden and missing elements do not count.
    e.tree.set_hidden(2, true);
    assert_eq!(e.resolve_hover(&hits(&[(1, 5), (2, 9), (44, 99)])), 1);
    assert_eq!(e.resolve_hover(&hits(&[(2, 9), (44, 99)])), 0);
}

#[test]
fn focus_transition() {
    let mut e = engine();
    mouse_move(&mut e, &[(2, 0)]);
    e.queue.clear();
    e.emit(EventTy::Click(ClickEvent::Left), 1, Value::from("x"), 20, &Vec::new());
    assert_eq!(kinds(&e.queue), vec!["click.left", "focus.out", "focus.in"]);
    assert_eq!(e.queue[0].target, el(2));
    assert_eq!(e.queue[0].src, el(1));
    assert_eq!(e.queue[1].target, el(0));
    assert_eq!(e.queue[2].target, el(2));
    assert_eq!(e.state.focused, 2);
    assert_eq!(active_element(&e), el(2));
    for event in &e.queue {
        assert_eq!(event.prev.focused, 0);
        assert_eq!(event.state.focused, 2);
        assert_eq!(event.extra, Value::from("x"));
    }
    // A click that leaves the focus where it is gives neither.
    e.queue.clear();
    e.emit(EventTy::Click(ClickEvent::Right), 1, Value::Null, 21, &Vec::new());
    assert_eq!(kinds(&e.queue), vec!["click.right"]);
    assert_eq!(e.state.focused, 2);
}

#[test]
fn some_inputs_are_queued_as_they_are() {
    let mut e = engine();
    let change = ChangeEvent { attribute: "a".to_string(), from: Value::Null, to: Value::from(1) };
    let inputs = vec![
        EventTy::Key(KeyEvent::Down("k".to_string())),
        EventTy::Key(KeyEvent::Up("k".to_string())),
        EventTy::Key(KeyEvent::Press("k".to_string())),
        EventTy::Change(change),
        EventTy::Custom("ping".to_string()),
        EventTy::Any(Box::new(EventTy::Scroll(ScrollEvent::Up))),
    ];
    let before = e.state;
    for ty in inputs {
        e.emit(ty, 2, Value::Null, 30, &Vec::new());
    }
    assert_eq!(kinds(&e.queue), vec!["key.down", "key.up", "key.press", "change", "ping", "any"]);
    assert!(e.queue.iter().all(|ev| ev.target == el(2) && ev.src == el(2) && ev.state == before));
    assert_eq!(e.state, before);
}

#[test]
fn other_inputs_give_nothing() {
    let mut e = engine();
    let before = e.state;
    let inputs = vec![
        EventTy::Animation(AnimationEvent::Start(1)),
        EventTy::Animation(AnimationEvent::End(1)),
        EventTy::Animation(AnimationEvent::Repeat(1)),
        EventTy::DoubleClick(DoubleClickEvent::Left),
        EventTy::DoubleClick(DoubleClickEvent::Other(4)),
        EventTy::Drag(DragEvent::Start),
        EventTy::Drag(DragEvent::End),
        EventTy::Focus(FocusEvent::In),
        EventTy::Scroll(ScrollEvent::Down),
        EventTy::Window(WindowEvent::Resize),
        EventTy::Window(WindowEvent::Fullscreen),
    ];
    for ty in inputs {
        e.emit(ty, 2, Value::Null, 30, &Vec::new());
    }
    assert!(e.queue.is_empty());
    assert_eq!(e.state, before);
    assert_eq!(e.next_event, 0);
}

#[test]
fn event_names() {
    assert_eq!(EventTy::Mouse(MouseEvent::Enter).kind(), "mouse");
    assert_eq!(EventTy::Click(ClickEvent::Other(9)).name(), "click.other");
    assert_eq!(EventTy::Click(ClickEvent::Middle).name(), "click.middle");
    assert_eq!(EventTy::DoubleClick(DoubleClickEvent::Right).name(), "doubleclick.right");
    assert_eq!(EventTy::DoubleClick(DoubleClickEvent::Middle).kind(), "doubleclick");
    assert_eq!(EventTy::Custom("ping".to_string()).kind(), "ping");
    assert_eq!(EventTy::Custom("ping".to_string()).name(), "ping");
    assert_eq!(EventTy::Focus(FocusEvent::Out).kind(), "focus");
    let copy = EventTy::Any(Box::new(EventTy::Key(KeyEvent::Up("q".to_string())))).duplicate();
    match copy {
        EventTy::Any(inner) => assert_eq!(inner.name(), "key.up"),
        _ => panic!("the copy is of another kind"),
    }
}

#[test]
fn event_ids_start_over_after_the_last() {
    assert_eq!(next_id(0), 1);
    assert_eq!(next_id(u64::MAX - 1), u64::MAX);
    assert_eq!(next_id(u64::MAX), 0);
    let mut e = engine();
    e.next_event = u64::MAX - 1;
    mouse_move(&mut e, &[(1, 0)]);
    assert_eq!(e.queue.iter().map(|e| e.id).collect::<Vec<_>>(), vec![u64::MAX - 1, u64::MAX, 0]);
    assert_eq!(e.next_event, 1);
}

#[test]
fn new_events_and_derived_events() {
    let state = State { iid: 7, hovered: 1, ..State::default() };
    let e = Event::new(EventTy::Custom("x".to_string()), el(3), Value::from(5), state, 99);
    assert_eq!((e.id, e.timestamp), (0, 99));
    assert_eq!(e.target, ElementX { xid: 0, iid: 0 });
    assert_eq!(e.src, el(3));
    assert_eq!((e.state, e.prev), (state, state));
    let d = e.derive(4, EventTy::Focus(FocusEvent::In), el(1), el(2));
    assert_eq!((d.id, d.timestamp, d.target, d.src), (4, 99, el(1), el(2)));
    assert_eq!(d.ty.name(), "focus.in");
    assert_eq!(d.extra, Value::from(5));
    let c = d.duplicate();
    assert_eq!((c.id, c.target, c.src, c.ty.name()), (4, el(1), el(2), "focus.in"));
    assert_eq!(Handler::named("go").0, "go");
}

#[test]
fn modifier_keys() {
    let mut s = State::default();
    assert!(!s.control_key_pressed() && !s.alt_key_pressed() && !s.shift_key_pressed() && !s.super_key_pressed());
    s.modifiers = 0b0101;
    assert!(s.control_key_pressed() && !s.alt_key_pressed() && s.shift_key_pressed() && !s.super_key_pressed());
    s.modifiers = 0b1010;
    assert!(!s.control_key_pressed() && s.alt_key_pressed() && !s.shift_key_pressed() && s.super_key_pressed());
}

#[test]
fn listeners_hear_by_name_and_scope() {
    let mut e = engine();
    e.add_listener("mouse", None, "all-mouse");
    e.add_listener("mouse.enter", Some("b"), "enter-b");
    e.add_listener("mouse.enter", Some("c"), "enter-c");
    e.add_listener("click", None, "click");
    e.add_listener("mouse.leave", Some("not a selector"), "never");
    mouse_move(&mut e, &[(1, 0)]);
    assert!(e.begin_drain());
    let batch = match e.next_batch() {
        Drain::Batch(batch) => batch,
        _ => panic!("there was something queued"),
    };
    assert_eq!(batch.len(), 3);
    assert_eq!(batch[0].handlers, vec!["all-mouse"]);
    assert_eq!(batch[1].handlers, vec!["all-mouse"]);
    assert_eq!(batch[2].handlers, vec!["all-mouse", "enter-b"]);
    assert_eq!(batch[2].event.ty.name(), "mouse.enter");
    assert!(e.queue.is_empty());
}

#[test]
fn draining_is_led_by_one_caller() {
    let mut e = engine();
    mouse_move(&mut e, &[(1, 0)]);
    assert!(e.begin_drain());
    // A nested caller only queues.
    assert!(!e.begin_drain());
    assert!(matches!(e.next_batch(), Drain::Batch(_)));
    e.emit(EventTy::Custom("again".to_string()), 0, Value::Null, 1, &Vec::new());
    e.halt(5);
    assert!(e.is_halted(5) && !e.is_halted(6));
    let again = e.queue[0].duplicate();
    again.halt(&mut e);
    assert!(e.is_halted(again.id));
    match e.next_batch() {
        Drain::Batch(batch) => assert_eq!(kinds(&[batch[0].event.duplicate()]), vec!["again"]),
        _ => panic!("a handler queued an event"),
    }
    assert_eq!(e.passes, 2);
    assert!(matches!(e.next_batch(), Drain::Done));
    assert!(!e.draining && e.passes == 0 && !e.is_halted(5));
    assert!(e.begin_drain());
    assert!(matches!(e.next_batch(), Drain::Done));
}

#[test]
fn endless_events_end_in_overflow() {
    let mut e = engine();
    assert!(e.begin_drain());
    for _ in 0..MAX_PASSES {
        e.emit(EventTy::Custom("loop".to_string()), 0, Value::Null, 1, &Vec::new());
        assert!(matches!(e.next_batch(), Drain::Batch(_)));
    }
    e.emit(EventTy::Custom("loop".to_string()), 0, Value::Null, 1, &Vec::new());
    assert!(matches!(e.next_batch(), Drain::Overflow));
    assert!(e.queue.is_empty() && !e.draining && e.passes == 0);
}

#[test]
fn destroy_cancels_animations_and_clears_the_root() {
    let mut e = engine();
    e.animations = vec![
        Binding { xid: 1, animation: 10 },
        Binding { xid: 2, animation: 11 },
        Binding { xid: 1, animation: 12 },
    ];
    let space = taffy::geometry::Size {
        width: taffy::style::AvailableSpace::Definite(100.0),
        height: taffy::style::AvailableSpace::Definite(50.0),
    };
    assert!(e.begin_render(1, space));
    assert_eq!(root(&e), Some(el(1)));
    assert!(!e.begin_render(9, space));
    assert_eq!(e.destroy(1), Vec::<u64>::new());
    assert_eq!(e.animations.iter().map(|b| b.animation).collect::<Vec<_>>(), vec![11]);
    assert_eq!(root(&e), None);
}

#[test]
fn layout_is_computed_from_the_style() {
    let mut e = Engine::new(1, 100, 100);
    let mut style = serde_json::Map::new();
    let mut size = serde_json::Map::new();
    size.insert("width".to_string(), Value::from_iter([("Points", 30.0)]));
    size.insert("height".to_string(), Value::from_iter([("Points", 20.0)]));
    style.insert("size".to_string(), Value::Object(size));
    let child = e
        .create_element("b", vec![("style".to_string(), Value::Object(style))], &Vec::new())
        .unwrap();
    let parent = e.create_element("a", Vec::new(), &vec![child]).unwrap();
    let space = taffy::geometry::Size {
        width: taffy::style::AvailableSpace::Definite(100.0),
        height: taffy::style::AvailableSpace::Definite(100.0),
    };
    assert!(e.tree.compute_layout(parent, space));
    let found = e.tree.layout_box(child).unwrap();
    assert_eq!((found.size.width, found.size.height), (30.0, 20.0));
    assert!(e.tree.layout_box(9).is_none());
    assert!(!e.tree.compute_layout(9, space));
}

#[test]
fn document_functions() {
    let mut e = Engine::new(7, 1, 1);
    let a = create_element(&mut e, "a", Vec::new(), &Vec::new()).unwrap();
    let b = create_element(&mut e, "b", Vec::new(), &vec![a]).unwrap();
    assert_eq!((a, b), (el(0), el(1)));
    assert_eq!(e.tree.parent(0), Some(1));
    assert_eq!(select(&e, "a,b").len(), 2);
    assert_eq!(select(&e, "b > a"), vec![a]);
    assert_eq!(select_one(&e, "b"), Some(b));
    assert_eq!(select_one(&e, "c"), None);
    heathen::document::trigger(&mut e, EventTy::Custom("x".to_string()), a, Value::Null, 5, &Vec::new());
    assert_eq!(kinds(&e.queue), vec!["x"]);
    assert_eq!(e.queue[0].target, a);
}

#[test]
fn the_engine_names_the_next_id_and_selects() {
    let mut e = engine();
    assert_eq!(e.xid(), Some(3));
    assert_eq!(e.tree.next_id(), Some(3));
    e.destroy(1);
    assert_eq!(e.xid(), Some(1));
    assert_eq!(e.create_element("d", Vec::new(), &Vec::new()), Some(1));
    assert_eq!(e.select("d,c"), vec![1, 2]);
    assert_eq!(e.select("c,d"), vec![2, 1]);
}

#[test]
fn a_released_id_waits_while_the_state_names_it() {
    let mut e = engine();
    mouse_move(&mut e, &[(1, 0)]);
    assert_eq!(e.state.hovered, 1);
    assert!(e.is_named(1) && e.is_named(0) && !e.is_named(2));
    e.destroy(1);
    // The hovered element is gone, but the state still names its id.
    assert_eq!(e.pick(), None);
    assert_eq!(e.xid(), Some(3));
    assert_eq!(e.create_element("d", Vec::new(), &Vec::new()), Some(3));
    // Once the pointer is over another element the id is free again.
    mouse_move(&mut e, &[(2, 0)]);
    assert_eq!(e.pick(), Some(0));
    assert_eq!(e.xid(), Some(1));
    assert_eq!(e.create_element("e", Vec::new(), &Vec::new()), Some(1));
    assert_eq!(e.xid(), Some(4));
}

#[test]
fn a_released_id_waits_while_the_focus_or_a_listener_names_it() {
    let mut e = engine();
    e.create_element("d", Vec::new(), &Vec::new()).unwrap();
    mouse_move(&mut e, &[(2, 0)]);
    e.emit(EventTy::Click(ClickEvent::Left), 2, Value::Null, 1, &Vec::new());
    mouse_move(&mut e, &[(3, 0)]);
    assert_eq!((e.state.hovered, e.state.focused), (3, 2));
    e.add_listener("click", Some("%1"), "on-one");
    e.destroy(1);
    e.destroy(2);
    e.destroy(0);
    // Of the released ids 1, 2 and 0 only 0 is named by nothing.
    assert!(e.is_named(1) && e.is_named(2) && !e.is_named(0));
    assert_eq!(e.pick(), Some(2));
    assert_eq!(e.create_element("x", Vec::new(), &Vec::new()), Some(0));
    assert_eq!(e.create_element("y", Vec::new(), &Vec::new()), Some(4));
    // A scope that only holds the id among other things does not name it.
    assert!(!e.is_named(11));
    e.add_listener("click", Some("%11 > a"), "far");
    assert!(!e.is_named(11));
}

#[test]
fn ids_count_up_and_released_ids_come_back() {
    let mut e = Engine::new(1, 1, 1);
    let a = e.create_element("x", Vec::new(), &Vec::new()).unwrap();
    let b = e.create_element("x", Vec::new(), &Vec::new()).unwrap();
    let c = e.create_element("x", Vec::new(), &Vec::new()).unwrap();
    assert_eq!((a, b, c), (0, 1, 2));
    e.destroy(b);
    assert_eq!(e.tree.free_count(), 1);
    assert_eq!(e.tree.free_at(0), 1);
    assert_eq!(e.tree.fresh_id(), Some(3));
    assert_eq!(e.xid(), Some(1));
    assert_eq!(e.create_element("x", Vec::new(), &Vec::new()), Some(1));
    assert_eq!(e.tree.free_count(), 0);
    assert_eq!(e.create_element("x", Vec::new(), &Vec::new()), Some(3));
}
