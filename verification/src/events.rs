//! Events and the interaction state they record.

use vstd::prelude::*;

verus! {

/// The modifier keys, as bits of the state's modifier mask.
pub const MODIFIER_CONTROL: u8 = 1;

pub const MODIFIER_ALT: u8 = 2;

pub const MODIFIER_SHIFT: u8 = 4;

pub const MODIFIER_SUPER: u8 = 8;

/// A handle on an element: its id and the instance it lives in.
#[derive(Copy, Clone, Default, Hash, Debug, PartialEq, Eq, Structural)]
pub struct ElementX {
    pub xid: u64,
    pub iid: u64,
}

/// What the dispatcher knows of the user's interaction with one instance.
#[derive(Copy, Clone, Default, Debug, PartialEq, Eq, Structural)]
pub struct State {
    pub iid: u64,
    /// The pointer's position, in whole layout units.
    pub mouse_x: i32,
    pub mouse_y: i32,
    pub hovered: u64,
    pub focused: u64,
    /// The window's size, in whole layout units.
    pub window_width: u32,
    pub window_height: u32,
    pub modifiers: u8,
}

impl State {
    /// The pointer's position.
    pub fn mouse_position(&self) -> (at: (i32, i32))
        ensures
            at == (self.mouse_x, self.mouse_y),
    {
        (self.mouse_x, self.mouse_y)
    }

    /// The element under the pointer.
    pub fn hovered(&self) -> (el: ElementX)
        ensures
            el == (ElementX { xid: self.hovered, iid: self.iid }),
    {
        ElementX { xid: self.hovered, iid: self.iid }
    }

    /// The element that takes keyboard input.
    pub fn focused(&self) -> (el: ElementX)
        ensures
            el == (ElementX { xid: self.focused, iid: self.iid }),
    {
        ElementX { xid: self.focused, iid: self.iid }
    }

    /// Whether the control key is down.
    pub fn control_key_pressed(&self) -> (down: bool)
        ensures
            down == (self.modifiers & MODIFIER_CONTROL != 0),
    {
        (self.modifiers & MODIFIER_CONTROL) != 0
    }

    /// Whether the alt key is down.
    pub fn alt_key_pressed(&self) -> (down: bool)
        ensures
            down == (self.modifiers & MODIFIER_ALT != 0),
    {
        (self.modifiers & MODIFIER_ALT) != 0
    }

    /// Whether the shift key is down.
    pub fn shift_key_pressed(&self) -> (down: bool)
        ensures
            down == (self.modifiers & MODIFIER_SHIFT != 0),
    {
        (self.modifiers & MODIFIER_SHIFT) != 0
    }

    /// Whether the super key is down.
    pub fn super_key_pressed(&self) -> (down: bool)
        ensures
            down == (self.modifiers & MODIFIER_SUPER != 0),
    {
        (self.modifiers & MODIFIER_SUPER) != 0
    }
}

#[derive(Clone, Copy, Debug, PartialEq, Eq, Structural)]
pub enum MouseEvent {
    /// The pointer moved to a position, in whole layout units.
    Move(i32, i32),
    Enter,
    Leave,
}

#[derive(Clone, Copy, Debug, PartialEq, Eq, Structural)]
pub enum ScrollEvent {
    Up,
    Down,
}

#[derive(Clone, Copy, Debug, PartialEq, Eq, Structural)]
pub enum ClickEvent {
    Left,
    Right,
    Middle,
    Other(usize),
}

#[derive(Clone, Copy, Debug, PartialEq, Eq, Structural)]
pub enum DoubleClickEvent {
    Left,
    Right,
    Middle,
    Other(usize),
}

#[derive(Debug)]
pub enum KeyEvent {
    Down(String),
    Up(String),
    Press(String),
}

/// A change in the life of an animation, named by its handle.
#[derive(Clone, Copy, Debug, PartialEq, Eq, Structural)]
pub enum AnimationEvent {
    Start(u64),
    End(u64),
    Repeat(u64),
}

#[derive(Clone, Copy, Debug, PartialEq, Eq, Structural)]
pub enum DragEvent {
    Start,
    End,
}

#[derive(Clone, Copy, Debug, PartialEq, Eq, Structural)]
pub enum WindowEvent {
    Resize,
    Fullscreen,
}

#[derive(Clone, Copy, Debug, PartialEq, Eq, Structural)]
pub enum FocusEvent {
    In,
    Out,
}

/// An attribute went from one value to another.
#[derive(Debug)]
pub struct ChangeEvent {
    pub attribute: String,
    pub from: serde_json::Value,
    pub to: serde_json::Value,
}

/// What happened.
#[derive(Debug)]
pub enum EventTy {
    Mouse(MouseEvent),
    Scroll(ScrollEvent),
    Click(ClickEvent),
    Key(KeyEvent),
    Animation(AnimationEvent),
    Drag(DragEvent),
    Window(WindowEvent),
    Focus(FocusEvent),
    Change(ChangeEvent),
    DoubleClick(DoubleClickEvent),
    Custom(String),
    Any(Box<EventTy>),
}

/// The name of the kind of an event, which listeners register for.
pub open spec fn kind_name(ty: EventTy) -> Seq<char> {
    match ty {
        EventTy::Mouse(_) => "mouse"@,
        EventTy::Scroll(_) => "scroll"@,
        EventTy::Click(_) => "click"@,
        EventTy::Key(_) => "key"@,
        EventTy::Animation(_) => "animation"@,
        EventTy::Drag(_) => "drag"@,
        EventTy::Window(_) => "window"@,
        EventTy::Focus(_) => "focus"@,
        EventTy::Change(_) => "change"@,
        EventTy::DoubleClick(_) => "doubleclick"@,
        EventTy::Custom(name) => name@,
        EventTy::Any(_) => "any"@,
    }
}

/// The full name of an event: its kind, a dot, and what it says of it.
/// Kinds that say no more have the kind's name.
pub open spec fn full_name(ty: EventTy) -> Seq<char> {
    match ty {
        EventTy::Mouse(MouseEvent::Move(_, _)) => "mouse.move"@,
        EventTy::Mouse(MouseEvent::Enter) => "mouse.enter"@,
        EventTy::Mouse(MouseEvent::Leave) => "mouse.leave"@,
        EventTy::Scroll(ScrollEvent::Up) => "scroll.up"@,
        EventTy::Scroll(ScrollEvent::Down) => "scroll.down"@,
        EventTy::Click(ClickEvent::Left) => "click.left"@,
        EventTy::Click(ClickEvent::Right) => "click.right"@,
        EventTy::Click(ClickEvent::Middle) => "click.middle"@,
        EventTy::Click(ClickEvent::Other(_)) => "click.other"@,
        EventTy::Key(KeyEvent::Down(_)) => "key.down"@,
        EventTy::Key(KeyEvent::Up(_)) => "key.up"@,
        EventTy::Key(KeyEvent::Press(_)) => "key.press"@,
        EventTy::Animation(AnimationEvent::Start(_)) => "animation.start"@,
        EventTy::Animation(AnimationEvent::End(_)) => "animation.end"@,
        EventTy::Animation(AnimationEvent::Repeat(_)) => "animation.repeat"@,
        EventTy::Drag(DragEvent::Start) => "drag.start"@,
        EventTy::Drag(DragEvent::End) => "drag.end"@,
        EventTy::Window(WindowEvent::Resize) => "window.resize"@,
        EventTy::Window(WindowEvent::Fullscreen) => "window.fullscreen"@,
        EventTy::Focus(FocusEvent::In) => "focus.in"@,
        EventTy::Focus(FocusEvent::Out) => "focus.out"@,
        EventTy::Change(_) => "change"@,
        EventTy::DoubleClick(DoubleClickEvent::Left) => "doubleclick.left"@,
        EventTy::DoubleClick(DoubleClickEvent::Right) => "doubleclick.right"@,
        EventTy::DoubleClick(DoubleClickEvent::Middle) => "doubleclick.middle"@,
        EventTy::DoubleClick(DoubleClickEvent::Other(_)) => "doubleclick.other"@,
        EventTy::Custom(name) => name@,
        EventTy::Any(_) => "any"@,
    }
}

impl EventTy {
    /// A copy of the event kind.
    pub fn duplicate(&self) -> (copy: EventTy)
        ensures
            copy == *self,
        decreases self,
    {
        match self {
            EventTy::Mouse(e) => EventTy::Mouse(*e),
            EventTy::Scroll(e) => EventTy::Scroll(*e),
            EventTy::Click(e) => EventTy::Click(*e),
            EventTy::Key(KeyEvent::Down(k)) => EventTy::Key(KeyEvent::Down(k.clone())),
            EventTy::Key(KeyEvent::Up(k)) => EventTy::Key(KeyEvent::Up(k.clone())),
            EventTy::Key(KeyEvent::Press(k)) => EventTy::Key(KeyEvent::Press(k.clone())),
            EventTy::Animation(e) => EventTy::Animation(*e),
            EventTy::Drag(e) => EventTy::Drag(*e),
            EventTy::Window(e) => EventTy::Window(*e),
            EventTy::Focus(e) => EventTy::Focus(*e),
            EventTy::Change(e) => EventTy::Change(
                ChangeEvent { attribute: e.attribute.clone(), from: e.from.clone(), to: e.to.clone() },
            ),
            EventTy::DoubleClick(e) => EventTy::DoubleClick(*e),
            EventTy::Custom(name) => EventTy::Custom(name.clone()),
            EventTy::Any(inner) => EventTy::Any(Box::new(inner.duplicate())),
        }
    }

    /// The name of the event's kind.
    pub fn kind(&self) -> (name: &str)
        ensures
            name@ == kind_name(*self),
    {
        match self {
            EventTy::Mouse(_) => "mouse",
            EventTy::Scroll(_) => "scroll",
            EventTy::Click(_) => "click",
            EventTy::Key(_) => "key",
            EventTy::Animation(_) => "animation",
            EventTy::Drag(_) => "drag",
            EventTy::Window(_) => "window",
            EventTy::Focus(_) => "focus",
            EventTy::Change(_) => "change",
            EventTy::DoubleClick(_) => "doubleclick",
            EventTy::Custom(name) => name.as_str(),
            EventTy::Any(_) => "any",
        }
    }

    /// The event's full name.
    pub fn name(&self) -> (name: &str)
        ensures
            name@ == full_name(*self),
    {
        match self {
            EventTy::Mouse(MouseEvent::Move(_, _)) => "mouse.move",
            EventTy::Mouse(MouseEvent::Enter) => "mouse.enter",
            EventTy::Mouse(MouseEvent::Leave) => "mouse.leave",
            EventTy::Scroll(ScrollEvent::Up) => "scroll.up",
            EventTy::Scroll(ScrollEvent::Down) => "scroll.down",
            EventTy::Click(ClickEvent::Left) => "click.left",
            EventTy::Click(ClickEvent::Right) => "click.right",
            EventTy::Click(ClickEvent::Middle) => "click.middle",
            EventTy::Click(ClickEvent::Other(_)) => "click.other",
            EventTy::Key(KeyEvent::Down(_)) => "key.down",
            EventTy::Key(KeyEvent::Up(_)) => "key.up",
            EventTy::Key(KeyEvent::Press(_)) => "key.press",
            EventTy::Animation(AnimationEvent::Start(_)) => "animation.start",
            EventTy::Animation(AnimationEvent::End(_)) => "animation.end",
            EventTy::Animation(AnimationEvent::Repeat(_)) => "animation.repeat",
            EventTy::Drag(DragEvent::Start) => "drag.start",
            EventTy::Drag(DragEvent::End) => "drag.end",
            EventTy::Window(WindowEvent::Resize) => "window.resize",
            EventTy::Window(WindowEvent::Fullscreen) => "window.fullscreen",
            EventTy::Focus(FocusEvent::In) => "focus.in",
            EventTy::Focus(FocusEvent::Out) => "focus.out",
            EventTy::Change(_) => "change",
            EventTy::DoubleClick(DoubleClickEvent::Left) => "doubleclick.left",
            EventTy::DoubleClick(DoubleClickEvent::Right) => "doubleclick.right",
            EventTy::DoubleClick(DoubleClickEvent::Middle) => "doubleclick.middle",
            EventTy::DoubleClick(DoubleClickEvent::Other(_)) => "doubleclick.other",
            EventTy::Custom(name) => name.as_str(),
            EventTy::Any(_) => "any",
        }
    }
}

/// One event, as it waits in the queue and as listeners get it.
#[derive(Debug)]
pub struct Event {
    /// The event's place in the order of all events of its instance.
    pub id: u64,
    /// When the input arrived, in milliseconds.
    pub timestamp: u128,
    pub ty: EventTy,
    /// The interaction state after the input.
    pub state: State,
    /// The interaction state before the input.
    pub prev: State,
    pub target: ElementX,
    pub src: ElementX,
    pub extra: serde_json::Value,
}

impl Event {
    /// An event of kind `ty` from `src`, with the state `state` before and
    /// after, that targets no element yet.
    pub fn new(ty: EventTy, src: ElementX, extra: serde_json::Value, state: State, timestamp: u128) -> (e: Event)
        ensures
            e == (Event {
                id: 0,
                timestamp,
                ty,
                state,
                prev: state,
                target: ElementX { xid: 0, iid: 0 },
                src,
                extra,
            }),
    {
        Event { id: 0, timestamp, ty, state, prev: state, target: ElementX { xid: 0, iid: 0 }, src, extra }
    }

    /// A copy of the event.
    pub fn duplicate(&self) -> (copy: Event)
        ensures
            copy == *self,
    {
        Event {
            id: self.id,
            timestamp: self.timestamp,
            ty: self.ty.duplicate(),
            state: self.state,
            prev: self.prev,
            target: self.target,
            src: self.src,
            extra: self.extra.clone(),
        }
    }

    /// The same event with another kind, aimed at `at`.
    pub fn derive(&self, id: u64, ty: EventTy, at: ElementX, src: ElementX) -> (e: Event)
        ensures
            e == (Event { id, ty, target: at, src, ..*self }),
    {
        Event {
            id,
            timestamp: self.timestamp,
            ty,
            state: self.state,
            prev: self.prev,
            target: at,
            src,
            extra: self.extra.clone(),
        }
    }
}

/// The name of a handler that listeners refer to.
#[derive(Debug)]
pub struct Handler(pub String);

impl Handler {
    /// The handler called `name`.
    pub fn named(name: &str) -> (h: Handler)
        ensures
            h.0@ == name@,
    {
        Handler(name.to_owned())
    }
}

} // verus!
