//! Engine events, their descriptions, and dispatch by event type.
use vstd::prelude::*;
use crate::text::{append_u64, decimal, string_append, string_from};

verus! {

/// Kind of an engine event.
///
/// `NoEvent` stands for the absence of an event; its name is `"None"`.
#[derive(Debug, Clone, Copy, PartialEq, Eq, Hash, Structural)]
pub enum EventType {
    NoEvent,
    WindowResize,
    WindowClose,
    MouseButtonDown,
    MouseButtonUp,
    MouseMove,
    MouseScroll,
    KeyDown,
    KeyUp,
    Tick,
    Draw,
}

pub open spec fn event_type_name(t: EventType) -> Seq<char> {
    match t {
        EventType::NoEvent => "None"@,
        EventType::WindowResize => "WindowResize"@,
        EventType::WindowClose => "WindowClose"@,
        EventType::MouseButtonDown => "MouseButtonDown"@,
        EventType::MouseButtonUp => "MouseButtonUp"@,
        EventType::MouseMove => "MouseMove"@,
        EventType::MouseScroll => "MouseScroll"@,
        EventType::KeyDown => "KeyDown"@,
        EventType::KeyUp => "KeyUp"@,
        EventType::Tick => "Tick"@,
        EventType::Draw => "Draw"@,
    }
}

impl EventType {
    /// The name of the event type, for logs.
    pub fn name(&self) -> (r: &'static str)
        ensures
            r@ == event_type_name(*self),
    {
        match self {
            EventType::NoEvent => "None",
            EventType::WindowResize => "WindowResize",
            EventType::WindowClose => "WindowClose",
            EventType::MouseButtonDown => "MouseButtonDown",
            EventType::MouseButtonUp => "MouseButtonUp",
            EventType::MouseMove => "MouseMove",
            EventType::MouseScroll => "MouseScroll",
            EventType::KeyDown => "KeyDown",
            EventType::KeyUp => "KeyUp",
            EventType::Tick => "Tick",
            EventType::Draw => "Draw",
        }
    }
}

/// A mouse button.
#[derive(Debug, Clone, Copy, PartialEq, Eq, Hash, Structural)]
pub enum MouseButton {
    Left,
    Right,
    Middle,
    Other(u8),
}

/// A keyboard key.
#[derive(Debug, Clone, Copy, PartialEq, Eq, Hash, Structural)]
pub enum KeyCode {
    W,
    A,
    S,
    D,
    Space,
    Escape,
    Enter,
    F1,
    F2,
    F3,
    F4,
    F5,
    F6,
    F7,
    F8,
    F9,
    F10,
    F11,
    F12,
    Other(u32),
}

/// How a key is written in an event description.
pub open spec fn key_code_text(k: KeyCode) -> Seq<char> {
    match k {
        KeyCode::W => "W"@,
        KeyCode::A => "A"@,
        KeyCode::S => "S"@,
        KeyCode::D => "D"@,
        KeyCode::Space => "Space"@,
        KeyCode::Escape => "Escape"@,
        KeyCode::Enter => "Enter"@,
        KeyCode::F1 => "F1"@,
        KeyCode::F2 => "F2"@,
        KeyCode::F3 => "F3"@,
        KeyCode::F4 => "F4"@,
        KeyCode::F5 => "F5"@,
        KeyCode::F6 => "F6"@,
        KeyCode::F7 => "F7"@,
        KeyCode::F8 => "F8"@,
        KeyCode::F9 => "F9"@,
        KeyCode::F10 => "F10"@,
        KeyCode::F11 => "F11"@,
        KeyCode::F12 => "F12"@,
        KeyCode::Other(code) => "Other("@ + decimal(code as nat) + ")"@,
    }
}

fn fixed_key_text(k: KeyCode) -> (r: &'static str)
    requires
        !(k is Other),
    ensures
        r@ == key_code_text(k),
{
    match k {
        KeyCode::W => "W",
        KeyCode::A => "A",
        KeyCode::S => "S",
        KeyCode::D => "D",
        KeyCode::Space => "Space",
        KeyCode::Escape => "Escape",
        KeyCode::Enter => "Enter",
        KeyCode::F1 => "F1",
        KeyCode::F2 => "F2",
        KeyCode::F3 => "F3",
        KeyCode::F4 => "F4",
        KeyCode::F5 => "F5",
        KeyCode::F6 => "F6",
        KeyCode::F7 => "F7",
        KeyCode::F8 => "F8",
        KeyCode::F9 => "F9",
        KeyCode::F10 => "F10",
        KeyCode::F11 => "F11",
        KeyCode::F12 => "F12",
        KeyCode::Other(_) => "",
    }
}

/// Appends the written form of `k` to `s`.
fn append_key_code(s: &mut String, k: KeyCode)
    ensures
        final(s)@ == old(s)@ + key_code_text(k),
{
    match k {
        KeyCode::Other(code) => {
            string_append(s, "Other(");
            append_u64(s, code as u64);
            string_append(s, ")");
            assert(final(s)@ == old(s)@ + key_code_text(k));
        },
        _ => {
            let t = fixed_key_text(k);
            string_append(s, t);
        },
    }
}

/// An engine event: it has a type, a description, and a flag that tells
/// whether some handler has dealt with it.
pub trait Event {
    /// The type of the event.
    spec fn kind(&self) -> EventType;

    /// Whether the event has been handled.
    spec fn handled(&self) -> bool;

    fn event_type(&self) -> (r: EventType)
        ensures
            r == self.kind(),
    ;

    /// A one-line description of the event.
    fn detail(&self) -> String;

    fn is_handled(&self) -> (r: bool)
        ensures
            r == self.handled(),
    ;

    fn set_handled(&mut self, handled: bool)
        ensures
            final(self).handled() == handled,
            final(self).kind() == old(self).kind(),
    ;
}

/// The window was resized.
#[derive(Debug, Clone)]
pub struct WindowResizeEvent {
    pub width: u32,
    pub height: u32,
    /// Whether a handler has taken care of the event (see `Event::is_handled`).
    pub handled: bool,
}

impl WindowResizeEvent {
    /// The new size, width first.
    pub open spec fn size(&self) -> (u32, u32) {
        (self.width, self.height)
    }

    pub fn new(width: u32, height: u32) -> (r: Self)
        ensures
            r.size() == (width, height),
            !r.handled(),
    {
        WindowResizeEvent { width, height, handled: false }
    }

    /// The new width.
    pub fn width(&self) -> (r: u32)
        ensures
            r == self.size().0,
    {
        self.width
    }

    /// The new height.
    pub fn height(&self) -> (r: u32)
        ensures
            r == self.size().1,
    {
        self.height
    }
}

impl Event for WindowResizeEvent {
    open spec fn kind(&self) -> EventType {
        EventType::WindowResize
    }

    open spec fn handled(&self) -> bool {
        self.handled
    }

    fn event_type(&self) -> (r: EventType) {
        EventType::WindowResize
    }

    /// `WindowResize: <width>x<height>`.
    fn detail(&self) -> (r: String)
        ensures
            r@ == "WindowResize: "@ + decimal(self.size().0 as nat) + "x"@ + decimal(
                self.size().1 as nat,
            ),
    {
        let mut s = string_from("WindowResize: ");
        append_u64(&mut s, self.width as u64);
        string_append(&mut s, "x");
        append_u64(&mut s, self.height as u64);
        s
    }

    fn is_handled(&self) -> (r: bool) {
        self.handled
    }

    fn set_handled(&mut self, handled: bool) {
        self.handled = handled;
    }
}

/// The window is asked to close.
#[derive(Debug, Clone)]
pub struct WindowCloseEvent {
    handled: bool,
}

impl WindowCloseEvent {
    pub fn new() -> (r: Self)
        ensures
            !r.handled(),
    {
        WindowCloseEvent { handled: false }
    }
}

impl Default for WindowCloseEvent {
    fn default() -> (r: Self)
        ensures
            !r.handled(),
    {
        WindowCloseEvent::new()
    }
}

impl Event for WindowCloseEvent {
    open spec fn kind(&self) -> EventType {
        EventType::WindowClose
    }

    closed spec fn handled(&self) -> bool {
        self.handled
    }

    fn event_type(&self) -> (r: EventType) {
        EventType::WindowClose
    }

    fn detail(&self) -> (r: String)
        ensures
            r@ == "WindowClose"@,
    {
        string_from("WindowClose")
    }

    fn is_handled(&self) -> (r: bool) {
        self.handled
    }

    fn set_handled(&mut self, handled: bool) {
        self.handled = handled;
    }
}

/// A key went down or up.
#[derive(Debug, Clone)]
pub struct KeyboardEvent {
    pub key_code: KeyCode,
    pub pressed: bool,
    /// Whether a handler has taken care of the event (see `Event::is_handled`).
    pub handled: bool,
}

impl KeyboardEvent {
    /// The key, and whether it went down.
    pub open spec fn key(&self) -> (KeyCode, bool) {
        (self.key_code, self.pressed)
    }

    pub fn pressed(key_code: KeyCode) -> (r: Self)
        ensures
            r.key() == (key_code, true),
            !r.handled(),
    {
        KeyboardEvent { key_code, pressed: true, handled: false }
    }

    pub fn released(key_code: KeyCode) -> (r: Self)
        ensures
            r.key() == (key_code, false),
            !r.handled(),
    {
        KeyboardEvent { key_code, pressed: false, handled: false }
    }

    /// The key that went down or up.
    pub fn key_code(&self) -> (r: KeyCode)
        ensures
            r == self.key().0,
    {
        self.key_code
    }

    /// Whether the key went down.
    pub fn is_pressed(&self) -> (r: bool)
        ensures
            r == self.key().1,
    {
        self.pressed
    }
}

impl Event for KeyboardEvent {
    open spec fn kind(&self) -> EventType {
        if self.key().1 {
            EventType::KeyDown
        } else {
            EventType::KeyUp
        }
    }

    open spec fn handled(&self) -> bool {
        self.handled
    }

    fn event_type(&self) -> (r: EventType) {
        if self.pressed {
            EventType::KeyDown
        } else {
            EventType::KeyUp
        }
    }

    /// `KeyDown: <key>` or `KeyUp: <key>`.
    fn detail(&self) -> (r: String)
        ensures
            r@ == "Key"@ + (if self.key().1 {
                "Down"@
            } else {
                "Up"@
            }) + ": "@ + key_code_text(self.key().0),
    {
        let mut s = string_from("Key");
        if self.pressed {
            string_append(&mut s, "Down");
        } else {
            string_append(&mut s, "Up");
        }
        string_append(&mut s, ": ");
        append_key_code(&mut s, self.key_code);
        s
    }

    fn is_handled(&self) -> (r: bool) {
        self.handled
    }

    fn set_handled(&mut self, handled: bool) {
        self.handled = handled;
    }
}

/// A frame is to be drawn.
#[derive(Debug, Clone)]
pub struct DrawEvent {
    handled: bool,
}

impl DrawEvent {
    pub fn new() -> (r: Self)
        ensures
            !r.handled(),
    {
        DrawEvent { handled: false }
    }
}

impl Default for DrawEvent {
    fn default() -> (r: Self)
        ensures
            !r.handled(),
    {
        DrawEvent::new()
    }
}

impl Event for DrawEvent {
    open spec fn kind(&self) -> EventType {
        EventType::Draw
    }

    closed spec fn handled(&self) -> bool {
        self.handled
    }

    fn event_type(&self) -> (r: EventType) {
        EventType::Draw
    }

    fn detail(&self) -> (r: String)
        ensures
            r@ == "Draw"@,
    {
        string_from("Draw")
    }

    fn is_handled(&self) -> (r: bool) {
        self.handled
    }

    fn set_handled(&mut self, handled: bool) {
        self.handled = handled;
    }
}

/// Hands one event to the handler registered for its type.
pub struct EventDispatcher<'a, E: Event> {
    event: &'a mut E,
}

impl<'a, E: Event> EventDispatcher<'a, E> {
    /// The event as it stands now.
    pub closed spec fn current(&self) -> E {
        *self.event
    }

    /// The borrowed event.
    pub closed spec fn target(&self) -> &'a mut E {
        self.event
    }

    pub fn new(event: &'a mut E) -> (r: Self)
        ensures
            r.current() == *old(event),
            r.current() == *r.target(),
            *final(r.target()) == *final(event),
    {
        EventDispatcher { event }
    }

    /// Calls `handler` on the event when the event has type `event_type`;
    /// the event is then marked handled or not as the handler answered, and
    /// that answer is returned. Any other event is left as it is and `false`
    /// is returned. The borrowed event ends as the dispatcher's `current()`.
    pub fn dispatch<F: FnOnce(&mut E) -> bool>(&mut self, event_type: EventType, handler: F) -> (r: bool)
        requires
            old(self).current().kind() == event_type ==> forall|e: &mut E|
                *e == old(self).current() ==> call_requires(handler, (e,)),
        ensures
            old(self).current().kind() != event_type ==> !r && final(self).current() == old(
                self,
            ).current(),
            old(self).current().kind() == event_type ==> final(self).current().handled() == r
                && exists|e: &mut E| *e == old(self).current() && call_ensures(handler, (e,), r),
            final(self).current() == *final(self).target(),
            *final(final(self).target()) == *final(old(self).target()),
    {
        dispatch_event(self.event, event_type, handler)
    }

    /// Whether the event has been handled.
    pub fn is_handled(&self) -> (r: bool)
        ensures
            r == self.current().handled(),
    {
        self.event.is_handled()
    }
}

/// Calls `handler` on `event` when the event has type `event_type`; the
/// event is then marked handled or not as the handler answered, and that
/// answer is returned. Any other event is left as it is and `false` is
/// returned, without calling the handler.
fn dispatch_event<E: Event, F: FnOnce(&mut E) -> bool>(event: &mut E, event_type: EventType, handler: F) -> (r: bool)
    requires
        old(event).kind() == event_type ==> forall|e: &mut E| *e == *old(event) ==> call_requires(handler, (e,)),
    ensures
        old(event).kind() != event_type ==> !r && *final(event) == *old(event),
        old(event).kind() == event_type ==> final(event).handled() == r
            && exists|e: &mut E| *e == *old(event) && call_ensures(handler, (e,), r),
{
    if event.event_type() == event_type {
        let handled = handler(event);
        event.set_handled(handled);
        handled
    } else {
        false
    }
}

/// Something that reacts to events; the answer tells whether it handled the event.
pub trait EventHandler {
    fn handle_event<E: Event>(&mut self, event: &mut E) -> bool;
}

} // verus!
