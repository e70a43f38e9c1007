use dist_render::event::{
    DrawEvent, Event, EventDispatcher, EventType, KeyCode, KeyboardEvent, WindowCloseEvent,
    WindowResizeEvent,
};

#[test]
fn test_event_types() {
    assert_eq!(EventType::WindowResize.name(), "WindowResize");
    assert_eq!(EventType::MouseButtonDown.name(), "MouseButtonDown");
    assert_eq!(EventType::KeyDown.name(), "KeyDown");
}

#[test]
fn test_window_resize_event() {
    let mut event = WindowResizeEvent::new(1920, 1080);
    assert_eq!(event.event_type(), EventType::WindowResize);
    assert_eq!(event.width, 1920);
    assert_eq!(event.height, 1080);
    assert!(!event.is_handled());

    event.set_handled(true);
    assert!(event.is_handled());
}

#[test]
fn test_keyboard_event() {
    let event = KeyboardEvent::pressed(KeyCode::W);
    assert_eq!(event.event_type(), EventType::KeyDown);
    assert_eq!(event.key_code, KeyCode::W);
    assert!(event.pressed);
}

#[test]
fn test_event_dispatcher() {
    let mut event = WindowResizeEvent::new(800, 600);
    let mut dispatcher = EventDispatcher::new(&mut event);

    let handled = dispatcher.dispatch(EventType::WindowResize, |e| {
        assert_eq!(e.event_type(), EventType::WindowResize);
        true
    });

    assert!(handled);
    assert!(dispatcher.is_handled());
}

#[test]
fn test_event_dispatcher_type_mismatch() {
    let mut event = WindowResizeEvent::new(800, 600);
    let mut dispatcher = EventDispatcher::new(&mut event);

    let handled = dispatcher.dispatch(EventType::MouseButtonDown, |_e| {
        panic!("Should not be called");
    });

    assert!(!handled);
    assert!(!dispatcher.is_handled());
}

#[test]
fn event_type_name_of_no_event() {
    assert_eq!(EventType::NoEvent.name(), "None");
    assert_eq!(EventType::Draw.name(), "Draw");
}

#[test]
fn event_details() {
    assert_eq!(WindowResizeEvent::new(1920, 1080).detail(), "WindowResize: 1920x1080");
    assert_eq!(KeyboardEvent::pressed(KeyCode::W).detail(), "KeyDown: W");
    assert_eq!(KeyboardEvent::released(KeyCode::F12).detail(), "KeyUp: F12");
    assert_eq!(KeyboardEvent::released(KeyCode::Other(65)).detail(), "KeyUp: Other(65)");
    assert_eq!(WindowCloseEvent::new().detail(), "WindowClose");
    assert_eq!(DrawEvent::default().detail(), "Draw");
}

#[test]
fn released_key_is_key_up() {
    let event = KeyboardEvent::released(KeyCode::Space);
    assert_eq!(event.event_type(), EventType::KeyUp);
    assert!(!event.pressed);
}

#[test]
fn dispatch_records_a_refusal() {
    let mut event = KeyboardEvent::pressed(KeyCode::Escape);
    let mut dispatcher = EventDispatcher::new(&mut event);
    let handled = dispatcher.dispatch(EventType::KeyDown, |e| {
        e.set_handled(true);
        false
    });
    assert!(!handled);
    assert!(!dispatcher.is_handled());
}

#[test]
fn dispatch_marks_the_borrowed_event() {
    let mut event = WindowResizeEvent::new(800, 600);
    {
        let mut dispatcher = EventDispatcher::new(&mut event);
        dispatcher.dispatch(EventType::WindowResize, |_e| true);
    }
    assert!(event.is_handled());
    let mut other = WindowResizeEvent::new(800, 600);
    {
        let mut dispatcher = EventDispatcher::new(&mut other);
        dispatcher.dispatch(EventType::KeyDown, |_e| true);
    }
    assert!(!other.is_handled());
}

#[test]
fn event_fields_through_getters() {
    let e = WindowResizeEvent::new(800, 600);
    assert_eq!((e.width(), e.height()), (800, 600));
    let k = KeyboardEvent::released(KeyCode::Escape);
    assert_eq!(k.key_code(), KeyCode::Escape);
    assert!(!k.is_pressed());
    assert!(KeyboardEvent::pressed(KeyCode::Escape).is_pressed());
}
