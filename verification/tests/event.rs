use rx::event::{Event, TimedEvent};
use rx::parser::Decimal;
use rx::platform::{InputState, Key, KeyboardInput, ModifiersState, MouseButton};

fn dec(s: &str) -> Decimal {
    Decimal { text: s.to_string() }
}

fn no_mods() -> ModifiersState {
    ModifiersState { shift: false, ctrl: false, alt: false, meta: false }
}

#[test]
fn reads_each_kind_of_event() {
    assert_eq!(
        Event::from_str("mouse/input pressed"),
        Ok(Event::MouseInput(MouseButton::Left, InputState::Pressed))
    );
    assert_eq!(
        Event::from_str("keyboard/input <tab> released"),
        Ok(Event::KeyboardInput(KeyboardInput {
            state: InputState::Released,
            key: Some(Key::Tab),
            modifiers: no_mods(),
        }))
    );
    assert_eq!(
        Event::from_str("cursor/moved 12.5 -3"),
        Ok(Event::CursorMoved(dec("12.5"), dec("-3")))
    );
    assert_eq!(Event::from_str("mouse/wheel 0 1.0"), Ok(Event::MouseWheel(dec("0"), dec("1.0"))));
    assert_eq!(
        Event::from_str("char/received ' '"),
        Ok(Event::ReceivedCharacter(' ', no_mods()))
    );
}

#[test]
fn event_errors() {
    assert_eq!(Event::from_str("fnord 1"), Err("unrecognized event \"fnord\"".to_string()));
    assert_eq!(
        Event::from_str("mouse/input pressed x"),
        Err("expected `pressed x` to be followed by <end>, got ` x`".to_string())
    );
    assert_eq!(Event::from_str("mouse/input sideways"), Err("unknown input state: sideways".to_string()));
    assert!(Event::from_str("keyboard/input <insert> pressed").is_err());
    assert!(Event::from_str("paste 'abc'").is_err());
}

#[test]
fn writes_events() {
    assert_eq!(Event::MouseInput(MouseButton::Right, InputState::Released).to_string(), "mouse/input released");
    assert_eq!(Event::CursorMoved(dec("1.5"), dec("-2")).to_string(), "cursor/moved 1.5 -2");
    let k = KeyboardInput { state: InputState::Pressed, key: Some(Key::A), modifiers: no_mods() };
    assert_eq!(Event::KeyboardInput(k).to_string(), "keyboard/input a pressed");
    assert_eq!(Event::ReceivedCharacter('q', no_mods()).to_string(), "char/received 'q'");
    assert_eq!(Event::Paste(Some("hi".to_string())).to_string(), "paste 'hi'");
    assert_eq!(Event::Paste(None).to_string(), "paste ''");
}

#[test]
fn timed_events() {
    let t = TimedEvent::from_str("00012 0000016 mouse/input pressed").unwrap();
    assert_eq!(t.frame, 12);
    assert_eq!(t.delta, 16);
    assert_eq!(t.event, Event::MouseInput(MouseButton::Left, InputState::Pressed));

    let k = KeyboardInput { state: InputState::Pressed, key: Some(Key::Escape), modifiers: no_mods() };
    let t = TimedEvent::new(3, 1234567, Event::KeyboardInput(k));
    assert_eq!(t.to_string(), "00003 1234567 keyboard/input <esc> pressed");
    let t = TimedEvent::new(123456, 16, Event::MouseInput(MouseButton::Left, InputState::Pressed));
    assert_eq!(t.to_string(), "123456 0000016 mouse/input pressed");

    assert!(TimedEvent::from_str("x 1 mouse/input pressed").is_err());
    assert_eq!(
        TimedEvent::from_str("99999999999 1 mouse/input pressed").unwrap_err(),
        "conversion from string failed: number too large to fit in target type"
    );
}

#[test]
fn written_events_read_back() {
    let events = vec![
        Event::MouseInput(MouseButton::Left, InputState::Released),
        Event::CursorMoved(dec("640"), dec("-0.5")),
        Event::MouseWheel(dec("1"), dec("2")),
        Event::ReceivedCharacter('\'', no_mods()),
        Event::KeyboardInput(KeyboardInput { state: InputState::Repeated, key: Some(Key::Control), modifiers: no_mods() }),
    ];
    for (i, e) in events.into_iter().enumerate() {
        let t = TimedEvent::new(i as u64, 40, e.clone());
        let back = TimedEvent::from_str(&t.to_string()).unwrap();
        assert_eq!(back, t);
    }
}
