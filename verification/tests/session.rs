use rx::platform::{InputState, Key, ModifiersState};
use rx::session::{Input, KeyBinding, KeyBindings, Mode, VisualState};

#[derive(Clone, Debug, PartialEq)]
enum Command {
    Noop,
    Quit,
}

#[test]
fn test_key_bindings() {
    let mut kbs = KeyBindings::new();
    let state = InputState::Pressed;
    let modifiers = Default::default();

    let kb1 = KeyBinding {
        modes: vec![Mode::Normal],
        input: Input::Key(Key::A),
        command: Command::Noop,
        is_toggle: false,
        display: None,
        modifiers,
        state,
    };
    let kb2 = KeyBinding {
        modes: vec![Mode::Command],
        ..kb1.clone()
    };

    kbs.add(kb1.clone());
    kbs.add(kb2.clone());

    assert_eq!(
        kbs.len(),
        2,
        "identical bindings for different modes can co-exist"
    );

    let kb3 = KeyBinding {
        command: Command::Quit,
        ..kb2.clone()
    };
    kbs.add(kb3.clone());

    assert_eq!(kbs.len(), 2, "bindings can be overwritten");
    assert_eq!(
        kbs.find(kb2.input, kb2.modifiers, kb2.state, kb2.modes[0]).cloned(),
        Some(kb3),
        "bindings can be overwritten"
    );
}

#[test]
fn test_key_bindings_modifier() {
    let kb = KeyBinding {
        modes: vec![Mode::Normal],
        input: Input::Key(Key::Control),
        command: Command::Noop,
        is_toggle: false,
        display: None,
        modifiers: Default::default(),
        state: InputState::Pressed,
    };

    let mut kbs = KeyBindings::new();
    kbs.add(kb.clone());

    assert_eq!(
        kbs.find(
            Input::Key(Key::Control),
            ModifiersState {
                ctrl: true,
                alt: false,
                shift: false,
                meta: false
            },
            InputState::Pressed,
            Mode::Normal
        )
        .cloned(),
        Some(kb.clone())
    );

    assert_eq!(
        kbs.find(
            Input::Key(Key::Control),
            ModifiersState::default(),
            InputState::Pressed,
            Mode::Normal
        )
        .cloned(),
        Some(kb)
    );
}

#[test]
fn character_bindings_only_look_at_ctrl() {
    let kb = KeyBinding {
        modes: vec![Mode::Normal, Mode::Visual(VisualState::Pasting)],
        input: Input::Character('x'),
        command: Command::Noop,
        is_toggle: false,
        display: Some("x".to_owned()),
        modifiers: ModifiersState::default(),
        state: InputState::Pressed,
    };
    let mut kbs = KeyBindings::new();
    kbs.add(kb.clone());
    let shift = ModifiersState { shift: true, ..Default::default() };
    let ctrl = ModifiersState { ctrl: true, ..Default::default() };
    assert_eq!(kbs.find(Input::Character('x'), shift, InputState::Pressed, Mode::Normal).cloned(), Some(kb.clone()));
    assert!(kbs.find(Input::Character('x'), ctrl, InputState::Pressed, Mode::Normal).is_none());
    assert!(kbs.find(Input::Character('x'), shift, InputState::Released, Mode::Normal).is_none());
    assert!(kbs.find(Input::Character('x'), shift, InputState::Pressed, Mode::Command).is_none());
    assert!(kbs.find(Input::Character('y'), shift, InputState::Pressed, Mode::Normal).is_none());
}

#[test]
fn released_key_matches_any_modifiers() {
    let kb = KeyBinding {
        modes: vec![Mode::Normal],
        input: Input::Key(Key::A),
        command: Command::Quit,
        is_toggle: true,
        display: None,
        modifiers: ModifiersState { alt: true, ..Default::default() },
        state: InputState::Released,
    };
    let mut kbs = KeyBindings::new();
    kbs.add(kb.clone());
    assert!(kb.is_match(Input::Key(Key::A), InputState::Released, ModifiersState::default(), Mode::Normal));
    assert!(!kb.is_match(Input::Key(Key::A), InputState::Pressed, ModifiersState::default(), Mode::Normal));
    assert_eq!(kbs.find(Input::Key(Key::A), ModifiersState::default(), InputState::Released, Mode::Normal).cloned(), Some(kb));
}

#[test]
fn adding_for_one_mode_keeps_other_modes() {
    let kb1 = KeyBinding {
        modes: vec![Mode::Normal, Mode::Command],
        input: Input::Key(Key::B),
        command: Command::Noop,
        is_toggle: false,
        display: None,
        modifiers: ModifiersState::default(),
        state: InputState::Pressed,
    };
    let kb2 = KeyBinding { modes: vec![Mode::Normal], command: Command::Quit, ..kb1.clone() };
    let mut kbs = KeyBindings::new();
    kbs.add(kb1.clone());
    kbs.add(kb2.clone());
    // kb1 is overridden in normal mode, which removes it altogether.
    assert_eq!(kbs.len(), 1);
    assert!(kbs.find(Input::Key(Key::B), ModifiersState::default(), InputState::Pressed, Mode::Command).is_none());
    assert_eq!(kbs.iter().len(), 1);
    assert!(!kbs.is_empty());
}

#[test]
fn mode_and_input_names() {
    assert_eq!(Mode::Normal.to_string(), "normal");
    assert_eq!(Mode::Visual(VisualState::Selecting { dragging: true }).to_string(), "visual (dragging)");
    assert_eq!(Mode::Visual(VisualState::default()).to_string(), "visual");
    assert_eq!(Mode::Visual(VisualState::Pasting).to_string(), "visual (pasting)");
    assert_eq!(Mode::Command.to_string(), "command");
    assert_eq!(Mode::Present.to_string(), "present");
    assert_eq!(Mode::Help.to_string(), "help");
    assert_eq!(Mode::default(), Mode::Normal);
    assert_eq!(Input::Character('q').to_string(), "q");
    assert_eq!(Input::Key(Key::Return).to_string(), Key::Return.to_string());
}
