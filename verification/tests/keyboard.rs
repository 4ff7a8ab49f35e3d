use rx::autocomplete::Completer;
use rx::cmd::{Command, CommandLine, Value};
use rx::rect::Rect;
use rx::commands::Outcome;
use rx::event::{Event, TimedEvent};
use rx::execution::{DigestState, Execution, GifMode, ReplayResult, VerifyResult};
use rx::keyboard::{EventOutcome, KeyOutcome};
use rx::platform::{InputState, Key, KeyboardInput, ModifiersState, MouseButton};
use rx::session::{Input, KeyBinding, MessageType, Mode, Selection, Session, State};
use rx::color::Rgba8;
use rx::view::{FileStatus, ViewExtent, ViewState};

#[derive(Debug)]
struct NoCompletions;

impl Completer for NoCompletions {
    type Options = ();

    fn complete(&self, _input: &str, _opts: ()) -> Vec<String> {
        Vec::new()
    }
}

fn session() -> Session<NoCompletions> {
    let mut s = Session::new(CommandLine::new("/dev/null", NoCompletions));
    s.transition(State::Running);
    s
}

fn key(k: Key, state: InputState) -> KeyboardInput {
    KeyboardInput { state, key: Some(k), modifiers: ModifiersState::default() }
}

fn binding(input: Input, mode: Mode, command: Command) -> KeyBinding<Command> {
    KeyBinding {
        modes: vec![mode],
        modifiers: ModifiersState::default(),
        input,
        state: InputState::Pressed,
        command,
        is_toggle: false,
        display: None,
    }
}

#[test]
fn a_bound_key_runs_its_command_once_while_held() {
    let mut s = session();
    s.key_bindings.add(binding(Input::Key(Key::A), Mode::Normal, Command::SwapColors));
    let (fg, bg) = (s.fg, s.bg);

    let r = s.handle_keyboard_input(key(Key::A, InputState::Pressed));
    assert!(matches!(r, KeyOutcome::Ran(Outcome::Done)));
    assert_eq!((s.fg, s.bg), (bg, fg));
    assert_eq!(s.keys_pressed, vec![Key::A]);

    // Swapping colors does not repeat while the key is held.
    let r = s.handle_keyboard_input(key(Key::A, InputState::Repeated));
    assert!(matches!(r, KeyOutcome::Done));
    assert_eq!((s.fg, s.bg), (bg, fg));

    s.handle_keyboard_input(key(Key::A, InputState::Released));
    assert!(s.keys_pressed.is_empty());

    // A key released that was not held is ignored.
    let r = s.handle_keyboard_input(key(Key::A, InputState::Released));
    assert!(matches!(r, KeyOutcome::Ignored));
}

#[test]
fn keys_are_ignored_while_the_mouse_button_is_down() {
    let mut s = session();
    s.key_bindings.add(binding(Input::Key(Key::A), Mode::Normal, Command::SwapColors));
    s.mouse_state = InputState::Pressed;
    let fg = s.fg;
    let r = s.handle_keyboard_input(key(Key::A, InputState::Pressed));
    assert!(matches!(r, KeyOutcome::Ignored));
    assert_eq!(s.fg, fg);
    assert!(s.keys_pressed.is_empty());
}

#[test]
fn an_unbound_key_is_the_callers() {
    let mut s = session();
    let r = s.handle_keyboard_input(key(Key::End, InputState::Pressed));
    assert!(matches!(r, KeyOutcome::Unbound));
}

#[test]
fn the_command_line_takes_typed_characters_and_runs_on_return() {
    let mut s = session();
    s.switch_mode(Mode::Command);
    s.begin_update();
    for c in "swap".chars() {
        assert!(matches!(s.handle_received_character(c, ModifiersState::default()), KeyOutcome::Done));
    }
    // Control characters are not typed.
    assert!(matches!(s.handle_received_character('\u{8}', ModifiersState::default()), KeyOutcome::Ignored));
    assert_eq!(s.cmdline.input(), ":swap");
    let (fg, bg) = (s.fg, s.bg);
    let r = s.handle_keyboard_input(key(Key::Return, InputState::Pressed));
    assert!(matches!(r, KeyOutcome::Ran(Outcome::Done)));
    assert_eq!(s.mode, Mode::Normal);
    assert_eq!((s.fg, s.bg), (bg, fg));
    assert_eq!(s.cmdline.history.get(0), Some(":swap"));
}

#[test]
fn a_command_line_that_does_not_parse_shows_an_error() {
    let mut s = session();
    s.switch_mode(Mode::Command);
    s.begin_update();
    for c in "bogus".chars() {
        s.handle_received_character(c, ModifiersState::default());
    }
    let r = s.handle_keyboard_input(key(Key::Return, InputState::Pressed));
    assert!(matches!(r, KeyOutcome::Done));
    assert_eq!(s.message.message_type, MessageType::Error);
    assert!(s.message.string.starts_with("Error: "));
    assert_eq!(s.mode, Mode::Normal);
}

#[test]
fn escape_and_backspace_hide_the_command_line() {
    let mut s = session();
    s.switch_mode(Mode::Command);
    s.handle_keyboard_input(key(Key::Escape, InputState::Pressed));
    assert_eq!(s.mode, Mode::Normal);

    s.switch_mode(Mode::Command);
    s.handle_received_character('x', ModifiersState::default());
    s.begin_update();
    s.handle_received_character('x', ModifiersState::default());
    assert_eq!(s.cmdline.input(), ":x");
    s.handle_keyboard_input(key(Key::Backspace, InputState::Pressed));
    assert_eq!(s.mode, Mode::Command);
    assert_eq!(s.cmdline.input(), ":");
    s.handle_keyboard_input(key(Key::Backspace, InputState::Released));
    // Deleting the `:` empties the line, which hides it.
    s.handle_keyboard_input(key(Key::Backspace, InputState::Pressed));
    assert_eq!(s.mode, Mode::Normal);
}

#[test]
fn escape_leaves_visual_mode() {
    let mut s = session();
    s.switch_mode(Mode::Visual(Default::default()));
    s.handle_keyboard_input(key(Key::Escape, InputState::Pressed));
    assert_eq!(s.mode, Mode::Normal);
}

#[test]
fn pasted_text_goes_into_the_command_line() {
    let mut s = session();
    s.switch_mode(Mode::Command);
    let r = s.handle_event(Event::Paste(Some("echo".to_string())), None);
    assert!(matches!(r, EventOutcome::Key(KeyOutcome::Done)));
    assert_eq!(s.cmdline.input(), ":echo");
}

#[test]
fn mouse_events_without_a_pointer_are_handed_back() {
    let mut s = session();
    let e = Event::MouseInput(MouseButton::Left, InputState::Pressed);
    let r = s.handle_event(e.clone(), None);
    assert!(matches!(r, EventOutcome::Deferred(ref d) if *d == e));
}

#[test]
fn views_are_cycled_through_by_identifier() {
    let mut s = session();
    for _ in 0..3 {
        let id = s.views.add(FileStatus::NoFile, 8, 8);
        s.views.activate(id);
    }
    s.views.activate(rx::view::ViewId(1));
    assert!(matches!(s.command(Command::ViewNext), Outcome::Done));
    assert_eq!(s.views.current_id().0, 2);
    s.command(Command::ViewNext);
    s.command(Command::ViewNext);
    assert_eq!(s.views.current_id().0, 1);
    s.command(Command::ViewPrev);
    assert_eq!(s.views.current_id().0, 3);
}

#[test]
fn quit_all_closes_the_saved_views_only() {
    let mut s = session();
    let statuses = vec![
        FileStatus::Saved("a.png".to_string()),
        FileStatus::New("b.png".to_string()),
        FileStatus::NoFile,
    ];
    for fs in statuses {
        let id = s.views.add(fs, 8, 8);
        s.views.activate(id);
    }
    assert!(s.allows(&Command::QuitAll));
    assert!(matches!(s.command(Command::QuitAll), Outcome::Done));
    assert_eq!(s.views.len(), 1);
    assert_eq!(s.views.current_id().0, 2);
    assert_eq!(s.message.message_type, MessageType::Error);
    assert_eq!(s.message.string, "Error: no write since last change (enter `:q!` to quit without saving)");
}

#[test]
fn a_replay_types_and_runs_a_command() {
    let digest = DigestState::ignore().unwrap();
    let mut rec = Execution::recording("k".to_string(), digest, GifMode::Ignore);
    rec.push_event(TimedEvent::new(0, 0, Event::ReceivedCharacter(':', ModifiersState::default())));
    for c in "swap".chars() {
        rec.push_event(TimedEvent::new(1, 0, Event::ReceivedCharacter(c, ModifiersState::default())));
    }
    rec.push_event(TimedEvent::new(1, 0, Event::KeyboardInput(key(Key::Return, InputState::Pressed))));
    let out = rec.stop_recording();

    let digest = DigestState::ignore().unwrap();
    let mut exec = Execution::replaying("k".to_string(), digest, &[], "k/k.events", &out.event_lines).unwrap();
    let mut s = session();
    let id = s.views.add(FileStatus::NoFile, 8, 8);
    s.views.activate(id);
    s.key_bindings.add(binding(Input::Character(':'), Mode::Normal, Command::Mode(Mode::Command)));
    let (fg, bg) = (s.fg, s.bg);

    let mut steps = 0;
    loop {
        s.begin_update();
        let step = s.replay_step(&mut exec, "");
        steps += 1;
        s.finish_update(&exec);
        if step.ended {
            break;
        }
        assert!(steps < 5);
    }
    assert_eq!(steps, 2);
    assert_eq!((s.fg, s.bg), (bg, fg));
    assert!(exec.is_normal());
    assert_eq!(s.message.string, "Replay ended");
    assert_eq!(s.message.message_type, MessageType::Execution);
    assert_eq!(s.state, State::Running);
}

#[test]
fn replay_results_are_tallied() {
    let mut r = ReplayResult::new();
    assert!(r.is_ok() && !r.is_done());
    r.record(VerifyResult::Okay(rx::execution::Hash(1)));
    r.record(VerifyResult::Stale(rx::execution::Hash(2)));
    assert!(r.is_ok());
    r.record(VerifyResult::Failed(rx::execution::Hash(3), rx::execution::Hash(4)));
    assert!(r.is_err());
    r.record(VerifyResult::EOF);
    assert!(r.is_done() && r.is_err());
    assert_eq!(r.counts(), (1, 1, 1));
}

#[test]
fn undo_and_redo_step_through_the_active_views_history() {
    let mut s = session();
    let id = s.views.add(FileStatus::Saved("a.png".to_string()), 8, 8);
    s.views.activate(id);
    let blank = vec![Rgba8::new(0, 0, 0, 0); 64];
    s.add_resource(id, blank, ViewExtent::new(8, 8, 1));

    // Nothing to undo yet.
    s.command(Command::Undo);
    assert_eq!(s.views.active().unwrap().state, ViewState::Okay);

    s.command(Command::FrameResize(16, 8));
    assert_eq!(s.views.active().unwrap().fw, 16);
    s.record_view(id, vec![Rgba8::new(1, 2, 3, 255); 128], ViewExtent::new(16, 8, 1));

    assert!(matches!(s.command(Command::Undo), Outcome::Done));
    let v = s.views.active().unwrap();
    assert_eq!((v.fw, v.fh, v.nframes), (8, 8, 1));
    assert_eq!(v.state, ViewState::Damaged);

    s.command(Command::Redo);
    let v = s.views.active().unwrap();
    assert_eq!((v.fw, v.fh, v.nframes), (16, 8, 1));

    // Nothing left to redo.
    s.command(Command::Redo);
    assert_eq!(s.views.active().unwrap().fw, 16);
}

#[test]
fn moving_the_selection_translates_it() {
    let mut s = session();
    let id = s.views.add(FileStatus::NoFile, 8, 8);
    s.views.activate(id);
    s.selection = Some(Selection(Rect { x1: 1, y1: 1, x2: 3, y2: 3 }));
    assert!(s.allows(&Command::SelectionMove(2, -1)));
    s.command(Command::SelectionMove(2, -1));
    assert_eq!(s.selection, Some(Selection(Rect { x1: 3, y1: 0, x2: 5, y2: 2 })));
    // Without a selection nothing moves.
    s.selection = None;
    s.command(Command::SelectionMove(1, 1));
    assert_eq!(s.selection, None);
}

#[test]
fn reset_brings_back_the_default_settings() {
    let mut s = session();
    s.settings.set("debug", Value::Bool(true)).unwrap();
    s.key_bindings.add(binding(Input::Key(Key::A), Mode::Normal, Command::SwapColors));
    assert!(matches!(s.command(Command::Reset), Outcome::Done));
    assert!(s.key_bindings.is_empty());
    assert_eq!(s.settings.get("debug"), Some(&Value::Bool(false)));
    assert_eq!(s.message.string, "Settings reset to default values");
    assert_eq!(s.message.message_type, MessageType::Okay);
}

#[test]
fn sampling_the_palette_takes_the_views_colors() {
    let red = Rgba8::new(255, 0, 0, 255);
    let blue = Rgba8::new(0, 0, 255, 255);
    let clear = Rgba8::new(0, 0, 0, 0);
    let mut s = session();
    let id = s.views.add(FileStatus::NoFile, 2, 2);
    s.views.activate(id);
    s.add_resource(id, vec![red, clear, blue, red], ViewExtent::new(2, 2, 1));
    assert!(matches!(s.command(Command::PaletteSample), Outcome::Done));

    let mut t = session();
    t.command(Command::PaletteAdd(red));
    t.command(Command::PaletteAdd(blue));
    t.command(Command::PaletteSort);
    assert_eq!(s.palette.colors, t.palette.colors);
    assert_eq!(s.palette.colors.len(), 2);
}
