use rx::autocomplete::Completer;
use rx::brush::BrushMode;
use rx::cmd::{Command, CommandLine, KeyMapping, Op, Value};
use rx::color::Rgba8;
use rx::commands::Outcome;
use rx::parser::Decimal;
use rx::platform::{InputState, Key, ModifiersState};
use rx::session::{ExitReason, Input, MessageType, Mode, Selection, Session, State, Tool};
use rx::view::{FileStatus, ViewOp};

#[derive(Debug)]
struct NoCompletions;

impl Completer for NoCompletions {
    type Options = ();

    fn complete(&self, _input: &str, _opts: ()) -> Vec<String> {
        Vec::new()
    }
}

fn session() -> Session<NoCompletions> {
    Session::new(CommandLine::new("/dev/null", NoCompletions))
}

fn brush_size(s: &Session<NoCompletions>) -> usize {
    match &s.tool {
        Tool::Brush(b) => b.size,
        _ => panic!("the tool is not a brush"),
    }
}

#[test]
fn swapping_colors() {
    let mut s = session();
    assert_eq!(s.command(Command::SwapColors), Outcome::Done);
    assert_eq!(s.fg, Rgba8::new(0, 0, 0, 0xff));
    assert_eq!(s.bg, Rgba8::new(0xff, 0xff, 0xff, 0xff));
}

#[test]
fn brush_size_steps_are_even() {
    let mut s = session();
    assert_eq!(brush_size(&s), 1);
    s.command(Command::BrushSize(Op::Incr));
    assert_eq!(brush_size(&s), 2);
    s.command(Command::BrushSize(Op::Incr));
    assert_eq!(brush_size(&s), 4);
    s.command(Command::BrushSize(Op::Decr));
    assert_eq!(brush_size(&s), 2);
    s.command(Command::BrushSize(Op::Decr));
    assert_eq!(brush_size(&s), 1);
    s.command(Command::BrushSize(Op::Decr));
    assert_eq!(brush_size(&s), 1);
}

#[test]
fn brush_size_to_a_number_is_handed_back() {
    let mut s = session();
    let op = Op::To(Decimal { text: "3.5".to_owned() });
    match s.command(Command::BrushSize(op)) {
        Outcome::Deferred(Command::BrushSize(Op::To(d))) => assert_eq!(d.text, "3.5"),
        other => panic!("unexpected {:?}", other),
    }
    s.set_brush_size(3);
    assert_eq!(brush_size(&s), 3);
    s.set_brush_size(0);
    assert_eq!(brush_size(&s), 1);
}

#[test]
fn brush_modes() {
    let mut s = session();
    s.command(Command::BrushSet(BrushMode::Multi));
    s.command(Command::BrushToggle(BrushMode::Perfect));
    match &s.tool {
        Tool::Brush(b) => {
            assert!(b.is_set(BrushMode::Multi));
            assert!(b.is_set(BrushMode::Perfect));
        }
        _ => panic!("the tool is not a brush"),
    }
    s.command(Command::BrushUnset(BrushMode::Multi));
    s.command(Command::BrushToggle(BrushMode::Perfect));
    match &s.tool {
        Tool::Brush(b) => {
            assert!(!b.is_set(BrushMode::Multi));
            assert!(!b.is_set(BrushMode::Perfect));
        }
        _ => panic!("the tool is not a brush"),
    }
}

#[test]
fn echo_of_strings_and_settings() {
    let mut s = session();
    s.command(Command::Echo(Value::Str("hello".to_owned())));
    assert_eq!(s.message.string, "hello");
    assert_eq!(s.message.message_type, MessageType::Echo);

    s.command(Command::Echo(Value::Ident("checker".to_owned())));
    assert_eq!(s.message.string, "checker = off");

    s.command(Command::Echo(Value::Ident("fnord".to_owned())));
    assert_eq!(s.message.string, "Error: fnord is undefined");
    assert_eq!(s.message.message_type, MessageType::Error);

    s.command(Command::Echo(Value::U32(1)));
    assert_eq!(s.message.string, "Error: argument cannot be echoed");
}

#[test]
fn echo_of_a_float_setting_is_handed_back() {
    let mut s = session();
    let r = s.command(Command::Echo(Value::Ident("scale".to_owned())));
    assert!(matches!(r, Outcome::Deferred(Command::Echo(Value::Ident(_)))));
    let r = s.command(Command::Echo(Value::Ident("cwd".to_owned())));
    assert!(matches!(r, Outcome::Deferred(_)));
}

#[test]
fn setting_and_toggling() {
    let mut s = session();
    s.command(Command::SetSetting("checker".to_owned(), Value::Bool(true)));
    assert_eq!(s.settings.get("checker"), Some(&Value::Bool(true)));
    assert_eq!(s.settings_changed, vec!["checker".to_owned()]);

    s.command(Command::Toggle("checker".to_owned()));
    assert_eq!(s.settings.get("checker"), Some(&Value::Bool(false)));
    assert_eq!(s.settings_changed, vec!["checker".to_owned()]);

    s.command(Command::SetSetting("p/height".to_owned(), Value::U32(8)));
    assert_eq!(s.palette.height, 8);

    s.command(Command::Toggle("p/height".to_owned()));
    assert_eq!(s.message.string, "Error: can't toggle `p/height`");

    s.command(Command::SetSetting("fnord".to_owned(), Value::U32(8)));
    assert_eq!(s.message.string, "Error: no such setting `fnord`");

    s.command(Command::SetSetting("checker".to_owned(), Value::U32(8)));
    assert_eq!(s.message.string, "Error: invalid value `8` for `checker`, expected on / off");

    s.command(Command::SetSetting("frame_delay".to_owned(), Value::U32(8)));
    assert_eq!(s.message.string, "Warning: the setting `frame_delay` has been deprecated");
    assert_eq!(s.message.message_type, MessageType::Warning);
}

#[test]
fn mapping_keys() {
    let mut s = session();
    let mapping = KeyMapping {
        input: Input::Key(Key::A),
        press: Command::SwapColors,
        release: Some(Command::Noop),
        modes: vec![Mode::Normal],
    };
    s.command(Command::MapKey(Box::new(mapping)));
    assert_eq!(s.key_bindings.len(), 2);
    let pressed = s
        .key_bindings
        .find(Input::Key(Key::A), ModifiersState::default(), InputState::Pressed, Mode::Normal)
        .expect("a binding for the press");
    assert_eq!(pressed.command, Command::SwapColors);
    assert!(pressed.is_toggle);
    assert_eq!(pressed.display, Some("a".to_owned()));
    let released = s
        .key_bindings
        .find(Input::Key(Key::A), ModifiersState::default(), InputState::Released, Mode::Normal)
        .expect("a binding for the release");
    assert_eq!(released.command, Command::Noop);

    s.command(Command::MapClear);
    assert!(s.key_bindings.is_empty());
}

#[test]
fn palette_commands() {
    let mut s = session();
    s.command(Command::PaletteAdd(Rgba8::new(0xff, 0xff, 0xff, 0xff)));
    s.command(Command::PaletteAdd(Rgba8::new(0x10, 0, 0, 0xff)));
    s.command(Command::PaletteAdd(Rgba8::new(0x10, 0, 0, 0xff)));
    assert_eq!(s.palette.size(), 2);
    s.command(Command::PaletteSort);
    assert_eq!(s.palette.colors[0], Rgba8::new(0x10, 0, 0, 0xff));
    s.command(Command::PaletteClear);
    assert_eq!(s.palette.size(), 0);
}

#[test]
fn mode_commands_toggle() {
    let mut s = session();
    assert_eq!(s.command(Command::Mode(Mode::Help)), Outcome::ModeChanged);
    assert_eq!(s.mode, Mode::Help);
    assert_eq!(s.command(Command::Mode(Mode::Help)), Outcome::ModeChanged);
    assert_eq!(s.mode, Mode::Normal);
}

#[test]
fn tools_and_quitting() {
    let mut s = session();
    s.command(Command::Tool(Tool::Sampler));
    assert_eq!(s.tool, Tool::Sampler);
    s.command(Command::ToolPrev);
    assert!(matches!(s.tool, Tool::Brush(_)));

    s.transition(State::Running);
    s.command(Command::ForceQuitAll);
    assert_eq!(s.state, State::Closing(ExitReason::Normal));
}

#[test]
fn resizing_the_selection() {
    let mut s = session();
    s.selection = Some(Selection(rx::rect::Rect::new(0, 0, 3, 3)));
    s.command(Command::SelectionResize(2, -1));
    assert_eq!(s.selection, Some(Selection(rx::rect::Rect::new(0, 0, 5, 2))));
}

#[test]
fn unimplemented_and_outside_commands() {
    let mut s = session();
    s.command(Command::Brush);
    assert_eq!(s.message.string, "Error: not yet implemented");
    s.command(Command::Source(None));
    assert_eq!(s.message.string, "Error: source command requires a path");
    let r = s.command(Command::Zoom(Op::Incr));
    assert_eq!(r, Outcome::Deferred(Command::Zoom(Op::Incr)));
}

#[test]
fn frames_of_the_active_view() {
    let mut s = session();
    let id = s.views.add(FileStatus::NoFile, 16, 16);
    s.views.activate(id);
    s.command(Command::FrameAdd);
    assert_eq!(s.views.active().map(|v| v.nframes), Some(2));

    s.command(Command::FrameClone(5));
    assert_eq!(s.message.string, "Error: clone index must be in the range 0..1");
    s.command(Command::FrameClone(-1));
    let v = s.views.active().expect("an active view");
    assert_eq!(v.nframes, 3);
    assert_eq!(v.ops, vec![ViewOp::Blit { src: 1, dst: 2 }]);
}

#[test]
fn slicing_the_active_view() {
    let mut s = session();
    let id = s.views.add(FileStatus::NoFile, 16, 16);
    s.views.activate(id);
    s.command(Command::FrameAdd);
    s.command(Command::Slice(Some(4)));
    let v = s.views.active().expect("an active view");
    assert_eq!((v.fw, v.nframes), (8, 4));

    s.command(Command::Slice(Some(3)));
    assert_eq!(s.message.string, "Error: slice: view width is not divisible by 3");

    s.command(Command::Slice(None));
    let v = s.views.active().expect("an active view");
    assert_eq!((v.fw, v.nframes), (32, 1));
}

#[test]
fn quitting_views() {
    let mut s = session();
    let id = s.views.add(FileStatus::New("new.png".to_owned()), 16, 16);
    s.views.activate(id);
    s.command(Command::Quit);
    assert_eq!(s.message.string, "Error: no write since last change (enter `:q!` to quit without saving)");
    assert_eq!(s.views.len(), 1);
    s.command(Command::ForceQuit);
    assert!(s.views.is_empty());

    let id = s.views.add(FileStatus::NoFile, 16, 16);
    s.views.activate(id);
    s.command(Command::Quit);
    assert!(s.views.is_empty());
}

#[test]
fn animation_delay_reaches_every_view() {
    let mut s = session();
    let first = s.views.add(FileStatus::NoFile, 16, 16);
    let second = s.views.add(FileStatus::NoFile, 8, 8);
    s.command(Command::SetSetting("animation/delay".to_owned(), Value::U32(90)));
    assert_eq!(s.views.get(first).map(|v| v.animation_delay), Some(90));
    assert_eq!(s.views.get(second).map(|v| v.animation_delay), Some(90));
}

#[test]
fn resizing_and_removing_frames() {
    let mut s = session();
    let id = s.views.add(FileStatus::NoFile, 16, 16);
    s.views.activate(id);
    s.command(Command::FrameResize(0, 8));
    assert_eq!(s.message.string, "Error: cannot set frame dimension to `0`");
    s.command(Command::FrameResize(5000, 8));
    assert_eq!(s.message.string, "Error: maximum frame size is 4096x4096");

    s.selection = Some(Selection(rx::rect::Rect::new(12, 12, 14, 14)));
    s.command(Command::FrameResize(8, 8));
    let v = s.views.active().expect("an active view");
    assert_eq!((v.fw, v.fh), (8, 8));
    assert_eq!(s.selection, None);

    s.command(Command::FrameAdd);
    s.selection = Some(Selection(rx::rect::Rect::new(10, 2, 12, 4)));
    s.command(Command::FrameRemove);
    assert_eq!(s.views.active().map(|v| v.nframes), Some(1));
    assert_eq!(s.selection, None);
    s.command(Command::FrameRemove);
    assert_eq!(s.views.active().map(|v| v.nframes), Some(1));
}

#[test]
fn updates_begin_and_finish() {
    let mut s = session();
    s.command(Command::SetSetting("checker".to_owned(), Value::Bool(true)));
    s.ignore_received_characters = true;
    s.begin_update();
    assert!(s.settings_changed.is_empty());
    assert!(!s.ignore_received_characters);
    s.transition(State::Running);
    let exec = rx::execution::Execution::normal();
    s.finish_update(&exec);
    assert_eq!(s.frame_number, 1);
    assert_eq!(s.state, State::Closing(ExitReason::Normal));
}
