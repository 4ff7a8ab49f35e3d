use rx::autocomplete::Completer;
use rx::brush::{Brush, BrushMode};
use rx::cmd::CommandLine;
use rx::color::Rgba8;
use rx::gfx::Point2;
use rx::view::ViewExtent;
use rx::event::Event;
use rx::parser::Decimal;
use rx::platform::{InputState, MouseButton};
use rx::session::{
    coalesce_cursor_moves, Blending, ExitReason, Mode, PaintTarget, PanState, Selection, Session, State, Tool,
    VisualState,
};

#[derive(Debug)]
struct NoCompletions;

impl Completer for NoCompletions {
    type Options = ();

    fn complete(&self, _input: &str, _opts: ()) -> Vec<String> {
        Vec::new()
    }
}

fn session() -> Session<NoCompletions> {
    Session::new(CommandLine::new("/dev/null", NoCompletions))
}

#[test]
fn new_session() {
    let s = session();
    assert_eq!(s.mode, Mode::Normal);
    assert_eq!(s.state, State::Initializing);
    assert_eq!(s.fg, Rgba8::new(0xff, 0xff, 0xff, 0xff));
    assert_eq!(s.bg, Rgba8::new(0, 0, 0, 0xff));
    assert!(!s.is_running());
}

#[test]
fn entering_and_leaving_command_mode() {
    let mut s = session();
    assert!(s.switch_mode(Mode::Command));
    assert_eq!(s.cmdline.input(), ":");
    assert!(s.ignore_received_characters);
    assert_eq!(s.prev_mode, Some(Mode::Normal));
    s.cmdline.puts("q");
    assert!(!s.switch_mode(Mode::Command));
    assert_eq!(s.cmdline.input(), ":q");
    assert!(s.switch_mode(Mode::Visual(VisualState::Pasting)));
    assert_eq!(s.cmdline.input(), "");
    assert_eq!(s.prev_mode, Some(Mode::Command));
}

#[test]
fn normal_mode_drops_the_selection() {
    let mut s = session();
    s.switch_mode(Mode::Visual(VisualState::selecting()));
    s.selection = Some(Selection(rx::rect::Rect::new(0, 0, 4, 4)));
    s.switch_mode(Mode::Normal);
    assert_eq!(s.selection, None);
}

#[test]
fn toggling_modes() {
    let mut s = session();
    assert!(s.toggle_mode(Mode::Help));
    assert_eq!(s.mode, Mode::Help);
    assert!(s.toggle_mode(Mode::Help));
    assert_eq!(s.mode, Mode::Normal);
}

#[test]
fn tools_remember_the_previous_kind() {
    let mut s = session();
    s.tool(Tool::Sampler);
    assert!(matches!(s.prev_tool, Some(Tool::Brush(_))));
    s.tool(Tool::Pan(PanState::Panning));
    assert_eq!(s.prev_tool, Some(Tool::Sampler));
    s.tool(Tool::Pan(PanState::NotPanning));
    assert_eq!(s.prev_tool, Some(Tool::Sampler));
    s.prev_tool();
    assert_eq!(s.tool, Tool::Sampler);
    assert_eq!(s.prev_tool, Some(Tool::Sampler));
}

#[test]
fn picking_colors() {
    let mut s = session();
    let red = Rgba8::new(0xff, 0, 0, 0xff);
    s.pick_color(red);
    assert_eq!(s.fg, red);
    assert_eq!(s.bg, Rgba8::new(0xff, 0xff, 0xff, 0xff));
    s.pick_color(Rgba8::new(1, 2, 3, 0));
    assert_eq!(s.fg, red);
    s.pick_color(red);
    assert_eq!(s.bg, Rgba8::new(0xff, 0xff, 0xff, 0xff));
}

#[test]
fn running_and_quitting() {
    let mut s = session();
    s.transition(State::Running);
    assert!(s.is_running());
    s.quit(ExitReason::Error("bad".to_string()));
    assert_eq!(s.state, State::Closing(ExitReason::Error("bad".to_string())));
    s.transition(State::Running);
    assert!(!s.is_running());
}

#[test]
fn brush_paint_targets() {
    let extent = ViewExtent::new(8, 8, 1);
    let mut b = Brush::default();
    assert_eq!(b.paint_target(), None);
    b.start_drawing(Point2::new(0, 0), Rgba8::new(1, 2, 3, 255), extent);
    assert_eq!(b.paint_target(), Some(PaintTarget::Draft));
    b.stop_drawing();
    assert_eq!(b.paint_target(), Some(PaintTarget::Final(Blending::Alpha)));
    b.update();
    assert_eq!(b.paint_target(), None);

    b.set(BrushMode::Erase);
    b.start_drawing(Point2::new(0, 0), Rgba8::new(1, 2, 3, 255), extent);
    assert_eq!(b.paint_target(), Some(PaintTarget::Final(Blending::Constant)));
}

#[test]
fn only_the_last_of_many_cursor_moves_is_kept() {
    let d = |s: &str| Decimal { text: s.to_string() };
    let mut evs = vec![
        Event::CursorMoved(d("1"), d("1")),
        Event::CursorMoved(d("2"), d("2")),
        Event::CursorMoved(d("3"), d("3")),
    ];
    coalesce_cursor_moves(&mut evs);
    assert_eq!(evs, vec![Event::CursorMoved(d("3"), d("3"))]);

    let mut evs = vec![
        Event::CursorMoved(d("1"), d("1")),
        Event::MouseInput(MouseButton::Left, InputState::Pressed),
    ];
    coalesce_cursor_moves(&mut evs);
    assert_eq!(evs.len(), 2);
}
