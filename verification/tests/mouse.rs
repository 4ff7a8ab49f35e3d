use rx::autocomplete::Completer;
use rx::brush::BrushState;
use rx::cmd::CommandLine;
use rx::color::Rgba8;
use rx::gfx::Point2;
use rx::mouse::{rgb_string, MouseOutcome};
use rx::platform::{InputState, MouseButton};
use rx::rect::Rect;
use rx::session::{Mode, PanState, Selection, Session, Tool, VisualState};
use rx::view::{FileStatus, ViewId};

#[derive(Debug)]
struct NoCompletions;

impl Completer for NoCompletions {
    type Options = ();

    fn complete(&self, _input: &str, _opts: ()) -> Vec<String> {
        Vec::new()
    }
}

fn editing() -> (Session<NoCompletions>, ViewId) {
    let mut s = Session::new(CommandLine::new("/dev/null", NoCompletions));
    let id = s.views.add(FileStatus::Saved("a.png".to_owned()), 8, 8);
    s.views.activate(id);
    (s, id)
}

#[test]
fn colors_are_written_in_upper_case_hex() {
    assert_eq!(rgb_string(Rgba8::new(0xab, 0x01, 0xff, 0x10)), "#AB01FF");
}

#[test]
fn panning_follows_the_button() {
    let (mut s, id) = editing();
    s.tool = Tool::Pan(PanState::NotPanning);
    s.handle_mouse_input(MouseButton::Left, InputState::Pressed, Some(id), Point2::new(0, 0));
    assert_eq!(s.tool, Tool::Pan(PanState::Panning));
    assert_eq!(s.mouse_state, InputState::Pressed);
    s.handle_mouse_input(MouseButton::Left, InputState::Released, Some(id), Point2::new(0, 0));
    assert_eq!(s.tool, Tool::Pan(PanState::NotPanning));
    s.handle_mouse_input(MouseButton::Right, InputState::Pressed, Some(id), Point2::new(0, 0));
    assert_eq!(s.tool, Tool::Pan(PanState::NotPanning));
}

#[test]
fn a_stroke_touches_the_view() {
    let (mut s, id) = editing();
    let r = s.handle_mouse_input(MouseButton::Left, InputState::Pressed, Some(id), Point2::new(2, 3));
    assert_eq!(r, MouseOutcome::Done);
    match &s.tool {
        Tool::Brush(b) => assert!(matches!(b.state, BrushState::Drawing(_))),
        _ => panic!("the tool is not a brush"),
    }
    s.handle_mouse_input(MouseButton::Left, InputState::Released, Some(id), Point2::new(2, 3));
    match &s.tool {
        Tool::Brush(b) => assert!(matches!(b.state, BrushState::DrawEnded(_))),
        _ => panic!("the tool is not a brush"),
    }
    assert_eq!(s.views.active().map(|v| v.file_status.clone()), Some(FileStatus::Modified("a.png".to_owned())));
}

#[test]
fn picking_from_the_palette() {
    let (mut s, id) = editing();
    let c = Rgba8::new(1, 2, 3, 0xff);
    s.palette.hover = Some(c);
    s.handle_mouse_input(MouseButton::Left, InputState::Pressed, Some(id), Point2::new(0, 0));
    assert_eq!(s.fg, c);
    assert_eq!(s.bg, Rgba8::new(0xff, 0xff, 0xff, 0xff));
    s.switch_mode(Mode::Command);
    s.handle_mouse_input(MouseButton::Left, InputState::Pressed, Some(id), Point2::new(0, 0));
    assert_eq!(s.cmdline.input(), ":#010203");
}

#[test]
fn selecting_and_dragging() {
    let (mut s, id) = editing();
    s.switch_mode(Mode::Visual(VisualState::selecting()));
    s.handle_mouse_input(MouseButton::Left, InputState::Pressed, Some(id), Point2::new(4, 5));
    assert_eq!(s.selection, Some(Selection(Rect::new(4, 5, 4, 5))));
    s.handle_mouse_input(MouseButton::Left, InputState::Pressed, Some(id), Point2::new(4, 5));
    assert_eq!(s.mode, Mode::Visual(VisualState::Selecting { dragging: true }));
    s.handle_mouse_input(MouseButton::Left, InputState::Released, Some(id), Point2::new(4, 5));
    assert_eq!(s.mode, Mode::Visual(VisualState::Selecting { dragging: false }));
    s.handle_mouse_input(MouseButton::Left, InputState::Pressed, None, Point2::new(4, 5));
    assert_eq!(s.selection, None);
}

#[test]
fn clicking_another_view_activates_it() {
    let (mut s, _) = editing();
    let other = s.views.add(FileStatus::NoFile, 4, 4);
    let r = s.handle_mouse_input(MouseButton::Left, InputState::Pressed, Some(other), Point2::new(0, 0));
    assert_eq!(r, MouseOutcome::CenterSelection);
    assert_eq!(s.views.active().map(|v| v.id), Some(other));
}
