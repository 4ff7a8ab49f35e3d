//! What the session does with the left mouse button: panning, picking from
//! the palette, drawing, selecting and activating views.
use crate::autocomplete::Completer;
use crate::brush::{extended_stroke, in_bounds, is_line, BrushMode, BrushState, BrushView};
use crate::color::Rgba8;
use crate::gfx::Point2;
use crate::platform::{InputState, MouseButton};
use crate::rect::Rect;
use crate::session::{switched, Mode, PanState, Selection, Session, Tool, VisualState};
use crate::view::{find_from, view_ids, touched_status, View, ViewExtent, ViewState, MAX_LRU};
use vstd::prelude::*;
use vstd::view::View as HasView;

verus! {

/// What is left to do after the mouse button was handled.
#[derive(Clone, Copy, Debug, PartialEq, Eq, Structural)]
pub enum MouseOutcome {
    /// Nothing.
    Done,
    /// The color under the cursor is to be sampled from the view's pixels.
    SampleColor,
    /// The selection is to be centered on the cursor and pasted.
    Paste,
    /// The selection is to be centered on the cursor, in the view just
    /// activated.
    CenterSelection,
}

/// An upper-case hexadecimal digit.
pub open spec fn hex_upper(n: int) -> char {
    if n < 10 {
        (('0' as u32) + n) as char
    } else {
        (('A' as u32) + n - 10) as char
    }
}

/// A color written as `#RRGGBB`, its alpha left out.
pub open spec fn rgb_text(c: Rgba8) -> Seq<char> {
    seq![
        '#',
        hex_upper(c.r as int / 16),
        hex_upper(c.r as int % 16),
        hex_upper(c.g as int / 16),
        hex_upper(c.g as int % 16),
        hex_upper(c.b as int / 16),
        hex_upper(c.b as int % 16),
    ]
}

fn push_hex_upper(m: &mut String, n: u8)
    requires
        n < 16,
    ensures
        final(m)@ == old(m)@.push(hex_upper(n as int)),
{
    let c: char = if n < 10 {
        ((48u8 + n) as char)
    } else {
        ((65u8 + n - 10) as char)
    };
    crate::text::push_char(m, c);
}

/// The color written as `#RRGGBB`.
pub fn rgb_string(c: Rgba8) -> (s: String)
    ensures
        s@ == rgb_text(c),
{
    let mut s = String::new();
    crate::text::push_char(&mut s, '#');
    push_hex_upper(&mut s, c.r / 16);
    push_hex_upper(&mut s, c.r % 16);
    push_hex_upper(&mut s, c.g / 16);
    push_hex_upper(&mut s, c.g % 16);
    push_hex_upper(&mut s, c.b / 16);
    push_hex_upper(&mut s, c.b % 16);
    assert(s@ =~= rgb_text(c));
    s
}

/// Whether the brush `nb` is the brush `b` that started drawing at `p` in
/// `color`, on a view of extent `extent`.
pub open spec fn drawing_started(b: BrushView, nb: BrushView, p: Point2<i32>, color: Rgba8, extent: ViewExtent) -> bool {
    &&& nb.state == BrushState::Drawing(extent)
    &&& nb.color == color
    &&& nb.curr == p
    &&& nb.prev == p
    &&& nb.modes == b.modes
    &&& nb.size == b.size
    &&& exists|l: Seq<Point2<i32>>|
        is_line(l, p, p) && nb.stroke == extended_stroke(Seq::empty(), l, b.modes.contains(BrushMode::Perfect))
}

/// The selection of the single pixel `p`.
pub open spec fn unit_selection(p: Point2<i32>) -> Selection {
    Selection(Rect { x1: p.x, y1: p.y, x2: p.x, y2: p.y })
}

/// Whether the pixel `p` lies within the selection, whichever way its
/// corners are given.
pub open spec fn selection_holds(s: Selection, p: Point2<i32>) -> bool {
    let r = s.0;
    let (lx, hx) = if r.x1 <= r.x2 { (r.x1 as int, r.x2 as int) } else { (r.x2 as int, r.x1 as int) };
    let (ly, hy) = if r.y1 <= r.y2 { (r.y1 as int, r.y2 as int) } else { (r.y2 as int, r.y1 as int) };
    lx <= p.x <= hx && ly <= p.y <= hy
}

/// The recently active views after activating `id`.
pub open spec fn recent_after_activate(recent: Seq<crate::view::ViewId>, current: crate::view::ViewId, id: crate::view::ViewId) -> Seq<crate::view::ViewId> {
    if current == id {
        recent
    } else {
        let r = seq![id] + recent;
        if r.len() > MAX_LRU {
            r.take(MAX_LRU as int)
        } else {
            r
        }
    }
}

/// The active view of a session, if any.
pub open spec fn active_of<C: Completer>(s: Session<C>) -> Option<View> {
    s.views.view_of(s.views.current())
}

/// What a press of the left button does, the pan tool aside: a color
/// hovered in the palette is picked, or written into the command line; a
/// click on a view leaves command mode, or draws, samples, selects or
/// pastes on the active view, or activates another view; a click outside
/// the views drops the selection.
pub open spec fn pressed<C: Completer>(
    b1: Session<C>,
    after: Session<C>,
    hover: Option<crate::view::ViewId>,
    at: Point2<i32>,
    r: MouseOutcome,
) -> bool {
    if b1.palette.hover is Some {
        let c = b1.palette.hover->Some_0;
        &&& r == MouseOutcome::Done
        &&& if b1.mode == Mode::Command {
            &&& after == (Session { cmdline: after.cmdline, ..b1 })
            &&& after.cmdline.wf()
            &&& after.cmdline.text() == b1.cmdline.text() + rgb_text(c)
            &&& after.cmdline.cursor_at() == b1.cmdline.cursor_at() + 7
        } else if c.a == 0 || c == b1.fg {
            after == b1
        } else {
            after == (Session { fg: c, bg: b1.fg, ..b1 })
        }
    } else {
        match hover {
            Some(id) => if b1.mode == Mode::Command {
                r == MouseOutcome::Done && switched(
                    b1,
                    after,
                    match b1.prev_mode {
                        Some(m) => m,
                        None => Mode::Normal,
                    },
                )
            } else if id == b1.views.current() {
                let v = active_of(b1)->Some_0;
                match b1.mode {
                    Mode::Normal => match b1.tool {
                        Tool::Brush(b) => {
                            let color = if b@.modes.contains(BrushMode::Erase) {
                                Rgba8 { r: 0, g: 0, b: 0, a: 0 }
                            } else {
                                b1.fg
                            };
                            &&& r == MouseOutcome::Done
                            &&& after == (Session { tool: after.tool, ..b1 })
                            &&& after.tool matches Tool::Brush(nb) && nb.wf() && drawing_started(
                                b@,
                                nb@,
                                at,
                                color,
                                ViewExtent { fw: v.fw, fh: v.fh, nframes: v.nframes },
                            )
                        },
                        Tool::Sampler => r == MouseOutcome::SampleColor && after == b1,
                        Tool::Pan(_) => r == MouseOutcome::Done && after == b1,
                    },
                    Mode::Visual(VisualState::Selecting { .. }) => {
                        &&& r == MouseOutcome::Done
                        &&& if b1.selection matches Some(s) && selection_holds(s, at) {
                            after == (Session { mode: Mode::Visual(VisualState::Selecting { dragging: true }), ..b1 })
                        } else {
                            after == (Session { selection: Some(unit_selection(at)), ..b1 })
                        }
                    },
                    Mode::Visual(VisualState::Pasting) => r == MouseOutcome::Paste && after == b1,
                    _ => r == MouseOutcome::Done && after == b1,
                }
            } else {
                &&& r == MouseOutcome::CenterSelection
                &&& after == (Session { views: after.views, ..b1 })
                &&& after.views.wf()
                &&& after.views.current() == id
                &&& after.views.all() == b1.views.all()
                &&& after.views.next() == b1.views.next()
                &&& after.views.recent() == recent_after_activate(b1.views.recent(), b1.views.current(), id)
            },
            None => r == MouseOutcome::Done && if b1.mode matches Mode::Visual(VisualState::Selecting { .. }) {
                after == (Session {
                    selection: None,
                    mode: Mode::Visual(VisualState::Selecting { dragging: false }),
                    ..b1
                })
            } else {
                after == b1
            },
        }
    }
}

/// What a release of the left button does, the pan tool aside: dragging a
/// selection stops, and a stroke of the brush ends, which touches the
/// active view.
pub open spec fn released<C: Completer>(b1: Session<C>, after: Session<C>) -> bool {
    match b1.mode {
        Mode::Visual(VisualState::Selecting { .. }) => after == (Session {
            mode: Mode::Visual(VisualState::Selecting { dragging: false }),
            ..b1
        }),
        Mode::Normal => match b1.tool {
            Tool::Brush(b) => if b@.state is Drawing || b@.state is DrawStarted {
            let v = active_of(b1)->Some_0;
            let i = find_from(b1.views.all(), b1.views.current(), 0)->Some_0;
            &&& after == (Session { tool: after.tool, views: after.views, ..b1 })
            &&& after.tool matches Tool::Brush(nb) && nb.wf() && nb@ == (BrushView {
                state: match b@.state {
                    BrushState::DrawStarted(e) => BrushState::DrawEnded(e),
                    BrushState::Drawing(e) => BrushState::DrawEnded(e),
                    s => s,
                },
                ..b@
            })
            &&& after.views.all() == b1.views.all().update(
                i,
                View { file_status: touched_status(v.file_status), state: ViewState::Dirty, ..v },
            )
            &&& after.views.recent() == b1.views.recent()
            &&& after.views.current() == b1.views.current()
            &&& after.views.next() == b1.views.next()
        } else {
            after == b1
        },
            _ => after == b1,
        },
        _ => after == b1,
    }
}

/// What the session does with the mouse button `button` going to `state`,
/// with the cursor over the view `hover`, if any, at the pixel `at` of the
/// active view.
pub open spec fn mouse_input_done<C: Completer>(
    before: Session<C>,
    after: Session<C>,
    button: MouseButton,
    state: InputState,
    hover: Option<crate::view::ViewId>,
    at: Point2<i32>,
    r: MouseOutcome,
) -> bool {
    if button != MouseButton::Left {
        after == before && r == MouseOutcome::Done
    } else {
        let b1 = Session { mouse_state: state, ..before };
        match (before.tool, state) {
            (Tool::Pan(PanState::Panning), InputState::Released) => r == MouseOutcome::Done && after == (Session {
                tool: Tool::Pan(PanState::NotPanning),
                ..b1
            }),
            (Tool::Pan(PanState::NotPanning), InputState::Pressed) => r == MouseOutcome::Done && after == (Session {
                tool: Tool::Pan(PanState::Panning),
                ..b1
            }),
            _ => match state {
                InputState::Pressed => pressed(b1, after, hover, at, r),
                InputState::Released => r == MouseOutcome::Done && released(b1, after),
                InputState::Repeated => r == MouseOutcome::Done && after == b1,
            },
        }
    }
}

/// The inputs on which handling the mouse button stays within what the
/// session holds: the view hovered exists; drawing starts at a point the
/// brush takes, on an active view; a stroke ends on an active view.
pub open spec fn mouse_input_allowed<C: Completer>(
    s: Session<C>,
    hover: Option<crate::view::ViewId>,
    at: Point2<i32>,
) -> bool {
    &&& hover matches Some(id) ==> view_ids(s.views.all()).contains(id)
    &&& hover == Some(s.views.current()) ==> active_of(s) is Some
    &&& in_bounds(at)
    &&& (s.tool matches Tool::Brush(b) && (b@.state is Drawing || b@.state is DrawStarted)) ==> active_of(s) is Some
}

impl<C: Completer> Session<C> {
    /// Touch the active view: it is modified.
    fn touch_active_view(&mut self)
        requires
            old(self).wf(),
            active_of(*old(self)) is Some,
        ensures
            final(self).wf(),
            ({
                let v = active_of(*old(self))->Some_0;
                let i = find_from(old(self).views.all(), old(self).views.current(), 0)->Some_0;
                &&& *final(self) == (Session { views: final(self).views, ..*old(self) })
                &&& final(self).views.all() == old(self).views.all().update(
                    i,
                    View { file_status: touched_status(v.file_status), state: ViewState::Dirty, ..v },
                )
                &&& final(self).views.recent() == old(self).views.recent()
                &&& final(self).views.current() == old(self).views.current()
                &&& final(self).views.next() == old(self).views.next()
            }),
    {
        let ghost before = *self;
        let id = self.views.current_id();
        match self.views.get_mut(id) {
            Some(v) => {
                v.touch();
            },
            None => {},
        }
        proof {
            let i = find_from(before.views.all(), before.views.current(), 0)->Some_0;
            crate::view::lemma_find_unique(before.views.all(), before.views.current(), i);
            crate::view::lemma_update_keeps_wf(before.views, self.views, i, self.views.all()[i]);
        }
    }

    /// Handle the mouse button `button` going to `state`, with the cursor
    /// over the view `hover`, if any, at the pixel `at` of the active view.
    pub fn handle_mouse_input(
        &mut self,
        button: MouseButton,
        state: InputState,
        hover: Option<crate::view::ViewId>,
        at: Point2<i32>,
    ) -> (r: MouseOutcome)
        requires
            old(self).wf(),
            mouse_input_allowed(*old(self), hover, at),
        ensures
            final(self).wf(),
            mouse_input_done(*old(self), *final(self), button, state, hover, at, r),
    {
        match button {
            MouseButton::Left => {},
            _ => {
                return MouseOutcome::Done;
            },
        }
        self.mouse_state = state;
        match (&self.tool, state) {
            (Tool::Pan(PanState::Panning), InputState::Released) => {
                self.tool = Tool::Pan(PanState::NotPanning);
                return MouseOutcome::Done;
            },
            (Tool::Pan(PanState::NotPanning), InputState::Pressed) => {
                self.tool = Tool::Pan(PanState::Panning);
                return MouseOutcome::Done;
            },
            _ => {},
        }
        match state {
            InputState::Pressed => self.mouse_pressed(hover, at),
            InputState::Released => {
                self.mouse_released();
                MouseOutcome::Done
            },
            InputState::Repeated => MouseOutcome::Done,
        }
    }

    fn mouse_released(&mut self)
        requires
            old(self).wf(),
            (old(self).tool matches Tool::Brush(b) && (b@.state is Drawing || b@.state is DrawStarted)) ==> active_of(
                *old(self),
            ) is Some,
        ensures
            final(self).wf(),
            released(*old(self), *final(self)),
    {
        match self.mode {
            Mode::Visual(VisualState::Selecting { .. }) => {
                self.mode = Mode::Visual(VisualState::Selecting { dragging: false });
            },
            Mode::Normal => {
                let drawing = match &self.tool {
                    Tool::Brush(b) => b.is_drawing_now(),
                    _ => false,
                };
                if drawing {
                    let mut t = Tool::Sampler;
                    std::mem::swap(&mut t, &mut self.tool);
                    match t {
                        Tool::Brush(b) => {
                            let mut b = b;
                            b.stop_drawing();
                            self.tool = Tool::Brush(b);
                        },
                        other => {
                            self.tool = other;
                        },
                    }
                    self.touch_active_view();
                }
            },
            _ => {},
        }
    }

    fn mouse_pressed(&mut self, hover: Option<crate::view::ViewId>, at: Point2<i32>) -> (r: MouseOutcome)
        requires
            old(self).wf(),
            mouse_input_allowed(*old(self), hover, at),
        ensures
            final(self).wf(),
            pressed(*old(self), *final(self), hover, at, r),
    {
        match self.palette.hover {
            Some(c) => {
                if self.mode == Mode::Command {
                    let text = rgb_string(c);
                    self.cmdline.puts(text.as_str());
                } else {
                    self.pick_color(c);
                }
                return MouseOutcome::Done;
            },
            None => {},
        }
        match hover {
            Some(id) => {
                if self.mode == Mode::Command {
                    let m = match self.prev_mode {
                        Some(m) => m,
                        None => Mode::Normal,
                    };
                    self.switch_mode(m);
                    return MouseOutcome::Done;
                }
                if id.0 == self.views.current_id().0 {
                    self.press_on_active_view(at)
                } else {
                    self.views.activate(id);
                    MouseOutcome::CenterSelection
                }
            },
            None => {
                match self.mode {
                    Mode::Visual(VisualState::Selecting { .. }) => {
                        self.selection = None;
                        self.mode = Mode::Visual(VisualState::Selecting { dragging: false });
                    },
                    _ => {},
                }
                MouseOutcome::Done
            },
        }
    }

    fn press_on_active_view(&mut self, at: Point2<i32>) -> (r: MouseOutcome)
        requires
            old(self).wf(),
            old(self).palette.hover is None,
            old(self).mode != Mode::Command,
            active_of(*old(self)) is Some,
            in_bounds(at),
        ensures
            final(self).wf(),
            pressed(*old(self), *final(self), Some(old(self).views.current()), at, r),
    {
        let extent = match self.views.active() {
            Some(v) => v.extent(),
            None => ViewExtent { fw: 0, fh: 0, nframes: 0 },
        };
        match self.mode {
            Mode::Normal => {
                let mut t = Tool::Sampler;
                std::mem::swap(&mut t, &mut self.tool);
                match t {
                    Tool::Brush(b) => {
                        let mut b = b;
                        let color = if b.is_set(BrushMode::Erase) {
                            Rgba8::transparent()
                        } else {
                            self.fg
                        };
                        b.start_drawing(at, color, extent);
                        self.tool = Tool::Brush(b);
                        MouseOutcome::Done
                    },
                    Tool::Sampler => {
                        self.tool = Tool::Sampler;
                        MouseOutcome::SampleColor
                    },
                    other => {
                        self.tool = other;
                        MouseOutcome::Done
                    },
                }
            },
            Mode::Visual(VisualState::Selecting { .. }) => {
                let holds = match self.selection {
                    Some(s) => {
                        let r = s.0;
                        let (lx, hx) = if r.x1 <= r.x2 { (r.x1, r.x2) } else { (r.x2, r.x1) };
                        let (ly, hy) = if r.y1 <= r.y2 { (r.y1, r.y2) } else { (r.y2, r.y1) };
                        lx <= at.x && at.x <= hx && ly <= at.y && at.y <= hy
                    },
                    None => false,
                };
                if holds {
                    self.mode = Mode::Visual(VisualState::Selecting { dragging: true });
                } else {
                    self.selection = Some(Selection(Rect { x1: at.x, y1: at.y, x2: at.x, y2: at.y }));
                }
                MouseOutcome::Done
            },
            Mode::Visual(VisualState::Pasting) => MouseOutcome::Paste,
            _ => MouseOutcome::Done,
        }
    }
}

} // verus!
