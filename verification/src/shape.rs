use crate::brush::{in_bounds, is_line, line};
use crate::color::Rgba8;
use crate::gfx::Point2;
use crate::view::ViewExtent;
use vstd::prelude::*;

verus! {

/// Input state of the line tool.
#[derive(Clone, Copy, Debug, PartialEq, Eq, Structural)]
pub enum LineState {
    /// Not currently drawing.
    NotDrawing,
    /// Drawing has just started.
    DrawStarted(ViewExtent),
    /// Drawing.
    Drawing(ViewExtent),
    /// Drawing has just ended.
    DrawEnded(ViewExtent),
}

/// A tool that draws straight lines.
#[derive(Clone, Copy, Debug, PartialEq, Eq, Structural)]
pub struct LineTool {
    pub state: LineState,
    pub start_point: Point2<i32>,
    pub end_point: Point2<i32>,
    pub color: Rgba8,
}

impl LineTool {
    pub open spec fn wf(&self) -> bool {
        in_bounds(self.start_point) && in_bounds(self.end_point)
    }

    /// A white line tool that is not drawing.
    pub fn default() -> (t: Self)
        ensures
            t.wf(),
            t.state == LineState::NotDrawing,
            t.start_point == (Point2 { x: 0i32, y: 0i32 }),
            t.end_point == (Point2 { x: 0i32, y: 0i32 }),
            t.color == (Rgba8 { r: 255, g: 255, b: 255, a: 255 }),
    {
        LineTool {
            state: LineState::NotDrawing,
            start_point: Point2::new(0, 0),
            end_point: Point2::new(0, 0),
            color: Rgba8::white(),
        }
    }

    /// Start a line at `p`.
    pub fn start_drawing(&mut self, p: Point2<i32>, color: Rgba8, extent: ViewExtent)
        requires
            in_bounds(p),
        ensures
            final(self).wf(),
            *final(self) == (LineTool {
                state: LineState::Drawing(extent),
                start_point: p,
                end_point: p,
                color,
            }),
    {
        self.state = LineState::DrawStarted(extent);
        self.color = color;
        self.start_point = p;
        self.end_point = p;
        self.draw(p);
    }

    /// Run every frame: a line that has ended is forgotten.
    pub fn update(&mut self)
        ensures
            old(self).state is DrawEnded ==> *final(self) == (LineTool { state: LineState::NotDrawing, ..*old(self) }),
            !(old(self).state is DrawEnded) ==> *final(self) == *old(self),
    {
        if let LineState::DrawEnded(_) = self.state {
            self.state = LineState::NotDrawing;
        }
    }

    /// Move the end of the line.
    pub fn draw(&mut self, p: Point2<i32>)
        requires
            old(self).state is DrawStarted || old(self).state is Drawing,
        ensures
            *final(self) == (LineTool {
                end_point: p,
                state: match old(self).state {
                    LineState::DrawStarted(e) => LineState::Drawing(e),
                    s => s,
                },
                ..*old(self)
            }),
    {
        self.end_point = p;
        match self.state {
            LineState::DrawStarted(extent) => {
                self.state = LineState::Drawing(extent);
            },
            _ => {},
        }
    }

    /// Finish the line.
    pub fn stop_drawing(&mut self)
        requires
            old(self).state is DrawStarted || old(self).state is Drawing,
        ensures
            *final(self) == (LineTool {
                state: match old(self).state {
                    LineState::DrawStarted(e) => LineState::DrawEnded(e),
                    LineState::Drawing(e) => LineState::DrawEnded(e),
                    s => s,
                },
                ..*old(self)
            }),
    {
        match self.state {
            LineState::DrawStarted(ex) | LineState::Drawing(ex) => {
                self.state = LineState::DrawEnded(ex);
            },
            _ => {},
        }
    }

    /// The pixels of the line being drawn, if any.
    pub fn output(&self) -> (pixels: Vec<Point2<i32>>)
        requires
            self.wf(),
        ensures
            self.state is NotDrawing ==> pixels@.len() == 0,
            !(self.state is NotDrawing) ==> is_line(pixels@, self.start_point, self.end_point),
    {
        let mut pixels: Vec<Point2<i32>> = Vec::new();
        match self.state {
            LineState::NotDrawing => {},
            _ => {
                line(self.start_point, self.end_point, &mut pixels);
                assert(pixels@.subrange(0, pixels@.len() as int) =~= pixels@);
            },
        }
        pixels
    }
}

} // verus!
