use crate::gfx::Point2;
use crate::rect::Rect;
use vstd::prelude::*;

verus! {

/// The frames a layer spans.
#[derive(Clone, Copy, Debug, PartialEq, Eq, Structural)]
pub enum FrameRange {
    Full,
    /// The frames from `start` up to, not including, `end`.
    Partial { start: usize, end: usize },
}

impl Default for FrameRange {
    /// All frames.
    fn default() -> (r: Self)
        ensures
            r == FrameRange::Full,
    {
        FrameRange::Full
    }
}

/// Layer identifier.
pub type LayerId = usize;

/// A layer of a view.
#[derive(Clone, Copy, Debug, PartialEq, Eq, Structural)]
pub struct Layer {
    /// Frame range.
    pub frames: FrameRange,
    /// Visibility.
    pub is_visible: bool,
    /// Sort order.
    pub index: usize,
}

impl Layer {
    /// A visible layer.
    pub fn new(frames: FrameRange, index: usize) -> (l: Self)
        ensures
            l.frames == frames,
            l.is_visible,
            l.index == index,
    {
        Self { frames, is_visible: true, index }
    }
}

impl Default for Layer {
    /// A hidden layer spanning all frames, first in order.
    fn default() -> (l: Self)
        ensures
            l.frames == FrameRange::Full,
            !l.is_visible,
            l.index == 0,
    {
        Layer { frames: FrameRange::Full, is_visible: false, index: 0 }
    }
}

/// Coordinates relative to a layer.
#[derive(Clone, Copy, Debug, PartialEq, Eq, Structural)]
pub struct LayerCoords<T>(pub Point2<T>);

impl<T> LayerCoords<T> {
    pub fn new(x: T, y: T) -> (p: Self)
        ensures
            p == LayerCoords(Point2 { x, y }),
    {
        LayerCoords(Point2 { x, y })
    }
}

impl LayerCoords<i32> {
    /// Clamp the coordinates to a rectangle.
    pub fn clamp(&mut self, rect: Rect<i32>)
        ensures
            final(self).0.x == crate::util::clamp_int(old(self).0.x as int, rect.x1 as int, rect.x2 as int),
            final(self).0.y == crate::util::clamp_int(old(self).0.y as int, rect.y1 as int, rect.y2 as int),
    {
        crate::util::clamp(&mut self.0, rect);
    }
}

} // verus!
