use vstd::prelude::*;

verus! {

/// An axis-aligned rectangle given by two corners.
#[derive(Clone, Copy, Debug, PartialEq, Eq, Structural)]
pub struct Rect<T> {
    pub x1: T,
    pub y1: T,
    pub x2: T,
    pub y2: T,
}

impl<T> Rect<T> {
    pub fn new(x1: T, y1: T, x2: T, y2: T) -> (r: Self)
        ensures
            r == (Rect { x1, y1, x2, y2 }),
    {
        Rect { x1, y1, x2, y2 }
    }
}

impl Rect<i32> {
    pub fn width(&self) -> (w: i32)
        requires
            i32::MIN <= self.x2 - self.x1 <= i32::MAX,
        ensures
            w == self.x2 - self.x1,
    {
        self.x2 - self.x1
    }

    pub fn height(&self) -> (h: i32)
        requires
            i32::MIN <= self.y2 - self.y1 <= i32::MAX,
        ensures
            h == self.y2 - self.y1,
    {
        self.y2 - self.y1
    }
}

} // verus!
