use crate::rect::Rect;
use std::marker::PhantomData;
use vstd::prelude::*;

verus! {

/// A 2D point.
#[derive(Clone, Copy, Debug, PartialEq, Eq, Structural)]
pub struct Point2<T> {
    pub x: T,
    pub y: T,
}

impl<T> Point2<T> {
    pub fn new(x: T, y: T) -> (p: Self)
        ensures
            p == (Point2 { x, y }),
    {
        Point2 { x, y }
    }
}

/// 2D point with type witness.
pub struct Point<S, T> {
    pub point: Point2<T>,
    /// Type witness.
    witness: PhantomData<S>,
}

impl<S, T> Point<S, T> {
    pub closed spec fn coords(&self) -> Point2<T> {
        self.point
    }

    pub fn new(x: T, y: T) -> (p: Self)
        ensures
            p.coords() == (Point2 { x, y }),
    {
        Self { point: Point2 { x, y }, witness: PhantomData }
    }
}

impl<S> Point<S, i32> {
    /// Clamp the point to a rectangle.
    pub fn clamp(&mut self, rect: Rect<i32>)
        ensures
            final(self).coords().x == crate::util::clamp_int(
                old(self).coords().x as int,
                rect.x1 as int,
                rect.x2 as int,
            ),
            final(self).coords().y == crate::util::clamp_int(
                old(self).coords().y as int,
                rect.y1 as int,
                rect.y2 as int,
            ),
    {
        crate::util::clamp(&mut self.point, rect);
    }
}

} // verus!
