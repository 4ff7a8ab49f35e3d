use vstd::prelude::*;

verus! {

/// Horizontal alignment of text.
#[derive(Clone, Copy, Debug, PartialEq, Eq, Structural)]
pub enum TextAlign {
    Left,
    Right,
}

} // verus!
