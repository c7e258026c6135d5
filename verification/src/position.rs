use crate::size::Size;
use vstd::prelude::*;

verus! {

/// A signed `(x, y)` pixel position: a placement that may lie off the top or
/// left edge of the destination. It is the input of clipping only.
#[derive(Copy, Clone, Debug)]
pub struct PositionI {
    pub x: isize,
    pub y: isize,
}

/// An unsigned `(x, y)` pixel position.
#[derive(Copy, Clone, Debug)]
pub struct PositionU {
    pub x: usize,
    pub y: usize,
}

impl PositionU {
    /// Whether this position names a pixel of an image of the given size.
    pub open spec fn inside(&self, size: Size) -> bool {
        self.x < size.w && self.y < size.h
    }

    /// Returns true if this position lies within `size`.
    pub fn is_inside(&self, size: &Size) -> (inside: bool)
        ensures
            inside == self.inside(*size),
    {
        self.x < size.w && self.y < size.h
    }
}

impl Default for PositionU {
    fn default() -> (position: Self)
        ensures
            position.x == 0,
            position.y == 0,
    {
        PositionU { x: 0, y: 0 }
    }
}

} // verus!
