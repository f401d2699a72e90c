//! A pair of cell coordinates: column `x`, row `y`.

use vstd::prelude::*;

verus! {

/// Coordinates of one cell on the board, column first.
#[derive(Debug, Copy, Clone, PartialEq, Eq, Structural)]
pub struct Vec2 {
    pub x: usize,
    pub y: usize,
}

impl Vec2 {
    /// Creates a new [`Vec2`] holding the given coordinates.
    pub fn new(x: usize, y: usize) -> (v: Self)
        ensures
            v.x == x,
            v.y == y,
    {
        Self { x, y }
    }
}

} // verus!
