//! Two-dimensional extent of a board: a width and a height.

use vstd::prelude::*;

verus! {

/// A pair of dimensions with saturating and checked arithmetic.
#[derive(Debug, Copy, Clone, PartialEq, Eq, Structural)]
pub struct Size {
    pub width: usize,
    pub height: usize,
}

impl Size {
    /// Creates a new [`Size`] containing the given width and height.
    pub fn new(x: usize, y: usize) -> (s: Self)
        ensures
            s.width == x,
            s.height == y,
    {
        Self { width: x, height: y }
    }

    /// Saturating [`Size`] subtraction: computes `self - rhs` component-wise,
    /// stopping at zero instead of overflowing.
    pub fn saturating_sub(&self, rhs: Size) -> (r: Self)
        ensures
            r.width == if self.width >= rhs.width { self.width - rhs.width } else { 0 },
            r.height == if self.height >= rhs.height { self.height - rhs.height } else { 0 },
    {
        Self {
            width: self.width.saturating_sub(rhs.width),
            height: self.height.saturating_sub(rhs.height),
        }
    }

    /// Checked [`Size`] subtraction: computes `self - rhs` component-wise,
    /// returning `None` if either component would underflow.
    pub fn checked_sub(&self, rhs: Size) -> (r: Option<Self>)
        ensures
            r is Some <==> self.width >= rhs.width && self.height >= rhs.height,
            r is Some ==> r->0 == (Size {
                width: (self.width - rhs.width) as usize,
                height: (self.height - rhs.height) as usize,
            }),
    {
        match (self.width.checked_sub(rhs.width), self.height.checked_sub(rhs.height)) {
            (Some(w), Some(h)) => Some(Self { width: w, height: h }),
            _ => None,
        }
    }

    /// Swaps width and height in place.
    pub fn transpone(&mut self)
        ensures
            final(self).width == old(self).height,
            final(self).height == old(self).width,
    {
        let w = self.width;
        self.width = self.height;
        self.height = w;
    }

    /// Returns a new [`Size`] with width and height swapped.
    pub fn inverse(&self) -> (r: Self)
        ensures
            r.width == self.height,
            r.height == self.width,
    {
        Self { width: self.height, height: self.width }
    }
}

impl From<(usize, usize)> for Size {
    fn from(pair: (usize, usize)) -> (s: Self)
        ensures
            s.width == pair.0,
            s.height == pair.1,
    {
        Self { width: pair.0, height: pair.1 }
    }
}

impl vstd::std_specs::convert::FromSpecImpl<(usize, usize)> for Size {
    open spec fn obeys_from_spec() -> bool {
        true
    }

    open spec fn from_spec(pair: (usize, usize)) -> Self {
        Size { width: pair.0, height: pair.1 }
    }
}

impl Default for Size {
    /// The default board extent: three columns by three rows.
    fn default() -> (s: Self)
        ensures
            s.width == 3,
            s.height == 3,
    {
        Self { width: 3, height: 3 }
    }
}

} // verus!
