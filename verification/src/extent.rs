//! Two-dimensional integer vectors, used both as positions and as sizes.

use vstd::prelude::*;

verus! {

/// The mathematical value of an [`Extent`]: a pair of unbounded integers.
pub struct ExtentView {
    pub x: int,
    pub y: int,
}

impl ExtentView {
    /// Component-wise sum.
    pub open spec fn add(self, rhs: ExtentView) -> ExtentView {
        ExtentView { x: self.x + rhs.x, y: self.y + rhs.y }
    }

    /// Component-wise product.
    pub open spec fn scale(self, rhs: ExtentView) -> ExtentView {
        ExtentView { x: self.x * rhs.x, y: self.y * rhs.y }
    }

    /// Neither component is negative.
    pub open spec fn non_negative(self) -> bool {
        0 <= self.x && 0 <= self.y
    }

    /// Both components can be held in an `i32`.
    pub open spec fn representable(self) -> bool {
        &&& i32::MIN <= self.x <= i32::MAX
        &&& i32::MIN <= self.y <= i32::MAX
    }
}

/// A position on the screen or the size of something placed on it.
#[derive(Clone, Copy, Debug, PartialEq, Eq, Structural)]
pub struct Extent {
    pub x: i32,
    pub y: i32,
}

impl View for Extent {
    type V = ExtentView;

    open spec fn view(&self) -> ExtentView {
        ExtentView { x: self.x as int, y: self.y as int }
    }
}

impl Extent {
    pub fn new(x: i32, y: i32) -> (e: Extent)
        ensures
            e.x == x,
            e.y == y,
    {
        Extent { x, y }
    }

    /// Component-wise sum.
    pub fn add(self, rhs: Extent) -> (sum: Extent)
        requires
            self@.add(rhs@).representable(),
        ensures
            sum@ == self@.add(rhs@),
    {
        Extent { x: self.x + rhs.x, y: self.y + rhs.y }
    }

    /// Component-wise product; with a unit vector it projects onto one axis.
    pub fn scale(self, rhs: Extent) -> (product: Extent)
        requires
            self@.scale(rhs@).representable(),
        ensures
            product@ == self@.scale(rhs@),
    {
        Extent { x: self.x * rhs.x, y: self.y * rhs.y }
    }
}

} // verus!
