//! A 2D integer coordinate, used to address board cells and to step along
//! the four line directions (`point.translate(direction.scale(distance))`).

use vstd::prelude::*;

verus! {

/// An integer pair; an immutable value copied by value.
#[derive(Clone, Copy, PartialEq, Eq, Structural, Debug, Hash)]
pub struct Point {
    pub x: isize,
    pub y: isize,
}

impl Point {
    pub fn new(x: isize, y: isize) -> (p: Point)
        ensures
            p.x == x,
            p.y == y,
    {
        Point { x, y }
    }

    /// Component-wise vector addition.
    pub fn translate(self, rhs: Point) -> (p: Point)
        requires
            isize::MIN <= self.x + rhs.x <= isize::MAX,
            isize::MIN <= self.y + rhs.y <= isize::MAX,
        ensures
            p.x == self.x + rhs.x,
            p.y == self.y + rhs.y,
    {
        Point { x: self.x + rhs.x, y: self.y + rhs.y }
    }

    /// Scalar multiplication of both components.
    pub fn scale(self, rhs: isize) -> (p: Point)
        requires
            isize::MIN <= self.x * rhs <= isize::MAX,
            isize::MIN <= self.y * rhs <= isize::MAX,
        ensures
            p.x == self.x * rhs,
            p.y == self.y * rhs,
    {
        Point { x: self.x * rhs, y: self.y * rhs }
    }
}

impl From<(isize, isize)> for Point {
    fn from(pair: (isize, isize)) -> (p: Point) {
        Point { x: pair.0, y: pair.1 }
    }
}

impl vstd::std_specs::convert::FromSpecImpl<(isize, isize)> for Point {
    open spec fn obeys_from_spec() -> bool {
        true
    }

    open spec fn from_spec(pair: (isize, isize)) -> Point {
        Point { x: pair.0, y: pair.1 }
    }
}

} // verus!
