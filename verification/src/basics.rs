//! Small standalone values: a point with a squared distance, and a tripler.
use vstd::prelude::*;

verus! {

/// A point on the integer plane.
pub struct Point {
    pub x: i32,
    pub y: i32,
}

impl Point {
    /// The squared distance of the point from the origin.
    pub fn dist(self) -> (r: i32)
        requires
            self.x * self.x + self.y * self.y <= i32::MAX,
        ensures
            r == self.x * self.x + self.y * self.y,
    {
        proof {
            assert(self.x * self.x >= 0 && self.y * self.y >= 0) by (nonlinear_arith);
        }
        self.x * self.x + self.y * self.y
    }
}

/// Three times `i`.
pub fn foo_bar(i: i32) -> (r: i32)
    requires
        i32::MIN <= 3 * i <= i32::MAX,
    ensures
        r == 3 * i,
{
    3 * i
}

} // verus!
