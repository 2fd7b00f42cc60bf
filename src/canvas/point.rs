//! Points of two and three dimensions.

use vstd::prelude::*;

verus! {

/// A point with coordinates of type `T`.
pub trait Point<T> {
    spec fn spec_x(&self) -> T;

    spec fn spec_y(&self) -> T;

    spec fn spec_z(&self) -> T;

    /// The first coordinate.
    fn x(&self) -> (r: T)
        ensures
            r == self.spec_x(),
    ;

    /// The second coordinate.
    fn y(&self) -> (r: T)
        ensures
            r == self.spec_y(),
    ;

    /// The third coordinate, 0 for a point of the plane.
    fn z(&self) -> (r: T)
        ensures
            r == self.spec_z(),
    ;
}

/// A point of the plane, `(x, y)`.
pub struct Point2(pub u32, pub u32);

/// A point of space, `(x, y, z)`.
pub struct Point3(pub u32, pub u32, pub u32);

impl Point<u32> for Point2 {
    open spec fn spec_x(&self) -> u32 {
        self.0
    }

    open spec fn spec_y(&self) -> u32 {
        self.1
    }

    open spec fn spec_z(&self) -> u32 {
        0
    }

    fn x(&self) -> (r: u32) {
        self.0
    }

    fn y(&self) -> (r: u32) {
        self.1
    }

    fn z(&self) -> (r: u32) {
        0
    }
}

impl Point<u32> for Point3 {
    open spec fn spec_x(&self) -> u32 {
        self.0
    }

    open spec fn spec_y(&self) -> u32 {
        self.1
    }

    open spec fn spec_z(&self) -> u32 {
        self.2
    }

    fn x(&self) -> (r: u32) {
        self.0
    }

    fn y(&self) -> (r: u32) {
        self.1
    }

    fn z(&self) -> (r: u32) {
        self.2
    }
}

} // verus!
