//! Points and rays on the integer grid.
use vstd::prelude::*;

verus! {

/// A point, or a direction, with one integer coordinate per axis.
#[derive(Clone, Copy, Debug, PartialEq, Eq, Structural)]
pub struct Point3 {
    pub x: i32,
    pub y: i32,
    pub z: i32,
}

impl Point3 {
    /// The coordinate on `axis`; axes past the second read the third.
    pub open spec fn coord(self, axis: int) -> int {
        if axis == 0 {
            self.x as int
        } else if axis == 1 {
            self.y as int
        } else {
            self.z as int
        }
    }

    /// The point with its coordinate on `axis` replaced by `v`.
    pub open spec fn with_coord(self, axis: int, v: i32) -> Point3 {
        if axis == 0 {
            Point3 { x: v, y: self.y, z: self.z }
        } else if axis == 1 {
            Point3 { x: self.x, y: v, z: self.z }
        } else {
            Point3 { x: self.x, y: self.y, z: v }
        }
    }

    pub fn new(x: i32, y: i32, z: i32) -> (p: Point3)
        ensures
            p == (Point3 { x, y, z }),
    {
        Point3 { x, y, z }
    }

    /// The point with its coordinate on `axis` replaced by `v`.
    pub fn with(&self, axis: usize, v: i32) -> (p: Point3)
        ensures
            p == self.with_coord(axis as int, v),
    {
        if axis == 0 {
            Point3 { x: v, y: self.y, z: self.z }
        } else if axis == 1 {
            Point3 { x: self.x, y: v, z: self.z }
        } else {
            Point3 { x: self.x, y: self.y, z: v }
        }
    }

    /// Reads the coordinate on `axis`.
    pub fn get(&self, axis: usize) -> (c: i32)
        ensures
            c == self.coord(axis as int),
    {
        if axis == 0 {
            self.x
        } else if axis == 1 {
            self.y
        } else {
            self.z
        }
    }
}

/// A ray: where it starts and the direction it travels in.
#[derive(Clone, Copy, Debug, PartialEq, Eq, Structural)]
pub struct Ray {
    pub origin: Point3,
    pub direction: Point3,
}

impl Ray {
    pub fn new(origin: Point3, direction: Point3) -> (r: Ray)
        ensures
            r == (Ray { origin, direction }),
    {
        Ray { origin, direction }
    }
}

} // verus!
