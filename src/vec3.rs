//! Integer 3-vectors and their mathematical model.
use vstd::prelude::*;

verus! {

/// A point of the integer lattice, as the model of a `Vec3`.
pub struct Point {
    pub x: int,
    pub y: int,
    pub z: int,
}

impl Point {
    pub open spec fn zero() -> Point {
        Point { x: 0, y: 0, z: 0 }
    }

    /// The coordinate along axis `a` (0, 1 or 2).
    pub open spec fn axis(self, a: int) -> int {
        if a == 0 {
            self.x
        } else if a == 1 {
            self.y
        } else {
            self.z
        }
    }

    pub open spec fn plus(self, o: Point) -> Point {
        Point { x: self.x + o.x, y: self.y + o.y, z: self.z + o.z }
    }

    /// Sum of the absolute values of the coordinates.
    pub open spec fn norm1(self) -> int {
        abs(self.x) + abs(self.y) + abs(self.z)
    }
}

pub open spec fn abs(v: int) -> int {
    if v < 0 {
        -v
    } else {
        v
    }
}

/// The sign of `d`: -1, 0 or 1.
pub open spec fn sign(d: int) -> int {
    if d > 0 {
        1
    } else if d < 0 {
        -1
    } else {
        0
    }
}

/// An integer vector with three signed 64-bit components.
#[derive(Clone, Copy, Debug, PartialEq, Eq, Structural)]
pub struct Vec3 {
    pub x: i64,
    pub y: i64,
    pub z: i64,
}

/// Where a body is.
pub type Position = Vec3;

/// How far a body moves in one step.
pub type Velocity = Vec3;

impl View for Vec3 {
    type V = Point;

    open spec fn view(&self) -> Point {
        Point { x: self.x as int, y: self.y as int, z: self.z as int }
    }
}

impl Vec3 {
    /// The zero vector.
    pub fn new() -> (r: Vec3)
        ensures
            r@ == Point::zero(),
    {
        Vec3 { x: 0, y: 0, z: 0 }
    }

    /// Component-wise `self += other`.
    pub fn add_assign(&mut self, other: Vec3)
        requires
            i64::MIN <= old(self).x + other.x <= i64::MAX,
            i64::MIN <= old(self).y + other.y <= i64::MAX,
            i64::MIN <= old(self).z + other.z <= i64::MAX,
        ensures
            final(self)@ == old(self)@.plus(other@),
    {
        self.x = self.x + other.x;
        self.y = self.y + other.y;
        self.z = self.z + other.z;
    }
}

/// The sign of `a - b`, computed without forming the difference.
pub fn sign_of_difference(a: i64, b: i64) -> (r: i64)
    ensures
        r == sign(a - b),
{
    if a > b {
        1
    } else if a < b {
        -1
    } else {
        0
    }
}

} // verus!
