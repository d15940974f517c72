//! Axis-aligned boxes of lattice points.
use crate::point::Point3;
use vstd::prelude::*;

verus! {

/// (big one, small one)
#[derive(Debug, Clone, Copy, PartialEq, Eq)]
pub struct AABB(Point3, Point3);

/// The distance between two coordinates.
pub open spec fn span(a: int, b: int) -> nat {
    if a >= b {
        (a - b) as nat
    } else {
        (b - a) as nat
    }
}

fn larger(a: i32, b: i32) -> (m: i32)
    ensures
        m == (if a >= b {
            a
        } else {
            b
        }),
{
    if a >= b {
        a
    } else {
        b
    }
}

fn smaller(a: i32, b: i32) -> (m: i32)
    ensures
        m == (if a <= b {
            a
        } else {
            b
        }),
{
    if a <= b {
        a
    } else {
        b
    }
}

fn distance(a: i32, b: i32) -> (d: u128)
    ensures
        d == span(a as int, b as int),
        d < 0x1_0000_0000,
{
    if a >= b {
        (a as i64 - b as i64) as u128
    } else {
        (b as i64 - a as i64) as u128
    }
}

impl AABB {
    /// The corner with the largest coordinates.
    pub closed spec fn big(&self) -> Point3 {
        self.0
    }

    /// The corner with the smallest coordinates.
    pub closed spec fn small(&self) -> Point3 {
        self.1
    }

    /// The product of the three edges.
    pub open spec fn volume(&self) -> nat {
        span(self.big().x as int, self.small().x as int) * span(
            self.big().y as int,
            self.small().y as int,
        ) * span(self.big().z as int, self.small().z as int)
    }

    /// The box between two coordinates on each axis, given in either order.
    pub fn new(ax: i32, bx: i32, ay: i32, by: i32, az: i32, bz: i32) -> (aabb: Self)
        ensures
            aabb.big() == (Point3 {
                x: if ax >= bx { ax } else { bx },
                y: if ay >= by { ay } else { by },
                z: if az >= bz { az } else { bz },
            }),
            aabb.small() == (Point3 {
                x: if ax <= bx { ax } else { bx },
                y: if ay <= by { ay } else { by },
                z: if az <= bz { az } else { bz },
            }),
    {
        Self(
            Point3 { x: larger(ax, bx), y: larger(ay, by), z: larger(az, bz) },
            Point3 { x: smaller(ax, bx), y: smaller(ay, by), z: smaller(az, bz) },
        )
    }

    pub fn size(&self) -> (size: usize)
        requires
            self.volume() <= usize::MAX,
        ensures
            size == self.volume(),
    {
        let dx = distance(self.0.x, self.1.x);
        let dy = distance(self.0.y, self.1.y);
        let dz = distance(self.0.z, self.1.z);
        assert(dx * dy < 0x1_0000_0000_0000_0000) by (nonlinear_arith)
            requires
                dx < 0x1_0000_0000,
                dy < 0x1_0000_0000,
        ;
        let face = dx * dy;
        assert(face * dz < 0x1_0000_0000_0000_0000_0000_0000) by (nonlinear_arith)
            requires
                face < 0x1_0000_0000_0000_0000,
                dz < 0x1_0000_0000,
        ;
        (face * dz) as usize
    }
}

impl Default for AABB {
    fn default() -> (aabb: Self)
        ensures
            aabb.big() == (Point3 { x: 0, y: 0, z: 0 }),
            aabb.small() == (Point3 { x: 0, y: 0, z: 0 }),
    {
        Self(Point3 { x: 0, y: 0, z: 0 }, Point3 { x: 0, y: 0, z: 0 })
    }
}

} // verus!
