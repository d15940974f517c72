//! Lattice points, and the octant of one point as seen from another.
use vstd::prelude::*;

verus! {

/// A point of the three-dimensional integer lattice.
#[derive(Debug, Clone, Copy, PartialEq, Eq, Hash, Structural)]
pub struct Point3 {
    pub x: i32,
    pub y: i32,
    pub z: i32,
}

impl Point3 {
    pub fn new(x: i32, y: i32, z: i32) -> (p: Self)
        ensures
            p == (Point3 { x, y, z }),
    {
        Point3 { x, y, z }
    }
}

/// The octant of `s` as seen from `o`, as a number below eight: one bit for
/// each axis, set where `s` is not below `o` on that axis. A tie on an axis
/// counts as the high side.
pub open spec fn octant(s: Point3, o: Point3) -> nat {
    (if s.x >= o.x { 1nat } else { 0nat })
        + (if s.y >= o.y { 2nat } else { 0nat })
        + (if s.z >= o.z { 4nat } else { 0nat })
}

/// Whether the octant number `oct` lies on the high side of the x axis.
pub open spec fn high_x(oct: nat) -> bool {
    oct % 2 != 0
}

/// Whether the octant number `oct` lies on the high side of the y axis.
pub open spec fn high_y(oct: nat) -> bool {
    oct % 4 / 2 != 0
}

/// Whether the octant number `oct` lies on the high side of the z axis.
pub open spec fn high_z(oct: nat) -> bool {
    oct / 4 != 0
}

/// left handed position
/// - self at front of the other
///     - +1
/// - self at right of the other
///     - +2
/// - self at above of the other
///     - +4
pub fn toward(s: Point3, o: Point3) -> (ans: usize)
    ensures
        ans == octant(s, o),
        ans < 8,
        high_x(ans as nat) <==> s.x >= o.x,
        high_y(ans as nat) <==> s.y >= o.y,
        high_z(ans as nat) <==> s.z >= o.z,
{
    let mut ans: usize = 0;
    if s.x >= o.x {
        ans += 1;
    }
    if s.y >= o.y {
        ans += 2;
    }
    if s.z >= o.z {
        ans += 4;
    }
    ans
}

/// The octant number decodes to the three comparisons it was built from.
pub proof fn lemma_octant_bits(s: Point3, o: Point3)
    ensures
        octant(s, o) < 8,
        high_x(octant(s, o)) <==> s.x >= o.x,
        high_y(octant(s, o)) <==> s.y >= o.y,
        high_z(octant(s, o)) <==> s.z >= o.z,
{
}

} // verus!
