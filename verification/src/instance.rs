//! The value that the tree stores: a position and a style tag.
use crate::point::octant;
use crate::point::toward;
use crate::point::Point3;
use vstd::prelude::*;

verus! {

/// What is placed at a lattice point: the point and a style tag.
#[derive(Debug, PartialEq, Eq)]
pub struct Instance {
    position: Point3,
    style_id: String,
}

/// The mathematical value of an [`Instance`].
pub ghost struct InstanceView {
    pub position: Point3,
    pub style_id: Seq<char>,
}

impl View for Instance {
    type V = InstanceView;

    closed spec fn view(&self) -> InstanceView {
        InstanceView { position: self.position, style_id: self.style_id@ }
    }
}

impl Instance {
    pub fn new(position: Point3, style_id: String) -> (v: Self)
        ensures
            v@ == (InstanceView { position, style_id: style_id@ }),
    {
        Self { position, style_id }
    }

    /// The lattice point at which the instance stands.
    pub fn pos(&self) -> (p: Point3)
        ensures
            p == self@.position,
    {
        self.position
    }

    /// The tag of the style in which the instance is drawn.
    pub fn style_id(&self) -> (s: &String)
        ensures
            s@ == self@.style_id,
    {
        &self.style_id
    }

    /// left handed position
    /// - self at front of the other
    ///     - +1
    /// - self at right of the other
    ///     - +2
    /// - self at above of the other
    ///     - +4
    pub fn toward(&self, other: Point3) -> (ans: usize)
        ensures
            ans == octant(self@.position, other),
            ans < 8,
    {
        toward(self.pos(), other)
    }
}

/// The values of the instances of a sequence, in order.
pub open spec fn views(items: Seq<Instance>) -> Seq<InstanceView> {
    items.map_values(|v: Instance| v@)
}

/// No two of the instances share a position.
pub open spec fn distinct_positions(vs: Seq<InstanceView>) -> bool {
    forall|i: int, j: int| 0 <= i < j < vs.len() ==> vs[i].position != vs[j].position
}

impl Default for Instance {
    fn default() -> (v: Self)
        ensures
            v@ == (InstanceView { position: Point3 { x: 0, y: 0, z: 0 }, style_id: Seq::empty() }),
    {
        Self { position: Point3 { x: 0, y: 0, z: 0 }, style_id: String::new() }
    }
}

impl Clone for Instance {
    fn clone(&self) -> (v: Self)
        ensures
            v@ == self@,
    {
        Self { position: self.position, style_id: self.style_id.clone() }
    }
}

} // verus!
