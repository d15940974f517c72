//! The counter that scans a cube, and the iterators that look up what it gives.
use crate::instance::Instance;
use crate::instance::InstanceView;
use crate::oc_tree::scan::cube;
use crate::oc_tree::scan::first_present;
use crate::oc_tree::scan::found;
use crate::oc_tree::scan::lemma_found_step;
use crate::oc_tree::scan::plane;
use crate::oc_tree::scan::row;
use crate::oc_tree::scan::scan;
use crate::oc_tree::scan::scan_after;
use crate::oc_tree::scan::scan_start;
use crate::oc_tree::OcTree;
use crate::point::Point3;
use vstd::prelude::*;

verus! {

/// Goes through the instances of a tree that it borrows, in the order of the scan.
#[derive(Debug, Clone, Copy, PartialEq, Eq)]
pub struct RefIter<'a> {
    oc_tree: &'a OcTree,
    counter: AabbCounter,
}

impl<'a> View for RefIter<'a> {
    type V = Seq<InstanceView>;

    /// The instances still to come, in order: what the tree holds at the
    /// points still to come.
    open spec fn view(&self) -> Seq<InstanceView> {
        found(self.source(), self.points())
    }
}

impl<'a> RefIter<'a> {
    /// The tree is well-formed, and the counter stands in its scan.
    pub closed spec fn wf(&self) -> bool {
        self.oc_tree.wf() && self.counter.wf()
    }

    /// What the tree holds that the iterator goes through.
    pub closed spec fn source(&self) -> Map<Point3, InstanceView> {
        self.oc_tree@
    }

    /// The points of the scan that are still to be looked up, in order.
    pub closed spec fn points(&self) -> Seq<Point3> {
        self.counter@
    }

    /// Where the counter stands: on the point looked up last, and before the
    /// first lookup on the point before the first of the scan.
    pub closed spec fn position(&self) -> Point3 {
        self.counter.pos()
    }

    pub fn new(oc_tree: &'a OcTree) -> (iter: Self)
        requires
            oc_tree.wf(),
        ensures
            iter.wf(),
            iter.source() == oc_tree@,
            iter.position() == scan_start(oc_tree.scope() as nat),
            iter.points() == scan(oc_tree.scope() as nat),
            iter@ == oc_tree.state().enumeration(),
    {
        proof {
            oc_tree.lemma_state_wf();
        }
        Self { counter: AabbCounter::new(oc_tree.scope()), oc_tree }
    }

    /// Gives the next instance, and nothing once the scan is through.
    pub fn next(&mut self) -> (ans: Option<Instance>)
        requires
            old(self).wf(),
        ensures
            final(self).wf(),
            final(self).source() == old(self).source(),
            match ans {
                Some(v) => {
                    &&& old(self)@.len() > 0
                    &&& v@ == old(self)@[0]
                    &&& final(self)@ == old(self)@.drop_first()
                    &&& final(self).position() == v@.position
                    &&& final(self).source().contains_key(v@.position)
                    &&& final(self).source()[v@.position] == v@
                    &&& exists|k: int|
                        first_present(old(self).source(), old(self).points(), k) && old(
                            self,
                        ).points()[k] == v@.position && final(self).points() == old(
                            self,
                        ).points().skip(k + 1)
                },
                None => {
                    &&& old(self)@.len() == 0
                    &&& final(self)@.len() == 0
                    &&& final(self).points().len() == 0
                    &&& forall|j: int|
                        0 <= j < old(self).points().len() ==> !old(self).source().contains_key(
                            #[trigger] old(self).points()[j],
                        )
                },
            },
    {
        proof {
            self.oc_tree.lemma_state_wf();
        }
        let ghost gone = Seq::<Point3>::empty();
        assert(old(self).points() =~= gone + self.points());
        loop
            invariant
                self.wf(),
                self.oc_tree == old(self).oc_tree,
                self@ == old(self)@,
                old(self).points() == gone + self.points(),
                forall|j: int|
                    0 <= j < gone.len() ==> !self.oc_tree@.contains_key(#[trigger] gone[j]),
            decreases self.counter@.len(),
        {
            let ghost before = self.counter@;
            if let Some(pos) = self.counter.next() {
                proof {
                    lemma_found_step(self.oc_tree@, before);
                    assert(before =~= seq![pos] + self.counter@);
                }
                if let Some(ans) = self.oc_tree.get(pos) {
                    proof {
                        let k = gone.len() as int;
                        assert(found(self.oc_tree@, before).drop_first() =~= self@);
                        assert(self.oc_tree.state().contents.contains_key(pos));
                        assert(old(self).points()[k] == pos);
                        assert(self.points() =~= old(self).points().skip(k + 1));
                        assert(first_present(old(self).source(), old(self).points(), k));
                    }
                    return Some(ans);
                } else {
                    proof {
                        assert(found(self.oc_tree@, before) =~= self@);
                        gone = gone.push(pos);
                        assert(old(self).points() =~= gone + self.points());
                    }
                    continue ;
                }
            } else {
                assert(found(self.oc_tree@, before) =~= Seq::<InstanceView>::empty());
                assert(old(self).points() =~= gone);
                return None;
            }
        }
    }
}

/// Goes through the instances of a tree that it owns, in the order of the scan.
#[derive(Debug, PartialEq, Eq)]
pub struct IntoIter {
    oc_tree: OcTree,
    counter: AabbCounter,
}

impl View for IntoIter {
    type V = Seq<InstanceView>;

    /// The instances still to come, in order: what the tree holds at the
    /// points still to come.
    open spec fn view(&self) -> Seq<InstanceView> {
        found(self.source(), self.points())
    }
}

impl Clone for IntoIter {
    fn clone(&self) -> (iter: Self)
        ensures
            iter@ == self@,
            self.wf() ==> iter.wf(),
    {
        Self { oc_tree: self.oc_tree.clone(), counter: self.counter }
    }
}

impl IntoIter {
    /// The tree is well-formed, and the counter stands in its scan.
    pub closed spec fn wf(&self) -> bool {
        self.oc_tree.wf() && self.counter.wf()
    }

    /// What the tree holds that the iterator goes through.
    pub closed spec fn source(&self) -> Map<Point3, InstanceView> {
        self.oc_tree@
    }

    /// The points of the scan that are still to be looked up, in order.
    pub closed spec fn points(&self) -> Seq<Point3> {
        self.counter@
    }

    /// Where the counter stands: on the point looked up last, and before the
    /// first lookup on the point before the first of the scan.
    pub closed spec fn position(&self) -> Point3 {
        self.counter.pos()
    }

    pub fn new(oc_tree: OcTree) -> (iter: Self)
        requires
            oc_tree.wf(),
        ensures
            iter.wf(),
            iter.source() == oc_tree@,
            iter.position() == scan_start(oc_tree.scope() as nat),
            iter.points() == scan(oc_tree.scope() as nat),
            iter@ == oc_tree.state().enumeration(),
    {
        proof {
            oc_tree.lemma_state_wf();
        }
        Self { counter: AabbCounter::new(oc_tree.scope()), oc_tree }
    }

    /// Gives the next instance, and nothing once the scan is through.
    pub fn next(&mut self) -> (ans: Option<Instance>)
        requires
            old(self).wf(),
        ensures
            final(self).wf(),
            final(self).source() == old(self).source(),
            match ans {
                Some(v) => {
                    &&& old(self)@.len() > 0
                    &&& v@ == old(self)@[0]
                    &&& final(self)@ == old(self)@.drop_first()
                    &&& final(self).position() == v@.position
                    &&& final(self).source().contains_key(v@.position)
                    &&& final(self).source()[v@.position] == v@
                    &&& exists|k: int|
                        first_present(old(self).source(), old(self).points(), k) && old(
                            self,
                        ).points()[k] == v@.position && final(self).points() == old(
                            self,
                        ).points().skip(k + 1)
                },
                None => {
                    &&& old(self)@.len() == 0
                    &&& final(self)@.len() == 0
                    &&& final(self).points().len() == 0
                    &&& forall|j: int|
                        0 <= j < old(self).points().len() ==> !old(self).source().contains_key(
                            #[trigger] old(self).points()[j],
                        )
                },
            },
    {
        let mut iter = RefIter { oc_tree: &self.oc_tree, counter: self.counter };
        let ans = iter.next();
        self.counter = iter.counter;
        ans
    }
}

/// pos iterator for 3d AABB-box
#[derive(Debug, Clone, Copy, PartialEq, Eq)]
pub struct AabbCounter {
    scope: usize,
    pos: Point3,
}

impl View for AabbCounter {
    type V = Seq<Point3>;

    /// The points still to come, in order.
    closed spec fn view(&self) -> Seq<Point3> {
        scan_after(self.scope as nat, self.pos)
    }
}

impl AabbCounter {
    /// The counter stands before the scan, on a point of it, or has nothing to scan.
    pub closed spec fn wf(&self) -> bool {
        &&& self.scope <= 0x7fff_ffff
        &&& if self.scope == 0 {
            &&& -1 <= self.pos.x < 0x7fff_ffff
            &&& -1 <= self.pos.y < 0x7fff_ffff
            &&& -1 <= self.pos.z < 0x7fff_ffff
        } else {
            &&& -self.scope - 1 <= self.pos.x < self.scope
            &&& -self.scope <= self.pos.y < self.scope
            &&& -self.scope <= self.pos.z < self.scope
        }
    }

    pub closed spec fn spec_scope(&self) -> usize {
        self.scope
    }

    pub closed spec fn spec_pos(&self) -> Point3 {
        self.pos
    }

    pub fn new(scope: usize) -> (counter: Self)
        requires
            scope <= 0x7fff_ffff,
        ensures
            counter.wf(),
            counter.scope() == scope,
            counter.pos() == scan_start(scope as nat),
            counter@ == scan(scope as nat),
    {
        let edge: i32 = scope as i32;
        let counter = Self { scope, pos: Point3 { x: -edge - 1, y: -edge, z: -edge } };
        proof {
            let s = scope as int;
            if s > 0 {
                assert(plane(s, -s, -s) == row(s, -s, -s, -s) + plane(s, -s, -s + 1));
                assert(counter@ =~= scan(scope as nat));
            } else {
                assert(counter@ =~= scan(scope as nat));
            }
        }
        counter
    }

    #[verifier::when_used_as_spec(spec_scope)]
    pub fn scope(&self) -> (scope: usize)
        ensures
            scope == self.spec_scope(),
    {
        self.scope
    }

    /// The point given last; before the first, the point before the scan's first.
    #[verifier::when_used_as_spec(spec_pos)]
    pub fn pos(&self) -> (pos: Point3)
        ensures
            pos == self.spec_pos(),
    {
        self.pos
    }

    /// Gives the next point of the scan, and nothing once the scan is through.
    pub fn next(&mut self) -> (ans: Option<Point3>)
        requires
            old(self).wf(),
        ensures
            final(self).wf(),
            final(self).scope() == old(self).scope(),
            match ans {
                Some(pos) => {
                    &&& old(self)@.len() > 0
                    &&& pos == old(self)@[0]
                    &&& final(self)@ == old(self)@.drop_first()
                    &&& final(self).pos() == pos
                },
                None => old(self)@.len() == 0 && *final(self) == *old(self),
            },
    {
        let edge: i32 = self.scope as i32;
        let mut pos = Point3::new(self.pos.x + 1, self.pos.y, self.pos.z);

        if pos.x >= edge {
            pos = Point3::new(-edge, self.pos.y + 1, self.pos.z)
        };

        if pos.y >= edge {
            pos = Point3::new(-edge, -edge, self.pos.z + 1)
        };

        if pos.z >= edge {
            assert(self@ =~= Seq::<Point3>::empty());
            return None;
        };

        proof {
            let s = self.scope as int;
            let (x, y, z) = (self.pos.x as int, self.pos.y as int, self.pos.z as int);
            let left = scan_after(self.scope as nat, pos);
            if x + 1 < s {
                assert(self@ =~= seq![pos] + left);
            } else if y + 1 < s {
                assert(plane(s, z, y + 1) == row(s, y + 1, z, -s) + plane(s, z, y + 2));
                assert(self@ =~= seq![pos] + left);
            } else {
                assert(cube(s, z + 1) == plane(s, z + 1, -s) + cube(s, z + 2));
                assert(plane(s, z + 1, -s) == row(s, -s, z + 1, -s) + plane(s, z + 1, -s + 1));
                assert(self@ =~= seq![pos] + left);
            }
            assert((seq![pos] + left).drop_first() =~= left);
        }
        self.pos = pos;
        Some(pos)
    }
}

impl Default for AabbCounter {
    fn default() -> (counter: Self)
        ensures
            counter.wf(),
            counter.scope() == 0,
            counter@ == Seq::<Point3>::empty(),
    {
        let counter = Self { scope: 0, pos: Point3 { x: 0, y: 0, z: 0 } };
        assert(counter@ =~= Seq::<Point3>::empty());
        counter
    }
}

} // verus!
