//! The cells of the tree and how they split.
//!
//! A node is handed the center of the cell above it and an offset. Its own
//! cell is the part of that cell on its side of the center, and its own
//! center lies the offset away from the center above, on every axis. The
//! children of a split hang under the center of the split at half the offset.
use crate::instance::Instance;
use crate::instance::InstanceView;
use crate::oc_tree::scope::is_pow2;
use crate::oc_tree::scope::zero_or_pow2;
use crate::point::high_x;
use crate::point::high_y;
use crate::point::high_z;
use crate::point::octant;
use crate::point::toward;
use crate::point::Point3;
use vstd::prelude::*;

verus! {

/// The edge length of the cell of a node that was handed `offset`. At offset
/// zero the cell is a single lattice point.
pub open spec fn side(offset: nat) -> nat {
    if offset == 0 {
        1
    } else {
        2 * offset
    }
}

/// One coordinate of a center, stepped by `offset` away from the side that
/// is named: down where the high side is named, and up where the low one is.
pub open spec fn step_axis(central: int, offset: nat, high: bool) -> int {
    if high {
        central - offset
    } else {
        central + offset
    }
}

/// The point that lies `offset` away from `central` on every axis, on each
/// axis away from the side that the octant `toward` names.
pub open spec fn stepped(central: Point3, offset: nat, toward: nat) -> (int, int, int) {
    (
        step_axis(central.x as int, offset, high_x(toward)),
        step_axis(central.y as int, offset, high_y(toward)),
        step_axis(central.z as int, offset, high_z(toward)),
    )
}

/// The octant that lies across the center from `oct`.
pub open spec fn opposite(oct: nat) -> nat {
    (7 - oct) as nat
}

/// The center of the cell that hangs in octant `oct` of `central` at
/// `offset`: the step away from the opposite octant leads into the cell.
pub open spec fn cell_center(central: Point3, offset: nat, oct: nat) -> (int, int, int) {
    stepped(central, offset, opposite(oct))
}

/// Along one axis: `p` lies in the cell that hangs on the given side of
/// `central` and was handed `offset`.
pub open spec fn axis_in_cell(p: int, central: int, offset: nat, high: bool) -> bool {
    if high {
        central <= p < central + side(offset)
    } else {
        central - side(offset) <= p < central
    }
}

/// `p` lies in the cell of the node that hangs in octant `oct` of `central`
/// and was handed `offset`.
pub open spec fn in_cell(p: Point3, central: Point3, offset: nat, oct: nat) -> bool {
    &&& axis_in_cell(p.x as int, central.x as int, offset, high_x(oct))
    &&& axis_in_cell(p.y as int, central.y as int, offset, high_y(oct))
    &&& axis_in_cell(p.z as int, central.z as int, offset, high_z(oct))
}

/// Along one axis: the cell on the given side of `central` stays within the
/// coordinates that an `i32` can hold.
pub open spec fn axis_fits(central: int, offset: nat, high: bool) -> bool {
    if high {
        central + side(offset) <= 0x8000_0000
    } else {
        central - side(offset) >= -0x8000_0000
    }
}

/// The cell in octant `oct` of `central` at `offset` holds only points with
/// `i32` coordinates.
pub open spec fn cell_fits(central: Point3, offset: nat, oct: nat) -> bool {
    &&& axis_fits(central.x as int, offset, high_x(oct))
    &&& axis_fits(central.y as int, offset, high_y(oct))
    &&& axis_fits(central.z as int, offset, high_z(oct))
}

/// `p` lies in the cube around `central` whose eight cells were handed `offset`.
pub open spec fn in_cube(p: Point3, central: Point3, offset: nat) -> bool {
    in_cell(p, central, offset, octant(p, central))
}

/// All eight cells around `central` at `offset` hold only `i32` coordinates.
pub open spec fn cube_fits(central: Point3, offset: nat) -> bool {
    cell_fits(central, offset, 0) && cell_fits(central, offset, 7)
}

/// At least two positions are held.
pub open spec fn holds_two(contents: Map<Point3, InstanceView>) -> bool {
    exists|p: Point3, q: Point3| p != q && contents.contains_key(p) && contents.contains_key(q)
}

/// Halving a power of two above one gives a power of two, and the cell of the
/// halved offset has half the edge.
pub proof fn lemma_halve(offset: nat)
    requires
        zero_or_pow2(offset),
        offset >= 1,
    ensures
        zero_or_pow2(offset / 2),
        side(offset / 2) == offset,
{
    reveal_with_fuel(is_pow2, 2);
}

/// The points of a cell are the points of the cube around that cell's
/// center, and the cube fits where the cell does.
pub proof fn lemma_cell_is_cube(p: Point3, central: Point3, offset: nat, oct: nat, c: Point3)
    requires
        zero_or_pow2(offset),
        offset >= 1,
        oct < 8,
        cell_center(central, offset, oct) == (c.x as int, c.y as int, c.z as int),
    ensures
        cell_fits(central, offset, oct) ==> cube_fits(c, offset / 2),
        in_cell(p, central, offset, oct) <==> in_cube(p, c, offset / 2),
{
    lemma_halve(offset);
}

/// The storage cell of the tree: empty, one instance, or split in eight.
#[derive(Debug, PartialEq, Eq)]
pub enum Node {
    Trunk(Trunk),
    Leaf(Option<Instance>),
}

/// A split cell: its center, and one child for each octant around it.
#[derive(Debug, PartialEq, Eq)]
pub struct Trunk {
    pub central: Point3,
    pub branches: Vec<Node>,
}

impl Node {
    /// The instance that a lookup of `p` arrives at, whatever its position.
    pub open spec fn probe(self, p: Point3) -> Option<InstanceView>
        decreases self,
    {
        match self {
            Node::Leaf(None) => None,
            Node::Leaf(Some(v)) => Some(v@),
            Node::Trunk(t) => if t.branches.len() == 8 {
                t.branches[octant(p, t.central) as int].probe(p)
            } else {
                None
            },
        }
    }

    /// The instances stored below this node, by position.
    pub open spec fn contents(self) -> Map<Point3, InstanceView> {
        Map::new(
            |p: Point3| self.probe(p) is Some && self.probe(p)->0.position == p,
            |p: Point3| self.probe(p)->0,
        )
    }

    /// Every split below this node has its eight children.
    pub open spec fn shaped(self) -> bool
        decreases self,
    {
        match self {
            Node::Leaf(_) => true,
            Node::Trunk(t) => t.shaped(),
        }
    }

    /// A node that hangs well in a cell has its shape.
    pub proof fn lemma_wf_shaped(self, central: Point3, offset: nat, oct: nat)
        requires
            self.wf(central, offset, oct),
        ensures
            self.shaped(),
        decreases self,
    {
        match self {
            Node::Leaf(_) => {},
            Node::Trunk(t) => {
                t.lemma_wf_shaped(offset);
            },
        }
    }

    /// The node hangs in octant `oct` of `central` at `offset`: what it
    /// stores lies in that cell, and a split is centered on the cell.
    pub open spec fn wf(self, central: Point3, offset: nat, oct: nat) -> bool
        decreases self,
    {
        match self {
            Node::Leaf(None) => true,
            Node::Leaf(Some(v)) => in_cell(v@.position, central, offset, oct),
            Node::Trunk(t) => {
                &&& offset >= 1
                &&& cell_center(central, offset, oct) == (
                    t.central.x as int,
                    t.central.y as int,
                    t.central.z as int,
                )
                &&& t.wf(offset)
            },
        }
    }

    /// The two nodes have the same shape and hold instances of the same value.
    pub open spec fn same(self, other: Node) -> bool
        decreases self,
    {
        match (self, other) {
            (Node::Leaf(None), Node::Leaf(None)) => true,
            (Node::Leaf(Some(v)), Node::Leaf(Some(w))) => v@ == w@,
            (Node::Trunk(t), Node::Trunk(u)) => {
                &&& t.central == u.central
                &&& t.branches.len() == u.branches.len()
                &&& forall|k: int|
                    0 <= k < t.branches.len() ==> (#[trigger] t.branches[k]).same(u.branches[k])
            },
            _ => false,
        }
    }

    /// Nodes that are the same lead every lookup to the same instance.
    pub proof fn lemma_same_probe(self, other: Node, p: Point3)
        requires
            self.same(other),
        ensures
            self.probe(p) == other.probe(p),
        decreases self,
    {
        match (self, other) {
            (Node::Trunk(t), Node::Trunk(u)) => {
                if t.branches.len() == 8 {
                    let k = octant(p, t.central) as int;
                    t.branches[k].lemma_same_probe(u.branches[k], p);
                }
            },
            _ => {},
        }
    }

    /// Nodes that are the same hang well in the same cells.
    pub proof fn lemma_same_wf(self, other: Node, central: Point3, offset: nat, oct: nat)
        requires
            self.same(other),
            self.wf(central, offset, oct),
        ensures
            other.wf(central, offset, oct),
        decreases self,
    {
        match (self, other) {
            (Node::Trunk(t), Node::Trunk(u)) => {
                assert forall|k: int| 0 <= k < 8 implies (#[trigger] u.branches[k]).wf(
                    u.central,
                    offset / 2,
                    k as nat,
                ) by {
                    t.branches[k].lemma_same_wf(u.branches[k], t.central, offset / 2, k as nat);
                }
                self.lemma_same_contents(other);
            },
            _ => {},
        }
    }

    /// Nodes that are the same store the same.
    pub proof fn lemma_same_contents(self, other: Node)
        requires
            self.same(other),
        ensures
            self.contents() == other.contents(),
    {
        assert forall|p: Point3| self.probe(p) == other.probe(p) by {
            self.lemma_same_probe(other, p);
        }
        assert(self.contents() =~= other.contents());
    }

    pub fn new(v: Instance) -> (node: Self)
        ensures
            node == Node::Leaf(Some(v)),
    {
        Self::Leaf(Some(v))
    }

    /// The point `offset` away from `last_central` on every axis: down on an
    /// axis on which `toward` names the high side, and up on the others. The
    /// center of the cell in an octant is the step for the opposite octant.
    pub fn get_new_central(last_central: Point3, offset: usize, toward: usize) -> (ans: Point3)
        requires
            toward < 8,
            offset <= 0x8000_0000,
            -0x8000_0000 <= step_axis(
                last_central.x as int,
                offset as nat,
                high_x(toward as nat),
            ) < 0x8000_0000,
            -0x8000_0000 <= step_axis(
                last_central.y as int,
                offset as nat,
                high_y(toward as nat),
            ) < 0x8000_0000,
            -0x8000_0000 <= step_axis(
                last_central.z as int,
                offset as nat,
                high_z(toward as nat),
            ) < 0x8000_0000,
        ensures
            stepped(last_central, offset as nat, toward as nat) == (
                ans.x as int,
                ans.y as int,
                ans.z as int,
            ),
            ans.x == (if toward & 1 != 0 {
                last_central.x - offset
            } else {
                last_central.x + offset
            }),
            ans.y == (if toward & 2 != 0 {
                last_central.y - offset
            } else {
                last_central.y + offset
            }),
            ans.z == (if toward & 4 != 0 {
                last_central.z - offset
            } else {
                last_central.z + offset
            }),
    {
        assert((toward & 1 != 0) == (toward % 2 != 0) && (toward & 2 != 0) == (toward % 4 / 2 != 0)
            && (toward & 4 != 0) == (toward / 4 != 0)) by (bit_vector)
            requires
                toward < 8,
        ;
        let step: i64 = offset as i64;
        let mut ans = last_central;

        if toward % 2 != 0 {
            ans.x = (last_central.x as i64 - step) as i32;
        } else {
            ans.x = (last_central.x as i64 + step) as i32;
        }

        if toward % 4 / 2 != 0 {
            ans.y = (last_central.y as i64 - step) as i32;
        } else {
            ans.y = (last_central.y as i64 + step) as i32;
        }

        if toward / 4 != 0 {
            ans.z = (last_central.z as i64 - step) as i32;
        } else {
            ans.z = (last_central.z as i64 + step) as i32;
        }

        ans
    }

    /// Stores `v` below this node, in place of what was stored at its
    /// position. A leaf that already holds another position splits.
    pub fn insert(&mut self, v: Instance, central: Point3, offset: usize)
        requires
            zero_or_pow2(offset as nat),
            offset <= 0x8000_0000,
            old(self).wf(central, offset as nat, octant(v@.position, central)),
            in_cube(v@.position, central, offset as nat),
            cell_fits(central, offset as nat, octant(v@.position, central)),
        ensures
            final(self).wf(central, offset as nat, octant(v@.position, central)),
            final(self).contents() == old(self).contents().insert(v@.position, v@),
            *final(self) is Trunk <==> *old(self) is Trunk || (*old(self) matches Node::Leaf(
                Some(e),
            ) && e@.position != v@.position),
        decreases offset, 2int,
    {
        let ghost oct = octant(v@.position, central);
        match self {
            Node::Trunk(t) => {
                proof {
                    lemma_cell_is_cube(v@.position, central, offset as nat, oct, t.central);
                }
                t.insert(offset, v)
            },
            Node::Leaf(Some(vo)) => {
                if vo.pos() == v.pos() {
                    *self = Node::Leaf(Some(v));
                    assert(self.contents() =~= old(self).contents().insert(v@.position, v@));
                } else {
                    let ghost a = vo@;
                    // The split is centered on the cell that holds both: the
                    // step away from the octant across the center leads there.
                    let vot = vo.toward(central);
                    let new_central = Self::get_new_central(central, offset, 7 - vot);
                    proof {
                        lemma_cell_is_cube(v@.position, central, offset as nat, oct, new_central);
                        lemma_cell_is_cube(a.position, central, offset as nat, oct, new_central);
                    }
                    let trunk = Trunk::new(new_central, offset, (vo.clone(), v));
                    *self = Node::Trunk(trunk);
                    assert(self.contents() =~= old(self).contents().insert(v@.position, v@));
                }
            },
            Node::Leaf(None) => {
                *self = Node::Leaf(Some(v));
                assert(self.contents() =~= old(self).contents().insert(v@.position, v@));
            },
        }
    }

    pub fn get(&self, pos: Point3) -> (ans: Option<Instance>)
        requires
            self.shaped(),
        ensures
            ans is Some <==> self.probe(pos) is Some,
            ans is Some ==> ans->0@ == self.probe(pos)->0,
        decreases self,
    {
        match self {
            Node::Trunk(t) => t.get(pos),
            Node::Leaf(Some(v)) => Some(v.clone()),
            Node::Leaf(None) => None,
        }
    }
}

impl Clone for Node {
    #[verifier::loop_isolation(false)]
    fn clone(&self) -> (node: Self)
        ensures
            self.same(node),
        decreases self,
    {
        match self {
            Node::Trunk(t) => {
                let mut branches: Vec<Node> = Vec::new();
                let mut i: usize = 0;
                while i < t.branches.len()
                    invariant
                        *self == Node::Trunk(*t),
                        i <= t.branches.len(),
                        branches.len() == i,
                        forall|k: int| 0 <= k < i ==> (#[trigger] t.branches[k]).same(branches[k]),
                    decreases t.branches.len() - i,
                {
                    let branch = t.branches[i].clone();
                    branches.push(branch);
                    i += 1;
                }
                Node::Trunk(Trunk { central: t.central, branches })
            },
            Node::Leaf(Some(v)) => Node::Leaf(Some(v.clone())),
            Node::Leaf(None) => Node::Leaf(None),
        }
    }
}

impl Default for Node {
    fn default() -> (node: Self)
        ensures
            node == Node::Leaf(None),
    {
        Self::Leaf(None)
    }
}

impl Trunk {
    /// The eight children hang around the center at half of `offset`, and
    /// between them they hold at least two instances.
    pub open spec fn wf(self, offset: nat) -> bool
        decreases self,
    {
        &&& self.branches.len() == 8
        &&& forall|k: int|
            0 <= k < 8 ==> (#[trigger] self.branches[k]).wf(self.central, offset / 2, k as nat)
        &&& holds_two(Node::Trunk(self).contents())
    }

    /// The trunk has its eight children, and so has every split below it.
    pub open spec fn shaped(self) -> bool
        decreases self,
    {
        &&& self.branches.len() == 8
        &&& forall|k: int| 0 <= k < 8 ==> (#[trigger] self.branches[k]).shaped()
    }

    /// A trunk whose children hang well has its shape.
    pub proof fn lemma_wf_shaped(self, offset: nat)
        requires
            self.wf(offset),
        ensures
            self.shaped(),
        decreases self,
    {
        assert forall|k: int| 0 <= k < 8 implies (#[trigger] self.branches[k]).shaped() by {
            self.branches[k].lemma_wf_shaped(self.central, offset / 2, k as nat);
        }
    }

    /// What a split stores at `p` is what the child in the octant of `p` stores there.
    pub proof fn lemma_contents_by_octant(self, p: Point3)
        requires
            self.branches.len() == 8,
        ensures
            Node::Trunk(self).contents().contains_key(p) == self.branches[octant(
                p,
                self.central,
            ) as int].contents().contains_key(p),
            Node::Trunk(self).contents().contains_key(p) ==> Node::Trunk(self).contents()[p]
                == self.branches[octant(p, self.central) as int].contents()[p],
    {
    }

    /// A split around `central` that holds the two instances of `v`, each in
    /// the octant it lies in. Where both lie in one octant, the child there
    /// takes both, at half the offset.
    pub fn new(central: Point3, offset: usize, v: (Instance, Instance)) -> (trunk: Self)
        requires
            zero_or_pow2(offset as nat),
            1 <= offset <= 0x8000_0000,
            v.0@.position != v.1@.position,
            in_cube(v.0@.position, central, (offset / 2) as nat),
            in_cube(v.1@.position, central, (offset / 2) as nat),
            cube_fits(central, (offset / 2) as nat),
        ensures
            trunk.central == central,
            trunk.wf(offset as nat),
            Node::Trunk(trunk).contents() == Map::<Point3, InstanceView>::empty().insert(
                v.0@.position,
                v.0@,
            ).insert(v.1@.position, v.1@),
        decreases offset, 1int,
    {
        let mut branches: Vec<Node> = Vec::new();
        let mut i: usize = 0;
        while i < 8
            invariant
                i <= 8,
                branches.len() == i,
                forall|k: int| 0 <= k < i ==> (#[trigger] branches[k]) == Node::Leaf(None),
            decreases 8 - i,
        {
            branches.push(Node::default());
            i += 1;
        }

        let v0t = v.0.toward(central);
        let v1t = v.1.toward(central);
        let ghost a = v.0@;
        let ghost b = v.1@;
        proof {
            lemma_halve(offset as nat);
        }

        if v0t == v1t {
            let mut node = Node::default();

            node.insert(v.0, central, offset / 2);
            node.insert(v.1, central, offset / 2);

            branches[v0t] = node;
        } else {
            branches[v0t] = Node::new(v.0);
            branches[v1t] = Node::new(v.1);
        }

        let trunk = Self { central, branches };
        proof {
            let stored = Node::Trunk(trunk).contents();
            let wanted = Map::<Point3, InstanceView>::empty().insert(a.position, a).insert(
                b.position,
                b,
            );
            assert forall|p: Point3|
                (#[trigger] stored.dom().contains(p)) == wanted.dom().contains(p) && (
                stored.dom().contains(p) ==> stored[p] == wanted[p]) by {
                trunk.lemma_contents_by_octant(p);
            }
            assert(stored =~= wanted);
            assert(stored.contains_key(a.position) && stored.contains_key(b.position));
        }
        trunk
    }

    /// Hands `v` to the child in whose octant it lies, at half the offset.
    pub fn insert(&mut self, offset: usize, v: Instance)
        requires
            zero_or_pow2(offset as nat),
            1 <= offset <= 0x8000_0000,
            old(self).wf(offset as nat),
            in_cube(v@.position, old(self).central, (offset / 2) as nat),
            cube_fits(old(self).central, (offset / 2) as nat),
        ensures
            final(self).central == old(self).central,
            final(self).wf(offset as nat),
            Node::Trunk(*final(self)).contents() == Node::Trunk(*old(self)).contents().insert(
                v@.position,
                v@,
            ),
        decreases offset, 1int,
    {
        proof {
            lemma_halve(offset as nat);
        }
        let toward = v.toward(self.central);
        let central = self.central;
        self.branches[toward].insert(v, central, offset / 2);
        proof {
            let stored = Node::Trunk(*self).contents();
            let wanted = Node::Trunk(*old(self)).contents().insert(v@.position, v@);
            assert forall|p: Point3|
                (#[trigger] stored.dom().contains(p)) == wanted.dom().contains(p) && (
                stored.dom().contains(p) ==> stored[p] == wanted[p]) by {
                self.lemma_contents_by_octant(p);
                old(self).lemma_contents_by_octant(p);
            }
            assert(stored =~= wanted);
            let (p, q) = choose|p: Point3, q: Point3|
                p != q && Node::Trunk(*old(self)).contents().contains_key(p) && Node::Trunk(
                    *old(self),
                ).contents().contains_key(q);
            assert(stored.contains_key(p) && stored.contains_key(q));
        }
    }

    pub fn get(&self, pos: Point3) -> (ans: Option<Instance>)
        requires
            self.shaped(),
        ensures
            ans is Some <==> Node::Trunk(*self).probe(pos) is Some,
            ans is Some ==> ans->0@ == Node::Trunk(*self).probe(pos)->0,
        decreases self,
    {
        let toward = toward(pos, self.central);
        self.branches[toward].get(pos)
    }
}

} // verus!
