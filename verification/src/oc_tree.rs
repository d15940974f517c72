//! The octree: at most one instance for each lattice point, a cube that
//! doubles until it takes what is inserted, lookup by position, and
//! enumeration in the order of a scan through the cube.
use crate::instance::distinct_positions;
use crate::instance::views;
use crate::instance::Instance;
use crate::instance::InstanceView;
use crate::oc_tree::scan::found;
use crate::oc_tree::scan::lattice;
use crate::oc_tree::scan::scan;
use crate::oc_tree::iter::IntoIter;
use crate::oc_tree::iter::RefIter;
use crate::oc_tree::laws::lemma_enumeration_contains;
use crate::oc_tree::node::Node;
use crate::oc_tree::scope::enumerable;
use crate::oc_tree::scope::grown_scope;
use crate::oc_tree::scope::in_reach;
use crate::oc_tree::scope::in_scope;
use crate::oc_tree::scope::is_pow2;
use crate::oc_tree::scope::is_scope_for;
use crate::oc_tree::scope::lemma_double_pow2;
use crate::oc_tree::scope::lemma_max_scope_pow2;
use crate::oc_tree::scope::lemma_pow2_gap;
use crate::oc_tree::scope::zero_or_pow2;
pub use crate::oc_tree::scope::MAX_SCOPE;
use crate::point::Point3;
use vstd::prelude::*;

pub mod iter;
pub mod laws;
mod node;
mod walk;
pub mod scan;
pub mod scope;

verus! {

/// The center of every tree's root.
pub open spec fn spec_central() -> Point3 {
    Point3 { x: 0, y: 0, z: 0 }
}

/// The center of every tree's root.
#[verifier::when_used_as_spec(spec_central)]
pub fn central() -> (c: Point3)
    ensures
        c == spec_central(),
{
    Point3 { x: 0, y: 0, z: 0 }
}

/// The lowest corner of the root cell: two half-extents below the center on
/// every axis.
spec fn corner(scope: nat) -> Point3 {
    lattice(central().x - 2 * scope, central().y - 2 * scope, central().z - 2 * scope)
}

/// What can be seen of a tree: the instances by position, the half-extent,
/// and the count of insertions.
pub ghost struct TreeState {
    pub contents: Map<Point3, InstanceView>,
    pub scope: nat,
    pub len: nat,
}

/// Why an insertion was not made.
#[derive(Debug, Clone, Copy, PartialEq, Eq, Structural)]
pub enum LimitError {
    /// The position lies outside the largest half-extent.
    OutOfReach,
    /// The count of insertions is at its largest.
    CounterFull,
}

impl TreeState {
    /// The half-extent is zero or a power of two within the limit, and every
    /// instance is stored at its own position, inside the half-extent.
    pub open spec fn wf(self) -> bool {
        &&& zero_or_pow2(self.scope)
        &&& self.scope <= MAX_SCOPE
        &&& forall|p: Point3| #[trigger]
            self.contents.contains_key(p) ==> in_scope(self.scope, p) && self.contents[p].position
                == p
    }

    /// The tree after the insertion of `v`: grown until it takes the position
    /// of `v`, with `v` at that position and one insertion more counted.
    pub open spec fn inserted(self, v: InstanceView) -> TreeState {
        TreeState {
            contents: self.contents.insert(v.position, v),
            scope: grown_scope(self.scope, v.position),
            len: self.len + 1,
        }
    }

    /// The tree after the insertion of each of `vs`, in order.
    pub open spec fn inserted_all(self, vs: Seq<InstanceView>) -> TreeState
        decreases vs.len(),
    {
        if vs.len() == 0 {
            self
        } else {
            self.inserted_all(vs.drop_last()).inserted(vs.last())
        }
    }

    /// The instances that the scan of the cube finds, in the order of the scan.
    pub open spec fn enumeration(self) -> Seq<InstanceView> {
        found(self.contents, scan(self.scope))
    }
}

/// A sparse index over lattice points that grows to take what is inserted.
#[derive(Debug, PartialEq, Eq)]
pub struct OcTree {
    root: Node,
    len: usize,
    scope: usize,
}

impl View for OcTree {
    type V = Map<Point3, InstanceView>;

    /// The stored instances, by position.
    closed spec fn view(&self) -> Map<Point3, InstanceView> {
        self.root.contents()
    }
}

impl OcTree {
    /// The half-extent and the stored positions agree, and every cell of the
    /// tree lies where its place in the tree says.
    pub closed spec fn wf(&self) -> bool {
        &&& zero_or_pow2(self.scope as nat)
        &&& self.scope <= MAX_SCOPE
        &&& forall|p: Point3| #[trigger] self@.contains_key(p) ==> in_scope(self.scope as nat, p)
        &&& self.root.wf(corner(self.scope as nat), 2 * (self.scope as nat), 7)
    }

    pub closed spec fn spec_len(&self) -> usize {
        self.len
    }

    pub closed spec fn spec_scope(&self) -> usize {
        self.scope
    }

    /// What can be seen of the tree.
    pub open spec fn state(&self) -> TreeState {
        TreeState { contents: self@, scope: self.scope() as nat, len: self.len() as nat }
    }

    /// A well-formed tree shows a well-formed state.
    pub proof fn lemma_state_wf(&self)
        requires
            self.wf(),
        ensures
            self.state().wf(),
    {
    }

    /// Create a OcTree with a sized AABB-Box: the half-extent is the least
    /// power of two that is at least `scope`, and zero for zero.
    pub fn from_scope(scope: usize) -> (tree: Self)
        requires
            scope <= MAX_SCOPE,
        ensures
            tree.wf(),
            tree@ == Map::<Point3, InstanceView>::empty(),
            tree.len() == 0,
            is_scope_for(tree.scope() as nat, scope as nat),
    {
        let mut i: usize = 0;
        if scope > 0 {
            i = 1;
            while i < scope
                invariant
                    scope <= MAX_SCOPE,
                    is_pow2(i as nat),
                    i <= MAX_SCOPE,
                    i == 1 || i / 2 < scope,
                decreases MAX_SCOPE - i,
            {
                proof {
                    lemma_max_scope_pow2();
                    lemma_pow2_gap(i as nat, MAX_SCOPE as nat);
                }
                i = i * 2;
            }
            assert forall|q: nat| is_pow2(q) && scope <= q implies i <= q by {
                if q < i {
                    lemma_pow2_gap(q, i as nat);
                }
            }
        }
        let tree = Self { root: Node::default(), len: 0, scope: i };
        assert(tree@ =~= Map::<Point3, InstanceView>::empty());
        tree
    }

    pub fn new() -> (tree: Self)
        ensures
            tree.wf(),
            tree@ == Map::<Point3, InstanceView>::empty(),
            tree.len() == 0,
            tree.scope() == 0,
    {
        Self::default()
    }

    /// The number of insertions made.
    #[verifier::when_used_as_spec(spec_len)]
    pub fn len(&self) -> (len: usize)
        ensures
            len == self.spec_len(),
    {
        self.len
    }

    /// The half-extent.
    #[verifier::when_used_as_spec(spec_scope)]
    pub fn scope(&self) -> (scope: usize)
        ensures
            scope == self.spec_scope(),
    {
        self.scope
    }

    /// get the Instance by its position
    pub fn get(&self, pos: Point3) -> (ans: Option<Instance>)
        requires
            self.wf(),
        ensures
            ans is Some <==> self@.contains_key(pos),
            ans is Some ==> ans->0@ == self@[pos],
            !in_scope(self.scope() as nat, pos) ==> ans is None,
    {
        proof {
            self.root.lemma_wf_shaped(corner(self.scope as nat), 2 * (self.scope as nat), 7);
        }
        match self.root.get(pos) {
            Some(v) => if v.pos() == pos {
                Some(v)
            } else {
                None
            },
            None => None,
        }
    }

    /// return a iterator for all the instances.
    ///
    /// Index as x++ -overflow-> y++ -overflow-> z++
    pub fn iter(&self) -> (iter: RefIter<'_>)
        requires
            self.wf(),
        ensures
            iter.wf(),
            iter@ == self.state().enumeration(),
    {
        RefIter::new(self)
    }

    /// Everything that the tree holds, each instance once, in the order in
    /// which a walk through the cells of the tree passes them. What of it
    /// lies in the cube of the scan is what the enumeration gives.
    pub fn instances(&self) -> (all: Vec<Instance>)
        requires
            self.wf(),
        ensures
            distinct_positions(views(all@)),
            forall|v: InstanceView|
                views(all@).contains(v) <==> self@.contains_key(v.position) && self@[v.position]
                    == v,
            forall|v: InstanceView|
                self.state().enumeration().contains(v) <==> views(all@).contains(v) && enumerable(
                    self.scope() as nat,
                    v.position,
                ),
    {
        let mut all: Vec<Instance> = Vec::new();
        proof {
            self.root.lemma_wf_shaped(corner(self.scope as nat), 2 * (self.scope as nat), 7);
            lemma_double_pow2(self.scope as nat);
        }
        self.root.collect(&mut all);
        proof {
            assert(views(all@) =~= self.root.walk());
            self.root.lemma_walk_distinct(corner(self.scope as nat), 2 * (self.scope as nat), 7);
            assert forall|v: InstanceView|
                views(all@).contains(v) <==> self@.contains_key(v.position) && self@[v.position]
                    == v by {
                self.root.lemma_walk(corner(self.scope as nat), 2 * (self.scope as nat), 7, v);
            }
            assert forall|v: InstanceView|
                self.state().enumeration().contains(v) <==> views(all@).contains(v) && enumerable(
                    self.scope() as nat,
                    v.position,
                ) by {
                lemma_enumeration_contains(self.state(), v);
            }
        }
        all
    }

    /// The same, from a tree that is given away.
    pub fn into_iter(self) -> (iter: IntoIter)
        requires
            self.wf(),
        ensures
            iter.wf(),
            iter@ == self.state().enumeration(),
    {
        IntoIter::new(self)
    }

    /// - loop:
    ///     - if in scope {driect insert}
    ///     - else {extend}
    ///
    /// What was stored at the position of `v` gives way to `v`, and nothing
    /// else is lost, also where the tree has to grow.
    pub fn insert(&mut self, v: Instance)
        requires
            old(self).wf(),
            old(self).len() < usize::MAX,
            in_reach(v@.position),
        ensures
            final(self).wf(),
            final(self).state() == old(self).state().inserted(v@),
            final(self)@.contains_key(v@.position),
            final(self)@[v@.position] == v@,
    {
        let ghost before = self.state();
        let ghost gv = v@;
        self.len += 1;

        loop
            invariant_except_break
                self.wf(),
                in_reach(gv.position),
                v@ == gv,
                self.len() == before.len + 1,
                before.scope <= self.scope(),
                grown_scope(self.scope() as nat, gv.position) == grown_scope(
                    before.scope,
                    gv.position,
                ),
                self@ == before.contents,
            ensures
                self.wf(),
                self.state() == before.inserted(gv),
            decreases MAX_SCOPE - self.scope(),
        {
            if self.is_in_scope(&v.pos()) {
                self.place(v);
                break ;
            } else {
                proof {
                    lemma_max_scope_pow2();
                    if self.scope > 0 {
                        lemma_pow2_gap(self.scope as nat, MAX_SCOPE as nat);
                    }
                    lemma_double_pow2(self.scope as nat);
                    reveal_with_fuel(is_pow2, 2);
                }
                let ghost smaller = self.scope();
                let wider: usize = if self.scope == 0 {
                    1
                } else {
                    self.scope * 2
                };
                assert(is_pow2(wider as nat));
                self.update_scope(wider);
                assert(self.scope() == wider);
                assert(grown_scope(smaller as nat, gv.position) == grown_scope(
                    wider as nat,
                    gv.position,
                ));
            }
        }
    }

    /// Inserts `v` where the tree can take it, and says so where it cannot:
    /// the position of `v` is out of reach, or the count of insertions is full.
    pub fn try_insert(&mut self, v: Instance) -> (ans: Result<(), LimitError>)
        requires
            old(self).wf(),
        ensures
            final(self).wf(),
            match ans {
                Ok(()) => {
                    &&& in_reach(v@.position)
                    &&& old(self).len() < usize::MAX
                    &&& final(self).state() == old(self).state().inserted(v@)
                },
                Err(LimitError::OutOfReach) => !in_reach(v@.position) && *final(self) == *old(self),
                Err(LimitError::CounterFull) => {
                    &&& in_reach(v@.position)
                    &&& old(self).len() == usize::MAX
                    &&& *final(self) == *old(self)
                },
            },
    {
        let p = v.pos();
        let edge: i32 = MAX_SCOPE as i32;
        if !(p.x > -edge && p.x <= edge && p.y > -edge && p.y <= edge && p.z > -edge && p.z
            <= edge) {
            Err(LimitError::OutOfReach)
        } else if self.len == usize::MAX {
            Err(LimitError::CounterFull)
        } else {
            self.insert(v);
            Ok(())
        }
    }

    /// Whether the tree takes `p` as it is: on every axis above the negated
    /// half-extent, and at most at the half-extent.
    pub fn is_in_scope(&self, p: &Point3) -> (ans: bool)
        requires
            self.wf(),
        ensures
            ans == in_scope(self.scope() as nat, *p),
            ans == (-self.scope() < p.x <= self.scope() && -self.scope() < p.y <= self.scope()
                && -self.scope() < p.z <= self.scope()),
    {
        let edge: i32 = self.scope as i32;
        p.x > -edge && p.x <= edge && p.y > -edge && p.y <= edge && p.z > -edge && p.z <= edge
    }

    /// Rebuilds the tree at the least power of two that is at least
    /// `new_scope`, from everything that it holds: nothing is lost, nothing
    /// is added, and the count of insertions stays.
    pub fn update_scope(&mut self, new_scope: usize)
        requires
            old(self).wf(),
            old(self).scope() <= new_scope <= MAX_SCOPE,
        ensures
            final(self).wf(),
            is_scope_for(final(self).scope() as nat, new_scope as nat),
            is_pow2(new_scope as nat) ==> final(self).scope() == new_scope,
            final(self).len() == old(self).len(),
            final(self)@ == old(self)@,
    {
        let mut new = Self::from_scope(new_scope);
        let mut rest = self.instances();
        let ghost all = views(rest@);

        loop
            invariant
                self.wf(),
                new.wf(),
                self.scope() <= new.scope(),
                is_scope_for(new.scope() as nat, new_scope as nat),
                rest.len() <= all.len(),
                views(rest@) == all.take(rest.len() as int),
                forall|v: InstanceView|
                    all.contains(v) <==> self@.contains_key(v.position) && self@[v.position] == v,
                forall|p: Point3| #[trigger]
                    new@.contains_key(p) ==> self@.contains_key(p) && new@[p] == self@[p],
                forall|j: int|
                    rest.len() <= j < all.len() ==> new@.contains_key((#[trigger] all[j]).position),
            ensures
                rest.len() == 0,
            decreases rest.len(),
        {
            let ghost before = rest@;
            match rest.pop() {
                Some(v) => {
                    proof {
                        let j = rest.len() as int;
                        assert(views(before)[j] == v@);
                        assert(all[j] == v@);
                        all.lemma_index_contains(j);
                        assert(views(rest@) =~= all.take(j));
                    }
                    new.place(v);
                },
                None => {
                    break ;
                },
            }
        }

        proof {
            assert forall|p: Point3| #[trigger] self@.dom().contains(p) implies new@.dom().contains(
                p,
            ) by {
                assert(self@.contains_key(p));
                assert(all.contains(self@[p]));
                let j = choose|j: int| 0 <= j < all.len() && all[j] == self@[p];
                assert(new@.contains_key(all[j].position));
            }
            assert(new@ =~= self@);
        }
        new.len = self.len;
        *self = new;
    }

    /// Stores `v` in a tree that takes its position as it is.
    fn place(&mut self, v: Instance)
        requires
            old(self).wf(),
            in_scope(old(self).scope() as nat, v@.position),
        ensures
            final(self).wf(),
            final(self)@ == old(self)@.insert(v@.position, v@),
            final(self).scope() == old(self).scope(),
            final(self).len() == old(self).len(),
    {
        // The root cell is the cube of twice the half-extent around the
        // center: the high octant of its lowest corner, which is the step
        // away from the high octant of the center.
        let corner = Node::get_new_central(central(), 2 * self.scope, 7);
        proof {
            lemma_double_pow2(self.scope as nat);
        }
        self.root.insert(v, corner, 2 * self.scope);
        proof {
            assert forall|p: Point3| #[trigger] self@.contains_key(p) implies in_scope(
                self.scope as nat,
                p,
            ) by {
                if p != v@.position {
                    assert(old(self)@.contains_key(p));
                }
            }
        }
    }
}

impl Clone for OcTree {
    fn clone(&self) -> (tree: Self)
        ensures
            tree.state() == self.state(),
            self.wf() ==> tree.wf(),
    {
        let tree = Self { root: self.root.clone(), len: self.len, scope: self.scope };
        proof {
            self.root.lemma_same_contents(tree.root);
            if self.wf() {
                self.root.lemma_same_wf(
                    tree.root,
                    corner(self.scope as nat),
                    2 * (self.scope as nat),
                    7,
                );
            }
        }
        tree
    }
}

impl Default for OcTree {
    fn default() -> (tree: Self)
        ensures
            tree.wf(),
            tree@ == Map::<Point3, InstanceView>::empty(),
            tree.len() == 0,
            tree.scope() == 0,
    {
        let tree = Self { root: Node::default(), len: 0, scope: 0 };
        assert(tree@ =~= Map::<Point3, InstanceView>::empty());
        tree
    }
}

} // verus!
