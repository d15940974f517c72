//! A walk through the cells of the tree, which passes every instance once.
use crate::instance::Instance;
use crate::instance::InstanceView;
use crate::instance::distinct_positions;
use crate::instance::views;
use crate::oc_tree::node::in_cell;
use crate::oc_tree::node::lemma_cell_is_cube;
use crate::oc_tree::node::lemma_halve;
use crate::oc_tree::node::Node;
use crate::oc_tree::node::Trunk;
use crate::oc_tree::scope::zero_or_pow2;
use crate::point::octant;
use crate::point::Point3;
use vstd::prelude::*;

verus! {

impl Trunk {
    /// What a walk through the first `k` children passes, child after child.
    pub open spec fn walk_upto(self, k: nat) -> Seq<InstanceView>
        decreases self, k,
    {
        if k == 0 || k > self.branches.len() {
            Seq::empty()
        } else {
            self.walk_upto((k - 1) as nat) + self.branches[k - 1].walk()
        }
    }

    /// What the walk through the first `k` children passes lies in their octants.
    proof fn lemma_walk_upto(self, offset: nat, k: nat, v: InstanceView)
        requires
            self.wf(offset),
            zero_or_pow2(offset),
            offset >= 1,
            k <= 8,
        ensures
            self.walk_upto(k).contains(v) <==> octant(v.position, self.central) < k && Node::Trunk(
                self,
            ).contents().contains_key(v.position) && Node::Trunk(self).contents()[v.position] == v,
        decreases self, k,
    {
        if k > 0 {
            let child = self.branches[k - 1];
            lemma_halve(offset);
            self.lemma_walk_upto(offset, (k - 1) as nat, v);
            child.lemma_walk(self.central, offset / 2, (k - 1) as nat, v);
            vstd::seq_lib::lemma_seq_concat_contains_all_elements(
                self.walk_upto((k - 1) as nat),
                child.walk(),
                v,
            );
            self.lemma_contents_by_octant(v.position);
            if child.contents().contains_key(v.position) {
                child.lemma_contents_in_cell(self.central, offset / 2, (k - 1) as nat, v.position);
            }
        }
    }

    /// The walk through the first `k` children passes no position twice.
    proof fn lemma_walk_upto_distinct(self, offset: nat, k: nat)
        requires
            self.wf(offset),
            zero_or_pow2(offset),
            offset >= 1,
            k <= 8,
        ensures
            distinct_positions(self.walk_upto(k)),
        decreases self, k,
    {
        if k > 0 {
            let child = self.branches[k - 1];
            let front = self.walk_upto((k - 1) as nat);
            let back = child.walk();
            lemma_halve(offset);
            self.lemma_walk_upto_distinct(offset, (k - 1) as nat);
            child.lemma_walk_distinct(self.central, offset / 2, (k - 1) as nat);
            assert forall|i: int, j: int| 0 <= i < j < (front + back).len() implies (front
                + back)[i].position != (front + back)[j].position by {
                if i < front.len() && j >= front.len() {
                    let a = front[i];
                    let b = back[j - front.len()];
                    front.lemma_index_contains(i);
                    back.lemma_index_contains(j - front.len());
                    self.lemma_walk_upto(offset, (k - 1) as nat, a);
                    child.lemma_walk(self.central, offset / 2, (k - 1) as nat, b);
                    child.lemma_contents_in_cell(
                        self.central,
                        offset / 2,
                        (k - 1) as nat,
                        b.position,
                    );
                }
            }
        }
    }
}

impl Node {
    /// The instances below this node as a walk passes them: at a split, child
    /// after child.
    pub open spec fn walk(self) -> Seq<InstanceView>
        decreases self, 0nat,
    {
        match self {
            Node::Leaf(None) => Seq::empty(),
            Node::Leaf(Some(v)) => seq![v@],
            Node::Trunk(t) => t.walk_upto(t.branches.len() as nat),
        }
    }

    /// What a node stores lies in the cell that the node hangs in.
    pub proof fn lemma_contents_in_cell(self, central: Point3, offset: nat, oct: nat, p: Point3)
        requires
            self.wf(central, offset, oct),
            zero_or_pow2(offset),
            oct < 8,
            self.contents().contains_key(p),
        ensures
            in_cell(p, central, offset, oct),
            octant(p, central) == oct,
        decreases self,
    {
        match self {
            Node::Trunk(t) => {
                let k = octant(p, t.central);
                lemma_halve(offset);
                t.lemma_contents_by_octant(p);
                t.branches[k as int].lemma_contents_in_cell(t.central, offset / 2, k, p);
                lemma_cell_is_cube(p, central, offset, oct, t.central);
            },
            _ => {},
        }
    }

    /// The walk passes exactly what the node stores.
    pub proof fn lemma_walk(self, central: Point3, offset: nat, oct: nat, v: InstanceView)
        requires
            self.wf(central, offset, oct),
            zero_or_pow2(offset),
            oct < 8,
        ensures
            self.walk().contains(v) <==> self.contents().contains_key(v.position)
                && self.contents()[v.position] == v,
        decreases self, 0nat,
    {
        match self {
            Node::Trunk(t) => {
                t.lemma_walk_upto(offset, 8, v);
            },
            Node::Leaf(Some(w)) => {
                assert(seq![w@][0] == w@);
            },
            Node::Leaf(None) => {},
        }
    }

    /// The walk passes no position twice.
    pub proof fn lemma_walk_distinct(self, central: Point3, offset: nat, oct: nat)
        requires
            self.wf(central, offset, oct),
            zero_or_pow2(offset),
            oct < 8,
        ensures
            distinct_positions(self.walk()),
        decreases self, 0nat,
    {
        match self {
            Node::Trunk(t) => {
                t.lemma_walk_upto_distinct(offset, 8);
            },
            _ => {},
        }
    }

    /// Adds the instances below this node to `out`, as a walk passes them.
    #[verifier::loop_isolation(false)]
    pub fn collect(&self, out: &mut Vec<Instance>)
        requires
            self.shaped(),
        ensures
            views(final(out)@) == views(old(out)@) + self.walk(),
        decreases self,
    {
        match self {
            Node::Trunk(t) => {
                let mut k: usize = 0;
                assert(views(out@) =~= views(old(out)@) + t.walk_upto(0));
                while k < 8
                    invariant
                        k <= 8,
                        views(out@) == views(old(out)@) + t.walk_upto(k as nat),
                    decreases 8 - k,
                {
                    t.branches[k].collect(out);
                    k += 1;
                    assert(views(out@) =~= views(old(out)@) + t.walk_upto(k as nat));
                }
            },
            Node::Leaf(Some(v)) => {
                out.push(v.clone());
                assert(views(out@) =~= views(old(out)@) + self.walk());
            },
            Node::Leaf(None) => {
                assert(views(out@) =~= views(old(out)@) + self.walk());
            },
        }
    }
}

} // verus!
