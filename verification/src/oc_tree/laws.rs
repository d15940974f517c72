//! What holds of insertion, lookup and enumeration, over the states of a tree.
use crate::instance::distinct_positions;
use crate::instance::InstanceView;
use crate::oc_tree::scan::lemma_found_contains;
use crate::oc_tree::scan::lemma_found_ordered;
use crate::oc_tree::scan::lemma_scan_contains;
use crate::oc_tree::scan::lemma_scan_ordered;
use crate::oc_tree::scan::scan;
use crate::oc_tree::scan::scan_before;
use crate::oc_tree::scope::enumerable;
use crate::oc_tree::scope::in_reach;
use crate::oc_tree::scope::in_scope;
use crate::oc_tree::scope::lemma_grown_scope;
use crate::oc_tree::TreeState;
use crate::point::Point3;
use vstd::prelude::*;

verus! {

/// An insertion within reach leaves a well-formed tree well-formed.
pub proof fn lemma_inserted_wf(state: TreeState, v: InstanceView)
    requires
        state.wf(),
        in_reach(v.position),
    ensures
        state.inserted(v).wf(),
{
    lemma_grown_scope(state.scope, v.position);
    let after = state.inserted(v);
    assert forall|p: Point3| #[trigger] after.contents.contains_key(p) implies in_scope(
        after.scope,
        p,
    ) && after.contents[p].position == p by {
        if p != v.position {
            assert(state.contents.contains_key(p));
        }
    }
}

/// An insertion makes the tree grow exactly where the tree does not take the
/// position as it is, and the tree that is left takes it.
pub proof fn lemma_grows_exactly_out_of_scope(state: TreeState, v: InstanceView)
    requires
        state.wf(),
        in_reach(v.position),
    ensures
        state.inserted(v).scope == state.scope <==> in_scope(state.scope, v.position),
        state.scope <= state.inserted(v).scope,
        in_scope(state.inserted(v).scope, v.position),
{
    lemma_grown_scope(state.scope, v.position);
}

/// The bounds of a half-extent: a coordinate at the negated half-extent is
/// not taken, and the point with every coordinate at the half-extent is.
pub proof fn lemma_scope_boundary(scope: nat, p: Point3)
    ensures
        p.x == -scope || p.y == -scope || p.z == -scope ==> !in_scope(scope, p),
        scope > 0 && p.x == scope && p.y == scope && p.z == scope ==> in_scope(scope, p),
{
}

/// Right after its insertion an instance is found at its position.
pub proof fn lemma_insert_then_get(state: TreeState, v: InstanceView)
    ensures
        state.inserted(v).contents.contains_key(v.position),
        state.inserted(v).contents[v.position] == v,
{
}

/// After a row of insertions the tree holds a position exactly if it held it
/// before or one of the inserted instances lies there.
pub proof fn lemma_inserted_all_positions(state: TreeState, vs: Seq<InstanceView>, p: Point3)
    ensures
        state.inserted_all(vs).contents.contains_key(p) <==> state.contents.contains_key(p) || (
        exists|i: int| 0 <= i < vs.len() && vs[i].position == p),
    decreases vs.len(),
{
    if vs.len() > 0 {
        let front = vs.drop_last();
        lemma_inserted_all_positions(state, front, p);
        if exists|i: int| 0 <= i < vs.len() && vs[i].position == p {
            let i = choose|i: int| 0 <= i < vs.len() && vs[i].position == p;
            if i < vs.len() - 1 {
                assert(front[i].position == p);
            }
        }
        if exists|i: int| 0 <= i < front.len() && front[i].position == p {
            let i = choose|i: int| 0 <= i < front.len() && front[i].position == p;
            assert(vs[i].position == p);
        }
    }
}

/// Of instances with pairwise distinct positions, inserted in whatever
/// order, each is found at its position afterwards.
pub proof fn lemma_inserted_all_get(state: TreeState, vs: Seq<InstanceView>, i: int)
    requires
        distinct_positions(vs),
        0 <= i < vs.len(),
    ensures
        state.inserted_all(vs).contents.contains_key(vs[i].position),
        state.inserted_all(vs).contents[vs[i].position] == vs[i],
    decreases vs.len(),
{
    let front = vs.drop_last();
    if i < vs.len() - 1 {
        assert(distinct_positions(front)) by {
            assert forall|a: int, b: int| 0 <= a < b < front.len() implies front[a].position
                != front[b].position by {
                assert(vs[a].position != vs[b].position);
            }
        }
        lemma_inserted_all_get(state, front, i);
        assert(vs[i].position != vs.last().position);
    }
}

/// A position at which nothing was stored and nothing is inserted holds
/// nothing afterwards.
pub proof fn lemma_inserted_all_absent(state: TreeState, vs: Seq<InstanceView>, p: Point3)
    requires
        !state.contents.contains_key(p),
        forall|i: int| 0 <= i < vs.len() ==> (#[trigger] vs[i]).position != p,
    ensures
        !state.inserted_all(vs).contents.contains_key(p),
{
    lemma_inserted_all_positions(state, vs, p);
}

/// An insertion changes nothing at any other position, whether the tree
/// grows or not.
pub proof fn lemma_insert_keeps_others(state: TreeState, v: InstanceView, p: Point3)
    requires
        p != v.position,
    ensures
        state.inserted(v).contents.contains_key(p) == state.contents.contains_key(p),
        state.contents.contains_key(p) ==> state.inserted(v).contents[p] == state.contents[p],
{
}

/// The enumeration holds exactly the instances stored at the points of the cube.
pub proof fn lemma_enumeration_contains(state: TreeState, v: InstanceView)
    requires
        state.wf(),
    ensures
        state.enumeration().contains(v) <==> enumerable(state.scope, v.position)
            && state.contents.contains_key(v.position) && state.contents[v.position] == v,
{
    lemma_found_contains(state.contents, scan(state.scope), v);
    if state.enumeration().contains(v) {
        let p = choose|p: Point3|
            scan(state.scope).contains(p) && state.contents.contains_key(p) && state.contents[p]
                == v;
        lemma_scan_contains(state.scope, p);
    }
    if enumerable(state.scope, v.position) && state.contents.contains_key(v.position)
        && state.contents[v.position] == v {
        lemma_scan_contains(state.scope, v.position);
    }
}

/// What the enumeration gave before an insertion that made the tree grow,
/// it gives afterwards too.
pub proof fn lemma_growth_keeps_enumeration(state: TreeState, v: InstanceView, x: InstanceView)
    requires
        state.wf(),
        in_reach(v.position),
        !in_scope(state.scope, v.position),
        state.enumeration().contains(x),
    ensures
        state.inserted(v).enumeration().contains(x),
{
    lemma_inserted_wf(state, v);
    lemma_grown_scope(state.scope, v.position);
    lemma_enumeration_contains(state, x);
    lemma_enumeration_contains(state.inserted(v), x);
}

/// What the enumeration gave before an insertion it gives afterwards too,
/// but for the instance that gave way to the inserted one.
pub proof fn lemma_insert_keeps_enumeration(state: TreeState, v: InstanceView, x: InstanceView)
    requires
        state.wf(),
        in_reach(v.position),
        state.enumeration().contains(x),
        x.position != v.position,
    ensures
        state.inserted(v).enumeration().contains(x),
{
    lemma_inserted_wf(state, v);
    lemma_grown_scope(state.scope, v.position);
    lemma_enumeration_contains(state, x);
    lemma_enumeration_contains(state.inserted(v), x);
}

/// The order of insertion does not matter: two rows of the same instances,
/// with pairwise distinct positions, leave the same instances in the tree.
pub proof fn lemma_order_is_irrelevant(
    state: TreeState,
    vs: Seq<InstanceView>,
    ws: Seq<InstanceView>,
)
    requires
        distinct_positions(vs),
        distinct_positions(ws),
        forall|v: InstanceView| vs.contains(v) <==> ws.contains(v),
    ensures
        state.inserted_all(vs).contents == state.inserted_all(ws).contents,
{
    let a = state.inserted_all(vs).contents;
    let b = state.inserted_all(ws).contents;
    assert forall|p: Point3|
        (#[trigger] a.dom().contains(p)) == b.dom().contains(p) && (a.dom().contains(p) ==> a[p]
            == b[p]) by {
        lemma_inserted_all_positions(state, vs, p);
        lemma_inserted_all_positions(state, ws, p);
        if exists|i: int| 0 <= i < vs.len() && vs[i].position == p {
            let i = choose|i: int| 0 <= i < vs.len() && vs[i].position == p;
            vs.lemma_index_contains(i);
            assert(ws.contains(vs[i]));
            let j = choose|j: int| 0 <= j < ws.len() && ws[j] == vs[i];
            lemma_inserted_all_get(state, vs, i);
            lemma_inserted_all_get(state, ws, j);
        } else if exists|j: int| 0 <= j < ws.len() && ws[j].position == p {
            let j = choose|j: int| 0 <= j < ws.len() && ws[j].position == p;
            ws.lemma_index_contains(j);
            assert(vs.contains(ws[j]));
            let i = choose|i: int| 0 <= i < vs.len() && vs[i] == ws[j];
            assert(vs[i].position == p);
        } else {
            lemma_inserted_all_elsewhere(state, vs, p);
            lemma_inserted_all_elsewhere(state, ws, p);
        }
    }
    assert(a =~= b);
}

/// A row of insertions changes nothing at a position at which none of the
/// inserted instances lies.
pub proof fn lemma_inserted_all_elsewhere(state: TreeState, vs: Seq<InstanceView>, p: Point3)
    requires
        forall|i: int| 0 <= i < vs.len() ==> (#[trigger] vs[i]).position != p,
    ensures
        state.inserted_all(vs).contents.contains_key(p) == state.contents.contains_key(p),
        state.contents.contains_key(p) ==> state.inserted_all(vs).contents[p] == state.contents[p],
    decreases vs.len(),
{
    if vs.len() > 0 {
        let front = vs.drop_last();
        assert forall|i: int| 0 <= i < front.len() implies (#[trigger] front[i]).position != p by {
            assert(vs[i].position != p);
        }
        lemma_inserted_all_elsewhere(state, front, p);
        assert(vs[vs.len() - 1].position != p);
    }
}

/// The enumeration depends on nothing but what the tree holds and its
/// half-extent: two trees that agree in these are enumerated alike.
pub proof fn lemma_enumeration_determined(a: TreeState, b: TreeState)
    requires
        a.contents == b.contents,
        a.scope == b.scope,
    ensures
        a.enumeration() == b.enumeration(),
{
}

/// Of two instances that the enumeration gives, the earlier one lies before
/// the later one in the scan: ascending in z, then y, then x.
pub proof fn lemma_enumeration_ordered(state: TreeState, i: int, j: int)
    requires
        state.wf(),
        0 <= i < j < state.enumeration().len(),
    ensures
        scan_before(state.enumeration()[i].position, state.enumeration()[j].position),
{
    lemma_scan_ordered(state.scope);
    lemma_found_ordered(state.contents, scan(state.scope));
}

} // verus!
