//! The order in which the lattice points of a cube are scanned, and what a
//! scan finds in a tree.
use crate::instance::InstanceView;
use crate::oc_tree::scope::enumerable;
use crate::point::Point3;
use vstd::prelude::*;

verus! {

/// The lattice point with the given coordinates.
pub open spec fn lattice(x: int, y: int, z: int) -> Point3 {
    Point3 { x: x as i32, y: y as i32, z: z as i32 }
}

/// The points `(x, y, z)`, `(x + 1, y, z)`, and so on up to the edge of the
/// cube of half-extent `scope`.
pub open spec fn row(scope: int, y: int, z: int, x: int) -> Seq<Point3>
    decreases scope - x,
{
    if x >= scope {
        Seq::empty()
    } else {
        seq![lattice(x, y, z)] + row(scope, y, z, x + 1)
    }
}

/// The rows `y`, `y + 1`, and so on of the plane at height `z`, one after the other.
pub open spec fn plane(scope: int, z: int, y: int) -> Seq<Point3>
    decreases scope - y,
{
    if y >= scope {
        Seq::empty()
    } else {
        row(scope, y, z, -scope) + plane(scope, z, y + 1)
    }
}

/// The planes `z`, `z + 1`, and so on of the cube, one after the other.
pub open spec fn cube(scope: int, z: int) -> Seq<Point3>
    decreases scope - z,
{
    if z >= scope {
        Seq::empty()
    } else {
        plane(scope, z, -scope) + cube(scope, z + 1)
    }
}

/// Every lattice point with all coordinates from `-scope` up to `scope - 1`:
/// x runs fastest, then y, and z slowest, each ascending.
pub open spec fn scan(scope: nat) -> Seq<Point3> {
    cube(scope as int, -(scope as int))
}

/// Where a counter stands before it has given a point: one step before the
/// first point of the scan.
pub open spec fn scan_start(scope: nat) -> Point3 {
    lattice(-(scope as int) - 1, -(scope as int), -(scope as int))
}

/// What is left of the scan once it has given `pos`.
pub open spec fn scan_after(scope: nat, pos: Point3) -> Seq<Point3> {
    row(scope as int, pos.y as int, pos.z as int, pos.x + 1) + plane(
        scope as int,
        pos.z as int,
        pos.y + 1,
    ) + cube(scope as int, pos.z + 1)
}

/// The positions at which `contents` holds an instance.
pub open spec fn present(contents: Map<Point3, InstanceView>) -> spec_fn(Point3) -> bool {
    |p: Point3| contents.contains_key(p)
}

/// The instance that `contents` holds at a position.
pub open spec fn lookup(contents: Map<Point3, InstanceView>) -> spec_fn(Point3) -> InstanceView {
    |p: Point3| contents[p]
}

/// The instances that `contents` holds at the points of `points`, in their order.
pub open spec fn found(contents: Map<Point3, InstanceView>, points: Seq<Point3>) -> Seq<
    InstanceView,
> {
    points.filter(present(contents)).map_values(lookup(contents))
}

/// `k` is the place of the first of `points` at which `contents` holds an
/// instance.
pub open spec fn first_present(contents: Map<Point3, InstanceView>, points: Seq<Point3>, k: int) -> bool {
    &&& 0 <= k < points.len()
    &&& contents.contains_key(points[k])
    &&& forall|j: int| 0 <= j < k ==> !contents.contains_key(#[trigger] points[j])
}

/// What is found from a point on is that point's instance, where there is
/// one, and then what is found from the rest.
pub proof fn lemma_found_step(contents: Map<Point3, InstanceView>, points: Seq<Point3>)
    requires
        points.len() > 0,
    ensures
        found(contents, points) == (if contents.contains_key(points[0]) {
            seq![contents[points[0]]]
        } else {
            Seq::empty()
        }) + found(contents, points.drop_first()),
{
    let rest = points.drop_first();
    assert(points =~= seq![points[0]] + rest);
    rest.lemma_filter_prepend(points[0], present(contents));
    assert(found(contents, points) =~= (if contents.contains_key(points[0]) {
        seq![contents[points[0]]]
    } else {
        Seq::empty()
    }) + found(contents, rest));
}

/// A row holds the points of its line from `x` up to the edge.
pub proof fn lemma_row_contains(scope: int, y: int, z: int, x: int, p: Point3)
    requires
        -0x8000_0000 <= x,
        scope <= 0x8000_0000,
        -0x8000_0000 <= y < 0x8000_0000,
        -0x8000_0000 <= z < 0x8000_0000,
    ensures
        row(scope, y, z, x).contains(p) <==> p.y == y && p.z == z && x <= p.x < scope,
    decreases scope - x,
{
    if x < scope {
        let head = seq![lattice(x, y, z)];
        lemma_row_contains(scope, y, z, x + 1, p);
        vstd::seq_lib::lemma_seq_concat_contains_all_elements(head, row(scope, y, z, x + 1), p);
        if p == lattice(x, y, z) {
            assert(head[0] == p);
        }
    }
}

/// A plane holds the points of its height in the rows from `y` up to the edge.
pub proof fn lemma_plane_contains(scope: int, z: int, y: int, p: Point3)
    requires
        0 <= scope <= 0x8000_0000,
        -0x8000_0000 <= y,
        -0x8000_0000 <= z < 0x8000_0000,
    ensures
        plane(scope, z, y).contains(p) <==> p.z == z && y <= p.y < scope && -scope <= p.x < scope,
    decreases scope - y,
{
    if y < scope {
        lemma_row_contains(scope, y, z, -scope, p);
        lemma_plane_contains(scope, z, y + 1, p);
        vstd::seq_lib::lemma_seq_concat_contains_all_elements(
            row(scope, y, z, -scope),
            plane(scope, z, y + 1),
            p,
        );
    }
}

/// The planes from `z` up hold the points of the cube at these heights.
pub proof fn lemma_cube_contains(scope: int, z: int, p: Point3)
    requires
        0 <= scope <= 0x8000_0000,
        -0x8000_0000 <= z,
    ensures
        cube(scope, z).contains(p) <==> z <= p.z < scope && -scope <= p.y < scope && -scope <= p.x
            < scope,
    decreases scope - z,
{
    if z < scope {
        lemma_plane_contains(scope, z, -scope, p);
        lemma_cube_contains(scope, z + 1, p);
        vstd::seq_lib::lemma_seq_concat_contains_all_elements(
            plane(scope, z, -scope),
            cube(scope, z + 1),
            p,
        );
    }
}

/// The scan passes exactly the points of the cube.
pub proof fn lemma_scan_contains(scope: nat, p: Point3)
    requires
        scope <= 0x8000_0000,
    ensures
        scan(scope).contains(p) <==> enumerable(scope, p),
{
    lemma_cube_contains(scope as int, -(scope as int), p);
}

/// What is found holds exactly the instances stored at the points given.
pub proof fn lemma_found_contains(
    contents: Map<Point3, InstanceView>,
    points: Seq<Point3>,
    v: InstanceView,
)
    ensures
        found(contents, points).contains(v) <==> exists|p: Point3|
            points.contains(p) && contents.contains_key(p) && contents[p] == v,
{
    let kept = points.filter(present(contents));
    if found(contents, points).contains(v) {
        let i = choose|i: int| 0 <= i < found(contents, points).len() && found(contents, points)[i] == v;
        kept.lemma_index_contains(i);
        points.lemma_filter_contains_rev(present(contents), kept[i]);
        points.lemma_filter_pred(present(contents), i);
        assert(points.contains(kept[i]) && contents.contains_key(kept[i]) && contents[kept[i]] == v);
    }
    if exists|p: Point3| points.contains(p) && contents.contains_key(p) && contents[p] == v {
        let p = choose|p: Point3| points.contains(p) && contents.contains_key(p) && contents[p] == v;
        let i = choose|i: int| 0 <= i < points.len() && points[i] == p;
        points.lemma_filter_contains(present(contents), i);
        let j = choose|j: int| 0 <= j < kept.len() && kept[j] == p;
        assert(found(contents, points)[j] == v);
    }
}

/// `p` comes before `q` in the scan: lower in z, or level in z and lower in
/// y, or level in both and lower in x.
pub open spec fn scan_before(p: Point3, q: Point3) -> bool {
    p.z < q.z || (p.z == q.z && (p.y < q.y || (p.y == q.y && p.x < q.x)))
}

/// The points of a sequence stand in the order of the scan.
pub open spec fn points_ordered(points: Seq<Point3>) -> bool {
    forall|i: int, j: int| 0 <= i < j < points.len() ==> scan_before(points[i], points[j])
}

/// Two ordered sequences, each point of the first before each of the second,
/// are ordered one after the other.
proof fn lemma_ordered_add(a: Seq<Point3>, b: Seq<Point3>)
    requires
        points_ordered(a),
        points_ordered(b),
        forall|i: int, j: int| 0 <= i < a.len() && 0 <= j < b.len() ==> scan_before(a[i], b[j]),
    ensures
        points_ordered(a + b),
{
}

/// A row is ordered.
proof fn lemma_row_ordered(scope: int, y: int, z: int, x: int)
    requires
        -0x8000_0000 <= x,
        scope <= 0x8000_0000,
        -0x8000_0000 <= y < 0x8000_0000,
        -0x8000_0000 <= z < 0x8000_0000,
    ensures
        points_ordered(row(scope, y, z, x)),
    decreases scope - x,
{
    if x < scope {
        let head = seq![lattice(x, y, z)];
        let rest = row(scope, y, z, x + 1);
        lemma_row_ordered(scope, y, z, x + 1);
        assert forall|i: int, j: int| 0 <= i < head.len() && 0 <= j < rest.len() implies scan_before(
            head[i],
            rest[j],
        ) by {
            rest.lemma_index_contains(j);
            lemma_row_contains(scope, y, z, x + 1, rest[j]);
        }
        lemma_ordered_add(head, rest);
    }
}

/// A plane is ordered.
proof fn lemma_plane_ordered(scope: int, z: int, y: int)
    requires
        0 <= scope <= 0x8000_0000,
        -0x8000_0000 <= y,
        -0x8000_0000 <= z < 0x8000_0000,
    ensures
        points_ordered(plane(scope, z, y)),
    decreases scope - y,
{
    if y < scope {
        let head = row(scope, y, z, -scope);
        let rest = plane(scope, z, y + 1);
        lemma_row_ordered(scope, y, z, -scope);
        lemma_plane_ordered(scope, z, y + 1);
        assert forall|i: int, j: int| 0 <= i < head.len() && 0 <= j < rest.len() implies scan_before(
            head[i],
            rest[j],
        ) by {
            head.lemma_index_contains(i);
            rest.lemma_index_contains(j);
            lemma_row_contains(scope, y, z, -scope, head[i]);
            lemma_plane_contains(scope, z, y + 1, rest[j]);
        }
        lemma_ordered_add(head, rest);
    }
}

/// The planes of a cube, one after the other, are ordered.
proof fn lemma_cube_ordered(scope: int, z: int)
    requires
        0 <= scope <= 0x8000_0000,
        -0x8000_0000 <= z,
    ensures
        points_ordered(cube(scope, z)),
    decreases scope - z,
{
    if z < scope {
        let head = plane(scope, z, -scope);
        let rest = cube(scope, z + 1);
        lemma_plane_ordered(scope, z, -scope);
        lemma_cube_ordered(scope, z + 1);
        assert forall|i: int, j: int| 0 <= i < head.len() && 0 <= j < rest.len() implies scan_before(
            head[i],
            rest[j],
        ) by {
            head.lemma_index_contains(i);
            rest.lemma_index_contains(j);
            lemma_plane_contains(scope, z, -scope, head[i]);
            lemma_cube_contains(scope, z + 1, rest[j]);
        }
        lemma_ordered_add(head, rest);
    }
}

/// The scan passes its points in ascending order, and so each of them once.
pub proof fn lemma_scan_ordered(scope: nat)
    requires
        scope <= 0x8000_0000,
    ensures
        points_ordered(scan(scope)),
{
    lemma_cube_ordered(scope as int, -(scope as int));
}

/// What is found at ordered points, in a tree that stores each instance at
/// its own position, is ordered by position.
pub proof fn lemma_found_ordered(contents: Map<Point3, InstanceView>, points: Seq<Point3>)
    requires
        points_ordered(points),
        forall|p: Point3| #[trigger] contents.contains_key(p) ==> contents[p].position == p,
    ensures
        forall|i: int, j: int|
            0 <= i < j < found(contents, points).len() ==> scan_before(
                (#[trigger] found(contents, points)[i]).position,
                (#[trigger] found(contents, points)[j]).position,
            ),
    decreases points.len(),
{
    if points.len() > 0 {
        let rest = points.drop_first();
        let all = found(contents, points);
        let tail = found(contents, rest);
        lemma_found_step(contents, points);
        assert(points_ordered(rest)) by {
            assert forall|i: int, j: int| 0 <= i < j < rest.len() implies scan_before(
                rest[i],
                rest[j],
            ) by {
                assert(scan_before(points[i + 1], points[j + 1]));
            }
        }
        lemma_found_ordered(contents, rest);
        assert forall|i: int, j: int| 0 <= i < j < all.len() implies scan_before(
            (#[trigger] all[i]).position,
            (#[trigger] all[j]).position,
        ) by {
            if contents.contains_key(points[0]) {
                assert(all =~= seq![contents[points[0]]] + tail);
                if i == 0 {
                    tail.lemma_index_contains(j - 1);
                    lemma_found_contains(contents, rest, tail[j - 1]);
                    let q = choose|q: Point3|
                        rest.contains(q) && contents.contains_key(q) && contents[q] == tail[j - 1];
                    let k = choose|k: int| 0 <= k < rest.len() && rest[k] == q;
                    assert(scan_before(points[0], points[k + 1]));
                } else {
                    assert(all[i] == tail[i - 1] && all[j] == tail[j - 1]);
                }
            } else {
                assert(all =~= tail);
            }
        }
    }
}

} // verus!
