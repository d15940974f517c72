//! Half-extents: which points a tree of a given half-extent takes, and how
//! far a tree grows for a point that it does not take.
use crate::point::Point3;
use vstd::prelude::*;

verus! {

/// The largest half-extent of a tree: with it the root cell spans every
/// coordinate that an `i32` can hold.
pub const MAX_SCOPE: usize = 0x4000_0000;

/// The powers of two.
pub open spec fn is_pow2(n: nat) -> bool
    decreases n,
{
    n == 1 || (n >= 2 && n % 2 == 0 && is_pow2(n / 2))
}

/// Zero, or a power of two: the half-extents of trees, and the offsets that
/// their nodes are handed.
pub open spec fn zero_or_pow2(offset: nat) -> bool {
    offset == 0 || is_pow2(offset)
}

/// A tree of half-extent `scope` takes `p` without growing: every coordinate
/// lies above `-scope` and at most at `scope`.
pub open spec fn in_scope(scope: nat, p: Point3) -> bool {
    &&& -scope < p.x <= scope
    &&& -scope < p.y <= scope
    &&& -scope < p.z <= scope
}

/// The scan of a tree of half-extent `scope` passes `p`: every coordinate
/// lies from `-scope` up to `scope - 1`.
pub open spec fn enumerable(scope: nat, p: Point3) -> bool {
    &&& -scope <= p.x < scope
    &&& -scope <= p.y < scope
    &&& -scope <= p.z < scope
}

/// The points that the largest tree takes.
pub open spec fn in_reach(p: Point3) -> bool {
    in_scope(MAX_SCOPE as nat, p)
}

/// `scope` is the least power of two that is at least `min_scope`; for zero
/// it is zero.
pub open spec fn is_scope_for(scope: nat, min_scope: nat) -> bool {
    if min_scope == 0 {
        scope == 0
    } else {
        &&& is_pow2(scope)
        &&& min_scope <= scope
        &&& forall|q: nat| is_pow2(q) && min_scope <= q ==> scope <= q
    }
}

/// The half-extent after one step of growth: twice the old, and one from zero.
pub open spec fn next_scope(scope: nat) -> nat {
    if scope == 0 {
        1
    } else {
        2 * scope
    }
}

/// The half-extent at which growth stops for `p`: the first, counting from
/// `scope` in steps of growth, that takes `p`.
pub open spec fn grown_scope(scope: nat, p: Point3) -> nat
    decreases
        (if scope < MAX_SCOPE {
            MAX_SCOPE - scope
        } else {
            0
        }),
{
    if in_scope(scope, p) || scope >= MAX_SCOPE {
        scope
    } else {
        grown_scope(next_scope(scope), p)
    }
}

/// Of two powers of two the larger is at least twice the smaller.
pub proof fn lemma_pow2_gap(a: nat, b: nat)
    requires
        is_pow2(a),
        is_pow2(b),
        a < b,
    ensures
        2 * a <= b,
    decreases b,
{
    if a > 1 {
        lemma_pow2_gap(a / 2, b / 2);
    }
}

/// The largest half-extent is a power of two.
pub proof fn lemma_max_scope_pow2()
    ensures
        is_pow2(MAX_SCOPE as nat),
{
    reveal_with_fuel(is_pow2, 31);
}

/// Twice a power of two is a power of two, and twice zero is zero.
pub proof fn lemma_double_pow2(offset: nat)
    requires
        zero_or_pow2(offset),
    ensures
        zero_or_pow2(2 * offset),
{
    reveal_with_fuel(is_pow2, 2);
}

/// Growth stops at a half-extent that takes the point, is not below the old
/// one, and is the old one where that already takes the point.
pub proof fn lemma_grown_scope(scope: nat, p: Point3)
    requires
        zero_or_pow2(scope),
        scope <= MAX_SCOPE,
        in_reach(p),
    ensures
        scope <= grown_scope(scope, p) <= MAX_SCOPE,
        zero_or_pow2(grown_scope(scope, p)),
        in_scope(grown_scope(scope, p), p),
        in_scope(scope, p) ==> grown_scope(scope, p) == scope,
    decreases MAX_SCOPE - scope,
{
    if !in_scope(scope, p) {
        lemma_max_scope_pow2();
        if scope > 0 {
            lemma_pow2_gap(scope, MAX_SCOPE as nat);
        }
        lemma_double_pow2(scope);
        reveal_with_fuel(is_pow2, 2);
        lemma_grown_scope(next_scope(scope), p);
    }
}

} // verus!
