//! The closest-hit reduction over the objects of a scene.
//!
//! A ray meets each object at some parameter along the ray, or misses it. The
//! reduction reads those parameters by their keys and picks the object that
//! the ray meets first.

use vstd::prelude::*;
use crate::distance::inside;

verus! {

/// Whether a hit counts: the ray meets the object, at a parameter strictly
/// inside the interval from `t_min` to `t_max`.
pub open spec fn accepted(hit: Option<u64>, t_min: u64, t_max: u64) -> bool {
    hit matches Some(t) && inside(t, t_min, t_max)
}

/// Whether any object of the scene is hit inside the interval.
pub open spec fn any_accepted(hits: Seq<Option<u64>>, t_min: u64, t_max: u64) -> bool {
    exists|i: int| 0 <= i < hits.len() && accepted(#[trigger] hits[i], t_min, t_max)
}

/// Whether object `k` is the one that the ray meets first: its hit counts, no
/// hit that counts is nearer, and every earlier object's is strictly farther.
pub open spec fn is_closest(hits: Seq<Option<u64>>, t_min: u64, t_max: u64, k: int) -> bool {
    &&& 0 <= k < hits.len()
    &&& accepted(hits[k], t_min, t_max)
    &&& forall|i: int|
        0 <= i < hits.len() && accepted(#[trigger] hits[i], t_min, t_max) ==> hits[k].unwrap()
            <= hits[i].unwrap()
    &&& forall|i: int|
        0 <= i < k && accepted(#[trigger] hits[i], t_min, t_max) ==> hits[k].unwrap()
            < hits[i].unwrap()
}

/// Scans the objects' hits in order and returns the index of the closest one
/// inside the interval from `t_min` to `t_max`, both ends excluded. The upper
/// end of the interval shrinks to each hit that is taken, so a later object
/// replaces an earlier one only where it is strictly nearer. Returns nothing
/// when no object is hit inside the interval.
pub fn closest_hit(hits: &Vec<Option<u64>>, t_min: u64, t_max: u64) -> (winner: Option<usize>)
    ensures
        winner is Some <==> any_accepted(hits@, t_min, t_max),
        winner matches Some(k) ==> is_closest(hits@, t_min, t_max, k as int),
{
    let mut winner: Option<usize> = None;
    let mut closest_so_far: u64 = t_max;
    let mut i: usize = 0;
    while i < hits.len()
        invariant
            i <= hits@.len(),
            closest_so_far <= t_max,
            winner is None ==> closest_so_far == t_max && forall|j: int|
                0 <= j < i ==> !accepted(#[trigger] hits@[j], t_min, t_max),
            winner matches Some(k) ==> k < i && hits@[k as int] == Some(closest_so_far)
                && is_closest(hits@.take(i as int), t_min, t_max, k as int),
        decreases hits@.len() - i,
    {
        match hits[i] {
            Some(t) => {
                if t_min < t && t < closest_so_far {
                    winner = Some(i);
                    closest_so_far = t;
                }
            },
            None => {},
        }
        i = i + 1;
    }
    proof {
        assert(hits@.take(i as int) =~= hits@);
    }
    winner
}

/// The closest hit does not depend on the order of the objects: two scenes
/// that hold the same hits, in whatever order, agree on whether the ray hits
/// anything and on the parameter of the closest hit.
pub proof fn lemma_closest_ignores_order(
    a: Seq<Option<u64>>,
    b: Seq<Option<u64>>,
    t_min: u64,
    t_max: u64,
)
    requires
        a.to_multiset() == b.to_multiset(),
    ensures
        any_accepted(a, t_min, t_max) <==> any_accepted(b, t_min, t_max),
        forall|ka: int, kb: int|
            is_closest(a, t_min, t_max, ka) && is_closest(b, t_min, t_max, kb) ==> a[ka] == b[kb],
{
    lemma_same_hits(a, b);
    lemma_same_hits(b, a);
    assert forall|ka: int, kb: int|
        is_closest(a, t_min, t_max, ka) && is_closest(b, t_min, t_max, kb) implies a[ka]
        == b[kb] by {
        assert(b.contains(a[ka]));
        assert(a.contains(b[kb]));
        let ja = choose|j: int| 0 <= j < b.len() && b[j] == a[ka];
        let jb = choose|j: int| 0 <= j < a.len() && a[j] == b[kb];
        assert(accepted(b[ja], t_min, t_max));
        assert(accepted(a[jb], t_min, t_max));
    }
    if any_accepted(a, t_min, t_max) {
        let i = choose|i: int| 0 <= i < a.len() && accepted(#[trigger] a[i], t_min, t_max);
        assert(b.contains(a[i]));
        let j = choose|j: int| 0 <= j < b.len() && b[j] == a[i];
        assert(accepted(b[j], t_min, t_max));
    }
    if any_accepted(b, t_min, t_max) {
        let i = choose|i: int| 0 <= i < b.len() && accepted(#[trigger] b[i], t_min, t_max);
        assert(a.contains(b[i]));
        let j = choose|j: int| 0 <= j < a.len() && a[j] == b[i];
        assert(accepted(a[j], t_min, t_max));
    }
}

/// Every hit of `a` occurs in `b` where the two hold the same hits.
proof fn lemma_same_hits(a: Seq<Option<u64>>, b: Seq<Option<u64>>)
    requires
        a.to_multiset() == b.to_multiset(),
    ensures
        forall|i: int| 0 <= i < a.len() ==> b.contains(#[trigger] a[i]),
{
    assert forall|i: int| 0 <= i < a.len() implies b.contains(#[trigger] a[i]) by {
        a.to_multiset_ensures();
        b.to_multiset_ensures();
        assert(a.contains(a[i]));
        assert(a.to_multiset().count(a[i]) > 0);
    }
}

} // verus!
