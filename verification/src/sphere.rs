//! The choice between the two points at which a ray's line meets a sphere.

use vstd::prelude::*;
use crate::distance::inside;

verus! {

/// One of the two roots of the intersection equation.
#[derive(Clone, Copy, Debug, PartialEq, Eq, Structural)]
pub enum Root {
    /// The root with the smaller parameter, where the ray enters the sphere.
    Near,
    /// The root with the larger parameter, where the ray leaves the sphere.
    Far,
}

impl Root {
    /// The key of this root, given the keys of both.
    pub open spec fn key(self, near: u64, far: u64) -> u64 {
        match self {
            Root::Near => near,
            Root::Far => far,
        }
    }
}

/// The root that counts as the hit: the near one where it lies strictly inside
/// the interval from `t_min` to `t_max`, otherwise the far one where that one
/// does, otherwise none.
pub open spec fn hit_root(near: u64, far: u64, t_min: u64, t_max: u64) -> Option<Root> {
    if inside(near, t_min, t_max) {
        Some(Root::Near)
    } else if inside(far, t_min, t_max) {
        Some(Root::Far)
    } else {
        None
    }
}

/// Picks the intersection that counts as the hit. Two roots that coincide, as
/// they do where the ray only touches the sphere, give the near root once.
pub fn nearest_root(near: u64, far: u64, t_min: u64, t_max: u64) -> (root: Option<Root>)
    ensures
        root == hit_root(near, far, t_min, t_max),
{
    if t_min < near && near < t_max {
        Some(Root::Near)
    } else if t_min < far && far < t_max {
        Some(Root::Far)
    } else {
        None
    }
}

/// The hit is the nearest intersection inside the interval: where the roots
/// are in order, the one picked lies inside and no root inside lies before it,
/// and none is picked only where neither lies inside.
pub proof fn lemma_hit_root_is_nearest(near: u64, far: u64, t_min: u64, t_max: u64)
    requires
        near <= far,
    ensures
        match hit_root(near, far, t_min, t_max) {
            Some(root) => {
                &&& inside(root.key(near, far), t_min, t_max)
                &&& inside(near, t_min, t_max) ==> root.key(near, far) <= near
                &&& inside(far, t_min, t_max) ==> root.key(near, far) <= far
            },
            None => !inside(near, t_min, t_max) && !inside(far, t_min, t_max),
        },
{
}

/// A ray that only touches the sphere, inside the interval, hits it.
pub proof fn lemma_tangent_is_hit(t: u64, t_min: u64, t_max: u64)
    requires
        inside(t, t_min, t_max),
    ensures
        hit_root(t, t, t_min, t_max) == Some(Root::Near),
{
}

} // verus!
