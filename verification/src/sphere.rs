//! Which of the two intersections of a ray with a sphere counts as the hit.

use vstd::prelude::*;
use crate::hittable::{cut_at, Interval};

verus! {

/// The two distances at which a ray's line meets a sphere, as codes, the
/// nearer one in `near`.
#[derive(Debug, Clone, Copy, PartialEq, Eq, Structural)]
pub struct Roots {
    pub near: u32,
    pub far: u32,
}

/// The hit of a sphere inside `range`: the nearer root if it lies inside,
/// else the farther root if that one does, else none. A line that passes
/// the sphere by has no roots and gives no hit.
pub open spec fn hit_of(range: Interval, roots: Option<Roots>) -> Option<u32> {
    match roots {
        Some(roots) => if range.holds(roots.near) {
            Some(roots.near)
        } else if range.holds(roots.far) {
            Some(roots.far)
        } else {
            None
        },
        None => None,
    }
}

/// Selects the root at which the sphere is hit inside `range`.
pub fn select_root(range: &Interval, roots: Option<Roots>) -> (hit: Option<u32>)
    ensures
        hit == hit_of(*range, roots),
{
    match roots {
        Some(roots) => if range.contains(roots.near) {
            Some(roots.near)
        } else if range.contains(roots.far) {
            Some(roots.far)
        } else {
            None
        },
        None => None,
    }
}

/// With the roots in order, the hit is the nearest root inside the
/// interval, and there is a hit whenever a root lies inside.
pub proof fn lemma_hit_is_nearest_root(range: Interval, roots: Roots)
    requires
        roots.near <= roots.far,
    ensures
        match hit_of(range, Some(roots)) {
            Some(t) => {
                &&& t == roots.near || t == roots.far
                &&& range.holds(t)
                &&& range.holds(roots.near) ==> t <= roots.near
                &&& range.holds(roots.far) ==> t <= roots.far
            },
            None => !range.holds(roots.near) && !range.holds(roots.far),
        },
{
}

/// Shortening the interval from its far end never makes a sphere answer
/// with its other root: the sphere gives the hit that it has in the longer
/// interval if that hit is still inside, and none otherwise. This is what
/// a search that shortens the interval at every hit asks of a surface.
pub proof fn lemma_shorter_interval_same_root(range: Interval, shorter: Interval, roots: Option<Roots>)
    requires
        shorter.min == range.min,
        shorter.max <= range.max,
        roots matches Some(r) ==> r.near <= r.far,
    ensures
        hit_of(shorter, roots) == cut_at(hit_of(range, roots), shorter.max),
{
}

} // verus!
