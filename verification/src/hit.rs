//! Decision logic of ray/primitive intersection.
//!
//! The geometric side of an intersection test — the quadratic, its
//! discriminant and its roots — is floating-point work done by the caller.
//! Which root counts as the hit, and which of several primitives is struck
//! first, depends only on the *order* of the candidate parameters, never on
//! their magnitudes.  The caller therefore hands the parameters over in any
//! order-preserving integer encoding of its parameter axis (for IEEE doubles
//! the usual sign-folded bit pattern), and this module makes the decisions
//! exactly.

use vstd::prelude::*;

verus! {

/// A parameter lies strictly inside the search window: hits exactly at
/// `t_min` or `t_max` do not count.
pub open spec fn strictly_within(t: u64, t_min: u64, t_max: u64) -> bool {
    t_min < t && t < t_max
}

/// The root a sphere intersection reports: the nearer root when it lies
/// strictly inside the window, else the farther root when it does, else
/// nothing.
pub open spec fn chosen_root(near: u64, far: u64, t_min: u64, t_max: u64) -> Option<u64> {
    if strictly_within(near, t_min, t_max) {
        Some(near)
    } else if strictly_within(far, t_min, t_max) {
        Some(far)
    } else {
        None
    }
}

/// Outcome of a sphere intersection test, given the sign of the discriminant
/// and the two candidate roots: a negative discriminant misses outright.
pub open spec fn sphere_hit_outcome(
    disc_nonneg: bool,
    near: u64,
    far: u64,
    t_min: u64,
    t_max: u64,
) -> Option<u64> {
    if disc_nonneg {
        chosen_root(near, far, t_min, t_max)
    } else {
        None
    }
}

/// Decide a sphere intersection.  `disc_nonneg` is whether the discriminant
/// of the intersection quadratic is non-negative; `near` and `far` are its
/// two roots (near first) in the caller's order-preserving encoding.
pub fn sphere_hit(disc_nonneg: bool, near: u64, far: u64, t_min: u64, t_max: u64) -> (hit: Option<
    u64,
>)
    ensures
        hit == sphere_hit_outcome(disc_nonneg, near, far, t_min, t_max),
{
    if !disc_nonneg {
        return None;
    }
    if t_min < near && near < t_max {
        Some(near)
    } else if t_min < far && far < t_max {
        Some(far)
    } else {
        None
    }
}

/// A ray whose intersection quadratic has a negative discriminant misses the
/// sphere, whatever the window.
pub proof fn lemma_negative_discriminant_misses(near: u64, far: u64, t_min: u64, t_max: u64)
    ensures
        sphere_hit_outcome(false, near, far, t_min, t_max) is None,
{
}

/// The search window is open at both ends: a root exactly at `t_min` or
/// exactly at `t_max` is never reported, and if both roots sit on the
/// boundary the test misses.
pub proof fn lemma_boundary_roots_rejected(near: u64, far: u64, t_min: u64, t_max: u64)
    ensures
        sphere_hit_outcome(true, near, far, t_min, t_max) != Some(t_min),
        sphere_hit_outcome(true, near, far, t_min, t_max) != Some(t_max),
        (near == t_min || near == t_max) && (far == t_min || far == t_max)
            ==> sphere_hit_outcome(true, near, far, t_min, t_max) is None,
{
}

/// Running state of the closest-hit scan over a scene.
///
/// The scan asks every primitive in turn for a hit inside the window
/// `(t_min, limit)`, where `limit` starts at the caller's `t_max` and shrinks
/// to the parameter of each hit found, so the hit that survives is the
/// nearest one and ties go to the primitive asked about first.
pub struct NearestHit {
    limit: u64,
    best: Option<usize>,
}

impl NearestHit {
    /// The current exclusive upper bound of the search window.
    pub closed spec fn spec_limit(&self) -> u64 {
        self.limit
    }

    /// The index of the primitive whose hit is nearest so far, if any.
    pub closed spec fn spec_best(&self) -> Option<usize> {
        self.best
    }

    /// Start a scan over the window bounded above by `t_max`.
    pub fn new(t_max: u64) -> (scan: NearestHit)
        ensures
            scan.spec_limit() == t_max,
            scan.spec_best() is None,
    {
        NearestHit { limit: t_max, best: None }
    }

    /// The bound to pass as `t_max` to the next primitive's intersection
    /// test.
    pub fn current_limit(&self) -> (limit: u64)
        ensures
            limit == self.spec_limit(),
    {
        self.limit
    }

    /// Record what the primitive at `index` answered when asked about the
    /// window `(t_min, current_limit())`.  A hit strictly below the current
    /// bound becomes the nearest so far and shrinks the bound to its
    /// parameter; anything else leaves the scan unchanged.
    pub fn observe(&mut self, index: usize, candidate: Option<u64>)
        ensures
            match candidate {
                Some(t) => {
                    if t < old(self).spec_limit() {
                        final(self).spec_limit() == t && final(self).spec_best() == Some(index)
                    } else {
                        *final(self) == *old(self)
                    }
                },
                None => *final(self) == *old(self),
            },
            final(self).spec_limit() <= old(self).spec_limit(),
    {
        if let Some(t) = candidate {
            if t < self.limit {
                self.limit = t;
                self.best = Some(index);
            }
        }
    }

    /// The index of the nearest-hit primitive once the scan is done, or
    /// `None` when nothing was struck.
    pub fn result(&self) -> (best: Option<usize>)
        ensures
            best == self.spec_best(),
    {
        self.best
    }
}

} // verus!
