//! Control decisions of the light-transport integrator.
//!
//! Following a ray through the scene alternates two kinds of work: the
//! floating-point work of querying the scene and scattering off a material,
//! which the caller does, and the exact decisions of the integrator — is
//! there bounce budget left, and what does each surface interaction mean for
//! the path.  The decisions live here; the caller runs the loop, multiplying
//! attenuations as each [`TraceStep::Bounce`] instructs.
//!
//! The types are generic over the caller's color type `C` and ray type `R`;
//! this module never looks inside either.

use vstd::prelude::*;

verus! {

/// What the scene answered when a ray was cast into it.
pub enum SurfaceEvent<C, R> {
    /// The ray struck nothing; the payload is the background radiance the
    /// caller computed from the ray's direction.
    Escaped(C),
    /// The ray struck a surface whose material swallowed it.
    Absorbed,
    /// The ray struck a surface that scattered it: the attenuation of the
    /// bounce and the outgoing ray.
    Scattered(C, R),
}

/// What the integrator does next with a path.
pub enum TraceStep<C, R> {
    /// The path ends in the sky: the result is the background radiance,
    /// scaled by every attenuation picked up on the way.
    Sky(C),
    /// The path ends dark: the bounce budget ran out or the ray was
    /// absorbed, and no light is gathered.
    Black,
    /// The path goes on: multiply the accumulated attenuation by the first
    /// payload and follow the ray at the given remaining depth.
    Bounce(C, R, i32),
}

/// What the integrator decides for a path that still had budget: escape
/// ends the path in the sky, absorption ends it dark, and a scatter
/// continues it with one bounce less to spend.
pub open spec fn step_decision<C, R>(depth: int, event: SurfaceEvent<C, R>) -> TraceStep<C, R>
    recommends
        depth >= 1,
{
    match event {
        SurfaceEvent::Escaped(background) => TraceStep::Sky(background),
        SurfaceEvent::Absorbed => TraceStep::Black,
        SurfaceEvent::Scattered(attenuation, ray) => TraceStep::Bounce(
            attenuation,
            ray,
            (depth - 1) as i32,
        ),
    }
}

/// Whether a path at `depth` remaining bounces may query the scene at all.
/// A path whose budget is exhausted gathers no light and must not be cast.
pub fn budget_remaining(depth: i32) -> (more: bool)
    ensures
        more == (depth > 0),
{
    depth > 0
}

/// Decide what a surface interaction means for a path that still had
/// budget.
pub fn trace_step<C, R>(depth: i32, event: SurfaceEvent<C, R>) -> (step: TraceStep<C, R>)
    requires
        depth >= 1,
    ensures
        step == step_decision(depth as int, event),
{
    match event {
        SurfaceEvent::Escaped(background) => TraceStep::Sky(background),
        SurfaceEvent::Absorbed => TraceStep::Black,
        SurfaceEvent::Scattered(attenuation, ray) => TraceStep::Bounce(attenuation, ray, depth - 1),
    }
}

/// Bounces a path takes when the integrator's decisions are driven by a
/// given run of scene answers: the path follows each `Bounce` with the
/// budget the decision hands back, and stops at any other step or when the
/// budget or the run is exhausted.
pub open spec fn bounces_taken<C, R>(depth: int, events: Seq<SurfaceEvent<C, R>>) -> int
    decreases events.len(),
{
    if depth <= 0 || events.len() == 0 {
        0
    } else {
        match step_decision(depth, events[0]) {
            TraceStep::Bounce(_, _, next) => 1 + bounces_taken(
                next as int,
                events.drop_first(),
            ),
            _ => 0,
        }
    }
}

/// The bounce budget is the sole bound on a path's length: however the
/// scene answers, a path begun with `depth` bounces of budget scatters at
/// most `depth` times, and a path begun with no budget scatters never.
pub proof fn lemma_budget_bounds_path<C, R>(depth: int, events: Seq<SurfaceEvent<C, R>>)
    requires
        depth <= i32::MAX,
    ensures
        0 <= bounces_taken(depth, events),
        depth >= 0 ==> bounces_taken(depth, events) <= depth,
        depth <= 0 ==> bounces_taken(depth, events) == 0,
    decreases events.len(),
{
    if depth > 0 && events.len() > 0 {
        lemma_budget_bounds_path(depth - 1, events.drop_first());
    }
}

} // verus!
