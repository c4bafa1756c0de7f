//! The decisions of the recursive radiance estimate along one ray.
//!
//! The estimate of a ray with a bounce budget `depth` is black when the
//! budget is spent; otherwise the ray is intersected with the scene and the
//! result is the background gradient on a miss, black when the hit surface
//! absorbs the ray, and otherwise the surface's attenuation times the
//! estimate of the scattered ray with one bounce less.
use vstd::prelude::*;

verus! {

/// What the scene and the hit surface did with a ray.
#[derive(Clone, Copy, Debug, PartialEq, Eq, Structural)]
pub enum SurfaceResponse {
    /// No object was hit in the valid window.
    Missed,
    /// An object was hit and its material produced no outgoing ray.
    Absorbed,
    /// An object was hit and its material produced an outgoing ray.
    Scattered,
}

/// What the estimate of a ray becomes.
#[derive(Clone, Copy, Debug, PartialEq, Eq, Structural)]
pub enum PathStep {
    /// Exactly black.
    Black,
    /// The background gradient of the ray's direction.
    Background,
    /// The attenuation times the estimate of the scattered ray, traced with
    /// the budget `depth`.
    Bounce { depth: i32 },
}

/// Whether a ray with this budget is traced at all.
pub open spec fn has_budget(depth: i32) -> bool {
    depth > 0
}

pub open spec fn step_spec(depth: i32, response: SurfaceResponse) -> PathStep {
    if !has_budget(depth) {
        PathStep::Black
    } else {
        match response {
            SurfaceResponse::Missed => PathStep::Background,
            SurfaceResponse::Absorbed => PathStep::Black,
            SurfaceResponse::Scattered => PathStep::Bounce { depth: (depth - 1) as i32 },
        }
    }
}

/// Whether the ray must be intersected with the scene: only while bounces
/// remain. With no budget left the estimate is black, whatever the scene.
pub fn may_trace(depth: i32) -> (r: bool)
    ensures
        r == has_budget(depth),
{
    depth > 0
}

/// The estimate of a ray traced with budget `depth`, given what the scene
/// did with it. With no budget left the response is not consulted.
pub fn next_step(depth: i32, response: SurfaceResponse) -> (r: PathStep)
    ensures
        r == step_spec(depth, response),
        depth <= 0 ==> r == PathStep::Black,
{
    if depth <= 0 {
        return PathStep::Black;
    }
    match response {
        SurfaceResponse::Missed => PathStep::Background,
        SurfaceResponse::Absorbed => PathStep::Black,
        SurfaceResponse::Scattered => PathStep::Bounce { depth: depth - 1 },
    }
}

/// The number of bounces made by a ray traced with budget `depth` when the
/// surfaces it meets respond, in turn, as `responses` says.
pub open spec fn bounces(depth: i32, responses: Seq<SurfaceResponse>) -> nat
    decreases responses.len(),
{
    if responses.len() == 0 {
        0
    } else {
        match step_spec(depth, responses[0]) {
            PathStep::Bounce { depth: d } => 1 + bounces(d, responses.drop_first()),
            _ => 0,
        }
    }
}

/// The recursion is bounded by the budget: whatever the scene does with the
/// rays, a path traced with budget `depth` bounces at most `depth` times,
/// and not at all when `depth <= 0`.
pub proof fn lemma_bounces_within_budget(depth: i32, responses: Seq<SurfaceResponse>)
    ensures
        bounces(depth, responses) <= if depth > 0 { depth as int } else { 0 },
    decreases responses.len(),
{
    if responses.len() > 0 {
        match step_spec(depth, responses[0]) {
            PathStep::Bounce { depth: d } => {
                lemma_bounces_within_budget(d, responses.drop_first());
            },
            _ => {},
        }
    }
}

} // verus!
