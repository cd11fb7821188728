//! One source and one target: what the sector decides alone, which ray is
//! needed where it cannot, and what the nearest hit of that ray settles.

use vstd::prelude::*;
use crate::geometry::{Direction, Point, dist_sq};
use crate::registry::{EntityId, TargetRegistry};
use crate::sector::{Sector, SectorOutcome, classify_spec};
use crate::sector::{lemma_beyond_max_distance, lemma_inside_min_distance};

verus! {

/// Where a sensor is and where it faces, in world coordinates.
#[derive(Clone, Copy, Debug, PartialEq, Eq, Structural)]
pub struct Pose {
    pub position: Point,
    pub forward: Direction,
}

/// A sector at its world pose: a light, or the eyes of a watcher.
#[derive(Clone, Copy, Debug)]
pub struct Source {
    pub pose: Pose,
    pub sector: Sector,
}

/// A ray from `origin` through `toward`, to be cast against the scene.
#[derive(Clone, Copy, Debug, PartialEq, Eq, Structural)]
pub struct RayQuery {
    pub origin: Point,
    pub toward: Point,
}

/// What the sector test alone says of a source and a target.
#[derive(Clone, Copy, Debug, PartialEq, Eq, Structural)]
pub enum Probe {
    /// The target is nearer than the near distance: reached, no ray cast.
    Reached,
    /// The target is out of range: not reached, no ray cast.
    Missed,
    /// The target is a candidate: the nearest hit of this ray decides.
    NeedsRay(RayQuery),
}

/// What the scene answers to each ray: the entity of the nearest hit, if
/// the ray hits anything.
pub type SceneOracle = spec_fn(RayQuery) -> Option<EntityId>;

/// Whether the ray caster `cast` answers every ray as `oracle` does: what
/// it may return for a ray is what the scene answers to that ray.
pub open spec fn casts_as<F: Fn(RayQuery) -> Option<EntityId>>(
    cast: F,
    oracle: SceneOracle,
) -> bool {
    forall|ray: RayQuery, hit: Option<EntityId>| #[trigger]
        call_ensures(cast, (ray,), hit) ==> hit == oracle(ray)
}

/// The outcome of the sector test for a source and a target position.
pub open spec fn outcome_spec(source: Source, target: Point) -> SectorOutcome {
    classify_spec(source.pose.position, source.pose.forward, target, source.sector@)
}

/// The ray from a source to a target position.
pub open spec fn ray_between(source: Source, target: Point) -> RayQuery {
    RayQuery { origin: source.pose.position, toward: target }
}

/// The probe of a source and a target position.
pub open spec fn probe_spec(source: Source, target: Point) -> Probe {
    match outcome_spec(source, target) {
        SectorOutcome::WithinCaptureRange => Probe::Reached,
        SectorOutcome::WithinConeCandidate => Probe::NeedsRay(ray_between(source, target)),
        SectorOutcome::OutOfRange => Probe::Missed,
    }
}

/// Whether a source reaches a target, given whether the nearest hit of
/// the ray between them was confirmed. Inside the near distance the hit
/// is not asked for; out of range it does not help.
pub open spec fn reaches(source: Source, target: Point, confirmed: bool) -> bool {
    match outcome_spec(source, target) {
        SectorOutcome::WithinCaptureRange => true,
        SectorOutcome::WithinConeCandidate => confirmed,
        SectorOutcome::OutOfRange => false,
    }
}

impl Source {
    /// Runs the sector test on `target` and says whether it settles the
    /// matter or which ray has to be cast.
    pub fn probe(&self, target: Point) -> (r: Probe)
        ensures
            r == probe_spec(*self, target),
    {
        match self.sector.classify(self.pose.position, self.pose.forward, target) {
            SectorOutcome::WithinCaptureRange => Probe::Reached,
            SectorOutcome::WithinConeCandidate => Probe::NeedsRay(
                RayQuery { origin: self.pose.position, toward: target },
            ),
            SectorOutcome::OutOfRange => Probe::Missed,
        }
    }
}

/// Whether the light `source` reaches `target`, where `nearest_hit` is
/// what a ray cast from the source toward the target struck first.
///
/// The hit counts only for a candidate, and then it must belong to a
/// target of `registry`.
pub fn check_target_within_range(
    source: &Source,
    target: Point,
    nearest_hit: Option<EntityId>,
    registry: &TargetRegistry,
) -> (r: bool)
    ensures
        r == reaches(*source, target, registry.hit_confirmed(nearest_hit)),
{
    match source.probe(target) {
        Probe::Reached => true,
        Probe::Missed => false,
        Probe::NeedsRay(_) => match nearest_hit {
            Some(entity) => registry.confirms(entity),
            None => false,
        },
    }
}

/// Whether the watcher `source` has `target` in sight, where
/// `nearest_hit` is what a ray cast from the watcher toward the target
/// struck first.
///
/// The hit counts only for a candidate, and then it must belong to a
/// target of `registry` that `illuminated` flags.
pub fn check_target_within_sight(
    source: &Source,
    target: Point,
    nearest_hit: Option<EntityId>,
    registry: &TargetRegistry,
    illuminated: &Vec<bool>,
) -> (r: bool)
    ensures
        r == reaches(
            *source,
            target,
            registry.hit_confirmed_illuminated(illuminated@, nearest_hit),
        ),
{
    match source.probe(target) {
        Probe::Reached => true,
        Probe::Missed => false,
        Probe::NeedsRay(_) => match nearest_hit {
            Some(entity) => registry.confirms_illuminated(illuminated, entity),
            None => false,
        },
    }
}

/// A source never reaches a target at its far distance or beyond,
/// whatever the angle and whatever the ray struck.
pub proof fn lemma_never_reaches_beyond_max(source: Source, target: Point, confirmed: bool)
    requires
        source.sector@.valid(),
        dist_sq(source.pose.position, target) >= source.sector@.max_distance
            * source.sector@.max_distance,
    ensures
        !reaches(source, target, confirmed),
        probe_spec(source, target) == Probe::Missed,
{
    lemma_beyond_max_distance(source.pose.position, source.pose.forward, target, source.sector@);
}

/// A source always reaches a target nearer than its near distance,
/// whatever the angle and whatever the ray struck.
pub proof fn lemma_always_reaches_inside_min(source: Source, target: Point, confirmed: bool)
    requires
        dist_sq(source.pose.position, target) < source.sector@.min_distance
            * source.sector@.min_distance,
    ensures
        reaches(source, target, confirmed),
        probe_spec(source, target) == Probe::Reached,
{
    lemma_inside_min_distance(source.pose.position, source.pose.forward, target, source.sector@);
}

/// A candidate is reached exactly when the nearest hit is confirmed: an
/// occluder that the ray strikes first, or a ray that strikes nothing,
/// leaves it unreached.
pub proof fn lemma_candidate_needs_confirmed_hit(
    source: Source,
    target: Point,
    registry: TargetRegistry,
    hit: Option<EntityId>,
)
    requires
        outcome_spec(source, target) == SectorOutcome::WithinConeCandidate,
    ensures
        reaches(source, target, registry.hit_confirmed(hit)) <==> (hit matches Some(entity)
            && registry.owned(entity)),
        hit is None ==> !reaches(source, target, registry.hit_confirmed(hit)),
{
}

} // verus!
