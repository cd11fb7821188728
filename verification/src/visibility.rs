//! The visibility pass: for every watcher and every target, whether the
//! target is dark, lit but out of sight, or seen.
//!
//! It runs on the flags of a complete illumination pass and never sets
//! one itself. Like that pass it is a state machine that asks its driver
//! for the rays it needs. A dark target is reported without any test.

use vstd::prelude::*;
use crate::geometry::dist_sq;
use crate::illumination::{LightCursor, Scene, Step, lemma_done_flags};
use crate::registry::EntityId;
use crate::sight::{Probe, RayQuery, SceneOracle};
use crate::sight::{casts_as, probe_spec, ray_between, reaches};
use crate::sight::{lemma_always_reaches_inside_min, lemma_never_reaches_beyond_max};

verus! {

/// What a watcher makes of a target.
#[derive(Clone, Copy, Debug, PartialEq, Eq, Structural)]
pub enum Sighting {
    /// The target is not illuminated; the watcher's eyes were not asked.
    Dark,
    /// The target is illuminated, but out of the watcher's sector or
    /// hidden from it.
    Lit,
    /// The target is illuminated and the watcher has it in sight.
    Seen,
}

/// The position of a visibility pass, as mathematical values.
pub struct SightCursor {
    /// The watcher under evaluation; the number of watchers once done.
    pub watcher: int,
    /// The target to report next for that watcher.
    pub target: int,
    /// Whether the ray from that watcher to that target has been asked
    /// for and not yet answered.
    pub awaiting: bool,
    /// The complete rows: one for each watcher before `watcher`, with one
    /// sighting for each target.
    pub rows: Seq<Seq<Sighting>>,
    /// The row of the current watcher, as far as it is written.
    pub row: Seq<Sighting>,
}

impl Scene {
    /// The number of watchers.
    pub open spec fn watcher_count(self) -> int {
        self.watchers@.len() as int
    }

    /// The ray from watcher `w` to target `t`.
    pub open spec fn watcher_ray(self, w: int, t: int) -> RayQuery {
        ray_between(self.watchers@[w], self.registry.targets@[t].position)
    }

    /// What the sector test alone says of watcher `w` and target `t`.
    pub open spec fn watcher_probe(self, w: int, t: int) -> Probe {
        probe_spec(self.watchers@[w], self.registry.targets@[t].position)
    }

    /// Whether watcher `w` has target `t` in sight in the scene that
    /// `oracle` describes, whatever the light on that target: the sector
    /// test, and for a candidate a nearest hit on an illuminated target.
    pub open spec fn in_sight(
        self,
        w: int,
        t: int,
        illuminated: Seq<bool>,
        oracle: SceneOracle,
    ) -> bool {
        reaches(
            self.watchers@[w],
            self.registry.targets@[t].position,
            self.registry.hit_confirmed_illuminated(illuminated, oracle(self.watcher_ray(w, t))),
        )
    }

    /// What watcher `w` makes of target `t` in the scene that `oracle`
    /// describes.
    pub open spec fn sighting(
        self,
        w: int,
        t: int,
        illuminated: Seq<bool>,
        oracle: SceneOracle,
    ) -> Sighting {
        if !illuminated[t] {
            Sighting::Dark
        } else if self.in_sight(w, t, illuminated, oracle) {
            Sighting::Seen
        } else {
            Sighting::Lit
        }
    }
}

impl SightCursor {
    /// Where every pass begins.
    pub open spec fn start() -> SightCursor {
        SightCursor {
            watcher: 0,
            target: 0,
            awaiting: false,
            rows: Seq::empty(),
            row: Seq::empty(),
        }
    }

    /// The cursor after the current pair has been reported.
    pub open spec fn reported(self, sighting: Sighting) -> SightCursor {
        SightCursor {
            target: self.target + 1,
            awaiting: false,
            row: self.row.push(sighting),
            ..self
        }
    }

    /// The cursor after the current watcher's row has been completed.
    pub open spec fn next_watcher(self) -> SightCursor {
        SightCursor {
            watcher: self.watcher + 1,
            target: 0,
            awaiting: false,
            rows: self.rows.push(self.row),
            row: Seq::empty(),
        }
    }

    /// Whether the pass is complete.
    pub open spec fn done(self, scene: Scene) -> bool {
        self.watcher >= scene.watcher_count()
    }

    /// The cursor points into the scene, the rows written so far have
    /// their lengths, and a ray is awaited only for a candidate pair with
    /// an illuminated target.
    pub open spec fn valid(self, scene: Scene, illuminated: Seq<bool>) -> bool {
        &&& illuminated.len() == scene.target_count()
        &&& 0 <= self.watcher <= scene.watcher_count()
        &&& self.rows.len() == self.watcher
        &&& forall|w: int|
            0 <= w < self.watcher ==> (#[trigger] self.rows[w]).len() == scene.target_count()
        &&& 0 <= self.target <= scene.target_count()
        &&& self.row.len() == self.target
        &&& self.watcher == scene.watcher_count() ==> self.target == 0
        &&& self.awaiting ==> {
            &&& self.watcher < scene.watcher_count()
            &&& self.target < scene.target_count()
            &&& illuminated[self.target]
            &&& scene.watcher_probe(self.watcher, self.target) is NeedsRay
        }
    }

    /// What the cursor claims of the scene that `oracle` describes: every
    /// sighting written so far is right.
    pub open spec fn agrees(
        self,
        scene: Scene,
        illuminated: Seq<bool>,
        oracle: SceneOracle,
    ) -> bool {
        &&& self.valid(scene, illuminated)
        &&& forall|w: int, t: int|
            0 <= w < self.watcher && 0 <= t < scene.target_count() ==> self.rows[w][t]
                == #[trigger] scene.sighting(w, t, illuminated, oracle)
        &&& forall|t: int|
            0 <= t < self.target ==> self.row[t] == #[trigger] scene.sighting(
                self.watcher,
                t,
                illuminated,
                oracle,
            )
    }

    /// A bound on the number of calls that remain before the pass says
    /// [`Step::Done`].
    pub open spec fn remaining(self, scene: Scene) -> int {
        (scene.watcher_count() - self.watcher) * (2 * scene.target_count() + 1) - 2 * self.target
            - (if self.awaiting {
            1int
        } else {
            0int
        }) + 1
    }
}

/// One transition of the visibility pass over the flags `illuminated`:
/// the cursor that follows `c` and what the driver is asked to do, where
/// `reply` is the nearest hit of the ray that was awaited. Without an
/// awaited ray the reply is not looked at.
pub open spec fn sight_step(
    scene: Scene,
    illuminated: Seq<bool>,
    c: SightCursor,
    reply: Option<EntityId>,
) -> (SightCursor, Step) {
    if c.done(scene) {
        (c, Step::Done)
    } else if c.target >= scene.target_count() {
        (c.next_watcher(), Step::Proceed)
    } else if c.awaiting {
        if scene.registry.hit_confirmed_illuminated(illuminated, reply) {
            (c.reported(Sighting::Seen), Step::Proceed)
        } else {
            (c.reported(Sighting::Lit), Step::Proceed)
        }
    } else if !illuminated[c.target] {
        (c.reported(Sighting::Dark), Step::Proceed)
    } else {
        match scene.watcher_probe(c.watcher, c.target) {
            Probe::Reached => (c.reported(Sighting::Seen), Step::Proceed),
            Probe::Missed => (c.reported(Sighting::Lit), Step::Proceed),
            Probe::NeedsRay(ray) => (SightCursor { awaiting: true, ..c }, Step::Cast(ray)),
        }
    }
}

/// The rows of sightings that a vector of rows holds.
pub open spec fn rows_view(rows: Seq<Vec<Sighting>>) -> Seq<Seq<Sighting>> {
    Seq::new(rows.len(), |w: int| rows[w]@)
}

/// A visibility pass over one scene and the flags of its targets.
#[derive(Debug)]
pub struct VisibilityPass {
    scene: Scene,
    illuminated: Vec<bool>,
    watcher: usize,
    target: usize,
    awaiting: bool,
    rows: Vec<Vec<Sighting>>,
    row: Vec<Sighting>,
}

impl VisibilityPass {
    /// The scene under evaluation.
    pub closed spec fn scene(&self) -> Scene {
        self.scene
    }

    /// The flags that the pass reads, one for each target.
    pub closed spec fn illuminated(&self) -> Seq<bool> {
        self.illuminated@
    }

    /// Where the pass stands.
    pub closed spec fn cursor(&self) -> SightCursor {
        SightCursor {
            watcher: self.watcher as int,
            target: self.target as int,
            awaiting: self.awaiting,
            rows: rows_view(self.rows@),
            row: self.row@,
        }
    }

    /// The cursor is valid for the scene and the flags.
    pub open spec fn wf(&self) -> bool {
        self.cursor().valid(self.scene(), self.illuminated())
    }

    /// A pass at its beginning, over a scene and the flags of a complete
    /// illumination pass over it. There must be one flag for each
    /// target, else there is no pass.
    pub fn new(scene: Scene, illuminated: Vec<bool>) -> (r: Option<VisibilityPass>)
        ensures
            r is Some <==> illuminated@.len() == scene.target_count(),
            r matches Some(pass) ==> {
                &&& pass.wf()
                &&& pass.scene() == scene
                &&& pass.illuminated() == illuminated@
                &&& pass.cursor() == SightCursor::start()
            },
    {
        if illuminated.len() != scene.registry.targets.len() {
            return None;
        }
        let pass = VisibilityPass {
            scene,
            illuminated,
            watcher: 0,
            target: 0,
            awaiting: false,
            rows: Vec::new(),
            row: Vec::new(),
        };
        assert(pass.cursor().rows =~= Seq::<Seq<Sighting>>::empty());
        Some(pass)
    }

    /// Takes one step. `reply` is the nearest hit of the ray that the
    /// previous step asked for, `None` where that ray struck nothing;
    /// after any other step it is not looked at.
    pub fn advance(&mut self, reply: Option<EntityId>) -> (step: Step)
        requires
            old(self).wf(),
        ensures
            final(self).wf(),
            final(self).scene() == old(self).scene(),
            final(self).illuminated() == old(self).illuminated(),
            (final(self).cursor(), step) == sight_step(
                old(self).scene(),
                old(self).illuminated(),
                old(self).cursor(),
                reply,
            ),
    {
        let watcher_count: usize = self.scene.watchers.len();
        let target_count: usize = self.scene.registry.targets.len();
        if self.watcher >= watcher_count {
            return Step::Done;
        }
        if self.target >= target_count {
            let mut row: Vec<Sighting> = Vec::new();
            std::mem::swap(&mut self.row, &mut row);
            self.rows.push(row);
            self.watcher += 1;
            self.target = 0;
            assert(self.cursor().rows =~= old(self).cursor().rows.push(old(self).cursor().row));
            return Step::Proceed;
        }
        assert(self.cursor().rows =~= old(self).cursor().rows);
        if self.awaiting {
            self.awaiting = false;
            let confirmed = match reply {
                Some(entity) => self.scene.registry.confirms_illuminated(&self.illuminated, entity),
                None => false,
            };
            if confirmed {
                self.row.push(Sighting::Seen);
            } else {
                self.row.push(Sighting::Lit);
            }
            self.target += 1;
            return Step::Proceed;
        }
        if !self.illuminated[self.target] {
            self.row.push(Sighting::Dark);
            self.target += 1;
            return Step::Proceed;
        }
        let position = self.scene.registry.targets[self.target].position;
        match self.scene.watchers[self.watcher].probe(position) {
            Probe::Reached => {
                self.row.push(Sighting::Seen);
                self.target += 1;
                Step::Proceed
            },
            Probe::Missed => {
                self.row.push(Sighting::Lit);
                self.target += 1;
                Step::Proceed
            },
            Probe::NeedsRay(ray) => {
                self.awaiting = true;
                Step::Cast(ray)
            },
        }
    }

    /// Whether every watcher has its row.
    pub fn is_done(&self) -> (r: bool)
        ensures
            r == self.cursor().done(self.scene()),
    {
        self.watcher >= self.scene.watchers.len()
    }

    /// The complete rows so far, one for each watcher in the order of the
    /// scene, each with one sighting for each target in the order of the
    /// registry: all of them once the pass is done.
    pub fn rows(&self) -> (r: &Vec<Vec<Sighting>>)
        ensures
            rows_view(r@) == self.cursor().rows,
    {
        &self.rows
    }

    /// The flags that the pass reads.
    pub fn illuminated_ref(&self) -> (r: &Vec<bool>)
        ensures
            r@ == self.illuminated(),
    {
        &self.illuminated
    }

    /// The scene under evaluation.
    pub fn scene_ref(&self) -> (r: &Scene)
        ensures
            *r == self.scene(),
    {
        &self.scene
    }

    /// Gives the scene and the flags back, with the complete rows so far.
    pub fn into_parts(self) -> (r: (Scene, Vec<bool>, Vec<Vec<Sighting>>))
        ensures
            r.0 == self.scene(),
            r.1@ == self.illuminated(),
            rows_view(r.2@) == self.cursor().rows,
    {
        (self.scene, self.illuminated, self.rows)
    }
}

/// A pass at its beginning claims nothing yet, so it agrees with every
/// scene that has one flag for each target.
pub proof fn lemma_sight_start_agrees(scene: Scene, illuminated: Seq<bool>, oracle: SceneOracle)
    requires
        illuminated.len() == scene.target_count(),
    ensures
        SightCursor::start().agrees(scene, illuminated, oracle),
{
}

/// A step keeps the cursor in agreement with the scene, provided that
/// the reply to an awaited ray is what the scene answers to that ray.
pub proof fn lemma_sight_step_agrees(
    scene: Scene,
    illuminated: Seq<bool>,
    c: SightCursor,
    reply: Option<EntityId>,
    oracle: SceneOracle,
)
    requires
        c.agrees(scene, illuminated, oracle),
        c.awaiting ==> reply == oracle(scene.watcher_ray(c.watcher, c.target)),
    ensures
        sight_step(scene, illuminated, c, reply).0.agrees(scene, illuminated, oracle),
{
    let next = sight_step(scene, illuminated, c, reply).0;
    if c.done(scene) {
    } else if c.target >= scene.target_count() {
        assert forall|w: int| 0 <= w < next.watcher implies (#[trigger] next.rows[w]).len()
            == scene.target_count() by {
            if w < c.watcher {
                assert(next.rows[w] == c.rows[w]);
            }
        }
        assert forall|w: int, t: int|
            0 <= w < next.watcher && 0 <= t < scene.target_count() implies next.rows[w][t]
            == #[trigger] scene.sighting(w, t, illuminated, oracle) by {
            if w < c.watcher {
                assert(next.rows[w] == c.rows[w]);
            } else {
                assert(next.rows[w] == c.row);
            }
        }
    } else if next.target == c.target {
    } else {
        assert(next.row[c.target] == scene.sighting(c.watcher, c.target, illuminated, oracle));
        assert forall|t: int| 0 <= t < next.target implies next.row[t] == #[trigger] scene.sighting(
            next.watcher,
            t,
            illuminated,
            oracle,
        ) by {
            if t < c.target {
                assert(next.row[t] == c.row[t]);
            }
        }
    }
}

/// Once the pass is done, the rows are exactly the sightings of the
/// scene: one row for each watcher, one sighting for each target.
pub proof fn lemma_done_rows(
    scene: Scene,
    illuminated: Seq<bool>,
    c: SightCursor,
    oracle: SceneOracle,
)
    requires
        c.agrees(scene, illuminated, oracle),
        c.done(scene),
    ensures
        c.rows.len() == scene.watcher_count(),
        forall|w: int|
            0 <= w < scene.watcher_count() ==> (#[trigger] c.rows[w]).len() == scene.target_count(),
        forall|w: int, t: int|
            0 <= w < scene.watcher_count() && 0 <= t < scene.target_count() ==> c.rows[w][t]
                == #[trigger] scene.sighting(w, t, illuminated, oracle),
{
}

/// Every step but the last lowers the bound on the calls that remain,
/// and the bound is never below one: a driver that keeps calling reaches
/// [`Step::Done`].
pub proof fn lemma_sight_step_progress(
    scene: Scene,
    illuminated: Seq<bool>,
    c: SightCursor,
    reply: Option<EntityId>,
)
    requires
        c.valid(scene, illuminated),
    ensures
        sight_step(scene, illuminated, c, reply).0.valid(scene, illuminated),
        c.remaining(scene) >= 1,
        sight_step(scene, illuminated, c, reply).1 != Step::Done ==> sight_step(
            scene,
            illuminated,
            c,
            reply,
        ).0.remaining(scene) < c.remaining(scene),
{
    let next = sight_step(scene, illuminated, c, reply).0;
    let weight = 2 * scene.target_count() + 1;
    let left = scene.watcher_count() - c.watcher;
    assert(left * weight >= 0) by (nonlinear_arith)
        requires
            left >= 0,
            weight >= 0,
    ;
    assert(left >= 1 ==> left * weight >= weight) by (nonlinear_arith)
        requires
            weight >= 0,
    ;
    assert((left - 1) * weight == left * weight - weight) by (nonlinear_arith);
    if !c.done(scene) && c.target >= scene.target_count() {
        assert forall|w: int| 0 <= w < next.watcher implies (#[trigger] next.rows[w]).len()
            == scene.target_count() by {
            if w < c.watcher {
                assert(next.rows[w] == c.rows[w]);
            }
        }
    }
}

/// A watcher sees only what is lit, and a dark target is reported dark
/// to every watcher. A lit target need not be seen.
pub proof fn lemma_seen_implies_illuminated(
    scene: Scene,
    w: int,
    t: int,
    illuminated: Seq<bool>,
    oracle: SceneOracle,
)
    requires
        0 <= w < scene.watcher_count(),
        0 <= t < scene.target_count(),
        illuminated.len() == scene.target_count(),
    ensures
        scene.sighting(w, t, illuminated, oracle) == Sighting::Seen ==> illuminated[t],
        scene.sighting(w, t, illuminated, oracle) == Sighting::Dark <==> !illuminated[t],
{
}

/// A candidate whose ray strikes nothing, or strikes first an entity
/// that no target owns (an occluder in front of it), is not seen.
pub proof fn lemma_occluded_never_seen(
    scene: Scene,
    w: int,
    t: int,
    illuminated: Seq<bool>,
    oracle: SceneOracle,
)
    requires
        0 <= w < scene.watcher_count(),
        0 <= t < scene.target_count(),
        illuminated.len() == scene.target_count(),
        scene.watcher_probe(w, t) is NeedsRay,
        oracle(scene.watcher_ray(w, t)) matches Some(entity) ==> !scene.registry.owned(entity),
    ensures
        scene.sighting(w, t, illuminated, oracle) != Sighting::Seen,
{
}

/// A target at a watcher's far distance or beyond is never seen by it,
/// whatever the angle, the light and the scene.
pub proof fn lemma_far_target_never_seen(
    scene: Scene,
    w: int,
    t: int,
    illuminated: Seq<bool>,
    oracle: SceneOracle,
)
    requires
        0 <= w < scene.watcher_count(),
        0 <= t < scene.target_count(),
        scene.watchers@[w].sector@.valid(),
        dist_sq(scene.watchers@[w].pose.position, scene.registry.targets@[t].position)
            >= scene.watchers@[w].sector@.max_distance * scene.watchers@[w].sector@.max_distance,
    ensures
        scene.sighting(w, t, illuminated, oracle) != Sighting::Seen,
{
    lemma_never_reaches_beyond_max(
        scene.watchers@[w],
        scene.registry.targets@[t].position,
        scene.registry.hit_confirmed_illuminated(illuminated, oracle(scene.watcher_ray(w, t))),
    );
}

/// An illuminated target nearer to a watcher than its near distance is
/// seen by it, whatever the angle and the scene.
pub proof fn lemma_near_target_seen_when_lit(
    scene: Scene,
    w: int,
    t: int,
    illuminated: Seq<bool>,
    oracle: SceneOracle,
)
    requires
        0 <= w < scene.watcher_count(),
        0 <= t < scene.target_count(),
        illuminated.len() == scene.target_count(),
        illuminated[t],
        dist_sq(scene.watchers@[w].pose.position, scene.registry.targets@[t].position)
            < scene.watchers@[w].sector@.min_distance * scene.watchers@[w].sector@.min_distance,
    ensures
        scene.sighting(w, t, illuminated, oracle) == Sighting::Seen,
{
    lemma_always_reaches_inside_min(
        scene.watchers@[w],
        scene.registry.targets@[t].position,
        scene.registry.hit_confirmed_illuminated(illuminated, oracle(scene.watcher_ray(w, t))),
    );
}

/// Runs a whole visibility pass over the flags `illuminated`, casting
/// each ray it needs with `cast`, and gives the scene and the flags back
/// with one row for each watcher, in the order of the scene, each with
/// one sighting for each target, in the order of the registry.
///
/// There must be one flag for each target, else nothing is evaluated and
/// the result is `None`.
///
/// `cast` takes a ray and gives the entity of the nearest hit against
/// the whole scene, occluders included, or `None` where the ray strikes
/// nothing. It may stop searching behind the first hit for which
/// [`TargetRegistry::is_relevant`](crate::registry::TargetRegistry::is_relevant)
/// holds.
pub fn guard_check_target_within<F: Fn(RayQuery) -> Option<EntityId>>(
    scene: Scene,
    illuminated: Vec<bool>,
    cast: F,
) -> (r: Option<(Scene, Vec<bool>, Vec<Vec<Sighting>>)>)
    requires
        forall|ray: RayQuery| call_requires(cast, (ray,)),
    ensures
        r is Some <==> illuminated@.len() == scene.target_count(),
        r matches Some((scene_back, flags, rows)) ==> {
            &&& scene_back == scene
            &&& flags@ == illuminated@
            &&& rows@.len() == scene.watcher_count()
            &&& forall|w: int|
                0 <= w < scene.watcher_count() ==> (#[trigger] rows@[w])@.len()
                    == scene.target_count()
            &&& forall|oracle: SceneOracle, w: int, t: int|
                #![trigger scene.sighting(w, t, illuminated@, oracle)]
                casts_as(cast, oracle) && 0 <= w < scene.watcher_count() && 0 <= t
                    < scene.target_count() ==> rows@[w]@[t] == scene.sighting(
                    w,
                    t,
                    illuminated@,
                    oracle,
                )
        },
{
    let ghost flags = illuminated@;
    let mut pass = match VisibilityPass::new(scene, illuminated) {
        Some(pass) => pass,
        None => {
            return None;
        },
    };
    let mut reply: Option<EntityId> = None;
    proof {
        assert forall|oracle: SceneOracle| casts_as(cast, oracle) implies #[trigger] pass.cursor()
            .agrees(scene, flags, oracle) by {
            lemma_sight_start_agrees(scene, flags, oracle);
        }
    }
    loop
        invariant
            pass.wf(),
            pass.scene() == scene,
            pass.illuminated() == flags,
            forall|ray: RayQuery| call_requires(cast, (ray,)),
            forall|oracle: SceneOracle|
                casts_as(cast, oracle) ==> #[trigger] pass.cursor().agrees(scene, flags, oracle),
            pass.cursor().awaiting ==> call_ensures(
                cast,
                (scene.watcher_ray(pass.cursor().watcher, pass.cursor().target),),
                reply,
            ),
        ensures
            pass.cursor().done(scene),
        decreases pass.cursor().remaining(scene),
    {
        let ghost before = pass.cursor();
        let step = pass.advance(reply);
        proof {
            lemma_sight_step_progress(scene, flags, before, reply);
            lemma_sight_step_progress(scene, flags, pass.cursor(), reply);
            assert forall|oracle: SceneOracle| casts_as(cast, oracle) implies #[trigger] pass
                .cursor().agrees(scene, flags, oracle) by {
                assert(before.agrees(scene, flags, oracle));
                lemma_sight_step_agrees(scene, flags, before, reply, oracle);
            }
        }
        match step {
            Step::Cast(ray) => {
                reply = cast(ray);
            },
            Step::Proceed => {
                reply = None;
            },
            Step::Done => {
                break ;
            },
        }
    }
    let ghost end = pass.cursor();
    let (scene_back, flags_back, rows) = pass.into_parts();
    proof {
        assert(rows_view(rows@) == end.rows);
        assert forall|w: int| 0 <= w < scene.watcher_count() implies (#[trigger] rows@[w])@.len()
            == scene.target_count() by {
            assert(rows_view(rows@)[w] == rows@[w]@);
            assert(end.rows[w].len() == scene.target_count());
        }
        assert forall|oracle: SceneOracle, w: int, t: int|
            #![trigger scene.sighting(w, t, flags, oracle)]
            casts_as(cast, oracle) && 0 <= w < scene.watcher_count() && 0 <= t
                < scene.target_count() implies rows@[w]@[t] == scene.sighting(
            w,
            t,
            flags,
            oracle,
        ) by {
            assert(end.agrees(scene, flags, oracle));
            lemma_done_rows(scene, flags, end, oracle);
            assert(rows_view(rows@)[w] == rows@[w]@);
        }
    }
    Some((scene_back, flags_back, rows))
}

/// A watcher sees only what some light reaches: where the flags are
/// those of a complete illumination pass over the same scene, every
/// sighting of a target as seen comes with the illumination of that
/// target.
pub proof fn lemma_seen_target_is_illuminated(
    scene: Scene,
    lights: LightCursor,
    eyes: SightCursor,
    w: int,
    t: int,
    oracle: SceneOracle,
)
    requires
        lights.agrees(scene, oracle),
        lights.done(scene),
        eyes.agrees(scene, lights.flags, oracle),
        eyes.done(scene),
        0 <= w < scene.watcher_count(),
        0 <= t < scene.target_count(),
    ensures
        eyes.rows[w][t] == Sighting::Seen ==> scene.illuminated(t, oracle),
        eyes.rows[w][t] == Sighting::Dark <==> !scene.illuminated(t, oracle),
{
    lemma_done_flags(scene, lights, oracle);
    lemma_done_rows(scene, lights.flags, eyes, oracle);
    assert(eyes.rows[w][t] == scene.sighting(w, t, lights.flags, oracle));
    assert(lights.flags[t] == scene.illuminated(t, oracle));
}

} // verus!
