//! The illumination pass: for every target of a scene, whether any light
//! reaches it.
//!
//! The pass never casts a ray itself. It is a state machine: each call of
//! [`IlluminationPass::advance`] takes the answer to the ray it asked for
//! last, if it asked for one, and says what it needs next. Lights are
//! tried in order, a target is settled by the first light that reaches
//! it, and a ray is asked for only where the sector test leaves the
//! matter open.

use vstd::prelude::*;
use crate::geometry::dist_sq;
use crate::registry::{EntityId, TargetRegistry};
use crate::sight::{Probe, RayQuery, SceneOracle, Source};
use crate::sight::{casts_as, probe_spec, ray_between, reaches};
use crate::sight::{lemma_always_reaches_inside_min, lemma_never_reaches_beyond_max};

verus! {

/// Everything a tick reads: the lights, the watchers' eyes, and the
/// targets, each at its world pose.
#[derive(Clone, Debug)]
pub struct Scene {
    pub lights: Vec<Source>,
    pub watchers: Vec<Source>,
    pub registry: TargetRegistry,
}

/// What a pass asks of its driver.
#[derive(Clone, Copy, Debug, PartialEq, Eq, Structural)]
pub enum Step {
    /// Cast this ray and hand the nearest hit to the next call.
    Cast(RayQuery),
    /// Nothing to do outside: call again.
    Proceed,
    /// The pass is complete.
    Done,
}

/// The position of an illumination pass, as mathematical values.
pub struct LightCursor {
    /// The target under evaluation; the number of targets once done.
    pub target: int,
    /// The light to try next on that target.
    pub light: int,
    /// Whether the ray from that light to that target has been asked for
    /// and not yet answered.
    pub awaiting: bool,
    /// The flags of the targets before `target`.
    pub flags: Seq<bool>,
}

impl Scene {
    /// The number of targets.
    pub open spec fn target_count(self) -> int {
        self.registry.targets@.len() as int
    }

    /// The number of lights.
    pub open spec fn light_count(self) -> int {
        self.lights@.len() as int
    }

    /// The ray from light `l` to target `t`.
    pub open spec fn light_ray(self, l: int, t: int) -> RayQuery {
        ray_between(self.lights@[l], self.registry.targets@[t].position)
    }

    /// What the sector test alone says of light `l` and target `t`.
    pub open spec fn light_probe(self, l: int, t: int) -> Probe {
        probe_spec(self.lights@[l], self.registry.targets@[t].position)
    }

    /// Whether light `l` reaches target `t` in the scene that `oracle`
    /// describes.
    pub open spec fn lit_by(self, l: int, t: int, oracle: SceneOracle) -> bool {
        reaches(
            self.lights@[l],
            self.registry.targets@[t].position,
            self.registry.hit_confirmed(oracle(self.light_ray(l, t))),
        )
    }

    /// Whether any light reaches target `t` in the scene that `oracle`
    /// describes.
    pub open spec fn illuminated(self, t: int, oracle: SceneOracle) -> bool {
        exists|l: int| 0 <= l < self.light_count() && #[trigger] self.lit_by(l, t, oracle)
    }
}

impl LightCursor {
    /// Where every pass begins.
    pub open spec fn start() -> LightCursor {
        LightCursor { target: 0, light: 0, awaiting: false, flags: Seq::empty() }
    }

    /// The cursor after the current target has been settled.
    pub open spec fn settled(self, flag: bool) -> LightCursor {
        LightCursor {
            target: self.target + 1,
            light: 0,
            awaiting: false,
            flags: self.flags.push(flag),
        }
    }

    /// The cursor after the current light has failed.
    pub open spec fn next_light(self) -> LightCursor {
        LightCursor { light: self.light + 1, awaiting: false, ..self }
    }

    /// Whether the pass is complete.
    pub open spec fn done(self, scene: Scene) -> bool {
        self.target >= scene.target_count()
    }

    /// The cursor points into the scene, one flag stands for each
    /// settled target, and a ray is awaited only for a candidate pair.
    pub open spec fn valid(self, scene: Scene) -> bool {
        &&& 0 <= self.target <= scene.target_count()
        &&& self.flags.len() == self.target
        &&& 0 <= self.light <= scene.light_count()
        &&& self.target == scene.target_count() ==> self.light == 0
        &&& self.awaiting ==> {
            &&& self.target < scene.target_count()
            &&& self.light < scene.light_count()
            &&& scene.light_probe(self.light, self.target) is NeedsRay
        }
    }

    /// What the cursor claims of the scene that `oracle` describes: the
    /// flags so far are right, and no light before the current one
    /// reaches the current target.
    pub open spec fn agrees(self, scene: Scene, oracle: SceneOracle) -> bool {
        &&& self.valid(scene)
        &&& forall|t: int|
            0 <= t < self.target ==> self.flags[t] == #[trigger] scene.illuminated(t, oracle)
        &&& self.target < scene.target_count() ==> forall|l: int|
            0 <= l < self.light ==> !#[trigger] scene.lit_by(l, self.target, oracle)
    }

    /// A bound on the number of calls that remain before the pass says
    /// [`Step::Done`].
    pub open spec fn remaining(self, scene: Scene) -> int {
        (scene.target_count() - self.target) * (2 * scene.light_count() + 2) - 2 * self.light - (
        if self.awaiting {
            1int
        } else {
            0int
        }) + 1
    }
}

/// One transition of the illumination pass: the cursor that follows `c`
/// and what the driver is asked to do, where `reply` is the nearest hit
/// of the ray that was awaited. Without an awaited ray the reply is not
/// looked at.
pub open spec fn light_step(scene: Scene, c: LightCursor, reply: Option<EntityId>) -> (
    LightCursor,
    Step,
) {
    if c.done(scene) {
        (c, Step::Done)
    } else if c.awaiting {
        if scene.registry.hit_confirmed(reply) {
            (c.settled(true), Step::Proceed)
        } else {
            (c.next_light(), Step::Proceed)
        }
    } else if c.light >= scene.light_count() {
        (c.settled(false), Step::Proceed)
    } else {
        match scene.light_probe(c.light, c.target) {
            Probe::Reached => (c.settled(true), Step::Proceed),
            Probe::Missed => (c.next_light(), Step::Proceed),
            Probe::NeedsRay(ray) => (LightCursor { awaiting: true, ..c }, Step::Cast(ray)),
        }
    }
}

/// An illumination pass over one scene.
#[derive(Debug)]
pub struct IlluminationPass {
    scene: Scene,
    target: usize,
    light: usize,
    awaiting: bool,
    flags: Vec<bool>,
}

impl IlluminationPass {
    /// The scene under evaluation.
    pub closed spec fn scene(&self) -> Scene {
        self.scene
    }

    /// Where the pass stands.
    pub closed spec fn cursor(&self) -> LightCursor {
        LightCursor {
            target: self.target as int,
            light: self.light as int,
            awaiting: self.awaiting,
            flags: self.flags@,
        }
    }

    /// The cursor is valid for the scene.
    pub open spec fn wf(&self) -> bool {
        self.cursor().valid(self.scene())
    }

    /// A pass at its beginning.
    pub fn new(scene: Scene) -> (r: IlluminationPass)
        ensures
            r.wf(),
            r.scene() == scene,
            r.cursor() == LightCursor::start(),
    {
        IlluminationPass { scene, target: 0, light: 0, awaiting: false, flags: Vec::new() }
    }

    /// Takes one step. `reply` is the nearest hit of the ray that the
    /// previous step asked for, `None` where that ray struck nothing;
    /// after any other step it is not looked at.
    pub fn advance(&mut self, reply: Option<EntityId>) -> (step: Step)
        requires
            old(self).wf(),
        ensures
            final(self).wf(),
            final(self).scene() == old(self).scene(),
            (final(self).cursor(), step) == light_step(
                old(self).scene(),
                old(self).cursor(),
                reply,
            ),
    {
        if self.target >= self.scene.registry.targets.len() {
            return Step::Done;
        }
        let light_count: usize = self.scene.lights.len();
        if self.awaiting {
            self.awaiting = false;
            let confirmed = match reply {
                Some(entity) => self.scene.registry.confirms(entity),
                None => false,
            };
            if confirmed {
                self.flags.push(true);
                self.target += 1;
                self.light = 0;
            } else {
                self.light += 1;
            }
            return Step::Proceed;
        }
        if self.light >= light_count {
            self.flags.push(false);
            self.target += 1;
            self.light = 0;
            return Step::Proceed;
        }
        let position = self.scene.registry.targets[self.target].position;
        match self.scene.lights[self.light].probe(position) {
            Probe::Reached => {
                self.flags.push(true);
                self.target += 1;
                self.light = 0;
                Step::Proceed
            },
            Probe::Missed => {
                self.light += 1;
                Step::Proceed
            },
            Probe::NeedsRay(ray) => {
                self.awaiting = true;
                Step::Cast(ray)
            },
        }
    }

    /// Whether every target has its flag.
    pub fn is_done(&self) -> (r: bool)
        ensures
            r == self.cursor().done(self.scene()),
    {
        self.target >= self.scene.registry.targets.len()
    }

    /// The flags of the targets settled so far, in the order of the
    /// registry: all of them once the pass is done.
    pub fn flags(&self) -> (r: &Vec<bool>)
        ensures
            r@ == self.cursor().flags,
    {
        &self.flags
    }

    /// The scene under evaluation.
    pub fn scene_ref(&self) -> (r: &Scene)
        ensures
            *r == self.scene(),
    {
        &self.scene
    }

    /// Gives the scene back, with the flags settled so far.
    pub fn into_parts(self) -> (r: (Scene, Vec<bool>))
        ensures
            r.0 == self.scene(),
            r.1@ == self.cursor().flags,
    {
        (self.scene, self.flags)
    }
}

/// A pass at its beginning claims nothing yet, so it agrees with every
/// scene.
pub proof fn lemma_light_start_agrees(scene: Scene, oracle: SceneOracle)
    ensures
        LightCursor::start().agrees(scene, oracle),
{
}

/// A step keeps the cursor in agreement with the scene, provided that
/// the reply to an awaited ray is what the scene answers to that ray.
pub proof fn lemma_light_step_agrees(
    scene: Scene,
    c: LightCursor,
    reply: Option<EntityId>,
    oracle: SceneOracle,
)
    requires
        c.agrees(scene, oracle),
        c.awaiting ==> reply == oracle(scene.light_ray(c.light, c.target)),
    ensures
        light_step(scene, c, reply).0.agrees(scene, oracle),
{
    let next = light_step(scene, c, reply).0;
    if c.done(scene) {
    } else if next.target == c.target {
        assert forall|l: int| 0 <= l < next.light implies !#[trigger] scene.lit_by(
            l,
            next.target,
            oracle,
        ) by {
            if l < c.light {
                assert(!scene.lit_by(l, c.target, oracle));
            }
        }
    } else {
        let flag = next.flags[c.target];
        if flag {
            assert(scene.lit_by(c.light, c.target, oracle));
        } else {
            assert forall|l: int| 0 <= l < scene.light_count() implies !#[trigger] scene.lit_by(
                l,
                c.target,
                oracle,
            ) by {
                assert(l < c.light);
            }
        }
        assert(flag == scene.illuminated(c.target, oracle));
        assert forall|t: int| 0 <= t < next.target implies next.flags[t]
            == #[trigger] scene.illuminated(t, oracle) by {
            if t < c.target {
                assert(next.flags[t] == c.flags[t]);
            }
        }
    }
}

/// Once the pass is done, the flags are exactly the illumination of the
/// scene: one flag for each target, set where some light reaches it.
pub proof fn lemma_done_flags(scene: Scene, c: LightCursor, oracle: SceneOracle)
    requires
        c.agrees(scene, oracle),
        c.done(scene),
    ensures
        c.flags.len() == scene.target_count(),
        forall|t: int|
            0 <= t < scene.target_count() ==> c.flags[t] == #[trigger] scene.illuminated(
                t,
                oracle,
            ),
{
}

/// Two complete passes over the same scene end with the same flags:
/// nothing but the scene enters the result.
pub proof fn lemma_passes_agree(scene: Scene, a: LightCursor, b: LightCursor, oracle: SceneOracle)
    requires
        a.agrees(scene, oracle),
        b.agrees(scene, oracle),
        a.done(scene),
        b.done(scene),
    ensures
        a.flags == b.flags,
{
    assert forall|t: int| 0 <= t < a.flags.len() implies a.flags[t] == b.flags[t] by {
        assert(a.flags[t] == scene.illuminated(t, oracle));
        assert(b.flags[t] == scene.illuminated(t, oracle));
    }
    assert(a.flags =~= b.flags);
}

/// Every step but the last lowers the bound on the calls that remain,
/// and the bound is never below one: a driver that keeps calling reaches
/// [`Step::Done`].
pub proof fn lemma_light_step_progress(scene: Scene, c: LightCursor, reply: Option<EntityId>)
    requires
        c.valid(scene),
    ensures
        light_step(scene, c, reply).0.valid(scene),
        c.remaining(scene) >= 1,
        light_step(scene, c, reply).1 != Step::Done ==> light_step(scene, c, reply).0.remaining(
            scene,
        ) < c.remaining(scene),
{
    let weight = 2 * scene.light_count() + 2;
    let left = scene.target_count() - c.target;
    assert(left * weight >= 0) by (nonlinear_arith)
        requires
            left >= 0,
            weight >= 0,
    ;
    assert(left >= 1 ==> left * weight >= weight) by (nonlinear_arith)
        requires
            weight >= 0,
    ;
    assert((left - 1) * weight == left * weight - weight) by (nonlinear_arith);
}

/// A target is flagged only on account of some light: one that has it
/// inside its near distance, or one that has it as a candidate and whose
/// ray struck a target first.
pub proof fn lemma_illuminated_has_light(scene: Scene, t: int, oracle: SceneOracle)
    requires
        0 <= t < scene.target_count(),
        scene.illuminated(t, oracle),
    ensures
        exists|l: int|
            0 <= l < scene.light_count() && (#[trigger] scene.light_probe(l, t) == Probe::Reached
                || (scene.light_probe(l, t) is NeedsRay && scene.registry.hit_confirmed(
                oracle(scene.light_ray(l, t)),
            ))),
{
    let l = choose|l: int| 0 <= l < scene.light_count() && #[trigger] scene.lit_by(l, t, oracle);
    assert(scene.light_probe(l, t) == Probe::Reached || (scene.light_probe(l, t) is NeedsRay
        && scene.registry.hit_confirmed(oracle(scene.light_ray(l, t)))));
}

/// A light never reaches a target at its far distance or beyond,
/// whatever the angle and the scene.
pub proof fn lemma_far_target_not_lit_by(scene: Scene, l: int, t: int, oracle: SceneOracle)
    requires
        0 <= l < scene.light_count(),
        0 <= t < scene.target_count(),
        scene.lights@[l].sector@.valid(),
        dist_sq(scene.lights@[l].pose.position, scene.registry.targets@[t].position)
            >= scene.lights@[l].sector@.max_distance * scene.lights@[l].sector@.max_distance,
    ensures
        !scene.lit_by(l, t, oracle),
{
    lemma_never_reaches_beyond_max(
        scene.lights@[l],
        scene.registry.targets@[t].position,
        scene.registry.hit_confirmed(oracle(scene.light_ray(l, t))),
    );
}

/// A target nearer to a light than its near distance is illuminated,
/// whatever the angle and the scene.
pub proof fn lemma_near_target_illuminated(scene: Scene, l: int, t: int, oracle: SceneOracle)
    requires
        0 <= l < scene.light_count(),
        0 <= t < scene.target_count(),
        dist_sq(scene.lights@[l].pose.position, scene.registry.targets@[t].position)
            < scene.lights@[l].sector@.min_distance * scene.lights@[l].sector@.min_distance,
    ensures
        scene.lit_by(l, t, oracle),
        scene.illuminated(t, oracle),
{
    lemma_always_reaches_inside_min(
        scene.lights@[l],
        scene.registry.targets@[t].position,
        scene.registry.hit_confirmed(oracle(scene.light_ray(l, t))),
    );
    assert(scene.lit_by(l, t, oracle));
}

/// Runs a whole illumination pass, casting each ray it needs with `cast`,
/// and gives the scene back with one flag for each target, in the order
/// of the registry: whether any light reaches the target.
///
/// `cast` takes a ray and gives the entity of the nearest hit against
/// the whole scene, occluders included, or `None` where the ray strikes
/// nothing. It may stop searching behind the first hit for which
/// [`TargetRegistry::is_relevant`] holds.
pub fn light_check_target_within<F: Fn(RayQuery) -> Option<EntityId>>(
    scene: Scene,
    cast: F,
) -> (r: (Scene, Vec<bool>))
    requires
        forall|ray: RayQuery| call_requires(cast, (ray,)),
    ensures
        r.0 == scene,
        r.1@.len() == scene.target_count(),
        forall|oracle: SceneOracle, t: int|
            #![trigger scene.illuminated(t, oracle)]
            casts_as(cast, oracle) && 0 <= t < scene.target_count() ==> r.1@[t]
                == scene.illuminated(t, oracle),
{
    let mut pass = IlluminationPass::new(scene);
    let mut reply: Option<EntityId> = None;
    proof {
        assert forall|oracle: SceneOracle| casts_as(cast, oracle) implies #[trigger] pass.cursor()
            .agrees(scene, oracle) by {
            lemma_light_start_agrees(scene, oracle);
        }
    }
    loop
        invariant
            pass.wf(),
            pass.scene() == scene,
            forall|ray: RayQuery| call_requires(cast, (ray,)),
            forall|oracle: SceneOracle|
                casts_as(cast, oracle) ==> #[trigger] pass.cursor().agrees(scene, oracle),
            pass.cursor().awaiting ==> call_ensures(
                cast,
                (scene.light_ray(pass.cursor().light, pass.cursor().target),),
                reply,
            ),
        ensures
            pass.cursor().done(scene),
        decreases pass.cursor().remaining(scene),
    {
        let ghost before = pass.cursor();
        let step = pass.advance(reply);
        proof {
            lemma_light_step_progress(scene, before, reply);
            assert forall|oracle: SceneOracle| casts_as(cast, oracle) implies #[trigger] pass
                .cursor().agrees(scene, oracle) by {
                assert(before.agrees(scene, oracle));
                lemma_light_step_agrees(scene, before, reply, oracle);
            }
        }
        match step {
            Step::Cast(ray) => {
                reply = cast(ray);
            },
            Step::Proceed => {
                reply = None;
            },
            Step::Done => {
                break ;
            },
        }
        proof {
            lemma_light_step_progress(scene, pass.cursor(), reply);
        }
    }
    proof {
        assert forall|oracle: SceneOracle, t: int|
            #![trigger scene.illuminated(t, oracle)]
            casts_as(cast, oracle) && 0 <= t < scene.target_count() implies pass.cursor().flags[t]
            == scene.illuminated(t, oracle) by {
            assert(pass.cursor().agrees(scene, oracle));
            lemma_done_flags(scene, pass.cursor(), oracle);
        }
    }
    pass.into_parts()
}

} // verus!
