use std::cell::RefCell;

use perception::geometry::{Direction, Point};
use perception::illumination::{light_check_target_within, IlluminationPass, Scene, Step};
use perception::registry::{EntityId, Target, TargetRegistry};
use perception::sector::Sector;
use perception::sight::{
    check_target_within_range, check_target_within_sight, Pose, Probe, RayQuery, Source,
};
use perception::visibility::{guard_check_target_within, Sighting, VisibilityPass};

const PLAYER: EntityId = EntityId(1);
const PLAYER_MESH: EntityId = EntityId(2);
const WALL: EntityId = EntityId(99);

fn p(x: i32, y: i32, z: i32) -> Point {
    Point { x, y, z }
}

fn source(at: Point, facing: (i32, i32, i32), cos: (i32, i32), min: u32, max: u32) -> Source {
    Source {
        pose: Pose {
            position: at,
            forward: Direction { x: facing.0, y: facing.1, z: facing.2 },
        },
        sector: Sector::new(cos.0, cos.1, min, max).unwrap(),
    }
}

/// The guard of the examples: at the origin, facing +X, half angle thirty
/// degrees, far distance 10 000.
fn guard(min: u32) -> Source {
    source(p(0, 0, 0), (1, 0, 0), (866_025, 1_000_000), min, 10_000)
}

/// A lamp high above the origin that shines on everything within 100 000.
fn lamp() -> Source {
    source(p(0, 50_000, 0), (0, -1, 0), (-1, 1), 0, 100_000)
}

fn player(at: Point) -> Target {
    Target { entity: PLAYER, position: at, parts: vec![PLAYER_MESH] }
}

fn scene(lights: Vec<Source>, watchers: Vec<Source>, targets: Vec<Target>) -> Scene {
    Scene { lights, watchers, registry: TargetRegistry { targets } }
}

/// Runs an illumination pass. Returns the scene, the flags and the rays
/// that were asked for.
fn illuminate(
    scene: Scene,
    cast: &dyn Fn(RayQuery) -> Option<EntityId>,
) -> (Scene, Vec<bool>, Vec<RayQuery>) {
    let rays = RefCell::new(Vec::new());
    let (scene, flags) = light_check_target_within(scene, |ray: RayQuery| {
        rays.borrow_mut().push(ray);
        cast(ray)
    });
    (scene, flags, rays.into_inner())
}

/// Runs a visibility pass. Returns the rows and the rays that were asked
/// for.
fn watch(
    scene: Scene,
    flags: Vec<bool>,
    cast: &dyn Fn(RayQuery) -> Option<EntityId>,
) -> (Vec<Vec<Sighting>>, Vec<RayQuery>) {
    let rays = RefCell::new(Vec::new());
    let (_, flags_back, rows) = guard_check_target_within(scene, flags.clone(), |ray: RayQuery| {
        rays.borrow_mut().push(ray);
        cast(ray)
    })
    .unwrap();
    assert_eq!(flags_back, flags);
    (rows, rays.into_inner())
}

/// Steps an illumination pass to its end by hand. Returns the flags and
/// the number of calls it took.
fn step_through(scene: Scene, cast: &dyn Fn(RayQuery) -> Option<EntityId>) -> (Vec<bool>, usize) {
    let mut pass = IlluminationPass::new(scene);
    let mut reply = None;
    let mut calls = 0;
    loop {
        calls += 1;
        assert!(calls < 10_000);
        match pass.advance(reply) {
            Step::Cast(ray) => reply = cast(ray),
            Step::Proceed => reply = None,
            Step::Done => break,
        }
    }
    assert!(pass.is_done());
    (pass.into_parts().1, calls)
}

/// A whole tick: lights first, then watchers.
fn tick(
    scene: Scene,
    cast: &dyn Fn(RayQuery) -> Option<EntityId>,
) -> (Vec<bool>, Vec<Vec<Sighting>>) {
    let (scene, flags, _) = illuminate(scene, cast);
    let (rows, _) = watch(scene, flags.clone(), cast);
    (flags, rows)
}

/// A scene without occluders: every ray strikes the player's mesh.
fn open_air(_ray: RayQuery) -> Option<EntityId> {
    Some(PLAYER_MESH)
}

/// A low wall across the X axis between x = 2 000 and x = 3 000: a ray
/// that starts near the ground before it and aims beyond it strikes the
/// wall; a ray from high above passes over it.
fn walled(ray: RayQuery) -> Option<EntityId> {
    if ray.origin.y < 10_000 && ray.origin.x < 2_000 && ray.toward.x > 3_000 {
        Some(WALL)
    } else {
        Some(PLAYER_MESH)
    }
}

fn empty_space(_ray: RayQuery) -> Option<EntityId> {
    None
}

#[test]
fn target_ahead_is_seen_when_a_light_reaches_it() {
    let s = scene(vec![lamp()], vec![guard(0)], vec![player(p(5_000, 0, 0))]);
    let (flags, rows) = tick(s, &open_air);
    assert_eq!(flags, vec![true]);
    assert_eq!(rows, vec![vec![Sighting::Seen]]);
}

#[test]
fn target_ahead_is_dark_without_light() {
    let s = scene(vec![], vec![guard(0)], vec![player(p(5_000, 0, 0))]);
    let (flags, rows) = tick(s, &open_air);
    assert_eq!(flags, vec![false]);
    assert_eq!(rows, vec![vec![Sighting::Dark]]);
}

#[test]
fn target_off_axis_is_never_seen() {
    let lit = scene(vec![lamp()], vec![guard(0)], vec![player(p(0, 5_000, 0))]);
    let (flags, rows) = tick(lit, &open_air);
    assert_eq!(flags, vec![true]);
    assert_eq!(rows, vec![vec![Sighting::Lit]]);
    let unlit = scene(vec![], vec![guard(0)], vec![player(p(0, 5_000, 0))]);
    let (flags, rows) = tick(unlit, &open_air);
    assert_eq!(flags, vec![false]);
    assert_eq!(rows, vec![vec![Sighting::Dark]]);
}

#[test]
fn target_beyond_max_distance_is_never_seen() {
    let lit = scene(vec![lamp()], vec![guard(0)], vec![player(p(15_000, 0, 0))]);
    let (scene_back, flags, _) = illuminate(lit, &open_air);
    assert_eq!(flags, vec![true]);
    let (rows, rays) = watch(scene_back, flags, &open_air);
    assert_eq!(rows, vec![vec![Sighting::Lit]]);
    assert!(rays.is_empty());
    let unlit = scene(vec![], vec![guard(0)], vec![player(p(15_000, 0, 0))]);
    let (_, rows) = tick(unlit, &open_air);
    assert_eq!(rows, vec![vec![Sighting::Dark]]);
}

#[test]
fn target_inside_min_distance_is_seen_when_lit() {
    let lit = scene(vec![lamp()], vec![guard(1_000)], vec![player(p(500, 0, 0))]);
    let (scene_back, flags, _) = illuminate(lit, &open_air);
    assert_eq!(flags, vec![true]);
    // Not even a wall in between matters, and no ray is cast.
    let (rows, rays) = watch(scene_back, flags, &|_| Some(WALL));
    assert_eq!(rows, vec![vec![Sighting::Seen]]);
    assert!(rays.is_empty());
    let unlit = scene(vec![], vec![guard(1_000)], vec![player(p(500, 0, 0))]);
    let (_, rows) = tick(unlit, &open_air);
    assert_eq!(rows, vec![vec![Sighting::Dark]]);
}

#[test]
fn target_behind_the_wall_is_dark() {
    // The guard carries the only light, with the sector of its eyes.
    let s = scene(vec![guard(0)], vec![guard(0)], vec![player(p(5_000, 0, 0))]);
    let (scene_back, flags, rays) = illuminate(s, &walled);
    assert_eq!(flags, vec![false]);
    assert_eq!(rays, vec![RayQuery { origin: p(0, 0, 0), toward: p(5_000, 0, 0) }]);
    let (rows, rays) = watch(scene_back, flags, &walled);
    assert_eq!(rows, vec![vec![Sighting::Dark]]);
    assert!(rays.is_empty());
}

#[test]
fn target_behind_the_wall_is_lit_by_a_light_with_a_clear_line() {
    // The lamp stands above, so its ray passes over the wall.
    let s = scene(vec![guard(0), lamp()], vec![guard(0)], vec![player(p(5_000, 0, 0))]);
    let (scene_back, flags, rays) = illuminate(s, &walled);
    assert_eq!(flags, vec![true]);
    assert_eq!(rays.len(), 2);
    let (rows, rays) = watch(scene_back, flags, &walled);
    assert_eq!(rows, vec![vec![Sighting::Lit]]);
    assert_eq!(rays.len(), 1);
}

#[test]
fn ray_into_empty_space_confirms_nothing() {
    let s = scene(vec![lamp()], vec![guard(0)], vec![player(p(5_000, 0, 0))]);
    let (flags, rows) = tick(s, &empty_space);
    assert_eq!(flags, vec![false]);
    assert_eq!(rows, vec![vec![Sighting::Dark]]);
}

#[test]
fn hit_on_the_target_itself_or_on_a_part_confirms() {
    for hit in [PLAYER, PLAYER_MESH] {
        let s = scene(vec![lamp()], vec![guard(0)], vec![player(p(5_000, 0, 0))]);
        let (flags, rows) = tick(s, &move |_| Some(hit));
        assert_eq!(flags, vec![true]);
        assert_eq!(rows, vec![vec![Sighting::Seen]]);
    }
}

#[test]
fn first_light_that_reaches_settles_the_target() {
    let far_lamp = source(p(0, 50_000, 0), (0, -1, 0), (-1, 1), 0, 10);
    let s = scene(
        vec![far_lamp, lamp(), lamp(), guard(0)],
        vec![],
        vec![player(p(5_000, 0, 0))],
    );
    let (_, flags, rays) = illuminate(s, &open_air);
    assert_eq!(flags, vec![true]);
    // The first lamp is out of range and asks for nothing; the second is
    // confirmed; the others are not tried.
    assert_eq!(rays, vec![RayQuery { origin: p(0, 50_000, 0), toward: p(5_000, 0, 0) }]);
}

#[test]
fn capture_range_of_a_light_needs_no_ray() {
    let glow = source(p(5_000, 0, 100), (0, 0, 0), (0, 1), 200, 200);
    let s = scene(vec![glow], vec![], vec![player(p(5_000, 0, 0))]);
    let (_, flags, rays) = illuminate(s, &|_| Some(WALL));
    assert_eq!(flags, vec![true]);
    assert!(rays.is_empty());
}

#[test]
fn every_light_is_tried_on_a_target_that_stays_dark() {
    let s = scene(vec![lamp(), guard(0), lamp()], vec![], vec![player(p(5_000, 0, 0))]);
    let (_, flags, rays) = illuminate(s, &|_| Some(WALL));
    assert_eq!(flags, vec![false]);
    assert_eq!(rays.len(), 3);
}

#[test]
fn several_targets_and_watchers() {
    let ahead = Target { entity: EntityId(10), position: p(5_000, 0, 0), parts: vec![] };
    let behind = Target { entity: EntityId(20), position: p(-5_000, 0, 0), parts: vec![] };
    let shaded = Target { entity: EntityId(30), position: p(0, 0, 5_000), parts: vec![] };
    let back_guard = source(p(0, 0, 0), (-1, 0, 0), (866_025, 1_000_000), 0, 10_000);
    let s = scene(vec![lamp()], vec![guard(0), back_guard], vec![ahead, behind, shaded]);
    // Each ray strikes what it aims at, but the one to the shaded target
    // is stopped by a wall.
    let cast = |ray: RayQuery| -> Option<EntityId> {
        if ray.toward == p(5_000, 0, 0) {
            Some(EntityId(10))
        } else if ray.toward == p(-5_000, 0, 0) {
            Some(EntityId(20))
        } else {
            Some(WALL)
        }
    };
    let (flags, rows) = tick(s, &cast);
    assert_eq!(flags, vec![true, true, false]);
    assert_eq!(
        rows,
        vec![
            vec![Sighting::Seen, Sighting::Lit, Sighting::Dark],
            vec![Sighting::Lit, Sighting::Seen, Sighting::Dark],
        ]
    );
}

#[test]
fn hit_on_another_target_confirms_for_a_light() {
    // Any target will do: a light ray that strikes another target first
    // still counts for the one it was aimed at.
    let front = Target { entity: EntityId(10), position: p(2_000, 0, 0), parts: vec![] };
    let back = Target { entity: EntityId(20), position: p(5_000, 0, 0), parts: vec![] };
    let s = scene(vec![guard(0)], vec![], vec![front, back]);
    let (_, flags, rays) = illuminate(s, &|_| Some(EntityId(10)));
    assert_eq!(flags, vec![true, true]);
    assert_eq!(rays.len(), 2);
}

#[test]
fn hit_on_a_dark_target_does_not_confirm_for_a_watcher() {
    let front = Target { entity: EntityId(10), position: p(2_000, 0, 0), parts: vec![] };
    let back = Target { entity: EntityId(20), position: p(5_000, 0, 0), parts: vec![] };
    let s = scene(vec![], vec![guard(0)], vec![front, back]);
    // The front target is dark, the back one lit; the watcher's ray to
    // the back one strikes the front one.
    let (rows, rays) = watch(s, vec![false, true], &|_| Some(EntityId(10)));
    assert_eq!(rows, vec![vec![Sighting::Dark, Sighting::Lit]]);
    assert_eq!(rays.len(), 1);
    // Where both are lit, the same hit confirms.
    let front = Target { entity: EntityId(10), position: p(2_000, 0, 0), parts: vec![] };
    let back = Target { entity: EntityId(20), position: p(5_000, 0, 0), parts: vec![] };
    let s = scene(vec![], vec![guard(0)], vec![front, back]);
    let (rows, _) = watch(s, vec![true, true], &|_| Some(EntityId(10)));
    assert_eq!(rows, vec![vec![Sighting::Seen, Sighting::Seen]]);
}

#[test]
fn lit_does_not_imply_seen_and_seen_implies_lit() {
    let near = Target { entity: EntityId(10), position: p(5_000, 0, 0), parts: vec![] };
    let aside = Target { entity: EntityId(20), position: p(0, 0, 5_000), parts: vec![] };
    let s = scene(vec![lamp()], vec![guard(0)], vec![near, aside]);
    let (flags, rows) = tick(s, &|ray: RayQuery| {
        if ray.toward.x == 5_000 {
            Some(EntityId(10))
        } else {
            Some(EntityId(20))
        }
    });
    assert_eq!(flags, vec![true, true]);
    assert_eq!(rows, vec![vec![Sighting::Seen, Sighting::Lit]]);
    for row in &rows {
        for (t, sighting) in row.iter().enumerate() {
            if *sighting == Sighting::Seen {
                assert!(flags[t]);
            }
            assert_eq!(*sighting == Sighting::Dark, !flags[t]);
        }
    }
}

#[test]
fn illumination_twice_gives_the_same_flags() {
    let make = || {
        scene(
            vec![guard(0), lamp()],
            vec![guard(0)],
            vec![
                player(p(5_000, 0, 0)),
                Target { entity: EntityId(20), position: p(1_000, 0, 0), parts: vec![] },
                Target { entity: EntityId(30), position: p(200_000, 0, 0), parts: vec![] },
            ],
        )
    };
    let (scene_back, first, first_rays) = illuminate(make(), &walled);
    let (_, second, second_rays) = illuminate(scene_back, &walled);
    let (_, third, _) = illuminate(make(), &walled);
    assert_eq!(first, vec![true, true, false]);
    assert_eq!(first, second);
    assert_eq!(first, third);
    assert_eq!(first_rays, second_rays);
}

#[test]
fn stepping_by_hand_gives_the_flags_of_the_whole_pass() {
    let make = || {
        scene(
            vec![guard(0), lamp()],
            vec![],
            vec![
                player(p(5_000, 0, 0)),
                Target { entity: EntityId(20), position: p(1_000, 0, 0), parts: vec![] },
                Target { entity: EntityId(30), position: p(200_000, 0, 0), parts: vec![] },
            ],
        )
    };
    let (_, flags, _) = illuminate(make(), &walled);
    let (stepped, calls) = step_through(make(), &walled);
    assert_eq!(flags, stepped);
    // No more calls than two for each pair, one for each target that no
    // light reaches, and the last.
    assert!(calls <= 3 * (2 * 2 + 1) + 1);
}

#[test]
fn visibility_without_one_flag_for_each_target_evaluates_nothing() {
    let s = scene(vec![], vec![guard(0)], vec![player(p(5_000, 0, 0))]);
    assert!(guard_check_target_within(s.clone(), vec![], open_air).is_none());
    assert!(guard_check_target_within(s.clone(), vec![true, true], open_air).is_none());
    assert!(guard_check_target_within(s, vec![true], open_air).is_some());
}

#[test]
fn no_targets_no_watchers_no_lights() {
    let (flags, rows) = tick(scene(vec![], vec![], vec![]), &open_air);
    assert!(flags.is_empty());
    assert!(rows.is_empty());
    let (flags, rows) = tick(scene(vec![lamp()], vec![guard(0), guard(0)], vec![]), &open_air);
    assert!(flags.is_empty());
    assert_eq!(rows, vec![Vec::<Sighting>::new(), Vec::<Sighting>::new()]);
    let (flags, rows) = tick(scene(vec![lamp()], vec![], vec![player(p(1, 1, 1))]), &open_air);
    assert_eq!(flags, vec![true]);
    assert!(rows.is_empty());
}

#[test]
fn pass_steps_one_pair_at_a_time() {
    let s = scene(vec![lamp()], vec![], vec![player(p(5_000, 0, 0))]);
    let mut pass = IlluminationPass::new(s);
    assert!(!pass.is_done());
    assert!(pass.flags().is_empty());
    let ray = RayQuery { origin: p(0, 50_000, 0), toward: p(5_000, 0, 0) };
    // A reply that nobody asked for is not looked at.
    assert_eq!(pass.advance(Some(PLAYER)), Step::Cast(ray));
    assert!(pass.flags().is_empty());
    assert_eq!(pass.advance(Some(WALL)), Step::Proceed);
    assert!(pass.flags().is_empty());
    // The lights are exhausted: the target is settled as dark.
    assert_eq!(pass.advance(Some(PLAYER)), Step::Proceed);
    assert_eq!(pass.flags(), &vec![false]);
    assert!(pass.is_done());
    assert_eq!(pass.advance(None), Step::Done);
    assert_eq!(pass.advance(Some(PLAYER)), Step::Done);
    assert_eq!(pass.flags(), &vec![false]);
    assert_eq!(pass.scene_ref().lights.len(), 1);
}

#[test]
fn visibility_pass_steps_one_pair_at_a_time() {
    let s = scene(vec![], vec![guard(0)], vec![player(p(5_000, 0, 0)), player(p(0, 9, 0))]);
    let mut pass = VisibilityPass::new(s, vec![true, false]).unwrap();
    let ray = RayQuery { origin: p(0, 0, 0), toward: p(5_000, 0, 0) };
    assert_eq!(pass.advance(None), Step::Cast(ray));
    assert_eq!(pass.advance(Some(PLAYER_MESH)), Step::Proceed);
    assert!(pass.rows().is_empty());
    assert_eq!(pass.advance(None), Step::Proceed);
    assert!(!pass.is_done());
    // The row is complete: it moves to the rows.
    assert_eq!(pass.advance(None), Step::Proceed);
    assert_eq!(pass.rows(), &vec![vec![Sighting::Seen, Sighting::Dark]]);
    assert!(pass.is_done());
    assert_eq!(pass.advance(None), Step::Done);
    assert_eq!(pass.illuminated_ref(), &vec![true, false]);
    assert_eq!(pass.scene_ref().watchers.len(), 1);
}

#[test]
fn visibility_pass_wants_one_flag_for_each_target() {
    let s = scene(vec![], vec![guard(0)], vec![player(p(5_000, 0, 0))]);
    assert!(VisibilityPass::new(s.clone(), vec![]).is_none());
    assert!(VisibilityPass::new(s.clone(), vec![true, false]).is_none());
    assert!(VisibilityPass::new(s, vec![true]).is_some());
}

#[test]
fn probe_says_which_ray_is_needed() {
    let g = guard(1_000);
    assert_eq!(g.probe(p(500, 0, 0)), Probe::Reached);
    assert_eq!(g.probe(p(0, 5_000, 0)), Probe::Missed);
    assert_eq!(
        g.probe(p(5_000, 0, 0)),
        Probe::NeedsRay(RayQuery { origin: p(0, 0, 0), toward: p(5_000, 0, 0) })
    );
}

#[test]
fn check_target_within_range_for_one_pair() {
    let registry = TargetRegistry { targets: vec![player(p(5_000, 0, 0))] };
    let g = guard(1_000);
    // Candidate: the hit decides.
    assert!(check_target_within_range(&g, p(5_000, 0, 0), Some(PLAYER), &registry));
    assert!(check_target_within_range(&g, p(5_000, 0, 0), Some(PLAYER_MESH), &registry));
    assert!(!check_target_within_range(&g, p(5_000, 0, 0), Some(WALL), &registry));
    assert!(!check_target_within_range(&g, p(5_000, 0, 0), None, &registry));
    // Inside the near distance: the hit is not looked at.
    assert!(check_target_within_range(&g, p(500, 0, 0), Some(WALL), &registry));
    assert!(check_target_within_range(&g, p(-500, 0, 0), None, &registry));
    // Out of range: the hit does not help.
    assert!(!check_target_within_range(&g, p(15_000, 0, 0), Some(PLAYER), &registry));
    assert!(!check_target_within_range(&g, p(0, 5_000, 0), Some(PLAYER), &registry));
}

#[test]
fn check_target_within_sight_for_one_pair() {
    let registry = TargetRegistry {
        targets: vec![
            player(p(5_000, 0, 0)),
            Target { entity: EntityId(20), position: p(2_000, 0, 0), parts: vec![EntityId(21)] },
        ],
    };
    let g = guard(1_000);
    let at = p(5_000, 0, 0);
    let lit = vec![true, false];
    assert!(check_target_within_sight(&g, at, Some(PLAYER_MESH), &registry, &lit));
    assert!(!check_target_within_sight(&g, at, Some(EntityId(21)), &registry, &lit));
    assert!(!check_target_within_sight(&g, at, Some(WALL), &registry, &lit));
    assert!(!check_target_within_sight(&g, at, None, &registry, &lit));
    assert!(check_target_within_sight(&g, at, Some(EntityId(21)), &registry, &vec![false, true]));
    // Flags that are missing count as unset, flags beyond the targets
    // count for nothing.
    assert!(!check_target_within_sight(&g, at, Some(EntityId(21)), &registry, &vec![true]));
    assert!(check_target_within_sight(&g, at, Some(PLAYER), &registry, &vec![true]));
    assert!(!check_target_within_sight(&g, at, Some(PLAYER), &registry, &vec![]));
    assert!(!check_target_within_sight(
        &g,
        at,
        Some(WALL),
        &registry,
        &vec![false, false, true]
    ));
    // Nearness and distance go before the hit.
    assert!(check_target_within_sight(&g, p(500, 0, 0), None, &registry, &vec![]));
    assert!(!check_target_within_sight(&g, p(15_000, 0, 0), Some(PLAYER), &registry, &lit));
}

#[test]
fn registry_resolves_hits_to_owners() {
    let registry = TargetRegistry {
        targets: vec![
            Target { entity: EntityId(10), position: p(0, 0, 0), parts: vec![] },
            Target {
                entity: EntityId(20),
                position: p(0, 0, 0),
                parts: vec![EntityId(21), EntityId(22)],
            },
        ],
    };
    assert_eq!(registry.len(), 2);
    for id in [10, 20, 21, 22] {
        assert!(registry.is_relevant(EntityId(id)));
        assert!(registry.confirms(EntityId(id)));
    }
    for id in [0, 11, 23, 99, u64::MAX] {
        assert!(!registry.is_relevant(EntityId(id)));
        assert!(!registry.confirms(EntityId(id)));
    }
    assert!(registry.targets[1].is_owner_of(EntityId(22)));
    assert!(registry.targets[1].is_owner_of(EntityId(20)));
    assert!(!registry.targets[1].is_owner_of(EntityId(10)));
    assert!(!registry.targets[0].is_owner_of(EntityId(21)));
    assert!(registry.confirms_illuminated(&vec![false, true], EntityId(21)));
    assert!(!registry.confirms_illuminated(&vec![true, false], EntityId(21)));
    assert!(registry.confirms_illuminated(&vec![true, false], EntityId(10)));
    assert!(!registry.confirms_illuminated(&vec![true, true], EntityId(99)));
    assert_eq!(registry.index_of(EntityId(10)), Some(0));
    assert_eq!(registry.index_of(EntityId(20)), Some(1));
    // A part is no key.
    assert_eq!(registry.index_of(EntityId(21)), None);
    assert_eq!(registry.index_of(EntityId(99)), None);
    let nobody = TargetRegistry { targets: vec![] };
    assert_eq!(nobody.index_of(EntityId(10)), None);
    assert_eq!(nobody.len(), 0);
    assert!(!nobody.is_relevant(EntityId(10)));
    assert!(!nobody.confirms_illuminated(&vec![true], EntityId(10)));
}

#[test]
fn passes_at_the_ends_of_the_lattice() {
    let low = p(i32::MIN, i32::MIN, i32::MIN);
    let high = p(i32::MAX, i32::MAX, i32::MAX);
    let beam = source(low, (1, 1, 1), (i32::MAX - 1, i32::MAX), 0, u32::MAX);
    let s = scene(vec![beam], vec![beam], vec![player(high), player(p(0, 0, 0))]);
    let (flags, rows) = tick(s, &open_air);
    // The far corner is farther than any far distance; the origin is not.
    assert_eq!(flags, vec![false, true]);
    assert_eq!(rows, vec![vec![Sighting::Dark, Sighting::Seen]]);
}
