//! The targets of the current tick, and the resolution of a raw ray hit
//! to the target that owns it.

use vstd::prelude::*;
use crate::geometry::Point;

verus! {

/// The identity of a scene entity, as the scene engine numbers it.
#[derive(Clone, Copy, Debug, PartialEq, Eq, Structural)]
pub struct EntityId(pub u64);

/// An actor that can be lit and seen.
///
/// A ray may strike one of the entities that hang below the target in the
/// scene hierarchy (its visual mesh, say) rather than the target itself:
/// `parts` lists those descendants.
#[derive(Clone, Debug)]
pub struct Target {
    pub entity: EntityId,
    pub position: Point,
    pub parts: Vec<EntityId>,
}

impl Target {
    /// Whether `entity` is this target or one of its descendants.
    pub open spec fn owns(self, entity: EntityId) -> bool {
        entity == self.entity || self.parts@.contains(entity)
    }

    /// Whether `entity` is this target or one of its descendants.
    pub fn is_owner_of(&self, entity: EntityId) -> (r: bool)
        ensures
            r == self.owns(entity),
    {
        if entity == self.entity {
            return true;
        }
        let mut i: usize = 0;
        while i < self.parts.len()
            invariant
                i <= self.parts.len(),
                forall|k: int| 0 <= k < i ==> self.parts@[k] != entity,
            decreases self.parts.len() - i,
        {
            if self.parts[i] == entity {
                return true;
            }
            i += 1;
        }
        false
    }
}

/// The set of targets of one tick, in a fixed order.
#[derive(Clone, Debug)]
pub struct TargetRegistry {
    pub targets: Vec<Target>,
}

impl TargetRegistry {
    /// Whether some target owns `entity`.
    pub open spec fn owned(self, entity: EntityId) -> bool {
        exists|i: int| 0 <= i < self.targets@.len() && (#[trigger] self.targets@[i]).owns(entity)
    }

    /// Whether some target that `illuminated` flags owns `entity`. Flags
    /// beyond the last target, and targets beyond the last flag, count
    /// for nothing.
    pub open spec fn owned_by_illuminated(self, illuminated: Seq<bool>, entity: EntityId) -> bool {
        exists|i: int|
            0 <= i < self.targets@.len() && i < illuminated.len() && illuminated[i] && (
            #[trigger] self.targets@[i]).owns(entity)
    }

    /// Whether the nearest hit of a ray cast from a light, if any, is
    /// confirmed: it belongs to a target.
    pub open spec fn hit_confirmed(self, hit: Option<EntityId>) -> bool {
        hit matches Some(entity) && self.owned(entity)
    }

    /// Whether the nearest hit of a ray cast from a watcher, if any, is
    /// confirmed: it belongs to an illuminated target.
    pub open spec fn hit_confirmed_illuminated(
        self,
        illuminated: Seq<bool>,
        hit: Option<EntityId>,
    ) -> bool {
        hit matches Some(entity) && self.owned_by_illuminated(illuminated, entity)
    }

    /// The number of targets.
    pub fn len(&self) -> (r: usize)
        ensures
            r == self.targets@.len(),
    {
        self.targets.len()
    }

    /// The place in the registry of the target whose own entity is
    /// `entity`, the first if there are several: the key to its flag and
    /// to its sightings.
    pub fn index_of(&self, entity: EntityId) -> (r: Option<usize>)
        ensures
            match r {
                Some(i) => {
                    &&& i < self.targets@.len()
                    &&& self.targets@[i as int].entity == entity
                    &&& forall|k: int| 0 <= k < i ==> self.targets@[k].entity != entity
                },
                None => forall|k: int|
                    0 <= k < self.targets@.len() ==> self.targets@[k].entity != entity,
            },
    {
        let mut i: usize = 0;
        while i < self.targets.len()
            invariant
                i <= self.targets.len(),
                forall|k: int| 0 <= k < i ==> self.targets@[k].entity != entity,
            decreases self.targets.len() - i,
        {
            if self.targets[i].entity == entity {
                return Some(i);
            }
            i += 1;
        }
        None
    }

    /// The test that lets a ray cast stop searching: a hit on `entity`
    /// ends the search for hits farther away, because it belongs to a
    /// target. It never hides a nearer hit.
    pub fn is_relevant(&self, entity: EntityId) -> (r: bool)
        ensures
            r == self.owned(entity),
    {
        let mut i: usize = 0;
        while i < self.targets.len()
            invariant
                i <= self.targets.len(),
                forall|k: int| 0 <= k < i ==> !(#[trigger] self.targets@[k]).owns(entity),
            decreases self.targets.len() - i,
        {
            if self.targets[i].is_owner_of(entity) {
                return true;
            }
            i += 1;
        }
        false
    }

    /// The test applied to the nearest hit of a light's ray. It is the
    /// same test as [`TargetRegistry::is_relevant`]: the hit must belong
    /// to a target, and any target will do.
    pub fn confirms(&self, entity: EntityId) -> (r: bool)
        ensures
            r == self.owned(entity),
    {
        self.is_relevant(entity)
    }

    /// The test applied to the nearest hit of a watcher's ray: the hit
    /// must belong to a target that is illuminated.
    pub fn confirms_illuminated(&self, illuminated: &Vec<bool>, entity: EntityId) -> (r: bool)
        ensures
            r == self.owned_by_illuminated(illuminated@, entity),
    {
        let mut i: usize = 0;
        while i < self.targets.len() && i < illuminated.len()
            invariant
                i <= self.targets.len(),
                i <= illuminated.len(),
                forall|k: int|
                    0 <= k < i ==> !(illuminated@[k] && (#[trigger] self.targets@[k]).owns(entity)),
            decreases self.targets.len() - i,
        {
            if illuminated[i] && self.targets[i].is_owner_of(entity) {
                return true;
            }
            i += 1;
        }
        false
    }
}

} // verus!
