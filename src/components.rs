use vstd::prelude::*;
use std::collections::HashMap;

verus! {

/// Position of an entity's box centre, in whole world units.
#[derive(Clone, Copy, Debug, PartialEq, Eq, Hash, Default, Structural)]
pub struct Position {
    pub x: i32,
    pub y: i32,
}

/// Full width and height of an axis-aligned box.
#[derive(Clone, Copy, Debug, PartialEq, Eq, Hash, Default, Structural)]
pub struct Size {
    pub x: u32,
    pub y: u32,
}

/// An entity's axis-aligned collision box.
///
/// A disabled box is skipped by every overlap test. A box that is disabled
/// while it overlaps another gets no `End` for that pair: the pair's entry in
/// the overlap table stays until the pair separates while enabled, or until
/// the host purges the entity.
#[derive(Clone, Copy, Debug, PartialEq, Eq, Hash, Default, Structural)]
pub struct CollisionBox {
    pub size: Size,
    pub disabled: bool,
}

/// Layer/mask pair deciding which entities an entity can detect.
#[derive(Clone, Copy, Debug, PartialEq, Eq, Hash, Default, Structural)]
pub struct CollisionGroup {
    /// Categories this entity belongs to.
    pub layer: u32,
    /// Categories this entity can detect.
    pub mask: u32,
}

/// `g` detects `h` when its mask shares a bit with `h`'s layer.
pub open spec fn sees(g: CollisionGroup, h: CollisionGroup) -> bool {
    g.mask & h.layer != 0
}

impl CollisionGroup {
    pub fn can_see(&self, other: &CollisionGroup) -> (r: bool)
        ensures
            r == sees(*self, *other),
    {
        self.mask & other.layer != 0
    }
}

/// What the host attaches to an entity to make it collidable.
#[derive(Clone, Debug, Default)]
pub struct CollisionBundle {
    pub collision_box: CollisionBox,
    pub collision_group: CollisionGroup,
    pub collisions: Collisions,
}

/// One entity of the per-step snapshot that the host hands to the scan.
#[derive(Clone, Copy, Debug, PartialEq, Eq, Hash, Default, Structural)]
pub struct Collider {
    pub entity: u64,
    pub position: Position,
    pub collision_box: CollisionBox,
    pub group: CollisionGroup,
}

/// The boxes' intervals intersect with non-zero length on both axes:
/// `|xa - xb| < (wa + wb) / 2`, and the same on y, stated without division.
/// Touching edges do not overlap.
pub open spec fn boxes_overlap(a: Collider, b: Collider) -> bool {
    &&& 2 * abs_diff(a.position.x as int, b.position.x as int) < a.collision_box.size.x
        + b.collision_box.size.x
    &&& 2 * abs_diff(a.position.y as int, b.position.y as int) < a.collision_box.size.y
        + b.collision_box.size.y
}

pub open spec fn abs_diff(p: int, q: int) -> int {
    if p >= q {
        p - q
    } else {
        q - p
    }
}

/// A partner that an entity currently overlaps.
#[derive(Clone, Copy, Debug, PartialEq, Eq, Hash, Structural)]
pub struct Collision {
    pub entity: u64,
}

impl Collision {
    pub fn new(entity: u64) -> (r: Self)
        ensures
            r.entity == entity,
    {
        Self { entity }
    }
}

/// The set of entities that one entity is presently overlapping, keyed by
/// the partner's identifier.
#[derive(Clone, Debug, Default)]
pub struct Collisions {
    pub map: HashMap<u64, Collision>,
}

impl View for Collisions {
    type V = Map<u64, Collision>;

    open spec fn view(&self) -> Map<u64, Collision> {
        self.map@
    }
}

impl Collisions {
    pub fn new() -> (r: Self)
        ensures
            r@ == Map::<u64, Collision>::empty(),
    {
        Collisions { map: HashMap::new() }
    }

    pub fn contains(&self, entity: u64) -> (r: bool)
        ensures
            r == self@.contains_key(entity),
    {
        broadcast use vstd::std_specs::hash::group_hash_axioms;

        self.map.contains_key(&entity)
    }

    /// Records `collision.entity` as a present partner.
    pub fn insert(&mut self, collision: Collision)
        ensures
            final(self)@ == old(self)@.insert(collision.entity, collision),
    {
        broadcast use vstd::std_specs::hash::group_hash_axioms;

        self.map.insert(collision.entity, collision);
    }

    /// Forgets `entity` as a partner.
    pub fn remove(&mut self, entity: u64)
        ensures
            final(self)@ == old(self)@.remove(entity),
    {
        broadcast use vstd::std_specs::hash::group_hash_axioms;

        self.map.remove(&entity);
    }
}

} // verus!
