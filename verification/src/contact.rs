//! Bodies that take part in collisions: an entity, named by its bits, and the
//! set of entities that the physics engine reports it touching.

use vstd::prelude::*;
use avian2d::prelude::CollidingEntities;
use bevy::ecs::entity::Entity;

verus! {

#[verifier::external_type_specification]
#[verifier::external_body]
pub struct ExCollidingEntities(CollidingEntities);

/// The entities, each by its `Entity::to_bits` value, that a
/// `CollidingEntities` component holds.
pub uninterp spec fn colliding_bits(c: CollidingEntities) -> Set<u64>;

/// Asks `CollidingEntities` (a set of `Entity`) whether it holds the entity
/// whose bits are `entity`, through `HashSet::contains`. Bits that name no
/// entity (`Entity::try_from_bits` fails) are held by no set, so the answer
/// there is `false`. Claimed: the answer is membership of `entity` in the
/// named set of bits.
#[verifier::external_body]
pub(crate) fn colliding_contains(c: &CollidingEntities, entity: u64) -> (res: bool)
    ensures
        res == colliding_bits(*c).contains(entity),
{
    match Entity::try_from_bits(entity) {
        Ok(e) => c.0.contains(&e),
        Err(_) => false,
    }
}

/// An entity together with what it is colliding with.
pub struct Body {
    /// The entity, as `Entity::to_bits`.
    pub entity: u64,
    /// The entities it is touching.
    pub colliding: CollidingEntities,
}

/// `body` is touching the entity `other`.
pub open spec fn touches(body: Body, other: u64) -> bool {
    colliding_bits(body.colliding).contains(other)
}

/// The bodies that touch `other`, as a predicate for `Seq::filter`.
pub open spec fn touching(other: u64) -> spec_fn(Body) -> bool {
    |b: Body| touches(b, other)
}

/// The entities of `bodies`, in order.
pub open spec fn entities(bodies: Seq<Body>) -> Seq<u64> {
    bodies.map_values(|b: Body| b.entity)
}

} // verus!
