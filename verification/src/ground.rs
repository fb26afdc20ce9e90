//! Planes that fly into the ground.

use vstd::prelude::*;
use crate::contact::{Body, colliding_contains, entities, touches, touching};

verus! {

/// The entities to despawn when only ground crashes count: each plane that
/// touches `ground`, in the order of `planes`.
pub open spec fn ground_despawns(ground: u64, planes: Seq<Body>) -> Seq<u64>
    decreases planes.len(),
{
    if planes.len() == 0 {
        seq![]
    } else {
        let rest = ground_despawns(ground, planes.drop_last());
        if touches(planes.last(), ground) {
            rest.push(planes.last().entity)
        } else {
            rest
        }
    }
}

/// Decides which planes crash: every plane whose colliding set holds the
/// ground entity is despawned, in the order of `planes`.
pub fn system_handle_collisions(ground: u64, planes: &Vec<Body>) -> (despawned: Vec<u64>)
    ensures
        despawned@ == ground_despawns(ground, planes@),
        despawned@ == entities(planes@.filter(touching(ground))),
{
    let mut despawned: Vec<u64> = Vec::new();
    let mut i: usize = 0;
    while i < planes.len()
        invariant
            i <= planes.len(),
            despawned@ == ground_despawns(ground, planes@.take(i as int)),
        decreases planes.len() - i,
    {
        assert(planes@.take(i + 1).drop_last() =~= planes@.take(i as int));
        if colliding_contains(&planes[i].colliding, ground) {
            despawned.push(planes[i].entity);
        }
        i = i + 1;
    }
    assert(planes@.take(planes.len() as int) =~= planes@);
    proof {
        crate::law_ground_step_is_touching_planes(ground, planes@);
    }
    despawned
}

} // verus!
