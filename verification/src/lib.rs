//! Game rules of a two-plane dogfight: which entities a collision removes,
//! and when a bullet's lifetime runs out.

pub mod bullet;
pub mod contact;
pub mod ground;

use vstd::prelude::*;
use crate::contact::{Body, colliding_contains, entities, touches, touching};
use crate::ground::ground_despawns;

verus! {

/// What the bullets do to one plane: for each bullet, in order, that touches
/// `plane`, the bullet and then the plane are despawned.
pub open spec fn bullet_hits(plane: u64, bullets: Seq<Body>) -> Seq<u64>
    decreases bullets.len(),
{
    if bullets.len() == 0 {
        seq![]
    } else {
        let rest = bullet_hits(plane, bullets.drop_last());
        if touches(bullets.last(), plane) {
            rest + seq![bullets.last().entity, plane]
        } else {
            rest
        }
    }
}

/// What one plane's turn despawns: the plane if it touches the ground, then
/// the bullets that hit it.
pub open spec fn plane_despawns(ground: u64, plane: Body, bullets: Seq<Body>) -> Seq<u64> {
    (if touches(plane, ground) {
        seq![plane.entity]
    } else {
        seq![]
    }) + bullet_hits(plane.entity, bullets)
}

/// The despawn commands of a collision step, in the order they are issued:
/// the turns of the planes, one after the other.
pub open spec fn collision_despawns(ground: u64, planes: Seq<Body>, bullets: Seq<Body>) -> Seq<u64>
    decreases planes.len(),
{
    if planes.len() == 0 {
        seq![]
    } else {
        collision_despawns(ground, planes.drop_last(), bullets) + plane_despawns(
            ground,
            planes.last(),
            bullets,
        )
    }
}

/// Decides what the bullets do to one target: for each bullet, in order,
/// that touches `target`, the bullet and then the target are despawned.
pub fn system_handle_target_hits(target: u64, bullets: &Vec<Body>) -> (despawned: Vec<u64>)
    ensures
        despawned@ == bullet_hits(target, bullets@),
        despawned@ == pairs_with(bullets@.filter(touching(target)), target),
{
    let mut despawned: Vec<u64> = Vec::new();
    let mut j: usize = 0;
    while j < bullets.len()
        invariant
            j <= bullets.len(),
            despawned@ == bullet_hits(target, bullets@.take(j as int)),
        decreases bullets.len() - j,
    {
        assert(bullets@.take(j + 1).drop_last() =~= bullets@.take(j as int));
        if colliding_contains(&bullets[j].colliding, target) {
            despawned.push(bullets[j].entity);
            despawned.push(target);
        }
        j = j + 1;
    }
    assert(bullets@.take(bullets.len() as int) =~= bullets@);
    proof {
        law_target_hits_are_touching_bullets(target, bullets@);
    }
    despawned
}

/// The despawn commands of a step against a lone target: the planes that
/// crashed into the ground, then, if there is a target, the bullets that hit
/// it and the target with each.
pub open spec fn target_collision_despawns(
    ground: u64,
    planes: Seq<Body>,
    target: Option<u64>,
    bullets: Seq<Body>,
) -> Seq<u64> {
    ground_despawns(ground, planes) + match target {
        Some(t) => bullet_hits(t, bullets),
        None => seq![],
    }
}

/// Decides what a step against a lone target removes: every plane touching
/// `ground`, in order; then, when there is a target, every bullet touching it,
/// each followed by the target.
pub fn system_handle_collisions_with_target(
    ground: u64,
    planes: &Vec<Body>,
    target: Option<u64>,
    bullets: &Vec<Body>,
) -> (despawned: Vec<u64>)
    ensures
        despawned@ == target_collision_despawns(ground, planes@, target, bullets@),
        despawned@ == entities(planes@.filter(touching(ground))) + match target {
            Some(t) => pairs_with(bullets@.filter(touching(t)), t),
            None => Seq::<u64>::empty(),
        },
{
    let mut despawned = crate::ground::system_handle_collisions(ground, planes);
    match target {
        Some(t) => {
            let mut hits = system_handle_target_hits(t, bullets);
            despawned.append(&mut hits);
        },
        None => {},
    }
    proof {
        law_target_step_exact(ground, planes@, target, bullets@);
    }
    despawned
}

/// Decides what a collision step removes. For each plane in order: if it
/// touches `ground` it is despawned; then every bullet that touches it is
/// despawned, and the plane with it. The result lists the despawn commands
/// in the order they are issued; an entity may occur more than once.
pub fn system_handle_collisions(ground: u64, planes: &Vec<Body>, bullets: &Vec<Body>) -> (despawned:
    Vec<u64>)
    ensures
        despawned@ == collision_despawns(ground, planes@, bullets@),
        despawned@ == planes@.map_values(turn(ground, bullets@)).flatten(),
        forall|x: u64|
            #[trigger] despawned@.contains(x) <==> exists|i: int|
                0 <= i < planes@.len() && #[trigger] removed_in_turn(ground, planes@[i], bullets@, x),
{
    let mut despawned: Vec<u64> = Vec::new();
    let mut i: usize = 0;
    while i < planes.len()
        invariant
            i <= planes.len(),
            despawned@ == collision_despawns(ground, planes@.take(i as int), bullets@),
        decreases planes.len() - i,
    {
        assert(planes@.take(i + 1).drop_last() =~= planes@.take(i as int));
        let plane = &planes[i];
        let ghost before = despawned@;
        if colliding_contains(&plane.colliding, ground) {
            despawned.push(plane.entity);
        }
        let ghost head = despawned@;
        assert(head == before + (if touches(planes@[i as int], ground) {
            seq![plane.entity]
        } else {
            seq![]
        }));
        let mut hits = system_handle_target_hits(plane.entity, bullets);
        despawned.append(&mut hits);
        i = i + 1;
    }
    assert(planes@.take(planes.len() as int) =~= planes@);
    proof {
        law_collision_step_exact(ground, planes@, bullets@);
        assert forall|x: u64| #[trigger] despawned@.contains(x) <==> exists|i: int|
            0 <= i < planes@.len() && #[trigger] removed_in_turn(ground, planes@[i], bullets@, x) by {
            law_collision_despawns_members(ground, planes@, bullets@, x);
        }
    }
    despawned
}

/// `x` falls to a bullet hit on the plane `plane`: `bullet` touches the plane,
/// and `x` is the bullet or the plane.
pub open spec fn shot_down(plane: u64, bullet: Body, x: u64) -> bool {
    touches(bullet, plane) && (x == bullet.entity || x == plane)
}

/// `x` falls in the turn of `plane`: the plane crashed into `ground` and `x`
/// is the plane, or some bullet shot the plane down and `x` is the bullet or
/// the plane.
pub open spec fn removed_in_turn(ground: u64, plane: Body, bullets: Seq<Body>, x: u64) -> bool {
    ||| touches(plane, ground) && x == plane.entity
    ||| exists|j: int| 0 <= j < bullets.len() && #[trigger] shot_down(plane.entity, bullets[j], x)
}

proof fn lemma_bullet_hits_members(plane: u64, bullets: Seq<Body>, x: u64)
    ensures
        bullet_hits(plane, bullets).contains(x) <==> exists|j: int|
            0 <= j < bullets.len() && #[trigger] shot_down(plane, bullets[j], x),
    decreases bullets.len(),
{
    broadcast use vstd::seq_lib::lemma_seq_concat_contains_all_elements;

    if bullets.len() > 0 {
        let init = bullets.drop_last();
        let last = bullets.last();
        lemma_bullet_hits_members(plane, init, x);
        let pair: Seq<u64> = if touches(last, plane) {
            seq![last.entity, plane]
        } else {
            seq![]
        };
        assert(bullet_hits(plane, bullets) == bullet_hits(plane, init) + pair);
        if touches(last, plane) {
            assert(pair[0] == last.entity && pair[1] == plane);
        }
        assert(pair.contains(x) <==> shot_down(plane, last, x));
        if bullet_hits(plane, bullets).contains(x) {
            if bullet_hits(plane, init).contains(x) {
                let j = choose|j: int| 0 <= j < init.len() && #[trigger] shot_down(plane, init[j], x);
                assert(bullets[j] == init[j]);
            } else {
                assert(shot_down(plane, bullets[bullets.len() - 1], x));
            }
        }
        if exists|j: int| 0 <= j < bullets.len() && #[trigger] shot_down(plane, bullets[j], x) {
            let j = choose|j: int| 0 <= j < bullets.len() && #[trigger] shot_down(plane, bullets[j], x);
            if j < init.len() {
                assert(init[j] == bullets[j]);
                assert(shot_down(plane, init[j], x));
            }
        }
    }
}

/// Law: a collision step despawns `x` exactly when, in the turn of some plane,
/// that plane crashed into the ground and is `x`, or a bullet touching that
/// plane is `x` or makes the plane `x`.
pub proof fn law_collision_despawns_members(
    ground: u64,
    planes: Seq<Body>,
    bullets: Seq<Body>,
    x: u64,
)
    ensures
        collision_despawns(ground, planes, bullets).contains(x) <==> exists|i: int|
            0 <= i < planes.len() && #[trigger] removed_in_turn(ground, planes[i], bullets, x),
    decreases planes.len(),
{
    broadcast use vstd::seq_lib::lemma_seq_concat_contains_all_elements;

    if planes.len() > 0 {
        let init = planes.drop_last();
        let last = planes.last();
        law_collision_despawns_members(ground, init, bullets, x);
        lemma_bullet_hits_members(last.entity, bullets, x);
        let head: Seq<u64> = if touches(last, ground) {
            seq![last.entity]
        } else {
            seq![]
        };
        if touches(last, ground) {
            assert(head[0] == last.entity);
        }
        assert(plane_despawns(ground, last, bullets).contains(x) <==> removed_in_turn(
            ground,
            last,
            bullets,
            x,
        ));
        if collision_despawns(ground, planes, bullets).contains(x) {
            if collision_despawns(ground, init, bullets).contains(x) {
                let i = choose|i: int|
                    0 <= i < init.len() && #[trigger] removed_in_turn(ground, init[i], bullets, x);
                assert(planes[i] == init[i]);
            } else {
                assert(removed_in_turn(ground, planes[planes.len() - 1], bullets, x));
            }
        }
        if exists|i: int| 0 <= i < planes.len() && #[trigger] removed_in_turn(ground, planes[i], bullets, x) {
            let i = choose|i: int|
                0 <= i < planes.len() && #[trigger] removed_in_turn(ground, planes[i], bullets, x);
            if i < init.len() {
                assert(init[i] == planes[i]);
                assert(removed_in_turn(ground, init[i], bullets, x));
            }
        }
    }
}

/// Law: a collision step despawns only planes and bullets; an entity that is
/// neither, such as the ground itself, is never despawned.
pub proof fn law_only_planes_and_bullets_despawned(
    ground: u64,
    planes: Seq<Body>,
    bullets: Seq<Body>,
    x: u64,
)
    requires
        forall|i: int| 0 <= i < planes.len() ==> (#[trigger] planes[i]).entity != x,
        forall|j: int| 0 <= j < bullets.len() ==> (#[trigger] bullets[j]).entity != x,
    ensures
        !collision_despawns(ground, planes, bullets).contains(x),
{
    law_collision_despawns_members(ground, planes, bullets, x);
    if collision_despawns(ground, planes, bullets).contains(x) {
        let i = choose|i: int|
            0 <= i < planes.len() && #[trigger] removed_in_turn(ground, planes[i], bullets, x);
        assert(planes[i].entity != x);
        if !(touches(planes[i], ground) && x == planes[i].entity) {
            let j = choose|j: int|
                0 <= j < bullets.len() && #[trigger] shot_down(planes[i].entity, bullets[j], x);
            assert(bullets[j].entity != x);
        }
    }
}

/// Law: without bullets, a collision step despawns exactly what the
/// ground-only step despawns, in the same order.
pub proof fn law_without_bullets_only_crashes(ground: u64, planes: Seq<Body>)
    ensures
        collision_despawns(ground, planes, seq![]) == ground_despawns(ground, planes),
    decreases planes.len(),
{
    if planes.len() > 0 {
        law_without_bullets_only_crashes(ground, planes.drop_last());
        assert(bullet_hits(planes.last().entity, seq![]) == Seq::<u64>::empty());
        let head: Seq<u64> = if touches(planes.last(), ground) {
            seq![planes.last().entity]
        } else {
            seq![]
        };
        assert(plane_despawns(ground, planes.last(), seq![]) =~= head);
        if touches(planes.last(), ground) {
            assert(ground_despawns(ground, planes.drop_last()) + head =~= ground_despawns(
                ground,
                planes.drop_last(),
            ).push(planes.last().entity));
        } else {
            assert(ground_despawns(ground, planes.drop_last()) + head =~= ground_despawns(
                ground,
                planes.drop_last(),
            ));
        }
    }
}

/// Law: every plane that the ground-only step despawns is despawned by the
/// full collision step too, whatever the bullets.
pub proof fn law_crashes_always_despawned(
    ground: u64,
    planes: Seq<Body>,
    bullets: Seq<Body>,
    x: u64,
)
    requires
        ground_despawns(ground, planes).contains(x),
    ensures
        collision_despawns(ground, planes, bullets).contains(x),
    decreases planes.len(),
{
    broadcast use vstd::seq_lib::lemma_seq_concat_contains_all_elements;
    broadcast use vstd::seq_lib::lemma_seq_contains_after_push;

    if planes.len() > 0 {
        let init = planes.drop_last();
        let last = planes.last();
        if ground_despawns(ground, init).contains(x) {
            law_crashes_always_despawned(ground, init, bullets, x);
        } else {
            assert(touches(last, ground) && x == last.entity);
            let head: Seq<u64> = seq![last.entity];
            assert(head[0] == x);
            assert(plane_despawns(ground, last, bullets) == head + bullet_hits(last.entity, bullets));
        }
    }
}

/// Each of `hits` followed by `target`: `hits[0], target, hits[1], target, ...`.
pub open spec fn pairs_with(hits: Seq<Body>, target: u64) -> Seq<u64> {
    Seq::new(
        2 * hits.len(),
        |m: int|
            if m % 2 == 0 {
                hits[m / 2].entity
            } else {
                target
            },
    )
}

/// What one plane's turn removes, in closed form: the plane if it touches the
/// ground, then each bullet touching it followed by the plane.
pub open spec fn turn(ground: u64, bullets: Seq<Body>) -> spec_fn(Body) -> Seq<u64> {
    |p: Body|
        (if touches(p, ground) {
            seq![p.entity]
        } else {
            seq![]
        }) + pairs_with(bullets.filter(touching(p.entity)), p.entity)
}

/// Law: the bullets' hits on `target` are exactly the bullets that touch it,
/// in their order, each followed by the target; no other bullet counts and
/// none is left out.
pub proof fn law_target_hits_are_touching_bullets(target: u64, bullets: Seq<Body>)
    ensures
        bullet_hits(target, bullets) == pairs_with(bullets.filter(touching(target)), target),
    decreases bullets.len(),
{
    broadcast use Seq::lemma_filter_push;

    if bullets.len() > 0 {
        let init = bullets.drop_last();
        let last = bullets.last();
        law_target_hits_are_touching_bullets(target, init);
        assert(init.push(last) =~= bullets);
        let h0 = init.filter(touching(target));
        if touches(last, target) {
            assert(bullets.filter(touching(target)) == h0.push(last));
            let h = h0.push(last);
            assert forall|m: int| 0 <= m < 2 * h.len() implies #[trigger] pairs_with(h, target)[m]
                == (pairs_with(h0, target) + seq![last.entity, target])[m] by {
                if m < 2 * h0.len() {
                    assert(m / 2 < h0.len());
                    assert(h[m / 2] == h0[m / 2]);
                } else if m == 2 * h0.len() {
                    assert(m / 2 == h0.len());
                } else {
                    assert(m % 2 == 1);
                }
            }
            assert(pairs_with(h, target) =~= pairs_with(h0, target) + seq![last.entity, target]);
        } else {
            assert(bullets.filter(touching(target)) == h0);
        }
    }
}

/// Law: the ground-only step despawns exactly the planes that touch the
/// ground, in their order.
pub proof fn law_ground_step_is_touching_planes(ground: u64, planes: Seq<Body>)
    ensures
        ground_despawns(ground, planes) == entities(planes.filter(touching(ground))),
    decreases planes.len(),
{
    broadcast use Seq::lemma_filter_push;

    if planes.len() > 0 {
        let init = planes.drop_last();
        let last = planes.last();
        law_ground_step_is_touching_planes(ground, init);
        assert(init.push(last) =~= planes);
        let f0 = init.filter(touching(ground));
        assert(entities(f0.push(last)) =~= entities(f0).push(last.entity));
    }
}

/// Law: the step against a lone target despawns exactly the planes that touch
/// the ground, in order, and then, when there is a target, each bullet that
/// touches it, in order, followed by the target.
pub proof fn law_target_step_exact(
    ground: u64,
    planes: Seq<Body>,
    target: Option<u64>,
    bullets: Seq<Body>,
)
    ensures
        target_collision_despawns(ground, planes, target, bullets) == entities(
            planes.filter(touching(ground)),
        ) + match target {
            Some(t) => pairs_with(bullets.filter(touching(t)), t),
            None => Seq::<u64>::empty(),
        },
{
    law_ground_step_is_touching_planes(ground, planes);
    if let Some(t) = target {
        law_target_hits_are_touching_bullets(t, bullets);
    }
}

/// Law: with a target, every bullet touching it is despawned, and so is the
/// target; an entity is despawned only if it is a crashed plane, a bullet
/// touching the target, or the target hit by one.
pub proof fn law_target_step_members(
    ground: u64,
    planes: Seq<Body>,
    target: u64,
    bullets: Seq<Body>,
    x: u64,
)
    ensures
        target_collision_despawns(ground, planes, Some(target), bullets).contains(x) <==> ((exists|
            i: int,
        | 0 <= i < planes.len() && touches(#[trigger] planes[i], ground) && x == planes[i].entity)
            || (exists|j: int|
            0 <= j < bullets.len() && #[trigger] shot_down(target, bullets[j], x))),
{
    broadcast use vstd::seq_lib::lemma_seq_concat_contains_all_elements;

    lemma_bullet_hits_members(target, bullets, x);
    law_ground_step_is_touching_planes(ground, planes);
    lemma_ground_members(ground, planes, x);
}

proof fn lemma_ground_members(ground: u64, planes: Seq<Body>, x: u64)
    ensures
        ground_despawns(ground, planes).contains(x) <==> exists|i: int|
            0 <= i < planes.len() && touches(#[trigger] planes[i], ground) && x == planes[i].entity,
    decreases planes.len(),
{
    broadcast use vstd::seq_lib::lemma_seq_contains_after_push;

    if planes.len() > 0 {
        let init = planes.drop_last();
        lemma_ground_members(ground, init, x);
        if ground_despawns(ground, planes).contains(x) && !ground_despawns(ground, init).contains(
            x,
        ) {
            assert(touches(planes[planes.len() - 1], ground));
        }
        if ground_despawns(ground, init).contains(x) {
            let i = choose|i: int|
                0 <= i < init.len() && touches(#[trigger] init[i], ground) && x == init[i].entity;
            assert(planes[i] == init[i]);
        }
        if exists|i: int|
            0 <= i < planes.len() && touches(#[trigger] planes[i], ground) && x == planes[i].entity {
            let i = choose|i: int|
                0 <= i < planes.len() && touches(#[trigger] planes[i], ground) && x
                    == planes[i].entity;
            if i < init.len() {
                assert(init[i] == planes[i]);
            }
        }
    }
}

/// Law: a collision step is, in closed form, the turns of the planes in
/// order, each turn being the plane if it touches the ground, then every
/// bullet touching the plane, in order, followed by the plane.
pub proof fn law_collision_step_exact(ground: u64, planes: Seq<Body>, bullets: Seq<Body>)
    ensures
        collision_despawns(ground, planes, bullets) == planes.map_values(
            turn(ground, bullets),
        ).flatten(),
{
    lemma_collision_step_alt(ground, planes, bullets);
    planes.map_values(turn(ground, bullets)).lemma_flatten_and_flatten_alt_are_equivalent();
}

proof fn lemma_collision_step_alt(ground: u64, planes: Seq<Body>, bullets: Seq<Body>)
    ensures
        collision_despawns(ground, planes, bullets) == planes.map_values(
            turn(ground, bullets),
        ).flatten_alt(),
    decreases planes.len(),
{
    if planes.len() > 0 {
        let init = planes.drop_last();
        let last = planes.last();
        lemma_collision_step_alt(ground, init, bullets);
        law_target_hits_are_touching_bullets(last.entity, bullets);
        assert(planes.map_values(turn(ground, bullets)).drop_last() =~= init.map_values(
            turn(ground, bullets),
        ));
        assert(plane_despawns(ground, last, bullets) == turn(ground, bullets)(last));
    }
}

} // verus!
