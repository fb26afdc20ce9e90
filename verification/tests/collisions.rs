use avian2d::prelude::CollidingEntities;
use bevy::ecs::entity::Entity;
use wardogs::contact::Body;
use wardogs::system_handle_collisions;

fn id(n: u32) -> u64 {
    Entity::from_raw(n).to_bits()
}

fn body(n: u32, touching: &[u32]) -> Body {
    let mut colliding = CollidingEntities::default();
    for t in touching {
        colliding.insert(Entity::from_raw(*t));
    }
    Body { entity: id(n), colliding }
}

const GROUND: u32 = 100;

#[test]
fn nothing_touches_nothing_despawned() {
    let planes = vec![body(1, &[]), body(2, &[])];
    let bullets = vec![body(10, &[]), body(11, &[3])];
    assert_eq!(system_handle_collisions(id(GROUND), &planes, &bullets), Vec::<u64>::new());
}

#[test]
fn plane_on_ground_is_despawned() {
    let planes = vec![body(1, &[GROUND]), body(2, &[])];
    assert_eq!(system_handle_collisions(id(GROUND), &planes, &vec![]), vec![id(1)]);
}

#[test]
fn bullet_hit_despawns_bullet_then_plane() {
    let planes = vec![body(1, &[]), body(2, &[10])];
    let bullets = vec![body(10, &[2])];
    assert_eq!(
        system_handle_collisions(id(GROUND), &planes, &bullets),
        vec![id(10), id(2)]
    );
}

#[test]
fn commands_follow_plane_then_bullet_order() {
    // plane 1 crashed and was hit by bullets 10 and 12; plane 2 was hit by 11.
    let planes = vec![body(1, &[GROUND, 10, 12]), body(2, &[11])];
    let bullets = vec![body(10, &[1]), body(11, &[2]), body(12, &[1])];
    assert_eq!(
        system_handle_collisions(id(GROUND), &planes, &bullets),
        vec![id(1), id(10), id(1), id(12), id(1), id(11), id(2)]
    );
}

#[test]
fn contact_is_read_from_the_bullet_side() {
    // The plane's own set does not name the bullet; the bullet's set names the plane.
    let planes = vec![body(1, &[])];
    let bullets = vec![body(10, &[1])];
    assert_eq!(system_handle_collisions(id(GROUND), &planes, &bullets), vec![id(10), id(1)]);
    // The plane's set names the bullet, the bullet's set does not: no hit.
    let planes = vec![body(1, &[10])];
    let bullets = vec![body(10, &[])];
    assert_eq!(system_handle_collisions(id(GROUND), &planes, &bullets), Vec::<u64>::new());
}

#[test]
fn bullet_on_ground_is_not_despawned_here() {
    let planes = vec![body(1, &[])];
    let bullets = vec![body(10, &[GROUND])];
    assert_eq!(system_handle_collisions(id(GROUND), &planes, &bullets), Vec::<u64>::new());
}

#[test]
fn ground_is_never_despawned() {
    let planes = vec![body(1, &[GROUND]), body(2, &[GROUND, 10])];
    let bullets = vec![body(10, &[2, GROUND])];
    let out = system_handle_collisions(id(GROUND), &planes, &bullets);
    assert!(!out.contains(&id(GROUND)));
    assert_eq!(out, vec![id(1), id(2), id(10), id(2)]);
}

#[test]
fn no_planes_nothing_despawned() {
    let bullets = vec![body(10, &[GROUND])];
    assert_eq!(system_handle_collisions(id(GROUND), &vec![], &bullets), Vec::<u64>::new());
}

#[test]
fn ground_step_despawns_crashed_planes_in_order() {
    let planes = vec![body(3, &[GROUND]), body(1, &[]), body(2, &[GROUND, 7])];
    assert_eq!(
        wardogs::ground::system_handle_collisions(id(GROUND), &planes),
        vec![id(3), id(2)]
    );
}

#[test]
fn ground_step_ignores_other_contacts() {
    let planes = vec![body(1, &[5, 6]), body(2, &[])];
    assert_eq!(
        wardogs::ground::system_handle_collisions(id(GROUND), &planes),
        Vec::<u64>::new()
    );
}

#[test]
fn without_bullets_both_steps_agree() {
    let planes = vec![body(1, &[GROUND]), body(2, &[9]), body(3, &[GROUND])];
    assert_eq!(
        system_handle_collisions(id(GROUND), &planes, &vec![]),
        wardogs::ground::system_handle_collisions(id(GROUND), &planes)
    );
}

#[test]
fn crashes_stay_despawned_with_bullets_around() {
    let planes = vec![body(1, &[GROUND]), body(2, &[])];
    let bullets = vec![body(10, &[2]), body(11, &[])];
    let full = system_handle_collisions(id(GROUND), &planes, &bullets);
    for x in wardogs::ground::system_handle_collisions(id(GROUND), &planes) {
        assert!(full.contains(&x));
    }
}

#[test]
fn entity_with_later_generation_is_a_different_entity() {
    // Same index, other generation: not the ground.
    let mut world = bevy::ecs::world::World::new();
    let ground = world.spawn_empty().id();
    world.despawn(ground);
    let other = world.spawn_empty().id();
    assert_eq!(ground.index(), other.index());
    assert_ne!(ground, other);
    let mut colliding = CollidingEntities::default();
    colliding.insert(other);
    let planes = vec![Body { entity: id(1), colliding }];
    assert_eq!(system_handle_collisions(ground.to_bits(), &planes, &vec![]), Vec::<u64>::new());
}

#[test]
fn bits_that_name_no_entity_match_nothing() {
    let planes = vec![body(1, &[0, GROUND])];
    assert_eq!(system_handle_collisions(0, &planes, &vec![]), Vec::<u64>::new());
}

#[test]
fn target_hits_despawn_bullet_then_target() {
    let bullets = vec![body(10, &[50]), body(11, &[]), body(12, &[50, GROUND])];
    assert_eq!(
        wardogs::system_handle_target_hits(id(50), &bullets),
        vec![id(10), id(50), id(12), id(50)]
    );
}

#[test]
fn target_step_without_target_only_crashes() {
    let planes = vec![body(1, &[GROUND]), body(2, &[])];
    let bullets = vec![body(10, &[2])];
    assert_eq!(
        wardogs::system_handle_collisions_with_target(id(GROUND), &planes, None, &bullets),
        vec![id(1)]
    );
}

#[test]
fn target_step_crashes_then_hits() {
    let planes = vec![body(1, &[]), body(2, &[GROUND])];
    let bullets = vec![body(10, &[50]), body(11, &[1])];
    assert_eq!(
        wardogs::system_handle_collisions_with_target(id(GROUND), &planes, Some(id(50)), &bullets),
        vec![id(2), id(10), id(50)]
    );
}
