use bevy::ecs::entity::Entity;
use wardogs::bullet::{system_cleanup_bullets, Bullet, LifeTimer, BULLET_LIFETIME_NANOS};

const MS: u64 = 1_000_000;

fn id(n: u32) -> u64 {
    Entity::from_raw(n).to_bits()
}

#[test]
fn new_timer_has_not_started() {
    let t = LifeTimer::new(500 * MS);
    assert_eq!(t.elapsed_nanos(), 0);
    assert_eq!(t.duration_nanos(), 500 * MS);
    assert!(!t.finished());
}

#[test]
fn tick_below_duration_accumulates() {
    let mut t = LifeTimer::new(500 * MS);
    t.tick(200 * MS);
    assert_eq!(t.elapsed_nanos(), 200 * MS);
    assert!(!t.finished());
    t.tick(100 * MS);
    assert_eq!(t.elapsed_nanos(), 300 * MS);
    assert!(!t.finished());
}

#[test]
fn tick_reaching_duration_finishes_and_clamps() {
    let mut t = LifeTimer::new(500 * MS);
    t.tick(499 * MS);
    assert!(!t.finished());
    t.tick(5 * MS);
    assert!(t.finished());
    assert_eq!(t.elapsed_nanos(), 500 * MS);
}

#[test]
fn tick_exactly_duration_finishes() {
    let mut t = LifeTimer::new(500 * MS);
    t.tick(500 * MS);
    assert!(t.finished());
    assert_eq!(t.elapsed_nanos(), 500 * MS);
}

#[test]
fn finished_timer_stays_finished() {
    let mut t = LifeTimer::new(10);
    t.tick(20);
    t.tick(0);
    t.tick(u64::MAX);
    assert!(t.finished());
    assert_eq!(t.elapsed_nanos(), 10);
}

#[test]
fn zero_duration_finishes_on_first_tick() {
    let mut t = LifeTimer::new(0);
    assert!(!t.finished());
    t.tick(0);
    assert!(t.finished());
    assert_eq!(t.elapsed_nanos(), 0);
}

#[test]
fn huge_ticks_do_not_overflow() {
    let mut t = LifeTimer::new(u64::MAX);
    t.tick(u64::MAX - 1);
    assert!(!t.finished());
    assert_eq!(t.elapsed_nanos(), u64::MAX - 1);
    t.tick(u64::MAX);
    assert!(t.finished());
    assert_eq!(t.elapsed_nanos(), u64::MAX);
}

#[test]
fn ticks_add_up() {
    let mut a = LifeTimer::new(700);
    a.tick(300);
    a.tick(300);
    let mut b = LifeTimer::new(700);
    b.tick(600);
    assert_eq!(a.elapsed_nanos(), b.elapsed_nanos());
    assert_eq!(a.finished(), b.finished());
    a.tick(150);
    b.tick(150);
    assert!(a.finished() && b.finished());
    assert_eq!(a.elapsed_nanos(), b.elapsed_nanos());
}

#[test]
fn bullet_lives_two_seconds() {
    let b = Bullet::new();
    assert_eq!(BULLET_LIFETIME_NANOS, 2_000_000_000);
    assert_eq!(b.lifetime.duration_nanos(), BULLET_LIFETIME_NANOS);
    assert_eq!(b.lifetime.elapsed_nanos(), 0);
    assert!(!b.lifetime.finished());
}

#[test]
fn cleanup_despawns_expired_bullets_in_order() {
    let mut old = Bullet::new();
    old.lifetime.tick(1_900 * MS);
    let young = Bullet::new();
    let mut older = Bullet::new();
    older.lifetime.tick(1_950 * MS);
    let mut bullets = vec![(id(1), old), (id(2), young), (id(3), older)];
    let despawned = system_cleanup_bullets(&mut bullets, 100 * MS);
    assert_eq!(despawned, vec![id(1), id(3)]);
    assert_eq!(bullets.len(), 3);
    assert_eq!(bullets[0].0, id(1));
    assert_eq!(bullets[1].0, id(2));
    assert_eq!(bullets[2].0, id(3));
    assert!(bullets[0].1.lifetime.finished());
    assert_eq!(bullets[1].1.lifetime.elapsed_nanos(), 100 * MS);
    assert!(!bullets[1].1.lifetime.finished());
    assert_eq!(bullets[2].1.lifetime.elapsed_nanos(), 2_000 * MS);
}

#[test]
fn cleanup_over_frames() {
    let mut bullets = vec![(id(5), Bullet::new())];
    let frame = 16 * MS;
    let mut frames = 0;
    loop {
        frames += 1;
        let despawned = system_cleanup_bullets(&mut bullets, frame);
        if !despawned.is_empty() {
            assert_eq!(despawned, vec![id(5)]);
            break;
        }
    }
    // 2 s / 16 ms = 125 frames.
    assert_eq!(frames, 125);
}

#[test]
fn cleanup_of_no_bullets() {
    let mut bullets: Vec<(u64, Bullet)> = vec![];
    assert!(system_cleanup_bullets(&mut bullets, 5 * MS).is_empty());
}

#[test]
fn cleanup_reports_finished_bullets_again() {
    // A finished timer stays finished, so the bullet is reported on every call.
    let mut bullets = vec![(id(1), Bullet::new())];
    assert_eq!(system_cleanup_bullets(&mut bullets, 3_000 * MS), vec![id(1)]);
    assert_eq!(system_cleanup_bullets(&mut bullets, 0), vec![id(1)]);
}
