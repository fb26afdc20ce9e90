# wardogs

A two-plane dogfight built on bevy and avian2d.

- `src/` is the verified library (Verus): which entities a collision step
  despawns (`system_handle_collisions`, `ground::system_handle_collisions`,
  `system_handle_target_hits`, `system_handle_collisions_with_target`), and the
  one-shot lifetime clock of bullets (`bullet::LifeTimer`,
  `bullet::system_cleanup_bullets`). Entities are named by their
  `Entity::to_bits` value; the colliding sets stay avian2d's
  `CollidingEntities`, queried through one trusted wrapper. Laws about these
  steps are public proof functions named `law_*`.
- `app/` is the game itself: the ECS systems that read the world, call the
  library and issue the despawn commands, and the floating-point flight model
  (plane movement, friction, wrapping at the window's edges).
- `tests/` runs the library on concrete entities and timers.
