//! Bullets and the clock that ends their flight.

use vstd::prelude::*;
use bevy::time::{Timer, TimerMode};
use std::time::Duration;

verus! {

/// How long a bullet flies before it is removed: two seconds.
pub const BULLET_LIFETIME_NANOS: u64 = 2_000_000_000;

/// Ticks a fresh `bevy::time::Timer` in `TimerMode::Once` whose duration is
/// `duration` and whose elapsed time was set to `elapsed` (all in
/// nanoseconds) by `delta`, through `Timer::tick`, and reads back
/// `Timer::elapsed` and `Timer::finished`. Claimed, as the source of
/// `Timer::tick` shows for an unpaused timer that has not finished: the timer
/// finishes once the elapsed time reaches the duration, and then its elapsed
/// time is set to the duration; otherwise the elapsed time grows by `delta`.
#[verifier::external_body]
fn once_timer_tick(elapsed: u64, duration: u64, delta: u64) -> (res: (u64, bool))
    ensures
        res.1 == (elapsed + delta >= duration),
        res.0 == (if res.1 {
            duration as int
        } else {
            elapsed + delta
        }),
{
    let mut timer = Timer::new(Duration::from_nanos(duration), TimerMode::Once);
    timer.set_elapsed(Duration::from_nanos(elapsed));
    timer.tick(Duration::from_nanos(delta));
    (timer.elapsed().as_nanos() as u64, timer.finished())
}

/// The state of a one-shot timer: time elapsed, the duration to reach, and
/// whether it has been reached.
pub struct TimerView {
    pub elapsed: nat,
    pub duration: nat,
    pub finished: bool,
}

impl TimerView {
    /// A reachable state: the elapsed time never passes the duration, and a
    /// finished timer has reached it.
    pub open spec fn wf(self) -> bool {
        &&& self.elapsed <= self.duration
        &&& self.finished ==> self.elapsed == self.duration
    }
}

/// A one-shot timer after a tick of `delta`: a finished timer stays as it
/// is; otherwise the elapsed time grows by `delta`, and once it reaches the
/// duration the timer is finished and its elapsed time is the duration.
pub open spec fn tick_spec(t: TimerView, delta: nat) -> TimerView {
    if t.finished {
        t
    } else if t.elapsed + delta >= t.duration {
        TimerView { elapsed: t.duration, duration: t.duration, finished: true }
    } else {
        TimerView { elapsed: t.elapsed + delta, duration: t.duration, finished: false }
    }
}

/// A one-shot timer counted in nanoseconds, as `bevy::time::Timer` in
/// `TimerMode::Once` keeps it.
#[derive(Clone, Copy)]
pub struct LifeTimer {
    elapsed_nanos: u64,
    duration_nanos: u64,
    finished: bool,
}

impl LifeTimer {
    #[verifier::type_invariant]
    closed spec fn inv(self) -> bool {
        &&& self.elapsed_nanos <= self.duration_nanos
        &&& self.finished ==> self.elapsed_nanos == self.duration_nanos
    }
}

impl View for LifeTimer {
    type V = TimerView;

    closed spec fn view(&self) -> TimerView {
        TimerView {
            elapsed: self.elapsed_nanos as nat,
            duration: self.duration_nanos as nat,
            finished: self.finished,
        }
    }
}

impl LifeTimer {
    /// A timer of `duration_nanos` that has not started.
    pub fn new(duration_nanos: u64) -> (t: LifeTimer)
        ensures
            t@ == (TimerView { elapsed: 0, duration: duration_nanos as nat, finished: false }),
    {
        LifeTimer { elapsed_nanos: 0, duration_nanos, finished: false }
    }

    /// Advances the timer by `delta_nanos`.
    pub fn tick(&mut self, delta_nanos: u64)
        ensures
            final(self)@ == tick_spec(old(self)@, delta_nanos as nat),
            final(self)@.wf(),
    {
        proof {
            use_type_invariant(&*self);
        }
        let (elapsed, finished) = once_timer_tick(self.elapsed_nanos, self.duration_nanos, delta_nanos);
        self.elapsed_nanos = elapsed;
        self.finished = finished;
    }

    /// Whether the duration has been reached.
    pub fn finished(&self) -> (b: bool)
        ensures
            b == self@.finished,
            self@.wf(),
    {
        proof {
            use_type_invariant(self);
        }
        self.finished
    }

    /// The time elapsed so far.
    pub fn elapsed_nanos(&self) -> (n: u64)
        ensures
            n == self@.elapsed,
    {
        self.elapsed_nanos
    }

    /// The duration to reach.
    pub fn duration_nanos(&self) -> (n: u64)
        ensures
            n == self@.duration,
    {
        self.duration_nanos
    }
}

/// A bullet in flight, with the clock of its remaining life.
#[derive(Clone, Copy)]
pub struct Bullet {
    pub lifetime: LifeTimer,
}

impl Bullet {
    /// A bullet that has just been fired, to live `BULLET_LIFETIME_NANOS`.
    pub fn new() -> (b: Bullet)
        ensures
            b.lifetime@ == (TimerView {
                elapsed: 0,
                duration: BULLET_LIFETIME_NANOS as nat,
                finished: false,
            }),
    {
        Bullet { lifetime: LifeTimer::new(BULLET_LIFETIME_NANOS) }
    }
}

/// The entities, in order, of the bullets whose lifetime has finished.
pub open spec fn finished_entities(bullets: Seq<(u64, Bullet)>) -> Seq<u64>
    decreases bullets.len(),
{
    if bullets.len() == 0 {
        seq![]
    } else {
        let rest = finished_entities(bullets.drop_last());
        if bullets.last().1.lifetime@.finished {
            rest.push(bullets.last().0)
        } else {
            rest
        }
    }
}

/// The bullets, in order, whose lifetime has finished.
pub open spec fn finished_bullets(bullets: Seq<(u64, Bullet)>) -> Seq<(u64, Bullet)> {
    bullets.filter(|b: (u64, Bullet)| b.1.lifetime@.finished)
}

/// The entities of `bullets`, in order.
pub open spec fn bullet_entities(bullets: Seq<(u64, Bullet)>) -> Seq<u64> {
    bullets.map_values(|b: (u64, Bullet)| b.0)
}

/// Law: the bullets reported for despawning are exactly those whose lifetime
/// has finished, all of them and in their order.
pub proof fn law_reported_are_finished_bullets(bullets: Seq<(u64, Bullet)>)
    ensures
        finished_entities(bullets) == bullet_entities(finished_bullets(bullets)),
    decreases bullets.len(),
{
    broadcast use Seq::lemma_filter_push;

    if bullets.len() > 0 {
        let init = bullets.drop_last();
        let last = bullets.last();
        law_reported_are_finished_bullets(init);
        assert(init.push(last) =~= bullets);
        let f0 = finished_bullets(init);
        assert(bullet_entities(f0.push(last)) =~= bullet_entities(f0).push(last.0));
    }
}

/// Law: an entity is reported exactly when some bullet of that entity has a
/// finished lifetime; in particular every finished bullet is reported.
pub proof fn law_reported_members(bullets: Seq<(u64, Bullet)>, x: u64)
    ensures
        finished_entities(bullets).contains(x) <==> exists|i: int|
            0 <= i < bullets.len() && (#[trigger] bullets[i]).0 == x
                && bullets[i].1.lifetime@.finished,
    decreases bullets.len(),
{
    broadcast use vstd::seq_lib::lemma_seq_contains_after_push;

    if bullets.len() > 0 {
        let init = bullets.drop_last();
        law_reported_members(init, x);
        if finished_entities(init).contains(x) {
            let i = choose|i: int|
                0 <= i < init.len() && (#[trigger] init[i]).0 == x && init[i].1.lifetime@.finished;
            assert(bullets[i] == init[i]);
        }
        if exists|i: int|
            0 <= i < bullets.len() && (#[trigger] bullets[i]).0 == x
                && bullets[i].1.lifetime@.finished {
            let i = choose|i: int|
                0 <= i < bullets.len() && (#[trigger] bullets[i]).0 == x
                    && bullets[i].1.lifetime@.finished;
            if i < init.len() {
                assert(init[i] == bullets[i]);
            }
        }
    }
}

/// Advances the lifetime of every bullet, each given with its entity, by
/// `delta_nanos`, and returns, in order, the entities of the bullets whose
/// lifetime has then finished: they are to be despawned.
pub fn system_cleanup_bullets(bullets: &mut Vec<(u64, Bullet)>, delta_nanos: u64) -> (despawned:
    Vec<u64>)
    ensures
        final(bullets)@.len() == old(bullets)@.len(),
        forall|i: int|
            0 <= i < old(bullets)@.len() ==> (#[trigger] final(bullets)@[i]).0 == old(bullets)@[i].0
                && final(bullets)@[i].1.lifetime@ == tick_spec(
                old(bullets)@[i].1.lifetime@,
                delta_nanos as nat,
            ),
        despawned@ == finished_entities(final(bullets)@),
        despawned@ == bullet_entities(finished_bullets(final(bullets)@)),
        forall|i: int|
            0 <= i < final(bullets)@.len() && (#[trigger] final(bullets)@[i]).1.lifetime@.finished
                ==> despawned@.contains(final(bullets)@[i].0),
        forall|x: u64|
            #[trigger] despawned@.contains(x) ==> exists|i: int|
                0 <= i < final(bullets)@.len() && (#[trigger] final(bullets)@[i]).0 == x
                    && final(bullets)@[i].1.lifetime@.finished,
{
    let ghost start = bullets@;
    let mut despawned: Vec<u64> = Vec::new();
    let mut i: usize = 0;
    while i < bullets.len()
        invariant
            i <= bullets.len(),
            bullets@.len() == start.len(),
            forall|k: int|
                0 <= k < i ==> (#[trigger] bullets@[k]).0 == start[k].0
                    && bullets@[k].1.lifetime@ == tick_spec(
                    start[k].1.lifetime@,
                    delta_nanos as nat,
                ),
            forall|k: int| i <= k < start.len() ==> #[trigger] bullets@[k] == start[k],
            despawned@ == finished_entities(bullets@.take(i as int)),
        decreases bullets.len() - i,
    {
        let mut entry = bullets[i];
        entry.1.lifetime.tick(delta_nanos);
        let finished = entry.1.lifetime.finished();
        let ghost prefix = bullets@.take(i as int);
        bullets.set(i, entry);
        assert(bullets@.take(i as int) =~= prefix);
        assert(bullets@.take(i + 1).drop_last() =~= prefix);
        assert(bullets@.take(i + 1).last() == entry);
        if finished {
            despawned.push(entry.0);
        }
        i = i + 1;
    }
    assert(bullets@.take(bullets.len() as int) =~= bullets@);
    proof {
        law_reported_are_finished_bullets(bullets@);
        assert forall|x: u64| #[trigger] despawned@.contains(x) <==> exists|i: int|
            0 <= i < bullets@.len() && (#[trigger] bullets@[i]).0 == x
                && bullets@[i].1.lifetime@.finished by {
            law_reported_members(bullets@, x);
        }
        assert forall|i: int|
            0 <= i < bullets@.len() && (#[trigger] bullets@[i]).1.lifetime@.finished implies despawned@.contains(
            bullets@[i].0,
        ) by {
            law_reported_members(bullets@, bullets@[i].0);
        }
    }
    despawned
}

/// Law: a tick keeps a timer reachable, keeps its duration, and never moves
/// its elapsed time back.
pub proof fn law_tick_keeps_wf(t: TimerView, delta: nat)
    requires
        t.wf(),
    ensures
        tick_spec(t, delta).wf(),
        tick_spec(t, delta).duration == t.duration,
        tick_spec(t, delta).elapsed >= t.elapsed,
{
}

/// Law: a finished timer stays finished and no tick changes it.
pub proof fn law_finished_stays(t: TimerView, delta: nat)
    requires
        t.finished,
    ensures
        tick_spec(t, delta) == t,
{
}

/// Law: ticking by `a` and then by `b` leaves a timer as one tick by `a + b`.
pub proof fn law_ticks_add_up(t: TimerView, a: nat, b: nat)
    requires
        t.wf(),
    ensures
        tick_spec(tick_spec(t, a), b) == tick_spec(t, a + b),
{
}

/// Law: a timer that has not started finishes on a tick exactly when the tick
/// reaches its duration.
pub proof fn law_fresh_timer_finishes_at_duration(duration: nat, total: nat)
    ensures
        tick_spec(TimerView { elapsed: 0, duration, finished: false }, total).finished <==> total
            >= duration,
{
}

} // verus!
