use vstd::prelude::*;
use rand::Rng;
use crate::explosion::Explosion;
use crate::geometry::Point;
use crate::missile::Missile;
use crate::scene::{
    Scene, arrives, blast, blast_after, burn, explosion_lives, flight, hit, is_intercepted, is_missed,
    is_wreck, launch_point, missile_lives, struck, tally, COUNTER_SPEED, ENEMY_SPEED,
    FIELD_HEIGHT, FIELD_WIDTH, LAUNCH_X, LAUNCH_Y, SPAWN_PERIOD,
};
use crate::sequences::lemma_select_next;

verus! {

/// A whole number drawn at random from `low` up to, and not including, `high`.
///
/// Calls `rand::Rng::gen_range` on the generator that `rand::thread_rng` hands
/// out. Nothing is claimed of the result but its range; `gen_range` panics on
/// an empty range, which is left out.
#[verifier::external_body]
fn random_between(low: i32, high: i32) -> (r: i32)
    requires
        low < high,
    ensures
        low <= r < high,
{
    rand::thread_rng().gen_range(low, high)
}

/// The state of the game.
pub struct MainState {
    /// Ticks since the last falling missile entered.
    pub frames: u32,
    pub cursor: Point,
    pub missiles: Vec<Missile>,
    pub explosions: Vec<Explosion>,
    pub missiles_intercepted: u32,
    pub missiles_missed: u32,
}

impl View for MainState {
    type V = Scene;

    open spec fn view(&self) -> Scene {
        Scene {
            frames: self.frames,
            cursor: self.cursor,
            missiles: self.missiles@,
            explosions: self.explosions@,
            missiles_intercepted: self.missiles_intercepted,
            missiles_missed: self.missiles_missed,
        }
    }
}

impl MainState {
    /// The state is one that the game can be in between two ticks.
    pub open spec fn wf(&self) -> bool {
        self@.wf()
    }

    /// Tells whether the state is well formed.
    pub fn is_wf(&self) -> (r: bool)
        ensures
            r == self.wf(),
    {
        if self.frames >= SPAWN_PERIOD || !self.cursor.is_in_range() {
            return false;
        }
        let n = self.missiles.len();
        let mut i: usize = 0;
        while i < n
            invariant
                i <= n,
                n == self.missiles@.len(),
                forall|k: int|
                    0 <= k < i ==> (#[trigger] self.missiles@[k]).wf() && self.missiles@[k].is_alive,
            decreases n - i,
        {
            if !self.missiles[i].is_wf() || !self.missiles[i].is_alive {
                assert(!(self@.missiles[i as int].wf() && self@.missiles[i as int].is_alive));
                return false;
            }
            i += 1;
        }
        let k = self.explosions.len();
        let mut j: usize = 0;
        while j < k
            invariant
                j <= k,
                k == self.explosions@.len(),
                forall|l: int|
                    0 <= l < j ==> (#[trigger] self.explosions@[l]).wf()
                        && self.explosions@[l].is_alive,
            decreases k - j,
        {
            if !self.explosions[j].is_wf() || !self.explosions[j].is_alive {
                assert(!(self@.explosions[j as int].wf() && self@.explosions[j as int].is_alive));
                return false;
            }
            j += 1;
        }
        true
    }

    /// A game that has just begun.
    pub fn new() -> (s: MainState)
        ensures
            s@ == Scene::initial(),
            s.wf(),
    {
        MainState {
            frames: 0,
            cursor: Point { x: 0, y: 0 },
            missiles: Vec::new(),
            explosions: Vec::new(),
            missiles_intercepted: 0,
            missiles_missed: 0,
        }
    }

    /// Puts the cursor at `(x, y)`.
    pub fn mouse_motion_event(&mut self, x: i32, y: i32)
        ensures
            final(self)@ == old(self)@.aimed(x, y),
            old(self).wf() ==> final(self).wf(),
    {
        self.cursor = Point { x: x as i64, y: y as i64 };
        assert(self.cursor.in_range());
    }

    /// Fires a counter-missile from the launch point at the cursor.
    pub fn mouse_button_up_event(&mut self)
        requires
            old(self).cursor.in_range(),
            old(self).cursor != launch_point(),
        ensures
            final(self)@ == old(self)@.fired(),
            old(self).wf() ==> final(self).wf(),
    {
        let launch = Point { x: LAUNCH_X, y: LAUNCH_Y };
        let missile = Missile::new(COUNTER_SPEED, launch, self.cursor, true);
        self.missiles.push(missile);
        proof {
            if old(self).wf() {
                assert forall|i: int| 0 <= i < self@.missiles.len() implies (
                #[trigger] self@.missiles[i]).wf() && self@.missiles[i].is_alive by {
                    if i < old(self)@.missiles.len() {
                        assert(self@.missiles[i] == old(self)@.missiles[i]);
                    }
                }
            }
        }
    }
    /// Moves every missile in flight on by `elapsed` clock steps. Each one
    /// that arrives at its target dies and leaves a blast where it stands.
    pub fn advance_missiles(&mut self, elapsed: u32)
        requires
            forall|i: int|
                0 <= i < old(self).missiles@.len() ==> (#[trigger] old(self).missiles@[i]).wf(),
        ensures
            final(self)@ == old(self)@.missiles_advanced(elapsed),
    {
        let n = self.missiles.len();
        let mut i: usize = 0;
        while i < n
            invariant
                i <= n,
                n == old(self).missiles@.len(),
                self.missiles@.len() == n,
                forall|k: int| 0 <= k < n ==> (#[trigger] old(self).missiles@[k]).wf(),
                forall|k: int|
                    0 <= k < i ==> #[trigger] self.missiles@[k] == flight(elapsed)(
                        old(self).missiles@[k],
                    ),
                forall|k: int| i <= k < n ==> #[trigger] self.missiles@[k] == old(self).missiles@[k],
                self.explosions@ == old(self).explosions@ + old(self).missiles@.take(
                    i as int,
                ).filter(arrives(elapsed)).map_values(blast_after(elapsed)),
                self.frames == old(self).frames,
                self.cursor == old(self).cursor,
                self.missiles_intercepted == old(self).missiles_intercepted,
                self.missiles_missed == old(self).missiles_missed,
            decreases n - i,
        {
            let mut m = self.missiles[i];
            let ghost emitted = old(self).missiles@.take(i as int).filter(
                arrives(elapsed),
            ).map_values(blast_after(elapsed));
            proof {
                lemma_select_next(
                    old(self).missiles@,
                    arrives(elapsed),
                    blast_after(elapsed),
                    i as int,
                );
            }
            if m.is_alive {
                m.update(elapsed);
                if !m.is_alive {
                    m.explode(&mut self.explosions);
                    assert(self.explosions@ =~= old(self).explosions@ + emitted.push(
                        Explosion::fresh(m.position),
                    ));
                }
                self.missiles.set(i, m);
            }
            i += 1;
        }
        proof {
            assert(old(self).missiles@.take(n as int) =~= old(self).missiles@);
            assert(self.missiles@ =~= old(self).missiles@.map_values(flight(elapsed)));
        }
    }

    /// Lets every live blast grow or shrink for `elapsed` clock steps.
    pub fn advance_explosions(&mut self, elapsed: u32)
        ensures
            final(self)@ == old(self)@.explosions_advanced(elapsed),
    {
        let n = self.explosions.len();
        let mut i: usize = 0;
        while i < n
            invariant
                i <= n,
                n == old(self).explosions@.len(),
                self.explosions@.len() == n,
                forall|k: int|
                    0 <= k < i ==> #[trigger] self.explosions@[k] == burn(elapsed)(
                        old(self).explosions@[k],
                    ),
                forall|k: int|
                    i <= k < n ==> #[trigger] self.explosions@[k] == old(self).explosions@[k],
                self.missiles@ == old(self).missiles@,
                self.frames == old(self).frames,
                self.cursor == old(self).cursor,
                self.missiles_intercepted == old(self).missiles_intercepted,
                self.missiles_missed == old(self).missiles_missed,
            decreases n - i,
        {
            let mut e = self.explosions[i];
            if e.is_alive {
                e.update(elapsed);
                self.explosions.set(i, e);
            }
            i += 1;
        }
        proof {
            assert(self.explosions@ =~= old(self).explosions@.map_values(burn(elapsed)));
        }
    }

    /// Tells whether some blast reaches `p`.
    pub fn is_struck(&self, p: &Point) -> (r: bool)
        ensures
            r == struck(*p, self.explosions@),
    {
        let n = self.explosions.len();
        let mut j: usize = 0;
        while j < n
            invariant
                j <= n,
                n == self.explosions@.len(),
                forall|k: int| 0 <= k < j ==> !(#[trigger] self.explosions@[k]).reaches(*p),
            decreases n - j,
        {
            if self.explosions[j].engulfs(p) {
                return true;
            }
            j += 1;
        }
        false
    }

    /// Kills every missile that can be destroyed and that a blast reaches.
    pub fn handle_collisions(&mut self)
        ensures
            final(self)@ == old(self)@.collisions_handled(),
    {
        let n = self.missiles.len();
        let mut i: usize = 0;
        while i < n
            invariant
                i <= n,
                n == old(self).missiles@.len(),
                self.missiles@.len() == n,
                forall|k: int|
                    0 <= k < i ==> #[trigger] self.missiles@[k] == hit(old(self).explosions@)(
                        old(self).missiles@[k],
                    ),
                forall|k: int| i <= k < n ==> #[trigger] self.missiles@[k] == old(self).missiles@[k],
                self.explosions@ == old(self).explosions@,
                self.frames == old(self).frames,
                self.cursor == old(self).cursor,
                self.missiles_intercepted == old(self).missiles_intercepted,
                self.missiles_missed == old(self).missiles_missed,
            decreases n - i,
        {
            let mut m = self.missiles[i];
            if m.is_alive && !m.is_invincible && self.is_struck(&m.position) {
                m.is_alive = false;
                self.missiles.set(i, m);
            }
            i += 1;
        }
        proof {
            assert(self.missiles@ =~= old(self).missiles@.map_values(hit(old(self).explosions@)));
        }
    }

    /// Lets every missile that died short of its target leave a blast where it stands.
    pub fn explode_dead_missiles(&mut self)
        ensures
            final(self)@ == old(self)@.dead_missiles_exploded(),
    {
        let n = self.missiles.len();
        let mut i: usize = 0;
        while i < n
            invariant
                i <= n,
                n == self.missiles@.len(),
                self.missiles@ == old(self).missiles@,
                self.explosions@ == old(self).explosions@ + self.missiles@.take(i as int).filter(
                    is_wreck(),
                ).map_values(blast()),
                self.frames == old(self).frames,
                self.cursor == old(self).cursor,
                self.missiles_intercepted == old(self).missiles_intercepted,
                self.missiles_missed == old(self).missiles_missed,
            decreases n - i,
        {
            let m = self.missiles[i];
            let ghost emitted = self.missiles@.take(i as int).filter(is_wreck()).map_values(
                blast(),
            );
            proof {
                lemma_select_next(self.missiles@, is_wreck(), blast(), i as int);
            }
            if !m.is_alive && !m.did_hit_target() {
                m.explode(&mut self.explosions);
                assert(self.explosions@ =~= old(self).explosions@ + emitted.push(
                    Explosion::fresh(m.position),
                ));
            }
            i += 1;
        }
        proof {
            assert(self.missiles@.take(n as int) =~= self.missiles@);
        }
    }

    /// Counts the dead falling missiles: those at their target as missed, the
    /// others as intercepted.
    pub fn update_score(&mut self)
        ensures
            final(self)@ == old(self)@.score_updated(),
    {
        let n = self.missiles.len();
        let mut i: usize = 0;
        while i < n
            invariant
                i <= n,
                n == self.missiles@.len(),
                self.missiles@ == old(self).missiles@,
                self.explosions@ == old(self).explosions@,
                self.frames == old(self).frames,
                self.cursor == old(self).cursor,
                self.missiles_intercepted == tally(
                    old(self).missiles_intercepted,
                    self.missiles@.take(i as int).filter(is_intercepted()).len(),
                ),
                self.missiles_missed == tally(
                    old(self).missiles_missed,
                    self.missiles@.take(i as int).filter(is_missed()).len(),
                ),
            decreases n - i,
        {
            let m = self.missiles[i];
            proof {
                lemma_select_next(self.missiles@, is_intercepted(), blast(), i as int);
                lemma_select_next(self.missiles@, is_missed(), blast(), i as int);
            }
            if !m.is_alive && !m.is_invincible {
                if m.did_hit_target() {
                    self.missiles_missed = self.missiles_missed.saturating_add(1);
                } else {
                    self.missiles_intercepted = self.missiles_intercepted.saturating_add(1);
                }
            }
            i += 1;
        }
        proof {
            assert(self.missiles@.take(n as int) =~= self.missiles@);
        }
    }

    /// Counts the tick and, once in every period, lets a falling missile enter
    /// at the top at `origin_x`, aimed at the bottom at `target_x`.
    pub fn spawn(&mut self, origin_x: i32, target_x: i32)
        ensures
            final(self)@ == old(self)@.spawned(origin_x, target_x),
    {
        if self.frames == 0 {
            let origin = Point { x: origin_x as i64, y: 0 };
            let target = Point { x: target_x as i64, y: FIELD_HEIGHT };
            assert(origin.in_range() && target.in_range());
            self.missiles.push(Missile::new(ENEMY_SPEED, origin, target, false));
        }
        self.frames = if self.frames >= SPAWN_PERIOD - 1 {
            0
        } else {
            self.frames + 1
        };
    }

    /// Removes the dead missiles and the dead blasts.
    pub fn remove_dead_entites(&mut self)
        ensures
            final(self)@ == old(self)@.dead_removed(),
    {
        let mut missiles: Vec<Missile> = Vec::new();
        let n = self.missiles.len();
        let mut i: usize = 0;
        while i < n
            invariant
                i <= n,
                n == self.missiles@.len(),
                *self == *old(self),
                missiles@ == self.missiles@.take(i as int).filter(missile_lives()),
            decreases n - i,
        {
            proof {
                lemma_select_next(self.missiles@, missile_lives(), blast(), i as int);
            }
            if self.missiles[i].is_alive {
                missiles.push(self.missiles[i]);
            }
            i += 1;
        }
        let mut explosions: Vec<Explosion> = Vec::new();
        let k = self.explosions.len();
        let mut j: usize = 0;
        while j < k
            invariant
                j <= k,
                k == self.explosions@.len(),
                *self == *old(self),
                explosions@ == self.explosions@.take(j as int).filter(explosion_lives()),
            decreases k - j,
        {
            proof {
                lemma_select_next(
                    self.explosions@,
                    explosion_lives(),
                    |e: Explosion| e,
                    j as int,
                );
            }
            if self.explosions[j].is_alive {
                explosions.push(self.explosions[j]);
            }
            j += 1;
        }
        proof {
            assert(self.missiles@.take(n as int) =~= self.missiles@);
            assert(self.explosions@.take(k as int) =~= self.explosions@);
        }
        self.missiles = missiles;
        self.explosions = explosions;
    }

    /// Advances the game by one tick of `elapsed` clock steps.
    ///
    /// Missiles move, those that arrive explode; blasts grow or shrink; blasts
    /// destroy what they reach, and what they destroy explodes; the score is
    /// kept; if a falling missile is due, it enters at `origin_x` aimed at
    /// `target_x`; what is dead is removed.
    pub fn step(&mut self, elapsed: u32, origin_x: i32, target_x: i32)
        requires
            old(self).wf(),
        ensures
            final(self)@ == old(self)@.stepped(elapsed, origin_x, target_x),
            final(self).wf(),
    {
        self.advance_missiles(elapsed);
        self.advance_explosions(elapsed);
        self.handle_collisions();
        self.explode_dead_missiles();
        self.update_score();
        self.spawn(origin_x, target_x);
        self.remove_dead_entites();
        proof {
            old(self)@.lemma_stepped_wf(elapsed, origin_x, target_x);
        }
    }

    /// Advances the game by one tick of `elapsed` clock steps. A falling
    /// missile that is due enters at a random place and aims at a random place.
    pub fn update(&mut self, elapsed: u32)
        requires
            old(self).wf(),
        ensures
            final(self).wf(),
            exists|origin_x: i32, target_x: i32|
                0 <= origin_x < FIELD_WIDTH && 0 <= target_x < FIELD_WIDTH && final(self)@ == old(
                    self,
                )@.stepped(elapsed, origin_x, target_x),
    {
        let origin_x: i32 = if self.frames == 0 {
            random_between(0, FIELD_WIDTH)
        } else {
            0
        };
        let target_x: i32 = if self.frames == 0 {
            random_between(0, FIELD_WIDTH)
        } else {
            0
        };
        self.step(elapsed, origin_x, target_x);
    }
}

} // verus!
