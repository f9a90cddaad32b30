use vstd::prelude::*;
use crate::explosion::Explosion;
use crate::geometry::Point;
use crate::missile::Missile;

verus! {

/// Width of the field, in grid steps: eight hundred field units.
pub const FIELD_WIDTH: i32 = 4800000;

/// Height of the field, in grid steps: six hundred field units.
pub const FIELD_HEIGHT: i64 = 3600000;

/// Where counter-missiles are fired from, across the field: at its middle.
pub const LAUNCH_X: i64 = 2400000;

/// Where counter-missiles are fired from, down the field: fifty field units
/// above its bottom.
pub const LAUNCH_Y: i64 = 3300000;

/// Speed of a falling missile, in field units per second.
pub const ENEMY_SPEED: u32 = 100;

/// Speed of a counter-missile, in field units per second.
pub const COUNTER_SPEED: u32 = 500;

/// Number of ticks from one falling missile to the next.
pub const SPAWN_PERIOD: u32 = 100;

/// The point from which counter-missiles are fired.
pub open spec fn launch_point() -> Point {
    Point { x: LAUNCH_X, y: LAUNCH_Y }
}

/// A missile in flight arrives at its target within the next `elapsed` clock steps.
pub open spec fn arrives(elapsed: u32) -> spec_fn(Missile) -> bool {
    |m: Missile| m.is_alive && !m.moved(elapsed).is_alive
}

/// The blast that a missile leaves where it stands after `elapsed` more clock steps.
pub open spec fn blast_after(elapsed: u32) -> spec_fn(Missile) -> Explosion {
    |m: Missile| Explosion::fresh(m.moved(elapsed).position)
}

/// A missile in flight moves on by `elapsed` clock steps; a dead one stays as it is.
pub open spec fn flight(elapsed: u32) -> spec_fn(Missile) -> Missile {
    |m: Missile|
        if m.is_alive {
            m.moved(elapsed)
        } else {
            m
        }
}

/// A live blast changes for `elapsed` clock steps; a dead one stays as it is.
pub open spec fn burn(elapsed: u32) -> spec_fn(Explosion) -> Explosion {
    |e: Explosion|
        if e.is_alive {
            e.grown(elapsed)
        } else {
            e
        }
}

/// Some blast among `explosions` reaches `p`.
pub open spec fn struck(p: Point, explosions: Seq<Explosion>) -> bool {
    exists|j: int| 0 <= j < explosions.len() && (#[trigger] explosions[j]).reaches(p)
}

/// The missile after the blasts have been held against it: dead if it can be
/// destroyed and a blast reaches it, unchanged otherwise.
pub open spec fn hit(explosions: Seq<Explosion>) -> spec_fn(Missile) -> Missile {
    |m: Missile|
        Missile {
            speed: m.speed,
            position: m.position,
            origin: m.origin,
            target: m.target,
            travelled: m.travelled,
            is_invincible: m.is_invincible,
            is_alive: m.is_alive && (m.is_invincible || !struck(m.position, explosions)),
        }
}

/// The missile was destroyed short of its target and has yet to leave its blast.
pub open spec fn is_wreck() -> spec_fn(Missile) -> bool {
    |m: Missile| !m.is_alive && !m.reached()
}

/// The blast that a missile leaves where it stands.
pub open spec fn blast() -> spec_fn(Missile) -> Explosion {
    |m: Missile| Explosion::fresh(m.position)
}

/// A falling missile that came through to its target.
pub open spec fn is_missed() -> spec_fn(Missile) -> bool {
    |m: Missile| !m.is_alive && !m.is_invincible && m.reached()
}

/// A falling missile that was destroyed on its way.
pub open spec fn is_intercepted() -> spec_fn(Missile) -> bool {
    |m: Missile| !m.is_alive && !m.is_invincible && !m.reached()
}

/// The missile is dead.
pub open spec fn missile_is_dead() -> spec_fn(Missile) -> bool {
    |m: Missile| !m.is_alive
}

/// The missile is alive.
pub open spec fn missile_lives() -> spec_fn(Missile) -> bool {
    |m: Missile| m.is_alive
}

/// The blast is alive.
pub open spec fn explosion_lives() -> spec_fn(Explosion) -> bool {
    |e: Explosion| e.is_alive
}

/// A counter raised by `more`, stopping at the largest value it can hold.
pub open spec fn tally(count: u32, more: nat) -> u32 {
    if count + more > u32::MAX {
        u32::MAX
    } else {
        (count + more) as u32
    }
}

/// The falling missile that enters the field at the top, at `origin_x`, and
/// aims at the bottom, at `target_x`.
pub open spec fn newcomer(origin_x: i32, target_x: i32) -> Missile {
    Missile::launched(
        ENEMY_SPEED,
        Point { x: origin_x as i64, y: 0 },
        Point { x: target_x as i64, y: FIELD_HEIGHT },
        false,
    )
}

/// The missiles among `missiles` that the blasts among `explosions` destroy.
pub open spec fn deaths(missiles: Seq<Missile>, explosions: Seq<Explosion>) -> Set<Missile> {
    Set::new(
        |m: Missile|
            missiles.contains(m) && m.is_alive && !m.is_invincible && struck(
                m.position,
                explosions,
            ),
    )
}

/// The state of the game as a mathematical value.
pub struct Scene {
    /// Ticks since the last falling missile entered.
    pub frames: u32,
    pub cursor: Point,
    pub missiles: Seq<Missile>,
    pub explosions: Seq<Explosion>,
    pub missiles_intercepted: u32,
    pub missiles_missed: u32,
}

impl Scene {
    /// What holds between two ticks: the collections hold nothing dead, every
    /// missile is on its course, every blast is well formed, the cursor can be
    /// aimed at, and the count of ticks since the last new missile is within its period.
    pub open spec fn wf(self) -> bool {
        &&& self.frames < SPAWN_PERIOD
        &&& self.cursor.in_range()
        &&& forall|i: int|
            0 <= i < self.missiles.len() ==> (#[trigger] self.missiles[i]).wf()
                && self.missiles[i].is_alive
        &&& forall|j: int|
            0 <= j < self.explosions.len() ==> (#[trigger] self.explosions[j]).wf()
                && self.explosions[j].is_alive
    }

    /// The scene of a game that has just begun.
    pub open spec fn initial() -> Scene {
        Scene {
            frames: 0,
            cursor: Point { x: 0, y: 0 },
            missiles: Seq::empty(),
            explosions: Seq::empty(),
            missiles_intercepted: 0,
            missiles_missed: 0,
        }
    }

    /// Every missile in flight has moved on; each one that arrived at its
    /// target is dead and has left a blast where it stands.
    pub open spec fn missiles_advanced(self, elapsed: u32) -> Scene {
        Scene {
            missiles: self.missiles.map_values(flight(elapsed)),
            explosions: self.explosions + self.missiles.filter(arrives(elapsed)).map_values(
                blast_after(elapsed),
            ),
            ..self
        }
    }

    /// Every live blast has grown or shrunk.
    pub open spec fn explosions_advanced(self, elapsed: u32) -> Scene {
        Scene { explosions: self.explosions.map_values(burn(elapsed)), ..self }
    }

    /// Every missile that can be destroyed and that a blast reaches is dead.
    pub open spec fn collisions_handled(self) -> Scene {
        Scene { missiles: self.missiles.map_values(hit(self.explosions)), ..self }
    }

    /// Every missile that died short of its target has left a blast where it stands.
    pub open spec fn dead_missiles_exploded(self) -> Scene {
        Scene {
            explosions: self.explosions + self.missiles.filter(is_wreck()).map_values(blast()),
            ..self
        }
    }

    /// The dead falling missiles are counted: those at their target as missed,
    /// the others as intercepted.
    pub open spec fn score_updated(self) -> Scene {
        Scene {
            missiles_intercepted: tally(
                self.missiles_intercepted,
                self.missiles.filter(is_intercepted()).len(),
            ),
            missiles_missed: tally(self.missiles_missed, self.missiles.filter(is_missed()).len()),
            ..self
        }
    }

    /// Once in every period a falling missile enters; the count of ticks moves on.
    pub open spec fn spawned(self, origin_x: i32, target_x: i32) -> Scene {
        Scene {
            frames: if self.frames + 1 >= SPAWN_PERIOD {
                0
            } else {
                (self.frames + 1) as u32
            },
            missiles: if self.frames == 0 {
                self.missiles.push(newcomer(origin_x, target_x))
            } else {
                self.missiles
            },
            ..self
        }
    }

    /// What is dead is gone; what lives keeps its order.
    pub open spec fn dead_removed(self) -> Scene {
        Scene {
            missiles: self.missiles.filter(missile_lives()),
            explosions: self.explosions.filter(explosion_lives()),
            ..self
        }
    }

    /// The scene one tick later.
    pub open spec fn stepped(self, elapsed: u32, origin_x: i32, target_x: i32) -> Scene {
        self.missiles_advanced(elapsed).explosions_advanced(
            elapsed,
        ).collisions_handled().dead_missiles_exploded().score_updated().spawned(
            origin_x,
            target_x,
        ).dead_removed()
    }

    /// The scene with the cursor at `(x, y)`.
    pub open spec fn aimed(self, x: i32, y: i32) -> Scene {
        Scene { cursor: Point { x: x as i64, y: y as i64 }, ..self }
    }

    /// The scene after a counter-missile has been fired at the cursor.
    pub open spec fn fired(self) -> Scene {
        Scene {
            missiles: self.missiles.push(
                Missile::launched(COUNTER_SPEED, launch_point(), self.cursor, true),
            ),
            ..self
        }
    }
}

} // verus!
