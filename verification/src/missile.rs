use vstd::prelude::*;
use crate::explosion::Explosion;
use crate::geometry::{Point, lemma_square_le};
use crate::ray::{
    along, lemma_along_monotone, lemma_ray_point_on_course, magnitude, point_on_ray, ray_point,
};

verus! {

/// Distance from its target below which a missile has arrived: five field units.
pub const HIT_RADIUS: i64 = 30000;

/// Distance from its origin at which a missile starts: one field unit, so that
/// the segment from origin to position never has length zero.
pub const HEAD_START: u32 = 6000;

/// A missile: a point that moves at constant speed from its origin straight
/// toward its target.
#[derive(Clone, Copy, Debug, PartialEq, Eq, Structural)]
pub struct Missile {
    /// Grid steps per clock step.
    pub speed: u32,
    pub position: Point,
    pub origin: Point,
    pub target: Point,
    /// Distance covered since the origin, in grid steps. It stops at the
    /// largest value it can hold.
    pub travelled: u32,
    pub is_invincible: bool,
    pub is_alive: bool,
}

impl Missile {
    /// The missile as it is launched.
    pub open spec fn launched(speed: u32, origin: Point, target: Point, is_invincible: bool)
        -> Missile {
        Missile {
            speed,
            position: ray_point(origin, target, HEAD_START as int),
            origin,
            target,
            travelled: HEAD_START,
            is_invincible,
            is_alive: true,
        }
    }

    /// The trajectory is defined and within reach, and the position is the
    /// point of the trajectory at the distance travelled.
    pub open spec fn wf(self) -> bool {
        &&& self.origin.in_range()
        &&& self.target.in_range()
        &&& self.origin != self.target
        &&& self.position == ray_point(self.origin, self.target, self.travelled as int)
    }

    /// The missile is less than [`HIT_RADIUS`] away from its target.
    pub open spec fn reached(self) -> bool {
        self.position.near(self.target, HIT_RADIUS as int)
    }

    /// The distance travelled once `elapsed` more clock steps have passed.
    pub open spec fn distance_after(self, elapsed: u32) -> u32 {
        if self.travelled + self.speed * elapsed > u32::MAX {
            u32::MAX
        } else {
            (self.travelled + self.speed * elapsed) as u32
        }
    }

    /// The missile after `elapsed` clock steps: further along its trajectory
    /// by `speed * elapsed`, and no longer alive if that has brought it to its
    /// target.
    pub open spec fn moved(self, elapsed: u32) -> Missile {
        let travelled = self.distance_after(elapsed);
        let position = ray_point(self.origin, self.target, travelled as int);
        Missile {
            speed: self.speed,
            position,
            origin: self.origin,
            target: self.target,
            travelled,
            is_invincible: self.is_invincible,
            is_alive: self.is_alive && !position.near(self.target, HIT_RADIUS as int),
        }
    }

    /// The missile after a run of updates, one for each entry of `steps`.
    pub open spec fn flown(self, steps: Seq<u32>) -> Missile
        decreases steps.len(),
    {
        if steps.len() == 0 {
            self
        } else {
            self.flown(steps.drop_last()).moved(steps.last())
        }
    }

    /// Launches a missile from `origin` toward `target`.
    pub fn new(speed: u32, origin: Point, target: Point, is_invincible: bool) -> (m: Missile)
        requires
            origin.in_range(),
            target.in_range(),
            origin != target,
        ensures
            m == Missile::launched(speed, origin, target, is_invincible),
            m.wf(),
            m.position != m.origin,
    {
        let position = point_on_ray(&origin, &target, HEAD_START);
        proof {
            lemma_ray_point_on_course(origin, target, HEAD_START as int);
        }
        Missile {
            speed,
            position,
            origin,
            target,
            travelled: HEAD_START,
            is_invincible,
            is_alive: true,
        }
    }

    /// Tells whether the missile is well formed.
    pub fn is_wf(&self) -> (r: bool)
        ensures
            r == self.wf(),
    {
        if !self.origin.is_in_range() || !self.target.is_in_range() || self.origin == self.target {
            return false;
        }
        let expected = point_on_ray(&self.origin, &self.target, self.travelled);
        self.position == expected
    }

    /// Moves the missile on by `elapsed` clock steps.
    pub fn update(&mut self, elapsed: u32)
        requires
            old(self).wf(),
        ensures
            *final(self) == old(self).moved(elapsed),
            final(self).wf(),
            final(self).origin.dist2(final(self).position) >= old(self).origin.dist2(
                old(self).position,
            ),
    {
        assert(self.speed * elapsed <= 0xffff_ffff * 0xffff_ffff) by (nonlinear_arith)
            requires
                self.speed <= 0xffff_ffff,
                elapsed <= 0xffff_ffff,
        ;
        let total: u64 = self.travelled as u64 + self.speed as u64 * elapsed as u64;
        let travelled: u32 = if total > u32::MAX as u64 {
            u32::MAX
        } else {
            total as u32
        };
        proof {
            self.lemma_moves_away(elapsed);
        }
        self.travelled = travelled;
        self.position = point_on_ray(&self.origin, &self.target, travelled);
        if self.did_hit_target() {
            self.is_alive = false;
        }
    }

    /// Tells whether the missile is less than [`HIT_RADIUS`] away from its target.
    pub fn did_hit_target(&self) -> (r: bool)
        ensures
            r == self.reached(),
    {
        self.position.is_within(&self.target, HIT_RADIUS)
    }

    /// Adds to `explosions` a fresh blast at the missile's position.
    pub fn explode(&self, explosions: &mut Vec<Explosion>)
        ensures
            final(explosions)@ == old(explosions)@.push(Explosion::fresh(self.position)),
    {
        explosions.push(Explosion::new(self.position));
    }

    /// A missile stays on its course: its position lies on the side of the
    /// origin that the target is on, less than one grid step away from the
    /// straight line through origin and target, and no further from the origin
    /// than the distance travelled.
    pub proof fn lemma_on_course(self)
        requires
            self.wf(),
        ensures
            ({
                let dx = self.target.x - self.origin.x;
                let dy = self.target.y - self.origin.y;
                let ox = self.position.x - self.origin.x;
                let oy = self.position.y - self.origin.y;
                &&& ox * dx >= 0
                &&& oy * dy >= 0
                &&& (ox * dy - oy * dx) * (ox * dy - oy * dx) < dx * dx + dy * dy
                &&& ox * ox + oy * oy <= self.travelled * self.travelled
                &&& self.travelled * self.travelled < (magnitude(ox) + 1) * (magnitude(ox) + 1)
                    + (magnitude(oy) + 1) * (magnitude(oy) + 1)
            }),
    {
        lemma_ray_point_on_course(self.origin, self.target, self.travelled as int);
    }

    /// An update keeps a missile on its course, leaves its trajectory as it
    /// was, and never brings it closer to its origin.
    pub proof fn lemma_moves_away(self, elapsed: u32)
        requires
            self.wf(),
        ensures
            self.moved(elapsed).wf(),
            self.moved(elapsed).travelled >= self.travelled,
            self.moved(elapsed).origin.dist2(self.moved(elapsed).position) >= self.origin.dist2(
                self.position,
            ),
    {
        let next = self.moved(elapsed);
        let dx = self.target.x - self.origin.x;
        let dy = self.target.y - self.origin.y;
        let len2 = dx * dx + dy * dy;
        assert(self.speed * elapsed >= 0) by (nonlinear_arith)
            requires
                self.speed >= 0,
                elapsed >= 0,
        ;
        assert(len2 > 0) by (nonlinear_arith)
            requires
                dx != 0 || dy != 0,
                len2 == dx * dx + dy * dy,
        ;
        lemma_ray_point_on_course(self.origin, self.target, self.travelled as int);
        lemma_ray_point_on_course(self.origin, self.target, next.travelled as int);
        lemma_along_monotone(dx, self.travelled as int, next.travelled as int, len2);
        lemma_along_monotone(dy, self.travelled as int, next.travelled as int, len2);
        let x0 = along(dx, self.travelled as int, len2);
        let x1 = along(dx, next.travelled as int, len2);
        let y0 = along(dy, self.travelled as int, len2);
        let y1 = along(dy, next.travelled as int, len2);
        lemma_square_le(magnitude(x0), magnitude(x1));
        lemma_square_le(magnitude(y0), magnitude(y1));
        assert(x0 * x0 == magnitude(x0) * magnitude(x0) && x1 * x1 == magnitude(x1) * magnitude(x1)
            && y0 * y0 == magnitude(y0) * magnitude(y0) && y1 * y1 == magnitude(y1) * magnitude(
            y1,
        )) by (nonlinear_arith);
        assert(self.origin.dist2(self.position) == x0 * x0 + y0 * y0) by (nonlinear_arith)
            requires
                self.position.x - self.origin.x == x0,
                self.position.y - self.origin.y == y0,
                self.origin.dist2(self.position) == (self.origin.x - self.position.x) * (
                self.origin.x - self.position.x) + (self.origin.y - self.position.y) * (
                self.origin.y - self.position.y),
        ;
        assert(next.origin.dist2(next.position) == x1 * x1 + y1 * y1) by (nonlinear_arith)
            requires
                next.position.x - next.origin.x == x1,
                next.position.y - next.origin.y == y1,
                next.origin.dist2(next.position) == (next.origin.x - next.position.x) * (
                next.origin.x - next.position.x) + (next.origin.y - next.position.y) * (
                next.origin.y - next.position.y),
        ;
    }

    /// Over any run of updates a missile keeps its trajectory and stays on
    /// course, a dead missile stays dead, and a missile that is still alive at
    /// the end was alive and short of its target after every update of the run:
    /// once an update has found it at its target, it is never alive again.
    pub proof fn lemma_flight(self, steps: Seq<u32>)
        requires
            self.wf(),
        ensures
            self.flown(steps).wf(),
            self.flown(steps).origin == self.origin,
            self.flown(steps).target == self.target,
            self.flown(steps).speed == self.speed,
            self.flown(steps).is_invincible == self.is_invincible,
            self.flown(steps).travelled >= self.travelled,
            !self.is_alive ==> !self.flown(steps).is_alive,
            self.flown(steps).is_alive ==> forall|k: int|
                0 < k <= steps.len() ==> {
                    &&& (#[trigger] self.flown(steps.take(k))).is_alive
                    &&& !self.flown(steps.take(k)).reached()
                },
        decreases steps.len(),
    {
        if steps.len() > 0 {
            let front = steps.drop_last();
            let n = front.len() as int;
            self.lemma_flight(front);
            self.flown(front).lemma_moves_away(steps.last());
            if self.flown(steps).is_alive {
                assert forall|k: int| 0 < k <= steps.len() implies {
                    &&& (#[trigger] self.flown(steps.take(k))).is_alive
                    &&& !self.flown(steps.take(k)).reached()
                } by {
                    if k <= n {
                        assert(steps.take(k) =~= front.take(k));
                    } else {
                        assert(steps.take(k) =~= steps);
                    }
                }
            }
        }
    }
}

} // verus!
