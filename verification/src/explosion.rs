use vstd::prelude::*;
use crate::geometry::Point;

verus! {

/// Radius of a blast at the moment it appears: twenty field units.
pub const START_RADIUS: i64 = 120000;

/// Radius beyond which a blast stops growing: eighty field units.
pub const TARGET_RADIUS: i64 = 480000;

/// Grid steps by which the radius changes in one clock step.
pub const DETONATION_VELOCITY: i64 = 85;

/// The nearest value that a radius can hold.
pub open spec fn saturate(v: int) -> i64 {
    if v > i64::MAX {
        i64::MAX
    } else if v < i64::MIN {
        i64::MIN
    } else {
        v as i64
    }
}

fn saturating(v: i128) -> (r: i64)
    ensures
        r == saturate(v as int),
{
    if v > i64::MAX as i128 {
        i64::MAX
    } else if v < i64::MIN as i128 {
        i64::MIN
    } else {
        v as i64
    }
}

/// A blast: a disc that grows, then shrinks, then is gone.
#[derive(Clone, Copy, Debug, PartialEq, Eq, Structural)]
pub struct Explosion {
    pub position: Point,
    pub radius: i64,
    pub is_alive: bool,
    pub is_radius_increasing: bool,
}

impl Explosion {
    /// The blast that appears at `position`.
    pub open spec fn fresh(position: Point) -> Explosion {
        Explosion { position, radius: START_RADIUS, is_alive: true, is_radius_increasing: true }
    }

    /// What every blast satisfies from its appearance on: it is alive exactly
    /// while its radius has not dropped below the starting radius, and while
    /// it grows its radius has not passed the target radius.
    pub open spec fn wf(self) -> bool {
        &&& self.is_alive <==> self.radius >= START_RADIUS
        &&& self.is_radius_increasing ==> START_RADIUS <= self.radius <= TARGET_RADIUS
    }

    /// The blast after `elapsed` clock steps.
    ///
    /// A growing blast gains `DETONATION_VELOCITY * elapsed` and stops growing
    /// once it has passed the target radius; the overshoot stays. A blast that
    /// no longer grows loses the same amount. Either way it is dead once its
    /// radius is below the starting radius.
    pub open spec fn grown(self, elapsed: u32) -> Explosion {
        let radius = if self.is_radius_increasing {
            saturate(self.radius + DETONATION_VELOCITY * elapsed)
        } else {
            saturate(self.radius - DETONATION_VELOCITY * elapsed)
        };
        Explosion {
            position: self.position,
            radius,
            is_alive: self.is_alive && radius >= START_RADIUS,
            is_radius_increasing: self.is_radius_increasing && radius <= TARGET_RADIUS,
        }
    }

    /// The blast after a run of updates, one for each entry of `steps`.
    pub open spec fn aged(self, steps: Seq<u32>) -> Explosion
        decreases steps.len(),
    {
        if steps.len() == 0 {
            self
        } else {
            self.aged(steps.drop_last()).grown(steps.last())
        }
    }

    /// No update of the run is cut short by the limits of the radius.
    pub open spec fn unsaturated(self, steps: Seq<u32>) -> bool {
        forall|i: int|
            0 <= i < steps.len() ==> #[trigger] self.aged(steps.take(i)).radius
                - DETONATION_VELOCITY * steps[i] >= i64::MIN
    }

    /// The blast reaches `p`: the distance from its centre to `p` is less than its radius.
    pub open spec fn reaches(self, p: Point) -> bool {
        self.position.near(p, self.radius as int)
    }

    /// The blast that appears at `position`.
    pub fn new(position: Point) -> (e: Explosion)
        ensures
            e == Explosion::fresh(position),
            e.wf(),
    {
        Explosion { position, radius: START_RADIUS, is_alive: true, is_radius_increasing: true }
    }

    /// Advances the blast by `elapsed` clock steps.
    pub fn update(&mut self, elapsed: u32)
        ensures
            *final(self) == old(self).grown(elapsed),
            old(self).wf() ==> final(self).wf(),
    {
        let delta: i128 = DETONATION_VELOCITY as i128 * elapsed as i128;
        assert(0 <= delta <= 85 * 0xffff_ffff) by (nonlinear_arith)
            requires
                delta == 85 * elapsed,
        ;
        if self.is_radius_increasing {
            self.radius = saturating(self.radius as i128 + delta);
            if self.radius > TARGET_RADIUS {
                self.is_radius_increasing = false;
            }
        } else {
            self.radius = saturating(self.radius as i128 - delta);
        }
        if self.radius < START_RADIUS {
            self.is_alive = false;
        }
    }

    /// Tells whether the blast is well formed.
    pub fn is_wf(&self) -> (r: bool)
        ensures
            r == self.wf(),
    {
        self.is_alive == (self.radius >= START_RADIUS) && (!self.is_radius_increasing || (
        START_RADIUS <= self.radius && self.radius <= TARGET_RADIUS))
    }

    /// Tells whether the blast reaches `p`.
    pub fn engulfs(&self, p: &Point) -> (r: bool)
        ensures
            r == self.reaches(*p),
    {
        self.position.is_within(p, self.radius)
    }

    /// An update keeps a blast well formed.
    pub proof fn lemma_grown_wf(self, elapsed: u32)
        requires
            self.wf(),
        ensures
            self.grown(elapsed).wf(),
    {
    }

    /// While a blast grows, an update of positive length makes its radius
    /// strictly larger; afterwards it makes it strictly smaller, unless the
    /// radius is already as small as it can be held.
    pub proof fn lemma_update_direction(self, elapsed: u32)
        requires
            self.wf(),
            elapsed > 0,
        ensures
            self.is_radius_increasing ==> self.grown(elapsed).radius == self.radius
                + DETONATION_VELOCITY * elapsed,
            self.is_radius_increasing ==> self.grown(elapsed).radius > self.radius,
            !self.is_radius_increasing && self.radius - DETONATION_VELOCITY * elapsed >= i64::MIN
                ==> self.grown(elapsed).radius < self.radius,
    {
    }

    /// A blast that has stopped growing never grows again, and a dead blast
    /// stays dead, whatever updates follow.
    pub proof fn lemma_no_return(self, steps: Seq<u32>)
        ensures
            !self.is_radius_increasing ==> !self.aged(steps).is_radius_increasing,
            !self.is_alive ==> !self.aged(steps).is_alive,
            self.aged(steps).position == self.position,
            self.wf() ==> self.aged(steps).wf(),
        decreases steps.len(),
    {
        if steps.len() > 0 {
            self.lemma_no_return(steps.drop_last());
        }
    }

    /// A blast dies once, at the first update that leaves its radius below the
    /// starting radius: it is alive after a run of updates exactly if it was
    /// alive before and no update of the run has left its radius below that.
    pub proof fn lemma_lifetime(self, steps: Seq<u32>)
        ensures
            self.aged(steps).is_alive <==> self.is_alive && forall|k: int|
                0 < k <= steps.len() ==> (#[trigger] self.aged(steps.take(k))).radius
                    >= START_RADIUS,
        decreases steps.len(),
    {
        if steps.len() > 0 {
            let front = steps.drop_last();
            let n = front.len() as int;
            self.lemma_lifetime(front);
            assert(steps.take(n + 1) =~= steps);
            assert forall|k: int| 0 <= k <= n implies #[trigger] steps.take(k) == front.take(k) by {
                assert(steps.take(k) =~= front.take(k));
            }
            if self.is_alive && forall|k: int|
                0 < k <= steps.len() ==> (#[trigger] self.aged(steps.take(k))).radius
                    >= START_RADIUS {
                assert forall|k: int| 0 < k <= front.len() implies (#[trigger] self.aged(
                    front.take(k),
                )).radius >= START_RADIUS by {
                    assert(front.take(k) == steps.take(k));
                }
                assert(self.aged(steps.take(n + 1)).radius >= START_RADIUS);
            }
            if self.aged(steps).is_alive {
                assert forall|k: int| 0 < k <= steps.len() implies (#[trigger] self.aged(
                    steps.take(k),
                )).radius >= START_RADIUS by {
                    if k <= n {
                        assert(front.take(k) == steps.take(k));
                    }
                }
            }
        }
    }

    /// Over any run of updates of positive length the radius rises strictly
    /// up to one point of the run and falls strictly from there on: there is
    /// one change of phase and no second one. The result is the number of
    /// updates that were made while growing.
    pub proof fn lemma_single_peak(self, steps: Seq<u32>) -> (peak: int)
        requires
            self.wf(),
            forall|i: int| 0 <= i < steps.len() ==> steps[i] > 0,
            self.unsaturated(steps),
        ensures
            0 <= peak <= steps.len(),
            forall|i: int|
                0 <= i < peak ==> self.aged(#[trigger] steps.take(i)).is_radius_increasing
                    && self.aged(steps.take(i)).radius < self.aged(steps.take(i + 1)).radius,
            forall|i: int|
                peak <= i < steps.len() ==> !self.aged(#[trigger] steps.take(i)).is_radius_increasing
                    && self.aged(steps.take(i)).radius > self.aged(steps.take(i + 1)).radius,
            peak == steps.len() || !self.aged(steps).is_radius_increasing,
            self.aged(steps).wf(),
        decreases steps.len(),
    {
        if steps.len() == 0 {
            0
        } else {
            let n = steps.len() - 1;
            let front = steps.drop_last();
            assert forall|i: int| 0 <= i <= n implies #[trigger] front.take(i) == steps.take(i) by {
                assert(front.take(i) =~= steps.take(i));
            }
            assert(self.unsaturated(front)) by {
                assert forall|i: int| 0 <= i < front.len() implies #[trigger] self.aged(
                    front.take(i),
                ).radius - DETONATION_VELOCITY * front[i] >= i64::MIN by {
                    assert(front.take(i) == steps.take(i));
                    assert(front[i] == steps[i]);
                }
            }
            let p = self.lemma_single_peak(front);
            assert(steps.take(n) =~= front);
            assert(steps.take(n + 1) =~= steps);
            let before = self.aged(front);
            assert(self.aged(steps) == before.grown(steps.last()));
            before.lemma_update_direction(steps[n]);
            before.lemma_grown_wf(steps[n]);
            assert(before.radius - DETONATION_VELOCITY * steps[n] >= i64::MIN) by {
                assert(before == self.aged(steps.take(n)));
            }
            let peak = if before.is_radius_increasing { n + 1 } else { p };
            assert forall|i: int| 0 <= i < peak implies self.aged(
                #[trigger] steps.take(i),
            ).is_radius_increasing && self.aged(steps.take(i)).radius < self.aged(
                steps.take(i + 1),
            ).radius by {
                if i < n {
                    assert(front.take(i) == steps.take(i));
                    assert(front.take(i + 1) == steps.take(i + 1));
                }
            }
            assert forall|i: int| peak <= i < steps.len() implies !self.aged(
                #[trigger] steps.take(i),
            ).is_radius_increasing && self.aged(steps.take(i)).radius > self.aged(
                steps.take(i + 1),
            ).radius by {
                if i < n {
                    assert(front.take(i) == steps.take(i));
                    assert(front.take(i + 1) == steps.take(i + 1));
                }
            }
            peak
        }
    }
}

} // verus!
