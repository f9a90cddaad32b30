use vstd::prelude::*;
use vstd::seq_lib::group_to_multiset_ensures;
use crate::explosion::Explosion;
use crate::geometry::Point;
use crate::missile::Missile;
use crate::scene::{
    Scene, arrives, blast, blast_after, burn, deaths, explosion_lives, hit, is_wreck,
    missile_is_dead, missile_lives, struck, FIELD_HEIGHT,
};
use crate::sequences::{lemma_filter_keeps, lemma_map_any_order, lemma_two_rounds};

verus! {

impl Scene {
    /// A tick keeps the scene well formed: afterwards the collections again
    /// hold nothing dead, every missile is on its course and every blast is
    /// well formed.
    pub proof fn lemma_stepped_wf(self, elapsed: u32, origin_x: i32, target_x: i32)
        requires
            self.wf(),
        ensures
            self.stepped(elapsed, origin_x, target_x).wf(),
    {
        let s1 = self.missiles_advanced(elapsed);
        let s2 = s1.explosions_advanced(elapsed);
        let s3 = s2.collisions_handled();
        let s4 = s3.dead_missiles_exploded();
        let s5 = s4.score_updated();
        let s6 = s5.spawned(origin_x, target_x);
        let s7 = s6.dead_removed();
        let on_course = |m: Missile| m.wf();
        let formed = |e: Explosion| e.wf();
        assert forall|i: int| 0 <= i < s6.missiles.len() implies on_course(
            #[trigger] s6.missiles[i],
        ) by {
            if i < self.missiles.len() {
                self.missiles[i].lemma_moves_away(elapsed);
                assert(s3.missiles[i] == hit(s2.explosions)(s1.missiles[i]));
            } else {
                let origin = Point { x: origin_x as i64, y: 0 };
                let target = Point { x: target_x as i64, y: FIELD_HEIGHT };
                assert(origin.in_range() && target.in_range());
            }
        }
        let arrived = self.missiles.filter(arrives(elapsed)).map_values(blast_after(elapsed));
        let wrecked = s3.missiles.filter(is_wreck()).map_values(blast());
        assert forall|j: int| 0 <= j < s6.explosions.len() implies formed(
            #[trigger] s6.explosions[j],
        ) by {
            if j < s2.explosions.len() {
                if j < self.explosions.len() {
                    assert(s1.explosions[j] == self.explosions[j]);
                    self.explosions[j].lemma_grown_wf(elapsed);
                } else {
                    let e = arrived[j - self.explosions.len()];
                    assert(s1.explosions[j] == e);
                    assert(e.wf());
                    e.lemma_grown_wf(elapsed);
                }
            } else {
                assert(s6.explosions[j] == wrecked[j - s2.explosions.len()]);
            }
        }
        lemma_filter_keeps(s6.missiles, missile_lives(), on_course);
        lemma_filter_keeps(s6.explosions, explosion_lives(), formed);
        assert(self.cursor == s7.cursor);
    }

    /// The scene of a tick at the point where everything that dies in it has
    /// died and nothing has been removed yet.
    pub open spec fn settled(self, elapsed: u32) -> Scene {
        self.missiles_advanced(elapsed).explosions_advanced(
            elapsed,
        ).collisions_handled().dead_missiles_exploded()
    }

    /// Every missile that dies in a tick leaves one blast, and nothing else
    /// does: the blasts that the tick adds are as many as the missiles that it
    /// kills, and each of these missiles has one of them at its position.
    pub proof fn lemma_one_blast_per_death(self, elapsed: u32)
        requires
            self.wf(),
        ensures
            self.settled(elapsed).missiles.len() == self.missiles.len(),
            self.settled(elapsed).explosions.len() == self.explosions.len() + self.settled(
                elapsed,
            ).missiles.filter(missile_is_dead()).len(),
            forall|i: int|
                0 <= i < self.missiles.len() && !(#[trigger] self.settled(
                    elapsed,
                ).missiles[i]).is_alive ==> exists|j: int|
                    self.explosions.len() <= j < self.settled(elapsed).explosions.len()
                        && #[trigger] self.settled(elapsed).explosions[j].position == self.settled(
                        elapsed,
                    ).missiles[i].position,
    {
        let s1 = self.missiles_advanced(elapsed);
        let s2 = s1.explosions_advanced(elapsed);
        let s3 = s2.collisions_handled();
        let s4 = s3.dead_missiles_exploded();
        let arrived = self.missiles.filter(arrives(elapsed));
        let wrecked = s3.missiles.filter(is_wreck());
        assert forall|i: int| 0 <= i < s3.missiles.len() implies (missile_is_dead()(
            #[trigger] s3.missiles[i],
        ) <==> arrives(elapsed)(self.missiles[i]) || is_wreck()(s3.missiles[i])) && !(arrives(
            elapsed,
        )(self.missiles[i]) && is_wreck()(s3.missiles[i])) by {
            assert(self.missiles[i].is_alive);
            assert(s3.missiles[i] == hit(s2.explosions)(s1.missiles[i]));
        }
        lemma_two_rounds(
            self.missiles,
            s3.missiles,
            arrives(elapsed),
            is_wreck(),
            missile_is_dead(),
        );
        assert forall|i: int|
            0 <= i < self.missiles.len() && !(#[trigger] s4.missiles[i]).is_alive implies exists|
            j: int,
        |
            self.explosions.len() <= j < s4.explosions.len() && #[trigger] s4.explosions[j].position
                == s4.missiles[i].position by {
            let m = s3.missiles[i];
            assert(m == hit(s2.explosions)(s1.missiles[i]));
            assert(self.missiles[i].is_alive);
            if arrives(elapsed)(self.missiles[i]) {
                self.missiles.lemma_filter_contains(arrives(elapsed), i);
                let k = choose|k: int| 0 <= k < arrived.len() && arrived[k] == self.missiles[i];
                let j = self.explosions.len() + k;
                assert(s1.explosions[j] == blast_after(elapsed)(arrived[k]));
                assert(s4.explosions[j] == burn(elapsed)(s1.explosions[j]));
                assert(s4.explosions[j].position == m.position);
            } else {
                assert(is_wreck()(m));
                s3.missiles.lemma_filter_contains(is_wreck(), i);
                let k = choose|k: int| 0 <= k < wrecked.len() && wrecked[k] == m;
                let j = s3.explosions.len() + k;
                assert(s4.explosions[j] == blast()(wrecked[k]));
                assert(s4.explosions[j].position == m.position);
            }
        }
    }
}

/// Whether a point is reached by some blast does not depend on the order of the blasts.
pub proof fn lemma_struck_any_order(p: Point, first: Seq<Explosion>, second: Seq<Explosion>)
    requires
        first.to_multiset() == second.to_multiset(),
    ensures
        struck(p, first) == struck(p, second),
{
    broadcast use group_to_multiset_ensures;

    if struck(p, first) {
        let j = choose|j: int| 0 <= j < first.len() && (#[trigger] first[j]).reaches(p);
        assert(first.contains(first[j]));
        assert(second.to_multiset().count(first[j]) > 0);
        let k = choose|k: int| 0 <= k < second.len() && second[k] == first[j];
        assert(second[k].reaches(p));
    }
    if struck(p, second) {
        let j = choose|j: int| 0 <= j < second.len() && (#[trigger] second[j]).reaches(p);
        assert(second.contains(second[j]));
        assert(first.to_multiset().count(second[j]) > 0);
        let k = choose|k: int| 0 <= k < first.len() && first[k] == second[j];
        assert(first[k].reaches(p));
    }
}

/// The outcome of the collisions does not depend on the order in which the
/// missiles and the blasts are held: two scenes with the same missiles and the
/// same blasts, in whatever order, have the same deaths and are left with the
/// same missiles.
pub proof fn lemma_collisions_any_order(first: Scene, second: Scene)
    requires
        first.missiles.to_multiset() == second.missiles.to_multiset(),
        first.explosions.to_multiset() == second.explosions.to_multiset(),
    ensures
        deaths(first.missiles, first.explosions) == deaths(second.missiles, second.explosions),
        first.collisions_handled().missiles.to_multiset()
            == second.collisions_handled().missiles.to_multiset(),
{
    broadcast use group_to_multiset_ensures;

    assert forall|m: Missile|
        struck(m.position, first.explosions) == struck(
            m.position,
            second.explosions,
        ) && first.missiles.contains(m) == second.missiles.contains(m) by {
        lemma_struck_any_order(m.position, first.explosions, second.explosions);
        assert(first.missiles.contains(m) <==> first.missiles.to_multiset().count(m) > 0);
        assert(second.missiles.contains(m) <==> second.missiles.to_multiset().count(m) > 0);
    }
    assert(deaths(first.missiles, first.explosions) =~= deaths(
        second.missiles,
        second.explosions,
    ));
    assert forall|i: int| 0 <= i < first.missiles.len() implies hit(first.explosions)(
        #[trigger] first.missiles[i],
    ) == hit(second.explosions)(first.missiles[i]) by {
        lemma_struck_any_order(first.missiles[i].position, first.explosions, second.explosions);
    }
    assert(first.missiles.map_values(hit(first.explosions)) =~= first.missiles.map_values(
        hit(second.explosions),
    ));
    lemma_map_any_order(first.missiles, second.missiles, hit(second.explosions));
}

/// The collisions kill exactly the missiles counted among the deaths.
pub proof fn lemma_collisions_kill_deaths(scene: Scene, i: int)
    requires
        0 <= i < scene.missiles.len(),
    ensures
        scene.collisions_handled().missiles[i].is_alive == (scene.missiles[i].is_alive && !deaths(
            scene.missiles,
            scene.explosions,
        ).contains(scene.missiles[i])),
{
    assert(scene.missiles.contains(scene.missiles[i]));
}

} // verus!
