use vstd::prelude::*;
use crate::components::CombatStats;
use crate::world::{tags_same, World, MAX_DAMAGE};

verus! {

/// Sum of the first `upto` pending damage records aimed at `t`.
pub open spec fn total_damage(q: Seq<(usize, i64)>, t: int, upto: int) -> int
    decreases upto,
{
    if upto <= 0 {
        0
    } else {
        total_damage(q, t, upto - 1) + if q[upto - 1].0 == t {
            q[upto - 1].1 as int
        } else {
            0
        }
    }
}

/// Hit points after taking `total` damage, clamped at zero.
pub open spec fn hp_after(hp: int, total: int) -> int {
    if hp - total > 0 {
        hp - total
    } else {
        0
    }
}

/// Everything but the hit points, the pending damage and the destruction queue
/// is as it was.
pub open spec fn same_but_damage(a: World, b: World) -> bool {
    &&& tags_same(a, b)
    &&& b.map == a.map
    &&& b.alive == a.alive
    &&& b.positions == a.positions
    &&& b.viewsheds == a.viewsheds
    &&& b.players == a.players
    &&& b.monsters == a.monsters
    &&& b.blocks_tile == a.blocks_tile
    &&& b.confusion == a.confusion
    &&& b.wants_to_melee == a.wants_to_melee
    &&& b.log == a.log
    &&& b.player_pos == a.player_pos
    &&& b.player_entity == a.player_entity
    &&& b.combat_stats@.len() == a.combat_stats@.len()
}

/// The stats of `e` after the pending damage of `w` is applied.
pub open spec fn stats_after(w: World, e: int) -> Option<CombatStats> {
    match w.combat_stats@[e] {
        Some(s) => if w.alive@[e] {
            Some(
                CombatStats {
                    hp: hp_after(s.hp as int, total_damage(w.suffer_damage@, e, w.suffer_damage@.len() as int)) as i32,
                    ..s
                },
            )
        } else {
            Some(s)
        },
        None => None,
    }
}

/// Whether `e` is live, has stats, and is at zero hp once damage is applied.
pub open spec fn dies(w: World, e: int) -> bool {
    w.alive@[e] && stats_after(w, e).is_some() && stats_after(w, e).unwrap().hp <= 0
}

proof fn lemma_total_nonneg(q: Seq<(usize, i64)>, t: int, upto: int)
    requires
        0 <= upto <= q.len(),
        forall|i: int| 0 <= i < q.len() ==> 0 <= (#[trigger] q[i]).1,
    ensures
        total_damage(q, t, upto) >= 0,
    decreases upto,
{
    if upto > 0 {
        lemma_total_nonneg(q, t, upto - 1);
    }
}

/// What the damage step guarantees, from `a` to `b`.
pub open spec fn damage_post(a: World, b: World) -> bool {
    &&& b.wf()
    &&& same_but_damage(a, b)
    &&& b.suffer_damage@.len() == 0
    &&& forall|e: int|
        0 <= e < a.count() ==> #[trigger] b.combat_stats@[e] == stats_after(
            a,
            e,
        )
    &&& forall|e: usize|
        #[trigger] b.dead@.contains(e) == (a.dead@.contains(e) || (e
            < a.count() && dies(a, e as int)))
}

impl World {
    /// Sum of the pending damage aimed at `t`, capped at `MAX_DAMAGE`.
    fn capped_damage(&self, t: usize) -> (r: i64)
        requires
            self.wf(),
        ensures
            r == if total_damage(self.suffer_damage@, t as int, self.suffer_damage@.len() as int)
                < MAX_DAMAGE {
                total_damage(self.suffer_damage@, t as int, self.suffer_damage@.len() as int)
            } else {
                MAX_DAMAGE as int
            },
    {
        let m = self.suffer_damage.len();
        let mut acc: i64 = 0;
        let mut i: usize = 0;
        while i < m
            invariant
                self.wf(),
                m == self.suffer_damage@.len(),
                i <= m,
                acc == if total_damage(self.suffer_damage@, t as int, i as int) < MAX_DAMAGE {
                    total_damage(self.suffer_damage@, t as int, i as int)
                } else {
                    MAX_DAMAGE as int
                },
            decreases m - i,
        {
            proof {
                lemma_total_nonneg(self.suffer_damage@, t as int, i as int);
            }
            let (target, amount) = self.suffer_damage[i];
            if target == t {
                acc = if acc + amount < MAX_DAMAGE {
                    acc + amount
                } else {
                    MAX_DAMAGE
                };
            }
            i = i + 1;
        }
        acc
    }

    /// The damage step: drains the pending damage into each live entity's hp,
    /// clamped at zero, queues the entities left at zero hp for destruction at
    /// the commit step, and empties the pending damage. Nothing is removed here.
    pub fn apply_damage(&mut self)
        requires
            old(self).wf(),
        ensures
            damage_post(*old(self), *final(self)),
    {
        let n = self.alive.len();
        let mut e: usize = 0;
        while e < n
            invariant
                self.wf(),
                n == self.count(),
                e <= n,
                same_but_damage(*old(self), *self),
                self.suffer_damage == old(self).suffer_damage,
                forall|j: int| 0 <= j < e ==> #[trigger] self.combat_stats@[j] == stats_after(*old(self), j),
                forall|j: int| e <= j < n ==> #[trigger] self.combat_stats@[j] == old(self).combat_stats@[j],
                forall|x: usize|
                    #[trigger] self.dead@.contains(x) == (old(self).dead@.contains(x) || (x < e && dies(
                        *old(self),
                        x as int,
                    ))),
            decreases n - e,
        {
            if self.alive[e] {
                if let Some(s) = self.combat_stats[e] {
                    let total = self.capped_damage(e);
                    proof {
                        lemma_total_nonneg(self.suffer_damage@, e as int, self.suffer_damage@.len() as int);
                    }
                    let hp: i32 = if (s.hp as i64) - total > 0 {
                        ((s.hp as i64) - total) as i32
                    } else {
                        0
                    };
                    self.combat_stats.set(e, Some(CombatStats { hp: hp, ..s }));
                    if hp <= 0 {
                        proof {
                            let d = self.dead@;
                            assert forall|x: usize| #[trigger] d.push(e).contains(x) == (d.contains(x)
                                || x == e) by {
                                if x == e {
                                    assert(d.push(e)[d.len() as int] == e);
                                }
                                if d.contains(x) {
                                    let q = choose|q: int| 0 <= q < d.len() && d[q] == x;
                                    assert(d.push(e)[q] == x);
                                }
                                if d.push(e).contains(x) {
                                    let q = choose|q: int| 0 <= q < d.len() + 1 && d.push(e)[q] == x;
                                    if q < d.len() {
                                        assert(d[q] == x);
                                    }
                                }
                            }
                        }
                        self.dead.push(e);
                    }
                }
            }
            e = e + 1;
        }
        self.suffer_damage = Vec::new();
    }
}

} // verus!
