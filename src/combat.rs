use vstd::prelude::*;
use crate::components::LogEntry;
use crate::world::{tags_same, World};

verus! {

/// Sum of the melee power bonuses of the live items among the first `upto`
/// entities that `owner` has equipped.
pub open spec fn power_bonus(w: World, owner: int, upto: int) -> int
    decreases upto,
{
    if upto <= 0 {
        0
    } else {
        power_bonus(w, owner, upto - 1) + if w.alive@[upto - 1] && w.equipped@[upto - 1] == Some(
            owner as usize,
        ) && w.melee_power_bonus@[upto - 1].is_some() {
            w.melee_power_bonus@[upto - 1].unwrap() as int
        } else {
            0
        }
    }
}

/// Sum of the defense bonuses of the live items among the first `upto`
/// entities that `owner` has equipped.
pub open spec fn defense_bonus(w: World, owner: int, upto: int) -> int
    decreases upto,
{
    if upto <= 0 {
        0
    } else {
        defense_bonus(w, owner, upto - 1) + if w.alive@[upto - 1] && w.equipped@[upto - 1] == Some(
            owner as usize,
        ) && w.defense_bonus@[upto - 1].is_some() {
            w.defense_bonus@[upto - 1].unwrap() as int
        } else {
            0
        }
    }
}

/// Base power, plus equipped bonuses, plus one when well fed.
pub open spec fn effective_power(w: World, e: int) -> int {
    w.combat_stats@[e].unwrap().power + power_bonus(w, e, w.count()) + if w.well_fed@[e] {
        1int
    } else {
        0int
    }
}

/// Base defense plus equipped bonuses.
pub open spec fn effective_defense(w: World, t: int) -> int {
    w.combat_stats@[t].unwrap().defense + defense_bonus(w, t, w.count())
}

/// Melee damage: what the power exceeds the defense by, and never below zero.
pub open spec fn melee_damage(power: int, defense: int) -> int {
    if power - defense > 0 {
        power - defense
    } else {
        0
    }
}

/// Entity `e` resolves its melee intent: it is alive, wants to hit someone,
/// has positive hp, and so does its live target.
pub open spec fn attacks(w: World, e: int) -> bool {
    &&& w.alive@[e]
    &&& w.wants_to_melee@[e].is_some()
    &&& w.combat_stats@[e].is_some()
    &&& w.combat_stats@[e].unwrap().hp > 0
    &&& w.alive@[w.wants_to_melee@[e].unwrap() as int]
    &&& w.combat_stats@[w.wants_to_melee@[e].unwrap() as int].is_some()
    &&& w.combat_stats@[w.wants_to_melee@[e].unwrap() as int].unwrap().hp > 0
}

pub open spec fn attack_damage(w: World, e: int) -> int {
    melee_damage(effective_power(w, e), effective_defense(w, w.wants_to_melee@[e].unwrap() as int))
}

/// The log entries that resolving the intents of the first `upto` entities writes.
pub open spec fn combat_log(w: World, upto: int) -> Seq<LogEntry>
    decreases upto,
{
    if upto <= 0 {
        seq![]
    } else if attacks(w, upto - 1) {
        let t = w.wants_to_melee@[upto - 1].unwrap();
        let d = attack_damage(w, upto - 1);
        combat_log(w, upto - 1).push(
            if d == 0 {
                LogEntry::NoEffect { attacker: (upto - 1) as usize, target: t }
            } else {
                LogEntry::Hit { attacker: (upto - 1) as usize, target: t, damage: d as i64 }
            },
        )
    } else {
        combat_log(w, upto - 1)
    }
}

/// The damage records that resolving the intents of the first `upto` entities queues.
pub open spec fn combat_damage(w: World, upto: int) -> Seq<(usize, i64)>
    decreases upto,
{
    if upto <= 0 {
        seq![]
    } else if attacks(w, upto - 1) && attack_damage(w, upto - 1) > 0 {
        combat_damage(w, upto - 1).push(
            (w.wants_to_melee@[upto - 1].unwrap(), attack_damage(w, upto - 1) as i64),
        )
    } else {
        combat_damage(w, upto - 1)
    }
}

/// An `i32` bound on each bonus keeps the sums within `upto` times it.
pub proof fn lemma_bonus_bounds(w: World, owner: int, upto: int)
    requires
        w.sizes_ok(),
        0 <= upto <= w.count(),
    ensures
        -upto * 0x8000_0000 <= power_bonus(w, owner, upto) <= upto * 0x8000_0000,
        -upto * 0x8000_0000 <= defense_bonus(w, owner, upto) <= upto * 0x8000_0000,
    decreases upto,
{
    if upto > 0 {
        lemma_bonus_bounds(w, owner, upto - 1);
    }
}

/// The bonus sums read only the alive flags, the equipment and the bonuses.
pub proof fn lemma_bonus_frame(a: World, b: World, owner: int, upto: int)
    requires
        a.alive == b.alive,
        a.equipped == b.equipped,
        a.melee_power_bonus == b.melee_power_bonus,
        a.defense_bonus == b.defense_bonus,
    ensures
        power_bonus(a, owner, upto) == power_bonus(b, owner, upto),
        defense_bonus(a, owner, upto) == defense_bonus(b, owner, upto),
    decreases upto,
{
    if upto > 0 {
        lemma_bonus_frame(a, b, owner, upto - 1);
    }
}

/// Everything but the log, the pending damage and the melee intents is as it was.
pub open spec fn same_but_combat(a: World, b: World) -> bool {
    &&& tags_same(a, b)
    &&& b.map == a.map
    &&& b.alive == a.alive
    &&& b.positions == a.positions
    &&& b.viewsheds == a.viewsheds
    &&& b.combat_stats == a.combat_stats
    &&& b.players == a.players
    &&& b.monsters == a.monsters
    &&& b.blocks_tile == a.blocks_tile
    &&& b.equipped == a.equipped
    &&& b.melee_power_bonus == a.melee_power_bonus
    &&& b.defense_bonus == a.defense_bonus
    &&& b.well_fed == a.well_fed
    &&& b.confusion == a.confusion
    &&& b.dead == a.dead
    &&& b.player_pos == a.player_pos
    &&& b.player_entity == a.player_entity
}

/// What melee combat guarantees, from `a` to `b`.
pub open spec fn combat_post(a: World, b: World) -> bool {
    &&& b.wf()
    &&& same_but_combat(a, b)
    &&& b.log@ == a.log@ + combat_log(a, a.count())
    &&& b.suffer_damage@ == a.suffer_damage@ + combat_damage(a, a.count())
    &&& forall|e: int| 0 <= e < b.count() ==> (#[trigger] b.wants_to_melee@[e]).is_none()
}

impl World {
    /// Sum of the melee power bonuses of the items `owner` has equipped.
    pub fn power_bonus_of(&self, owner: usize) -> (r: i64)
        requires
            self.wf(),
        ensures
            r == power_bonus(*self, owner as int, self.count()),
    {
        let n = self.alive.len();
        let mut acc: i64 = 0;
        let mut j: usize = 0;
        while j < n
            invariant
                self.wf(),
                n == self.count(),
                j <= n,
                acc == power_bonus(*self, owner as int, j as int),
            decreases n - j,
        {
            proof {
                lemma_bonus_bounds(*self, owner as int, j as int);
            }
            if self.alive[j] && self.equipped[j] == Some(owner) {
                if let Some(b) = self.melee_power_bonus[j] {
                    acc = acc + b as i64;
                }
            }
            j = j + 1;
        }
        acc
    }

    /// Sum of the defense bonuses of the items `owner` has equipped.
    pub fn defense_bonus_of(&self, owner: usize) -> (r: i64)
        requires
            self.wf(),
        ensures
            r == defense_bonus(*self, owner as int, self.count()),
    {
        let n = self.alive.len();
        let mut acc: i64 = 0;
        let mut j: usize = 0;
        while j < n
            invariant
                self.wf(),
                n == self.count(),
                j <= n,
                acc == defense_bonus(*self, owner as int, j as int),
            decreases n - j,
        {
            proof {
                lemma_bonus_bounds(*self, owner as int, j as int);
            }
            if self.alive[j] && self.equipped[j] == Some(owner) {
                if let Some(b) = self.defense_bonus[j] {
                    acc = acc + b as i64;
                }
            }
            j = j + 1;
        }
        acc
    }
    /// The melee combat system: resolves every pending melee intent into a log
    /// entry and, when the damage is positive, a pending damage record; then
    /// drops all intents, resolved or not.
    pub fn melee_combat(&mut self)
        requires
            old(self).wf(),
        ensures
            combat_post(*old(self), *final(self)),
    {
        let n = self.alive.len();
        let mut e: usize = 0;
        while e < n
            invariant
                self.wf(),
                n == self.count(),
                e <= n,
                same_but_combat(*old(self), *self),
                self.wants_to_melee == old(self).wants_to_melee,
                self.log@ == old(self).log@ + combat_log(*old(self), e as int),
                self.suffer_damage@ == old(self).suffer_damage@ + combat_damage(*old(self), e as int),
            decreases n - e,
        {
            proof {
                lemma_bonus_frame(*old(self), *self, e as int, n as int);
                lemma_bonus_bounds(*self, e as int, n as int);
            }
            if self.alive[e] {
                if let Some(t) = self.wants_to_melee[e] {
                    if let Some(stats) = self.combat_stats[e] {
                        if stats.hp > 0 && self.alive[t] {
                            if let Some(target_stats) = self.combat_stats[t] {
                                if target_stats.hp > 0 {
                                    proof {
                                        lemma_bonus_frame(*old(self), *self, t as int, n as int);
                                        lemma_bonus_bounds(*self, t as int, n as int);
                                    }
                                    let fed: i64 = if self.well_fed[e] { 1 } else { 0 };
                                    let power: i64 = stats.power as i64 + self.power_bonus_of(e) + fed;
                                    let defense: i64 = target_stats.defense as i64
                                        + self.defense_bonus_of(t);
                                    let damage: i64 = if power - defense > 0 {
                                        power - defense
                                    } else {
                                        0
                                    };
                                    if damage == 0 {
                                        self.log.push(LogEntry::NoEffect { attacker: e, target: t });
                                    } else {
                                        self.log.push(
                                            LogEntry::Hit { attacker: e, target: t, damage: damage },
                                        );
                                        self.suffer_damage.push((t, damage));
                                    }
                                }
                            }
                        }
                    }
                }
            }
            proof {
                assert(self.log@ == old(self).log@ + combat_log(*old(self), e + 1));
                assert(self.suffer_damage@ == old(self).suffer_damage@ + combat_damage(*old(self), e + 1));
            }
            e = e + 1;
        }
        let mut k: usize = 0;
        while k < n
            invariant
                self.wf(),
                n == self.count(),
                k <= n,
                same_but_combat(*old(self), *self),
                self.log@ == old(self).log@ + combat_log(*old(self), n as int),
                self.suffer_damage@ == old(self).suffer_damage@ + combat_damage(*old(self), n as int),
                forall|j: int| 0 <= j < k ==> (#[trigger] self.wants_to_melee@[j]).is_none(),
            decreases n - k,
        {
            self.wants_to_melee.set(k, None);
            k = k + 1;
        }
    }
}

} // verus!
