use vstd::prelude::*;
use crate::components::{CombatStats, LogEntry, Position, Renderable, Viewshed};
use crate::map::GameMap;

verus! {

/// Most entities a world holds; keeps sums over all entities far from overflow.
pub const MAX_ENTITIES: usize = 1_000_000;

/// Largest amount a pending damage record may hold.
pub const MAX_DAMAGE: i64 = 0x40_0000_0000_0000;

/// The entity/component store together with the shared resources of a tick.
/// It is the library's own: the `specs` crate's world works through derive
/// macros and generic storage traits that verified code cannot call.
/// An entity is an index into the parallel component vectors; a slot is never
/// reused. Destruction is deferred: `dead` queues entities that `maintain`
/// removes at the end of the tick.
pub struct World {
    pub map: GameMap,
    pub rng: rltk::RandomNumberGenerator,
    pub alive: Vec<bool>,
    pub positions: Vec<Option<Position>>,
    pub renderables: Vec<Option<Renderable>>,
    pub viewsheds: Vec<Option<Viewshed>>,
    pub names: Vec<Option<String>>,
    pub combat_stats: Vec<Option<CombatStats>>,
    pub players: Vec<bool>,
    pub monsters: Vec<bool>,
    pub items: Vec<bool>,
    pub consumables: Vec<bool>,
    pub blocks_tile: Vec<bool>,
    /// The entity that has this item equipped.
    pub equipped: Vec<Option<usize>>,
    pub melee_power_bonus: Vec<Option<i32>>,
    pub defense_bonus: Vec<Option<i32>>,
    /// Entities whose hunger clock reads "well fed".
    pub well_fed: Vec<bool>,
    /// Turns of confusion left.
    pub confusion: Vec<Option<i32>>,
    pub provides_healing: Vec<Option<i32>>,
    pub ranged: Vec<Option<i32>>,
    pub inflicts_damage: Vec<Option<i32>>,
    pub area_of_effect: Vec<Option<i32>>,
    /// One-shot melee intents: the target of each attacker.
    pub wants_to_melee: Vec<Option<usize>>,
    /// Pending damage records `(target, amount)`, in the order they were made.
    pub suffer_damage: Vec<(usize, i64)>,
    /// Entities queued for destruction at the commit step.
    pub dead: Vec<usize>,
    pub log: Vec<LogEntry>,
    /// Cached position of the player, written only by player movement.
    pub player_pos: Position,
    pub player_entity: usize,
}

/// Entity `e` carries no component at all (its melee intent aside).
pub open spec fn slot_empty(w: World, e: int) -> bool {
    w.positions@[e].is_none() && bare(w, e)
}

/// Entity `e` carries no component but perhaps a position (and a melee intent).
pub open spec fn bare(w: World, e: int) -> bool {
    &&& w.renderables@[e].is_none()
    &&& w.viewsheds@[e].is_none()
    &&& w.names@[e].is_none()
    &&& w.combat_stats@[e].is_none()
    &&& !w.players@[e]
    &&& !w.monsters@[e]
    &&& !w.items@[e]
    &&& !w.consumables@[e]
    &&& !w.blocks_tile@[e]
    &&& w.equipped@[e].is_none()
    &&& w.melee_power_bonus@[e].is_none()
    &&& w.defense_bonus@[e].is_none()
    &&& !w.well_fed@[e]
    &&& w.confusion@[e].is_none()
    &&& w.provides_healing@[e].is_none()
    &&& w.ranged@[e].is_none()
    &&& w.inflicts_damage@[e].is_none()
    &&& w.area_of_effect@[e].is_none()
}

/// Entity `e` is alive or not, and carries the same components, in both worlds.
pub open spec fn slot_same(a: World, b: World, e: int) -> bool {
    &&& b.alive@[e] == a.alive@[e]
    &&& b.positions@[e] == a.positions@[e]
    &&& b.renderables@[e] == a.renderables@[e]
    &&& b.viewsheds@[e] == a.viewsheds@[e]
    &&& b.names@[e] == a.names@[e]
    &&& b.combat_stats@[e] == a.combat_stats@[e]
    &&& b.players@[e] == a.players@[e]
    &&& b.monsters@[e] == a.monsters@[e]
    &&& b.items@[e] == a.items@[e]
    &&& b.consumables@[e] == a.consumables@[e]
    &&& b.blocks_tile@[e] == a.blocks_tile@[e]
    &&& b.equipped@[e] == a.equipped@[e]
    &&& b.melee_power_bonus@[e] == a.melee_power_bonus@[e]
    &&& b.defense_bonus@[e] == a.defense_bonus@[e]
    &&& b.well_fed@[e] == a.well_fed@[e]
    &&& b.confusion@[e] == a.confusion@[e]
    &&& b.provides_healing@[e] == a.provides_healing@[e]
    &&& b.ranged@[e] == a.ranged@[e]
    &&& b.inflicts_damage@[e] == a.inflicts_damage@[e]
    &&& b.area_of_effect@[e] == a.area_of_effect@[e]
    &&& b.wants_to_melee@[e] == a.wants_to_melee@[e]
}

/// The components that only spawning and removal touch are the same in both worlds.
pub open spec fn tags_same(a: World, b: World) -> bool {
    &&& b.renderables == a.renderables
    &&& b.names == a.names
    &&& b.items == a.items
    &&& b.consumables == a.consumables
    &&& b.equipped == a.equipped
    &&& b.melee_power_bonus == a.melee_power_bonus
    &&& b.defense_bonus == a.defense_bonus
    &&& b.well_fed == a.well_fed
    &&& b.provides_healing == a.provides_healing
    &&& b.ranged == a.ranged
    &&& b.inflicts_damage == a.inflicts_damage
    &&& b.area_of_effect == a.area_of_effect
}

/// What the commit step guarantees, from `a` to `b`.
pub open spec fn maintain_post(a: World, b: World) -> bool {
    &&& b.wf()
    &&& b.map == a.map
    &&& b.count() == a.count()
    &&& b.dead@.len() == 0
    &&& b.suffer_damage == a.suffer_damage
    &&& b.wants_to_melee == a.wants_to_melee
    &&& b.log == a.log
    &&& b.player_pos == a.player_pos
    &&& b.player_entity == a.player_entity
    &&& forall|e: int|
        0 <= e < a.count() ==> #[trigger] b.alive@[e] == (a.alive@[e]
            && !a.dead@.contains(e as usize)) && if a.dead@.contains(e as usize) {
            slot_empty(b, e)
        } else {
            slot_same(a, b, e)
        }
}

impl World {
    pub open spec fn count(self) -> int {
        self.alive@.len() as int
    }

    pub open spec fn sizes_ok(self) -> bool {
        let n = self.alive@.len();
        &&& n <= MAX_ENTITIES
        &&& self.positions@.len() == n
        &&& self.renderables@.len() == n
        &&& self.viewsheds@.len() == n
        &&& self.names@.len() == n
        &&& self.combat_stats@.len() == n
        &&& self.players@.len() == n
        &&& self.monsters@.len() == n
        &&& self.items@.len() == n
        &&& self.consumables@.len() == n
        &&& self.blocks_tile@.len() == n
        &&& self.equipped@.len() == n
        &&& self.melee_power_bonus@.len() == n
        &&& self.defense_bonus@.len() == n
        &&& self.well_fed@.len() == n
        &&& self.confusion@.len() == n
        &&& self.provides_healing@.len() == n
        &&& self.ranged@.len() == n
        &&& self.inflicts_damage@.len() == n
        &&& self.area_of_effect@.len() == n
        &&& self.wants_to_melee@.len() == n
    }

    pub open spec fn wf(self) -> bool {
        &&& self.map.wf()
        &&& self.sizes_ok()
        &&& forall|e: int|
            0 <= e < self.count() && (#[trigger] self.positions@[e]).is_some() ==> self.map.in_bounds(
                self.positions@[e].unwrap().x as int,
                self.positions@[e].unwrap().y as int,
            )
        &&& forall|e: int|
            0 <= e < self.count() && (#[trigger] self.wants_to_melee@[e]).is_some()
                ==> self.wants_to_melee@[e].unwrap() < self.count()
        &&& forall|i: int|
            0 <= i < self.suffer_damage@.len() ==> (#[trigger] self.suffer_damage@[i]).0 < self.count()
                && 0 <= self.suffer_damage@[i].1 <= MAX_DAMAGE
        &&& forall|i: int| 0 <= i < self.dead@.len() ==> #[trigger] self.dead@[i] < self.count()
    }

    /// Whether entity `e` holds a position on tile `idx`.
    pub open spec fn occupies(self, e: int, idx: int) -> bool {
        &&& self.alive@[e]
        &&& self.positions@[e].is_some()
        &&& self.map.idx(
            self.positions@[e].unwrap().x as int,
            self.positions@[e].unwrap().y as int,
        ) == idx
    }

    /// Number of pending melee intents.
    pub open spec fn wants_count(self, upto: int) -> nat
        decreases upto,
    {
        if upto <= 0 {
            0
        } else {
            self.wants_count(upto - 1) + if self.wants_to_melee@[upto - 1].is_some() {
                1nat
            } else {
                0nat
            }
        }
    }

    /// An empty world on the given map.
    pub fn new(map: GameMap, rng: rltk::RandomNumberGenerator) -> (w: World)
        requires
            map.wf(),
        ensures
            w.wf(),
            w.map == map,
            w.count() == 0,
            w.suffer_damage@.len() == 0,
            w.dead@.len() == 0,
            w.log@.len() == 0,
    {
        World {
            map,
            rng,
            alive: Vec::new(),
            positions: Vec::new(),
            renderables: Vec::new(),
            viewsheds: Vec::new(),
            names: Vec::new(),
            combat_stats: Vec::new(),
            players: Vec::new(),
            monsters: Vec::new(),
            items: Vec::new(),
            consumables: Vec::new(),
            blocks_tile: Vec::new(),
            equipped: Vec::new(),
            melee_power_bonus: Vec::new(),
            defense_bonus: Vec::new(),
            well_fed: Vec::new(),
            confusion: Vec::new(),
            provides_healing: Vec::new(),
            ranged: Vec::new(),
            inflicts_damage: Vec::new(),
            area_of_effect: Vec::new(),
            wants_to_melee: Vec::new(),
            suffer_damage: Vec::new(),
            dead: Vec::new(),
            log: Vec::new(),
            player_pos: Position { x: 0, y: 0 },
            player_entity: 0,
        }
    }

    /// A new entity with no components. Returns `None` when the store is full.
    pub fn create_entity(&mut self) -> (r: Option<usize>)
        requires
            old(self).wf(),
        ensures
            final(self).wf(),
            final(self).map == old(self).map,
            final(self).suffer_damage == old(self).suffer_damage,
            final(self).dead == old(self).dead,
            final(self).log == old(self).log,
            final(self).player_pos == old(self).player_pos,
            final(self).player_entity == old(self).player_entity,
            r.is_some() == (old(self).count() < MAX_ENTITIES),
            r.is_none() ==> final(self).count() == old(self).count(),
            r.is_some() ==> r.unwrap() == old(self).count() && final(self).count() == old(self).count() + 1
                && final(self).alive@[r.unwrap() as int] && slot_empty(*final(self), r.unwrap() as int)
                && final(self).wants_to_melee@[r.unwrap() as int].is_none(),
            forall|e: int|
                0 <= e < old(self).count() ==> #[trigger] final(self).alive@[e] == old(self).alive@[e]
                    && slot_same(*old(self), *final(self), e),
    {
        let n = self.alive.len();
        if n >= MAX_ENTITIES {
            return None;
        }
        self.alive.push(true);
        self.positions.push(None);
        self.renderables.push(None);
        self.viewsheds.push(None);
        self.names.push(None);
        self.combat_stats.push(None);
        self.players.push(false);
        self.monsters.push(false);
        self.items.push(false);
        self.consumables.push(false);
        self.blocks_tile.push(false);
        self.equipped.push(None);
        self.melee_power_bonus.push(None);
        self.defense_bonus.push(None);
        self.well_fed.push(false);
        self.confusion.push(None);
        self.provides_healing.push(None);
        self.ranged.push(None);
        self.inflicts_damage.push(None);
        self.area_of_effect.push(None);
        self.wants_to_melee.push(None);
        Some(n)
    }

    /// Places entity `e` on an in-bounds tile.
    pub fn set_position(&mut self, e: usize, p: Position)
        requires
            old(self).wf(),
            e < old(self).count(),
            old(self).map.in_bounds(p.x as int, p.y as int),
        ensures
            final(self).wf(),
            final(self).positions@ == old(self).positions@.update(e as int, Some(p)),
            tags_same(*old(self), *final(self)),
            final(self).viewsheds == old(self).viewsheds,
            final(self).confusion == old(self).confusion,
            final(self).map == old(self).map,
            final(self).alive == old(self).alive,
            final(self).combat_stats == old(self).combat_stats,
            final(self).blocks_tile == old(self).blocks_tile,
            final(self).wants_to_melee == old(self).wants_to_melee,
            final(self).players == old(self).players,
            final(self).monsters == old(self).monsters,
            final(self).items == old(self).items,
            final(self).suffer_damage == old(self).suffer_damage,
            final(self).dead == old(self).dead,
            final(self).log == old(self).log,
            final(self).player_pos == old(self).player_pos,
            final(self).player_entity == old(self).player_entity,
    {
        self.positions.set(e, Some(p));
    }

    /// The commit step: removes every queued entity with all its components,
    /// then empties the queue. Nothing else changes.
    pub fn maintain(&mut self)
        requires
            old(self).wf(),
        ensures
            maintain_post(*old(self), *final(self)),
    {
        let mut i: usize = 0;
        while i < self.dead.len()
            invariant
                self.wf(),
                self.map == old(self).map,
                self.dead == old(self).dead,
                self.count() == old(self).count(),
                self.suffer_damage == old(self).suffer_damage,
                self.wants_to_melee == old(self).wants_to_melee,
                self.log == old(self).log,
                self.player_pos == old(self).player_pos,
                self.player_entity == old(self).player_entity,
                i <= self.dead@.len(),
                forall|e: int|
                    0 <= e < old(self).count() ==> #[trigger] self.alive@[e] == (old(self).alive@[e]
                        && !self.dead@.subrange(0, i as int).contains(e as usize)) && if self.dead@.subrange(
                        0,
                        i as int,
                    ).contains(e as usize) {
                        slot_empty(*self, e)
                    } else {
                        slot_same(*old(self), *self, e)
                    },
            decreases self.dead@.len() - i,
        {
            let e = self.dead[i];
            let ghost before = *self;
            self.remove_components(e);
            i = i + 1;
            proof {
                let cur = self.dead@.subrange(0, i as int);
                let prev = self.dead@.subrange(0, i - 1);
                assert forall|k: int| 0 <= k < old(self).count() implies #[trigger] cur.contains(
                    k as usize,
                ) == (prev.contains(k as usize) || k == e) by {
                    assert(cur == prev.push(e));
                    if k as usize == e {
                        assert(cur[prev.len() as int] == e);
                    }
                    if prev.contains(k as usize) {
                        let j = choose|j: int| 0 <= j < prev.len() && prev[j] == k as usize;
                        assert(cur[j] == k as usize);
                    }
                    if cur.contains(k as usize) {
                        let j = choose|j: int| 0 <= j < cur.len() && cur[j] == k as usize;
                        if j < prev.len() {
                            assert(prev[j] == k as usize);
                        }
                    }
                }
                assert forall|k: int| 0 <= k < old(self).count() implies #[trigger] self.alive@[k] == (old(
                    self,
                ).alive@[k] && !cur.contains(k as usize)) && if cur.contains(k as usize) {
                    slot_empty(*self, k)
                } else {
                    slot_same(*old(self), *self, k)
                } by {
                    assert(before.alive@[k] == (old(self).alive@[k] && !prev.contains(k as usize)));
                    if k != e {
                        assert(slot_same(before, *self, k));
                    }
                }
            }
        }
        proof {
            assert(self.dead@.subrange(0, self.dead@.len() as int) == self.dead@);
        }
        let ghost done = *self;
        self.dead = Vec::new();
        proof {
            assert forall|e: int| 0 <= e < old(self).count() implies #[trigger] self.alive@[e] == (old(
                self,
            ).alive@[e] && !old(self).dead@.contains(e as usize)) && if old(self).dead@.contains(e as usize) {
                slot_empty(*self, e)
            } else {
                slot_same(*old(self), *self, e)
            } by {
                assert(done.alive@[e] == self.alive@[e]);
            }
        }
    }

    /// Takes every component off entity `e` and marks it gone.
    fn remove_components(&mut self, e: usize)
        requires
            old(self).wf(),
            e < old(self).count(),
        ensures
            final(self).wf(),
            final(self).map == old(self).map,
            final(self).dead == old(self).dead,
            final(self).suffer_damage == old(self).suffer_damage,
            final(self).wants_to_melee == old(self).wants_to_melee,
            final(self).log == old(self).log,
            final(self).player_pos == old(self).player_pos,
            final(self).player_entity == old(self).player_entity,
            final(self).alive@ == old(self).alive@.update(e as int, false),
            slot_empty(*final(self), e as int),
            forall|k: int|
                0 <= k < old(self).count() && k != e ==> #[trigger] final(self).alive@[k] == old(self).alive@[k]
                    && slot_same(*old(self), *final(self), k),
    {
        self.alive.set(e, false);
        self.positions.set(e, None);
        self.renderables.set(e, None);
        self.viewsheds.set(e, None);
        self.names.set(e, None);
        self.combat_stats.set(e, None);
        self.players.set(e, false);
        self.monsters.set(e, false);
        self.items.set(e, false);
        self.consumables.set(e, false);
        self.blocks_tile.set(e, false);
        self.equipped.set(e, None);
        self.melee_power_bonus.set(e, None);
        self.defense_bonus.set(e, None);
        self.well_fed.set(e, false);
        self.confusion.set(e, None);
        self.provides_healing.set(e, None);
        self.ranged.set(e, None);
        self.inflicts_damage.set(e, None);
        self.area_of_effect.set(e, None);
    }
}

} // verus!
