use vstd::prelude::*;
use crate::components::{Position, Viewshed};
use crate::map::TileType;
use crate::world::{tags_same, World};

verus! {

/// What a monster does on its turn.
#[derive(Clone, Copy, Debug, PartialEq, Eq, Structural)]
pub enum MonsterAction {
    /// Confused: the turn is lost and the confusion wears down by one.
    Confused,
    /// The player is out of sight: nothing happens.
    Idle,
    /// The player is adjacent: melee them.
    Attack,
    /// Step to this tile, one square toward the player.
    Step { x: i32, y: i32 },
}

pub open spec fn abs(a: int) -> int {
    if a < 0 {
        -a
    } else {
        a
    }
}

pub open spec fn sign(a: int) -> int {
    if a > 0 {
        1
    } else if a < 0 {
        -1
    } else {
        0
    }
}

/// Grid (Chebyshev) distance: diagonal steps count as one.
pub open spec fn grid_distance(a: Position, b: Position) -> int {
    let dx = abs(b.x - a.x);
    let dy = abs(b.y - a.y);
    if dx > dy {
        dx
    } else {
        dy
    }
}

pub open spec fn action_spec(me: Position, player: Position, sees: bool, confused: bool) -> MonsterAction {
    if confused {
        MonsterAction::Confused
    } else if !sees {
        MonsterAction::Idle
    } else if grid_distance(me, player) <= 1 {
        MonsterAction::Attack
    } else {
        MonsterAction::Step {
            x: (me.x + sign(player.x - me.x)) as i32,
            y: (me.y + sign(player.y - me.y)) as i32,
        }
    }
}

/// A monster's decision: a confused monster loses its turn; one that cannot
/// see the player idles; one next to the player attacks; any other steps one
/// square toward the player, diagonals allowed.
pub fn decide_monster_action(me: Position, player: Position, sees: bool, confused: bool) -> (r: MonsterAction)
    requires
        -1_000_000 <= me.x <= 1_000_000,
        -1_000_000 <= me.y <= 1_000_000,
        -1_000_000 <= player.x <= 1_000_000,
        -1_000_000 <= player.y <= 1_000_000,
    ensures
        r == action_spec(me, player, sees, confused),
{
    if confused {
        return MonsterAction::Confused;
    }
    if !sees {
        return MonsterAction::Idle;
    }
    let dx = player.x - me.x;
    let dy = player.y - me.y;
    let adx = if dx < 0 { -dx } else { dx };
    let ady = if dy < 0 { -dy } else { dy };
    let dist = if adx > ady { adx } else { ady };
    if dist <= 1 {
        MonsterAction::Attack
    } else {
        let sx: i32 = if dx > 0 { 1 } else if dx < 0 { -1 } else { 0 };
        let sy: i32 = if dy > 0 { 1 } else if dy < 0 { -1 } else { 0 };
        MonsterAction::Step { x: me.x + sx, y: me.y + sy }
    }
}

/// Entity `e` is a live monster, not the player, with a position and a viewshed.
pub open spec fn acts(w: World, e: int) -> bool {
    &&& w.alive@[e]
    &&& w.monsters@[e]
    &&& !w.players@[e]
    &&& w.positions@[e].is_some()
    &&& w.viewsheds@[e].is_some()
}

pub open spec fn sees_player(w: World, e: int) -> bool {
    w.viewsheds@[e].unwrap().visible_tiles@.contains(w.player_pos)
}

pub open spec fn is_confused(w: World, e: int) -> bool {
    w.confusion@[e].is_some() && w.confusion@[e].unwrap() > 0
}

pub open spec fn monster_action(w: World, e: int) -> MonsterAction {
    action_spec(w.positions@[e].unwrap(), w.player_pos, sees_player(w, e), is_confused(w, e))
}

/// Where a monster stands after its turn: on the tile it steps to when that
/// tile is on the map, Floor and not blocked; else where it stood.
pub open spec fn step_result(w: World, e: int) -> Option<Position> {
    match monster_action(w, e) {
        MonsterAction::Step { x, y } => if acts(w, e) && w.map.in_bounds(x as int, y as int)
            && w.map.tile_at(x as int, y as int) == TileType::Floor && !w.map.blocked@[w.map.idx(
            x as int,
            y as int,
        )] {
            Some(Position { x, y })
        } else {
            w.positions@[e]
        },
        _ => w.positions@[e],
    }
}

/// What the monster AI leaves alone.
pub open spec fn same_but_ai(a: World, b: World) -> bool {
    &&& b.map == a.map
    &&& tags_same(a, b)
    &&& b.map.tiles == a.map.tiles
    &&& b.map.width == a.map.width
    &&& b.map.height == a.map.height
    &&& b.map.rooms == a.map.rooms
    &&& b.map.revealed_tiles == a.map.revealed_tiles
    &&& b.map.visible_tiles == a.map.visible_tiles
    &&& b.map.tile_content == a.map.tile_content
    &&& b.alive == a.alive
    &&& b.combat_stats == a.combat_stats
    &&& b.players == a.players
    &&& b.monsters == a.monsters
    &&& b.blocks_tile == a.blocks_tile
    &&& b.suffer_damage == a.suffer_damage
    &&& b.dead == a.dead
    &&& b.log == a.log
    &&& b.player_pos == a.player_pos
    &&& b.player_entity == a.player_entity
    &&& b.viewsheds@.len() == a.viewsheds@.len()
}

/// Per monster: its intent, confusion and position after its turn.
pub open spec fn ai_outcome(a: World, b: World, e: int) -> bool {
    &&& b.wants_to_melee@[e] == if acts(a, e) && monster_action(a, e) == MonsterAction::Attack {
        Some(a.player_entity)
    } else {
        a.wants_to_melee@[e]
    }
    &&& b.confusion@[e] == if acts(a, e) && monster_action(a, e) == MonsterAction::Confused {
        if a.confusion@[e].unwrap() > 1 {
            Some((a.confusion@[e].unwrap() - 1) as i32)
        } else {
            None
        }
    } else {
        a.confusion@[e]
    }
    &&& b.positions@[e] == a.positions@[e] || (acts(a, e) && monster_action(a, e) == (MonsterAction::Step {
        x: b.positions@[e].unwrap().x,
        y: b.positions@[e].unwrap().y,
    }) && b.positions@[e].is_some())
    &&& b.viewsheds@[e] == if b.positions@[e] != a.positions@[e] {
        dirtied(a.viewsheds@[e])
    } else {
        a.viewsheds@[e]
    }
}

/// The same viewshed, marked for recomputation.
pub open spec fn dirtied(v: Option<Viewshed>) -> Option<Viewshed> {
    match v {
        Some(x) => Some(Viewshed { visible_tiles: x.visible_tiles, range: x.range, dirty: true }),
        None => None,
    }
}

/// One monster's turn, from `a` to `b`: the outcome of `ai_outcome`, the
/// step of `step_result`, and no other entity touched. The map is left as it
/// was: only spatial indexing rebuilds `blocked`.
pub open spec fn turn_post(a: World, b: World, e: int) -> bool {
    &&& same_but_ai(a, b)
    &&& ai_outcome(a, b, e)
    &&& b.positions@[e] == step_result(a, e)
    &&& forall|j: int| 0 <= j < a.count() && j != e ==> #[trigger] b.wants_to_melee@[j] == a.wants_to_melee@[j]
    &&& forall|j: int| 0 <= j < a.count() && j != e ==> #[trigger] b.confusion@[j] == a.confusion@[j]
    &&& forall|j: int| 0 <= j < a.count() && j != e ==> #[trigger] b.positions@[j] == a.positions@[j]
    &&& forall|j: int| 0 <= j < a.count() && j != e ==> #[trigger] b.viewsheds@[j] == a.viewsheds@[j]
}

/// `ws` lists the world before each monster's turn and after the last:
/// entity `k` takes its turn from `ws[k]` to `ws[k + 1]`.
pub open spec fn ai_fold(a: World, b: World, ws: Seq<World>) -> bool {
    &&& ws.len() == a.count() + 1
    &&& ws[0] == a
    &&& ws[a.count()] == b
    &&& forall|k: int| 0 <= k < a.count() ==> turn_post(#[trigger] ws[k], ws[k + 1], k)
}

/// What the monster AI guarantees, from `a` to `b`.
pub open spec fn ai_post(a: World, b: World) -> bool {
    &&& b.wf()
    &&& same_but_ai(a, b)
    &&& forall|e: int| 0 <= e < a.count() ==> #[trigger] ai_outcome(a, b, e)
    &&& exists|ws: Seq<World>| #[trigger] ai_fold(a, b, ws)
    &&& forall|e: int| 0 <= e < a.count() ==> #[trigger] b.positions@[e] == step_result(a, e)
}

impl World {
    fn sees_position(&self, e: usize, p: Position) -> (r: bool)
        requires
            self.wf(),
            e < self.count(),
            self.viewsheds@[e as int].is_some(),
        ensures
            r == self.viewsheds@[e as int].unwrap().visible_tiles@.contains(p),
    {
        let vs = &self.viewsheds[e];
        match vs {
            Some(v) => {
                proof {
                    assert(self.viewsheds@[e as int] == *vs);
                    assert(v.visible_tiles@ == self.viewsheds@[e as int].unwrap().visible_tiles@);
                }
                let mut i: usize = 0;
                while i < v.visible_tiles.len()
                    invariant
                        e < self.count(),
                        self.wf(),
                        v.visible_tiles@ == self.viewsheds@[e as int].unwrap().visible_tiles@,
                        i <= v.visible_tiles@.len(),
                        forall|j: int| 0 <= j < i ==> v.visible_tiles@[j] != p,
                    decreases v.visible_tiles@.len() - i,
                {
                    if v.visible_tiles[i] == p {
                        proof {
                            assert(v.visible_tiles@[i as int] == p);
                        }
                        return true;
                    }
                    i = i + 1;
                }
                false
            },
            None => false,
        }
    }

    /// Sets the dirty flag of entity `e`'s viewshed, keeping its tiles and range.
    pub(crate) fn mark_dirty(&mut self, e: usize)
        requires
            old(self).wf(),
            e < old(self).count(),
            old(self).viewsheds@[e as int].is_some(),
        ensures
            final(self).wf(),
            final(self).viewsheds@ == old(self).viewsheds@.update(e as int, dirtied(old(self).viewsheds@[e as int])),
            tags_same(*old(self), *final(self)),
            final(self).map == old(self).map,
            final(self).alive == old(self).alive,
            final(self).positions == old(self).positions,
            final(self).combat_stats == old(self).combat_stats,
            final(self).players == old(self).players,
            final(self).monsters == old(self).monsters,
            final(self).blocks_tile == old(self).blocks_tile,
            final(self).confusion == old(self).confusion,
            final(self).wants_to_melee == old(self).wants_to_melee,
            final(self).suffer_damage == old(self).suffer_damage,
            final(self).dead == old(self).dead,
            final(self).log == old(self).log,
            final(self).player_pos == old(self).player_pos,
            final(self).player_entity == old(self).player_entity,
    {
        let taken = self.viewsheds.remove(e);
        match taken {
            Some(v) => {
                self.viewsheds.insert(
                    e,
                    Some(Viewshed { visible_tiles: v.visible_tiles, range: v.range, dirty: true }),
                );
            },
            None => {
                self.viewsheds.insert(e, None);
            },
        }
        proof {
            assert(self.viewsheds@ =~= old(self).viewsheds@.update(
                e as int,
                Some(
                    Viewshed {
                        visible_tiles: old(self).viewsheds@[e as int].unwrap().visible_tiles,
                        range: old(self).viewsheds@[e as int].unwrap().range,
                        dirty: true,
                    },
                ),
            ));
        }
    }
    /// One monster's turn, as `monster_ai` takes it for each entity: the
    /// outcome of `ai_outcome`, and a step taken exactly when the tile stepped
    /// to is on the map, Floor and not blocked. No other entity changes.
    pub fn monster_turn(&mut self, e: usize)
        requires
            old(self).wf(),
            e < old(self).count(),
            old(self).player_entity < old(self).count(),
            old(self).map.in_bounds(old(self).player_pos.x as int, old(self).player_pos.y as int),
        ensures
            final(self).wf(),
            turn_post(*old(self), *final(self), e as int),
    {
        let has_view = match &self.viewsheds[e] {
            Some(_) => true,
            None => false,
        };
        if self.alive[e] && self.monsters[e] && !self.players[e] && has_view {
            if let Some(pos) = self.positions[e] {
                let confused = match self.confusion[e] {
                    Some(t) => t > 0,
                    None => false,
                };
                let sees = if confused {
                    false
                } else {
                    self.sees_position(e, self.player_pos)
                };
                let action = decide_monster_action(pos, self.player_pos, sees, confused);
                proof {
                    assert(action == monster_action(*old(self), e as int));
                }
                match action {
                    MonsterAction::Confused => {
                        let t = match self.confusion[e] {
                            Some(t) => t,
                            None => 0,
                        };
                        if t > 1 {
                            self.confusion.set(e, Some(t - 1));
                        } else {
                            self.confusion.set(e, None);
                        }
                    },
                    MonsterAction::Idle => {},
                    MonsterAction::Attack => {
                        self.wants_to_melee.set(e, Some(self.player_entity));
                    },
                    MonsterAction::Step { x, y } => {
                        if self.map.is_exit_valid(x, y) {
                            self.positions.set(e, Some(Position { x, y }));
                            self.mark_dirty(e);
                        }
                    },
                }
            }
        }
    }

    /// The monster AI system. Each live monster that has a position and a
    /// viewshed takes its turn by `decide_monster_action`: a confused one loses
    /// the turn and its confusion drops by one; one next to the player it can
    /// see records a melee intent on the player; one further away steps toward
    /// the player when that tile is Floor and not blocked, marking its
    /// viewshed dirty. Monsters that cannot see the player do nothing. The map
    /// is not touched: `blocked` waits for the next spatial indexing.
    pub fn monster_ai(&mut self)
        requires
            old(self).wf(),
            old(self).player_entity < old(self).count(),
            old(self).map.in_bounds(old(self).player_pos.x as int, old(self).player_pos.y as int),
        ensures
            ai_post(*old(self), *final(self)),
    {
        let n = self.alive.len();
        let ghost mut ws: Seq<World> = seq![*old(self)];
        let mut e: usize = 0;
        while e < n
            invariant
                self.wf(),
                n == self.count(),
                e <= n,
                same_but_ai(*old(self), *self),
                old(self).player_entity < n,
                old(self).map.in_bounds(old(self).player_pos.x as int, old(self).player_pos.y as int),
                forall|j: int| 0 <= j < e ==> #[trigger] ai_outcome(*old(self), *self, j),
                forall|j: int| e <= j < n ==> #[trigger] self.wants_to_melee@[j] == old(self).wants_to_melee@[j],
                forall|j: int| e <= j < n ==> #[trigger] self.confusion@[j] == old(self).confusion@[j],
                forall|j: int| e <= j < n ==> #[trigger] self.positions@[j] == old(self).positions@[j],
                forall|j: int| e <= j < n ==> #[trigger] self.viewsheds@[j] == old(self).viewsheds@[j],
                ws.len() == e + 1,
                ws[0] == *old(self),
                ws[e as int] == *self,
                forall|k: int| 0 <= k < e ==> turn_post(#[trigger] ws[k], ws[k + 1], k),
                forall|j: int| 0 <= j < e ==> #[trigger] self.positions@[j] == step_result(*old(self), j),
            decreases n - e,
        {
            let ghost before = *self;
            self.monster_turn(e);
            proof {
                let ws0 = ws;
                ws = ws.push(*self);
                assert forall|k: int| 0 <= k < e + 1 implies turn_post(#[trigger] ws[k], ws[k + 1], k) by {
                    if k < e {
                        assert(ws[k] == ws0[k] && ws[k + 1] == ws0[k + 1]);
                    }
                }
            }
            proof {
                assert(self.positions@[e as int] == step_result(*old(self), e as int));
                assert(ai_outcome(before, *self, e as int));
                assert(ai_outcome(*old(self), *self, e as int));
                assert forall|j: int| 0 <= j < e implies #[trigger] ai_outcome(*old(self), *self, j) by {
                    assert(ai_outcome(*old(self), before, j));
                }
            }
            e = e + 1;
        }
        proof {
            assert(ai_fold(*old(self), *self, ws));
        }
    }
}

} // verus!
