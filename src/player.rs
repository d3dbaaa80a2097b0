use vstd::prelude::*;
use crate::components::{Position, RunState};
use crate::ai::dirtied;
use crate::state::State;
use crate::world::{tags_same, World};

verus! {

/// The keys the game reacts to; every other key is `Other`.
#[derive(Clone, Copy, Debug, PartialEq, Eq, Structural)]
pub enum Key {
    Left,
    Right,
    Up,
    Down,
    Numpad1,
    Numpad2,
    Numpad3,
    Numpad4,
    Numpad6,
    Numpad7,
    Numpad8,
    Numpad9,
    Other,
}

/// The move a key asks for, if any: arrows and the numeric keypad give the
/// eight directions.
pub open spec fn key_delta_spec(key: Key) -> Option<(i32, i32)> {
    match key {
        Key::Left | Key::Numpad4 => Some((-1i32, 0i32)),
        Key::Right | Key::Numpad6 => Some((1i32, 0i32)),
        Key::Up | Key::Numpad8 => Some((0i32, -1i32)),
        Key::Down | Key::Numpad2 => Some((0i32, 1i32)),
        Key::Numpad9 => Some((1i32, -1i32)),
        Key::Numpad7 => Some((-1i32, -1i32)),
        Key::Numpad3 => Some((1i32, 1i32)),
        Key::Numpad1 => Some((-1i32, 1i32)),
        Key::Other => None,
    }
}

pub fn key_delta(key: Key) -> (r: Option<(i32, i32)>)
    ensures
        r == key_delta_spec(key),
{
    match key {
        Key::Left | Key::Numpad4 => Some((-1, 0)),
        Key::Right | Key::Numpad6 => Some((1, 0)),
        Key::Up | Key::Numpad8 => Some((0, -1)),
        Key::Down | Key::Numpad2 => Some((0, 1)),
        Key::Numpad9 => Some((1, -1)),
        Key::Numpad7 => Some((-1, -1)),
        Key::Numpad3 => Some((1, 1)),
        Key::Numpad1 => Some((-1, 1)),
        Key::Other => None,
    }
}

/// The first entity listed in `c` from position `i` on that can be fought:
/// a known entity with combat stats.
pub open spec fn first_fighter(w: World, c: Seq<usize>, i: int) -> Option<usize>
    decreases c.len() - i,
{
    if i < 0 || i >= c.len() {
        None
    } else if c[i] < w.count() && w.combat_stats@[c[i] as int].is_some() {
        Some(c[i])
    } else {
        first_fighter(w, c, i + 1)
    }
}

/// The tile the player would step onto, when the player stands on the map.
pub open spec fn move_target(w: World, dx: int, dy: int) -> Option<Position> {
    let pe = w.player_entity as int;
    if w.alive@[pe] && w.positions@[pe].is_some() && w.map.in_bounds(
        w.positions@[pe].unwrap().x + dx,
        w.positions@[pe].unwrap().y + dy,
    ) {
        Some(
            Position {
                x: (w.positions@[pe].unwrap().x + dx) as i32,
                y: (w.positions@[pe].unwrap().y + dy) as i32,
            },
        )
    } else {
        None
    }
}

/// The attack a move turns into: the first fighter on the destination tile.
pub open spec fn bump_target(w: World, dest: Position) -> Option<usize> {
    first_fighter(w, w.map.tile_content@[w.map.idx(dest.x as int, dest.y as int)]@, 0)
}

/// What a move by `(dx, dy)` does: off the map, nothing; onto a fighter, a
/// melee intent on it; onto a free tile, a step there; onto a blocked one,
/// nothing.
pub open spec fn move_outcome(a: World, b: World, dx: int, dy: int) -> bool {
    let pe = a.player_entity as int;
    let stays = b.positions == a.positions && b.player_pos == a.player_pos && b.viewsheds == a.viewsheds;
    match move_target(a, dx, dy) {
        None => stays && b.wants_to_melee == a.wants_to_melee,
        Some(dest) => match bump_target(a, dest) {
            Some(t) => stays && b.wants_to_melee@ == a.wants_to_melee@.update(pe, Some(t)),
            None => b.wants_to_melee == a.wants_to_melee && if a.map.blocked@[a.map.idx(
                dest.x as int,
                dest.y as int,
            )] {
                stays
            } else {
                b.positions@ == a.positions@.update(pe, Some(dest)) && b.player_pos == dest
                    && b.viewsheds@ == a.viewsheds@.update(pe, dirtied(a.viewsheds@[pe]))
            },
        },
    }
}

/// What a move leaves alone: the map with all its arrays, every entity's
/// life, stats, tags and other components, and the tick's queues.
pub open spec fn move_keeps(a: World, b: World) -> bool {
    &&& b.map == a.map
    &&& b.alive == a.alive
    &&& b.combat_stats == a.combat_stats
    &&& b.players == a.players
    &&& b.monsters == a.monsters
    &&& b.blocks_tile == a.blocks_tile
    &&& b.confusion == a.confusion
    &&& b.suffer_damage == a.suffer_damage
    &&& b.dead == a.dead
    &&& b.log == a.log
    &&& b.player_entity == a.player_entity
    &&& tags_same(a, b)
}

/// The player moves by `(delta_x, delta_y)`. Moving onto a tile with a
/// fighter records a melee intent on it instead; otherwise the player steps
/// there unless the tile is blocked, updating the cached player position and
/// marking the viewshed dirty. A destination off the map does nothing.
pub fn try_move_player(delta_x: i32, delta_y: i32, ecs: &mut World)
    requires
        old(ecs).wf(),
        old(ecs).player_entity < old(ecs).count(),
        -1 <= delta_x <= 1,
        -1 <= delta_y <= 1,
    ensures
        final(ecs).wf(),
        final(ecs).map == old(ecs).map,
        final(ecs).alive == old(ecs).alive,
        final(ecs).combat_stats == old(ecs).combat_stats,
        final(ecs).players == old(ecs).players,
        final(ecs).monsters == old(ecs).monsters,
        final(ecs).blocks_tile == old(ecs).blocks_tile,
        final(ecs).suffer_damage == old(ecs).suffer_damage,
        final(ecs).dead == old(ecs).dead,
        final(ecs).player_entity == old(ecs).player_entity,
        final(ecs).confusion == old(ecs).confusion,
        tags_same(*old(ecs), *final(ecs)),
        move_outcome(*old(ecs), *final(ecs), delta_x as int, delta_y as int),
        move_keeps(*old(ecs), *final(ecs)),
{
    let pe = ecs.player_entity;
    if !ecs.alive[pe] {
        return;
    }
    let pos = match ecs.positions[pe] {
        Some(p) => p,
        None => {
            return;
        },
    };
    let x = pos.x + delta_x;
    let y = pos.y + delta_y;
    if x < 0 || x >= ecs.map.width || y < 0 || y >= ecs.map.height {
        return;
    }
    let dest = Position { x, y };
    let idx = ecs.map.xy_idx(x, y);
    let n = ecs.alive.len();
    let mut i: usize = 0;
    while i < ecs.map.tile_content[idx].len()
        invariant
            ecs.wf(),
            ecs == old(ecs),
            n == ecs.count(),
            idx == ecs.map.idx(x as int, y as int),
            idx < ecs.map.tiles@.len(),
            pe == ecs.player_entity,
            pe < n,
            ecs.alive@[pe as int],
            ecs.positions@[pe as int] == Some(pos),
            x == pos.x + delta_x,
            y == pos.y + delta_y,
            ecs.map.in_bounds(x as int, y as int),
            dest == (Position { x, y }),
            i <= ecs.map.tile_content@[idx as int]@.len(),
            first_fighter(*ecs, ecs.map.tile_content@[idx as int]@, 0) == first_fighter(
                *ecs,
                ecs.map.tile_content@[idx as int]@,
                i as int,
            ),
        decreases ecs.map.tile_content@[idx as int]@.len() - i,
    {
        let t = ecs.map.tile_content[idx][i];
        if t < n {
            if ecs.combat_stats[t].is_some() {
                proof {
                    assert(ecs.map.tile_content@[idx as int]@[i as int] == t);
                    assert(first_fighter(*ecs, ecs.map.tile_content@[idx as int]@, i as int) == Some(t));
                    assert(move_target(*old(ecs), delta_x as int, delta_y as int) == Some(dest));
                    assert(bump_target(*old(ecs), dest) == Some(t));
                }
                ecs.wants_to_melee.set(pe, Some(t));
                return;
            }
        }
        i = i + 1;
    }
    if !ecs.map.blocked[idx] {
        ecs.positions.set(pe, Some(dest));
        ecs.player_pos = dest;
        let has_view = match &ecs.viewsheds[pe] {
            Some(_) => true,
            None => false,
        };
        if has_view {
            ecs.mark_dirty(pe);
        } else {
            proof {
                assert(ecs.viewsheds@ =~= old(ecs).viewsheds@.update(pe as int, dirtied(old(ecs).viewsheds@[pe as int])));
            }
        }
    }
}

/// The run state a key leads to: running after a movement key, else paused.
pub open spec fn input_state(key: Option<Key>) -> RunState {
    match key {
        Some(k) => if key_delta_spec(k).is_some() {
            RunState::Running
        } else {
            RunState::Paused
        },
        None => RunState::Paused,
    }
}

/// Turns a key press into a move. No key, or a key the game ignores, leaves
/// the game paused; a movement key makes the move and sets it running.
pub fn player_input(gs: &mut State, key: Option<Key>) -> (r: RunState)
    requires
        old(gs).wf(),
    ensures
        final(gs).wf(),
        final(gs).runstate == old(gs).runstate,
        move_keeps(old(gs).ecs, final(gs).ecs),
        r == input_state(key),
        (key.is_none() || key_delta_spec(key.unwrap()).is_none()) ==> final(gs).ecs == old(gs).ecs,
        key.is_some() && key_delta_spec(key.unwrap()).is_some() ==> move_outcome(
            old(gs).ecs,
            final(gs).ecs,
            key_delta_spec(key.unwrap()).unwrap().0 as int,
            key_delta_spec(key.unwrap()).unwrap().1 as int,
        ),
{
    match key {
        None => RunState::Paused,
        Some(k) => match key_delta(k) {
            None => RunState::Paused,
            Some((dx, dy)) => {
                try_move_player(dx, dy, &mut gs.ecs);
                RunState::Running
            },
        },
    }
}

} // verus!
