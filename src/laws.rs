use vstd::prelude::*;
use crate::ai::{acts, ai_outcome, ai_post, grid_distance, is_confused, sees_player, sign};
use crate::components::Position;
use crate::combat::{attack_damage, attacks, combat_damage, combat_log};
use crate::components::LogEntry;
use crate::damage::dies;
use crate::state::pipeline;
use crate::map::{lemma_idx_in_range, TileType};
use crate::spawner::room_spawned;
use crate::world::{slot_empty, World};

verus! {

/// Deferred destruction over one pass of the systems: an entity that the
/// damage step leaves at zero hp is still alive, with its stats, in every
/// world before the commit, and is gone with no component after it.
pub proof fn lemma_death_is_deferred(
    a: World,
    w1: World,
    w2: World,
    w3: World,
    w4: World,
    w5: World,
    b: World,
    e: int,
)
    requires
        pipeline(a, w1, w2, w3, w4, w5, b),
        0 <= e < a.count(),
        dies(w4, e),
    ensures
        w1.alive@[e] && w2.alive@[e] && w3.alive@[e] && w4.alive@[e] && w5.alive@[e],
        a.alive@[e],
        w5.combat_stats@[e].is_some() && w5.combat_stats@[e].unwrap().hp <= 0,
        !b.alive@[e],
        slot_empty(b, e),
{
    assert(w5.dead@.contains(e as usize));
    assert(w5.alive@[e] == w4.alive@[e]);
    assert(w5.combat_stats@[e] == crate::damage::stats_after(w4, e));
    assert(b.alive@[e] == (w5.alive@[e] && !w5.dead@.contains(e as usize)));
}

/// The combat law for a lone attack: when `e` is the only entity whose melee
/// intent resolves, the log gains exactly one entry, "no effect" when the
/// damage `max(0, power - defense)` is zero, else a hit for that damage, and
/// a damage record is queued exactly when the damage is positive.
pub proof fn lemma_lone_attack(w: World, e: int)
    requires
        0 <= e < w.count(),
        attacks(w, e),
        forall|k: int| 0 <= k < w.count() && k != e ==> !#[trigger] attacks(w, k),
    ensures
        combat_log(w, w.count()) == seq![
            if attack_damage(w, e) == 0 {
                LogEntry::NoEffect { attacker: e as usize, target: w.wants_to_melee@[e].unwrap() }
            } else {
                LogEntry::Hit {
                    attacker: e as usize,
                    target: w.wants_to_melee@[e].unwrap(),
                    damage: attack_damage(w, e) as i64,
                }
            },
        ],
        combat_damage(w, w.count()) == if attack_damage(w, e) > 0 {
            seq![(w.wants_to_melee@[e].unwrap(), attack_damage(w, e) as i64)]
        } else {
            seq![]
        },
{
    lemma_quiet_prefix(w, e, e);
    lemma_quiet_suffix(w, e, w.count());
}

proof fn lemma_quiet_prefix(w: World, e: int, upto: int)
    requires
        0 <= upto <= e < w.count(),
        forall|k: int| 0 <= k < w.count() && k != e ==> !#[trigger] attacks(w, k),
    ensures
        combat_log(w, upto) == Seq::<LogEntry>::empty(),
        combat_damage(w, upto) == Seq::<(usize, i64)>::empty(),
    decreases upto,
{
    if upto > 0 {
        lemma_quiet_prefix(w, e, upto - 1);
        assert(!attacks(w, upto - 1));
    }
}

proof fn lemma_quiet_suffix(w: World, e: int, upto: int)
    requires
        0 <= e < upto <= w.count(),
        attacks(w, e),
        forall|k: int| 0 <= k < w.count() && k != e ==> !#[trigger] attacks(w, k),
    ensures
        combat_log(w, upto) == combat_log(w, e + 1),
        combat_damage(w, upto) == combat_damage(w, e + 1),
    decreases upto,
{
    if upto > e + 1 {
        lemma_quiet_suffix(w, e, upto - 1);
        assert(!attacks(w, upto - 1));
    } else {
        lemma_quiet_prefix(w, e, e);
        assert(combat_log(w, e) == Seq::<LogEntry>::empty());
    }
}

/// Spawning lands on Floor: in a generated layout, every entity that a room's
/// spawning created stands on a Floor tile inside that room.
pub proof fn lemma_spawns_on_floor(a: World, b: World, k: int, nm: int, e: int)
    requires
        a.map.wf(),
        a.map.layout_ok(),
        0 <= k < a.map.rooms@.len(),
        b.map == a.map,
        room_spawned(a, b, a.map.rooms@[k], nm),
        a.count() <= e < b.count(),
    ensures
        b.positions@[e].is_some(),
        b.map.in_bounds(b.positions@[e].unwrap().x as int, b.positions@[e].unwrap().y as int),
        b.map.tile_at(b.positions@[e].unwrap().x as int, b.positions@[e].unwrap().y as int) == TileType::Floor,
{
    let room = a.map.rooms@[k];
    assert(b.positions@[e].is_some());
    let p = b.positions@[e].unwrap();
    assert(room.interior_contains(p.x as int, p.y as int));
    assert(a.map.room_fits(room));
    assert(a.map.room_carved(room));
    lemma_idx_in_range(a.map.width as int, a.map.height as int, p.x as int, p.y as int);
    let i = a.map.idx(p.x as int, p.y as int);
    assert(a.map.tiles@[i] == TileType::Floor);
}

/// The tile one step from `me` toward `target`, diagonals allowed.
pub open spec fn step_toward(me: Position, target: Position) -> (int, int) {
    (me.x + sign(target.x - me.x), me.y + sign(target.y - me.y))
}

/// The chase law: a monster that is not confused and sees the player melees
/// it when next to it, without moving; further away it records no intent and
/// takes the step toward the player exactly when that tile is on the map,
/// Floor and not blocked, marking its viewshed dirty; else it stays.
pub proof fn lemma_chase(a: World, b: World, e: int)
    requires
        ai_post(a, b),
        0 <= e < a.count(),
        acts(a, e),
        !is_confused(a, e),
        sees_player(a, e),
    ensures
        grid_distance(a.positions@[e].unwrap(), a.player_pos) <= 1 ==> b.wants_to_melee@[e] == Some(a.player_entity)
            && b.positions@[e] == a.positions@[e],
        grid_distance(a.positions@[e].unwrap(), a.player_pos) > 1 ==> b.wants_to_melee@[e] == a.wants_to_melee@[e] && ({
            let s = step_toward(a.positions@[e].unwrap(), a.player_pos);
            if a.map.in_bounds(s.0, s.1) && a.map.tile_at(s.0, s.1) == TileType::Floor && !a.map.blocked@[a.map.idx(s.0, s.1)] {
                b.positions@[e] == Some(Position { x: s.0 as i32, y: s.1 as i32 }) && b.viewsheds@[e].unwrap().dirty
            } else {
                b.positions@[e] == a.positions@[e]
            }
        }),
{
    assert(ai_outcome(a, b, e));
    assert(b.positions@[e] == crate::ai::step_result(a, e));
}

} // verus!
