use roguelike::ai::{decide_monster_action, MonsterAction};
use roguelike::components::{CombatStats, LogEntry, Position, RunState};
use rltk::RandomNumberGenerator;
use roguelike::map::{GameMap, TileType};
use roguelike::player::{key_delta, player_input, try_move_player, Key};
use roguelike::rect::Rect;
use roguelike::spawner::{monster, player};
use roguelike::state::State;
use roguelike::systems::{MeleeCombatSystem, MonsterAI};
use roguelike::world::World;

/// A 20 by 20 map whose interior (all but row 0 and column 0) is Floor.
fn open_map() -> GameMap {
    let mut m = GameMap::new(20, 20);
    m.apply_room_to_map(&Rect::new(0, 0, 19, 19));
    m
}

fn open_world() -> World {
    World::new(open_map(), RandomNumberGenerator::seeded(7))
}

fn set_wall(w: &mut World, x: i32, y: i32) {
    let idx = w.map.xy_idx(x, y);
    w.map.tiles[idx] = TileType::Wall;
}

#[test]
fn rect_overlap_and_center() {
    let a = Rect::new(2, 2, 4, 4);
    let b = Rect::new(6, 6, 2, 2);
    let c = Rect::new(7, 7, 5, 5);
    assert!(a.intersect(&b));
    assert!(b.intersect(&a));
    assert!(!a.intersect(&c));
    assert_eq!(a.center(), (4, 4));
    assert_eq!(Rect::new(1, 3, 5, 4).center(), (3, 5));
}

#[test]
fn tile_index_and_exits() {
    let m = open_map();
    assert_eq!(m.xy_idx(3, 2), 43);
    assert!(m.is_exit_valid(3, 2));
    assert!(!m.is_exit_valid(0, 2));
    assert!(!m.is_exit_valid(-1, 2));
    assert!(!m.is_exit_valid(3, 20));
}

#[test]
fn carving_tunnels() {
    let mut m = GameMap::new(10, 10);
    m.apply_horizontal_tunnel(7, 2, 3);
    m.apply_vertical_tunnel(1, 4, 8);
    for x in 0..10 {
        let expect = if (2..=8).contains(&x) { TileType::Floor } else { TileType::Wall };
        assert_eq!(m.tiles[m.xy_idx(x, 3)], expect);
    }
    for y in 0..10 {
        let expect = if (1..=4).contains(&y) { TileType::Floor } else { TileType::Wall };
        assert_eq!(m.tiles[m.xy_idx(8, y)], expect);
    }
}

#[test]
fn same_seed_same_layout() {
    let mut r1 = RandomNumberGenerator::seeded(1234);
    let mut r2 = RandomNumberGenerator::seeded(1234);
    let a = GameMap::new_map_rooms_and_corridors(&mut r1, 4, 200);
    let b = GameMap::new_map_rooms_and_corridors(&mut r2, 4, 200);
    assert_eq!(a.rooms, b.rooms);
    assert_eq!(a.tiles, b.tiles);
    assert_eq!(a.rooms.len(), 4);
}

#[test]
fn generated_rooms_are_disjoint_floor_and_connected() {
    let mut rng = RandomNumberGenerator::seeded(99);
    let m = GameMap::new_map_rooms_and_corridors(&mut rng, 30, 30);
    assert!(!m.rooms.is_empty());
    for (i, r) in m.rooms.iter().enumerate() {
        for s in m.rooms.iter().skip(i + 1) {
            assert!(!r.intersect(s));
        }
        for y in r.y1 + 1..=r.y2 {
            for x in r.x1 + 1..=r.x2 {
                assert_eq!(m.tiles[m.xy_idx(x, y)], TileType::Floor);
            }
        }
    }
    // Every room center is reachable from the first over Floor tiles.
    let (sx, sy) = m.rooms[0].center();
    let mut seen = vec![false; m.tiles.len()];
    let mut stack = vec![(sx, sy)];
    seen[m.xy_idx(sx, sy)] = true;
    while let Some((x, y)) = stack.pop() {
        for (dx, dy) in [(1, 0), (-1, 0), (0, 1), (0, -1)] {
            let (nx, ny) = (x + dx, y + dy);
            if nx >= 0 && ny >= 0 && nx < m.width && ny < m.height {
                let i = m.xy_idx(nx, ny);
                if !seen[i] && m.tiles[i] == TileType::Floor {
                    seen[i] = true;
                    stack.push((nx, ny));
                }
            }
        }
    }
    for r in m.rooms.iter() {
        let (cx, cy) = r.center();
        assert!(seen[m.xy_idx(cx, cy)]);
    }
}

#[test]
fn indexing_blocks_walls_and_blockers() {
    let mut w = open_world();
    let p = player(&mut w, 5, 5);
    let m = monster(&mut w, 8, 5, 'o' as u16, "Orc");
    w.map_indexing();
    assert!(w.map.blocked[w.map.xy_idx(0, 3)]);
    assert!(w.map.blocked[w.map.xy_idx(8, 5)]);
    assert!(!w.map.blocked[w.map.xy_idx(5, 5)]);
    assert!(!w.map.blocked[w.map.xy_idx(6, 5)]);
    assert_eq!(w.map.tile_content[w.map.xy_idx(5, 5)], vec![p]);
    assert_eq!(w.map.tile_content[w.map.xy_idx(8, 5)], vec![m]);
    assert!(w.map.tile_content[w.map.xy_idx(6, 5)].is_empty());
}

#[test]
fn melee_hit_queues_damage() {
    let mut w = open_world();
    let p = player(&mut w, 5, 5);
    let m = monster(&mut w, 6, 5, 'o' as u16, "Orc");
    w.wants_to_melee[p] = Some(m);
    w.melee_combat();
    assert_eq!(w.log, vec![LogEntry::Hit { attacker: p, target: m, damage: 4 }]);
    assert_eq!(w.suffer_damage, vec![(m, 4)]);
    assert!(w.wants_to_melee.iter().all(|x| x.is_none()));
}

#[test]
fn melee_with_bonuses() {
    let mut w = open_world();
    let p = player(&mut w, 5, 5);
    let m = monster(&mut w, 6, 5, 'o' as u16, "Orc");
    let sword = w.create_entity().unwrap();
    w.equipped[sword] = Some(p);
    w.melee_power_bonus[sword] = Some(3);
    let shield = w.create_entity().unwrap();
    w.equipped[shield] = Some(m);
    w.defense_bonus[shield] = Some(2);
    w.well_fed[p] = true;
    w.wants_to_melee[p] = Some(m);
    w.melee_combat();
    // (5 + 3 + 1) - (1 + 2) = 6
    assert_eq!(w.suffer_damage, vec![(m, 6)]);
}

#[test]
fn melee_without_effect_logs_only() {
    let mut w = open_world();
    let p = player(&mut w, 5, 5);
    let m = monster(&mut w, 6, 5, 'o' as u16, "Orc");
    w.combat_stats[p] = Some(CombatStats { max_hp: 30, hp: 30, defense: 10, power: 5 });
    w.wants_to_melee[m] = Some(p);
    w.melee_combat();
    assert_eq!(w.log, vec![LogEntry::NoEffect { attacker: m, target: p }]);
    assert!(w.suffer_damage.is_empty());
}

#[test]
fn melee_skips_dead_target() {
    let mut w = open_world();
    let p = player(&mut w, 5, 5);
    let m = monster(&mut w, 6, 5, 'o' as u16, "Orc");
    w.combat_stats[m] = Some(CombatStats { max_hp: 16, hp: 0, defense: 1, power: 4 });
    w.wants_to_melee[p] = Some(m);
    w.melee_combat();
    assert!(w.log.is_empty());
    assert!(w.suffer_damage.is_empty());
    assert_eq!(w.wants_to_melee[p], None);
}

#[test]
fn lethal_damage_clamps_and_defers_removal() {
    let mut w = open_world();
    let _p = player(&mut w, 5, 5);
    let m = monster(&mut w, 6, 5, 'o' as u16, "Orc");
    w.suffer_damage = vec![(m, 12), (m, 8)];
    w.apply_damage();
    assert_eq!(w.combat_stats[m].unwrap().hp, 0);
    assert!(w.alive[m]);
    assert!(w.dead.contains(&m));
    assert!(w.suffer_damage.is_empty());
    w.maintain();
    assert!(!w.alive[m]);
    assert_eq!(w.positions[m], None);
    assert!(w.dead.is_empty());
}

#[test]
fn partial_damage_keeps_entity() {
    let mut w = open_world();
    let p = player(&mut w, 5, 5);
    w.suffer_damage = vec![(p, 7)];
    w.apply_damage();
    assert_eq!(w.combat_stats[p].unwrap().hp, 23);
    assert!(w.dead.is_empty());
}

#[test]
fn monster_adjacent_attacks() {
    let mut w = open_world();
    let p = player(&mut w, 5, 5);
    let m = monster(&mut w, 6, 5, 'o' as u16, "Orc");
    w.visibility();
    w.map_indexing();
    w.monster_ai();
    assert_eq!(w.wants_to_melee[m], Some(p));
    assert_eq!(w.positions[m], Some(Position { x: 6, y: 5 }));
}

#[test]
fn monster_three_away_steps_closer() {
    let mut w = open_world();
    let _p = player(&mut w, 5, 5);
    let m = monster(&mut w, 8, 5, 'o' as u16, "Orc");
    w.visibility();
    w.map_indexing();
    w.monster_ai();
    assert_eq!(w.wants_to_melee[m], None);
    assert_eq!(w.positions[m], Some(Position { x: 7, y: 5 }));
    assert!(w.viewsheds[m].as_ref().unwrap().dirty);
}

#[test]
fn monster_blocked_step_stays() {
    let mut w = open_world();
    let _p = player(&mut w, 5, 5);
    let m = monster(&mut w, 8, 5, 'o' as u16, "Orc");
    let other = monster(&mut w, 7, 6, 'g' as u16, "Goblin");
    w.visibility();
    w.map_indexing();
    // Block the square the first monster would step onto.
    let idx = w.map.xy_idx(7, 5);
    w.map.blocked[idx] = true;
    w.monster_ai();
    assert_eq!(w.positions[m], Some(Position { x: 8, y: 5 }));
    assert_eq!(w.positions[other], Some(Position { x: 6, y: 5 }));
}

#[test]
fn confused_monster_loses_turn() {
    let mut w = open_world();
    let _p = player(&mut w, 5, 5);
    let m = monster(&mut w, 6, 5, 'o' as u16, "Orc");
    w.confusion[m] = Some(2);
    w.visibility();
    w.map_indexing();
    w.monster_ai();
    assert_eq!(w.wants_to_melee[m], None);
    assert_eq!(w.confusion[m], Some(1));
}

#[test]
fn decisions() {
    let me = Position { x: 2, y: 2 };
    assert_eq!(decide_monster_action(me, Position { x: 3, y: 3 }, true, false), MonsterAction::Attack);
    assert_eq!(
        decide_monster_action(me, Position { x: 5, y: 0 }, true, false),
        MonsterAction::Step { x: 3, y: 1 }
    );
    assert_eq!(decide_monster_action(me, Position { x: 5, y: 0 }, false, false), MonsterAction::Idle);
    assert_eq!(decide_monster_action(me, Position { x: 3, y: 3 }, true, true), MonsterAction::Confused);
}

#[test]
fn walls_block_sight() {
    let mut w = open_world();
    let p = player(&mut w, 5, 5);
    set_wall(&mut w, 7, 5);
    w.visibility();
    let v = w.viewsheds[p].as_ref().unwrap();
    assert!(!v.dirty);
    assert!(v.visible_tiles.contains(&Position { x: 6, y: 5 }));
    assert!(v.visible_tiles.contains(&Position { x: 7, y: 5 }));
    assert!(!v.visible_tiles.contains(&Position { x: 8, y: 5 }));
    assert!(!v.visible_tiles.contains(&Position { x: 9, y: 5 }));
    // Range 8 is Euclidean: 8 across is seen, 6 by 6 is not.
    assert!(!v.visible_tiles.contains(&Position { x: 13, y: 5 }));
    assert!(v.visible_tiles.contains(&Position { x: 5, y: 13 }));
    assert!(!v.visible_tiles.contains(&Position { x: 11, y: 11 }));
    assert!(w.map.revealed_tiles[w.map.xy_idx(5, 13)]);
    assert!(w.map.visible_tiles[w.map.xy_idx(6, 5)]);
    assert!(!w.map.revealed_tiles[w.map.xy_idx(9, 5)]);
}

#[test]
fn player_steps_and_bumps() {
    let mut w = open_world();
    let p = player(&mut w, 5, 5);
    let m = monster(&mut w, 7, 5, 'o' as u16, "Orc");
    w.map_indexing();
    try_move_player(1, 0, &mut w);
    assert_eq!(w.positions[p], Some(Position { x: 6, y: 5 }));
    assert_eq!(w.player_pos, Position { x: 6, y: 5 });
    w.map_indexing();
    try_move_player(1, 0, &mut w);
    assert_eq!(w.positions[p], Some(Position { x: 6, y: 5 }));
    assert_eq!(w.wants_to_melee[p], Some(m));
}

#[test]
fn player_cannot_walk_into_wall() {
    let mut w = open_world();
    let p = player(&mut w, 1, 1);
    w.map_indexing();
    try_move_player(-1, 0, &mut w);
    assert_eq!(w.positions[p], Some(Position { x: 1, y: 1 }));
}

#[test]
fn keys_and_input() {
    assert_eq!(key_delta(Key::Numpad7), Some((-1, -1)));
    assert_eq!(key_delta(Key::Down), Some((0, 1)));
    assert_eq!(key_delta(Key::Other), None);
    let mut w = open_world();
    let _p = player(&mut w, 5, 5);
    let mut gs = State { ecs: w, runstate: RunState::Paused };
    assert_eq!(player_input(&mut gs, None), RunState::Paused);
    assert_eq!(player_input(&mut gs, Some(Key::Other)), RunState::Paused);
    assert_eq!(player_input(&mut gs, Some(Key::Right)), RunState::Running);
    assert_eq!(gs.ecs.player_pos, Position { x: 6, y: 5 });
}

#[test]
fn tick_runs_systems_and_drains_queues() {
    let mut w = open_world();
    let p = player(&mut w, 5, 5);
    let m = monster(&mut w, 6, 5, 'o' as u16, "Orc");
    w.combat_stats[m] = Some(CombatStats { max_hp: 16, hp: 3, defense: 1, power: 4 });
    w.wants_to_melee[p] = Some(m);
    let mut gs = State { ecs: w, runstate: RunState::Running };
    gs.tick(None);
    assert_eq!(gs.runstate, RunState::Paused);
    assert!(gs.ecs.wants_to_melee.iter().all(|x| x.is_none()));
    assert!(gs.ecs.suffer_damage.is_empty());
    assert!(gs.ecs.dead.is_empty());
    // The orc died this tick and was removed at the commit.
    assert!(!gs.ecs.alive[m]);
    assert!(gs.ecs.log.contains(&LogEntry::Hit { attacker: p, target: m, damage: 4 }));
    gs.tick(None);
    assert_eq!(gs.runstate, RunState::Paused);
    gs.tick(Some(Key::Up));
    assert_eq!(gs.runstate, RunState::Running);
}

#[test]
fn system_units_run() {
    let mut w = open_world();
    let p = player(&mut w, 5, 5);
    let m = monster(&mut w, 6, 5, 'g' as u16, "Goblin");
    w.visibility();
    w.map_indexing();
    MonsterAI {}.run(&mut w);
    assert_eq!(w.wants_to_melee[m], Some(p));
    MeleeCombatSystem {}.run(&mut w);
    // Goblin power 4 against player defense 2.
    assert_eq!(w.suffer_damage, vec![(p, 2)]);
    assert_eq!(w.log, vec![LogEntry::Hit { attacker: m, target: p, damage: 2 }]);
}

#[test]
fn single_monster_turn() {
    let mut w = open_world();
    let _p = player(&mut w, 5, 5);
    let m = monster(&mut w, 8, 8, 'o' as u16, "Orc");
    w.visibility();
    w.map_indexing();
    w.monster_turn(m);
    // Three away on the diagonal: one diagonal step closer.
    assert_eq!(w.positions[m], Some(Position { x: 7, y: 7 }));
    // The map is only re-indexed by the spatial indexing system.
    assert!(!w.map.blocked[w.map.xy_idx(7, 7)]);
    assert!(w.map.blocked[w.map.xy_idx(8, 8)]);
}

#[test]
fn map_shows_what_the_player_sees() {
    let mut w = open_world();
    let p = player(&mut w, 5, 5);
    set_wall(&mut w, 7, 5);
    w.visibility();
    let v = w.viewsheds[p].as_ref().unwrap();
    for i in 0..w.map.tiles.len() {
        let t = Position { x: i as i32 % w.map.width, y: i as i32 / w.map.width };
        assert_eq!(w.map.visible_tiles[i], v.visible_tiles.contains(&t));
    }
    let mut sorted = v.visible_tiles.clone();
    sorted.sort_by_key(|q| (q.y, q.x));
    sorted.dedup();
    assert_eq!(sorted.len(), v.visible_tiles.len());
}

#[test]
fn removal_clears_every_component() {
    let mut w = open_world();
    let _p = player(&mut w, 5, 5);
    let m = monster(&mut w, 6, 5, 'o' as u16, "Orc");
    w.dead.push(m);
    w.maintain();
    assert!(!w.alive[m]);
    assert!(w.names[m].is_none() && w.renderables[m].is_none() && w.viewsheds[m].is_none());
    assert!(!w.monsters[m] && !w.blocks_tile[m]);
}
