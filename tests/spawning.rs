use roguelike::components::{CombatStats, Color, Position, Renderable};
use rltk::RandomNumberGenerator;
use roguelike::map::GameMap;
use roguelike::rect::Rect;
use roguelike::spawner::{
    confusion_scroll, fireball_scroll, goblin, health_potion, magic_missile_scroll, orc, player,
    random_item, random_monster, spawn_entities, spawn_item_kind, spawn_monster_kind, spawn_room_counts, spawn_rooms,
};
use roguelike::world::World;

fn world() -> World {
    let mut m = GameMap::new(30, 30);
    m.apply_room_to_map(&Rect::new(0, 0, 29, 29));
    World::new(m, RandomNumberGenerator::seeded(5))
}

#[test]
fn player_components() {
    let mut w = world();
    let p = player(&mut w, 4, 6);
    assert_eq!(w.player_entity, p);
    assert!(w.players[p]);
    assert_eq!(w.combat_stats[p], Some(CombatStats { max_hp: 30, hp: 30, defense: 2, power: 5 }));
    assert_eq!(
        w.renderables[p],
        Some(Renderable { glyph: 64, foreground: Color::Yellow, background: Color::Black, render_order: 0 })
    );
    assert_eq!(w.names[p].as_deref(), Some("Player"));
    assert_eq!(w.viewsheds[p].as_ref().unwrap().range, 8);
}

#[test]
fn orcs_and_goblins() {
    let mut w = world();
    let o = orc(&mut w, 3, 3);
    let g = goblin(&mut w, 4, 4);
    assert_eq!(w.renderables[o].unwrap().glyph, 111);
    assert_eq!(w.renderables[g].unwrap().glyph, 103);
    assert_eq!(w.names[o].as_deref(), Some("Orc"));
    assert_eq!(w.names[g].as_deref(), Some("Goblin"));
    assert!(w.blocks_tile[o] && w.monsters[g]);
    assert_eq!(w.combat_stats[g], Some(CombatStats { max_hp: 16, hp: 16, defense: 1, power: 4 }));
    let r = random_monster(&mut w, 5, 5);
    assert!(w.monsters[r]);
}

#[test]
fn item_kinds() {
    let mut w = world();
    let h = health_potion(&mut w, 1, 1);
    let mm = magic_missile_scroll(&mut w, 2, 1);
    let f = fireball_scroll(&mut w, 3, 1);
    let c = confusion_scroll(&mut w, 4, 1);
    assert_eq!(w.provides_healing[h], Some(8));
    assert_eq!(w.renderables[h].unwrap().glyph, 'i' as u16);
    assert_eq!(w.inflicts_damage[mm], Some(8));
    assert_eq!(w.inflicts_damage[f], Some(20));
    assert_eq!(w.area_of_effect[f], Some(3));
    assert_eq!(w.confusion[c], Some(4));
    assert_eq!(w.renderables[c].unwrap().glyph, ')' as u16);
    assert!(w.items[h] && w.consumables[c]);
    let r = random_item(&mut w, 5, 1);
    assert!(w.items[r]);
}

#[test]
fn room_spawns_stay_inside() {
    let mut w = world();
    let room = Rect::new(5, 5, 8, 6);
    for _ in 0..20 {
        let start = w.alive.len();
        spawn_rooms(&mut w, &room);
        assert!(w.alive.len() - start <= 6);
        let mut monster_spots = Vec::new();
        let mut item_spots = Vec::new();
        for e in start..w.alive.len() {
            let p = w.positions[e].unwrap();
            assert!(p.x > 5 && p.x <= 13 && p.y > 5 && p.y <= 11);
            if w.monsters[e] {
                assert!(!monster_spots.contains(&p));
                monster_spots.push(p);
            } else {
                assert!(w.items[e]);
                assert!(!item_spots.contains(&p));
                item_spots.push(p);
            }
        }
        assert!(monster_spots.len() <= 3 && item_spots.len() <= 3);
    }
}

#[test]
fn seeded_maps_with_spawns_repeat() {
    let run = |seed: u64| {
        let mut rng = RandomNumberGenerator::seeded(seed);
        let m = GameMap::new_map_rooms_and_corridors(&mut rng, 4, 100);
        let rooms = m.rooms.clone();
        let mut w = World::new(m, rng);
        for r in rooms.iter().skip(1) {
            spawn_rooms(&mut w, r);
        }
        (rooms, w.positions.clone())
    };
    assert_eq!(run(77), run(77));
}

#[test]
fn kinds_follow_rolls() {
    let mut w = world();
    let a = spawn_monster_kind(&mut w, 2, 2, 1);
    let b = spawn_monster_kind(&mut w, 3, 2, 2);
    assert_eq!(w.names[a].as_deref(), Some("Orc"));
    assert_eq!(w.names[b].as_deref(), Some("Goblin"));
    let names: Vec<Option<String>> = (1..=4)
        .map(|roll| {
            let e = spawn_item_kind(&mut w, 4 + roll, 2, roll);
            w.names[e].clone()
        })
        .collect();
    assert_eq!(
        names,
        vec![
            Some("Health Potion".to_string()),
            Some("Magic Missile Scroll".to_string()),
            Some("Fireball Scroll".to_string()),
            Some("Confusion Scroll".to_string())
        ]
    );
}

#[test]
fn drawn_spawns_land_in_order() {
    let mut w = world();
    let _p = player(&mut w, 1, 1);
    let mp = vec![Position { x: 6, y: 6 }, Position { x: 7, y: 6 }];
    let mk = vec![2, 1];
    let ip = vec![Position { x: 8, y: 8 }];
    let ik = vec![3];
    spawn_entities(&mut w, &mp, &mk, &ip, &ik);
    assert_eq!(w.alive.len(), 4);
    assert_eq!(w.positions[1], Some(Position { x: 6, y: 6 }));
    assert_eq!(w.names[1].as_deref(), Some("Goblin"));
    assert_eq!(w.names[2].as_deref(), Some("Orc"));
    assert_eq!(w.positions[3], Some(Position { x: 8, y: 8 }));
    assert_eq!(w.area_of_effect[3], Some(3));
    assert!(w.viewsheds[1].as_ref().unwrap().visible_tiles.is_empty());
    assert!(w.combat_stats[3].is_none() && w.consumables[3]);
}

#[test]
fn room_counts_are_met() {
    let mut w = world();
    // A room two tiles wide and high inside: three of each must still fit.
    let small = Rect::new(10, 10, 2, 2);
    spawn_room_counts(&mut w, &small, 3, 3);
    assert_eq!(w.alive.len(), 6);
    assert!((0..3).all(|e| w.monsters[e]));
    assert!((3..6).all(|e| w.items[e]));
    let start = w.alive.len();
    spawn_room_counts(&mut w, &Rect::new(2, 2, 8, 8), -2, 1);
    assert_eq!(w.alive.len() - start, 1);
    assert!(w.items[start]);
}
