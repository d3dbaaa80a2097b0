use vstd::prelude::*;
use crate::components::{CombatStats, Color, Position, Renderable, Viewshed};
use crate::dice::roll_dice;
use crate::rect::Rect;
use crate::world::{bare, slot_same, World, MAX_ENTITIES};

verus! {

broadcast use vstd::string::to_string_from_display_ensures_for_str;

/// A room's monster count is one die of `MAX_MONSTERS + 2` sides, less three.
pub const MAX_MONSTERS: i32 = 4;
/// A room's item count is one die of `MAX_ITEMS + 2` sides, less three.
pub const MAX_ITEMS: i32 = 4;
/// Placements tried for each spawn before it is given up.
pub const SPAWN_TRIES: usize = 64;

/// Relies on rltk's `to_cp437`: each printable ASCII character has its own
/// code in code page 437.
#[verifier::external_body]
fn glyph_of(c: char) -> (r: u16)
    ensures
        ' ' <= c <= '~' ==> r == c as u16,
{
    rltk::to_cp437(c)
}

/// What every spawn leaves alone: the map, the entities already there with
/// all their components, and the tick's queues.
pub open spec fn keeps_old(a: World, b: World) -> bool {
    &&& b.map == a.map
    &&& b.count() >= a.count()
    &&& b.suffer_damage == a.suffer_damage
    &&& b.dead == a.dead
    &&& b.log == a.log
    &&& b.player_pos == a.player_pos
    &&& b.player_entity == a.player_entity
    &&& forall|e: int| 0 <= e < a.count() ==> #[trigger] b.alive@[e] == a.alive@[e] && slot_same(a, b, e)
}

/// `e` is a live monster with the given look and name: 16 hp, defense 1,
/// power 4, sight 8 with nothing seen yet, blocking its tile, and no other
/// component but its position.
pub open spec fn is_monster_of(w: World, e: int, glyph: u16, name: Seq<char>) -> bool {
    &&& w.alive@[e]
    &&& w.renderables@[e] == Some(Renderable { glyph, foreground: Color::Red, background: Color::Black, render_order: 0 })
    &&& w.names@[e].is_some() && w.names@[e].unwrap()@ == name
    &&& w.monsters@[e] && w.blocks_tile@[e] && !w.players@[e] && !w.items@[e] && !w.consumables@[e]
    &&& w.combat_stats@[e] == Some(CombatStats { max_hp: 16, hp: 16, defense: 1, power: 4 })
    &&& w.viewsheds@[e].is_some() && w.viewsheds@[e].unwrap().range == 8 && w.viewsheds@[e].unwrap().dirty
        && w.viewsheds@[e].unwrap().visible_tiles@.len() == 0
    &&& w.equipped@[e].is_none() && w.melee_power_bonus@[e].is_none() && w.defense_bonus@[e].is_none()
        && !w.well_fed@[e] && w.confusion@[e].is_none()
    &&& w.provides_healing@[e].is_none() && w.ranged@[e].is_none() && w.inflicts_damage@[e].is_none()
        && w.area_of_effect@[e].is_none()
    &&& w.wants_to_melee@[e].is_none()
}

pub open spec fn is_orc(w: World, e: int) -> bool {
    is_monster_of(w, e, 111, "Orc"@)
}

pub open spec fn is_goblin(w: World, e: int) -> bool {
    is_monster_of(w, e, 103, "Goblin"@)
}

/// `e` is a live consumable item with the given look and name, drawn under
/// monsters, with no stats, sight, block or equipment.
pub open spec fn is_item_of(w: World, e: int, glyph: u16, color: Color, name: Seq<char>) -> bool {
    &&& w.alive@[e]
    &&& w.renderables@[e] == Some(Renderable { glyph, foreground: color, background: Color::Black, render_order: 2 })
    &&& w.names@[e].is_some() && w.names@[e].unwrap()@ == name
    &&& w.items@[e] && w.consumables@[e] && !w.monsters@[e] && !w.players@[e] && !w.blocks_tile@[e]
    &&& w.combat_stats@[e].is_none() && w.viewsheds@[e].is_none()
    &&& w.equipped@[e].is_none() && w.melee_power_bonus@[e].is_none() && w.defense_bonus@[e].is_none()
        && !w.well_fed@[e]
    &&& w.wants_to_melee@[e].is_none()
}

/// The effect components of an item: healing, range, damage, radius, confusion.
pub open spec fn item_effects(w: World, e: int, heal: Option<i32>, range: Option<i32>, damage: Option<i32>, radius: Option<i32>, confuse: Option<i32>) -> bool {
    &&& w.provides_healing@[e] == heal
    &&& w.ranged@[e] == range
    &&& w.inflicts_damage@[e] == damage
    &&& w.area_of_effect@[e] == radius
    &&& w.confusion@[e] == confuse
}

pub open spec fn is_health_potion(w: World, e: int) -> bool {
    is_item_of(w, e, 105, Color::Magenta, "Health Potion"@) && item_effects(w, e, Some(8), None, None, None, None)
}

pub open spec fn is_magic_missile_scroll(w: World, e: int) -> bool {
    is_item_of(w, e, 41, Color::Cyan, "Magic Missile Scroll"@) && item_effects(w, e, None, Some(6), Some(8), None, None)
}

pub open spec fn is_fireball_scroll(w: World, e: int) -> bool {
    is_item_of(w, e, 41, Color::Orange, "Fireball Scroll"@) && item_effects(w, e, None, Some(6), Some(20), Some(3), None)
}

pub open spec fn is_confusion_scroll(w: World, e: int) -> bool {
    is_item_of(w, e, 41, Color::Purple, "Confusion Scroll"@) && item_effects(w, e, None, Some(6), None, None, Some(4))
}

/// The item a roll of the four-sided die picks.
pub open spec fn is_item_kind(w: World, e: int, roll: i32) -> bool {
    if roll == 1 {
        is_health_potion(w, e)
    } else if roll == 2 {
        is_magic_missile_scroll(w, e)
    } else if roll == 3 {
        is_fireball_scroll(w, e)
    } else {
        is_confusion_scroll(w, e)
    }
}

/// The monster a roll of the two-sided die picks.
pub open spec fn is_monster_kind(w: World, e: int, roll: i32) -> bool {
    if roll == 1 {
        is_orc(w, e)
    } else {
        is_goblin(w, e)
    }
}

/// The common part of every spawner's contract: one entity more, at `(x, y)`,
/// and nothing else changed.
pub open spec fn spawned_at(a: World, b: World, r: usize, x: i32, y: i32) -> bool {
    &&& b.wf()
    &&& keeps_old(a, b)
    &&& r == a.count()
    &&& b.count() == a.count() + 1
    &&& b.positions@[r as int] == Some(Position { x, y })
}

/// A new live entity standing at `(x, y)`, with nothing else yet.
fn spawn_at(ecs: &mut World, x: i32, y: i32) -> (e: usize)
    requires
        old(ecs).wf(),
        old(ecs).count() < MAX_ENTITIES,
        old(ecs).map.in_bounds(x as int, y as int),
    ensures
        spawned_at(*old(ecs), *final(ecs), e, x, y),
        final(ecs).alive@[e as int],
        bare(*final(ecs), e as int),
        final(ecs).wants_to_melee@[e as int].is_none(),
{
    let created = ecs.create_entity();
    let e = match created {
        Some(e) => e,
        None => 0,
    };
    ecs.set_position(e, Position { x, y });
    e
}

/// Creates the player at `(player_x, player_y)`: 30 hp, defense 2, power 5,
/// sight 8 with nothing seen yet, drawn as a yellow `@`. It becomes the
/// world's player.
pub fn player(ecs: &mut World, player_x: i32, player_y: i32) -> (r: usize)
    requires
        old(ecs).wf(),
        old(ecs).count() < MAX_ENTITIES,
        old(ecs).map.in_bounds(player_x as int, player_y as int),
    ensures
        final(ecs).wf(),
        final(ecs).map == old(ecs).map,
        final(ecs).count() == old(ecs).count() + 1,
        r == old(ecs).count(),
        forall|e: int| 0 <= e < old(ecs).count() ==> #[trigger] final(ecs).alive@[e] == old(ecs).alive@[e] && slot_same(*old(ecs), *final(ecs), e),
        final(ecs).suffer_damage == old(ecs).suffer_damage,
        final(ecs).dead == old(ecs).dead,
        final(ecs).log == old(ecs).log,
        final(ecs).player_entity == r,
        final(ecs).player_pos == (Position { x: player_x, y: player_y }),
        final(ecs).alive@[r as int],
        final(ecs).positions@[r as int] == Some(Position { x: player_x, y: player_y }),
        final(ecs).players@[r as int],
        !final(ecs).monsters@[r as int],
        !final(ecs).items@[r as int],
        !final(ecs).blocks_tile@[r as int],
        final(ecs).combat_stats@[r as int] == Some(CombatStats { max_hp: 30, hp: 30, defense: 2, power: 5 }),
        final(ecs).viewsheds@[r as int].is_some(),
        final(ecs).viewsheds@[r as int].unwrap().range == 8,
        final(ecs).viewsheds@[r as int].unwrap().dirty,
        final(ecs).viewsheds@[r as int].unwrap().visible_tiles@.len() == 0,
        final(ecs).names@[r as int].is_some() && final(ecs).names@[r as int].unwrap()@ == "Player"@,
        final(ecs).renderables@[r as int] == Some(
            Renderable { glyph: 64, foreground: Color::Yellow, background: Color::Black, render_order: 0 },
        ),
        final(ecs).wants_to_melee@[r as int].is_none(),
{
    let e = spawn_at(ecs, player_x, player_y);
    let glyph = glyph_of('@');
    ecs.renderables.set(
        e,
        Some(Renderable { glyph, foreground: Color::Yellow, background: Color::Black, render_order: 0 }),
    );
    ecs.players.set(e, true);
    ecs.viewsheds.set(e, Some(Viewshed { visible_tiles: Vec::new(), range: 8, dirty: true }));
    ecs.names.set(e, Some("Player".to_string()));
    ecs.combat_stats.set(e, Some(CombatStats { max_hp: 30, hp: 30, defense: 2, power: 5 }));
    ecs.player_entity = e;
    ecs.player_pos = Position { x: player_x, y: player_y };
    e
}

/// Creates a monster at `(x, y)`: 16 hp, defense 1, power 4, sight 8,
/// blocking its tile, drawn in red with the given glyph.
pub fn monster(ecs: &mut World, x: i32, y: i32, glyph: u16, name: &str) -> (r: usize)
    requires
        old(ecs).wf(),
        old(ecs).count() < MAX_ENTITIES,
        old(ecs).map.in_bounds(x as int, y as int),
    ensures
        spawned_at(*old(ecs), *final(ecs), r, x, y),
        is_monster_of(*final(ecs), r as int, glyph, name@),
{
    let e = spawn_at(ecs, x, y);
    let ghost mid = *ecs;
    ecs.renderables.set(
        e,
        Some(Renderable { glyph, foreground: Color::Red, background: Color::Black, render_order: 0 }),
    );
    ecs.viewsheds.set(e, Some(Viewshed { visible_tiles: Vec::new(), range: 8, dirty: true }));
    ecs.monsters.set(e, true);
    ecs.names.set(e, Some(name.to_string()));
    ecs.blocks_tile.set(e, true);
    ecs.combat_stats.set(e, Some(CombatStats { max_hp: 16, hp: 16, defense: 1, power: 4 }));
    proof {
        assert forall|q: int| 0 <= q < old(ecs).count() implies #[trigger] ecs.alive@[q] == old(ecs).alive@[q]
            && slot_same(*old(ecs), *ecs, q) by {
            assert(mid.alive@[q] == old(ecs).alive@[q]);
            assert(slot_same(*old(ecs), mid, q));
        }
    }
    e
}

/// An orc: a monster drawn as `o`.
pub fn orc(ecs: &mut World, x: i32, y: i32) -> (r: usize)
    requires
        old(ecs).wf(),
        old(ecs).count() < MAX_ENTITIES,
        old(ecs).map.in_bounds(x as int, y as int),
    ensures
        spawned_at(*old(ecs), *final(ecs), r, x, y),
        is_orc(*final(ecs), r as int),
{
    let g = glyph_of('o');
    monster(ecs, x, y, g, "Orc")
}

/// A goblin: a monster drawn as `g`.
pub fn goblin(ecs: &mut World, x: i32, y: i32) -> (r: usize)
    requires
        old(ecs).wf(),
        old(ecs).count() < MAX_ENTITIES,
        old(ecs).map.in_bounds(x as int, y as int),
    ensures
        spawned_at(*old(ecs), *final(ecs), r, x, y),
        is_goblin(*final(ecs), r as int),
{
    let g = glyph_of('g');
    monster(ecs, x, y, g, "Goblin")
}

/// The monster a roll picks: an orc on 1, else a goblin.
pub fn spawn_monster_kind(ecs: &mut World, x: i32, y: i32, roll: i32) -> (r: usize)
    requires
        old(ecs).wf(),
        old(ecs).count() < MAX_ENTITIES,
        old(ecs).map.in_bounds(x as int, y as int),
    ensures
        spawned_at(*old(ecs), *final(ecs), r, x, y),
        is_monster_kind(*final(ecs), r as int, roll),
{
    if roll == 1 {
        orc(ecs, x, y)
    } else {
        goblin(ecs, x, y)
    }
}

/// An orc or a goblin, even odds, at `(x, y)`.
pub fn random_monster(ecs: &mut World, x: i32, y: i32) -> (r: usize)
    requires
        old(ecs).wf(),
        old(ecs).count() < MAX_ENTITIES,
        old(ecs).map.in_bounds(x as int, y as int),
    ensures
        spawned_at(*old(ecs), *final(ecs), r, x, y),
        is_orc(*final(ecs), r as int) || is_goblin(*final(ecs), r as int),
{
    let roll = roll_dice(&mut ecs.rng, 1, 2);
    spawn_monster_kind(ecs, x, y, roll)
}

/// A consumable item at `(x, y)` with the given look and name.
fn item(ecs: &mut World, x: i32, y: i32, c: char, color: Color, name: &str) -> (r: usize)
    requires
        old(ecs).wf(),
        old(ecs).count() < MAX_ENTITIES,
        old(ecs).map.in_bounds(x as int, y as int),
        ' ' <= c <= '~',
    ensures
        spawned_at(*old(ecs), *final(ecs), r, x, y),
        is_item_of(*final(ecs), r as int, c as u16, color, name@),
        item_effects(*final(ecs), r as int, None, None, None, None, None),
{
    let glyph = glyph_of(c);
    let e = spawn_at(ecs, x, y);
    ecs.renderables.set(
        e,
        Some(Renderable { glyph, foreground: color, background: Color::Black, render_order: 2 }),
    );
    ecs.names.set(e, Some(name.to_string()));
    ecs.items.set(e, true);
    ecs.consumables.set(e, true);
    e
}

/// A health potion: a magenta `i` that heals 8.
pub fn health_potion(ecs: &mut World, x: i32, y: i32) -> (r: usize)
    requires
        old(ecs).wf(),
        old(ecs).count() < MAX_ENTITIES,
        old(ecs).map.in_bounds(x as int, y as int),
    ensures
        spawned_at(*old(ecs), *final(ecs), r, x, y),
        is_health_potion(*final(ecs), r as int),
{
    let e = item(ecs, x, y, 'i', Color::Magenta, "Health Potion");
    ecs.provides_healing.set(e, Some(8));
    e
}

/// A magic missile scroll: a cyan `)` that hits for 8 at range 6.
pub fn magic_missile_scroll(ecs: &mut World, x: i32, y: i32) -> (r: usize)
    requires
        old(ecs).wf(),
        old(ecs).count() < MAX_ENTITIES,
        old(ecs).map.in_bounds(x as int, y as int),
    ensures
        spawned_at(*old(ecs), *final(ecs), r, x, y),
        is_magic_missile_scroll(*final(ecs), r as int),
{
    let e = item(ecs, x, y, ')', Color::Cyan, "Magic Missile Scroll");
    ecs.ranged.set(e, Some(6));
    ecs.inflicts_damage.set(e, Some(8));
    e
}

/// A fireball scroll: an orange `)` that hits for 20 in radius 3 at range 6.
pub fn fireball_scroll(ecs: &mut World, x: i32, y: i32) -> (r: usize)
    requires
        old(ecs).wf(),
        old(ecs).count() < MAX_ENTITIES,
        old(ecs).map.in_bounds(x as int, y as int),
    ensures
        spawned_at(*old(ecs), *final(ecs), r, x, y),
        is_fireball_scroll(*final(ecs), r as int),
{
    let e = item(ecs, x, y, ')', Color::Orange, "Fireball Scroll");
    ecs.ranged.set(e, Some(6));
    ecs.inflicts_damage.set(e, Some(20));
    ecs.area_of_effect.set(e, Some(3));
    e
}

/// A confusion scroll: a purple `)` that confuses for 4 turns at range 6.
pub fn confusion_scroll(ecs: &mut World, x: i32, y: i32) -> (r: usize)
    requires
        old(ecs).wf(),
        old(ecs).count() < MAX_ENTITIES,
        old(ecs).map.in_bounds(x as int, y as int),
    ensures
        spawned_at(*old(ecs), *final(ecs), r, x, y),
        is_confusion_scroll(*final(ecs), r as int),
{
    let e = item(ecs, x, y, ')', Color::Purple, "Confusion Scroll");
    ecs.ranged.set(e, Some(6));
    ecs.confusion.set(e, Some(4));
    e
}

/// The item a roll picks: 1 a health potion, 2 a magic missile scroll, 3 a
/// fireball scroll, anything else a confusion scroll.
pub fn spawn_item_kind(ecs: &mut World, x: i32, y: i32, roll: i32) -> (r: usize)
    requires
        old(ecs).wf(),
        old(ecs).count() < MAX_ENTITIES,
        old(ecs).map.in_bounds(x as int, y as int),
    ensures
        spawned_at(*old(ecs), *final(ecs), r, x, y),
        is_item_kind(*final(ecs), r as int, roll),
{
    if roll == 1 {
        health_potion(ecs, x, y)
    } else if roll == 2 {
        magic_missile_scroll(ecs, x, y)
    } else if roll == 3 {
        fireball_scroll(ecs, x, y)
    } else {
        confusion_scroll(ecs, x, y)
    }
}

/// One of the four items, even odds, at `(x, y)`.
pub fn random_item(ecs: &mut World, x: i32, y: i32) -> (r: usize)
    requires
        old(ecs).wf(),
        old(ecs).count() < MAX_ENTITIES,
        old(ecs).map.in_bounds(x as int, y as int),
    ensures
        spawned_at(*old(ecs), *final(ecs), r, x, y),
        is_health_potion(*final(ecs), r as int) || is_magic_missile_scroll(*final(ecs), r as int)
            || is_fireball_scroll(*final(ecs), r as int) || is_confusion_scroll(*final(ecs), r as int),
{
    let roll = roll_dice(&mut ecs.rng, 1, 4);
    spawn_item_kind(ecs, x, y, roll)
}

/// Whether `p` is among `points`.
fn holds_point(points: &Vec<Position>, p: Position) -> (r: bool)
    ensures
        r == points@.contains(p),
{
    let mut i: usize = 0;
    while i < points.len()
        invariant
            i <= points@.len(),
            forall|j: int| 0 <= j < i ==> points@[j] != p,
        decreases points@.len() - i,
    {
        if points[i] == p {
            proof {
                assert(points@[i as int] == p);
            }
            return true;
        }
        i = i + 1;
    }
    false
}

/// A room whose interior is at least two tiles each way.
pub open spec fn roomy(room: Rect) -> bool {
    room.x2 - room.x1 >= 2 && room.y2 - room.y1 >= 2
}

/// Up to `count` distinct tiles of the room's interior, each drawn at random.
/// When `SPAWN_TRIES` draws find no free tile, the first free one of three
/// fixed interior tiles is taken; so on a room at least two tiles wide and
/// high inside, a count of at most three is always met.
fn pick_points(rng: &mut rltk::RandomNumberGenerator, room: &Rect, count: i32) -> (r: Vec<Position>)
    requires
        0 <= room.x1 < room.x2 <= 1000,
        0 <= room.y1 < room.y2 <= 1000,
    ensures
        r@.len() <= if count > 0 { count as int } else { 0 },
        count <= 3 && roomy(*room) ==> r@.len() == if count > 0 { count as int } else { 0 },
        forall|i: int| 0 <= i < r@.len() ==> room.interior_contains(#[trigger] r@[i].x as int, r@[i].y as int),
        forall|i: int, j: int| 0 <= i < j < r@.len() ==> #[trigger] r@[i] != #[trigger] r@[j],
{
    let mut points: Vec<Position> = Vec::new();
    let mut k: i32 = 0;
    while k < count
        invariant
            0 <= room.x1 < room.x2 <= 1000,
            0 <= room.y1 < room.y2 <= 1000,
            0 <= k,
            k <= count || count <= 0,
            count <= 0 ==> k == 0,
            points@.len() <= k,
            count <= 3 && roomy(*room) ==> points@.len() == k,
            forall|i: int| 0 <= i < points@.len() ==> room.interior_contains(#[trigger] points@[i].x as int, points@[i].y as int),
            forall|i: int, j: int| 0 <= i < j < points@.len() ==> #[trigger] points@[i] != #[trigger] points@[j],
        decreases count - k,
    {
        let mut tries: usize = 0;
        let mut added = false;
        while !added && tries < SPAWN_TRIES
            invariant
                0 <= room.x1 < room.x2 <= 1000,
                0 <= room.y1 < room.y2 <= 1000,
                points@.len() <= k + if added { 1int } else { 0int },
                count <= 3 && roomy(*room) ==> points@.len() == k + if added { 1int } else { 0int },
                forall|i: int| 0 <= i < points@.len() ==> room.interior_contains(#[trigger] points@[i].x as int, points@[i].y as int),
                forall|i: int, j: int| 0 <= i < j < points@.len() ==> #[trigger] points@[i] != #[trigger] points@[j],
            decreases SPAWN_TRIES - tries,
        {
            tries = tries + 1;
            let x = room.x1 + roll_dice(rng, 1, room.x2 - room.x1);
            let y = room.y1 + roll_dice(rng, 1, room.y2 - room.y1);
            let p = Position { x, y };
            if !holds_point(&points, p) {
                points.push(p);
                added = true;
            }
        }
        if !added && room.x2 - room.x1 >= 2 && room.y2 - room.y1 >= 2 {
            let c0 = Position { x: room.x1 + 1, y: room.y1 + 1 };
            let c1 = Position { x: room.x1 + 2, y: room.y1 + 1 };
            let c2 = Position { x: room.x1 + 1, y: room.y1 + 2 };
            if !holds_point(&points, c0) {
                points.push(c0);
            } else if !holds_point(&points, c1) {
                points.push(c1);
            } else if !holds_point(&points, c2) {
                points.push(c2);
            } else {
                proof {
                    let s = points@;
                    let i0 = choose|i: int| 0 <= i < s.len() && s[i] == c0;
                    let i1 = choose|i: int| 0 <= i < s.len() && s[i] == c1;
                    let i2 = choose|i: int| 0 <= i < s.len() && s[i] == c2;
                    if count <= 3 {
                        assert(s.len() <= 2);
                        assert(i0 != i1 && i1 != i2 && i0 != i2);
                        if i0 < i1 {
                            assert(s[i0] != s[i1]);
                        }
                        assert(false);
                    }
                }
            }
        }
        k = k + 1;
    }
    points
}

/// Spawns monster `i` on `mp[i]`, of the kind `mk[i]` picks, then item `j` on
/// `ip[j]`, of the kind `ik[j]` picks, in that order.
pub fn spawn_entities(ecs: &mut World, mp: &Vec<Position>, mk: &Vec<i32>, ip: &Vec<Position>, ik: &Vec<i32>)
    requires
        old(ecs).wf(),
        mp@.len() == mk@.len(),
        ip@.len() == ik@.len(),
        old(ecs).count() + mp@.len() + ip@.len() <= MAX_ENTITIES,
        forall|i: int| 0 <= i < mp@.len() ==> old(ecs).map.in_bounds(#[trigger] mp@[i].x as int, mp@[i].y as int),
        forall|i: int| 0 <= i < ip@.len() ==> old(ecs).map.in_bounds(#[trigger] ip@[i].x as int, ip@[i].y as int),
    ensures
        final(ecs).wf(),
        keeps_old(*old(ecs), *final(ecs)),
        final(ecs).count() == old(ecs).count() + mp@.len() + ip@.len(),
        forall|i: int|
            0 <= i < mp@.len() ==> final(ecs).positions@[old(ecs).count() + i] == Some(#[trigger] mp@[i])
                && is_monster_kind(*final(ecs), old(ecs).count() + i, mk@[i]),
        forall|i: int|
            0 <= i < ip@.len() ==> final(ecs).positions@[old(ecs).count() + mp@.len() + i] == Some(#[trigger] ip@[i])
                && is_item_kind(*final(ecs), old(ecs).count() + mp@.len() + i, ik@[i]),
{
    let ghost start = *ecs;
    let mut i: usize = 0;
    while i < mp.len()
        invariant
            ecs.wf(),
            keeps_old(start, *ecs),
            mp@.len() == mk@.len(),
            ip@.len() == ik@.len(),
            start.count() + mp@.len() + ip@.len() <= MAX_ENTITIES,
            forall|q: int| 0 <= q < ip@.len() ==> start.map.in_bounds(#[trigger] ip@[q].x as int, ip@[q].y as int),
            forall|q: int| 0 <= q < mp@.len() ==> start.map.in_bounds(#[trigger] mp@[q].x as int, mp@[q].y as int),
            ecs.count() == start.count() + i,
            i <= mp@.len(),
            forall|q: int|
                0 <= q < i ==> ecs.positions@[start.count() + q] == Some(#[trigger] mp@[q])
                    && is_monster_kind(*ecs, start.count() + q, mk@[q]),
        decreases mp@.len() - i,
    {
        let p = mp[i];
        let ghost before = *ecs;
        spawn_monster_kind(ecs, p.x, p.y, mk[i]);
        proof {
            assert forall|q: int| 0 <= q < i + 1 implies ecs.positions@[start.count() + q] == Some(#[trigger] mp@[q])
                && is_monster_kind(*ecs, start.count() + q, mk@[q]) by {
                let e = start.count() + q;
                if q < i {
                    assert(before.positions@[e] == Some(mp@[q]));
                    assert(ecs.alive@[e] == before.alive@[e]);
                    assert(slot_same(before, *ecs, e));
                    assert(is_monster_kind(before, e, mk@[q]));
                } else {
                    assert(e == before.count());
                }
            }
            assert forall|e: int| 0 <= e < start.count() implies #[trigger] ecs.alive@[e] == start.alive@[e]
                && slot_same(start, *ecs, e) by {
                assert(before.alive@[e] == start.alive@[e]);
                assert(ecs.alive@[e] == before.alive@[e]);
            }
        }
        i = i + 1;
    }
    proof {
        assert forall|q: int| 0 <= q < mp@.len() implies ecs.positions@[start.count() + q] == Some(#[trigger] mp@[q])
            && is_monster_kind(*ecs, start.count() + q, mk@[q]) by {
            assert(ecs.positions@[start.count() + q] == Some(mp@[q]));
        }
    }
    let mut j: usize = 0;
    while j < ip.len()
        invariant
            ecs.wf(),
            keeps_old(start, *ecs),
            ip@.len() == ik@.len(),
            mp@.len() == mk@.len(),
            start.count() + mp@.len() + ip@.len() <= MAX_ENTITIES,
            forall|q: int| 0 <= q < ip@.len() ==> start.map.in_bounds(#[trigger] ip@[q].x as int, ip@[q].y as int),
            ecs.count() == start.count() + mp@.len() + j,
            j <= ip@.len(),
            forall|q: int|
                0 <= q < mp@.len() ==> ecs.positions@[start.count() + q] == Some(#[trigger] mp@[q])
                    && is_monster_kind(*ecs, start.count() + q, mk@[q]),
            forall|q: int|
                0 <= q < j ==> ecs.positions@[start.count() + mp@.len() + q] == Some(#[trigger] ip@[q])
                    && is_item_kind(*ecs, start.count() + mp@.len() + q, ik@[q]),
        decreases ip@.len() - j,
    {
        let p = ip[j];
        let ghost before = *ecs;
        spawn_item_kind(ecs, p.x, p.y, ik[j]);
        proof {
            assert forall|q: int| 0 <= q < mp@.len() implies ecs.positions@[start.count() + q] == Some(#[trigger] mp@[q])
                && is_monster_kind(*ecs, start.count() + q, mk@[q]) by {
                let e = start.count() + q;
                assert(before.positions@[e] == Some(mp@[q]));
                assert(ecs.alive@[e] == before.alive@[e]);
                assert(slot_same(before, *ecs, e));
                assert(is_monster_kind(before, e, mk@[q]));
            }
            assert forall|q: int| 0 <= q < j + 1 implies ecs.positions@[start.count() + mp@.len() + q] == Some(#[trigger] ip@[q])
                && is_item_kind(*ecs, start.count() + mp@.len() + q, ik@[q]) by {
                let e = start.count() + mp@.len() + q;
                if q < j {
                    assert(before.positions@[e] == Some(ip@[q]));
                    assert(ecs.alive@[e] == before.alive@[e]);
                    assert(slot_same(before, *ecs, e));
                    assert(is_item_kind(before, e, ik@[q]));
                } else {
                    assert(e == before.count());
                }
            }
            assert forall|e: int| 0 <= e < start.count() implies #[trigger] ecs.alive@[e] == start.alive@[e]
                && slot_same(start, *ecs, e) by {
                assert(before.alive@[e] == start.alive@[e]);
                assert(ecs.alive@[e] == before.alive@[e]);
            }
        }
        j = j + 1;
    }
}

/// `n` rolls of one die with `die` sides.
fn roll_kinds(rng: &mut rltk::RandomNumberGenerator, n: usize, die: i32) -> (r: Vec<i32>)
    requires
        1 <= die < i32::MAX,
    ensures
        r@.len() == n,
{
    let mut rolls: Vec<i32> = Vec::new();
    while rolls.len() < n
        invariant
            rolls@.len() <= n,
            1 <= die < i32::MAX,
        decreases n - rolls@.len(),
    {
        let roll = roll_dice(rng, 1, die);
        rolls.push(roll);
    }
    rolls
}

/// What a room's spawning gives: `nm` monsters (at most three) then at most
/// three items, each on an interior tile of the room, no two monsters and no
/// two items on the same tile.
pub open spec fn room_spawned(a: World, b: World, room: Rect, nm: int) -> bool {
    &&& 0 <= nm <= 3
    &&& a.count() + nm <= b.count() <= a.count() + nm + 3
    &&& forall|e: int|
        a.count() <= e < b.count() ==> (#[trigger] b.positions@[e]).is_some() && room.interior_contains(
            b.positions@[e].unwrap().x as int,
            b.positions@[e].unwrap().y as int,
        )
    &&& forall|e: int| a.count() <= e < a.count() + nm ==> (#[trigger] b.positions@[e]).is_some() && (is_orc(b, e) || is_goblin(b, e))
    &&& forall|e: int|
        a.count() + nm <= e < b.count() ==> (#[trigger] b.positions@[e]).is_some() && is_health_potion(b, e) || is_magic_missile_scroll(b, e)
            || is_fireball_scroll(b, e) || is_confusion_scroll(b, e)
    &&& forall|e1: int, e2: int|
        a.count() <= e1 < e2 < a.count() + nm ==> #[trigger] b.positions@[e1] != #[trigger] b.positions@[e2]
    &&& forall|e1: int, e2: int|
        a.count() + nm <= e1 < e2 < b.count() ==> #[trigger] b.positions@[e1] != #[trigger] b.positions@[e2]
}

/// A count that may be rolled below zero, taken as at least zero.
pub open spec fn at_least_zero(n: i32) -> int {
    if n > 0 {
        n as int
    } else {
        0
    }
}

/// Fills a room with `num_monsters` monsters and then `num_items` items (a
/// count below zero is none), each on its own random interior tile: no two
/// monsters and no two items share a tile. On a room at least two tiles wide
/// and high inside, both counts are met exactly.
pub fn spawn_room_counts(ecs: &mut World, room: &Rect, num_monsters: i32, num_items: i32)
    requires
        old(ecs).wf(),
        old(ecs).count() + 6 <= MAX_ENTITIES,
        old(ecs).map.room_fits(*room),
        room.x1 < room.x2,
        room.y1 < room.y2,
        num_monsters <= 3,
        num_items <= 3,
    ensures
        final(ecs).wf(),
        keeps_old(*old(ecs), *final(ecs)),
        exists|nm: int| #[trigger] room_spawned(*old(ecs), *final(ecs), *room, nm),
        roomy(*room) ==> room_spawned(*old(ecs), *final(ecs), *room, at_least_zero(num_monsters))
            && final(ecs).count() == old(ecs).count() + at_least_zero(num_monsters) + at_least_zero(num_items),
{
    let mp = pick_points(&mut ecs.rng, room, num_monsters);
    let ip = pick_points(&mut ecs.rng, room, num_items);
    let mk = roll_kinds(&mut ecs.rng, mp.len(), 2);
    let ik = roll_kinds(&mut ecs.rng, ip.len(), 4);
    let ghost start = *ecs;
    proof {
        assert forall|i: int| 0 <= i < mp@.len() implies start.map.in_bounds(#[trigger] mp@[i].x as int, mp@[i].y as int) by {
            assert(room.interior_contains(mp@[i].x as int, mp@[i].y as int));
        }
        assert forall|i: int| 0 <= i < ip@.len() implies start.map.in_bounds(#[trigger] ip@[i].x as int, ip@[i].y as int) by {
            assert(room.interior_contains(ip@[i].x as int, ip@[i].y as int));
        }
    }
    spawn_entities(ecs, &mp, &mk, &ip, &ik);
    proof {
        let a = start.count();
        let nm = mp@.len() as int;
        assert forall|e: int| a <= e < ecs.count() implies (#[trigger] ecs.positions@[e]).is_some()
            && room.interior_contains(ecs.positions@[e].unwrap().x as int, ecs.positions@[e].unwrap().y as int) by {
            if e < a + nm {
                assert(ecs.positions@[a + (e - a)] == Some(mp@[e - a]));
            } else {
                assert(ecs.positions@[a + nm + (e - a - nm)] == Some(ip@[e - a - nm]));
            }
        }
        assert forall|e: int| a <= e < a + nm implies (#[trigger] ecs.positions@[e]).is_some() && (is_orc(*ecs, e) || is_goblin(*ecs, e)) by {
            assert(ecs.positions@[a + (e - a)] == Some(mp@[e - a]));
        }
        assert forall|e: int| a + nm <= e < ecs.count() implies is_health_potion(*ecs, e) || is_magic_missile_scroll(*ecs, e)
            || is_fireball_scroll(*ecs, e) || is_confusion_scroll(*ecs, e) by {
            assert(ecs.positions@[a + nm + (e - a - nm)] == Some(ip@[e - a - nm]));
        }
        assert forall|e1: int, e2: int| a <= e1 < e2 < a + nm implies #[trigger] ecs.positions@[e1]
            != #[trigger] ecs.positions@[e2] by {
            assert(ecs.positions@[a + (e1 - a)] == Some(mp@[e1 - a]));
            assert(ecs.positions@[a + (e2 - a)] == Some(mp@[e2 - a]));
        }
        assert forall|e1: int, e2: int| a + nm <= e1 < e2 < ecs.count() implies #[trigger] ecs.positions@[e1]
            != #[trigger] ecs.positions@[e2] by {
            assert(ecs.positions@[a + nm + (e1 - a - nm)] == Some(ip@[e1 - a - nm]));
            assert(ecs.positions@[a + nm + (e2 - a - nm)] == Some(ip@[e2 - a - nm]));
        }
        assert(room_spawned(start, *ecs, *room, nm));
        assert(start.count() == old(ecs).count());
        assert(room_spawned(*old(ecs), *ecs, *room, nm));
    }
}


/// Fills a room with monsters and items. Each count is one six-sided die
/// less three, so at most three of each and often none; see
/// `spawn_room_counts`. Each monster is an orc or a goblin, each item one of
/// four kinds.
pub fn spawn_rooms(ecs: &mut World, room: &Rect)
    requires
        old(ecs).wf(),
        old(ecs).count() + 6 <= MAX_ENTITIES,
        old(ecs).map.room_fits(*room),
        room.x1 < room.x2,
        room.y1 < room.y2,
    ensures
        final(ecs).wf(),
        keeps_old(*old(ecs), *final(ecs)),
        exists|nm: int| #[trigger] room_spawned(*old(ecs), *final(ecs), *room, nm),
{
    let num_monsters = roll_dice(&mut ecs.rng, 1, MAX_MONSTERS + 2) - 3;
    let num_items = roll_dice(&mut ecs.rng, 1, MAX_ITEMS + 2) - 3;
    let ghost rolled = *ecs;
    spawn_room_counts(ecs, room, num_monsters, num_items);
    proof {
        let nm = choose|nm: int| #[trigger] room_spawned(rolled, *ecs, *room, nm);
        assert(rolled.count() == old(ecs).count());
        assert(room_spawned(*old(ecs), *ecs, *room, nm));
    }
}

} // verus!
