use vstd::prelude::*;
use crate::ai::{abs, sign};
use crate::components::{Position, Viewshed};
use crate::map::{lemma_col_row_bounds, lemma_idx_in_range, GameMap, TileType};
use crate::world::{tags_same, World};

verus! {

broadcast use vstd::seq_lib::lemma_seq_contains_after_push;

/// Steps along the line from the origin to the target: the longer of the
/// two distances.
pub open spec fn line_steps(o: Position, t: Position) -> int {
    if abs(t.x - o.x) > abs(t.y - o.y) {
        abs(t.x - o.x)
    } else {
        abs(t.y - o.y)
    }
}

/// `k * d / n` rounded to the nearest integer, halves away from zero.
pub open spec fn line_offset(k: int, d: int, n: int) -> int {
    sign(d) * ((2 * k * abs(d) + n) / (2 * n))
}

/// The `k`-th point of the straight line from `o` to `t`.
pub open spec fn line_point(o: Position, t: Position, k: int) -> (int, int) {
    let n = line_steps(o, t);
    (o.x + line_offset(k, t.x - o.x, n), o.y + line_offset(k, t.y - o.y, n))
}

/// No Wall stands on the line strictly between `o` and `t`.
pub open spec fn line_clear(m: GameMap, o: Position, t: Position) -> bool {
    forall|k: int|
        1 <= k < line_steps(o, t) && m.in_bounds(#[trigger] line_point(o, t, k).0, line_point(o, t, k).1)
            ==> m.tile_at(line_point(o, t, k).0, line_point(o, t, k).1) != TileType::Wall
}

/// Tile `t` is seen from `o`: on the map, within Euclidean `range`, and with
/// nothing in between that blocks sight. A Wall itself can be seen.
pub open spec fn in_view(m: GameMap, o: Position, range: int, t: Position) -> bool {
    &&& m.in_bounds(t.x as int, t.y as int)
    &&& (t.x - o.x) * (t.x - o.x) + (t.y - o.y) * (t.y - o.y) <= range * range
    &&& line_clear(m, o, t)
}

impl GameMap {
    /// Whether the straight line from `o` to `t` is free of Walls between them.
    pub fn line_is_clear(&self, o: Position, t: Position) -> (r: bool)
        requires
            self.wf(),
            self.in_bounds(o.x as int, o.y as int),
            self.in_bounds(t.x as int, t.y as int),
        ensures
            r == line_clear(*self, o, t),
    {
        let dx: i64 = t.x as i64 - o.x as i64;
        let dy: i64 = t.y as i64 - o.y as i64;
        let adx: i64 = if dx < 0 { -dx } else { dx };
        let ady: i64 = if dy < 0 { -dy } else { dy };
        let n: i64 = if adx > ady { adx } else { ady };
        let sx: i64 = if dx > 0 { 1 } else if dx < 0 { -1 } else { 0 };
        let sy: i64 = if dy > 0 { 1 } else if dy < 0 { -1 } else { 0 };
        let mut k: i64 = 1;
        while k < n
            invariant
                self.wf(),
                n == line_steps(o, t),
                0 <= adx <= 1000,
                0 <= ady <= 1000,
                adx == abs(t.x - o.x),
                ady == abs(t.y - o.y),
                sx == sign(t.x - o.x),
                sy == sign(t.y - o.y),
                1 <= k,
                k <= n || n <= 0,
                forall|j: int|
                    1 <= j < k && self.in_bounds(#[trigger] line_point(o, t, j).0, line_point(o, t, j).1)
                        ==> self.tile_at(line_point(o, t, j).0, line_point(o, t, j).1) != TileType::Wall,
            decreases n - k,
        {
            assert(0 <= 2 * k * adx + n <= 4_002_000) by (nonlinear_arith)
                requires
                    1 <= k < n,
                    n <= 1000,
                    0 <= adx <= 1000,
            ;
            assert(0 <= 2 * k * ady + n <= 4_002_000) by (nonlinear_arith)
                requires
                    1 <= k < n,
                    n <= 1000,
                    0 <= ady <= 1000,
            ;
            let qx: i64 = (2 * k * adx + n) / (2 * n);
            let qy: i64 = (2 * k * ady + n) / (2 * n);
            assert(0 <= qx <= 4_002_000) by (nonlinear_arith)
                requires
                    qx == (2 * k * adx + n) / (2 * n),
                    0 <= 2 * k * adx + n <= 4_002_000,
                    n >= 1,
            ;
            assert(0 <= qy <= 4_002_000) by (nonlinear_arith)
                requires
                    qy == (2 * k * ady + n) / (2 * n),
                    0 <= 2 * k * ady + n <= 4_002_000,
                    n >= 1,
            ;
            let px: i64 = o.x as i64 + sx * qx;
            let py: i64 = o.y as i64 + sy * qy;
            proof {
                assert(line_point(o, t, k as int) == (px as int, py as int));
            }
            if 0 <= px && px < self.width as i64 && 0 <= py && py < self.height as i64 {
                let idx = self.xy_idx(px as i32, py as i32);
                if self.tiles[idx] == TileType::Wall {
                    proof {
                        let lp = line_point(o, t, k as int);
                        assert(self.in_bounds(lp.0, lp.1));
                        assert(self.tile_at(lp.0, lp.1) == TileType::Wall);
                    }
                    return false;
                }
            }
            k = k + 1;
        }
        true
    }

    /// Every tile seen from `o` within `range`, each once, in index order.
    /// Sight is computed here, a straight line per tile: rltk's
    /// `field_of_view` reads the map through its `Algorithm2D` trait, and
    /// verified code cannot call through a trait of an outside crate.
    pub fn field_of_view(&self, o: Position, range: i32) -> (r: Vec<Position>)
        requires
            self.wf(),
            self.in_bounds(o.x as int, o.y as int),
        ensures
            forall|p: Position| #[trigger] r@.contains(p) == in_view(*self, o, range as int, p),
            r@.no_duplicates(),
    {
        let ar: i64 = if range < 0 { -(range as i64) } else { range as i64 };
        let reach: i64 = if ar > 2000 { 2000 } else { ar };
        let x_lo: i64 = if o.x as i64 - reach < 0 { 0 } else { o.x as i64 - reach };
        let x_hi: i64 = if o.x as i64 + reach > self.width as i64 - 1 { self.width as i64 - 1 } else { o.x as i64 + reach };
        let y_lo: i64 = if o.y as i64 - reach < 0 { 0 } else { o.y as i64 - reach };
        let y_hi: i64 = if o.y as i64 + reach > self.height as i64 - 1 { self.height as i64 - 1 } else { o.y as i64 + reach };
        proof {
            assert forall|p: Position| #[trigger] in_view(*self, o, range as int, p) implies x_lo <= p.x <= x_hi
                && y_lo <= p.y <= y_hi by {
                lemma_within_range(p.x - o.x, p.y - o.y, range as int);
            }
        }
        assert(0 <= range as i64 * range as i64 <= 0x4000_0000_0000_0000) by (nonlinear_arith)
            requires
                -0x8000_0000 <= range < 0x8000_0000,
        ;
        let r2: i64 = range as i64 * range as i64;
        let mut out: Vec<Position> = Vec::new();
        let mut y: i64 = y_lo;
        while y <= y_hi
            invariant
                self.wf(),
                self.in_bounds(o.x as int, o.y as int),
                0 <= x_lo,
                x_hi < self.width,
                0 <= y_lo <= y,
                y_hi < self.height,
                y <= y_hi + 1 || y == y_lo,
                r2 == range * range,
                forall|p: Position| #[trigger] in_view(*self, o, range as int, p) ==> x_lo <= p.x <= x_hi && y_lo <= p.y <= y_hi,
                forall|p: Position|
                    #[trigger] out@.contains(p) == (in_view(*self, o, range as int, p) && p.y < y),
                out@.no_duplicates(),
            decreases y_hi + 1 - y,
        {
            let mut x: i64 = x_lo;
            while x <= x_hi
                invariant
                    self.wf(),
                    self.in_bounds(o.x as int, o.y as int),
                    0 <= x_lo <= x,
                    x <= x_hi + 1 || x == x_lo,
                    x_hi < self.width,
                    0 <= y <= y_hi,
                    y_hi < self.height,
                    r2 == range * range,
                    forall|p: Position| #[trigger] in_view(*self, o, range as int, p) ==> x_lo <= p.x <= x_hi && y_lo <= p.y <= y_hi,
                    forall|p: Position|
                        #[trigger] out@.contains(p) == (in_view(*self, o, range as int, p) && (p.y < y || (p.y == y && p.x < x))),
                    out@.no_duplicates(),
                decreases x_hi + 1 - x,
            {
                let t = Position { x: x as i32, y: y as i32 };
                let dx: i64 = x - o.x as i64;
                let dy: i64 = y - o.y as i64;
                assert(0 <= dx * dx <= 1_000_000 && 0 <= dy * dy <= 1_000_000) by (nonlinear_arith)
                    requires
                        -1000 <= dx <= 1000,
                        -1000 <= dy <= 1000,
                ;
                let seen = dx * dx + dy * dy <= r2 && self.line_is_clear(o, t);
                proof {
                    assert(seen == in_view(*self, o, range as int, t));
                }
                if seen {
                    proof {
                        let c = out@;
                        assert(!c.contains(t));
                        assert forall|a: int, b: int| 0 <= a < b < c.push(t).len() implies c.push(t)[a]
                            != c.push(t)[b] by {
                            if b == c.len() {
                                assert(c.contains(c[a]));
                            }
                        }
                    }
                    out.push(t);
                }
                x = x + 1;
            }
            y = y + 1;
        }
        out
    }
}

/// A tile within Euclidean `range` is within `range` along each axis.
pub proof fn lemma_within_range(dx: int, dy: int, range: int)
    requires
        dx * dx + dy * dy <= range * range,
    ensures
        -abs(range) <= dx <= abs(range),
        -abs(range) <= dy <= abs(range),
{
    assert(-abs(range) <= dx <= abs(range)) by (nonlinear_arith)
        requires
            dx * dx + dy * dy <= range * range,
            abs(range) == if range < 0 { -range } else { range },
    ;
    assert(-abs(range) <= dy <= abs(range)) by (nonlinear_arith)
        requires
            dx * dx + dy * dy <= range * range,
            abs(range) == if range < 0 { -range } else { range },
    ;
}

/// Sight depends only on the tiles and the grid's size.
pub proof fn lemma_in_view_frame(a: GameMap, b: GameMap, o: Position, range: int, p: Position)
    requires
        a.tiles == b.tiles,
        a.width == b.width,
        a.height == b.height,
    ensures
        in_view(a, o, range, p) == in_view(b, o, range, p),
{
    assert(line_clear(a, o, p) == line_clear(b, o, p)) by {
        if line_clear(a, o, p) {
            assert forall|k: int|
                1 <= k < line_steps(o, p) && b.in_bounds(#[trigger] line_point(o, p, k).0, line_point(o, p, k).1)
                implies b.tile_at(line_point(o, p, k).0, line_point(o, p, k).1) != TileType::Wall by {
                assert(a.in_bounds(line_point(o, p, k).0, line_point(o, p, k).1));
            }
        }
        if line_clear(b, o, p) {
            assert forall|k: int|
                1 <= k < line_steps(o, p) && a.in_bounds(#[trigger] line_point(o, p, k).0, line_point(o, p, k).1)
                implies a.tile_at(line_point(o, p, k).0, line_point(o, p, k).1) != TileType::Wall by {
                assert(b.in_bounds(line_point(o, p, k).0, line_point(o, p, k).1));
            }
        }
    }
}

/// The tile at linear index `i` of a grid `w` tiles wide.
pub open spec fn pos_of(i: int, w: int) -> Position {
    Position { x: (i % w) as i32, y: (i / w) as i32 }
}

/// Entity `e` has a dirty viewshed to recompute.
pub open spec fn recomputes(w: World, e: int) -> bool {
    &&& w.alive@[e]
    &&& w.positions@[e].is_some()
    &&& w.viewsheds@[e].is_some()
    &&& w.viewsheds@[e].unwrap().dirty
}

/// The viewshed of `e` after recomputation: same range, clean, and holding
/// exactly the tiles seen from the entity's position.
pub open spec fn viewshed_fresh(w: World, v: Option<Viewshed>, e: int) -> bool {
    &&& v.is_some()
    &&& v.unwrap().range == w.viewsheds@[e].unwrap().range
    &&& !v.unwrap().dirty
    &&& v.unwrap().visible_tiles@.no_duplicates()
    &&& forall|p: Position|
        #[trigger] v.unwrap().visible_tiles@.contains(p) == in_view(
            w.map,
            w.positions@[e].unwrap(),
            w.viewsheds@[e].unwrap().range as int,
            p,
        )
}

/// `e` is the last player whose viewshed gets recomputed: its view is what the
/// map shows as seen now.
pub open spec fn last_lit(w: World, e: int) -> bool {
    &&& recomputes(w, e)
    &&& w.players@[e]
    &&& forall|k: int| e < k < w.count() ==> !(recomputes(w, k) && #[trigger] w.players@[k])
}

/// The map shows as seen now exactly the tiles that player `e` sees.
pub open spec fn lit_by(w: World, b: World, e: int) -> bool {
    forall|i: int|
        0 <= i < w.map.tiles@.len() ==> #[trigger] b.map.visible_tiles@[i] == in_view(
            w.map,
            w.positions@[e].unwrap(),
            w.viewsheds@[e].unwrap().range as int,
            pos_of(i, w.map.width as int),
        )
}

/// What the visibility system leaves alone.
pub open spec fn same_but_sight(a: World, b: World) -> bool {
    &&& tags_same(a, b)
    &&& b.map.tiles == a.map.tiles
    &&& b.map.width == a.map.width
    &&& b.map.height == a.map.height
    &&& b.map.rooms == a.map.rooms
    &&& b.map.blocked == a.map.blocked
    &&& b.map.tile_content == a.map.tile_content
    &&& b.alive == a.alive
    &&& b.positions == a.positions
    &&& b.combat_stats == a.combat_stats
    &&& b.players == a.players
    &&& b.monsters == a.monsters
    &&& b.blocks_tile == a.blocks_tile
    &&& b.confusion == a.confusion
    &&& b.wants_to_melee == a.wants_to_melee
    &&& b.suffer_damage == a.suffer_damage
    &&& b.dead == a.dead
    &&& b.log == a.log
    &&& b.player_pos == a.player_pos
    &&& b.player_entity == a.player_entity
    &&& b.viewsheds@.len() == a.viewsheds@.len()
}

/// What the visibility system guarantees, from `a` to `b`.
pub open spec fn sight_post(a: World, b: World) -> bool {
    &&& b.wf()
    &&& same_but_sight(a, b)
    &&& forall|e: int|
        0 <= e < a.count() ==> if recomputes(a, e) {
            viewshed_fresh(a, #[trigger] b.viewsheds@[e], e)
        } else {
            b.viewsheds@[e] == a.viewsheds@[e]
        }
    &&& forall|i: int|
        0 <= i < a.map.tiles@.len() && a.map.revealed_tiles@[i]
            ==> #[trigger] b.map.revealed_tiles@[i]
    &&& forall|e: int, p: Position|
        0 <= e < a.count() && recomputes(a, e) && a.players@[e]
            && #[trigger] in_view(
            a.map,
            a.positions@[e].unwrap(),
            a.viewsheds@[e].unwrap().range as int,
            p,
        ) ==> b.map.revealed_tiles@[a.map.idx(p.x as int, p.y as int)]
    &&& forall|e: int| 0 <= e < a.count() && #[trigger] last_lit(a, e) ==> lit_by(a, b, e)
    &&& (forall|k: int| 0 <= k < a.count() ==> !(recomputes(a, k) && #[trigger] a.players@[k]))
        ==> b.map.visible_tiles == a.map.visible_tiles
}

impl World {
    /// Lights the tiles seen from `o` within `range`: each becomes seen now
    /// and remembered; every other tile is no longer seen now.
    fn light_tiles(&mut self, o: Position, range: i32)
        requires
            old(self).wf(),
            old(self).map.in_bounds(o.x as int, o.y as int),
        ensures
            final(self).wf(),
            same_but_sight(*old(self), *final(self)),
            final(self).viewsheds == old(self).viewsheds,
            forall|i: int|
                0 <= i < old(self).map.tiles@.len() ==> #[trigger] final(self).map.visible_tiles@[i] == in_view(
                    old(self).map,
                    o,
                    range as int,
                    pos_of(i, old(self).map.width as int),
                ),
            forall|i: int|
                0 <= i < old(self).map.tiles@.len() ==> #[trigger] final(self).map.revealed_tiles@[i] == (old(
                    self,
                ).map.revealed_tiles@[i] || final(self).map.visible_tiles@[i]),
    {
        let len = self.map.tiles.len();
        let w = self.map.width as usize;
        let mut i: usize = 0;
        while i < len
            invariant
                self.wf(),
                same_but_sight(*old(self), *self),
                self.viewsheds == old(self).viewsheds,
                len == self.map.tiles@.len(),
                w == self.map.width,
                i <= len,
                old(self).map.in_bounds(o.x as int, o.y as int),
                forall|k: int|
                    0 <= k < i ==> #[trigger] self.map.visible_tiles@[k] == in_view(
                        old(self).map,
                        o,
                        range as int,
                        pos_of(k, w as int),
                    ),
                forall|k: int|
                    0 <= k < len ==> #[trigger] self.map.revealed_tiles@[k] == (old(self).map.revealed_tiles@[k]
                        || (k < i && self.map.visible_tiles@[k])),
            decreases len - i,
        {
            proof {
                lemma_col_row_bounds(i as int, w as int, self.map.height as int);
            }
            let x = (i % w) as i32;
            let y = (i / w) as i32;
            let t = Position { x, y };
            proof {
                vstd::arithmetic::div_mod::lemma_fundamental_div_mod(i as int, w as int);
            }
            let dx: i64 = x as i64 - o.x as i64;
            let dy: i64 = y as i64 - o.y as i64;
            assert(0 <= range as i64 * range as i64 <= 0x4000_0000_0000_0000) by (nonlinear_arith)
                requires
                    -0x8000_0000 <= range < 0x8000_0000,
            ;
            let r2: i64 = range as i64 * range as i64;
            assert(0 <= dx * dx <= 1_000_000 && 0 <= dy * dy <= 1_000_000) by (nonlinear_arith)
                requires
                    -1000 <= dx <= 1000,
                    -1000 <= dy <= 1000,
            ;
            let seen = dx * dx + dy * dy <= r2 && self.map.line_is_clear(o, t);
            proof {
                lemma_in_view_frame(self.map, old(self).map, o, range as int, t);
                assert(t == pos_of(i as int, w as int));
            }
            self.map.visible_tiles.set(i, seen);
            if seen {
                self.map.revealed_tiles.set(i, true);
            }
            i = i + 1;
        }
    }

    /// The visibility system: recomputes every dirty viewshed of a live entity
    /// with a position, and clears its dirty flag. For a player, the tiles in
    /// view become the map's visible tiles and are remembered as revealed.
    pub fn visibility(&mut self)
        requires
            old(self).wf(),
        ensures
            sight_post(*old(self), *final(self)),
    {
        let n = self.alive.len();
        let mut e: usize = 0;
        let ghost mut last: int = -1;
        while e < n
            invariant
                self.wf(),
                n == self.count(),
                e <= n,
                same_but_sight(*old(self), *self),
                -1 <= last < e,
                last == -1 ==> (forall|k: int| 0 <= k < e ==> !(recomputes(*old(self), k) && #[trigger] old(self).players@[k]))
                    && self.map.visible_tiles == old(self).map.visible_tiles,
                last >= 0 ==> recomputes(*old(self), last) && old(self).players@[last] && lit_by(*old(self), *self, last)
                    && forall|k: int| last < k < e ==> !(recomputes(*old(self), k) && #[trigger] old(self).players@[k]),
                forall|j: int|
                    0 <= j < e ==> if recomputes(*old(self), j) {
                        viewshed_fresh(*old(self), #[trigger] self.viewsheds@[j], j)
                    } else {
                        self.viewsheds@[j] == old(self).viewsheds@[j]
                    },
                forall|j: int| e <= j < n ==> #[trigger] self.viewsheds@[j] == old(self).viewsheds@[j],
                forall|i: int|
                    0 <= i < old(self).map.tiles@.len() && old(self).map.revealed_tiles@[i]
                        ==> #[trigger] self.map.revealed_tiles@[i],
                forall|j: int, p: Position|
                    0 <= j < e && recomputes(*old(self), j) && old(self).players@[j] && #[trigger] in_view(
                        old(self).map,
                        old(self).positions@[j].unwrap(),
                        old(self).viewsheds@[j].unwrap().range as int,
                        p,
                    ) ==> self.map.revealed_tiles@[old(self).map.idx(p.x as int, p.y as int)],
            decreases n - e,
        {
            let ghost before = *self;
            let (dirty, range) = match &self.viewsheds[e] {
                Some(v) => (v.dirty, v.range),
                None => (false, 0),
            };
            if self.alive[e] && dirty {
                if let Some(pos) = self.positions[e] {
                    let seen = self.map.field_of_view(pos, range);
                    proof {
                        assert forall|p: Position| #[trigger] seen@.contains(p) == in_view(
                            old(self).map,
                            pos,
                            range as int,
                            p,
                        ) by {
                            lemma_in_view_frame(self.map, old(self).map, pos, range as int, p);
                        }
                        assert forall|q: int| 0 <= q < seen@.len() implies old(self).map.in_bounds(
                            #[trigger] seen@[q].x as int,
                            seen@[q].y as int,
                        ) by {
                            assert(seen@.contains(seen@[q]));
                        }
                    }
                    if self.players[e] {
                        let ghost pre = *self;
                        self.light_tiles(pos, range);
                        proof {
                            last = e as int;
                            assert forall|i: int| 0 <= i < old(self).map.tiles@.len() implies #[trigger] self.map.visible_tiles@[i]
                                == in_view(old(self).map, pos, range as int, pos_of(i, old(self).map.width as int)) by {
                                lemma_in_view_frame(pre.map, old(self).map, pos, range as int, pos_of(i, old(self).map.width as int));
                            }
                            assert forall|p: Position|
                                in_view(old(self).map, pos, range as int, p) implies #[trigger] self.map.revealed_tiles@[old(
                                    self,
                                ).map.idx(p.x as int, p.y as int)] by {
                                let w = old(self).map.width as int;
                                lemma_idx_in_range(w, old(self).map.height as int, p.x as int, p.y as int);
                                let i = old(self).map.idx(p.x as int, p.y as int);
                                assert(pos_of(i, w) == p);
                                lemma_in_view_frame(pre.map, old(self).map, pos, range as int, p);
                                assert(self.map.visible_tiles@[i]);
                            }
                        }
                    }
                    self.viewsheds.set(e, Some(Viewshed { visible_tiles: seen, range, dirty: false }));
                }
            }
            proof {
                assert forall|j: int, p: Position|
                    0 <= j < e + 1 && recomputes(*old(self), j) && old(self).players@[j] && #[trigger] in_view(
                        old(self).map,
                        old(self).positions@[j].unwrap(),
                        old(self).viewsheds@[j].unwrap().range as int,
                        p,
                    ) implies self.map.revealed_tiles@[old(self).map.idx(p.x as int, p.y as int)] by {
                    if j < e {
                        assert(before.map.revealed_tiles@[old(self).map.idx(p.x as int, p.y as int)]);
                        lemma_idx_in_range(
                            old(self).map.width as int,
                            old(self).map.height as int,
                            p.x as int,
                            p.y as int,
                        );
                    }
                }
            }
            e = e + 1;
        }
        proof {
            assert forall|x: int| 0 <= x < old(self).count() && #[trigger] last_lit(*old(self), x) implies lit_by(*old(self), *self, x) by {
                if last == -1 {
                    assert(!(recomputes(*old(self), x) && old(self).players@[x]));
                } else if x < last {
                    assert(!(recomputes(*old(self), last) && old(self).players@[last]));
                } else if x > last {
                    assert(!(recomputes(*old(self), x) && old(self).players@[x]));
                }
            }
            if last >= 0 {
                assert(recomputes(*old(self), last) && old(self).players@[last]);
            }
        }
    }
}

} // verus!
