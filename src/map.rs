use vstd::prelude::*;
use crate::rect::Rect;
use crate::dice::roll_dice;

verus! {

pub const MAP_WIDTH: i32 = 80;
pub const MAP_HEIGHT: i32 = 50;
pub const MIN_ROOM_SIZE: i32 = 6;
pub const MAX_ROOM_SIZE: i32 = 10;

#[derive(Clone, Copy, Debug, PartialEq, Eq, Structural)]
pub enum TileType {
    Wall,
    Floor,
}

/// A width by height tile grid. Tile `(x, y)` sits at index `y * width + x`
/// in each of the parallel vectors.
pub struct GameMap {
    pub tiles: Vec<TileType>,
    pub rooms: Vec<Rect>,
    pub width: i32,
    pub height: i32,
    pub revealed_tiles: Vec<bool>,
    pub visible_tiles: Vec<bool>,
    pub blocked: Vec<bool>,
    pub tile_content: Vec<Vec<usize>>,
}

/// Column of linear index `i` on a grid `w` tiles wide.
pub open spec fn col(i: int, w: int) -> int {
    i % w
}

/// Row of linear index `i` on a grid `w` tiles wide.
pub open spec fn row(i: int, w: int) -> int {
    i / w
}

/// Every tile of the run from `a` to `b` (either order) along row `y` is Floor.
pub open spec fn h_run_floor(m: GameMap, y: int, a: int, b: int) -> bool {
    forall|i: int|
        0 <= i < m.tiles@.len() && row(i, m.width as int) == y && (a <= col(i, m.width as int) <= b
            || b <= col(i, m.width as int) <= a) ==> #[trigger] m.tiles@[i] == TileType::Floor
}

/// Every tile of the run from `a` to `b` (either order) along column `x` is Floor.
pub open spec fn v_run_floor(m: GameMap, x: int, a: int, b: int) -> bool {
    forall|i: int|
        0 <= i < m.tiles@.len() && col(i, m.width as int) == x && (a <= row(i, m.width as int) <= b
            || b <= row(i, m.width as int) <= a) ==> #[trigger] m.tiles@[i] == TileType::Floor
}

/// An L-shaped run of Floor joins `p` to `q`: along a row then a column, or
/// along a column then a row.
pub open spec fn l_corridor(m: GameMap, p: (int, int), q: (int, int)) -> bool {
    (h_run_floor(m, p.1, p.0, q.0) && v_run_floor(m, q.0, p.1, q.1)) || (v_run_floor(
        m,
        p.0,
        p.1,
        q.1,
    ) && h_run_floor(m, q.1, p.0, q.0))
}

impl GameMap {
    pub open spec fn wf(self) -> bool {
        &&& 1 <= self.width <= 1000
        &&& 1 <= self.height <= 1000
        &&& self.tiles@.len() == self.width * self.height
        &&& self.revealed_tiles@.len() == self.tiles@.len()
        &&& self.visible_tiles@.len() == self.tiles@.len()
        &&& self.blocked@.len() == self.tiles@.len()
        &&& self.tile_content@.len() == self.tiles@.len()
    }

    pub open spec fn in_bounds(self, x: int, y: int) -> bool {
        0 <= x < self.width && 0 <= y < self.height
    }

    pub open spec fn idx(self, x: int, y: int) -> int {
        y * self.width + x
    }

    pub open spec fn tile_at(self, x: int, y: int) -> TileType {
        self.tiles@[self.idx(x, y)]
    }

    /// A room that lies inside the grid, rim included.
    pub open spec fn room_fits(self, r: Rect) -> bool {
        0 <= r.x1 <= r.x2 < self.width && 0 <= r.y1 <= r.y2 < self.height
    }

    /// Every interior tile of the room is Floor.
    pub open spec fn room_carved(self, r: Rect) -> bool {
        forall|i: int|
            0 <= i < self.tiles@.len() && r.interior_contains(
                col(i, self.width as int),
                row(i, self.width as int),
            ) ==> #[trigger] self.tiles@[i] == TileType::Floor
    }

    /// Tiles that were Floor are still Floor.
    pub open spec fn keeps_floor(self, later: GameMap) -> bool {
        &&& later.tiles@.len() == self.tiles@.len()
        &&& forall|i: int|
            0 <= i < self.tiles@.len() && self.tiles@[i] == TileType::Floor
                ==> #[trigger] later.tiles@[i] == TileType::Floor
    }

    /// The generation laws: rooms fit, no two rooms overlap, every room's
    /// interior is Floor, and each room is joined to the one before it by an
    /// L-shaped Floor corridor between their centers.
    pub open spec fn layout_ok(self) -> bool {
        &&& forall|k: int| 0 <= k < self.rooms@.len() ==> self.room_fits(#[trigger] self.rooms@[k])
        &&& forall|j: int, k: int|
            0 <= j < k < self.rooms@.len() ==> !(#[trigger] self.rooms@[j]).overlaps(
                #[trigger] self.rooms@[k],
            )
        &&& forall|k: int| 0 <= k < self.rooms@.len() ==> self.room_carved(#[trigger] self.rooms@[k])
        &&& forall|k: int|
            1 <= k < self.rooms@.len() ==> l_corridor(
                self,
                self.rooms@[k - 1].center_spec(),
                (#[trigger] self.rooms@[k]).center_spec(),
            )
    }

    /// A map of walls only, with no rooms.
    pub fn new(width: i32, height: i32) -> (m: GameMap)
        requires
            1 <= width <= 1000,
            1 <= height <= 1000,
        ensures
            m.wf(),
            m.width == width,
            m.height == height,
            m.rooms@.len() == 0,
            forall|i: int| 0 <= i < m.tiles@.len() ==> #[trigger] m.tiles@[i] == TileType::Wall,
            forall|i: int| 0 <= i < m.tiles@.len() ==> !#[trigger] m.revealed_tiles@[i],
            forall|i: int| 0 <= i < m.tiles@.len() ==> !#[trigger] m.visible_tiles@[i],
            forall|i: int| 0 <= i < m.tiles@.len() ==> !#[trigger] m.blocked@[i],
            forall|i: int| 0 <= i < m.tiles@.len() ==> (#[trigger] m.tile_content@[i])@.len() == 0,
    {
        proof {
            lemma_grid_size(width as int, height as int);
        }
        let count: usize = width as usize * height as usize;
        let mut tiles: Vec<TileType> = Vec::new();
        let mut revealed: Vec<bool> = Vec::new();
        let mut visible: Vec<bool> = Vec::new();
        let mut blocked: Vec<bool> = Vec::new();
        let mut content: Vec<Vec<usize>> = Vec::new();
        let mut i: usize = 0;
        while i < count
            invariant
                count == width * height,
                i <= count,
                tiles@.len() == i,
                revealed@.len() == i,
                visible@.len() == i,
                blocked@.len() == i,
                content@.len() == i,
                forall|j: int| 0 <= j < i ==> #[trigger] tiles@[j] == TileType::Wall,
                forall|j: int| 0 <= j < i ==> !#[trigger] revealed@[j],
                forall|j: int| 0 <= j < i ==> !#[trigger] visible@[j],
                forall|j: int| 0 <= j < i ==> !#[trigger] blocked@[j],
                forall|j: int| 0 <= j < i ==> (#[trigger] content@[j])@.len() == 0,
            decreases count - i,
        {
            tiles.push(TileType::Wall);
            revealed.push(false);
            visible.push(false);
            blocked.push(false);
            content.push(Vec::new());
            i = i + 1;
        }
        GameMap {
            tiles,
            rooms: Vec::new(),
            width,
            height,
            revealed_tiles: revealed,
            visible_tiles: visible,
            blocked,
            tile_content: content,
        }
    }

    /// The linear index of an in-bounds tile.
    pub fn xy_idx(&self, x: i32, y: i32) -> (r: usize)
        requires
            self.wf(),
            self.in_bounds(x as int, y as int),
        ensures
            r == self.idx(x as int, y as int),
            r < self.tiles@.len(),
            col(r as int, self.width as int) == x,
            row(r as int, self.width as int) == y,
    {
        proof {
            lemma_idx_in_range(self.width as int, self.height as int, x as int, y as int);
            lemma_grid_size(self.width as int, self.height as int);
        }
        (y as usize) * (self.width as usize) + (x as usize)
    }

    /// True iff the tile is on the map, is Floor, and is not blocked.
    pub fn is_exit_valid(&self, x: i32, y: i32) -> (r: bool)
        requires
            self.wf(),
        ensures
            r == (self.in_bounds(x as int, y as int) && self.tile_at(x as int, y as int)
                == TileType::Floor && !self.blocked@[self.idx(x as int, y as int)]),
    {
        if x < 0 || x >= self.width || y < 0 || y >= self.height {
            return false;
        }
        let idx = self.xy_idx(x, y);
        self.tiles[idx] == TileType::Floor && !self.blocked[idx]
    }

    /// Carves the room's interior to Floor and leaves every other tile as it was.
    pub fn apply_room_to_map(&mut self, room: &Rect)
        requires
            old(self).wf(),
        ensures
            final(self).wf(),
            final(self).width == old(self).width,
            final(self).height == old(self).height,
            final(self).rooms == old(self).rooms,
            final(self).tiles@.len() == old(self).tiles@.len(),
            forall|i: int|
                0 <= i < old(self).tiles@.len() ==> #[trigger] final(self).tiles@[i] == if room.interior_contains(
                    col(i, old(self).width as int),
                    row(i, old(self).width as int),
                ) {
                    TileType::Floor
                } else {
                    old(self).tiles@[i]
                },
    {
        let n = self.tiles.len();
        let w = self.width as usize;
        let mut i: usize = 0;
        while i < n
            invariant
                self.wf(),
                n == self.tiles@.len(),
                w == self.width,
                self.width == old(self).width,
                self.height == old(self).height,
                self.rooms == old(self).rooms,
                self.tiles@.len() == old(self).tiles@.len(),
                i <= n,
                forall|j: int|
                    0 <= j < n ==> #[trigger] self.tiles@[j] == if j < i && room.interior_contains(
                        col(j, w as int),
                        row(j, w as int),
                    ) {
                        TileType::Floor
                    } else {
                        old(self).tiles@[j]
                    },
            decreases n - i,
        {
            proof {
                lemma_col_row_bounds(i as int, w as int, self.height as int);
            }
            let x = (i % w) as i32;
            let y = (i / w) as i32;
            if room.x1 < x && x <= room.x2 && room.y1 < y && y <= room.y2 {
                self.tiles.set(i, TileType::Floor);
            }
            i = i + 1;
        }
    }

    /// Carves row `y` from `x1` to `x2` (either order) to Floor; nothing else changes.
    pub fn apply_horizontal_tunnel(&mut self, x1: i32, x2: i32, y: i32)
        requires
            old(self).wf(),
        ensures
            final(self).wf(),
            final(self).width == old(self).width,
            final(self).height == old(self).height,
            final(self).rooms == old(self).rooms,
            final(self).tiles@.len() == old(self).tiles@.len(),
            forall|i: int|
                0 <= i < old(self).tiles@.len() ==> #[trigger] final(self).tiles@[i] == if row(
                    i,
                    old(self).width as int,
                ) == y && (x1 <= col(i, old(self).width as int) <= x2 || x2 <= col(
                    i,
                    old(self).width as int,
                ) <= x1) {
                    TileType::Floor
                } else {
                    old(self).tiles@[i]
                },
    {
        let n = self.tiles.len();
        let w = self.width as usize;
        let mut i: usize = 0;
        while i < n
            invariant
                self.wf(),
                n == self.tiles@.len(),
                w == self.width,
                self.width == old(self).width,
                self.height == old(self).height,
                self.rooms == old(self).rooms,
                self.tiles@.len() == old(self).tiles@.len(),
                i <= n,
                forall|j: int|
                    0 <= j < n ==> #[trigger] self.tiles@[j] == if j < i && row(j, w as int) == y && (x1
                        <= col(j, w as int) <= x2 || x2 <= col(j, w as int) <= x1) {
                        TileType::Floor
                    } else {
                        old(self).tiles@[j]
                    },
            decreases n - i,
        {
            proof {
                lemma_col_row_bounds(i as int, w as int, self.height as int);
            }
            let x = (i % w) as i32;
            let r = (i / w) as i32;
            if r == y && ((x1 <= x && x <= x2) || (x2 <= x && x <= x1)) {
                self.tiles.set(i, TileType::Floor);
            }
            i = i + 1;
        }
    }

    /// Carves column `x` from `y1` to `y2` (either order) to Floor; nothing else changes.
    pub fn apply_vertical_tunnel(&mut self, y1: i32, y2: i32, x: i32)
        requires
            old(self).wf(),
        ensures
            final(self).wf(),
            final(self).width == old(self).width,
            final(self).height == old(self).height,
            final(self).rooms == old(self).rooms,
            final(self).tiles@.len() == old(self).tiles@.len(),
            forall|i: int|
                0 <= i < old(self).tiles@.len() ==> #[trigger] final(self).tiles@[i] == if col(
                    i,
                    old(self).width as int,
                ) == x && (y1 <= row(i, old(self).width as int) <= y2 || y2 <= row(
                    i,
                    old(self).width as int,
                ) <= y1) {
                    TileType::Floor
                } else {
                    old(self).tiles@[i]
                },
    {
        let n = self.tiles.len();
        let w = self.width as usize;
        let mut i: usize = 0;
        while i < n
            invariant
                self.wf(),
                n == self.tiles@.len(),
                w == self.width,
                self.width == old(self).width,
                self.height == old(self).height,
                self.rooms == old(self).rooms,
                self.tiles@.len() == old(self).tiles@.len(),
                i <= n,
                forall|j: int|
                    0 <= j < n ==> #[trigger] self.tiles@[j] == if j < i && col(j, w as int) == x && (y1
                        <= row(j, w as int) <= y2 || y2 <= row(j, w as int) <= y1) {
                        TileType::Floor
                    } else {
                        old(self).tiles@[j]
                    },
            decreases n - i,
        {
            proof {
                lemma_col_row_bounds(i as int, w as int, self.height as int);
            }
            let c = (i % w) as i32;
            let r = (i / w) as i32;
            if c == x && ((y1 <= r && r <= y2) || (y2 <= r && r <= y1)) {
                self.tiles.set(i, TileType::Floor);
            }
            i = i + 1;
        }
    }

    /// Places up to `target_rooms` non-overlapping rooms on an 80 by 50 map of
    /// walls, trying at most `max_attempts` random placements. Each accepted room
    /// is carved to Floor and, after the first, joined to the previous room's
    /// center by an L-shaped corridor whose bend order is picked at random.
    pub fn new_map_rooms_and_corridors(
        rng: &mut rltk::RandomNumberGenerator,
        target_rooms: usize,
        max_attempts: usize,
    ) -> (m: GameMap)
        ensures
            m.wf(),
            m.width == MAP_WIDTH,
            m.height == MAP_HEIGHT,
            m.layout_ok(),
            m.rooms@.len() <= target_rooms,
            m.rooms@.len() <= max_attempts,
            target_rooms >= 1 && max_attempts >= 1 ==> m.rooms@.len() >= 1,
    {
        let mut map = GameMap::new(MAP_WIDTH, MAP_HEIGHT);
        let mut attempt: usize = 0;
        while attempt < max_attempts && map.rooms.len() < target_rooms
            invariant
                map.wf(),
                map.width == MAP_WIDTH,
                map.height == MAP_HEIGHT,
                map.layout_ok(),
                map.rooms@.len() <= target_rooms,
                map.rooms@.len() <= attempt <= max_attempts,
                attempt >= 1 && target_rooms >= 1 ==> map.rooms@.len() >= 1,
            decreases max_attempts - attempt,
        {
            attempt = attempt + 1;
            let w = roll_dice(rng, 1, MAX_ROOM_SIZE - MIN_ROOM_SIZE + 1) + MIN_ROOM_SIZE - 1;
            let h = roll_dice(rng, 1, MAX_ROOM_SIZE - MIN_ROOM_SIZE + 1) + MIN_ROOM_SIZE - 1;
            let x = roll_dice(rng, 1, MAP_WIDTH - w - 1) - 1;
            let y = roll_dice(rng, 1, MAP_HEIGHT - h - 1) - 1;
            let new_room = Rect::new(x, y, w, h);
            let mut ok = true;
            let mut k: usize = 0;
            while k < map.rooms.len()
                invariant
                    k <= map.rooms@.len(),
                    ok == forall|j: int| 0 <= j < k ==> !new_room.overlaps(#[trigger] map.rooms@[j]),
                decreases map.rooms@.len() - k,
            {
                if new_room.intersect(&map.rooms[k]) {
                    ok = false;
                }
                k = k + 1;
            }
            if ok {
                let ghost m0 = map;
                map.apply_room_to_map(&new_room);
                proof {
                    lemma_keeps_floor(m0, map);
                }
                let n = map.rooms.len();
                if n > 0 {
                    let (new_x, new_y) = new_room.center();
                    let (prev_x, prev_y) = map.rooms[n - 1].center();
                    let ghost m1 = map;
                    if roll_dice(rng, 1, 2) == 1 {
                        map.apply_horizontal_tunnel(prev_x, new_x, prev_y);
                        let ghost m2 = map;
                        map.apply_vertical_tunnel(prev_y, new_y, new_x);
                        proof {
                            lemma_keeps_floor(m1, m2);
                            lemma_keeps_floor(m2, map);
                            lemma_keeps_floor_trans(m0, m1, m2);
                            lemma_keeps_floor_trans(m0, m2, map);
                            assert(h_run_floor(m2, prev_y as int, prev_x as int, new_x as int));
                            assert(v_run_floor(map, new_x as int, prev_y as int, new_y as int));
                        }
                    } else {
                        map.apply_vertical_tunnel(prev_y, new_y, prev_x);
                        let ghost m2 = map;
                        map.apply_horizontal_tunnel(prev_x, new_x, new_y);
                        proof {
                            lemma_keeps_floor(m1, m2);
                            lemma_keeps_floor(m2, map);
                            lemma_keeps_floor_trans(m0, m1, m2);
                            lemma_keeps_floor_trans(m0, m2, map);
                            assert(v_run_floor(m2, prev_x as int, prev_y as int, new_y as int));
                            assert(h_run_floor(map, new_y as int, prev_x as int, new_x as int));
                        }
                    }
                }
                let ghost m3 = map;
                map.rooms.push(new_room);
                proof {
                    assert(m0.keeps_floor(m3));
                    assert(map.rooms@.last() == new_room);
                    assert forall|j: int, k: int|
                        0 <= j < k < map.rooms@.len() implies !(#[trigger] map.rooms@[j]).overlaps(
                            #[trigger] map.rooms@[k],
                        ) by {
                        if k < n {
                            assert(map.rooms@[j] == m0.rooms@[j]);
                            assert(map.rooms@[k] == m0.rooms@[k]);
                        } else {
                            assert(map.rooms@[j] == m0.rooms@[j]);
                            assert(!new_room.overlaps(m0.rooms@[j]));
                        }
                    }
                    assert forall|k: int| 0 <= k < map.rooms@.len() implies map.room_carved(
                        #[trigger] map.rooms@[k],
                    ) by {
                        if k < n {
                            assert(m0.room_carved(m0.rooms@[k]));
                        }
                    }
                    assert forall|k: int|
                        1 <= k < map.rooms@.len() implies l_corridor(
                        map,
                        map.rooms@[k - 1].center_spec(),
                        (#[trigger] map.rooms@[k]).center_spec(),
                    ) by {
                        if k < n {
                            assert(l_corridor(m0, m0.rooms@[k - 1].center_spec(), m0.rooms@[k].center_spec()));
                        }
                    }
                }
            }
        }
        map
    }
}

/// A change that keeps every Floor tile keeps carved rooms carved and
/// corridors open.
pub proof fn lemma_keeps_floor(a: GameMap, b: GameMap)
    requires
        a.width == b.width,
        b.tiles@.len() == a.tiles@.len(),
        forall|i: int|
            0 <= i < a.tiles@.len() ==> #[trigger] b.tiles@[i] == TileType::Floor || b.tiles@[i]
                == a.tiles@[i],
    ensures
        a.keeps_floor(b),
        forall|r: Rect| a.room_carved(r) ==> #[trigger] b.room_carved(r),
        forall|y: int, p: int, q: int| h_run_floor(a, y, p, q) ==> #[trigger] h_run_floor(b, y, p, q),
        forall|x: int, p: int, q: int| v_run_floor(a, x, p, q) ==> #[trigger] v_run_floor(b, x, p, q),
        forall|p: (int, int), q: (int, int)| l_corridor(a, p, q) ==> #[trigger] l_corridor(b, p, q),
{
    assert forall|r: Rect| a.room_carved(r) implies #[trigger] b.room_carved(r) by {
        assert forall|i: int|
            0 <= i < b.tiles@.len() && r.interior_contains(col(i, b.width as int), row(i, b.width as int))
            implies #[trigger] b.tiles@[i] == TileType::Floor by {
            assert(a.tiles@[i] == TileType::Floor);
        }
    }
    assert forall|y: int, p: int, q: int| h_run_floor(a, y, p, q) implies #[trigger] h_run_floor(b, y, p, q) by {
        assert forall|i: int|
            0 <= i < b.tiles@.len() && row(i, b.width as int) == y && (p <= col(i, b.width as int) <= q
                || q <= col(i, b.width as int) <= p) implies #[trigger] b.tiles@[i] == TileType::Floor by {
            assert(a.tiles@[i] == TileType::Floor);
        }
    }
    assert forall|x: int, p: int, q: int| v_run_floor(a, x, p, q) implies #[trigger] v_run_floor(b, x, p, q) by {
        assert forall|i: int|
            0 <= i < b.tiles@.len() && col(i, b.width as int) == x && (p <= row(i, b.width as int) <= q
                || q <= row(i, b.width as int) <= p) implies #[trigger] b.tiles@[i] == TileType::Floor by {
            assert(a.tiles@[i] == TileType::Floor);
        }
    }
    assert forall|p: (int, int), q: (int, int)| l_corridor(a, p, q) implies #[trigger] l_corridor(b, p, q) by {
        if h_run_floor(a, p.1, p.0, q.0) {
            assert(h_run_floor(b, p.1, p.0, q.0));
        }
        if v_run_floor(a, q.0, p.1, q.1) {
            assert(v_run_floor(b, q.0, p.1, q.1));
        }
        if v_run_floor(a, p.0, p.1, q.1) {
            assert(v_run_floor(b, p.0, p.1, q.1));
        }
        if h_run_floor(a, q.1, p.0, q.0) {
            assert(h_run_floor(b, q.1, p.0, q.0));
        }
    }
}

/// Keeping Floor tiles composes.
pub proof fn lemma_keeps_floor_trans(a: GameMap, b: GameMap, c: GameMap)
    requires
        a.keeps_floor(b),
        b.keeps_floor(c),
        a.width == b.width,
        b.width == c.width,
    ensures
        a.keeps_floor(c),
        forall|r: Rect| a.room_carved(r) ==> #[trigger] c.room_carved(r),
        forall|p: (int, int), q: (int, int)| l_corridor(a, p, q) ==> #[trigger] l_corridor(c, p, q),
{
    lemma_keeps_floor(a, c);
}

/// A grid of at most 1000 by 1000 tiles has at least one and at most a
/// million tiles.
pub proof fn lemma_grid_size(w: int, h: int)
    requires
        1 <= w <= 1000,
        1 <= h <= 1000,
    ensures
        1 <= w * h <= 1_000_000,
{
    assert(1 <= w * h <= 1_000_000) by (nonlinear_arith)
        requires
            1 <= w <= 1000,
            1 <= h <= 1000,
    ;
}

/// The column and row of an index on a grid of at most 1000 by 1000 tiles
/// are small numbers.
pub proof fn lemma_col_row_bounds(i: int, w: int, h: int)
    requires
        1 <= w <= 1000,
        1 <= h <= 1000,
        0 <= i < w * h,
    ensures
        0 <= i % w < w,
        0 <= i / w < h,
        w * h <= 1_000_000,
{
    assert(w * h <= 1_000_000) by (nonlinear_arith)
        requires
            1 <= w <= 1000,
            1 <= h <= 1000,
    ;
    vstd::arithmetic::div_mod::lemma_mod_pos_bound(i, w);
    vstd::arithmetic::div_mod::lemma_div_pos_is_pos(i, w);
    vstd::arithmetic::div_mod::lemma_fundamental_div_mod(i, w);
    assert(i / w < h) by (nonlinear_arith)
        requires
            i == w * (i / w) + i % w,
            0 <= i % w,
            i < w * h,
            1 <= w,
    ;
}

/// An in-bounds tile's index lies on the grid, and its column and row give
/// back the coordinates.
pub proof fn lemma_idx_in_range(w: int, h: int, x: int, y: int)
    requires
        1 <= w,
        0 <= x < w,
        0 <= y < h,
    ensures
        0 <= y * w + x < w * h,
        (y * w + x) % w == x,
        (y * w + x) / w == y,
{
    assert(0 <= y * w + x < w * h) by (nonlinear_arith)
        requires
            1 <= w,
            0 <= x < w,
            0 <= y < h,
    ;
    vstd::arithmetic::div_mod::lemma_fundamental_div_mod_converse(y * w + x, w, y, x);
}

} // verus!
