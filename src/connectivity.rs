use vstd::prelude::*;
use crate::map::{h_run_floor, l_corridor, lemma_idx_in_range, v_run_floor, GameMap, TileType};

verus! {

pub open spec fn is_floor(m: GameMap, p: (int, int)) -> bool {
    m.in_bounds(p.0, p.1) && m.tile_at(p.0, p.1) == TileType::Floor
}

/// One orthogonal step apart.
pub open spec fn adjacent(a: (int, int), b: (int, int)) -> bool {
    (a.0 == b.0 && (a.1 - b.1 == 1 || b.1 - a.1 == 1)) || (a.1 == b.1 && (a.0 - b.0 == 1 || b.0
        - a.0 == 1))
}

/// `path` walks from `a` to `b` over Floor tiles, one orthogonal step at a time.
pub open spec fn floor_walk(m: GameMap, path: Seq<(int, int)>, a: (int, int), b: (int, int)) -> bool {
    &&& path.len() >= 1
    &&& path[0] == a
    &&& path[path.len() - 1] == b
    &&& forall|i: int| 0 <= i < path.len() ==> is_floor(m, #[trigger] path[i])
    &&& forall|i: int| 0 <= i < path.len() - 1 ==> adjacent(#[trigger] path[i], path[i + 1])
}

/// Some walk over Floor tiles joins `a` to `b`.
pub open spec fn floor_connected(m: GameMap, a: (int, int), b: (int, int)) -> bool {
    exists|path: Seq<(int, int)>| floor_walk(m, path, a, b)
}

/// The tiles of row `y` from `a` to `b`, in order.
pub open spec fn row_path(y: int, a: int, b: int) -> Seq<(int, int)> {
    if a <= b {
        Seq::new((b - a + 1) as nat, |i: int| (a + i, y))
    } else {
        Seq::new((a - b + 1) as nat, |i: int| (a - i, y))
    }
}

/// The tiles of column `x` from `a` to `b`, in order.
pub open spec fn col_path(x: int, a: int, b: int) -> Seq<(int, int)> {
    if a <= b {
        Seq::new((b - a + 1) as nat, |i: int| (x, a + i))
    } else {
        Seq::new((a - b + 1) as nat, |i: int| (x, a - i))
    }
}

proof fn lemma_row_walk(m: GameMap, y: int, a: int, b: int)
    requires
        m.wf(),
        m.in_bounds(a, y),
        m.in_bounds(b, y),
        h_run_floor(m, y, a, b),
    ensures
        floor_walk(m, row_path(y, a, b), (a, y), (b, y)),
{
    let path = row_path(y, a, b);
    assert forall|i: int| 0 <= i < path.len() implies is_floor(m, #[trigger] path[i]) by {
        let p = path[i];
        lemma_idx_in_range(m.width as int, m.height as int, p.0, p.1);
        assert(m.tiles@[m.idx(p.0, p.1)] == TileType::Floor);
    }
}

proof fn lemma_col_walk(m: GameMap, x: int, a: int, b: int)
    requires
        m.wf(),
        m.in_bounds(x, a),
        m.in_bounds(x, b),
        v_run_floor(m, x, a, b),
    ensures
        floor_walk(m, col_path(x, a, b), (x, a), (x, b)),
{
    let path = col_path(x, a, b);
    assert forall|i: int| 0 <= i < path.len() implies is_floor(m, #[trigger] path[i]) by {
        let p = path[i];
        lemma_idx_in_range(m.width as int, m.height as int, p.0, p.1);
        assert(m.tiles@[m.idx(p.0, p.1)] == TileType::Floor);
    }
}

/// Two walks that meet join up.
pub proof fn lemma_walk_concat(
    m: GameMap,
    p: Seq<(int, int)>,
    q: Seq<(int, int)>,
    a: (int, int),
    b: (int, int),
    c: (int, int),
)
    requires
        floor_walk(m, p, a, b),
        floor_walk(m, q, b, c),
    ensures
        floor_walk(m, p + q.skip(1), a, c),
{
    let r = p + q.skip(1);
    assert forall|i: int| 0 <= i < r.len() implies is_floor(m, #[trigger] r[i]) by {
        if i >= p.len() {
            assert(r[i] == q[i - p.len() + 1]);
        }
    }
    assert forall|i: int| 0 <= i < r.len() - 1 implies adjacent(#[trigger] r[i], r[i + 1]) by {
        if i < p.len() - 1 {
            assert(r[i] == p[i] && r[i + 1] == p[i + 1]);
        } else if i == p.len() - 1 {
            assert(r[i] == b && r[i + 1] == q[1]);
            assert(adjacent(q[0], q[1]));
        } else {
            assert(r[i] == q[i - p.len() + 1]);
            assert(r[i + 1] == q[i - p.len() + 2]);
        }
    }
    if q.len() == 1 {
        assert(r =~= p);
    } else {
        assert(r[r.len() - 1] == q[q.len() - 1]);
    }
}

/// An L-shaped Floor corridor between two tiles on the map is a walk.
pub proof fn lemma_corridor_connects(m: GameMap, p: (int, int), q: (int, int))
    requires
        m.wf(),
        m.in_bounds(p.0, p.1),
        m.in_bounds(q.0, q.1),
        l_corridor(m, p, q),
    ensures
        floor_connected(m, p, q),
{
    if h_run_floor(m, p.1, p.0, q.0) && v_run_floor(m, q.0, p.1, q.1) {
        lemma_row_walk(m, p.1, p.0, q.0);
        lemma_col_walk(m, q.0, p.1, q.1);
        lemma_walk_concat(m, row_path(p.1, p.0, q.0), col_path(q.0, p.1, q.1), p, (q.0, p.1), q);
    } else {
        lemma_col_walk(m, p.0, p.1, q.1);
        lemma_row_walk(m, q.1, p.0, q.0);
        lemma_walk_concat(m, col_path(p.0, p.1, q.1), row_path(q.1, p.0, q.0), p, (p.0, q.1), q);
    }
}

/// Connectivity of a generated layout: the centers of any two rooms are
/// joined by a walk over Floor tiles.
pub proof fn lemma_rooms_connected(m: GameMap, j: int, k: int)
    requires
        m.wf(),
        m.layout_ok(),
        0 <= j < k < m.rooms@.len(),
    ensures
        floor_connected(m, m.rooms@[j].center_spec(), m.rooms@[k].center_spec()),
    decreases k - j,
{
    let a = m.rooms@[k - 1];
    let b = m.rooms@[k];
    assert(m.room_fits(a) && m.room_fits(b));
    assert(l_corridor(m, a.center_spec(), b.center_spec()));
    lemma_corridor_connects(m, a.center_spec(), b.center_spec());
    if j < k - 1 {
        lemma_rooms_connected(m, j, k - 1);
        let p = choose|p: Seq<(int, int)>| floor_walk(m, p, m.rooms@[j].center_spec(), a.center_spec());
        let q = choose|q: Seq<(int, int)>| floor_walk(m, q, a.center_spec(), b.center_spec());
        lemma_walk_concat(m, p, q, m.rooms@[j].center_spec(), a.center_spec(), b.center_spec());
    }
}

} // verus!
