use vstd::prelude::*;
use crate::map::TileType;
use crate::world::{tags_same, World};

verus! {

/// The blocked law: a tile is blocked iff it is a Wall or a live entity that
/// blocks tiles stands on it.
pub open spec fn blocked_spec(w: World, idx: int) -> bool {
    w.map.tiles@[idx] == TileType::Wall || exists|e: int|
        0 <= e < w.count() && #[trigger] w.occupies(e, idx) && w.blocks_tile@[e]
}

/// Everything but the map's derived arrays is as it was.
pub open spec fn same_but_index(a: World, b: World) -> bool {
    &&& tags_same(a, b)
    &&& b.map.tiles == a.map.tiles
    &&& b.map.rooms == a.map.rooms
    &&& b.map.width == a.map.width
    &&& b.map.height == a.map.height
    &&& b.map.revealed_tiles == a.map.revealed_tiles
    &&& b.map.visible_tiles == a.map.visible_tiles
    &&& b.alive == a.alive
    &&& b.positions == a.positions
    &&& b.viewsheds == a.viewsheds
    &&& b.combat_stats == a.combat_stats
    &&& b.blocks_tile == a.blocks_tile
    &&& b.monsters == a.monsters
    &&& b.players == a.players
    &&& b.confusion == a.confusion
    &&& b.wants_to_melee == a.wants_to_melee
    &&& b.suffer_damage == a.suffer_damage
    &&& b.dead == a.dead
    &&& b.log == a.log
    &&& b.player_pos == a.player_pos
    &&& b.player_entity == a.player_entity
}

/// What spatial indexing guarantees, from `a` to `b`.
pub open spec fn index_post(a: World, b: World) -> bool {
    &&& b.wf()
    &&& same_but_index(a, b)
    &&& forall|i: int|
        0 <= i < b.map.tiles@.len() ==> #[trigger] b.map.blocked@[i]
            == blocked_spec(a, i)
    &&& forall|i: int, e: usize|
        0 <= i < b.map.tiles@.len() ==> (#[trigger] b.map.tile_content@[i]@.contains(e)
            == (e < a.count() && a.occupies(e as int, i)))
    &&& forall|i: int| 0 <= i < b.map.tiles@.len() ==> (#[trigger] b.map.tile_content@[i])@.no_duplicates()
}

impl World {
    /// The spatial indexing system: rebuilds `blocked` and the per-tile
    /// occupant lists from scratch out of the current positions.
    pub fn map_indexing(&mut self)
        requires
            old(self).wf(),
        ensures
            index_post(*old(self), *final(self)),
    {
        let len = self.map.tiles.len();
        let n = self.alive.len();
        let mut i: usize = 0;
        while i < len
            invariant
                self.wf(),
                same_but_index(*old(self), *self),
                len == self.map.tiles@.len(),
                n == self.count(),
                i <= len,
                forall|k: int| 0 <= k < i ==> #[trigger] self.map.blocked@[k] == blocked_spec(*old(self), k),
                forall|k: int, e: usize|
                    0 <= k < i ==> (#[trigger] self.map.tile_content@[k]@.contains(e) == (e < n
                        && old(self).occupies(e as int, k))),
                forall|k: int| 0 <= k < i ==> (#[trigger] self.map.tile_content@[k])@.no_duplicates(),
            decreases len - i,
        {
            let mut blocked = self.map.tiles[i] == TileType::Wall;
            let mut content: Vec<usize> = Vec::new();
            let mut j: usize = 0;
            while j < n
                invariant
                    self.wf(),
                    same_but_index(*old(self), *self),
                    len == self.map.tiles@.len(),
                    n == self.count(),
                    i < len,
                    j <= n,
                    blocked == (self.map.tiles@[i as int] == TileType::Wall || exists|e: int|
                        0 <= e < j && #[trigger] old(self).occupies(e, i as int) && self.blocks_tile@[e]),
                    forall|e: usize|
                        #[trigger] content@.contains(e) == (e < j && old(self).occupies(e as int, i as int)),
                    content@.no_duplicates(),
                decreases n - j,
            {
                let here = match self.positions[j] {
                    Some(p) => self.alive[j] && self.map.xy_idx(p.x, p.y) == i,
                    None => false,
                };
                proof {
                    assert(here == old(self).occupies(j as int, i as int));
                }
                if here {
                    proof {
                        let c = content@;
                        assert forall|e: usize| #[trigger] c.push(j).contains(e) == (c.contains(e) || e
                            == j) by {
                            if e == j {
                                assert(c.push(j)[c.len() as int] == j);
                            }
                            if c.contains(e) {
                                let q = choose|q: int| 0 <= q < c.len() && c[q] == e;
                                assert(c.push(j)[q] == e);
                            }
                            if c.push(j).contains(e) {
                                let q = choose|q: int| 0 <= q < c.len() + 1 && c.push(j)[q] == e;
                                if q < c.len() {
                                    assert(c[q] == e);
                                }
                            }
                        }
                        assert(!c.contains(j));
                        assert forall|a: int, b: int| 0 <= a < b < c.push(j).len() implies c.push(j)[a]
                            != c.push(j)[b] by {
                            if b == c.len() {
                                assert(c.contains(c[a]));
                            }
                        }
                    }
                    content.push(j);
                    if self.blocks_tile[j] {
                        blocked = true;
                    }
                }
                j = j + 1;
            }
            self.map.blocked.set(i, blocked);
            self.map.tile_content.set(i, content);
            i = i + 1;
        }
    }
}

} // verus!
