use vstd::prelude::*;
use crate::tiles::{TileType, walkable, opaque, tile_opaque, tile_walkable};

verus! {

/// One level: its terrain, what the player has seen of it, and its decorations.
pub struct GameMap {
    pub tiles: Vec<TileType>,
    pub width: i32,
    pub height: i32,
    pub revealed_tiles: Vec<bool>,
    pub visible_tiles: Vec<bool>,
    pub depth: i32,
    /// One flag per tile: the tile carries a bloodstain.
    pub bloodstains: Vec<bool>,
    /// One flag per tile: something on the tile (a closed door) blocks sight.
    pub view_blocked: Vec<bool>,
    pub name: String,
    pub outdoors: bool,
}

/// A flat index of a `w` by `h` level names the tile at column `i % w`, row `i / w`.
pub proof fn lemma_index_coords(w: int, h: int, i: int)
    requires
        0 < w,
        0 <= i < w * h,
    ensures
        0 <= i % w < w,
        0 <= i / w < h,
        (i / w) * w + i % w == i,
{
    vstd::arithmetic::div_mod::lemma_fundamental_div_mod(i, w);
    vstd::arithmetic::div_mod::lemma_mod_pos_bound(i, w);
    vstd::arithmetic::div_mod::lemma_div_pos_is_pos(i, w);
    let q = i / w;
    let r = i % w;
    assert(q < h) by (nonlinear_arith)
        requires
            i == w * q + r,
            0 <= r,
            i < w * h,
            0 < w,
    ;
    assert(q * w + r == i) by (nonlinear_arith)
        requires
            i == w * q + r,
    ;
}

impl GameMap {
    /// Number of tiles of a `width` by `height` level.
    pub open spec fn tile_count(&self) -> int {
        self.width * self.height
    }

    /// Every per-tile buffer has one entry per tile, and the tile count fits the index type
    /// that the path search uses.
    pub open spec fn wf(&self) -> bool {
        &&& 0 <= self.width
        &&& 0 <= self.height
        &&& self.width * self.height <= u32::MAX
        &&& self.tiles.len() == self.tile_count()
        &&& self.revealed_tiles.len() == self.tile_count()
        &&& self.visible_tiles.len() == self.tile_count()
        &&& self.bloodstains.len() == self.tile_count()
        &&& self.view_blocked.len() == self.tile_count()
    }

    /// A level of solid wall, nothing revealed, nothing visible, lit outdoors.
    pub fn new(new_depth: i32, width: i32, height: i32, name: String) -> (m: GameMap)
        requires
            0 <= width,
            0 <= height,
            width * height <= u32::MAX,
        ensures
            m.wf(),
            m.width == width,
            m.height == height,
            m.depth == new_depth,
            m.name@ == name@,
            m.outdoors,
            forall|i: int| 0 <= i < m.tile_count() ==> m.tiles[i] == TileType::Wall,
            forall|i: int| 0 <= i < m.tile_count() ==> !m.revealed_tiles[i],
            forall|i: int| 0 <= i < m.tile_count() ==> !m.visible_tiles[i],
            forall|i: int| 0 <= i < m.tile_count() ==> !m.bloodstains[i],
            forall|i: int| 0 <= i < m.tile_count() ==> !m.view_blocked[i],
    {
        proof {
            assert(0 <= width * height) by (nonlinear_arith)
                requires
                    0 <= width,
                    0 <= height,
            ;
        }
        let count = (width as usize) * (height as usize);
        GameMap {
            tiles: vec![TileType::Wall; count],
            width,
            height,
            revealed_tiles: vec![false; count],
            visible_tiles: vec![false; count],
            depth: new_depth,
            bloodstains: vec![false; count],
            view_blocked: vec![false; count],
            name,
            outdoors: true,
        }
    }

    /// Flat index of the tile at column `x`, row `y`.
    pub fn xy_idx(&self, x: i32, y: i32) -> (r: usize)
        requires
            self.wf(),
            0 <= x < self.width,
            0 <= y < self.height,
        ensures
            r as int == y * self.width + x,
            r < self.tile_count(),
    {
        proof {
            assert(0 <= y * self.width + x < self.width * self.height) by (nonlinear_arith)
                requires
                    0 <= x < self.width,
                    0 <= y < self.height,
            ;
        }
        (y as usize) * (self.width as usize) + (x as usize)
    }

    /// Width and height of the level.
    pub fn dimensions(&self) -> (r: (i32, i32))
        ensures
            r == (self.width, self.height),
    {
        (self.width, self.height)
    }

    /// Whether sight stops at tile `idx`: its terrain is opaque or something on it blocks
    /// sight. Indices past the end count as opaque.
    pub fn is_opaque(&self, idx: usize) -> (r: bool)
        requires
            self.wf(),
        ensures
            r == (if idx < self.tiles.len() {
                opaque(self.tiles[idx as int]) || self.view_blocked[idx as int]
            } else {
                true
            }),
    {
        if idx < self.tiles.len() {
            tile_opaque(self.tiles[idx]) || self.view_blocked[idx]
        } else {
            true
        }
    }

    /// One flag per tile: the terrain cannot be walked on.
    pub fn terrain_blocked(&self) -> (r: Vec<bool>)
        requires
            self.wf(),
        ensures
            r.len() == self.tiles.len(),
            forall|i: int| 0 <= i < r.len() ==> r[i] == !walkable(self.tiles[i]),
    {
        let mut r: Vec<bool> = Vec::new();
        let mut i: usize = 0;
        while i < self.tiles.len()
            invariant
                i <= self.tiles.len(),
                r.len() == i,
                forall|k: int| 0 <= k < i ==> r[k] == !walkable(self.tiles[k]),
            decreases self.tiles.len() - i,
        {
            r.push(!tile_walkable(self.tiles[i]));
            i = i + 1;
        }
        r
    }
}

} // verus!
