//! Tile classifications and the tile map.

use vstd::prelude::*;

verus! {

/// How a tile treats the units on it.
#[derive(Clone, Copy, Debug, PartialEq, Eq, Structural)]
pub enum TileType {
    /// Units cannot move onto the tile.
    Prohibited,
    /// The tile heals units standing on it.
    Heal,
    /// The tile damages units standing on it.
    Damage,
    /// Units can move onto the tile.
    Allowed,
}

impl TileType {
    /// Every kind but `Prohibited` lets units in.
    pub fn allowed(&self) -> (r: bool)
        ensures
            r == (*self != TileType::Prohibited),
    {
        match self {
            TileType::Prohibited => false,
            _ => true,
        }
    }
}

/// Number of distinct tile ids.
pub const N_TILE_IDS: usize = 256;

/// Map data: the tiles, the classification of tile ids, and the map's texts.
pub struct TileMap {
    pub map_width: usize,
    pub map_height: usize,
    /// Tile ids, row by row: the tile `(x, y)` is at `y * map_width + x`.
    pub map_tiles: Vec<u8>,
    /// Classification of each tile id, indexed by the id.
    pub tile_perm: Vec<TileType>,
    pub title: String,
    /// Text shown before the map begins.
    pub intro_text: String,
    /// Text shown when the player wins.
    pub victory_text: String,
    /// Text shown when the player loses.
    pub defeat_text: String,
    /// Tile data has been loaded.
    pub show: bool,
}

/// A table of `N_TILE_IDS` entries of `Allowed`.
pub fn all_allowed() -> (r: Vec<TileType>)
    ensures
        r@.len() == N_TILE_IDS,
        forall|i: int| 0 <= i < N_TILE_IDS ==> r@[i] == TileType::Allowed,
{
    let mut v: Vec<TileType> = Vec::new();
    while v.len() < N_TILE_IDS
        invariant
            v@.len() <= N_TILE_IDS,
            forall|i: int| 0 <= i < v@.len() ==> v@[i] == TileType::Allowed,
        decreases N_TILE_IDS - v@.len(),
    {
        v.push(TileType::Allowed);
    }
    v
}

impl TileMap {
    /// A map without tiles or texts, hidden.
    pub fn empty() -> (r: TileMap)
        ensures
            r.wf(),
            r.map_width == 0,
            r.map_height == 0,
            r.map_tiles@.len() == 0,
            forall|i: int| 0 <= i < N_TILE_IDS ==> r.tile_perm@[i] == TileType::Allowed,
            r.title@.len() == 0,
            r.intro_text@.len() == 0,
            r.victory_text@.len() == 0,
            r.defeat_text@.len() == 0,
            !r.show,
    {
        TileMap {
            map_width: 0,
            map_height: 0,
            map_tiles: Vec::new(),
            tile_perm: all_allowed(),
            title: String::new(),
            intro_text: String::new(),
            victory_text: String::new(),
            defeat_text: String::new(),
            show: false,
        }
    }

    /// One classification per tile id, one tile per cell, at most 255
    /// cells a side.
    pub open spec fn wf(&self) -> bool {
        &&& self.tile_perm@.len() == N_TILE_IDS
        &&& self.map_width <= 255
        &&& self.map_height <= 255
        &&& self.map_tiles@.len() == self.map_width * self.map_height
    }

    /// Classification of the tile at `(x, y)`: `Prohibited` for negative
    /// coordinates and on a map without tiles; otherwise the tile is found
    /// at `(y * width + x)` modulo the number of tiles.
    pub open spec fn type_at(&self, x: int, y: int) -> TileType {
        if x < 0 || y < 0 || self.map_tiles@.len() == 0 {
            TileType::Prohibited
        } else {
            let idx = (y * self.map_width + x) % (self.map_tiles@.len() as int);
            self.tile_perm@[self.map_tiles@[idx] as int]
        }
    }

    /// Classification of the tile at `(x, y)`.
    pub fn tile_type_at(&self, x: i32, y: i32) -> (r: TileType)
        requires
            self.wf(),
        ensures
            r == self.type_at(x as int, y as int),
    {
        if x < 0 || y < 0 || self.map_tiles.len() == 0 {
            return TileType::Prohibited;
        }
        proof {
            assert(y as int * self.map_width as int <= 0x8000_0000 * 256) by (nonlinear_arith)
                requires 0 <= y <= 0x8000_0000int, 0 <= self.map_width <= 255;
        }
        let idx = ((y as u64) * (self.map_width as u64) + (x as u64)) % (self.map_tiles.len() as u64);
        let t = self.map_tiles[idx as usize];
        self.tile_perm[t as usize]
    }
}

} // verus!
