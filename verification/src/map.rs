//! The tile map of the game world.

use vstd::prelude::*;

verus! {

/// The kind of a tile.
#[derive(Debug, Clone, Copy, PartialEq, Eq)]
pub enum GameTileType {
    Unknown,
    Floor,
    Obstacle,
    Water,
}

/// Whether a tile kind is one of the known kinds (every kind but `Unknown`).
pub open spec fn is_known_tile_type(t: GameTileType) -> bool {
    !(t is Unknown)
}

/// The numeric id of a known tile kind.
pub open spec fn tile_type_id(t: GameTileType) -> u32 {
    match t {
        GameTileType::Floor => 0,
        GameTileType::Obstacle => 1,
        GameTileType::Water => 2,
        GameTileType::Unknown => 0,
    }
}

/// Whether a known tile kind occupies volume.
pub open spec fn tile_type_has_volume(t: GameTileType) -> bool {
    t is Obstacle
}

/// Whether a known tile kind can be stepped on.
pub open spec fn tile_type_is_steppable(t: GameTileType) -> bool {
    t is Floor
}

impl GameTileType {
    /// The numeric id of the tile kind: floor 0, obstacle 1, water 2.
    pub fn get_id(&self) -> (id: u32)
        requires
            is_known_tile_type(*self),
        ensures
            id == tile_type_id(*self),
    {
        match self {
            GameTileType::Floor => 0,
            GameTileType::Obstacle => 1,
            GameTileType::Water => 2,
            GameTileType::Unknown => 0,
        }
    }

    /// Whether the tile has volume: only an obstacle has.
    pub fn has_volume(&self) -> (b: bool)
        requires
            is_known_tile_type(*self),
        ensures
            b == tile_type_has_volume(*self),
    {
        match self {
            GameTileType::Floor => false,
            GameTileType::Obstacle => true,
            GameTileType::Water => false,
            GameTileType::Unknown => false,
        }
    }

    /// Whether a walker can step on the tile: only a floor can be stepped on.
    pub fn is_steppable(&self) -> (b: bool)
        requires
            is_known_tile_type(*self),
        ensures
            b == tile_type_is_steppable(*self),
    {
        match self {
            GameTileType::Floor => true,
            GameTileType::Obstacle => false,
            GameTileType::Water => false,
            GameTileType::Unknown => false,
        }
    }
}

/// No known tile kind both occupies volume and can be stepped on.
pub proof fn lemma_volume_excludes_stepping(t: GameTileType)
    requires
        is_known_tile_type(t),
    ensures
        tile_type_has_volume(t) ==> !tile_type_is_steppable(t),
{
}

/// Distinct known tile kinds have distinct ids.
pub proof fn lemma_tile_ids_distinct(a: GameTileType, b: GameTileType)
    requires
        is_known_tile_type(a),
        is_known_tile_type(b),
        a != b,
    ensures
        tile_type_id(a) != tile_type_id(b),
{
}

/// A tile of the map: its kind and its position.
#[derive(Debug)]
pub struct GameTile {
    pub tile_type: GameTileType,
    pub pos_x: u32,
    pub pos_y: u32,
}

impl GameTile {
    /// A tile of the given kind at the given position.
    pub fn new(pos_x: u32, pos_y: u32, tile_type: GameTileType) -> (tile: GameTile)
        ensures
            tile.pos_x == pos_x,
            tile.pos_y == pos_y,
            tile.tile_type == tile_type,
    {
        GameTile { pos_x, pos_y, tile_type }
    }
}

/// The map: a grid of tiles, indexed first by x, then by y.
#[derive(Debug)]
pub struct GameMap {
    pub tiles: Vec<Vec<GameTile>>,
}

/// Whether `(x, y)` addresses a tile of the grid.
pub open spec fn in_grid(tiles: Seq<Vec<GameTile>>, x: int, y: int) -> bool {
    0 <= x < tiles.len() && 0 <= y < tiles[x]@.len()
}

/// Whether `after` is the map `before` with the tile at `(x, y)` replaced by `tile`: the
/// grid keeps its shape, `(x, y)` holds `tile`, and every other tile stays.
pub open spec fn tile_replaced(before: GameMap, after: GameMap, x: int, y: int, tile: GameTile) -> bool {
    &&& after.tiles@.len() == before.tiles@.len()
    &&& forall|i: int| 0 <= i < before.tiles@.len() ==> #[trigger] after.tiles@[i]@.len() == before.tiles@[i]@.len()
    &&& after.tile_at(x, y) == tile
    &&& forall|i: int, j: int|
        before.contains(i, j) && !(i == x && j == y) ==> #[trigger] after.tile_at(i, j) == before.tile_at(i, j)
}

/// Reading a position after a tile was written: the written position gives the new
/// tile, every other position of the map what it held before, and the map's positions
/// stay the same.
pub proof fn lemma_get_after_set(before: GameMap, after: GameMap, x: int, y: int, tile: GameTile, i: int, j: int)
    requires
        before.contains(x, y),
        tile_replaced(before, after, x, y, tile),
    ensures
        after.contains(i, j) == before.contains(i, j),
        before.contains(i, j) ==> after.tile_at(i, j) == if i == x && j == y { tile } else { before.tile_at(i, j) },
{
    if 0 <= i < before.tiles@.len() {
        assert(after.tiles@[i]@.len() == before.tiles@[i]@.len());
    }
}

impl GameMap {
    /// The tile at `(x, y)`, as a spec value.
    pub open spec fn tile_at(&self, x: int, y: int) -> GameTile {
        self.tiles@[x]@[y]
    }

    /// Whether `(x, y)` addresses a tile of this map.
    pub open spec fn contains(&self, x: int, y: int) -> bool {
        in_grid(self.tiles@, x, y)
    }

    /// An empty map.
    pub fn new() -> (map: GameMap)
        ensures
            map.tiles@.len() == 0,
    {
        GameMap { tiles: Vec::new() }
    }

    /// The tile at `(x, y)`; the position must lie on the map.
    pub fn get_tile(&self, x: u32, y: u32) -> (tile: &GameTile)
        requires
            self.contains(x as int, y as int),
        ensures
            *tile == self.tile_at(x as int, y as int),
    {
        &self.tiles[x as usize][y as usize]
    }

    /// Replaces the tile at `(x, y)`, which must lie on the map; every other tile stays.
    pub fn set_tile(&mut self, x: u32, y: u32, tile: GameTile)
        requires
            old(self).contains(x as int, y as int),
        ensures
            tile_replaced(*old(self), *final(self), x as int, y as int, tile),
    {
        self.tiles[x as usize][y as usize] = tile;
    }
}

} // verus!
