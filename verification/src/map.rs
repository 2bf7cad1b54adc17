//! The grid map: tile storage and the conversion between coordinates and
//! tile indices.

use vstd::prelude::*;
use crate::geometry::Point;

verus! {

pub const SCREEN_WIDTH: i32 = 80;

pub const SCREEN_HEIGHT: i32 = 50;

pub const NUM_TILES: usize = 4000;

/// The kind of a single grid cell.
#[derive(Clone, Copy, Debug, PartialEq, Eq, Structural)]
pub enum TileType {
    Wall,
    Floor,
    Exit,
}

/// Whether `(x, y)` names a cell of the grid.
pub open spec fn spec_in_bounds(p: Point) -> bool {
    0 <= p.x < SCREEN_WIDTH && 0 <= p.y < SCREEN_HEIGHT
}

/// Row-major index of the cell `(x, y)`.
pub open spec fn spec_map_idx(x: int, y: int) -> int {
    y * SCREEN_WIDTH + x
}

/// The cell with row-major index `idx`.
pub open spec fn spec_index_to_point(idx: int) -> Point {
    Point { x: (idx % (SCREEN_WIDTH as int)) as i32, y: (idx / (SCREEN_WIDTH as int)) as i32 }
}

/// A tile that entities may stand on: anything but a wall.
pub open spec fn spec_walkable(tiles: Seq<TileType>, idx: int) -> bool {
    0 <= idx < tiles.len() && tiles[idx] != TileType::Wall
}

/// Row-major index of an in-bounds cell.
pub fn map_idx(x: i32, y: i32) -> (idx: usize)
    requires
        spec_in_bounds(Point { x, y }),
    ensures
        idx == spec_map_idx(x as int, y as int),
        idx < NUM_TILES,
{
    ((y * SCREEN_WIDTH) + x) as usize
}

/// Tile kinds of every cell, with a parallel record of which cells the
/// player has seen.
pub struct GridMap {
    pub tiles: Vec<TileType>,
    pub revealed_tiles: Vec<bool>,
}

impl GridMap {
    /// Both arrays hold one entry per cell.
    pub open spec fn wf(&self) -> bool {
        &&& self.tiles@.len() == NUM_TILES
        &&& self.revealed_tiles@.len() == NUM_TILES
    }

    /// No tile has been revealed to the player.
    pub open spec fn unseen(&self) -> bool {
        forall|i: int| 0 <= i < self.revealed_tiles@.len() ==> !#[trigger] self.revealed_tiles@[i]
    }

    /// A map of floor tiles, none of them revealed.
    pub fn new() -> (m: GridMap)
        ensures
            m.wf(),
            m.unseen(),
            forall|i: int| 0 <= i < NUM_TILES ==> m.tiles@[i] == TileType::Floor,
            forall|i: int| 0 <= i < NUM_TILES ==> !m.revealed_tiles@[i],
    {
        let mut tiles: Vec<TileType> = Vec::new();
        let mut revealed_tiles: Vec<bool> = Vec::new();
        let mut i: usize = 0;
        while i < NUM_TILES
            invariant
                i <= NUM_TILES,
                tiles@.len() == i,
                revealed_tiles@.len() == i,
                forall|j: int| 0 <= j < i ==> tiles@[j] == TileType::Floor,
                forall|j: int| 0 <= j < i ==> !revealed_tiles@[j],
            decreases NUM_TILES - i,
        {
            tiles.push(TileType::Floor);
            revealed_tiles.push(false);
            i += 1;
        }
        GridMap { tiles, revealed_tiles }
    }

    pub fn in_bounds(&self, point: Point) -> (b: bool)
        ensures
            b == spec_in_bounds(point),
    {
        point.x >= 0 && point.x < SCREEN_WIDTH && point.y >= 0 && point.y < SCREEN_HEIGHT
    }

    /// The index of `point`, or `None` when it lies outside the grid.
    pub fn try_idx(&self, point: Point) -> (r: Option<usize>)
        ensures
            spec_in_bounds(point) ==> r == Some(spec_map_idx(point.x as int, point.y as int) as usize),
            !spec_in_bounds(point) ==> r.is_none(),
            r matches Some(idx) ==> idx < NUM_TILES,
    {
        if !self.in_bounds(point) {
            None
        } else {
            Some(map_idx(point.x, point.y))
        }
    }

    pub fn point2d_to_index(&self, point: Point) -> (idx: usize)
        requires
            spec_in_bounds(point),
        ensures
            idx == spec_map_idx(point.x as int, point.y as int),
            idx < NUM_TILES,
    {
        map_idx(point.x, point.y)
    }

    pub fn index_to_point2d(&self, idx: usize) -> (p: Point)
        requires
            idx < NUM_TILES,
        ensures
            p == spec_index_to_point(idx as int),
            spec_in_bounds(p),
    {
        let w: usize = 80;
        Point { x: (idx % w) as i32, y: (idx / w) as i32 }
    }

    pub fn is_walkable(&self, idx: usize) -> (b: bool)
        requires
            self.wf(),
        ensures
            b == spec_walkable(self.tiles@, idx as int),
    {
        idx < NUM_TILES && self.tiles[idx] != TileType::Wall
    }

    /// A cell is blocked when it is off the grid or a wall.
    pub fn is_blocked(&self, idx: usize) -> (b: bool)
        requires
            self.wf(),
        ensures
            b == !spec_walkable(self.tiles@, idx as int),
    {
        !self.is_walkable(idx)
    }

    pub fn can_enter_tile(&self, point: Point) -> (b: bool)
        requires
            self.wf(),
        ensures
            b == (spec_in_bounds(point) && spec_walkable(
                self.tiles@,
                spec_map_idx(point.x as int, point.y as int),
            )),
    {
        match self.try_idx(point) {
            Some(idx) => self.is_walkable(idx),
            None => false,
        }
    }

    /// Writes `tile` at `point`; a point outside the grid is ignored.
    pub fn set_tile(&mut self, point: Point, tile: TileType)
        requires
            old(self).wf(),
        ensures
            final(self).wf(),
            final(self).revealed_tiles == old(self).revealed_tiles,
            spec_in_bounds(point) ==> final(self).tiles@ == old(self).tiles@.update(
                spec_map_idx(point.x as int, point.y as int),
                tile,
            ),
            !spec_in_bounds(point) ==> final(self).tiles@ == old(self).tiles@,
    {
        if let Some(idx) = self.try_idx(point) {
            self.tiles[idx] = tile;
        }
    }

    /// Marks every cell as seen.
    pub fn reveal_all(&mut self)
        ensures
            final(self).tiles == old(self).tiles,
            final(self).revealed_tiles@.len() == old(self).revealed_tiles@.len(),
            forall|i: int| 0 <= i < final(self).revealed_tiles@.len() ==> final(self).revealed_tiles@[i],
    {
        let n = self.revealed_tiles.len();
        let mut i: usize = 0;
        while i < n
            invariant
                i <= n,
                n == self.revealed_tiles@.len(),
                n == old(self).revealed_tiles@.len(),
                self.tiles == old(self).tiles,
                forall|j: int| 0 <= j < i ==> self.revealed_tiles@[j],
            decreases n - i,
        {
            self.revealed_tiles[i] = true;
            i += 1;
        }
    }
}

/// Converting an in-bounds point to its index and back yields the point.
pub proof fn lemma_point_index_roundtrip(p: Point)
    requires
        spec_in_bounds(p),
    ensures
        0 <= spec_map_idx(p.x as int, p.y as int) < NUM_TILES,
        spec_index_to_point(spec_map_idx(p.x as int, p.y as int)) == p,
{
    let idx = spec_map_idx(p.x as int, p.y as int);
    assert(idx == p.y * 80 + p.x);
    assert(idx % 80 == p.x && idx / 80 == p.y) by (nonlinear_arith)
        requires
            idx == p.y * 80 + p.x,
            0 <= p.x < 80,
            0 <= p.y,
    ;
}

/// Converting a valid index to its point and back yields the index, and the
/// point lies on the grid.
pub proof fn lemma_index_point_roundtrip(idx: int)
    requires
        0 <= idx < NUM_TILES,
    ensures
        spec_in_bounds(spec_index_to_point(idx)),
        spec_map_idx(spec_index_to_point(idx).x as int, spec_index_to_point(idx).y as int) == idx,
{
}

} // verus!
