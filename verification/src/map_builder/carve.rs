//! Carving floor into the grid: rows, columns and rectangles.

use vstd::prelude::*;
use crate::geometry::Rect;
use crate::map::{GridMap, TileType, NUM_TILES};

verus! {

/// `v` lies between `a` and `b`, whichever of the two is the lower.
pub open spec fn between(a: int, b: int, v: int) -> bool {
    (a <= v && v <= b) || (b <= v && v <= a)
}

/// The tiles with the cells `(x, y)`, `x` between `x1` and `x2`, turned to
/// floor.
pub open spec fn carved_row(tiles: Seq<TileType>, x1: int, x2: int, y: int) -> Seq<TileType> {
    Seq::new(
        tiles.len(),
        |i: int|
            if i / 80 == y && between(x1, x2, i % 80) {
                TileType::Floor
            } else {
                tiles[i]
            },
    )
}

/// The tiles with the cells `(x, y)`, `y` between `y1` and `y2`, turned to
/// floor.
pub open spec fn carved_column(tiles: Seq<TileType>, y1: int, y2: int, x: int) -> Seq<TileType> {
    Seq::new(
        tiles.len(),
        |i: int|
            if i % 80 == x && between(y1, y2, i / 80) {
                TileType::Floor
            } else {
                tiles[i]
            },
    )
}

/// Whether the cell with index `i` is one that carving `r` turns to floor:
/// a cell of `r` off the grid's first row and first column.
pub open spec fn in_room(r: Rect, i: int) -> bool {
    &&& r.x1 <= i % 80 < r.x2
    &&& r.y1 <= i / 80 < r.y2
    &&& i % 80 > 0
    &&& i / 80 > 0
}

/// The tiles with the interior of `r` turned to floor.
pub open spec fn carved_rect(tiles: Seq<TileType>, r: Rect) -> Seq<TileType> {
    Seq::new(
        tiles.len(),
        |i: int|
            if in_room(r, i) {
                TileType::Floor
            } else {
                tiles[i]
            },
    )
}

/// Every tile of `after` is the tile of `before` or floor.
pub open spec fn only_carved(before: Seq<TileType>, after: Seq<TileType>) -> bool {
    &&& after.len() == before.len()
    &&& forall|i: int|
        0 <= i < before.len() ==> #[trigger] after[i] == before[i] || after[i] == TileType::Floor
}

fn lower(a: i32, b: i32) -> (m: i32)
    ensures
        m <= a,
        m <= b,
        m == a || m == b,
{
    if a < b {
        a
    } else {
        b
    }
}

fn upper(a: i32, b: i32) -> (m: i32)
    ensures
        m >= a,
        m >= b,
        m == a || m == b,
{
    if a > b {
        a
    } else {
        b
    }
}

/// Turns to floor the cells of row `y` from column `x1` to column `x2`,
/// whichever order they come in. Cells off the grid are passed over.
pub fn carve_row(map: &mut GridMap, x1: i32, x2: i32, y: i32)
    requires
        old(map).wf(),
    ensures
        final(map).wf(),
        final(map).revealed_tiles == old(map).revealed_tiles,
        final(map).tiles@ == carved_row(old(map).tiles@, x1 as int, x2 as int, y as int),
{
    if y < 0 || y >= 50 {
        assert(map.tiles@ == carved_row(map.tiles@, x1 as int, x2 as int, y as int));
        return ;
    }
    let from = upper(lower(x1, x2), 0);
    let to = lower(upper(x1, x2), 79);
    let mut x: i32 = from;
    while x <= to
        invariant
            0 <= from <= x,
            to <= 79,
            x <= to + 1 || x == from,
            0 <= y < 50,
            map.wf(),
            map.revealed_tiles == old(map).revealed_tiles,
            forall|i: int|
                0 <= i < NUM_TILES ==> #[trigger] map.tiles@[i] == if i / 80 == y && from <= i % 80 < x {
                    TileType::Floor
                } else {
                    old(map).tiles@[i]
                },
        decreases to + 1 - x,
    {
        let idx = (y * 80 + x) as usize;
        map.tiles[idx] = TileType::Floor;
        x += 1;
    }
    assert(map.tiles@ == carved_row(old(map).tiles@, x1 as int, x2 as int, y as int));
}

/// Turns to floor the cells of column `x` from row `y1` to row `y2`,
/// whichever order they come in. Cells off the grid are passed over.
pub fn carve_column(map: &mut GridMap, y1: i32, y2: i32, x: i32)
    requires
        old(map).wf(),
    ensures
        final(map).wf(),
        final(map).revealed_tiles == old(map).revealed_tiles,
        final(map).tiles@ == carved_column(old(map).tiles@, y1 as int, y2 as int, x as int),
{
    if x < 0 || x >= 80 {
        assert(map.tiles@ == carved_column(map.tiles@, y1 as int, y2 as int, x as int));
        return ;
    }
    let from = upper(lower(y1, y2), 0);
    let to = lower(upper(y1, y2), 49);
    let mut y: i32 = from;
    while y <= to
        invariant
            0 <= from <= y,
            to <= 49,
            y <= to + 1 || y == from,
            0 <= x < 80,
            map.wf(),
            map.revealed_tiles == old(map).revealed_tiles,
            forall|i: int|
                0 <= i < NUM_TILES ==> #[trigger] map.tiles@[i] == if i % 80 == x && from <= i / 80 < y {
                    TileType::Floor
                } else {
                    old(map).tiles@[i]
                },
        decreases to + 1 - y,
    {
        let idx = (y * 80 + x) as usize;
        map.tiles[idx] = TileType::Floor;
        y += 1;
    }
    assert(map.tiles@ == carved_column(old(map).tiles@, y1 as int, y2 as int, x as int));
}

/// Turns the interior of `r` to floor, but for cells of the grid's first row
/// and first column. Cells off the grid are passed over.
pub fn carve_rect(map: &mut GridMap, r: Rect)
    requires
        old(map).wf(),
    ensures
        final(map).wf(),
        final(map).revealed_tiles == old(map).revealed_tiles,
        final(map).tiles@ == carved_rect(old(map).tiles@, r),
{
    let y_from = upper(r.y1, 1);
    let y_to = lower(r.y2, 50);
    let x_from = upper(r.x1, 1);
    let x_to = lower(r.x2, 80);
    let mut y: i32 = y_from;
    while y < y_to
        invariant
            1 <= y_from <= y,
            y_to <= 50,
            1 <= x_from,
            x_to <= 80,
            y_from == if r.y1 > 1 { r.y1 } else { 1 },
            y_to == if r.y2 < 50 { r.y2 } else { 50 },
            x_from == if r.x1 > 1 { r.x1 } else { 1 },
            x_to == if r.x2 < 80 { r.x2 } else { 80 },
            map.wf(),
            map.revealed_tiles == old(map).revealed_tiles,
            forall|i: int|
                0 <= i < NUM_TILES ==> #[trigger] map.tiles@[i] == if in_room(r, i) && i / 80 < y {
                    TileType::Floor
                } else {
                    old(map).tiles@[i]
                },
        decreases y_to - y,
    {
        let mut x: i32 = x_from;
        while x < x_to
            invariant
                1 <= y_from <= y < y_to <= 50,
                1 <= x_from <= x,
                x_to <= 80,
                y_from == if r.y1 > 1 { r.y1 } else { 1 },
                y_to == if r.y2 < 50 { r.y2 } else { 50 },
                x_from == if r.x1 > 1 { r.x1 } else { 1 },
                x_to == if r.x2 < 80 { r.x2 } else { 80 },
                map.wf(),
                map.revealed_tiles == old(map).revealed_tiles,
                forall|i: int|
                    0 <= i < NUM_TILES ==> #[trigger] map.tiles@[i] == if in_room(r, i) && (i / 80 < y
                        || (i / 80 == y && i % 80 < x)) {
                        TileType::Floor
                    } else {
                        old(map).tiles@[i]
                    },
            decreases x_to - x,
        {
            let idx = (y * 80 + x) as usize;
            map.tiles[idx] = TileType::Floor;
            x += 1;
        }
        y += 1;
    }
    assert(map.tiles@ == carved_rect(old(map).tiles@, r));
}

} // verus!
