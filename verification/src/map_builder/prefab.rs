//! The prefab overlay: a small fortress stamped onto a generated level.

use vstd::prelude::*;
use bracket_lib::prelude::RandomNumberGenerator;
use crate::distance::{
    distance_field, is_distance_field, lemma_distance_field_unique, UNREACHABLE,
};
use crate::geometry::Point;
use crate::map::{spec_in_bounds, TileType, NUM_TILES, SCREEN_HEIGHT, SCREEN_WIDTH};
use crate::map_builder::{single_source, tile_of, MapBuilder, MAX_DEPTH};
use crate::random::range;

verus! {

pub const FORTRESS_WIDTH: i32 = 12;

pub const FORTRESS_HEIGHT: i32 = 11;

/// How many placements are drawn before the overlay is given up.
pub const PREFAB_ATTEMPTS: usize = 10;

/// The fortress is placed only where some cell lies farther than this from
/// the player's start.
pub const PREFAB_MIN_DISTANCE: u32 = 20;

/// Whether the fortress has a wall at column `dx`, row `dy` of its pattern:
/// a keep with a gate on each side. Every other cell of the pattern is
/// floor.
pub open spec fn spec_fortress_wall(dx: int, dy: int) -> bool {
    ||| ((dy == 1 || dy == 9) && 3 <= dx <= 8)
    ||| ((dy == 2 || dy == 3 || dy == 7 || dy == 8) && (dx == 3 || dx == 8))
    ||| ((dy == 4 || dy == 6) && (1 <= dx <= 3 || 8 <= dx <= 10))
}

pub fn fortress_wall(dx: i32, dy: i32) -> (b: bool)
    ensures
        b == spec_fortress_wall(dx as int, dy as int),
{
    ((dy == 1 || dy == 9) && 3 <= dx && dx <= 8) || ((dy == 2 || dy == 3 || dy == 7 || dy == 8) && (dx
        == 3 || dx == 8)) || ((dy == 4 || dy == 6) && ((1 <= dx && dx <= 3) || (8 <= dx && dx <= 10)))
}

/// Whether the cell with index `i` lies under a fortress whose corner is at
/// column `px`, row `py`.
pub open spec fn in_prefab(px: int, py: int, i: int) -> bool {
    &&& px <= i % 80 < px + FORTRESS_WIDTH
    &&& py <= i / 80 < py + FORTRESS_HEIGHT
}

/// Whether the overlay must leave cell `i` alone: the player's start and
/// every exit are kept.
pub open spec fn kept(tiles: Seq<TileType>, start: Point, i: int) -> bool {
    (spec_in_bounds(start) && i == tile_of(start)) || tiles[i] == TileType::Exit
}

/// The tiles with the fortress stamped at `(px, py)`.
pub open spec fn stamped(tiles: Seq<TileType>, start: Point, px: int, py: int) -> Seq<TileType> {
    Seq::new(
        tiles.len(),
        |i: int|
            if in_prefab(px, py, i) && !kept(tiles, start, i) {
                if spec_fortress_wall(i % 80 - px, i / 80 - py) {
                    TileType::Wall
                } else {
                    TileType::Floor
                }
            } else {
                tiles[i]
            },
    )
}

/// Whether a fortress at `(px, py)` covers a cell that the distance field
/// reaches and that lies farther than the minimum from the sources.
pub open spec fn spec_prefab_fits(dist: Seq<u32>, px: int, py: int) -> bool {
    exists|i: int|
        0 <= i < dist.len() && in_prefab(px, py, i) && PREFAB_MIN_DISTANCE < #[trigger] dist[i]
            && dist[i] != UNREACHABLE
}

/// Whether the fortress may be placed at `(px, py)` on a level: it would
/// cover a tile that the player can reach from `start` and that lies farther
/// than the minimum from there.
pub open spec fn fortress_fits(tiles: Seq<TileType>, start: Point, px: int, py: int) -> bool {
    exists|dist: Seq<u32>|
        #[trigger] is_distance_field(dist, tiles, single_source(tile_of(start)), MAX_DEPTH as int)
            && spec_prefab_fits(dist, px, py)
}

/// A corner at which the fortress lies wholly on the grid, short of its far
/// edges: the corners that the overlay draws from.
pub open spec fn placeable(p: Point) -> bool {
    &&& 0 <= p.x < SCREEN_WIDTH - FORTRESS_WIDTH
    &&& 0 <= p.y < SCREEN_HEIGHT - FORTRESS_HEIGHT
}

/// The placements that the overlay tries on a level, in order: each is
/// placeable, none but the last fits, and either the last fits or all the
/// allowed attempts were made.
pub open spec fn overlay_tries(tiles: Seq<TileType>, start: Point, tries: Seq<Point>) -> bool {
    &&& tries.len() <= PREFAB_ATTEMPTS
    &&& forall|k: int| 0 <= k < tries.len() ==> placeable(#[trigger] tries[k])
    &&& forall|k: int|
        0 <= k < tries.len() - 1 ==> !fortress_fits(
            tiles,
            start,
            (#[trigger] tries[k]).x as int,
            tries[k].y as int,
        )
    &&& tries.len() == PREFAB_ATTEMPTS || last_fits(tiles, start, tries)
}

/// There is a last placement among `tries`, and the fortress fits there.
pub open spec fn last_fits(tiles: Seq<TileType>, start: Point, tries: Seq<Point>) -> bool {
    tries.len() > 0 && fortress_fits(tiles, start, tries.last().x as int, tries.last().y as int)
}

/// The tiles after the placements `tries` were tried: the fortress stamped
/// at the last of them if it fits there, the tiles as they were if not.
pub open spec fn overlaid(tiles: Seq<TileType>, start: Point, tries: Seq<Point>) -> Seq<TileType> {
    if last_fits(tiles, start, tries) {
        stamped(tiles, start, tries.last().x as int, tries.last().y as int)
    } else {
        tiles
    }
}

fn covers(px: i32, py: i32, i: usize) -> (b: bool)
    requires
        i < NUM_TILES,
    ensures
        b == in_prefab(px as int, py as int, i as int),
{
    let x: i64 = (i % 80) as i64;
    let y: i64 = (i / 80) as i64;
    px as i64 <= x && x < px as i64 + 12 && py as i64 <= y && y < py as i64 + 11
}

pub fn prefab_fits(dist: &Vec<u32>, px: i32, py: i32) -> (b: bool)
    requires
        dist@.len() == NUM_TILES,
    ensures
        b == spec_prefab_fits(dist@, px as int, py as int),
{
    let mut i: usize = 0;
    while i < NUM_TILES
        invariant
            i <= NUM_TILES,
            dist@.len() == NUM_TILES,
            forall|j: int|
                0 <= j < i ==> !(in_prefab(px as int, py as int, j) && PREFAB_MIN_DISTANCE
                    < #[trigger] dist@[j] && dist@[j] != UNREACHABLE),
        decreases NUM_TILES - i,
    {
        if covers(px, py, i) && dist[i] > PREFAB_MIN_DISTANCE && dist[i] != UNREACHABLE {
            return true;
        }
        i += 1;
    }
    false
}

/// Stamps the fortress with its corner at `placement`. The player's start
/// and exits under it are left as they are; cells off the grid are passed
/// over.
pub fn stamp_prefab(mb: &mut MapBuilder, placement: Point)
    requires
        old(mb).map.wf(),
    ensures
        final(mb).map.wf(),
        final(mb).same_but_tiles(old(mb)),
        final(mb).map.tiles@ == stamped(
            old(mb).map.tiles@,
            old(mb).player_start,
            placement.x as int,
            placement.y as int,
        ),
{
    let keep = mb.map.try_idx(mb.player_start);
    let ghost tiles0 = mb.map.tiles@;
    let mut i: usize = 0;
    while i < NUM_TILES
        invariant
            i <= NUM_TILES,
            mb.map.wf(),
            mb.same_but_tiles(old(mb)),
            tiles0 == old(mb).map.tiles@,
            tiles0.len() == NUM_TILES,
            spec_in_bounds(mb.player_start) ==> keep == Some(tile_of(mb.player_start) as usize),
            !spec_in_bounds(mb.player_start) ==> keep.is_none(),
            forall|j: int|
                0 <= j < NUM_TILES ==> #[trigger] mb.map.tiles@[j] == if j < i {
                    stamped(tiles0, mb.player_start, placement.x as int, placement.y as int)[j]
                } else {
                    tiles0[j]
                },
        decreases NUM_TILES - i,
    {
        let is_start = match keep {
            Some(s) => s == i,
            None => false,
        };
        if covers(placement.x, placement.y, i) && !is_start && mb.map.tiles[i] != TileType::Exit {
            let dx = (i % 80) as i32 - placement.x;
            let dy = (i / 80) as i32 - placement.y;
            mb.map.tiles[i] = if fortress_wall(dx, dy) {
                TileType::Wall
            } else {
                TileType::Floor
            };
        }
        i += 1;
    }
    assert(mb.map.tiles@ == stamped(
        tiles0,
        mb.player_start,
        placement.x as int,
        placement.y as int,
    ));
}

/// Tries random placements for the fortress, as many as are allowed, and
/// stamps it at the first that fits; if none fits the level stays as it is.
/// A level whose player starts off the grid is left alone. Only tiles
/// change.
pub fn apply_prefab(mb: &mut MapBuilder, rand: &mut RandomNumberGenerator)
    requires
        old(mb).map.wf(),
    ensures
        final(mb).map.wf(),
        final(mb).same_but_tiles(old(mb)),
        !spec_in_bounds(old(mb).player_start) ==> final(mb).map.tiles == old(mb).map.tiles,
        spec_in_bounds(old(mb).player_start) ==> exists|tries: Seq<Point>|
            {
                &&& #[trigger] overlay_tries(old(mb).map.tiles@, old(mb).player_start, tries)
                &&& final(mb).map.tiles@ == overlaid(
                    old(mb).map.tiles@,
                    old(mb).player_start,
                    tries,
                )
            },
{
    let start = match mb.map.try_idx(mb.player_start) {
        Some(s) => s,
        None => {
            return ;
        },
    };
    let mut sources: Vec<usize> = Vec::new();
    sources.push(start);
    assert(sources@ == seq![start]);
    let dist = distance_field(&mb.map, &sources, MAX_DEPTH);
    let ghost tiles = mb.map.tiles@;
    let ghost origin = mb.player_start;
    let ghost tries: Seq<Point> = Seq::empty();
    let mut attempts: usize = 0;
    while attempts < PREFAB_ATTEMPTS
        invariant
            attempts <= PREFAB_ATTEMPTS,
            mb.map.wf(),
            dist@.len() == NUM_TILES,
            is_distance_field(dist@, tiles, single_source(tile_of(origin)), MAX_DEPTH as int),
            *mb == *old(mb),
            tiles == old(mb).map.tiles@,
            origin == old(mb).player_start,
            spec_in_bounds(origin),
            tries.len() == attempts,
            forall|k: int| 0 <= k < tries.len() ==> placeable(#[trigger] tries[k]),
            forall|k: int|
                0 <= k < tries.len() ==> !fortress_fits(
                    tiles,
                    origin,
                    (#[trigger] tries[k]).x as int,
                    tries[k].y as int,
                ),
        decreases PREFAB_ATTEMPTS - attempts,
    {
        let px = range(rand, 0, SCREEN_WIDTH - FORTRESS_WIDTH);
        let py = range(rand, 0, SCREEN_HEIGHT - FORTRESS_HEIGHT);
        let placement = Point::new(px, py);
        let fits = prefab_fits(&dist, px, py);
        proof {
            lemma_fits_by_any_field(tiles, origin, dist@, px as int, py as int);
            let longer = tries.push(placement);
            assert(longer.last() == placement);
            assert forall|k: int| 0 <= k < longer.len() - 1 implies !fortress_fits(
                tiles,
                origin,
                (#[trigger] longer[k]).x as int,
                longer[k].y as int,
            ) by {
                assert(longer[k] == tries[k]);
            }
            assert forall|k: int| 0 <= k < longer.len() implies placeable(#[trigger] longer[k]) by {
                if k < tries.len() {
                    assert(longer[k] == tries[k]);
                }
            }
            if !fits {
                assert forall|k: int| 0 <= k < longer.len() implies !fortress_fits(
                    tiles,
                    origin,
                    (#[trigger] longer[k]).x as int,
                    longer[k].y as int,
                ) by {
                    if k < tries.len() {
                        assert(longer[k] == tries[k]);
                    }
                }
            }
            tries = longer;
        }
        if fits {
            stamp_prefab(mb, placement);
            assert(last_fits(tiles, origin, tries));
            assert(overlay_tries(tiles, origin, tries));
            assert(mb.map.tiles@ == overlaid(tiles, origin, tries));
            return ;
        }
        attempts += 1;
    }
    proof {
        if last_fits(tiles, origin, tries) {
            assert(!fortress_fits(
                tiles,
                origin,
                tries[tries.len() - 1].x as int,
                tries[tries.len() - 1].y as int,
            ));
        }
        assert(overlay_tries(tiles, origin, tries));
        assert(mb.map.tiles@ == overlaid(tiles, origin, tries));
    }
}

/// Whether the fortress fits at a placement can be read off any distance
/// field of the player's start: all of them agree.
pub proof fn lemma_fits_by_any_field(
    tiles: Seq<TileType>,
    start: Point,
    dist: Seq<u32>,
    px: int,
    py: int,
)
    requires
        is_distance_field(dist, tiles, single_source(tile_of(start)), MAX_DEPTH as int),
    ensures
        fortress_fits(tiles, start, px, py) == spec_prefab_fits(dist, px, py),
{
    if fortress_fits(tiles, start, px, py) {
        let other = choose|other: Seq<u32>|
            #[trigger] is_distance_field(
                other,
                tiles,
                single_source(tile_of(start)),
                MAX_DEPTH as int,
            ) && spec_prefab_fits(other, px, py);
        lemma_distance_field_unique(
            other,
            dist,
            tiles,
            single_source(tile_of(start)),
            MAX_DEPTH as int,
        );
    }
}

} // verus!
