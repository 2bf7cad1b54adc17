//! The cellular-automata architect: random noise smoothed into caves.

use vstd::prelude::*;
use bracket_lib::prelude::RandomNumberGenerator;
use crate::geometry::Point;
use crate::map::{
    spec_in_bounds, spec_index_to_point, GridMap, TileType, NUM_TILES,
};
use crate::map_builder::drunkard::lemma_start_reachable;
use crate::map_builder::empty::{is_open_level, EmptyArchitect};
use crate::map_builder::themes::Theme;
use crate::map_builder::{is_cave_level, no_exit, sealed, tile_of, MapBuilder};
use crate::random::range;

verus! {

/// How many times the noise is smoothed.
pub const SMOOTHING_PASSES: usize = 10;

/// The tile that a noise draw out of a hundred gives: floor above 55, wall
/// otherwise.
pub open spec fn spec_noise_tile(roll: int) -> TileType {
    if roll > 55 {
        TileType::Floor
    } else {
        TileType::Wall
    }
}

pub fn noise_tile(roll: i32) -> (t: TileType)
    ensures
        t == spec_noise_tile(roll as int),
{
    if roll > 55 {
        TileType::Floor
    } else {
        TileType::Wall
    }
}

/// The noise that the draws `rolls` give, one draw for each tile.
pub open spec fn noise(rolls: Seq<int>) -> Seq<TileType> {
    Seq::new(rolls.len(), |i: int| spec_noise_tile(rolls[i]))
}

/// One if the cell `(x, y)` is a wall, else zero.
pub open spec fn wall_at(tiles: Seq<TileType>, x: int, y: int) -> int {
    if tiles[y * 80 + x] == TileType::Wall {
        1
    } else {
        0
    }
}

/// The number of walls among the eight cells around `(x, y)`.
pub open spec fn wall_neighbours(tiles: Seq<TileType>, x: int, y: int) -> int {
    wall_at(tiles, x - 1, y - 1) + wall_at(tiles, x, y - 1) + wall_at(tiles, x + 1, y - 1) + wall_at(
        tiles,
        x - 1,
        y,
    ) + wall_at(tiles, x + 1, y) + wall_at(tiles, x - 1, y + 1) + wall_at(tiles, x, y + 1) + wall_at(
        tiles,
        x + 1,
        y + 1,
    )
}

/// Whether the cell with index `i` lies off the border of the grid.
pub open spec fn interior(i: int) -> bool {
    1 <= i % 80 < 79 && 1 <= i / 80 < 49
}

/// The smoothing rule: a cell with more than four walls around it, or with
/// none, becomes wall; any other becomes floor.
pub open spec fn smoothed_tile(tiles: Seq<TileType>, i: int) -> TileType {
    let n = wall_neighbours(tiles, i % 80, i / 80);
    if n > 4 || n == 0 {
        TileType::Wall
    } else {
        TileType::Floor
    }
}

/// The tiles after one smoothing pass. Every interior cell is judged by the
/// tiles as they were before the pass; the border stays.
pub open spec fn smoothed(tiles: Seq<TileType>) -> Seq<TileType> {
    Seq::new(
        tiles.len(),
        |i: int|
            if interior(i) {
                smoothed_tile(tiles, i)
            } else {
                tiles[i]
            },
    )
}

/// The squared distance of the cell with index `i` from the middle of the
/// grid.
pub open spec fn off_center(i: int) -> int {
    (Point { x: 40, y: 25 }).distance_squared(spec_index_to_point(i))
}

/// Tile `a` is the floor tile closest to the middle of the grid, the first
/// such in index order.
pub open spec fn closest_floor(tiles: Seq<TileType>, a: int) -> bool {
    &&& 0 <= a < NUM_TILES
    &&& tiles[a] == TileType::Floor
    &&& forall|j: int|
        0 <= j < NUM_TILES && #[trigger] tiles[j] == TileType::Floor ==> off_center(a) <= off_center(j)
            && (off_center(a) == off_center(j) ==> a <= j)
}

/// The tiles after `n` smoothing passes.
pub open spec fn smoothed_times(tiles: Seq<TileType>, n: nat) -> Seq<TileType>
    decreases n,
{
    if n == 0 {
        tiles
    } else {
        smoothed(smoothed_times(tiles, (n - 1) as nat))
    }
}

/// Some tile is floor.
pub open spec fn has_floor(tiles: Seq<TileType>) -> bool {
    exists|i: int| 0 <= i < tiles.len() && #[trigger] tiles[i] == TileType::Floor
}

/// Draws that the noise may be made of: one out of a hundred for each tile.
pub open spec fn noise_rolls(rolls: Seq<int>) -> bool {
    &&& rolls.len() == NUM_TILES
    &&& forall|k: int| 0 <= k < rolls.len() ==> 0 <= #[trigger] rolls[k] < 100
}

/// Whether `mb` is the level that the noise draws `rolls` lead to. The
/// noise is smoothed the set number of times. If that leaves any floor, the
/// player stands on the floor tile nearest the middle of the grid, and the
/// tiles are the smoothed ones with everything walled off that the player
/// does not reach. If it leaves none, the level is the open rectangle.
pub open spec fn grown_from(mb: MapBuilder, rolls: Seq<int>) -> bool {
    let grown = smoothed_times(noise(rolls), SMOOTHING_PASSES as nat);
    if has_floor(grown) {
        &&& closest_floor(grown, tile_of(mb.player_start))
        &&& mb.map.tiles@ == sealed(grown, tile_of(mb.player_start))
        &&& is_cave_level(mb)
    } else {
        is_open_level(mb)
    }
}

/// Whether `mb` is a level that the architect grows from some noise it may
/// draw.
pub open spec fn caves_grown(mb: MapBuilder) -> bool {
    exists|rolls: Seq<int>| noise_rolls(rolls) && #[trigger] grown_from(mb, rolls)
}

/// Smoothing turns no tile into an exit.
pub proof fn lemma_smoothing_adds_no_exit(tiles: Seq<TileType>)
    requires
        no_exit(tiles),
    ensures
        no_exit(smoothed(tiles)),
{
    assert forall|i: int| 0 <= i < smoothed(tiles).len() implies #[trigger] smoothed(tiles)[i]
        != TileType::Exit by {
        assert(tiles[i] != TileType::Exit);
    }
}

pub struct CellularAutomataArchitect {}

impl CellularAutomataArchitect {
    /// Fills the map with noise: every tile is drawn on its own, floor or
    /// wall.
    pub fn random_noise_map(&mut self, rng: &mut RandomNumberGenerator, map: &mut GridMap)
        requires
            old(map).wf(),
        ensures
            final(map).wf(),
            final(map).revealed_tiles == old(map).revealed_tiles,
            forall|i: int|
                0 <= i < NUM_TILES ==> #[trigger] final(map).tiles@[i] == TileType::Floor
                    || final(map).tiles@[i] == TileType::Wall,
            exists|rolls: Seq<int>|
                {
                    &&& rolls.len() == NUM_TILES
                    &&& forall|k: int| 0 <= k < rolls.len() ==> 0 <= #[trigger] rolls[k] < 100
                    &&& final(map).tiles@ == #[trigger] noise(rolls)
                },
    {
        let mut i: usize = 0;
        let ghost rolls: Seq<int> = Seq::empty();
        while i < NUM_TILES
            invariant
                i <= NUM_TILES,
                map.wf(),
                map.revealed_tiles == old(map).revealed_tiles,
                forall|j: int|
                    0 <= j < i ==> #[trigger] map.tiles@[j] == TileType::Floor || map.tiles@[j]
                        == TileType::Wall,
                rolls.len() == i,
                forall|k: int| 0 <= k < rolls.len() ==> 0 <= #[trigger] rolls[k] < 100,
                map.tiles@.take(i as int) == noise(rolls),
            decreases NUM_TILES - i,
        {
            let roll = range(rng, 0, 100);
            let ghost before = map.tiles@;
            map.tiles[i] = noise_tile(roll);
            proof {
                assert(map.tiles@.take(i as int) == before.take(i as int));
                let longer = rolls.push(roll as int);
                assert forall|j: int| 0 <= j < i + 1 implies map.tiles@.take(i + 1)[j] == noise(
                    longer,
                )[j] by {
                    if j < i {
                        assert(map.tiles@.take(i as int)[j] == noise(rolls)[j]);
                    }
                }
                rolls = longer;
                assert(map.tiles@.take(i + 1) == noise(rolls));
            }
            i += 1;
        }
        assert(map.tiles@.take(i as int) == map.tiles@);
    }

    /// Counts the walls around an interior cell.
    pub fn count_neighbors(&self, x: i32, y: i32, map: &GridMap) -> (n: usize)
        requires
            map.wf(),
            1 <= x < 79,
            1 <= y < 49,
        ensures
            n == wall_neighbours(map.tiles@, x as int, y as int),
    {
        let i: usize = (y * 80 + x) as usize;
        let mut n: usize = 0;
        if map.tiles[i - 81] == TileType::Wall {
            n += 1;
        }
        if map.tiles[i - 80] == TileType::Wall {
            n += 1;
        }
        if map.tiles[i - 79] == TileType::Wall {
            n += 1;
        }
        if map.tiles[i - 1] == TileType::Wall {
            n += 1;
        }
        if map.tiles[i + 1] == TileType::Wall {
            n += 1;
        }
        if map.tiles[i + 79] == TileType::Wall {
            n += 1;
        }
        if map.tiles[i + 80] == TileType::Wall {
            n += 1;
        }
        if map.tiles[i + 81] == TileType::Wall {
            n += 1;
        }
        n
    }

    /// Runs one smoothing pass over the map.
    pub fn iteration(&mut self, map: &mut GridMap)
        requires
            old(map).wf(),
        ensures
            final(map).wf(),
            final(map).revealed_tiles == old(map).revealed_tiles,
            final(map).tiles@ == smoothed(old(map).tiles@),
    {
        let mut new_tiles: Vec<TileType> = Vec::new();
        let mut i: usize = 0;
        while i < NUM_TILES
            invariant
                i <= NUM_TILES,
                map.wf(),
                *map == *old(map),
                new_tiles@.len() == i,
                forall|j: int| 0 <= j < i ==> #[trigger] new_tiles@[j] == smoothed(map.tiles@)[j],
            decreases NUM_TILES - i,
        {
            let x = (i % 80) as i32;
            let y = (i / 80) as i32;
            let tile = if 1 <= x && x < 79 && 1 <= y && y < 49 {
                let n = self.count_neighbors(x, y, map);
                if n > 4 || n == 0 {
                    TileType::Wall
                } else {
                    TileType::Floor
                }
            } else {
                map.tiles[i]
            };
            new_tiles.push(tile);
            i += 1;
        }
        assert(new_tiles@ == smoothed(map.tiles@));
        map.tiles = new_tiles;
    }

    /// The floor tile closest to the middle of the grid, or `None` when the
    /// map has no floor.
    pub fn find_start(&self, map: &GridMap) -> (r: Option<Point>)
        requires
            map.wf(),
        ensures
            r matches Some(p) ==> spec_in_bounds(p) && closest_floor(map.tiles@, tile_of(p)),
            r.is_none() ==> forall|j: int| 0 <= j < NUM_TILES ==> map.tiles@[j] != TileType::Floor,
    {
        let center = Point::new(40, 25);
        let mut best: Option<usize> = None;
        let mut best_d: i64 = 0;
        let mut i: usize = 0;
        while i < NUM_TILES
            invariant
                i <= NUM_TILES,
                map.wf(),
                center == (Point { x: 40, y: 25 }),
                best.is_none() ==> forall|j: int| 0 <= j < i ==> map.tiles@[j] != TileType::Floor,
                best matches Some(a) ==> {
                    &&& a < i
                    &&& map.tiles@[a as int] == TileType::Floor
                    &&& best_d == off_center(a as int)
                    &&& forall|j: int|
                        0 <= j < i && #[trigger] map.tiles@[j] == TileType::Floor ==> off_center(
                            a as int,
                        ) <= off_center(j) && (off_center(a as int) == off_center(j) ==> a <= j)
                },
            decreases NUM_TILES - i,
        {
            if map.tiles[i] == TileType::Floor {
                let p = map.index_to_point2d(i);
                let dx: i64 = (p.x - 40) as i64;
                let dy: i64 = (p.y - 25) as i64;
                assert(dx * dx + dy * dy == off_center(i as int)) by (nonlinear_arith)
                    requires
                        dx == p.x - 40,
                        dy == p.y - 25,
                        off_center(i as int) == (40 - p.x) * (40 - p.x) + (25 - p.y) * (25 - p.y),
                ;
                assert(0 <= dx * dx <= 6400 && 0 <= dy * dy <= 2500) by (nonlinear_arith)
                    requires
                        -80 <= dx <= 80,
                        -50 <= dy <= 50,
                ;
                let d: i64 = dx * dx + dy * dy;
                let better = match best {
                    Some(_) => d < best_d,
                    None => true,
                };
                if better {
                    best = Some(i);
                    best_d = d;
                }
            }
            i += 1;
        }
        match best {
            Some(a) => {
                let p = map.index_to_point2d(a);
                Some(p)
            },
            None => None,
        }
    }

    /// Grows caves from noise, puts the player on the floor tile nearest the
    /// middle and walls off what cannot be reached from there. Noise that
    /// smooths to solid rock gives the open rectangle instead.
    pub fn new(&mut self, rng: &mut RandomNumberGenerator) -> (mb: MapBuilder)
        ensures
            caves_grown(mb),
            spec_in_bounds(mb.player_start),
            mb.map.tiles@[tile_of(mb.player_start)] == TileType::Floor,
            no_exit(mb.map.tiles@),
    {
        let mut mb = MapBuilder {
            map: GridMap::new(),
            rooms: Vec::new(),
            amulet_start: Point::zero(),
            player_start: Point::zero(),
            monster_spawns: Vec::new(),
            themes: Theme::Dungeon,
        };
        self.random_noise_map(rng, &mut mb.map);
        let ghost rolls = choose|rolls: Seq<int>|
            {
                &&& rolls.len() == NUM_TILES
                &&& forall|k: int| 0 <= k < rolls.len() ==> 0 <= #[trigger] rolls[k] < 100
                &&& mb.map.tiles@ == #[trigger] noise(rolls)
            };
        let mut pass: usize = 0;
        while pass < SMOOTHING_PASSES
            invariant
                pass <= SMOOTHING_PASSES,
                mb.map.wf(),
                mb.map.unseen(),
                mb.themes == Theme::Dungeon,
                mb.rooms@.len() == 0,
                no_exit(mb.map.tiles@),
                mb.map.tiles@ == smoothed_times(noise(rolls), pass as nat),
            decreases SMOOTHING_PASSES - pass,
        {
            proof {
                lemma_smoothing_adds_no_exit(mb.map.tiles@);
            }
            self.iteration(&mut mb.map);
            pass += 1;
        }
        let ghost grown = mb.map.tiles@;
        let start = match self.find_start(&mb.map) {
            Some(p) => p,
            None => {
                let mut fallback = EmptyArchitect {  };
                let open = fallback.new();
                proof {
                    crate::map_builder::rooms::lemma_open_start_is_floor();
                    assert(!has_floor(grown));
                    assert(grown_from(open, rolls));
                }
                return open;
            },
        };
        mb.player_start = start;
        proof {
            assert(grown[tile_of(start)] == TileType::Floor);
            assert(has_floor(grown));
            lemma_start_reachable(grown, tile_of(start));
        }
        mb.seal_unreachable();
        mb.amulet_start = mb.find_most_distance();
        let spawns = mb.spawn_monster(&start, rng);
        mb.monster_spawns = spawns;
        assert(grown_from(mb, rolls));
        mb
    }
}

} // verus!
