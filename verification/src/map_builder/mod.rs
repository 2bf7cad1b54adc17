//! Level generation: the builder that lays out a level, places the player,
//! the farthest point and the monsters, and picks a theme.

use vstd::prelude::*;
use bracket_lib::prelude::RandomNumberGenerator;
use crate::distance::{
    distance_field, farthest, is_distance_field, lemma_walk_has_shortest, lemma_walk_step,
    lemma_walk_back, walk_predecessor, shortest, source_set, walk, UNREACHABLE,
};
use crate::geometry::{Point, Rect};
use crate::map::{
    spec_in_bounds, spec_index_to_point, spec_map_idx, spec_walkable, GridMap, TileType, NUM_TILES,
    SCREEN_HEIGHT, SCREEN_WIDTH,
};
use crate::map_builder::carve::{
    between, carve_column, carve_rect, carve_row, carved_column, carved_rect, carved_row, in_room,
    only_carved,
};
use crate::map_builder::automata::{caves_grown, CellularAutomataArchitect};
use crate::map_builder::drunkard::{caves_dug, middle, DrunkArchitect};
use crate::map_builder::prefab::{apply_prefab, overlaid, overlay_tries};
use crate::map_builder::rooms::{rooms_built, RoomsArchitect};
use crate::map_builder::themes::Theme;
use crate::random::{random_slice_index, range};

pub mod automata;
pub mod carve;
pub mod drunkard;
pub mod empty;
pub mod prefab;
pub mod rooms;
pub mod themes;

verus! {

/// How many rooms the room architect aims for.
pub const NUM_ROOMS: usize = 20;

/// How many monster spawn points a level aims for.
pub const NUM_MONSTERS: usize = 50;

/// How many candidate rooms are drawn before the architect gives up.
pub const MAX_ROOM_ATTEMPTS: usize = 2000;

/// Walks of this many steps or more are not followed by a distance field.
pub const MAX_DEPTH: u32 = 1024;

/// Monsters spawn strictly farther than this from the player's start.
pub const MIN_SPAWN_DISTANCE: u16 = 10;

/// The index of the tile at `p`.
pub open spec fn tile_of(p: Point) -> int {
    spec_map_idx(p.x as int, p.y as int)
}

/// The source set that holds tile `s` alone.
pub open spec fn single_source(s: int) -> Set<int> {
    source_set(seq![s as usize])
}

/// Tile `i` is reached from tile `s` by a walk within the search radius.
pub open spec fn reachable(tiles: Seq<TileType>, s: int, i: int) -> bool {
    exists|d: nat| d < MAX_DEPTH && #[trigger] walk(tiles, single_source(s), i, d)
}

/// Every tile that is not a wall is reachable from tile `s`.
pub open spec fn connected(tiles: Seq<TileType>, s: int) -> bool {
    forall|i: int| #[trigger] spec_walkable(tiles, i) ==> reachable(tiles, s, i)
}

/// The grid of walls.
pub open spec fn walls() -> Seq<TileType> {
    Seq::new(NUM_TILES as nat, |i: int| TileType::Wall)
}

/// No tile is an exit.
pub open spec fn no_exit(tiles: Seq<TileType>) -> bool {
    forall|i: int| 0 <= i < tiles.len() ==> #[trigger] tiles[i] != TileType::Exit
}

/// The tiles with every tile walled off that tile `s` does not reach.
pub open spec fn sealed(tiles: Seq<TileType>, s: int) -> Seq<TileType> {
    Seq::new(
        tiles.len(),
        |i: int|
            if reachable(tiles, s, i) {
                tiles[i]
            } else {
                TileType::Wall
            },
    )
}

/// Tile `a` is at the greatest distance from tile `s` that any tile has
/// within the search radius, and it is the first such tile in index order.
pub open spec fn farthest_tile(tiles: Seq<TileType>, s: int, a: int) -> bool {
    exists|d: nat|
        d < MAX_DEPTH && #[trigger] shortest(tiles, single_source(s), a, d) && forall|j: int, e: nat|
            e < MAX_DEPTH && #[trigger] shortest(tiles, single_source(s), j, e) ==> e <= d && (e == d
                ==> a <= j)
}

/// A monster may spawn at `p`: a floor tile strictly farther than the
/// minimum distance from `start`, in a straight line.
pub open spec fn spawnable(tiles: Seq<TileType>, start: Point, p: Point) -> bool {
    &&& spec_in_bounds(p)
    &&& tiles[tile_of(p)] == TileType::Floor
    &&& start.distance_squared(p) > MIN_SPAWN_DISTANCE * MIN_SPAWN_DISTANCE
}

/// The number of tiles below index `n` at which a monster may spawn.
pub open spec fn spawnable_count(tiles: Seq<TileType>, start: Point, n: int) -> nat
    decreases n,
{
    if n <= 0 {
        0
    } else if spawnable(tiles, start, spec_index_to_point(n - 1)) {
        spawnable_count(tiles, start, n - 1) + 1
    } else {
        spawnable_count(tiles, start, n - 1)
    }
}

/// No point occurs twice in `points`.
pub open spec fn all_distinct(points: Seq<Point>) -> bool {
    forall|a: int, b: int| 0 <= a < b < points.len() ==> points[a] != points[b]
}

/// The cells of row `y` between columns `x1` and `x2` are all floor.
pub open spec fn row_is_floor(tiles: Seq<TileType>, x1: int, x2: int, y: int) -> bool {
    forall|i: int|
        0 <= i < tiles.len() && i / 80 == y && between(x1, x2, i % 80) ==> #[trigger] tiles[i]
            == TileType::Floor
}

/// The cells of column `x` between rows `y1` and `y2` are all floor.
pub open spec fn column_is_floor(tiles: Seq<TileType>, y1: int, y2: int, x: int) -> bool {
    forall|i: int|
        0 <= i < tiles.len() && i % 80 == x && between(y1, y2, i / 80) ==> #[trigger] tiles[i]
            == TileType::Floor
}

/// An L-shaped corridor of floor joins `a` and `b`: along a row and then a
/// column, or along a column and then a row.
pub open spec fn joined(tiles: Seq<TileType>, a: Point, b: Point) -> bool {
    ||| (row_is_floor(tiles, a.x as int, b.x as int, a.y as int) && column_is_floor(
        tiles,
        a.y as int,
        b.y as int,
        b.x as int,
    ))
    ||| (column_is_floor(tiles, a.y as int, b.y as int, a.x as int) && row_is_floor(
        tiles,
        a.x as int,
        b.x as int,
        b.y as int,
    ))
}

/// A room that lies inside the grid, off its border, and is at least two
/// cells wide and high.
pub open spec fn room_fits(r: Rect) -> bool {
    &&& 1 <= r.x1
    &&& r.x1 + 2 <= r.x2 < SCREEN_WIDTH
    &&& 1 <= r.y1
    &&& r.y1 + 2 <= r.y2 < SCREEN_HEIGHT
}

/// `room` overlaps none of `rooms`.
pub open spec fn clear_of(rooms: Seq<Rect>, room: Rect) -> bool {
    forall|k: int| 0 <= k < rooms.len() ==> !(#[trigger] rooms[k]).overlaps(room)
}

/// The rooms are joined in a chain: taken in some ascending order of center
/// column, each is joined to the next by an L-shaped corridor.
pub open spec fn rooms_chained(tiles: Seq<TileType>, rooms: Seq<Rect>) -> bool {
    exists|order: Seq<Rect>|
        {
            &&& #[trigger] order.to_multiset() == rooms.to_multiset()
            &&& forall|i: int, j: int|
                0 <= i < j < order.len() ==> order[i].spec_center().x <= order[j].spec_center().x
            &&& forall|k: int|
                0 <= k < order.len() - 1 ==> joined(
                    tiles,
                    (#[trigger] order[k]).spec_center(),
                    order[k + 1].spec_center(),
                )
        }
}

/// A room that the room architect may draw: its corner off the border and
/// ten cells short of the far edges, its sides from two to nine cells.
pub open spec fn drawable(r: Rect) -> bool {
    &&& 1 <= r.x1 < SCREEN_WIDTH - 10
    &&& 1 <= r.y1 < SCREEN_HEIGHT - 10
    &&& 2 <= r.x2 - r.x1 < 10
    &&& 2 <= r.y2 - r.y1 < 10
}

/// Rooms and the tiles they are carved into.
pub struct Layout {
    pub rooms: Seq<Rect>,
    pub tiles: Seq<TileType>,
}

/// The layout after the candidates `offers` were offered one by one: each
/// that overlaps no room placed before it is added and carved, every other
/// is dropped.
pub open spec fn offered(rooms: Seq<Rect>, tiles: Seq<TileType>, offers: Seq<Rect>) -> Layout
    decreases offers.len(),
{
    if offers.len() == 0 {
        Layout { rooms, tiles }
    } else {
        let before = offered(rooms, tiles, offers.drop_last());
        if clear_of(before.rooms, offers.last()) {
            Layout {
                rooms: before.rooms.push(offers.last()),
                tiles: carved_rect(before.tiles, offers.last()),
            }
        } else {
            before
        }
    }
}

/// The tiles with an L-shaped corridor carved from `prev` to `new`: along
/// the row of `prev` and then the column of `new`, or along the column of
/// `prev` and then the row of `new`.
pub open spec fn bent(
    tiles: Seq<TileType>,
    prev: Point,
    new: Point,
    horizontal_first: bool,
) -> Seq<TileType> {
    if horizontal_first {
        carved_column(
            carved_row(tiles, prev.x as int, new.x as int, prev.y as int),
            prev.y as int,
            new.y as int,
            new.x as int,
        )
    } else {
        carved_row(
            carved_column(tiles, prev.y as int, new.y as int, prev.x as int),
            prev.x as int,
            new.x as int,
            new.y as int,
        )
    }
}

/// The tiles after the first `n` corridors: corridor `k` joins the centers
/// of `order[k]` and `order[k + 1]` with the bend `bends[k]`.
pub open spec fn corridors(
    tiles: Seq<TileType>,
    order: Seq<Rect>,
    bends: Seq<bool>,
    n: int,
) -> Seq<TileType>
    decreases n,
{
    if n <= 0 {
        tiles
    } else {
        bent(
            corridors(tiles, order, bends, n - 1),
            order[n - 1].spec_center(),
            order[n].spec_center(),
            bends[n - 1],
        )
    }
}

/// The tiles `after` are the tiles `before` with the corridors of `rooms`
/// carved: the rooms are taken in some ascending order of center column, and
/// each is joined to the next with some bend.
pub open spec fn corridors_carved(
    before: Seq<TileType>,
    rooms: Seq<Rect>,
    after: Seq<TileType>,
) -> bool {
    exists|order: Seq<Rect>, bends: Seq<bool>|
        {
            &&& order.to_multiset() == rooms.to_multiset()
            &&& forall|i: int, j: int|
                0 <= i < j < order.len() ==> order[i].spec_center().x <= order[j].spec_center().x
            &&& after == #[trigger] corridors(before, order, bends, order.len() - 1)
        }
}

/// The interior of `r` is floor.
pub open spec fn room_is_floor(tiles: Seq<TileType>, r: Rect) -> bool {
    forall|i: int| 0 <= i < tiles.len() && in_room(r, i) ==> #[trigger] tiles[i] == TileType::Floor
}

/// The monster spawn points are as `spawn_monster` draws them around
/// `start`: each on a tile where a monster may spawn, none twice, the target
/// count of them or all there are.
pub open spec fn spawns_sampled(tiles: Seq<TileType>, start: Point, spawns: Seq<Point>) -> bool {
    &&& forall|k: int| 0 <= k < spawns.len() ==> spawnable(tiles, start, #[trigger] spawns[k])
    &&& all_distinct(spawns)
    &&& spawns.len() == if spawnable_count(tiles, start, NUM_TILES as int) < NUM_MONSTERS {
        spawnable_count(tiles, start, NUM_TILES as int)
    } else {
        NUM_MONSTERS as nat
    }
}

/// Whether `mb` is a level of caves, unrevealed and in the dungeon theme: no
/// rooms, the player on a floor tile from which every open tile is
/// reachable, the amulet at the farthest of them, and monsters sampled
/// around the player.
pub open spec fn is_cave_level(mb: MapBuilder) -> bool {
    &&& mb.map.wf()
    &&& mb.map.unseen()
    &&& mb.themes == Theme::Dungeon
    &&& no_exit(mb.map.tiles@)
    &&& mb.rooms@.len() == 0
    &&& spec_in_bounds(mb.player_start)
    &&& mb.map.tiles@[tile_of(mb.player_start)] == TileType::Floor
    &&& connected(mb.map.tiles@, tile_of(mb.player_start))
    &&& farthest_tile(mb.map.tiles@, tile_of(mb.player_start), tile_of(mb.amulet_start))
    &&& spawns_sampled(mb.map.tiles@, mb.player_start, mb.monster_spawns@)
}

/// The number of themes in the palette.
pub const NUM_THEMES: i32 = 8;

/// The interchangeable ways of laying out a level.
#[derive(Clone, Copy, Debug, PartialEq, Eq, Structural)]
pub enum Architect {
    RoomsAndCorridors,
    DrunkardsWalk,
    CellularAutomata,
}

/// The rooms are as the room architect reports them, or there are none:
/// each fits the grid and overlaps no earlier one.
pub open spec fn rooms_reported(rooms: Seq<Rect>) -> bool {
    &&& rooms.len() == 0 || rooms.len() == NUM_ROOMS
    &&& forall|k: int|
        0 <= k < rooms.len() ==> room_fits(#[trigger] rooms[k]) && clear_of(rooms.take(k), rooms[k])
}

/// Whether `mb` is a finished level: no tile is revealed and none is an
/// exit yet; the player stands on a floor tile from which every open tile
/// is reachable; the amulet point is the farthest of them; the monsters are
/// sampled around the player; the rooms, if any, are those that the
/// architect reported.
pub open spec fn is_level(mb: MapBuilder) -> bool {
    &&& mb.map.wf()
    &&& mb.map.unseen()
    &&& no_exit(mb.map.tiles@)
    &&& rooms_reported(mb.rooms@)
    &&& spec_in_bounds(mb.player_start)
    &&& mb.map.tiles@[tile_of(mb.player_start)] == TileType::Floor
    &&& connected(mb.map.tiles@, tile_of(mb.player_start))
    &&& spec_in_bounds(mb.amulet_start)
    &&& farthest_tile(mb.map.tiles@, tile_of(mb.player_start), tile_of(mb.amulet_start))
    &&& spawns_sampled(mb.map.tiles@, mb.player_start, mb.monster_spawns@)
}

/// Whether `base` is a level as the architect `a` lays it out: the player
/// starts on a floor tile of the grid, no tile is an exit, and the level is
/// what that architect builds from some draws.
pub open spec fn built_by(a: Architect, base: MapBuilder) -> bool {
    &&& base.map.wf()
    &&& base.map.unseen()
    &&& spec_in_bounds(base.player_start)
    &&& base.map.tiles@[tile_of(base.player_start)] == TileType::Floor
    &&& no_exit(base.map.tiles@)
    &&& match a {
        Architect::RoomsAndCorridors => rooms_built(base),
        Architect::DrunkardsWalk => is_cave_level(base) && base.player_start == middle()
            && caves_dug(base),
        Architect::CellularAutomata => caves_grown(base),
    }
}

/// Whether `mb` is finished from the architect's level `base` with the
/// fortress tried at the placements `tries`: rooms and start are those of
/// `base`, and the tiles are those of `base` with the fortress stamped where
/// it fits, and with everything walled off that the player does not reach.
pub open spec fn finished_from(mb: MapBuilder, base: MapBuilder, tries: Seq<Point>) -> bool {
    &&& overlay_tries(base.map.tiles@, base.player_start, tries)
    &&& mb.map.tiles@ == sealed(
        overlaid(base.map.tiles@, base.player_start, tries),
        tile_of(base.player_start),
    )
    &&& mb.map.revealed_tiles == base.map.revealed_tiles
    &&& mb.rooms == base.rooms
    &&& mb.player_start == base.player_start
}

/// Whether `mb` is a level as the builder builds it: a finished level, made
/// from what one of the architects lays out.
pub open spec fn built(mb: MapBuilder) -> bool {
    &&& is_level(mb)
    &&& exists|a: Architect, base: MapBuilder, tries: Seq<Point>|
        #![trigger built_by(a, base), finished_from(mb, base, tries)]
        built_by(a, base) && finished_from(mb, base, tries)
}

/// A level under construction, and the level descriptor once it is built.
pub struct MapBuilder {
    pub map: GridMap,
    pub rooms: Vec<Rect>,
    pub player_start: Point,
    pub amulet_start: Point,
    pub monster_spawns: Vec<Point>,
    pub themes: Theme,
}

/// Calls `sort_by` of slices with a comparison of the rooms' center
/// columns. The rooms afterwards are the same rooms, in ascending order of
/// center column.
#[verifier::external_body]
fn sort_rooms(rooms: &mut Vec<Rect>)
    ensures
        final(rooms)@.to_multiset() == old(rooms)@.to_multiset(),
        forall|i: int, j: int|
            0 <= i < j < final(rooms)@.len() ==> final(rooms)@[i].spec_center().x
                <= final(rooms)@[j].spec_center().x,
{
    rooms.sort_by(|a, b| a.center().x.cmp(&b.center().x));
}

impl Architect {
    /// The architect that a draw among three selects.
    pub open spec fn spec_from_roll(roll: int) -> Architect {
        if roll == 0 {
            Architect::DrunkardsWalk
        } else if roll == 1 {
            Architect::RoomsAndCorridors
        } else {
            Architect::CellularAutomata
        }
    }

    pub fn from_roll(roll: i32) -> (a: Architect)
        ensures
            a == Architect::spec_from_roll(roll as int),
    {
        if roll == 0 {
            Architect::DrunkardsWalk
        } else if roll == 1 {
            Architect::RoomsAndCorridors
        } else {
            Architect::CellularAutomata
        }
    }

    /// Lays out a level the way of this architect. Whichever it is, the
    /// player's start is a floor tile of the grid and no tile is an exit.
    pub fn build(self, rand: &mut RandomNumberGenerator) -> (mb: MapBuilder)
        ensures
            built_by(self, mb),
    {
        match self {
            Architect::RoomsAndCorridors => {
                let mut architect = RoomsArchitect {  };
                architect.new(rand)
            },
            Architect::DrunkardsWalk => {
                let mut architect = DrunkArchitect {  };
                architect.new(rand)
            },
            Architect::CellularAutomata => {
                let mut architect = CellularAutomataArchitect {  };
                architect.new(rand)
            },
        }
    }
}

impl MapBuilder {
    /// Builds a level: one architect, drawn at random, lays it out; the
    /// fortress is stamped on it where it fits; what the player cannot reach
    /// is walled off; then the farthest point, the monster spawn points and
    /// the theme are chosen.
    pub fn new(rand: &mut RandomNumberGenerator) -> (mb: Self)
        ensures
            built(mb),
    {
        let architect = Architect::from_roll(range(rand, 0, 3));
        let mut mb = architect.build(rand);
        let ghost base = mb;
        apply_prefab(&mut mb, rand);
        let ghost tries = choose|tries: Seq<Point>|
            {
                &&& #[trigger] overlay_tries(base.map.tiles@, base.player_start, tries)
                &&& mb.map.tiles@ == overlaid(base.map.tiles@, base.player_start, tries)
            };
        proof {
            assert(mb.map.tiles@[tile_of(mb.player_start)] == TileType::Floor);
            assert forall|i: int| 0 <= i < mb.map.tiles@.len() implies #[trigger] mb.map.tiles@[i]
                != TileType::Exit by {
                assert(base.map.tiles@[i] != TileType::Exit);
            }
            crate::map_builder::drunkard::lemma_start_reachable(
                mb.map.tiles@,
                tile_of(mb.player_start),
            );
        }
        mb.seal_unreachable();
        mb.amulet_start = mb.find_most_distance();
        let start = mb.player_start;
        let spawns = mb.spawn_monster(&start, rand);
        mb.monster_spawns = spawns;
        mb.themes = Theme::from_roll(range(rand, 0, NUM_THEMES));
        proof {
            lemma_built_rooms_are_reported(architect, base);
            assert(built_by(architect, base) && finished_from(mb, base, tries));
        }
        mb
    }

    /// The parts other than the tiles are those of `other`.
    pub open spec fn same_but_tiles(&self, other: &MapBuilder) -> bool {
        &&& self.map.revealed_tiles == other.map.revealed_tiles
        &&& self.rooms == other.rooms
        &&& self.player_start == other.player_start
        &&& self.amulet_start == other.amulet_start
        &&& self.monster_spawns == other.monster_spawns
        &&& self.themes == other.themes
    }

    /// Sets every tile to `tile`.
    pub fn fill(&mut self, tile: TileType)
        requires
            old(self).map.wf(),
        ensures
            final(self).map.wf(),
            final(self).same_but_tiles(old(self)),
            forall|i: int| 0 <= i < NUM_TILES ==> final(self).map.tiles@[i] == tile,
    {
        let mut i: usize = 0;
        while i < NUM_TILES
            invariant
                i <= NUM_TILES,
                self.map.wf(),
                self.same_but_tiles(old(self)),
                forall|j: int| 0 <= j < i ==> self.map.tiles@[j] == tile,
            decreases NUM_TILES - i,
        {
            self.map.tiles[i] = tile;
            i += 1;
        }
    }

    /// Carves column `x` between rows `y1` and `y2`.
    pub fn apply_vertical_tunnel(&mut self, y1: i32, y2: i32, x: i32)
        requires
            old(self).map.wf(),
        ensures
            final(self).map.wf(),
            final(self).same_but_tiles(old(self)),
            final(self).map.tiles@ == carved_column(
                old(self).map.tiles@,
                y1 as int,
                y2 as int,
                x as int,
            ),
    {
        carve_column(&mut self.map, y1, y2, x);
    }

    /// Carves row `y` between columns `x1` and `x2`.
    pub fn apply_horizontal_tunnel(&mut self, x1: i32, x2: i32, y: i32)
        requires
            old(self).map.wf(),
        ensures
            final(self).map.wf(),
            final(self).same_but_tiles(old(self)),
            final(self).map.tiles@ == carved_row(old(self).map.tiles@, x1 as int, x2 as int, y as int),
    {
        carve_row(&mut self.map, x1, x2, y);
    }

    /// Adds `room` and carves its interior if it overlaps no room placed so
    /// far; otherwise changes nothing. Returns whether the room was placed.
    pub fn place_room(&mut self, room: Rect) -> (placed: bool)
        requires
            old(self).map.wf(),
        ensures
            final(self).map.wf(),
            placed == clear_of(old(self).rooms@, room),
            final(self).map.revealed_tiles == old(self).map.revealed_tiles,
            final(self).player_start == old(self).player_start,
            final(self).amulet_start == old(self).amulet_start,
            final(self).monster_spawns == old(self).monster_spawns,
            final(self).themes == old(self).themes,
            placed ==> final(self).rooms@ == old(self).rooms@.push(room) && final(self).map.tiles@
                == carved_rect(old(self).map.tiles@, room),
            !placed ==> final(self).rooms == old(self).rooms && final(self).map.tiles
                == old(self).map.tiles,
    {
        let mut overlap = false;
        let mut k: usize = 0;
        while k < self.rooms.len()
            invariant
                k <= self.rooms@.len(),
                overlap == !clear_of(self.rooms@.take(k as int), room),
            decreases self.rooms@.len() - k,
        {
            let hit = self.rooms[k].intersect(&room);
            proof {
                let now = self.rooms@.take(k + 1);
                let was = self.rooms@.take(k as int);
                if hit {
                    assert(now[k as int].overlaps(room));
                } else if overlap {
                    let w = choose|w: int| 0 <= w < was.len() && (#[trigger] was[w]).overlaps(room);
                    assert(now[w].overlaps(room));
                } else {
                    assert forall|w: int| 0 <= w < now.len() implies !(#[trigger] now[w]).overlaps(
                        room,
                    ) by {
                        if w < k {
                            assert(was[w] == now[w]);
                        }
                    }
                }
            }
            if hit {
                overlap = true;
            }
            k += 1;
        }
        assert(self.rooms@.take(k as int) == self.rooms@);
        if !overlap {
            carve_rect(&mut self.map, room);
            self.rooms.push(room);
        }
        !overlap
    }

    /// Draws candidate rooms at random and places those that overlap no
    /// earlier room, until the target count is reached or the attempts run
    /// out.
    pub fn build_random_rooms(&mut self, rand: &mut RandomNumberGenerator)
        requires
            old(self).map.wf(),
        ensures
            final(self).map.wf(),
            final(self).map.revealed_tiles == old(self).map.revealed_tiles,
            final(self).player_start == old(self).player_start,
            final(self).amulet_start == old(self).amulet_start,
            final(self).monster_spawns == old(self).monster_spawns,
            final(self).themes == old(self).themes,
            only_carved(old(self).map.tiles@, final(self).map.tiles@),
            old(self).rooms@.len() <= final(self).rooms@.len(),
            final(self).rooms@.take(old(self).rooms@.len() as int) == old(self).rooms@,
            final(self).rooms@.len() <= NUM_ROOMS || final(self).rooms == old(self).rooms,
            forall|k: int|
                old(self).rooms@.len() <= k < final(self).rooms@.len() ==> {
                    &&& room_fits(#[trigger] final(self).rooms@[k])
                    &&& clear_of(final(self).rooms@.take(k), final(self).rooms@[k])
                    &&& room_is_floor(final(self).map.tiles@, final(self).rooms@[k])
                },
            exists|offers: Seq<Rect>|
                {
                    &&& offers.len() <= MAX_ROOM_ATTEMPTS
                    &&& forall|k: int| 0 <= k < offers.len() ==> drawable(#[trigger] offers[k])
                    &&& #[trigger] offered(old(self).rooms@, old(self).map.tiles@, offers) == (Layout {
                        rooms: final(self).rooms@,
                        tiles: final(self).map.tiles@,
                    })
                    &&& final(self).rooms@.len() >= NUM_ROOMS || offers.len() == MAX_ROOM_ATTEMPTS
                },
    {
        let ghost n0 = self.rooms@.len() as int;
        let ghost offers: Seq<Rect> = Seq::empty();
        let mut attempts: usize = 0;
        while self.rooms.len() < NUM_ROOMS && attempts < MAX_ROOM_ATTEMPTS
            invariant
                attempts <= MAX_ROOM_ATTEMPTS,
                self.map.wf(),
                self.map.revealed_tiles == old(self).map.revealed_tiles,
                self.player_start == old(self).player_start,
                self.amulet_start == old(self).amulet_start,
                self.monster_spawns == old(self).monster_spawns,
                self.themes == old(self).themes,
                only_carved(old(self).map.tiles@, self.map.tiles@),
                n0 == old(self).rooms@.len(),
                n0 <= self.rooms@.len(),
                self.rooms@.take(n0) == old(self).rooms@,
                self.rooms@.len() <= NUM_ROOMS || self.rooms == old(self).rooms,
                offers.len() == attempts,
                forall|k: int| 0 <= k < offers.len() ==> drawable(#[trigger] offers[k]),
                offered(old(self).rooms@, old(self).map.tiles@, offers) == (Layout {
                    rooms: self.rooms@,
                    tiles: self.map.tiles@,
                }),
                forall|k: int|
                    n0 <= k < self.rooms@.len() ==> {
                        &&& room_fits(#[trigger] self.rooms@[k])
                        &&& clear_of(self.rooms@.take(k), self.rooms@[k])
                        &&& room_is_floor(self.map.tiles@, self.rooms@[k])
                    },
            decreases MAX_ROOM_ATTEMPTS - attempts,
        {
            let x = range(rand, 1, SCREEN_WIDTH - 10);
            let y = range(rand, 1, SCREEN_HEIGHT - 10);
            let w = range(rand, 2, 10);
            let h = range(rand, 2, 10);
            let room = Rect::with_size(x, y, w, h);
            let ghost rooms_before = self.rooms@;
            let ghost tiles_before = self.map.tiles@;
            let placed = self.place_room(room);
            proof {
                let longer = offers.push(room);
                assert(longer.drop_last() == offers);
                assert(longer.last() == room);
                offers = longer;
                if placed {
                    assert(self.rooms@.take(n0) == rooms_before.take(n0));
                    assert forall|k: int| n0 <= k < self.rooms@.len() implies {
                        &&& room_fits(#[trigger] self.rooms@[k])
                        &&& clear_of(self.rooms@.take(k), self.rooms@[k])
                        &&& room_is_floor(self.map.tiles@, self.rooms@[k])
                    } by {
                        if k < rooms_before.len() {
                            assert(self.rooms@[k] == rooms_before[k]);
                            assert(self.rooms@.take(k) == rooms_before.take(k));
                            assert(room_is_floor(tiles_before, rooms_before[k]));
                        } else {
                            assert(self.rooms@.take(k) == rooms_before);
                        }
                    }
                }
            }
            attempts += 1;
        }
    }

    /// Joins `prev` and `new` by an L-shaped corridor: along the row of
    /// `prev` and then the column of `new`, or along the column of `prev`
    /// and then the row of `new`.
    pub fn connect(&mut self, prev: Point, new: Point, horizontal_first: bool)
        requires
            old(self).map.wf(),
        ensures
            final(self).map.wf(),
            final(self).same_but_tiles(old(self)),
            final(self).map.tiles@ == bent(old(self).map.tiles@, prev, new, horizontal_first),
            only_carved(old(self).map.tiles@, final(self).map.tiles@),
            joined(final(self).map.tiles@, prev, new),
    {
        if horizontal_first {
            self.apply_horizontal_tunnel(prev.x, new.x, prev.y);
            self.apply_vertical_tunnel(prev.y, new.y, new.x);
        } else {
            self.apply_vertical_tunnel(prev.y, new.y, prev.x);
            self.apply_horizontal_tunnel(prev.x, new.x, new.y);
        }
    }

    /// Joins the rooms by corridors: the rooms are taken in ascending order
    /// of center column, and each is joined to the next by an L-shaped
    /// corridor whose bend is chosen at random.
    pub fn build_corridors(&mut self, rand: &mut RandomNumberGenerator)
        requires
            old(self).map.wf(),
        ensures
            final(self).map.wf(),
            final(self).same_but_tiles(old(self)),
            only_carved(old(self).map.tiles@, final(self).map.tiles@),
            rooms_chained(final(self).map.tiles@, old(self).rooms@),
            corridors_carved(old(self).map.tiles@, old(self).rooms@, final(self).map.tiles@),
            exists|order: Seq<Rect>, bends: Seq<bool>|
                {
                    &&& order.to_multiset() == old(self).rooms@.to_multiset()
                    &&& forall|i: int, j: int|
                        0 <= i < j < order.len() ==> order[i].spec_center().x
                            <= order[j].spec_center().x
                    &&& forall|k: int|
                        0 <= k < order.len() - 1 ==> joined(
                            final(self).map.tiles@,
                            (#[trigger] order[k]).spec_center(),
                            order[k + 1].spec_center(),
                        )
                    &&& final(self).map.tiles@ == #[trigger] corridors(
                        old(self).map.tiles@,
                        order,
                        bends,
                        order.len() - 1,
                    )
                },
    {
        let mut rooms = self.rooms.clone();
        sort_rooms(&mut rooms);
        let mut idx: usize = 1;
        let ghost bends: Seq<bool> = Seq::empty();
        while idx < rooms.len()
            invariant
                1 <= idx,
                idx <= rooms@.len() || idx == 1,
                bends.len() == idx - 1,
                self.map.tiles@ == corridors(old(self).map.tiles@, rooms@, bends, idx - 1),
                self.map.wf(),
                self.same_but_tiles(old(self)),
                only_carved(old(self).map.tiles@, self.map.tiles@),
                forall|k: int|
                    0 <= k < idx - 1 && k < rooms@.len() - 1 ==> joined(
                        self.map.tiles@,
                        (#[trigger] rooms@[k]).spec_center(),
                        rooms@[k + 1].spec_center(),
                    ),
            decreases rooms@.len() - idx,
        {
            let prev = rooms[idx - 1].center();
            let new = rooms[idx].center();
            let ghost before = self.map.tiles@;
            let roll = range(rand, 0, 2);
            self.connect(prev, new, roll == 1);
            proof {
                lemma_corridors_ignore_later_bends(
                    old(self).map.tiles@,
                    rooms@,
                    bends,
                    roll == 1,
                    idx - 1,
                );
                bends = bends.push(roll == 1);
                assert forall|k: int| 0 <= k < idx && k < rooms@.len() - 1 implies joined(
                    self.map.tiles@,
                    (#[trigger] rooms@[k]).spec_center(),
                    rooms@[k + 1].spec_center(),
                ) by {
                    if k < idx - 1 {
                        lemma_carving_keeps_joined(
                            before,
                            self.map.tiles@,
                            rooms@[k].spec_center(),
                            rooms@[k + 1].spec_center(),
                        );
                    }
                }
            }
            idx += 1;
        }
        proof {
            assert(rooms@.to_multiset() == old(self).rooms@.to_multiset());
            if rooms@.len() == 0 {
                assert(self.map.tiles@ == corridors(old(self).map.tiles@, rooms@, bends, -1));
            }
            assert(self.map.tiles@ == corridors(
                old(self).map.tiles@,
                rooms@,
                bends,
                rooms@.len() - 1,
            ));
        }
    }

    /// The point farthest from the player's start, by the distance field of
    /// the start over the walkable tiles; among equally far points the first
    /// in index order. A start off the grid is returned as it is.
    pub fn find_most_distance(&self) -> (p: Point)
        requires
            self.map.wf(),
        ensures
            spec_in_bounds(self.player_start) ==> spec_in_bounds(p) && farthest_tile(
                self.map.tiles@,
                tile_of(self.player_start),
                tile_of(p),
            ),
            !spec_in_bounds(self.player_start) ==> p == self.player_start,
    {
        let start = match self.map.try_idx(self.player_start) {
            Some(i) => i,
            None => {
                return self.player_start;
            },
        };
        let mut sources: Vec<usize> = Vec::new();
        sources.push(start);
        assert(sources@ == seq![start]);
        let dist = distance_field(&self.map, &sources, MAX_DEPTH);
        let ghost src = single_source(start as int);
        proof {
            assert(sources@[0] == start);
            assert(src.contains(start as int));
            assert(walk(self.map.tiles@, src, start as int, 0));
            assert(shortest(self.map.tiles@, src, start as int, 0));
        }
        match farthest(&dist) {
            Some(a) => {
                let p = self.map.index_to_point2d(a);
                proof {
                    let d = dist@[a as int] as nat;
                    assert(shortest(self.map.tiles@, src, a as int, d));
                    assert forall|j: int, e: nat|
                        e < MAX_DEPTH && #[trigger] shortest(self.map.tiles@, src, j, e) implies e <= d
                        && (e == d ==> a <= j) by {
                        lemma_walk_in_grid(self.map.tiles@, src, j, e);
                        assert(dist@[j] == e);
                    }
                }
                p
            },
            None => self.player_start,
        }
    }

    /// Draws monster spawn points at random, without repetition, among the
    /// floor tiles strictly farther than the minimum distance from `start`:
    /// the target count of them, or all if there are fewer.
    pub fn spawn_monster(&self, start: &Point, rng: &mut RandomNumberGenerator) -> (spawns: Vec<
        Point,
    >)
        requires
            self.map.wf(),
        ensures
            spawns_sampled(self.map.tiles@, *start, spawns@),
    {
        let ghost tiles = self.map.tiles@;
        let mut spawnable_tiles: Vec<Point> = Vec::new();
        let mut i: usize = 0;
        while i < NUM_TILES
            invariant
                i <= NUM_TILES,
                self.map.wf(),
                tiles == self.map.tiles@,
                spawnable_tiles@.len() == spawnable_count(tiles, *start, i as int),
                spawnable_tiles@.len() <= i,
                forall|k: int|
                    0 <= k < spawnable_tiles@.len() ==> spawnable(
                        tiles,
                        *start,
                        #[trigger] spawnable_tiles@[k],
                    ) && tile_of(spawnable_tiles@[k]) < i,
                all_distinct(spawnable_tiles@),
            decreases NUM_TILES - i,
        {
            let p = self.map.index_to_point2d(i);
            if self.map.tiles[i] == TileType::Floor && start.farther_than(p, MIN_SPAWN_DISTANCE) {
                spawnable_tiles.push(p);
            }
            i += 1;
        }
        let ghost total = spawnable_tiles@.len();
        let mut spawns: Vec<Point> = Vec::new();
        while spawns.len() < NUM_MONSTERS && spawnable_tiles.len() > 0
            invariant
                spawns@.len() <= NUM_MONSTERS,
                spawns@.len() + spawnable_tiles@.len() == total,
                total <= NUM_TILES,
                forall|k: int|
                    0 <= k < spawnable_tiles@.len() ==> spawnable(
                        tiles,
                        *start,
                        #[trigger] spawnable_tiles@[k],
                    ),
                forall|k: int|
                    0 <= k < spawns@.len() ==> spawnable(tiles, *start, #[trigger] spawns@[k]),
                all_distinct(spawnable_tiles@),
                all_distinct(spawns@),
                forall|a: int, b: int|
                    0 <= a < spawns@.len() && 0 <= b < spawnable_tiles@.len() ==> spawns@[a]
                        != spawnable_tiles@[b],
            decreases spawnable_tiles@.len(),
        {
            let pick = random_slice_index(rng, &spawnable_tiles);
            let p = take_spawn(&mut spawnable_tiles, pick.unwrap());
            spawns.push(p);
        }
        spawns
    }

    /// Whether every tile that is not a wall can be reached from the
    /// player's start.
    pub fn is_connected(&self) -> (b: bool)
        requires
            self.map.wf(),
            spec_in_bounds(self.player_start),
        ensures
            b == connected(self.map.tiles@, tile_of(self.player_start)),
    {
        let start = self.map.point2d_to_index(self.player_start);
        let mut sources: Vec<usize> = Vec::new();
        sources.push(start);
        assert(sources@ == seq![start]);
        let dist = distance_field(&self.map, &sources, MAX_DEPTH);
        let ghost src = single_source(start as int);
        let ghost tiles = self.map.tiles@;
        proof {
            assert forall|i: int| 0 <= i < NUM_TILES implies (dist@[i] != UNREACHABLE) == reachable(
                tiles,
                start as int,
                i,
            ) by {
                if dist@[i] != UNREACHABLE {
                    assert(walk(tiles, src, i, dist@[i] as nat));
                }
                if reachable(tiles, start as int, i) {
                    let d = choose|d: nat| d < MAX_DEPTH && #[trigger] walk(tiles, src, i, d);
                    lemma_walk_has_shortest(tiles, src, i, d);
                    let e = choose|e: nat| e <= d && #[trigger] shortest(tiles, src, i, e);
                    assert(dist@[i] == e);
                }
            }
        }
        let mut i: usize = 0;
        while i < NUM_TILES
            invariant
                i <= NUM_TILES,
                self.map.wf(),
                tiles == self.map.tiles@,
                start == tile_of(self.player_start),
                dist@.len() == NUM_TILES,
                forall|j: int|
                    0 <= j < NUM_TILES ==> (#[trigger] dist@[j] != UNREACHABLE) == reachable(
                        tiles,
                        start as int,
                        j,
                    ),
                forall|j: int|
                    0 <= j < i && #[trigger] spec_walkable(tiles, j) ==> reachable(
                        tiles,
                        start as int,
                        j,
                    ),
            decreases NUM_TILES - i,
        {
            if self.map.tiles[i] != TileType::Wall && dist[i] == UNREACHABLE {
                assert(spec_walkable(tiles, i as int) && !reachable(tiles, start as int, i as int));
                return false;
            }
            i += 1;
        }
        true
    }

    /// Walls off every tile that no walk from the player's start reaches
    /// within the search radius.
    pub fn seal_unreachable(&mut self)
        requires
            old(self).map.wf(),
            spec_in_bounds(old(self).player_start),
        ensures
            final(self).map.wf(),
            final(self).same_but_tiles(old(self)),
            final(self).map.tiles@ == sealed(old(self).map.tiles@, tile_of(old(self).player_start)),
            forall|i: int, d: nat|
                d < MAX_DEPTH ==> #[trigger] walk(
                    final(self).map.tiles@,
                    single_source(tile_of(old(self).player_start)),
                    i,
                    d,
                ) == walk(old(self).map.tiles@, single_source(tile_of(old(self).player_start)), i, d),
            final(self).map.tiles@[tile_of(old(self).player_start)] != TileType::Wall ==> connected(
                final(self).map.tiles@,
                tile_of(old(self).player_start),
            ),
    {
        let start = self.map.point2d_to_index(self.player_start);
        let mut sources: Vec<usize> = Vec::new();
        sources.push(start);
        assert(sources@ == seq![start]);
        let dist = distance_field(&self.map, &sources, MAX_DEPTH);
        let ghost src = single_source(start as int);
        let ghost tiles0 = self.map.tiles@;
        proof {
            assert forall|i: int| 0 <= i < NUM_TILES implies (dist@[i] != UNREACHABLE) == reachable(
                tiles0,
                start as int,
                i,
            ) by {
                if dist@[i] != UNREACHABLE {
                    assert(walk(tiles0, src, i, dist@[i] as nat));
                }
                if reachable(tiles0, start as int, i) {
                    let d = choose|d: nat| d < MAX_DEPTH && #[trigger] walk(tiles0, src, i, d);
                    lemma_walk_has_shortest(tiles0, src, i, d);
                    let e = choose|e: nat| e <= d && #[trigger] shortest(tiles0, src, i, e);
                    assert(dist@[i] == e);
                }
            }
        }
        let mut i: usize = 0;
        while i < NUM_TILES
            invariant
                i <= NUM_TILES,
                self.map.wf(),
                dist@.len() == NUM_TILES,
                self.same_but_tiles(old(self)),
                tiles0 == old(self).map.tiles@,
                forall|j: int|
                    0 <= j < NUM_TILES ==> #[trigger] self.map.tiles@[j] == if j >= i || dist@[j]
                        != UNREACHABLE {
                        tiles0[j]
                    } else {
                        TileType::Wall
                    },
            decreases NUM_TILES - i,
        {
            if dist[i] == UNREACHABLE {
                self.map.tiles[i] = TileType::Wall;
            }
            i += 1;
        }
        proof {
            let tiles1 = self.map.tiles@;
            assert forall|j: int, d: nat| d < MAX_DEPTH implies #[trigger] walk(tiles1, src, j, d)
                == walk(tiles0, src, j, d) by {
                lemma_sealing_keeps_walks(tiles0, tiles1, start as int, j, d);
            }
            if tiles1[start as int] != TileType::Wall {
                assert forall|j: int| #[trigger] spec_walkable(tiles1, j) implies reachable(
                    tiles1,
                    start as int,
                    j,
                ) by {
                    assert(reachable(tiles0, start as int, j));
                    let d = choose|d: nat| d < MAX_DEPTH && #[trigger] walk(tiles0, src, j, d);
                    assert(walk(tiles1, src, j, d));
                }
            }
        }
    }
}

/// Removes the candidate at position `idx` and returns it.
pub fn take_spawn(candidates: &mut Vec<Point>, idx: usize) -> (p: Point)
    requires
        idx < old(candidates)@.len(),
    ensures
        p == old(candidates)@[idx as int],
        final(candidates)@ == old(candidates)@.remove(idx as int),
{
    candidates.remove(idx)
}

/// On a connected map the distance field of the start records a distance
/// for every tile that is not a wall.
pub proof fn lemma_connected_field_is_finite(tiles: Seq<TileType>, s: int, dist: Seq<u32>, i: int)
    requires
        connected(tiles, s),
        is_distance_field(dist, tiles, single_source(s), MAX_DEPTH as int),
        spec_walkable(tiles, i),
        tiles.len() == NUM_TILES,
    ensures
        dist[i] != UNREACHABLE,
        dist[i] < MAX_DEPTH,
{
    let src = single_source(s);
    let d = choose|d: nat| d < MAX_DEPTH && #[trigger] walk(tiles, src, i, d);
    lemma_walk_has_shortest(tiles, src, i, d);
    let e = choose|e: nat| e <= d && #[trigger] shortest(tiles, src, i, e);
    assert(dist[i] == e);
}

/// The farthest tile has the greatest distance that the distance field of
/// the start records: no tile with a recorded distance lies farther.
pub proof fn lemma_farthest_has_greatest_distance(
    tiles: Seq<TileType>,
    s: int,
    a: int,
    dist: Seq<u32>,
    j: int,
)
    requires
        farthest_tile(tiles, s, a),
        is_distance_field(dist, tiles, single_source(s), MAX_DEPTH as int),
        tiles.len() == NUM_TILES,
        0 <= j < NUM_TILES,
        dist[j] != UNREACHABLE,
    ensures
        0 <= a < NUM_TILES,
        dist[a] != UNREACHABLE,
        dist[j] <= dist[a],
        dist[j] == dist[a] ==> a <= j,
{
    let src = single_source(s);
    let d = choose|d: nat|
        d < MAX_DEPTH && #[trigger] shortest(tiles, src, a, d) && forall|j: int, e: nat|
            e < MAX_DEPTH && #[trigger] shortest(tiles, src, j, e) ==> e <= d && (e == d ==> a <= j);
    lemma_walk_in_grid(tiles, src, a, d);
    assert(dist[a] == d);
    assert(shortest(tiles, src, j, dist[j] as nat));
}

/// The rooms that an architect lists are as a finished level reports them:
/// none, or the full count, each fitting the grid and clear of the earlier.
pub proof fn lemma_built_rooms_are_reported(a: Architect, base: MapBuilder)
    requires
        built_by(a, base),
    ensures
        rooms_reported(base.rooms@),
{
}

/// A walk from a single source ends on a tile of the grid.
pub proof fn lemma_walk_in_grid(tiles: Seq<TileType>, sources: Set<int>, i: int, d: nat)
    requires
        tiles.len() == NUM_TILES,
        forall|s: int| sources.contains(s) ==> 0 <= s < NUM_TILES,
        walk(tiles, sources, i, d),
    ensures
        0 <= i < NUM_TILES,
{
}

/// The first `n` corridors do not depend on bends drawn later.
pub proof fn lemma_corridors_ignore_later_bends(
    tiles: Seq<TileType>,
    order: Seq<Rect>,
    bends: Seq<bool>,
    bend: bool,
    n: int,
)
    requires
        n <= bends.len(),
    ensures
        corridors(tiles, order, bends.push(bend), n) == corridors(tiles, order, bends, n),
    decreases n,
{
    if n > 0 {
        lemma_corridors_ignore_later_bends(tiles, order, bends, bend, n - 1);
    }
}

/// Carving keeps joined what was joined.
pub proof fn lemma_carving_keeps_joined(
    before: Seq<TileType>,
    after: Seq<TileType>,
    a: Point,
    b: Point,
)
    requires
        only_carved(before, after),
        joined(before, a, b),
    ensures
        joined(after, a, b),
{
    assert forall|i: int| 0 <= i < before.len() && before[i] == TileType::Floor implies after[i]
        == TileType::Floor by {
        assert(after[i] == before[i] || after[i] == TileType::Floor);
    }
}

/// Walling off the tiles that are not reachable from `s` changes no walk
/// from `s` within the search radius.
pub proof fn lemma_sealing_keeps_walks(
    before: Seq<TileType>,
    after: Seq<TileType>,
    s: int,
    i: int,
    d: nat,
)
    requires
        before.len() == NUM_TILES,
        after.len() == NUM_TILES,
        forall|j: int|
            0 <= j < NUM_TILES ==> #[trigger] after[j] == if reachable(before, s, j) {
                before[j]
            } else {
                TileType::Wall
            },
        d < MAX_DEPTH,
    ensures
        walk(after, single_source(s), i, d) == walk(before, single_source(s), i, d),
    decreases d,
{
    let src = single_source(s);
    if d > 0 {
        if walk(before, src, i, d) {
            lemma_walk_back(before, src, i, d);
            let j = walk_predecessor(before, src, i, d);
            lemma_sealing_keeps_walks(before, after, s, j, (d - 1) as nat);
            assert(reachable(before, s, i));
            lemma_walk_step(after, src, j, i, (d - 1) as nat);
        }
        if walk(after, src, i, d) {
            lemma_walk_back(after, src, i, d);
            let j = walk_predecessor(after, src, i, d);
            lemma_sealing_keeps_walks(before, after, s, j, (d - 1) as nat);
            lemma_walk_step(before, src, j, i, (d - 1) as nat);
        }
    }
}

} // verus!
