//! The drunkard's-walk architect: caves dug by staggering diggers.

use vstd::prelude::*;
use bracket_lib::prelude::RandomNumberGenerator;
use crate::geometry::Point;
use crate::map::{spec_in_bounds, GridMap, TileType, NUM_TILES, SCREEN_HEIGHT, SCREEN_WIDTH};
use crate::map_builder::carve::only_carved;
use crate::map_builder::themes::Theme;
use crate::map_builder::{
    connected, is_cave_level, no_exit, sealed, tile_of, walls, MapBuilder,
};
use crate::random::range;

verus! {

/// How many steps one digger takes at most.
pub const STAGGER_DISTANCE: usize = 400;

/// How many floor tiles the architect aims for: a third of the grid.
pub const DESIRED_FLOOR: usize = 1333;

/// How many diggers are sent out at most.
pub const MAX_WALKS: usize = 1000;

/// Where a digger at `pos` stands after the step drawn as `roll`: left,
/// right, up, or else down.
pub open spec fn spec_stagger(pos: Point, roll: int) -> Point {
    if roll == 0 {
        Point { x: (pos.x - 1) as i32, y: pos.y }
    } else if roll == 1 {
        Point { x: (pos.x + 1) as i32, y: pos.y }
    } else if roll == 2 {
        Point { x: pos.x, y: (pos.y - 1) as i32 }
    } else {
        Point { x: pos.x, y: (pos.y + 1) as i32 }
    }
}

pub fn stagger(pos: Point, roll: i32) -> (p: Point)
    requires
        spec_in_bounds(pos),
    ensures
        p == spec_stagger(pos, roll as int),
{
    if roll == 0 {
        Point { x: pos.x - 1, y: pos.y }
    } else if roll == 1 {
        Point { x: pos.x + 1, y: pos.y }
    } else if roll == 2 {
        Point { x: pos.x, y: pos.y - 1 }
    } else {
        Point { x: pos.x, y: pos.y + 1 }
    }
}

/// A digger on its way: the tiles as it left them, where it stands, and
/// whether it has stopped at the edge of the grid.
pub struct Digger {
    pub tiles: Seq<TileType>,
    pub pos: Point,
    pub stopped: bool,
}

/// The digger that started at `start` on `tiles` and took the steps drawn as
/// `rolls`. It turns to floor the tile it starts on and every tile it steps
/// on; when a step would leave the grid it stops for good.
pub open spec fn dig(tiles: Seq<TileType>, start: Point, rolls: Seq<int>) -> Digger
    decreases rolls.len(),
{
    if rolls.len() == 0 {
        Digger { tiles: tiles.update(tile_of(start), TileType::Floor), pos: start, stopped: false }
    } else {
        let before = dig(tiles, start, rolls.drop_last());
        let next = spec_stagger(before.pos, rolls.last());
        if before.stopped || !spec_in_bounds(next) {
            Digger { stopped: true, ..before }
        } else {
            Digger {
                tiles: before.tiles.update(tile_of(next), TileType::Floor),
                pos: next,
                stopped: false,
            }
        }
    }
}

/// Draws that a digger may take: no more than the allowed distance, each one
/// of the four directions.
pub open spec fn digger_rolls(rolls: Seq<int>) -> bool {
    &&& rolls.len() <= STAGGER_DISTANCE
    &&& forall|k: int| 0 <= k < rolls.len() ==> 0 <= #[trigger] rolls[k] < 4
}

/// The draws of a whole outing from `start` on `tiles`: draws that a digger
/// may take, as many as the allowed distance unless the digger stopped at
/// the edge of the grid.
pub open spec fn outing_rolls(tiles: Seq<TileType>, start: Point, rolls: Seq<int>) -> bool {
    &&& digger_rolls(rolls)
    &&& rolls.len() == STAGGER_DISTANCE || dig(tiles, start, rolls).stopped
}

/// The number of floor tiles below index `n`.
pub open spec fn floor_count(tiles: Seq<TileType>, n: int) -> nat
    decreases n,
{
    if n <= 0 {
        0
    } else if tiles[n - 1] == TileType::Floor {
        floor_count(tiles, n - 1) + 1
    } else {
        floor_count(tiles, n - 1)
    }
}

pub fn count_floor(map: &GridMap) -> (n: usize)
    requires
        map.wf(),
    ensures
        n == floor_count(map.tiles@, NUM_TILES as int),
{
    let mut n: usize = 0;
    let mut i: usize = 0;
    while i < NUM_TILES
        invariant
            i <= NUM_TILES,
            map.wf(),
            n <= i,
            n == floor_count(map.tiles@, i as int),
        decreases NUM_TILES - i,
    {
        if map.tiles[i] == TileType::Floor {
            n += 1;
        }
        i += 1;
    }
    n
}

/// The middle of the grid, where the first digger starts.
pub open spec fn middle() -> Point {
    Point { x: 40, y: 25 }
}

/// One digger's outing: where it started and the steps it drew.
pub struct Outing {
    pub start: Point,
    pub rolls: Seq<int>,
}

/// The tiles after the outings `outings`, begun on a grid of walls: after
/// each outing, whatever the middle of the grid does not reach is walled off
/// again.
pub open spec fn caves(outings: Seq<Outing>) -> Seq<TileType>
    decreases outings.len(),
{
    if outings.len() == 0 {
        walls()
    } else {
        sealed(
            dig(caves(outings.drop_last()), outings.last().start, outings.last().rolls).tiles,
            tile_of(middle()),
        )
    }
}

/// The outings that the architect sends diggers on: the first from the
/// middle of the grid, each a whole outing from a tile of the grid on the
/// caves that the outings before it left; one more is sent as long as less
/// than the desired part of the grid is floor, up to the allowed number
/// after the first.
pub open spec fn outings_sent(outings: Seq<Outing>) -> bool {
    &&& 1 <= outings.len() <= MAX_WALKS + 1
    &&& outings[0].start == middle()
    &&& forall|k: int|
        0 <= k < outings.len() ==> spec_in_bounds((#[trigger] outings[k]).start) && outing_rolls(
            caves(outings.take(k)),
            outings[k].start,
            outings[k].rolls,
        )
    &&& forall|k: int|
        1 <= k < outings.len() ==> floor_count(caves(#[trigger] outings.take(k)), NUM_TILES as int)
            < DESIRED_FLOOR
    &&& floor_count(caves(outings), NUM_TILES as int) >= DESIRED_FLOOR || outings.len()
        == MAX_WALKS + 1
}

/// Whether the tiles of `mb` are the caves that some outings of diggers
/// leave.
pub open spec fn caves_dug(mb: MapBuilder) -> bool {
    exists|outings: Seq<Outing>| #[trigger] outings_sent(outings) && mb.map.tiles@ == caves(outings)
}

pub struct DrunkArchitect {}

impl DrunkArchitect {
    /// Sends one digger out from `start`. It turns the tile under it to
    /// floor and staggers one step in a random direction, until its next
    /// step would leave the grid or it has gone the allowed distance.
    pub fn drunkard(&mut self, start: &Point, rng: &mut RandomNumberGenerator, map: &mut GridMap)
        requires
            old(map).wf(),
            spec_in_bounds(*start),
        ensures
            final(map).wf(),
            final(map).revealed_tiles == old(map).revealed_tiles,
            only_carved(old(map).tiles@, final(map).tiles@),
            final(map).tiles@[tile_of(*start)] == TileType::Floor,
            exists|rolls: Seq<int>|
                outing_rolls(old(map).tiles@, *start, rolls) && final(map).tiles@ == #[trigger] dig(
                    old(map).tiles@,
                    *start,
                    rolls,
                ).tiles,
    {
        let start_idx = map.point2d_to_index(*start);
        map.tiles[start_idx] = TileType::Floor;
        let mut drunkard_pos = *start;
        let mut distance_staggered: usize = 0;
        let ghost rolls: Seq<int> = Seq::empty();
        while distance_staggered < STAGGER_DISTANCE
            invariant
                spec_in_bounds(drunkard_pos),
                spec_in_bounds(*start),
                map.wf(),
                map.revealed_tiles == old(map).revealed_tiles,
                only_carved(old(map).tiles@, map.tiles@),
                map.tiles@[tile_of(*start)] == TileType::Floor,
                rolls.len() == distance_staggered,
                digger_rolls(rolls),
                dig(old(map).tiles@, *start, rolls) == (Digger {
                    tiles: map.tiles@,
                    pos: drunkard_pos,
                    stopped: false,
                }),
            decreases STAGGER_DISTANCE - distance_staggered,
        {
            let roll = range(rng, 0, 4);
            let next = stagger(drunkard_pos, roll);
            proof {
                let longer = rolls.push(roll as int);
                assert(longer.drop_last() == rolls);
                assert(longer.last() == roll);
                rolls = longer;
            }
            if !map.in_bounds(next) {
                assert(dig(old(map).tiles@, *start, rolls).stopped);
                assert(outing_rolls(old(map).tiles@, *start, rolls) && dig(
                    old(map).tiles@,
                    *start,
                    rolls,
                ).tiles == map.tiles@);
                return ;
            }
            drunkard_pos = next;
            let drunk_idx = map.point2d_to_index(drunkard_pos);
            map.tiles[drunk_idx] = TileType::Floor;
            distance_staggered += 1;
        }
        assert(outing_rolls(old(map).tiles@, *start, rolls) && dig(
            old(map).tiles@,
            *start,
            rolls,
        ).tiles == map.tiles@);
    }

    /// Digs caves from the middle of the grid: diggers start at random
    /// tiles until a third of the grid is floor or the diggers run out, and
    /// whatever the middle cannot reach is walled off again.
    pub fn new(&mut self, rng: &mut RandomNumberGenerator) -> (mb: MapBuilder)
        ensures
            is_cave_level(mb),
            mb.player_start == middle(),
            caves_dug(mb),
    {
        let center = Point::new(SCREEN_WIDTH / 2, SCREEN_HEIGHT / 2);
        let mut mb = MapBuilder {
            map: GridMap::new(),
            rooms: Vec::new(),
            amulet_start: Point::zero(),
            player_start: center,
            monster_spawns: Vec::new(),
            themes: Theme::Dungeon,
        };
        mb.fill(TileType::Wall);
        assert(mb.map.tiles@ == walls());
        self.drunkard(&center, rng, &mut mb.map);
        let ghost outings: Seq<Outing> = Seq::empty();
        proof {
            let rolls = choose|rolls: Seq<int>|
                outing_rolls(walls(), center, rolls) && mb.map.tiles@ == #[trigger] dig(
                    walls(),
                    center,
                    rolls,
                ).tiles;
            outings = seq![Outing { start: center, rolls }];
            assert(outings.drop_last() == Seq::<Outing>::empty());
            assert(outings.take(0) == Seq::<Outing>::empty());
            assert(caves(outings.take(0)) == walls());
            assert(outings.last() == Outing { start: center, rolls });
            lemma_start_reachable(mb.map.tiles@, tile_of(center));
            lemma_digging_adds_no_exit(walls(), mb.map.tiles@);
        }
        mb.seal_unreachable();
        proof {
            assert(caves(outings.drop_last()) == walls());
            assert(mb.map.tiles@ == caves(outings));
        }
        let mut walks: usize = 0;
        while walks < MAX_WALKS && count_floor(&mb.map) < DESIRED_FLOOR
            invariant
                walks <= MAX_WALKS,
                mb.map.wf(),
                mb.map.unseen(),
                mb.themes == Theme::Dungeon,
                mb.rooms@.len() == 0,
                mb.player_start == center,
                center == middle(),
                mb.map.tiles@[tile_of(center)] == TileType::Floor,
                connected(mb.map.tiles@, tile_of(center)),
                no_exit(mb.map.tiles@),
                outings.len() == walks + 1,
                outings[0].start == middle(),
                forall|k: int|
                    0 <= k < outings.len() ==> spec_in_bounds((#[trigger] outings[k]).start)
                        && outing_rolls(
                        caves(outings.take(k)),
                        outings[k].start,
                        outings[k].rolls,
                    ),
                forall|k: int|
                    1 <= k < outings.len() ==> floor_count(
                        caves(#[trigger] outings.take(k)),
                        NUM_TILES as int,
                    ) < DESIRED_FLOOR,
                mb.map.tiles@ == caves(outings),
            ensures
                floor_count(mb.map.tiles@, NUM_TILES as int) >= DESIRED_FLOOR || walks == MAX_WALKS,
            decreases MAX_WALKS - walks,
        {
            let x = range(rng, 0, SCREEN_WIDTH);
            let y = range(rng, 0, SCREEN_HEIGHT);
            let from = Point::new(x, y);
            let ghost before = mb.map.tiles@;
            self.drunkard(&from, rng, &mut mb.map);
            assert(mb.map.tiles@[tile_of(center)] == before[tile_of(center)] || mb.map.tiles@[tile_of(
                center,
            )] == TileType::Floor);
            proof {
                let rolls = choose|rolls: Seq<int>|
                    outing_rolls(before, from, rolls) && mb.map.tiles@ == #[trigger] dig(
                        before,
                        from,
                        rolls,
                    ).tiles;
                let longer = outings.push(Outing { start: from, rolls });
                assert(longer.drop_last() == outings);
                assert(longer.last() == Outing { start: from, rolls });
                assert forall|k: int| 1 <= k < longer.len() implies floor_count(
                    caves(#[trigger] longer.take(k)),
                    NUM_TILES as int,
                ) < DESIRED_FLOOR by {
                    if k < outings.len() {
                        assert(longer.take(k) == outings.take(k));
                    } else {
                        assert(longer.take(k) == outings);
                    }
                }
                assert forall|k: int| 0 <= k < longer.len() implies spec_in_bounds(
                    (#[trigger] longer[k]).start,
                ) && outing_rolls(caves(longer.take(k)), longer[k].start, longer[k].rolls) by {
                    if k < outings.len() {
                        assert(longer[k] == outings[k]);
                        assert(longer.take(k) == outings.take(k));
                    } else {
                        assert(longer.take(k) == outings);
                    }
                }
                assert(longer[0] == outings[0]);
                outings = longer;
                lemma_start_reachable(mb.map.tiles@, tile_of(center));
                lemma_digging_adds_no_exit(before, mb.map.tiles@);
            }
            mb.seal_unreachable();
            walks += 1;
        }
        assert(outings_sent(outings));
        mb.amulet_start = mb.find_most_distance();
        let spawns = mb.spawn_monster(&center, rng);
        mb.monster_spawns = spawns;
        mb
    }
}

/// Carving turns no tile into an exit.
pub proof fn lemma_digging_adds_no_exit(before: Seq<TileType>, after: Seq<TileType>)
    requires
        only_carved(before, after),
        no_exit(before),
    ensures
        no_exit(after),
{
    assert forall|i: int| 0 <= i < after.len() implies #[trigger] after[i] != TileType::Exit by {
        assert(after[i] == before[i] || after[i] == TileType::Floor);
    }
}

/// A tile of the grid is reachable from itself.
pub proof fn lemma_start_reachable(tiles: Seq<TileType>, s: int)
    requires
        0 <= s < NUM_TILES,
    ensures
        crate::map_builder::reachable(tiles, s, s),
{
    let src = crate::map_builder::single_source(s);
    assert(seq![s as usize][0] == s);
    assert(src.contains(s));
    assert(crate::distance::walk(tiles, src, s, 0));
}

} // verus!
