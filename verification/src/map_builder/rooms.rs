//! The room architect: non-overlapping rooms joined by corridors.

use vstd::prelude::*;
use bracket_lib::prelude::RandomNumberGenerator;
use crate::geometry::{Point, Rect};
use crate::map::{spec_in_bounds, GridMap, TileType};
use crate::map_builder::carve::in_room;
use crate::map_builder::empty::{is_open_level, EmptyArchitect};
use crate::map_builder::themes::Theme;
use crate::map_builder::{
    clear_of, connected, corridors_carved, drawable, farthest_tile, no_exit, offered, room_fits,
    room_is_floor, rooms_chained, tile_of, walls, MapBuilder, MAX_ROOM_ATTEMPTS, NUM_ROOMS,
};

verus! {

/// The centers of all rooms but the first, in order.
pub open spec fn later_centers(rooms: Seq<Rect>) -> Seq<Point> {
    if rooms.len() == 0 {
        Seq::empty()
    } else {
        Seq::new((rooms.len() - 1) as nat, |k: int| rooms[k + 1].spec_center())
    }
}

/// Whether `mb` is a level of rooms, unrevealed and in the dungeon theme:
/// the full count of rooms, none overlapping an earlier one, each carved,
/// all joined in a chain by corridors; the player in the middle of the first
/// room, from where every open tile is reachable, and a monster in the
/// middle of every other.
pub open spec fn is_room_level(mb: MapBuilder) -> bool {
    &&& mb.map.wf()
    &&& mb.map.unseen()
    &&& mb.themes == Theme::Dungeon
    &&& mb.rooms@.len() == NUM_ROOMS
    &&& forall|k: int|
        0 <= k < mb.rooms@.len() ==> {
            &&& room_fits(#[trigger] mb.rooms@[k])
            &&& clear_of(mb.rooms@.take(k), mb.rooms@[k])
            &&& room_is_floor(mb.map.tiles@, mb.rooms@[k])
        }
    &&& rooms_chained(mb.map.tiles@, mb.rooms@)
    &&& mb.player_start == mb.rooms@[0].spec_center()
    &&& connected(mb.map.tiles@, tile_of(mb.player_start))
    &&& mb.monster_spawns@ == later_centers(mb.rooms@)
    &&& farthest_tile(mb.map.tiles@, tile_of(mb.player_start), tile_of(mb.amulet_start))
}

/// Candidates that the architect may draw: no more than the allowed
/// attempts, each a room that may be drawn.
pub open spec fn room_offers(offers: Seq<Rect>) -> bool {
    &&& offers.len() <= MAX_ROOM_ATTEMPTS
    &&& forall|k: int| 0 <= k < offers.len() ==> drawable(#[trigger] offers[k])
}

/// Whether `mb` is the level that the candidates `offers` and the corridors
/// `carved` lead to. Offered to a grid of walls, the candidates give the
/// rooms. If that is the full count of rooms and, with the corridors
/// carved, every open tile is reachable from the middle of the first room,
/// the level has these rooms and these tiles. If not, it is the open
/// rectangle; short of the full count, all the allowed attempts were made.
pub open spec fn rooms_from(mb: MapBuilder, offers: Seq<Rect>, carved: Seq<TileType>) -> bool {
    let drawn = offered(Seq::empty(), walls(), offers);
    if drawn.rooms.len() == NUM_ROOMS {
        &&& corridors_carved(drawn.tiles, drawn.rooms, carved)
        &&& if connected(carved, tile_of(drawn.rooms[0].spec_center())) {
            &&& mb.rooms@ == drawn.rooms
            &&& mb.map.tiles@ == carved
            &&& is_room_level(mb)
        } else {
            is_open_level(mb)
        }
    } else {
        &&& offers.len() == MAX_ROOM_ATTEMPTS
        &&& is_open_level(mb)
    }
}

/// Whether `mb` is a level that the room architect builds from some
/// candidates it may draw.
pub open spec fn rooms_built(mb: MapBuilder) -> bool {
    exists|offers: Seq<Rect>, carved: Seq<TileType>|
        room_offers(offers) && #[trigger] rooms_from(mb, offers, carved)
}

/// The middle of a room that fits is one of its carved cells.
pub proof fn lemma_center_in_room(r: Rect)
    requires
        room_fits(r),
    ensures
        spec_in_bounds(r.spec_center()),
        in_room(r, tile_of(r.spec_center())),
{
}

pub struct RoomsArchitect {}

impl RoomsArchitect {
    /// Lays out a level of rooms and corridors. Where the rooms cannot be
    /// placed within the allowed attempts, or the corridors leave some open
    /// tile out of the player's reach, the level is the open rectangle
    /// instead.
    #[verifier::loop_isolation(false)]
    pub fn new(&mut self, rand: &mut RandomNumberGenerator) -> (mb: MapBuilder)
        ensures
            rooms_built(mb),
            spec_in_bounds(mb.player_start),
            mb.map.tiles@[tile_of(mb.player_start)] == TileType::Floor,
            no_exit(mb.map.tiles@),
    {
        let mut mb = MapBuilder {
            map: GridMap::new(),
            rooms: Vec::new(),
            amulet_start: Point::zero(),
            player_start: Point::zero(),
            monster_spawns: Vec::new(),
            themes: Theme::Dungeon,
        };
        mb.fill(TileType::Wall);
        assert(mb.map.tiles@ == walls());
        assert(mb.rooms@ == Seq::<Rect>::empty());
        mb.build_random_rooms(rand);
        let ghost offers = choose|offers: Seq<Rect>|
            {
                &&& offers.len() <= MAX_ROOM_ATTEMPTS
                &&& forall|k: int| 0 <= k < offers.len() ==> drawable(#[trigger] offers[k])
                &&& #[trigger] offered(Seq::empty(), walls(), offers) == (crate::map_builder::Layout {
                    rooms: mb.rooms@,
                    tiles: mb.map.tiles@,
                })
                &&& mb.rooms@.len() >= NUM_ROOMS || offers.len() == MAX_ROOM_ATTEMPTS
            };
        if mb.rooms.len() != NUM_ROOMS {
            let mut fallback = EmptyArchitect {  };
            let open = fallback.new();
            proof {
                lemma_open_start_is_floor();
                assert(rooms_from(open, offers, open.map.tiles@));
            }
            return open;
        }
        let ghost carved = mb.map.tiles@;
        mb.build_corridors(rand);
        proof {
            assert(no_exit(carved));
            assert forall|i: int| 0 <= i < mb.map.tiles@.len() implies #[trigger] mb.map.tiles@[i]
                != TileType::Exit by {
                assert(mb.map.tiles@[i] == carved[i] || mb.map.tiles@[i] == TileType::Floor);
            }
            assert forall|k: int| 0 <= k < mb.rooms@.len() implies room_is_floor(
                mb.map.tiles@,
                #[trigger] mb.rooms@[k],
            ) by {
                assert(room_is_floor(carved, mb.rooms@[k]));
                assert forall|i: int|
                    0 <= i < carved.len() && carved[i] == TileType::Floor implies mb.map.tiles@[i]
                    == TileType::Floor by {
                    assert(mb.map.tiles@[i] == carved[i] || mb.map.tiles@[i] == TileType::Floor);
                }
            }
            lemma_center_in_room(mb.rooms@[0]);
        }
        mb.player_start = mb.rooms[0].center();
        if !mb.is_connected() {
            let mut fallback = EmptyArchitect {  };
            let open = fallback.new();
            proof {
                lemma_open_start_is_floor();
                assert(rooms_from(open, offers, mb.map.tiles@));
            }
            return open;
        }
        mb.amulet_start = mb.find_most_distance();
        let mut spawns: Vec<Point> = Vec::new();
        let mut k: usize = 1;
        while k < mb.rooms.len()
            invariant
                1 <= k <= mb.rooms@.len(),
                spawns@ == later_centers(mb.rooms@).take(k - 1),
            decreases mb.rooms@.len() - k,
        {
            spawns.push(mb.rooms[k].center());
            assert(spawns@ == later_centers(mb.rooms@).take(k as int));
            k += 1;
        }
        assert(later_centers(mb.rooms@).take(k - 1) == later_centers(mb.rooms@));
        mb.monster_spawns = spawns;
        assert(rooms_from(mb, offers, mb.map.tiles@));
        mb
    }
}

/// The player's start in the open rectangle is a floor tile of the grid.
pub proof fn lemma_open_start_is_floor()
    ensures
        spec_in_bounds(Point { x: 40, y: 25 }),
        in_room(crate::map_builder::empty::open_area(), tile_of(Point { x: 40, y: 25 })),
{
}

} // verus!
