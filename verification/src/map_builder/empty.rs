//! The fallback layout: one open rectangle.

use vstd::prelude::*;
use crate::geometry::{Point, Rect};
use crate::map::{GridMap, TileType, NUM_TILES};
use crate::map_builder::carve::{carve_rect, in_room};
use crate::map_builder::themes::Theme;
use crate::map_builder::{farthest_tile, tile_of, MapBuilder};

verus! {

/// The open rectangle: every cell off the border of the grid.
pub open spec fn open_area() -> Rect {
    Rect { x1: 1, x2: 79, y1: 1, y2: 49 }
}

/// The tile kinds of the fallback layout.
pub open spec fn open_tiles() -> Seq<TileType> {
    Seq::new(
        NUM_TILES as nat,
        |i: int|
            if in_room(open_area(), i) {
                TileType::Floor
            } else {
                TileType::Wall
            },
    )
}

/// Whether `mb` is the fallback level: the open rectangle without rooms,
/// nothing of it revealed, in the dungeon theme, the player in its middle.
pub open spec fn is_open_level(mb: MapBuilder) -> bool {
    &&& mb.map.wf()
    &&& mb.map.unseen()
    &&& mb.themes == Theme::Dungeon
    &&& mb.map.tiles@ == open_tiles()
    &&& mb.rooms@.len() == 0
    &&& mb.monster_spawns@.len() == 0
    &&& mb.player_start == Point { x: 40, y: 25 }
    &&& farthest_tile(mb.map.tiles@, tile_of(mb.player_start), tile_of(mb.amulet_start))
}

/// The architect of last resort. Its layout is always valid and needs no
/// random draw.
pub struct EmptyArchitect {}

impl EmptyArchitect {
    pub fn new(&mut self) -> (mb: MapBuilder)
        ensures
            is_open_level(mb),
    {
        let mut mb = MapBuilder {
            map: GridMap::new(),
            rooms: Vec::new(),
            player_start: Point::new(40, 25),
            amulet_start: Point::zero(),
            monster_spawns: Vec::new(),
            themes: Theme::Dungeon,
        };
        mb.fill(TileType::Wall);
        carve_rect(&mut mb.map, Rect { x1: 1, x2: 79, y1: 1, y2: 49 });
        assert(mb.map.tiles@ == open_tiles());
        mb.amulet_start = mb.find_most_distance();
        mb
    }
}

} // verus!
