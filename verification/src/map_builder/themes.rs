//! The cosmetic themes: each maps a tile kind to the glyph that draws it.

use vstd::prelude::*;
use crate::map::TileType;

verus! {

/// The code-page-437 code of a character, as the terminal crate's table
/// gives it.
pub uninterp spec fn cp437_code(c: char) -> u16;

/// The printable ASCII characters.
pub open spec fn is_printable_ascii(c: char) -> bool {
    32 <= c as u32 <= 126
}

/// The codes that are known by value: a printable ASCII character has its
/// own code, the full block has 219 and the middle dot 250.
pub open spec fn known_code(c: char) -> Option<u16> {
    if is_printable_ascii(c) {
        Some(c as u32 as u16)
    } else if c == '\u{2588}' {
        Some(219u16)
    } else if c == '\u{b7}' {
        Some(250u16)
    } else {
        None
    }
}

/// Calls `bracket_lib::prelude::to_cp437`, a fixed table from characters to
/// glyph codes. The table maps every printable ASCII character to its own
/// code, the full block to 219 and the middle dot to 250; the other entries
/// are known by name only.
#[verifier::external_body]
pub(crate) fn to_cp437(c: char) -> (g: u16)
    ensures
        g == cp437_code(c),
        known_code(c) matches Some(code) ==> g == code,
{
    bracket_lib::prelude::to_cp437(c)
}

/// A theme chooses the character that stands for each tile kind.
pub trait MapThemes: Sync + Send {
    /// The character drawn for `tile`.
    spec fn glyph(&self, tile: TileType) -> char;

    /// The glyph code of the character drawn for `tile`.
    fn tile_to_render(&self, tile: TileType) -> (g: u16)
        ensures
            g == cp437_code(self.glyph(tile)),
            known_code(self.glyph(tile)) matches Some(code) ==> g == code,
    ;
}

/// The palette of themes. A level takes one of them.
#[derive(Clone, Copy, Debug, PartialEq, Eq, Structural)]
pub enum Theme {
    Dungeon,
    Forest,
    Cave,
    Desert,
    Ice,
    Crypt,
    Swamp,
    Lava,
}

/// The characters of the theme numbered `k` in the palette.
pub open spec fn palette_glyph(k: int, tile: TileType) -> char {
    match tile {
        TileType::Exit => '>',
        TileType::Floor => if k == 0 {
            '.'
        } else if k == 1 {
            ';'
        } else if k == 2 {
            ','
        } else if k == 3 {
            '~'
        } else if k == 4 {
            '\u{b7}'
        } else if k == 5 {
            ','
        } else if k == 6 {
            '~'
        } else {
            '.'
        },
        TileType::Wall => if k == 0 {
            '#'
        } else if k == 1 {
            '"'
        } else if k == 2 {
            '%'
        } else if k == 3 {
            '='
        } else if k == 4 {
            '\u{2588}'
        } else if k == 5 {
            'X'
        } else if k == 6 {
            '"'
        } else {
            '\u{2588}'
        },
    }
}

pub struct DungeonTheme {}

impl DungeonTheme {
    pub fn new() -> (t: Self)
        ensures
            forall|tile: TileType| #[trigger] t.glyph(tile) == palette_glyph(0, tile),
    {
        Self {  }
    }
}

impl MapThemes for DungeonTheme {
    open spec fn glyph(&self, tile: TileType) -> char {
        palette_glyph(0, tile)
    }

    fn tile_to_render(&self, tile: TileType) -> (g: u16) {
        match tile {
            TileType::Floor => to_cp437('.'),
            TileType::Wall => to_cp437('#'),
            TileType::Exit => to_cp437('>'),
        }
    }
}

pub struct ForestTheme {}

impl ForestTheme {
    pub fn new() -> (t: Self)
        ensures
            forall|tile: TileType| #[trigger] t.glyph(tile) == palette_glyph(1, tile),
    {
        Self {  }
    }
}

impl MapThemes for ForestTheme {
    open spec fn glyph(&self, tile: TileType) -> char {
        palette_glyph(1, tile)
    }

    fn tile_to_render(&self, tile: TileType) -> (g: u16) {
        match tile {
            TileType::Floor => to_cp437(';'),
            TileType::Wall => to_cp437('"'),
            TileType::Exit => to_cp437('>'),
        }
    }
}

pub struct CaveTheme {}

impl CaveTheme {
    pub fn new() -> (t: Self)
        ensures
            forall|tile: TileType| #[trigger] t.glyph(tile) == palette_glyph(2, tile),
    {
        Self {  }
    }
}

impl MapThemes for CaveTheme {
    open spec fn glyph(&self, tile: TileType) -> char {
        palette_glyph(2, tile)
    }

    fn tile_to_render(&self, tile: TileType) -> (g: u16) {
        match tile {
            TileType::Floor => to_cp437(','),
            TileType::Wall => to_cp437('%'),
            TileType::Exit => to_cp437('>'),
        }
    }
}

pub struct DesertTheme {}

impl DesertTheme {
    pub fn new() -> (t: Self)
        ensures
            forall|tile: TileType| #[trigger] t.glyph(tile) == palette_glyph(3, tile),
    {
        Self {  }
    }
}

impl MapThemes for DesertTheme {
    open spec fn glyph(&self, tile: TileType) -> char {
        palette_glyph(3, tile)
    }

    fn tile_to_render(&self, tile: TileType) -> (g: u16) {
        match tile {
            TileType::Floor => to_cp437('~'),
            TileType::Wall => to_cp437('='),
            TileType::Exit => to_cp437('>'),
        }
    }
}

pub struct IceTheme {}

impl IceTheme {
    pub fn new() -> (t: Self)
        ensures
            forall|tile: TileType| #[trigger] t.glyph(tile) == palette_glyph(4, tile),
    {
        Self {  }
    }
}

impl MapThemes for IceTheme {
    open spec fn glyph(&self, tile: TileType) -> char {
        palette_glyph(4, tile)
    }

    fn tile_to_render(&self, tile: TileType) -> (g: u16) {
        match tile {
            TileType::Floor => to_cp437('\u{b7}'),
            TileType::Wall => to_cp437('\u{2588}'),
            TileType::Exit => to_cp437('>'),
        }
    }
}

pub struct CryptTheme {}

impl CryptTheme {
    pub fn new() -> (t: Self)
        ensures
            forall|tile: TileType| #[trigger] t.glyph(tile) == palette_glyph(5, tile),
    {
        Self {  }
    }
}

impl MapThemes for CryptTheme {
    open spec fn glyph(&self, tile: TileType) -> char {
        palette_glyph(5, tile)
    }

    fn tile_to_render(&self, tile: TileType) -> (g: u16) {
        match tile {
            TileType::Floor => to_cp437(','),
            TileType::Wall => to_cp437('X'),
            TileType::Exit => to_cp437('>'),
        }
    }
}

pub struct SwampTheme {}

impl SwampTheme {
    pub fn new() -> (t: Self)
        ensures
            forall|tile: TileType| #[trigger] t.glyph(tile) == palette_glyph(6, tile),
    {
        Self {  }
    }
}

impl MapThemes for SwampTheme {
    open spec fn glyph(&self, tile: TileType) -> char {
        palette_glyph(6, tile)
    }

    fn tile_to_render(&self, tile: TileType) -> (g: u16) {
        match tile {
            TileType::Floor => to_cp437('~'),
            TileType::Wall => to_cp437('"'),
            TileType::Exit => to_cp437('>'),
        }
    }
}

pub struct LavaTheme {}

impl LavaTheme {
    pub fn new() -> (t: Self)
        ensures
            forall|tile: TileType| #[trigger] t.glyph(tile) == palette_glyph(7, tile),
    {
        Self {  }
    }
}

impl MapThemes for LavaTheme {
    open spec fn glyph(&self, tile: TileType) -> char {
        palette_glyph(7, tile)
    }

    fn tile_to_render(&self, tile: TileType) -> (g: u16) {
        match tile {
            TileType::Floor => to_cp437('.'),
            TileType::Wall => to_cp437('\u{2588}'),
            TileType::Exit => to_cp437('>'),
        }
    }
}

impl Theme {
    /// The number of this theme in the palette.
    pub open spec fn index(self) -> int {
        match self {
            Theme::Dungeon => 0,
            Theme::Forest => 1,
            Theme::Cave => 2,
            Theme::Desert => 3,
            Theme::Ice => 4,
            Theme::Crypt => 5,
            Theme::Swamp => 6,
            Theme::Lava => 7,
        }
    }

    /// The theme numbered `roll` in the palette; a number off the palette
    /// takes the last theme.
    pub fn from_roll(roll: i32) -> (t: Theme)
        ensures
            0 <= roll < 7 ==> t.index() == roll,
            !(0 <= roll < 7) ==> t == Theme::Lava,
    {
        if roll == 0 {
            Theme::Dungeon
        } else if roll == 1 {
            Theme::Forest
        } else if roll == 2 {
            Theme::Cave
        } else if roll == 3 {
            Theme::Desert
        } else if roll == 4 {
            Theme::Ice
        } else if roll == 5 {
            Theme::Crypt
        } else if roll == 6 {
            Theme::Swamp
        } else {
            Theme::Lava
        }
    }
}

impl MapThemes for Theme {
    open spec fn glyph(&self, tile: TileType) -> char {
        palette_glyph(self.index(), tile)
    }

    fn tile_to_render(&self, tile: TileType) -> (g: u16) {
        match self {
            Theme::Dungeon => DungeonTheme::new().tile_to_render(tile),
            Theme::Forest => ForestTheme::new().tile_to_render(tile),
            Theme::Cave => CaveTheme::new().tile_to_render(tile),
            Theme::Desert => DesertTheme::new().tile_to_render(tile),
            Theme::Ice => IceTheme::new().tile_to_render(tile),
            Theme::Crypt => CryptTheme::new().tile_to_render(tile),
            Theme::Swamp => SwampTheme::new().tile_to_render(tile),
            Theme::Lava => LavaTheme::new().tile_to_render(tile),
        }
    }
}

/// In every theme of the palette the codes of all glyphs are known by
/// value, and wall, floor and exit are drawn with three different codes.
pub proof fn lemma_palette_glyphs_differ(k: int)
    ensures
        known_code(palette_glyph(k, TileType::Wall)) is Some,
        known_code(palette_glyph(k, TileType::Floor)) is Some,
        known_code(palette_glyph(k, TileType::Exit)) == Some(62u16),
        known_code(palette_glyph(k, TileType::Wall)) != known_code(
            palette_glyph(k, TileType::Floor),
        ),
        known_code(palette_glyph(k, TileType::Wall)) != known_code(palette_glyph(k, TileType::Exit)),
        known_code(palette_glyph(k, TileType::Floor)) != known_code(
            palette_glyph(k, TileType::Exit),
        ),
{
}

} // verus!
