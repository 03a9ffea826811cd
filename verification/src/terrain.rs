//! Tiles, factions, and the fixed starting map. A tile's kind decides its
//! walkability under the two navmesh rule sets and which texture index the
//! rendering layer shows for it.

use vstd::prelude::*;
use vstd::string::StrSliceExecFns;
use crate::grid::TilePos;
use crate::rng::random_below;
use crate::settings::{MAP_COLS, MAP_ROWS};

verus! {

/// One cell of the terrain.
#[derive(Clone, Copy, Debug, PartialEq, Eq, Structural)]
pub enum Tile {
    Air,
    Dirt { topsoil: bool, style: u8 },
    Rock { style: u8 },
    Stalk { style: u8 },
    Leaves { style: u8 },
    Egg { style: u8 },
    Poo { style: u8 },
    Unknown,
}

/// Allegiance of agents, eggs and plants.
#[derive(Clone, Copy, Debug, PartialEq, Eq, Structural)]
pub enum Faction {
    Red,
    Blue,
    Green,
}

impl Faction {
    /// One of the three factions, drawn uniformly.
    #[must_use]
    pub fn random() -> (r: Faction)
        ensures
            r == Faction::Red || r == Faction::Blue || r == Faction::Green,
    {
        let i = random_below(3);
        if i == 0 {
            Faction::Red
        } else if i == 1 {
            Faction::Blue
        } else {
            Faction::Green
        }
    }
}

/// Whether an agent of faction `a` may target an egg of faction `b`:
/// its own eggs, and neutral (green) eggs.
pub open spec fn spec_match_faction(a: Faction, b: Faction) -> bool {
    a == b || b == Faction::Green
}

pub fn match_faction(a: Faction, b: Faction) -> (r: bool)
    ensures
        r == spec_match_faction(a, b),
{
    a == b || b == Faction::Green
}

/// Solidity under the main rule set: everything but air and eggs blocks.
pub open spec fn spec_solid_in_main(t: Tile) -> bool {
    !(t is Air || t is Egg)
}

/// Solidity under the alternative rule set used to plan digging routes:
/// as the main rule set, but dirt is treated as walkable.
pub open spec fn spec_solid_in_alt(t: Tile) -> bool {
    !(t is Air || t is Egg || t is Dirt)
}

/// Whether a tile is topsoil: dirt a plant can take root in.
pub open spec fn spec_tile_topsoil(t: Tile) -> bool {
    match t {
        Tile::Dirt { topsoil, .. } => topsoil,
        _ => false,
    }
}

/// The faction of the egg drawn with `style`.
pub open spec fn spec_egg_faction(style: u8) -> Faction {
    if style == 0 {
        Faction::Red
    } else if style == 1 {
        Faction::Blue
    } else {
        Faction::Green
    }
}

pub fn egg_faction(style: u8) -> (r: Faction)
    ensures
        r == spec_egg_faction(style),
{
    match style {
        0 => Faction::Red,
        1 => Faction::Blue,
        _ => Faction::Green,
    }
}

/// The egg style showing `faction`.
pub open spec fn spec_egg_style(faction: Faction) -> u8 {
    match faction {
        Faction::Red => 0,
        Faction::Blue => 1,
        Faction::Green => 2,
    }
}

pub fn egg_style(faction: Faction) -> (r: u8)
    ensures
        r == spec_egg_style(faction),
{
    match faction {
        Faction::Red => 0,
        Faction::Blue => 1,
        Faction::Green => 2,
    }
}

pub open spec fn spec_texture(t: Tile) -> u32 {
    match t {
        Tile::Air => 0,
        Tile::Dirt { .. } => 20,
        Tile::Rock { style } => (style + 11) as u32,
        Tile::Stalk { style } => if style == 2 { 41 } else { (style + 8) as u32 },
        Tile::Leaves { style } => (style + 7) as u32,
        Tile::Poo { style } => (style + 48) as u32,
        Tile::Egg { style } => (style + 64) as u32,
        Tile::Unknown => 16,
    }
}

pub open spec fn spec_from_texture(tex: u32) -> Tile {
    if tex == 0 {
        Tile::Air
    } else if 1 <= tex <= 4 {
        Tile::Dirt { topsoil: true, style: tex as u8 }
    } else if tex == 18 {
        Tile::Dirt { topsoil: false, style: 5 }
    } else if tex == 11 {
        Tile::Rock { style: tex as u8 }
    } else if tex == 8 {
        Tile::Stalk { style: tex as u8 }
    } else if tex == 7 {
        Tile::Leaves { style: tex as u8 }
    } else if 48 <= tex <= 56 {
        Tile::Egg { style: tex as u8 }
    } else if 64 <= tex <= 72 {
        Tile::Poo { style: tex as u8 }
    } else {
        Tile::Unknown
    }
}

impl Tile {
    /// The texture index the rendering layer shows for this tile.
    pub fn texture(&self) -> (r: u32)
        ensures
            r == spec_texture(*self),
    {
        match self {
            Self::Air => 0,
            Self::Dirt { .. } => 20,
            Self::Rock { style } => (*style as u32) + 11,
            Self::Stalk { style } => if *style == 2 { 41 } else { (*style as u32) + 8 },
            Self::Leaves { style } => (*style as u32) + 7,
            Self::Poo { style } => (*style as u32) + 48,
            Self::Egg { style } => (*style as u32) + 64,
            Self::Unknown => 16,
        }
    }

    /// The tile a texture index stands for.
    pub fn from_texture(tex: u32) -> (r: Tile)
        ensures
            r == spec_from_texture(tex),
    {
        match tex {
            0 => Tile::Air,
            1..=4 => Tile::Dirt { topsoil: true, style: tex as u8 },
            18 => Tile::Dirt { topsoil: false, style: 5 },
            11 => Tile::Rock { style: tex as u8 },
            8 => Tile::Stalk { style: tex as u8 },
            7 => Tile::Leaves { style: tex as u8 },
            48..=56 => Tile::Egg { style: tex as u8 },
            64..=72 => Tile::Poo { style: tex as u8 },
            _ => Tile::Unknown,
        }
    }

    /// Solidity under the main rule set.
    pub fn is_solid(tile: Tile) -> (r: bool)
        ensures
            r == spec_solid_in_main(tile),
    {
        match tile {
            Tile::Air => false,
            Tile::Egg { .. } => false,
            _ => true,
        }
    }

    /// Solidity under the alternative (dirt-is-walkable) rule set.
    pub fn is_solid_alt(tile: Tile) -> (r: bool)
        ensures
            r == spec_solid_in_alt(tile),
    {
        match tile {
            Tile::Air => false,
            Tile::Egg { .. } => false,
            Tile::Dirt { .. } => false,
            _ => true,
        }
    }
}

/// Drawing one tile over another with the pointer: dirt may be drawn over
/// air while dirt is in stock, air may be drawn over dirt and returns the
/// dirt to stock, and nothing else draws. Returns whether a draw happened
/// and the new dirt stock.
pub fn draw_tile(pointer_tile: &Tile, tile: &Tile, cur_dirts: u32) -> (r: (bool, u32))
    requires
        (pointer_tile is Air && tile is Dirt) ==> cur_dirts < u32::MAX,
    ensures
        (pointer_tile is Dirt && tile is Air && cur_dirts > 0)
            ==> r == (true, (cur_dirts - 1) as u32),
        (pointer_tile is Dirt && tile is Air && cur_dirts == 0) ==> r == (false, cur_dirts),
        (pointer_tile is Air && tile is Dirt)
            ==> r == (true, (cur_dirts + 1) as u32),
        !(pointer_tile is Dirt && tile is Air) && !(pointer_tile is Air && tile is Dirt)
            ==> r == (false, cur_dirts),
{
    let mut did_draw = false;
    let mut dirts = cur_dirts;
    match (*pointer_tile, *tile) {
        (Tile::Dirt { .. }, Tile::Air) => {
            if dirts > 0 {
                dirts = dirts - 1;
                did_draw = true;
            }
        },
        (Tile::Air, Tile::Dirt { .. }) => {
            dirts = dirts + 1;
            did_draw = true;
        },
        _ => {
            did_draw = false;
        },
    }
    (did_draw, dirts)
}

/// The characters of the fixed starting map, row by row, top row first.
pub open spec fn spec_map_ascii() -> Seq<char> {
    "\
    .......................\
    .1................2....\
    .t................t....\
    .t.......####.....#####\
    #####..................\
    .......................\
    ....##...........#####%\
    .......................\
    ##......##...##........\
    ..#..............###...\
    ...#...................\
    .......................\
    ###.................###\
    %%%#################%%%\
    XXXXXXXXXXXXXXXXXXXXXXX"@
}

/// The tile a map character stands for.
pub open spec fn spec_tile_from_ascii(ch: char) -> Tile {
    if ch == '#' {
        Tile::Dirt { style: 0, topsoil: true }
    } else if ch == '%' {
        Tile::Dirt { style: 2, topsoil: false }
    } else if ch == 'X' {
        Tile::Rock { style: 0 }
    } else if ch == '1' {
        Tile::Egg { style: 0 }
    } else if ch == '2' {
        Tile::Egg { style: 1 }
    } else if ch == 'a' {
        Tile::Poo { style: 0 }
    } else if ch == 'b' {
        Tile::Poo { style: 1 }
    } else if ch == 't' {
        Tile::Stalk { style: 0 }
    } else if ch == 'L' {
        Tile::Leaves { style: 1 }
    } else if ch == '.' {
        Tile::Air
    } else {
        Tile::Unknown
    }
}

/// The starting tile at `(x, y)`; the map string's first row is the top
/// row, so the row order is flipped.
pub open spec fn spec_map_tile(x: int, y: int) -> Tile {
    spec_tile_from_ascii(spec_map_ascii()[(MAP_ROWS - y - 1) * MAP_COLS + x])
}

/// The starting tile at `pos`, read from the fixed map.
pub fn get_tile_from_ascii(pos: TilePos) -> (t: Tile)
    requires
        pos.x < MAP_COLS,
        pos.y < MAP_ROWS,
    ensures
        t == spec_map_tile(pos.x as int, pos.y as int),
{
    let tilemap = "\
    .......................\
    .1................2....\
    .t................t....\
    .t.......####.....#####\
    #####..................\
    .......................\
    ....##...........#####%\
    .......................\
    ##......##...##........\
    ..#..............###...\
    ...#...................\
    .......................\
    ###.................###\
    %%%#################%%%\
    XXXXXXXXXXXXXXXXXXXXXXX";
    proof {
        reveal_strlit("\
    .......................\
    .1................2....\
    .t................t....\
    .t.......####.....#####\
    #####..................\
    .......................\
    ....##...........#####%\
    .......................\
    ##......##...##........\
    ..#..............###...\
    ...#...................\
    .......................\
    ###.................###\
    %%%#################%%%\
    XXXXXXXXXXXXXXXXXXXXXXX");
    }
    let row = (MAP_ROWS - 1 - pos.y) as usize;
    assert(row < 15);
    let cols = MAP_COLS as usize;
    assert(cols == 23);
    let idx = row * cols + (pos.x as usize);
    assert(idx < 345) by (nonlinear_arith)
        requires
            row < 15,
            cols == 23,
            pos.x < 23,
            idx == row * cols + pos.x,
    {}
    let ch = tilemap.get_char(idx);
    let t = if ch == '#' {
        Tile::Dirt { style: 0, topsoil: true }
    } else if ch == '%' {
        Tile::Dirt { style: 2, topsoil: false }
    } else if ch == 'X' {
        Tile::Rock { style: 0 }
    } else if ch == '1' {
        Tile::Egg { style: 0 }
    } else if ch == '2' {
        Tile::Egg { style: 1 }
    } else if ch == 'a' {
        Tile::Poo { style: 0 }
    } else if ch == 'b' {
        Tile::Poo { style: 1 }
    } else if ch == 't' {
        Tile::Stalk { style: 0 }
    } else if ch == 'L' {
        Tile::Leaves { style: 1 }
    } else if ch == '.' {
        Tile::Air
    } else {
        Tile::Unknown
    };
    t
}

} // verus!
