//! The pointer: the player's cursor, which picks up a drawing tile from
//! what it presses on — dirt to draw over air, nothing over rock, and the
//! eraser otherwise.

use vstd::prelude::*;
use crate::path::WorldPos;
use crate::terrain::Tile;

verus! {

/// The pointer's state: its world position, its button state, and the
/// tile it currently draws with.
pub struct Pointer {
    pub pos: WorldPos,
    pub is_down: bool,
    pub pressed: bool,
    pub released: bool,
    pub tile: Tile,
}

impl Pointer {
    /// On a fresh press, pick the drawing tile from the tile under the
    /// pointer: air turns the pointer into a dirt brush, rock is kept
    /// (and blocks drawing), anything else turns it into an eraser; the
    /// press is consumed. Without a press, nothing changes.
    pub fn set_active_item(&mut self, tile: Tile)
        ensures
            !old(self).pressed ==> *final(self) == *old(self),
            old(self).pressed ==> {
                &&& final(self).tile == (if tile is Air {
                    Tile::Dirt { style: 1, topsoil: true }
                } else if tile is Rock {
                    tile
                } else {
                    Tile::Air
                })
                &&& final(self).is_down == !(final(self).tile is Rock)
                &&& !final(self).pressed
                &&& final(self).pos == old(self).pos
                &&& final(self).released == old(self).released
            },
    {
        if self.pressed {
            self.tile = match tile {
                Tile::Air => Tile::Dirt { style: 1, topsoil: true },
                Tile::Rock { style } => Tile::Rock { style },
                _ => Tile::Air,
            };
            self.is_down = match self.tile {
                Tile::Rock { .. } => false,
                _ => true,
            };
            self.pressed = false;
        }
    }
}

impl Default for Pointer {
    /// A fresh pointer: parked far off-screen, buttons up, drawing
    /// nothing meaningful yet.
    fn default() -> (r: Pointer)
        ensures
            r.pos.x == -1000 && r.pos.y == -1000,
            !r.is_down,
            !r.pressed,
            !r.released,
            r.tile is Unknown,
    {
        Pointer {
            pos: WorldPos { x: -1000, y: -1000 },
            is_down: false,
            pressed: false,
            released: false,
            tile: Tile::Unknown,
        }
    }
}

} // verus!
