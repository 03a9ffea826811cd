//! Planned routes: an ordered sequence of grid cells with a cursor marking
//! the cell an agent is currently steering for, and the conversions between
//! tile coordinates and world-space points.

use vstd::prelude::*;
use crate::grid::TilePos;
use crate::settings::{TILE_SIZE, GAP_LEFT, TILE_CENTER_OFFSET};

verus! {

/// A point in world space, in whole world units.
#[derive(Clone, Copy, PartialEq, Eq, Structural, Debug)]
pub struct WorldPos {
    pub x: i64,
    pub y: i64,
}

/// The world-space point an agent steers for when walking onto `pos`.
pub open spec fn spec_tilepos_to_px(pos: TilePos) -> WorldPos {
    WorldPos {
        x: (pos.x * TILE_SIZE + TILE_CENTER_OFFSET + GAP_LEFT) as i64,
        y: (pos.y * TILE_SIZE + TILE_CENTER_OFFSET) as i64,
    }
}

/// Maps a tile to the world-space point at which an agent stands on it.
pub fn tilepos_to_px(pos: &TilePos) -> (r: WorldPos)
    ensures
        r == spec_tilepos_to_px(*pos),
{
    WorldPos {
        x: (pos.x as i64) * TILE_SIZE + TILE_CENTER_OFFSET + GAP_LEFT,
        y: (pos.y as i64) * TILE_SIZE + TILE_CENTER_OFFSET,
    }
}

/// The tile whose square contains the world-space point `pos`
/// (for points left of the map or below it, the nearest column or row).
pub open spec fn spec_px_to_tilepos(pos: WorldPos) -> TilePos {
    TilePos {
        x: (if pos.x < 0 { 0 } else { pos.x / TILE_SIZE }) as u32,
        y: (if pos.y < 0 { 0 } else { pos.y / TILE_SIZE }) as u32,
    }
}

/// Maps a world-space point back to the tile it lies on.
pub fn px_to_tilepos(pos: WorldPos) -> (r: TilePos)
    requires
        pos.x <= u32::MAX as int * TILE_SIZE,
        pos.y <= u32::MAX as int * TILE_SIZE,
    ensures
        r == spec_px_to_tilepos(pos),
{
    let x = if pos.x < 0 { 0 } else { pos.x / TILE_SIZE };
    let y = if pos.y < 0 { 0 } else { pos.y / TILE_SIZE };
    TilePos { x: x as u32, y: y as u32 }
}

/// A route produced by the planner: the cells to walk, in order, and the
/// index of the cell currently steered for.
#[derive(Debug)]
pub struct Pathfinding {
    pub path: Vec<TilePos>,
    pub at: usize,
}

impl Pathfinding {
    /// A route is well-formed while its cursor lies inside the path.
    pub open spec fn wf(&self) -> bool {
        0 < self.path@.len() && self.at < self.path@.len()
    }

    /// The cell the route's cursor points at.
    pub fn current(&self) -> (r: TilePos)
        requires
            self.wf(),
        ensures
            r == self.path@[self.at as int],
    {
        self.path[self.at]
    }

    /// The world-space point of the cell the cursor points at.
    pub fn current_target(&self) -> (r: WorldPos)
        requires
            self.wf(),
        ensures
            r == spec_tilepos_to_px(self.path@[self.at as int]),
    {
        let cur = self.current();
        tilepos_to_px(&cur)
    }

    /// Increment the node that the pathing is at.
    /// Returns true if there was another node; at the last node, returns
    /// false and leaves the cursor unchanged (the caller then retires the
    /// route).
    pub fn step(&mut self) -> (r: bool)
        requires
            old(self).wf(),
        ensures
            final(self).wf(),
            final(self).path == old(self).path,
            r == (old(self).at + 1 < old(self).path@.len()),
            r ==> final(self).at == old(self).at + 1,
            !r ==> final(self).at == old(self).at,
    {
        if self.at >= self.path.len() - 1 {
            return false;
        }
        self.at = self.at + 1;
        true
    }

    /// An owned copy of the route.
    pub fn duplicate(&self) -> (r: Self)
        ensures
            r.path@ == self.path@,
            r.at == self.at,
    {
        let path = self.path.clone();
        proof {
            assert(path@ =~= self.path@);
        }
        Pathfinding { path, at: self.at }
    }

    /// The cells the route has not yet passed: the cell steered for now and
    /// everything after it.
    pub open spec fn remaining(&self) -> Seq<TilePos> {
        self.path@.subrange(self.at as int, self.path@.len() as int)
    }

    /// Whether any not-yet-passed cell of the route is `pos`.
    pub fn remaining_contains(&self, pos: TilePos) -> (r: bool)
        requires
            self.wf(),
        ensures
            r == self.remaining().contains(pos),
    {
        let mut i = self.at;
        while i < self.path.len()
            invariant
                self.wf(),
                self.at <= i <= self.path@.len(),
                forall|j: int| self.at <= j < i ==> self.path@[j] != pos,
            decreases self.path@.len() - i,
        {
            if self.path[i].x == pos.x && self.path[i].y == pos.y {
                proof {
                    assert(self.remaining()[i - self.at] == pos);
                }
                return true;
            }
            i = i + 1;
        }
        proof {
            assert forall|j: int| 0 <= j < self.remaining().len()
                implies self.remaining()[j] != pos by {
                assert(self.remaining()[j] == self.path@[j + self.at]);
            }
        }
        false
    }
}

} // verus!
