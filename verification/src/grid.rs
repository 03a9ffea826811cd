//! The walkability grid ("navmesh"): a fixed-size 2D boolean table over tile
//! coordinates. `true` means solid (blocked). Cells outside the grid read as
//! solid by convention; they are never stored.

use vstd::prelude::*;

verus! {

/// A cell coordinate on the tile map.
#[derive(Clone, Copy, PartialEq, Eq, Structural, Debug)]
pub struct TilePos {
    pub x: u32,
    pub y: u32,
}

/// Two cells are 4-adjacent: they differ by exactly one step along exactly
/// one axis (no diagonals).
pub open spec fn adjacent(a: TilePos, b: TilePos) -> bool {
    ||| (a.x == b.x && (a.y + 1 == b.y || b.y + 1 == a.y))
    ||| (a.y == b.y && (a.x + 1 == b.x || b.x + 1 == a.x))
}

/// Appending to a sequence keeps everything it contains, and adds exactly
/// the appended element.
pub broadcast proof fn lemma_push_contains<A>(s: Seq<A>, v: A, c: A)
    ensures
        #[trigger] s.push(v).contains(c) <==> (s.contains(c) || c == v),
{
    if s.contains(c) {
        let i = choose|i: int| 0 <= i < s.len() && s[i] == c;
        assert(s.push(v)[i] == c);
    }
    if c == v {
        assert(s.push(v)[s.len() as int] == c);
    }
    if s.push(v).contains(c) {
        let i = choose|i: int| 0 <= i < s.push(v).len() && s.push(v)[i] == c;
        if i < s.len() {
            assert(s[i] == c);
        }
    }
}

/// An entity that can or cannot be navigated through while pathfinding.
pub struct Navmesh {
    tiles: Vec<bool>,
    width: u32,
    height: u32,
}

impl Navmesh {
    pub closed spec fn spec_width(&self) -> u32 {
        self.width
    }

    pub closed spec fn spec_height(&self) -> u32 {
        self.height
    }

    pub closed spec fn wf(&self) -> bool {
        self.tiles@.len() == self.width * self.height
    }

    /// Solidity of the cell at mathematical coordinates `(x, y)`:
    /// out-of-bounds coordinates are always solid.
    pub closed spec fn solid_at(&self, x: int, y: int) -> bool {
        if 0 <= x < self.width && 0 <= y < self.height {
            self.tiles@[y * (self.width as int) + x]
        } else {
            true
        }
    }

    pub open spec fn spec_solid(&self, pos: TilePos) -> bool {
        self.solid_at(pos.x as int, pos.y as int)
    }

    pub open spec fn spec_in_bounds(&self, pos: TilePos) -> bool {
        pos.x < self.spec_width() && pos.y < self.spec_height()
    }

    /// A fresh navmesh: every in-bounds cell is non-solid.
    pub fn new(width: u32, height: u32) -> (r: Self)
        requires
            width as int * height as int <= usize::MAX as int,
        ensures
            r.wf(),
            r.spec_width() == width,
            r.spec_height() == height,
            forall|x: int, y: int|
                !(#[trigger] r.solid_at(x, y)) <==> (0 <= x < width && 0 <= y < height),
    {
        let n = (width as usize) * (height as usize);
        let tiles = vec![false; n];
        assert forall|i: int| 0 <= i < n implies !tiles@[i] by {}
        let r = Navmesh { tiles, width, height };
        proof {
            assert forall|x: int, y: int|
                !(#[trigger] r.solid_at(x, y)) <==> (0 <= x < width && 0 <= y < height) by {
                if 0 <= x < width && 0 <= y < height {
                    assert(0 <= y * (width as int) + x < width * height) by (nonlinear_arith)
                        requires
                            0 <= x < width,
                            0 <= y < height,
                    {}
                }
            }
        }
        r
    }

    /// A cell outside the grid is never non-solid.
    pub proof fn lemma_solid_out_of_bounds(&self, pos: TilePos)
        ensures
            !self.spec_in_bounds(pos) ==> self.spec_solid(pos),
    {
    }

    /// The number of cells of the grid, which always fits in a `usize`.
    pub fn cell_count(&self) -> (n: usize)
        requires
            self.wf(),
        ensures
            n == self.spec_width() * self.spec_height(),
    {
        self.tiles.len()
    }

    pub fn width(&self) -> (r: u32)
        ensures
            r == self.spec_width(),
    {
        self.width
    }

    pub fn height(&self) -> (r: u32)
        ensures
            r == self.spec_height(),
    {
        self.height
    }

    pub fn in_bounds(&self, pos: TilePos) -> (r: bool)
        ensures
            r == self.spec_in_bounds(pos),
    {
        pos.x < self.width && pos.y < self.height
    }

    /// Tiles out of bounds are considered solid.
    pub fn solid(&self, pos: TilePos) -> (r: bool)
        requires
            self.wf(),
        ensures
            r == self.spec_solid(pos),
            !self.spec_in_bounds(pos) ==> r,
    {
        if pos.x >= self.width || pos.y >= self.height {
            return true;
        }
        let n = self.tiles.len();
        assert((pos.y as int) * (self.width as int) + (pos.x as int) < n as int)
            by (nonlinear_arith)
            requires
                pos.x < self.width,
                pos.y < self.height,
                n == self.width * self.height,
        {}
        let idx = (pos.y as usize) * (self.width as usize) + (pos.x as usize);
        self.tiles[idx]
    }

    /// Mark the cell at `pos` as solid or non-solid. Callers must not pass
    /// out-of-bounds coordinates to the mutator.
    pub fn set_solid(&mut self, pos: TilePos, solid: bool)
        requires
            old(self).wf(),
            old(self).spec_in_bounds(pos),
        ensures
            final(self).wf(),
            final(self).spec_width() == old(self).spec_width(),
            final(self).spec_height() == old(self).spec_height(),
            final(self).solid_at(pos.x as int, pos.y as int) == solid,
            forall|x: int, y: int|
                !(x == pos.x as int && y == pos.y as int)
                    ==> #[trigger] final(self).solid_at(x, y) == old(self).solid_at(x, y),
    {
        let n = self.tiles.len();
        assert((pos.y as int) * (self.width as int) + (pos.x as int) < n as int)
            by (nonlinear_arith)
            requires
                pos.x < self.width,
                pos.y < self.height,
                n == self.width * self.height,
        {}
        let idx = (pos.y as usize) * (self.width as usize) + (pos.x as usize);
        self.tiles[idx] = solid;
        assert forall|x: int, y: int|
            !(x == pos.x as int && y == pos.y as int) implies #[trigger] self.solid_at(x, y)
            == old(self).solid_at(x, y) by {
            if 0 <= x < self.spec_width() && 0 <= y < self.spec_height() {
                assert(0 <= y * (self.spec_width() as int) + x < n as int
                    && y * (self.spec_width() as int) + x != idx as int) by (nonlinear_arith)
                    requires
                        0 <= x < self.spec_width(),
                        0 <= y < self.spec_height(),
                        0 <= pos.x < self.spec_width(),
                        0 <= pos.y < self.spec_height(),
                        !(x == pos.x as int && y == pos.y as int),
                        idx == pos.y * self.spec_width() + pos.x,
                        n == self.spec_width() * self.spec_height(),
                {}
            }
        }
    }

    /// The exact neighbour list the planner expands: the non-solid cells
    /// among below, left, right, above, in that fixed order.
    pub open spec fn spec_empty_neighbours(&self, pos: TilePos) -> Seq<TilePos> {
        let below = TilePos { x: pos.x, y: (pos.y - 1) as u32 };
        let left = TilePos { x: (pos.x - 1) as u32, y: pos.y };
        let right = TilePos { x: (pos.x + 1) as u32, y: pos.y };
        let above = TilePos { x: pos.x, y: (pos.y + 1) as u32 };
        (if pos.y > 0 && !self.spec_solid(below) {
            seq![below]
        } else {
            Seq::empty()
        }) + (if pos.x > 0 && !self.spec_solid(left) {
            seq![left]
        } else {
            Seq::empty()
        }) + (if !self.spec_solid(right) {
            seq![right]
        } else {
            Seq::empty()
        }) + (if !self.spec_solid(above) {
            seq![above]
        } else {
            Seq::empty()
        })
    }

    /// The non-solid 4-neighbours of `pos`, enumerated in the fixed order
    /// below, left, right, above, so that planning is deterministic: the
    /// result is exactly `spec_empty_neighbours`, which also bounds it by
    /// four cells and keeps it free of duplicates.
    pub fn empty_neighbours(&self, pos: TilePos) -> (r: Vec<TilePos>)
        requires
            self.wf(),
            self.spec_in_bounds(pos),
        ensures
            r@ == self.spec_empty_neighbours(pos),
            r@.len() <= 4,
            forall|c: TilePos| #[trigger]
                r@.contains(c) <==> (adjacent(pos, c) && !self.spec_solid(c)),
    {
        let c1 = TilePos { x: pos.x, y: if pos.y > 0 { pos.y - 1 } else { 0 } };
        let c2 = TilePos { x: if pos.x > 0 { pos.x - 1 } else { 0 }, y: pos.y };
        let c3 = TilePos { x: pos.x + 1, y: pos.y };
        let c4 = TilePos { x: pos.x, y: pos.y + 1 };
        let mut r: Vec<TilePos> = Vec::new();
        if pos.y > 0 && !self.solid(c1) {
            r.push(c1);
        }
        let ghost s1 = r@;
        if pos.x > 0 && !self.solid(c2) {
            r.push(c2);
        }
        let ghost s2 = r@;
        if !self.solid(c3) {
            r.push(c3);
        }
        let ghost s3 = r@;
        if !self.solid(c4) {
            r.push(c4);
        }
        proof {
            assert(r@ =~= self.spec_empty_neighbours(pos));
            assert forall|c: TilePos| #[trigger]
                r@.contains(c) implies adjacent(pos, c) && !self.spec_solid(c) by {
                let i = choose|i: int| 0 <= i < r@.len() && r@[i] == c;
                assert(c == c1 || c == c2 || c == c3 || c == c4);
            }
            assert forall|c: TilePos|
                adjacent(pos, c) && !self.spec_solid(c) implies #[trigger] r@.contains(c) by {
                if c.x == pos.x && c.y + 1 == pos.y {
                    assert(c == c1);
                    assert(s1[0] == c && s1.len() >= 1);
                    assert(r@[0] == c);
                } else if c.y == pos.y && c.x + 1 == pos.x {
                    assert(c == c2);
                    assert(s2[s1.len() as int] == c && s2.len() == s1.len() + 1);
                    assert(r@[s1.len() as int] == c);
                } else if c.y == pos.y && c.x == pos.x + 1 {
                    assert(c == c3);
                    assert(s3[s2.len() as int] == c && s3.len() == s2.len() + 1);
                    assert(r@[s2.len() as int] == c);
                } else {
                    assert(c == c4);
                    assert(r@[s3.len() as int] == c);
                }
            }
        }
        r
    }
}

} // verus!
