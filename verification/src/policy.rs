//! The agent decision policy: an idle agent paths to a compatible egg if
//! one is reachable, else plans through diggable dirt toward one and keeps
//! the walkable-then-dig prefix of that route, else wanders to a random
//! free cell, with a bounded retry budget; when the map holds no free cell
//! at all, that is a terminal no-moves condition, not a panic.

use vstd::prelude::*;
use crate::game::NavmeshPair;
use crate::grid::{Navmesh, TilePos};
use crate::path::Pathfinding;
use crate::rng::random_below;
use crate::search::{is_path, reachable};
use crate::settings::{MAP_COLS, MAP_ROWS, WANDER_RETRIES};
use crate::terrain::{match_faction, spec_egg_faction, spec_match_faction, Faction, Tile};

verus! {

broadcast use crate::grid::lemma_push_contains;

/// The egg style of a tile; meaningful only for egg tiles.
pub open spec fn spec_tile_egg_style(t: Tile) -> u8 {
    match t {
        Tile::Egg { style } => style,
        _ => 2,
    }
}

/// There is an egg at `p` on the map.
pub open spec fn spec_egg_at(tiles: Seq<Tile>, p: TilePos) -> bool {
    &&& p.x < MAP_COLS
    &&& p.y < MAP_ROWS
    &&& tiles[p.y * (MAP_COLS as int) + p.x] is Egg
}

/// There is an egg at `p` that an agent of `faction` may target.
pub open spec fn spec_egg_compat(tiles: Seq<Tile>, faction: Faction, p: TilePos) -> bool {
    &&& spec_egg_at(tiles, p)
    &&& spec_match_faction(
        faction,
        spec_egg_faction(spec_tile_egg_style(tiles[p.y * (MAP_COLS as int) + p.x])),
    )
}

/// Every on-map cell of the grid is solid: the terminal no-moves state.
pub open spec fn spec_grid_fully_solid(m: Navmesh) -> bool {
    forall|c: TilePos| c.x < MAP_COLS && c.y < MAP_ROWS ==> #[trigger] m.spec_solid(c)
}

/// What the decision pass came up with for one agent.
pub enum TargetOutcome {
    /// A full route to a compatible egg across the main navmesh.
    ToEgg { route: Pathfinding },
    /// The walk-then-dig prefix of a route to a compatible egg across the
    /// dirt-is-walkable navmesh.
    DigToward { route: Pathfinding },
    /// A route to a random free cell.
    Wander { route: Pathfinding },
    /// Free cells exist but the retry budget found none reachable.
    GiveUp,
    /// The map holds no free cell at all: the terminal no-moves condition.
    NoMoves,
}

/// Find a random non-solid tile of the grid; `None` exactly when every
/// cell of the grid is solid.
pub fn find_empty_tile(navmesh: &Navmesh, width: u32, height: u32) -> (r: Option<TilePos>)
    requires
        navmesh.wf(),
        width == navmesh.spec_width(),
        height == navmesh.spec_height(),
        width as int * height as int <= u32::MAX as int,
    ensures
        r matches Some(t) ==> t.x < width && t.y < height && !navmesh.spec_solid(t),
        r is None ==> forall|c: TilePos| c.x < width && c.y < height
            ==> #[trigger] navmesh.spec_solid(c),
{
    let mut free_spots: Vec<TilePos> = Vec::new();
    let mut j: u32 = 0;
    while j < height
        invariant
            j <= height,
            navmesh.wf(),
            width == navmesh.spec_width(),
            height == navmesh.spec_height(),
            width as int * height as int <= u32::MAX as int,
            free_spots@.len() <= j * width,
            forall|k: int| 0 <= k < free_spots@.len()
                ==> (#[trigger] free_spots@[k]).x < width && free_spots@[k].y < height
                    && !navmesh.spec_solid(free_spots@[k]),
            forall|c: TilePos| c.x < width && c.y < j && !navmesh.spec_solid(c)
                ==> #[trigger] free_spots@.contains(c),
        decreases height - j,
    {
        let mut i: u32 = 0;
        while i < width
            invariant
                i <= width,
                j < height,
                navmesh.wf(),
                width == navmesh.spec_width(),
                height == navmesh.spec_height(),
                width as int * height as int <= u32::MAX as int,
                free_spots@.len() <= j * width + i,
                forall|k: int| 0 <= k < free_spots@.len()
                    ==> (#[trigger] free_spots@[k]).x < width && free_spots@[k].y < height
                        && !navmesh.spec_solid(free_spots@[k]),
                forall|c: TilePos| c.x < width && c.y < j && !navmesh.spec_solid(c)
                    ==> #[trigger] free_spots@.contains(c),
                forall|c: TilePos| c.x < i && c.y == j && !navmesh.spec_solid(c)
                    ==> #[trigger] free_spots@.contains(c),
            decreases width - i,
        {
            let target = TilePos { x: i, y: j };
            if !navmesh.solid(target) {
                free_spots.push(target);
                proof {
                    assert(free_spots@[free_spots@.len() - 1] == target);
                }
            }
            proof {
                assert forall|c: TilePos| c.x < i + 1 && c.y == j && !navmesh.spec_solid(c)
                    implies #[trigger] free_spots@.contains(c) by {
                    if c.x < i {
                    } else {
                        assert(c == TilePos { x: i, y: j });
                    }
                }
            }
            i = i + 1;
        }
        proof {
            assert forall|c: TilePos| c.x < width && c.y < j + 1 && !navmesh.spec_solid(c)
                implies #[trigger] free_spots@.contains(c) by {
                if c.y < j {
                } else {
                    assert(c.y == j && c.x < width);
                }
            }
            assert(free_spots@.len() <= (j + 1) * width) by (nonlinear_arith)
                requires
                    free_spots@.len() <= j * width + width,
            {}
        }
        j = j + 1;
    }
    if free_spots.len() == 0 {
        proof {
            assert forall|c: TilePos| c.x < width && c.y < height
                implies #[trigger] navmesh.spec_solid(c) by {
                if !navmesh.spec_solid(c) {
                    assert(free_spots@.contains(c));
                }
            }
        }
        return None;
    }
    proof {
        assert(free_spots@.len() <= height * width <= u32::MAX) by (nonlinear_arith)
            requires
                free_spots@.len() <= height * width,
                width as int * height as int <= u32::MAX as int,
        {}
    }
    let k = random_below(free_spots.len() as u32);
    Some(free_spots[k as usize])
}

/// The compatible eggs on the map, as `(cell, faction)` records; the list
/// holds exactly the cells with an egg the agent may target.
fn gather_targets(tiles: &Vec<Tile>, faction: Faction) -> (r: Vec<TilePos>)
    requires
        tiles@.len() == MAP_COLS * MAP_ROWS,
    ensures
        forall|c: TilePos| r@.contains(c) <==> spec_egg_compat(tiles@, faction, c),
        r@.len() <= 345,
{
    let mut r: Vec<TilePos> = Vec::new();
    let cols = MAP_COLS as usize;
    let rows = MAP_ROWS as usize;
    assert(cols == 23 && rows == 15);
    let mut j: usize = 0;
    while j < rows
        invariant
            j <= rows,
            cols == 23,
            rows == 15,
            tiles@.len() == MAP_COLS * MAP_ROWS,
            r@.len() <= j * 23,
            forall|k: int| 0 <= k < r@.len()
                ==> spec_egg_compat(tiles@, faction, #[trigger] r@[k]),
            forall|c: TilePos| c.y < j && spec_egg_compat(tiles@, faction, c)
                ==> #[trigger] r@.contains(c),
        decreases rows - j,
    {
        let mut i: usize = 0;
        while i < cols
            invariant
                i <= cols,
                j < rows,
                cols == 23,
                rows == 15,
                tiles@.len() == MAP_COLS * MAP_ROWS,
                r@.len() <= j * 23 + i,
                forall|k: int| 0 <= k < r@.len()
                    ==> spec_egg_compat(tiles@, faction, #[trigger] r@[k]),
                forall|c: TilePos| c.y < j && spec_egg_compat(tiles@, faction, c)
                    ==> #[trigger] r@.contains(c),
                forall|c: TilePos| c.x < i && c.y == j && spec_egg_compat(tiles@, faction, c)
                    ==> #[trigger] r@.contains(c),
            decreases cols - i,
        {
            let idx = j * cols + i;
            assert(idx < 345 && idx == j * 23 + i) by (nonlinear_arith)
                requires
                    j < 15,
                    i < 23,
                    cols == 23,
                    idx == j * cols + i,
            {}
            let pos = TilePos { x: i as u32, y: j as u32 };
            let compatible = match tile_at_index(tiles, idx) {
                Tile::Egg { style } => match_faction(faction, crate::terrain::egg_faction(style)),
                _ => false,
            };
            if compatible {
                r.push(pos);
                proof {
                    assert(r@[r@.len() - 1] == pos);
                }
            }
            proof {
                assert forall|c: TilePos| c.x < i + 1 && c.y == j
                    && spec_egg_compat(tiles@, faction, c) implies #[trigger] r@.contains(c) by {
                    if c.x < i {
                    } else {
                        assert(c == pos);
                    }
                }
            }
            i = i + 1;
        }
        proof {
            assert forall|c: TilePos| c.y < j + 1 && spec_egg_compat(tiles@, faction, c)
                implies #[trigger] r@.contains(c) by {
                if c.y < j {
                } else {
                    assert(c.y == j && c.x < MAP_COLS);
                }
            }
            assert(r@.len() <= (j + 1) * 23);
        }
        j = j + 1;
    }
    proof {
        assert(r@.len() <= 345);
    }
    r
}

/// The tile at a raw index.
fn tile_at_index(tiles: &Vec<Tile>, idx: usize) -> (t: Tile)
    requires
        idx < tiles@.len(),
    ensures
        t == tiles@[idx as int],
{
    tiles[idx]
}

/// The walk-then-dig prefix of an alternative-navmesh route: the cells
/// after the start, cut just after the first cell that is solid in the
/// main navmesh.
fn truncate_at_dirt(main: &Navmesh, path: &Pathfinding) -> (r: Vec<TilePos>)
    requires
        main.wf(),
        path.wf(),
    ensures
        r@.len() <= path.path@.len() - 1,
        forall|i: int| 0 <= i < r@.len() ==> #[trigger] r@[i] == path.path@[i + 1],
        forall|i: int| 0 <= i < r@.len() - 1 ==> !main.spec_solid(#[trigger] r@[i]),
        r@.len() > 0 ==> (main.spec_solid(r@[r@.len() - 1]) || r@.len() == path.path@.len() - 1),
{
    let mut r: Vec<TilePos> = Vec::new();
    let mut idx: usize = 1;
    while idx < path.path.len()
        invariant_except_break
            r@.len() == idx - 1,
            forall|i: int| 0 <= i < r@.len() ==> !main.spec_solid(#[trigger] r@[i]),
        invariant
            main.wf(),
            path.wf(),
            1 <= idx <= path.path@.len(),
            forall|i: int| 0 <= i < r@.len() ==> #[trigger] r@[i] == path.path@[i + 1],
        ensures
            r@.len() <= path.path@.len() - 1,
            forall|i: int| 0 <= i < r@.len() ==> #[trigger] r@[i] == path.path@[i + 1],
            forall|i: int| 0 <= i < r@.len() - 1 ==> !main.spec_solid(#[trigger] r@[i]),
            r@.len() > 0 ==> (main.spec_solid(r@[r@.len() - 1]) || r@.len() == path.path@.len()
                - 1),
        decreases path.path@.len() - idx,
    {
        let pos = path.path[idx];
        r.push(pos);
        if main.solid(pos) {
            break;
        }
        idx = idx + 1;
    }
    r
}

/// Decide what an idle agent at cell `entity_pos` does next. The choice of
/// egg and of wander cell is uniformly random, so the contract states what
/// holds of every outcome: a returned route is well-formed, starts next to
/// the agent, and leads where its variant says.
pub fn find_target(
    navmesh: &NavmeshPair,
    tiles: &Vec<Tile>,
    faction: Faction,
    entity_pos: TilePos,
) -> (r: TargetOutcome)
    requires
        navmesh.wf(),
        navmesh.spec_width() == MAP_COLS,
        navmesh.spec_height() == MAP_ROWS,
        tiles@.len() == MAP_COLS * MAP_ROWS,
        entity_pos.x < MAP_COLS,
        entity_pos.y < MAP_ROWS,
    ensures
        r matches TargetOutcome::ToEgg { route } ==> route.at == 0 && route.wf()
            && exists|e: TilePos|
            #[trigger] spec_egg_compat(tiles@, faction, e) && is_path(
                navmesh.main,
                route.path@,
                entity_pos,
                e,
            ),
        r matches TargetOutcome::DigToward { route } ==> route.at == 0 && route.wf()
            && exists|full: Seq<TilePos>, e: TilePos|
            {
                &&& #[trigger] spec_egg_compat(tiles@, faction, e)
                &&& #[trigger] is_path(navmesh.alt, full, entity_pos, e)
                &&& route.path@.len() <= full.len() - 1
                &&& forall|i: int| 0 <= i < route.path@.len()
                    ==> #[trigger] route.path@[i] == full[i + 1]
                &&& forall|i: int| 0 <= i < route.path@.len() - 1
                    ==> !navmesh.main.spec_solid(#[trigger] route.path@[i])
                &&& (navmesh.main.spec_solid(route.path@[route.path@.len() - 1])
                    || route.path@.len() == full.len() - 1)
            },
        r matches TargetOutcome::Wander { route } ==> route.at == 0 && route.wf()
            && exists|t: TilePos|
            !(#[trigger] navmesh.main.spec_solid(t)) && is_path(
                navmesh.main,
                route.path@,
                entity_pos,
                t,
            ),
        r is NoMoves ==> spec_grid_fully_solid(navmesh.main),
        r is GiveUp ==> exists|t: TilePos|
            !(#[trigger] navmesh.main.spec_solid(t)) && !reachable(
                navmesh.main,
                entity_pos,
                t,
            ),
        (r is GiveUp || r is Wander) && (exists|e: TilePos|
            #[trigger] spec_egg_compat(tiles@, faction, e)) ==> exists|e: TilePos|
            #[trigger] spec_egg_compat(tiles@, faction, e) && !reachable(
                navmesh.main,
                entity_pos,
                e,
            ),
{
    let targets = gather_targets(tiles, faction);
    if targets.len() > 0 {
        let pick = random_below(targets.len() as u32) as usize;
        let egg_pos = targets[pick];
        proof {
            assert(targets@.contains(targets@[pick as int]));
        }
        if let Some(route) = Pathfinding::astar(&navmesh.main, entity_pos, egg_pos) {
            return TargetOutcome::ToEgg { route };
        }
        if let Some(alt_route) = Pathfinding::astar(&navmesh.alt, entity_pos, egg_pos) {
            let p = truncate_at_dirt(&navmesh.main, &alt_route);
            if p.len() > 0 {
                let route = Pathfinding { path: p, at: 0 };
                proof {
                    assert(spec_egg_compat(tiles@, faction, egg_pos));
                    assert(is_path(navmesh.alt, alt_route.path@, entity_pos, egg_pos));
                }
                return TargetOutcome::DigToward { route };
            }
        }
        proof {
            // the drawn egg could not be reached across the main grid
            assert(spec_egg_compat(tiles@, faction, egg_pos) && !reachable(
                navmesh.main,
                entity_pos,
                egg_pos,
            ));
        }
    } else {
        proof {
            assert(!(exists|e: TilePos| #[trigger] spec_egg_compat(tiles@, faction, e))) by {
                if exists|e: TilePos| #[trigger] spec_egg_compat(tiles@, faction, e) {
                    let e = choose|e: TilePos| #[trigger] spec_egg_compat(tiles@, faction, e);
                    assert(targets@.contains(e));
                }
            }
        }
    }
    let mut retries: u32 = WANDER_RETRIES;
    loop
        invariant
            navmesh.wf(),
            navmesh.spec_width() == MAP_COLS,
            navmesh.spec_height() == MAP_ROWS,
            entity_pos.x < MAP_COLS,
            entity_pos.y < MAP_ROWS,
            (exists|e: TilePos| #[trigger] spec_egg_compat(tiles@, faction, e))
                ==> exists|e: TilePos|
                #[trigger] spec_egg_compat(tiles@, faction, e) && !reachable(
                    navmesh.main,
                    entity_pos,
                    e,
                ),
        ensures
            true,
        decreases retries,
    {
        match find_empty_tile(&navmesh.main, MAP_COLS, MAP_ROWS) {
            None => {
                return TargetOutcome::NoMoves;
            },
            Some(t) => {
                if let Some(route) = Pathfinding::astar(&navmesh.main, entity_pos, t) {
                    return TargetOutcome::Wander { route };
                }
                proof {
                    assert(!navmesh.main.spec_solid(t) && !reachable(
                        navmesh.main,
                        entity_pos,
                        t,
                    ));
                }
                if retries == 0 {
                    return TargetOutcome::GiveUp;
                }
                retries = retries - 1;
            },
        }
    }
}

} // verus!
