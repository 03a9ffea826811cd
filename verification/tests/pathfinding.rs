use rumblebees::grid::{Navmesh, TilePos};
use rumblebees::path::{px_to_tilepos, tilepos_to_px, Pathfinding, WorldPos};
use rumblebees::policy::find_empty_tile;
use rumblebees::settings::{GAP_LEFT, TILE_CENTER_OFFSET, TILE_SIZE};

fn pos(x: u32, y: u32) -> TilePos {
    TilePos { x, y }
}

fn manhattan(a: TilePos, b: TilePos) -> u32 {
    a.x.abs_diff(b.x) + a.y.abs_diff(b.y)
}

#[test]
fn out_of_bounds_is_always_solid() {
    let g = Navmesh::new(5, 5);
    assert!(g.solid(pos(5, 0)));
    assert!(g.solid(pos(0, 5)));
    assert!(g.solid(pos(1000, 1000)));
    assert!(!g.solid(pos(0, 0)));
    assert!(!g.solid(pos(4, 4)));
}

#[test]
fn set_solid_changes_exactly_one_cell() {
    let mut g = Navmesh::new(5, 5);
    g.set_solid(pos(2, 3), true);
    assert!(g.solid(pos(2, 3)));
    assert!(!g.solid(pos(3, 2)));
    assert!(!g.solid(pos(2, 2)));
    g.set_solid(pos(2, 3), false);
    assert!(!g.solid(pos(2, 3)));
}

#[test]
fn neighbours_are_the_free_cardinal_cells() {
    let mut g = Navmesh::new(3, 3);
    g.set_solid(pos(1, 0), true);
    let ns = g.empty_neighbours(pos(1, 1));
    // below is solid; left, right and above are free
    assert_eq!(ns.len(), 3);
    assert!(ns.contains(&pos(0, 1)));
    assert!(ns.contains(&pos(2, 1)));
    assert!(ns.contains(&pos(1, 2)));
    assert!(!ns.contains(&pos(1, 0)));
}

#[test]
fn open_grid_path_is_manhattan_optimal_with_monotonic_progress() {
    let g = Navmesh::new(5, 5);
    let route = Pathfinding::astar(&g, pos(0, 0), pos(4, 4)).expect("path on open grid");
    assert_eq!(route.at, 0);
    assert_eq!(route.path.len(), 9);
    assert_eq!(route.path[0], pos(0, 0));
    assert_eq!(route.path[8], pos(4, 4));
    for w in route.path.windows(2) {
        assert_eq!(manhattan(w[0], w[1]), 1);
        assert!(!g.solid(w[1]));
        // each step comes strictly closer to the goal
        assert_eq!(manhattan(w[1], pos(4, 4)) + 1, manhattan(w[0], pos(4, 4)));
    }
}

#[test]
fn blocked_cells_force_a_detour() {
    // the open grid of the optimality test, with two cells on the middle
    // column made solid
    let mut g = Navmesh::new(5, 5);
    g.set_solid(pos(2, 2), true);
    g.set_solid(pos(2, 3), true);
    let route = Pathfinding::astar(&g, pos(0, 0), pos(4, 4)).expect("detour exists");
    assert_eq!(*route.path.first().unwrap(), pos(0, 0));
    assert_eq!(*route.path.last().unwrap(), pos(4, 4));
    for w in route.path.windows(2) {
        assert_eq!(manhattan(w[0], w[1]), 1);
        assert!(!g.solid(w[1]));
    }
    assert!(!route.path.contains(&pos(2, 2)));
    assert!(!route.path.contains(&pos(2, 3)));
}

#[test]
fn a_fully_walled_off_goal_is_unreachable() {
    let mut g = Navmesh::new(5, 5);
    for y in 0..5 {
        g.set_solid(pos(2, y), true);
    }
    assert!(Pathfinding::astar(&g, pos(0, 0), pos(4, 4)).is_none());
}

#[test]
fn a_solid_goal_gives_no_path() {
    let mut g = Navmesh::new(5, 5);
    g.set_solid(pos(3, 3), true);
    assert!(Pathfinding::astar(&g, pos(0, 0), pos(3, 3)).is_none());
}

#[test]
fn the_trivial_path_is_the_start_itself() {
    let g = Navmesh::new(5, 5);
    let route = Pathfinding::astar(&g, pos(2, 2), pos(2, 2)).expect("trivial path");
    assert_eq!(route.path.len(), 1);
    assert_eq!(route.path[0], pos(2, 2));
}

#[test]
fn step_advances_and_then_retires() {
    let g = Navmesh::new(3, 1);
    let mut route = Pathfinding::astar(&g, pos(0, 0), pos(2, 0)).expect("straight line");
    assert_eq!(route.path.len(), 3);
    assert!(route.step());
    assert_eq!(route.at, 1);
    assert!(route.step());
    assert_eq!(route.at, 2);
    // at the last node, step returns false and leaves the cursor alone
    assert!(!route.step());
    assert_eq!(route.at, 2);
    assert!(!route.step());
    assert_eq!(route.at, 2);
}

#[test]
fn remaining_contains_only_looks_ahead_of_the_cursor() {
    let g = Navmesh::new(3, 1);
    let mut route = Pathfinding::astar(&g, pos(0, 0), pos(2, 0)).expect("straight line");
    assert!(route.remaining_contains(pos(0, 0)));
    route.step();
    assert!(!route.remaining_contains(pos(0, 0)));
    assert!(route.remaining_contains(pos(1, 0)));
    assert!(route.remaining_contains(pos(2, 0)));
}

#[test]
fn find_empty_tile_sees_free_cells_and_full_grids() {
    let mut g = Navmesh::new(2, 2);
    let t = find_empty_tile(&g, 2, 2).expect("free cell");
    assert!(!g.solid(t));
    for x in 0..2 {
        for y in 0..2 {
            g.set_solid(pos(x, y), true);
        }
    }
    assert!(find_empty_tile(&g, 2, 2).is_none());
}

#[test]
fn world_point_conversions_are_inverse_on_cells() {
    let c = pos(7, 3);
    let p = tilepos_to_px(&c);
    assert_eq!(p.x, 7 * TILE_SIZE + TILE_CENTER_OFFSET + GAP_LEFT);
    assert_eq!(p.y, 3 * TILE_SIZE + TILE_CENTER_OFFSET);
    let back = px_to_tilepos(WorldPos { x: p.x - GAP_LEFT, y: p.y });
    assert_eq!(back, c);
}
