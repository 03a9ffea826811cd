use rumblebees::combat::close;
use rumblebees::grid::TilePos;
use rumblebees::mover::displacement;
use rumblebees::path::{tilepos_to_px, Pathfinding, WorldPos};
use rumblebees::pointer::Pointer;
use rumblebees::terrain::{draw_tile, match_faction, Faction, Tile};
use rumblebees::world::{Agent, AgentState, World};

fn pos(x: u32, y: u32) -> TilePos {
    TilePos { x, y }
}

fn air_route(cells: Vec<TilePos>) -> AgentState {
    AgentState::Routed { route: Pathfinding { path: cells, at: 0 } }
}

fn agent_at_cell(id: u64, faction: Faction, cell: TilePos, state: AgentState) -> Agent {
    Agent { id, faction, pos: tilepos_to_px(&cell), speed: 100_000, state }
}

#[test]
fn the_starting_world_matches_the_map() {
    let w = World::new();
    // the bottom row is rock, the top row is air
    assert!(matches!(w.tile_at(pos(0, 0)), Tile::Rock { .. }));
    assert!(matches!(w.tile_at(pos(22, 0)), Tile::Rock { .. }));
    assert!(matches!(w.tile_at(pos(0, 14)), Tile::Air));
    // the two starting eggs sit near the top corners
    assert!(matches!(w.tile_at(pos(1, 13)), Tile::Egg { style: 0 }));
    assert!(matches!(w.tile_at(pos(18, 13)), Tile::Egg { style: 1 }));
    // stalks carry the left egg
    assert!(matches!(w.tile_at(pos(1, 12)), Tile::Stalk { .. }));
    // rock is solid in both meshes, air in neither, eggs in neither
    assert!(w.navmesh.main.solid(pos(0, 0)));
    assert!(w.navmesh.alt.solid(pos(0, 0)));
    assert!(!w.navmesh.main.solid(pos(0, 14)));
    assert!(!w.navmesh.main.solid(pos(1, 13)));
    // dirt is solid in the main mesh but walkable in the alternative one
    assert!(matches!(w.tile_at(pos(0, 6)), Tile::Dirt { .. }));
    assert!(w.navmesh.main.solid(pos(0, 6)));
    assert!(!w.navmesh.alt.solid(pos(0, 6)));
    assert_eq!(w.agents.len(), 0);
    assert_eq!(w.spawns.len(), 2);
}

#[test]
fn a_terrain_edit_updates_both_meshes() {
    let mut w = World::new();
    assert!(!w.navmesh.main.solid(pos(3, 5)));
    w.set_tile(pos(3, 5), Tile::Dirt { topsoil: true, style: 0 });
    assert!(w.navmesh.main.solid(pos(3, 5)));
    assert!(!w.navmesh.alt.solid(pos(3, 5)));
    w.set_tile(pos(3, 5), Tile::Rock { style: 0 });
    assert!(w.navmesh.main.solid(pos(3, 5)));
    assert!(w.navmesh.alt.solid(pos(3, 5)));
    w.set_tile(pos(3, 5), Tile::Air);
    assert!(!w.navmesh.main.solid(pos(3, 5)));
    assert!(!w.navmesh.alt.solid(pos(3, 5)));
}

#[test]
fn an_edit_on_the_remaining_route_invalidates_it() {
    // scenario: an agent mid-route; the cell ahead of it turns solid
    let mut w = World::new();
    w.agents.push(agent_at_cell(
        0,
        Faction::Red,
        pos(3, 5),
        air_route(vec![pos(3, 5), pos(4, 5)]),
    ));
    w.next_id = 1;
    w.set_tile(pos(4, 5), Tile::Rock { style: 0 });
    assert!(matches!(w.agents[0].state, AgentState::Idle));

    // the next decision pass assigns a fresh route that avoids the
    // now-solid cell
    w.find_targets();
    match &w.agents[0].state {
        AgentState::Routed { route } => {
            for c in route.path.iter().skip(1) {
                assert_ne!(*c, pos(4, 5));
            }
        },
        AgentState::Idle => {},
        _ => panic!("unexpected state after replanning"),
    }
}

#[test]
fn an_edit_off_the_route_changes_nothing() {
    let mut w = World::new();
    w.agents.push(agent_at_cell(
        0,
        Faction::Red,
        pos(3, 5),
        air_route(vec![pos(3, 5), pos(4, 5)]),
    ));
    w.next_id = 1;
    // a solid edit elsewhere leaves the route alone
    w.set_tile(pos(10, 10), Tile::Dirt { topsoil: true, style: 0 });
    match &w.agents[0].state {
        AgentState::Routed { route } => {
            assert_eq!(route.path, vec![pos(3, 5), pos(4, 5)]);
            assert_eq!(route.at, 0);
        },
        _ => panic!("route should have survived"),
    }
    // a non-solid edit on the route also leaves it alone
    w.set_tile(pos(4, 5), Tile::Air);
    assert!(matches!(w.agents[0].state, AgentState::Routed { .. }));
    // a cell already passed by the cursor no longer counts as remaining
    if let AgentState::Routed { route } = &mut w.agents[0].state {
        route.step();
    }
    w.set_tile(pos(3, 5), Tile::Rock { style: 0 });
    assert!(matches!(w.agents[0].state, AgentState::Routed { .. }));
}

#[test]
fn opposing_agents_in_range_start_a_fight_and_drop_routes() {
    // scenario: two opposing agents ten units apart, threshold fifty
    let mut w = World::new();
    let mut a = agent_at_cell(0, Faction::Red, pos(5, 5), air_route(vec![pos(5, 5), pos(6, 5)]));
    let mut b = agent_at_cell(1, Faction::Blue, pos(5, 5), AgentState::Idle);
    a.pos = WorldPos { x: 500, y: 300 };
    b.pos = WorldPos { x: 510, y: 300 };
    w.agents.push(a);
    w.agents.push(b);
    w.next_id = 2;
    w.fight_collisions(1000);
    assert!(matches!(
        w.agents[0].state,
        AgentState::Fighting { opponent: 1, since_ms: 1000, initiator: true }
    ));
    assert!(matches!(
        w.agents[1].state,
        AgentState::Fighting { opponent: 0, since_ms: 1000, initiator: false }
    ));
}

#[test]
fn same_faction_or_distant_agents_do_not_fight() {
    let mut w = World::new();
    let mut a = agent_at_cell(0, Faction::Red, pos(5, 5), AgentState::Idle);
    let mut b = agent_at_cell(1, Faction::Red, pos(5, 5), AgentState::Idle);
    let mut c = agent_at_cell(2, Faction::Blue, pos(5, 5), AgentState::Idle);
    a.pos = WorldPos { x: 500, y: 300 };
    b.pos = WorldPos { x: 510, y: 300 };
    c.pos = WorldPos { x: 560, y: 300 };
    w.agents.push(a);
    w.agents.push(b);
    w.agents.push(c);
    w.next_id = 3;
    w.fight_collisions(1000);
    assert!(matches!(w.agents[0].state, AgentState::Idle));
    assert!(matches!(w.agents[1].state, AgentState::Idle));
    assert!(matches!(w.agents[2].state, AgentState::Idle));
}

#[test]
fn a_fight_resolves_after_its_duration_and_the_loser_despawns() {
    // scenario: the fight duration passes; the loser is removed and the
    // winner returns to idle with no route and no fight
    let mut w = World::new();
    let mut a = agent_at_cell(0, Faction::Red, pos(5, 5), AgentState::Idle);
    let mut b = agent_at_cell(1, Faction::Blue, pos(5, 5), AgentState::Idle);
    a.pos = WorldPos { x: 500, y: 300 };
    b.pos = WorldPos { x: 510, y: 300 };
    w.agents.push(a);
    w.agents.push(b);
    w.next_id = 2;
    w.fight_collisions(1000);

    // before the duration has passed, nothing resolves
    w.bee_fight(4000);
    assert!(matches!(w.agents[0].state, AgentState::Fighting { .. }));

    w.bee_fight(6000);
    assert!(matches!(w.agents[0].state, AgentState::Idle));
    assert!(matches!(w.agents[1].state, AgentState::Dead));

    w.bee_dead();
    assert_eq!(w.agents.len(), 1);
    assert_eq!(w.agents[0].id, 0);
    assert!(matches!(w.agents[0].state, AgentState::Idle));
    // the game had not started, so no game over
    assert!(!w.game_data.game_over);
}

#[test]
fn a_faction_dying_out_ends_a_started_game() {
    let mut w = World::new();
    let mut a = agent_at_cell(0, Faction::Red, pos(5, 5), AgentState::Idle);
    let mut b = agent_at_cell(1, Faction::Blue, pos(5, 5), AgentState::Dead);
    a.pos = WorldPos { x: 500, y: 300 };
    b.pos = WorldPos { x: 700, y: 300 };
    w.agents.push(a);
    w.agents.push(b);
    w.next_id = 2;
    w.game_data.game_started = true;
    w.bee_dead();
    assert_eq!(w.agents.len(), 1);
    assert!(w.game_data.game_over);
}

#[test]
fn capturing_an_egg_kills_its_stalk_and_spawns_a_bee() {
    let mut w = World::new();
    w.spawns.clear();
    // a red agent standing right on the red egg
    w.agents.push(agent_at_cell(0, Faction::Red, pos(1, 13), AgentState::Idle));
    w.next_id = 1;
    w.egg_collisions();
    // the egg is gone and the stalk below died from the top down
    assert!(matches!(w.tile_at(pos(1, 13)), Tile::Air));
    assert!(matches!(w.tile_at(pos(1, 12)), Tile::Stalk { style: 2 }));
    assert!(matches!(w.tile_at(pos(1, 11)), Tile::Stalk { style: 1 }));
    assert!(matches!(w.tile_at(pos(1, 10)), Tile::Dirt { .. }));
    // the capture queued a spawn of the capturing faction at the egg
    assert_eq!(w.spawns.len(), 1);
    assert!(matches!(w.spawns[0].faction, Faction::Red));
    assert_eq!(w.spawns[0].pos, Some(tilepos_to_px(&pos(1, 13))));
    assert_eq!(w.game_data.eggs_spawned, 1);
    assert!(w.game_data.game_started);
}

#[test]
fn a_blue_agent_leaves_the_red_egg_alone() {
    let mut w = World::new();
    w.spawns.clear();
    w.agents.push(agent_at_cell(0, Faction::Blue, pos(1, 13), AgentState::Idle));
    w.next_id = 1;
    w.egg_collisions();
    assert!(matches!(w.tile_at(pos(1, 13)), Tile::Egg { .. }));
    assert_eq!(w.spawns.len(), 0);
    assert_eq!(w.game_data.eggs_spawned, 0);
}

#[test]
fn births_make_inactive_agents_that_wake_later() {
    let mut w = World::new();
    assert_eq!(w.spawns.len(), 2);
    w.birth_a_bee(1000);
    assert_eq!(w.spawns.len(), 0);
    assert_eq!(w.agents.len(), 2);
    assert!(matches!(w.agents[0].state, AgentState::Inactive { .. }));
    assert!(matches!(w.agents[0].faction, Faction::Blue));
    assert!(matches!(w.agents[1].faction, Faction::Red));
    assert_ne!(w.agents[0].id, w.agents[1].id);

    // too early: still inactive
    w.do_nothing_for_a_bit(2000);
    assert!(matches!(w.agents[0].state, AgentState::Inactive { .. }));
    // after the timer: idle and ready to take decisions
    w.do_nothing_for_a_bit(4000);
    assert!(matches!(w.agents[0].state, AgentState::Idle));
    assert!(matches!(w.agents[1].state, AgentState::Idle));
}

#[test]
fn a_stuck_agent_digs_the_tile_out_and_gets_free() {
    let mut w = World::new();
    let cell = pos(0, 6);
    assert!(matches!(w.tile_at(cell), Tile::Dirt { .. }));
    w.agents.push(agent_at_cell(
        0,
        Faction::Red,
        cell,
        AgentState::Stuck { tile: cell, last_dig_ms: 0 },
    ));
    w.next_id = 1;
    let idx = 6 * 23;
    assert_eq!(w.health[idx], 100);
    w.smash_dirt_when_stuck(500);
    assert_eq!(w.health[idx], 75);
    assert!(matches!(w.agents[0].state, AgentState::Stuck { last_dig_ms: 500, .. }));
    // not due yet: nothing happens
    w.smash_dirt_when_stuck(700);
    assert_eq!(w.health[idx], 75);
    w.smash_dirt_when_stuck(1000);
    w.smash_dirt_when_stuck(1500);
    assert_eq!(w.health[idx], 25);
    w.smash_dirt_when_stuck(2000);
    assert_eq!(w.health[idx], 0);
    assert!(matches!(w.tile_at(cell), Tile::Air));
    assert!(!w.navmesh.main.solid(cell));
    assert!(matches!(w.agents[0].state, AgentState::Idle));
}

#[test]
fn a_routed_agent_on_dirt_gets_stuck() {
    let mut w = World::new();
    let cell = pos(0, 6);
    w.agents.push(agent_at_cell(
        0,
        Faction::Red,
        cell,
        air_route(vec![cell, pos(0, 7)]),
    ));
    w.next_id = 1;
    w.check_if_stuck_in_tile(1234);
    match w.agents[0].state {
        AgentState::Stuck { tile, last_dig_ms } => {
            assert_eq!(tile, cell);
            assert_eq!(last_dig_ms, 1234);
        },
        _ => panic!("agent should be digging"),
    }
}

#[test]
fn displacement_is_the_scaled_direction_with_zero_special_cased() {
    let origin = WorldPos { x: 0, y: 0 };
    let d = displacement(origin, WorldPos { x: 100, y: 0 }, 10);
    assert_eq!(d, WorldPos { x: 10, y: 0 });
    // a 3-4-5 triangle scales exactly
    let d = displacement(origin, WorldPos { x: 30, y: 40 }, 5);
    assert_eq!(d, WorldPos { x: 3, y: 4 });
    // a target on the position gives a zero displacement, not a panic
    let d = displacement(origin, origin, 10);
    assert_eq!(d, WorldPos { x: 0, y: 0 });
    // direction signs follow the target
    let d = displacement(origin, WorldPos { x: -30, y: -40 }, 5);
    assert_eq!(d, WorldPos { x: -3, y: -4 });
}

#[test]
fn following_a_route_walks_cell_by_cell_and_retires_it() {
    let mut w = World::new();
    w.agents.push(agent_at_cell(
        0,
        Faction::Red,
        pos(3, 5),
        air_route(vec![pos(3, 5), pos(4, 5)]),
    ));
    w.next_id = 1;
    // the agent stands on its first cell: it arrives at once and the
    // cursor advances
    w.follow_path(80);
    match &w.agents[0].state {
        AgentState::Routed { route } => assert_eq!(route.at, 1),
        _ => panic!("still routed"),
    }
    // speed 100000 milli-units/s over 80 ms walks 8 units of the 40 to
    // the next cell; five more ticks land exactly on it and retire the
    // route
    for _ in 0..4 {
        w.follow_path(80);
        assert!(matches!(w.agents[0].state, AgentState::Routed { .. }));
    }
    w.follow_path(80);
    assert!(matches!(w.agents[0].state, AgentState::Idle));
    assert_eq!(w.agents[0].pos, tilepos_to_px(&pos(4, 5)));
}

#[test]
fn a_fully_blocked_map_raises_the_no_moves_condition() {
    let mut w = World::new();
    for y in 0..15 {
        for x in 0..23 {
            w.set_tile(pos(x, y), Tile::Rock { style: 0 });
        }
    }
    w.agents.push(agent_at_cell(0, Faction::Red, pos(5, 5), AgentState::Idle));
    w.next_id = 1;
    assert!(!w.game_data.game_over);
    w.find_targets();
    assert!(w.game_data.game_over);
    assert!(matches!(w.agents[0].state, AgentState::Idle));
}

#[test]
fn the_plant_pass_grows_an_egg_on_topsoil() {
    let mut w = World::new();
    let before = count_eggs(&w);
    w.spawn_plant();
    let after = count_eggs(&w);
    assert_eq!(after, before + 1);
}

fn count_eggs(w: &World) -> usize {
    let mut n = 0;
    for y in 0..15 {
        for x in 0..23 {
            if matches!(w.tile_at(pos(x, y)), Tile::Egg { .. }) {
                n += 1;
            }
        }
    }
    n
}

#[test]
fn whole_ticks_keep_the_simulation_going() {
    let mut w = World::new();
    let mut now = 0u64;
    for _ in 0..50 {
        now += 100;
        w.tick(now, 100);
    }
    // the two starting spawns became agents and took up routes
    assert_eq!(w.agents.len() >= 2, true);
    assert!(!w.game_data.game_over);
}

#[test]
fn drawing_rules_spend_and_refund_dirt() {
    let dirt = Tile::Dirt { topsoil: true, style: 1 };
    assert_eq!(draw_tile(&dirt, &Tile::Air, 3), (true, 2));
    assert_eq!(draw_tile(&dirt, &Tile::Air, 0), (false, 0));
    assert_eq!(draw_tile(&Tile::Air, &dirt, 3), (true, 4));
    assert_eq!(draw_tile(&Tile::Air, &Tile::Air, 3), (false, 3));
    assert_eq!(draw_tile(&dirt, &Tile::Rock { style: 0 }, 3), (false, 3));
}

#[test]
fn textures_and_tiles_translate_both_ways() {
    assert_eq!(Tile::Air.texture(), 0);
    assert_eq!((Tile::Dirt { topsoil: true, style: 2 }).texture(), 20);
    assert_eq!((Tile::Rock { style: 0 }).texture(), 11);
    assert_eq!((Tile::Stalk { style: 0 }).texture(), 8);
    assert_eq!((Tile::Stalk { style: 2 }).texture(), 41);
    assert_eq!((Tile::Leaves { style: 1 }).texture(), 8);
    assert_eq!((Tile::Egg { style: 1 }).texture(), 65);
    assert_eq!((Tile::Poo { style: 0 }).texture(), 48);
    assert_eq!(Tile::Unknown.texture(), 16);
    assert!(matches!(Tile::from_texture(0), Tile::Air));
    assert!(matches!(Tile::from_texture(2), Tile::Dirt { topsoil: true, style: 2 }));
    assert!(matches!(Tile::from_texture(18), Tile::Dirt { topsoil: false, style: 5 }));
    assert!(matches!(Tile::from_texture(11), Tile::Rock { style: 11 }));
    assert!(matches!(Tile::from_texture(50), Tile::Egg { style: 50 }));
    assert!(matches!(Tile::from_texture(99), Tile::Unknown));
}

#[test]
fn solidity_rules_distinguish_the_two_meshes() {
    assert!(!Tile::is_solid(Tile::Air));
    assert!(!Tile::is_solid(Tile::Egg { style: 0 }));
    assert!(Tile::is_solid(Tile::Dirt { topsoil: true, style: 0 }));
    assert!(Tile::is_solid(Tile::Rock { style: 0 }));
    assert!(Tile::is_solid(Tile::Poo { style: 0 }));
    assert!(!Tile::is_solid_alt(Tile::Dirt { topsoil: true, style: 0 }));
    assert!(Tile::is_solid_alt(Tile::Rock { style: 0 }));
}

#[test]
fn faction_compatibility_includes_the_neutral_eggs() {
    assert!(match_faction(Faction::Red, Faction::Red));
    assert!(match_faction(Faction::Red, Faction::Green));
    assert!(!match_faction(Faction::Red, Faction::Blue));
    assert!(match_faction(Faction::Green, Faction::Green));
    for _ in 0..10 {
        let f = Faction::random();
        assert!(matches!(f, Faction::Red | Faction::Blue | Faction::Green));
    }
}

#[test]
fn proximity_is_a_strict_euclidean_threshold() {
    let a = WorldPos { x: 0, y: 0 };
    assert!(close(a, WorldPos { x: 49, y: 0 }, 50));
    assert!(!close(a, WorldPos { x: 50, y: 0 }, 50));
    assert!(close(a, WorldPos { x: 30, y: 39 }, 50));
    assert!(!close(a, WorldPos { x: 30, y: 40 }, 50));
}

#[test]
fn the_pointer_picks_its_brush_from_what_it_presses() {
    let mut p = Pointer::default();
    assert!(matches!(p.tile, Tile::Unknown));
    // no press: nothing changes
    p.set_active_item(Tile::Air);
    assert!(matches!(p.tile, Tile::Unknown));
    // pressing air picks up a dirt brush
    p.pressed = true;
    p.set_active_item(Tile::Air);
    assert!(matches!(p.tile, Tile::Dirt { style: 1, topsoil: true }));
    assert!(p.is_down);
    assert!(!p.pressed);
    // pressing rock keeps rock and blocks drawing
    p.pressed = true;
    p.set_active_item(Tile::Rock { style: 0 });
    assert!(matches!(p.tile, Tile::Rock { .. }));
    assert!(!p.is_down);
    // pressing anything else picks the eraser
    p.pressed = true;
    p.set_active_item(Tile::Stalk { style: 0 });
    assert!(matches!(p.tile, Tile::Air));
    assert!(p.is_down);
}
