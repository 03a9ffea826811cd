//! The simulation world: the terrain with its per-tile health, the dual
//! navmesh kept consistent with it, the agents, and the pending spawn
//! requests. Every terrain edit goes through `set_tile`, which updates both
//! grids first and then invalidates any route whose remaining cells cross
//! the changed cell, in that order, so a route is always judged against the
//! new solidity.

use vstd::prelude::*;
use vstd::pervasive::arbitrary;
use crate::game::NavmeshPair;
use crate::grid::TilePos;
use crate::path::{Pathfinding, WorldPos};
use crate::settings::{EGG_SPAWN_TIME_START_MS, MAP_COLS, MAP_ROWS, RUMBLEBEE_SPEED_START};
use crate::terrain::{
    get_tile_from_ascii, spec_map_tile, spec_solid_in_alt, spec_solid_in_main, Faction, Tile,
};

verus! {

/// Global bookkeeping of one game.
pub struct GameData {
    pub eggs_spawned: usize,
    pub game_started: bool,
    pub game_over: bool,
    /// Base agent speed, in milli-units per second.
    pub bee_base_speed: u32,
    /// Current delay between egg spawns, in milliseconds.
    pub egg_spawn_time: u64,
}

/// A pending request to bring an agent into the world, at a given position
/// or at a free tile found when it is born.
pub struct BeeBorn {
    pub pos: Option<WorldPos>,
    pub faction: Faction,
}

/// What an agent is doing. An agent holds at most one route, and a
/// fighting agent holds none.
pub enum AgentState {
    /// Freshly spawned; takes no decisions until the timer runs out.
    Inactive { until_ms: u64 },
    /// No route and no fight; the decision pass assigns a route.
    Idle,
    /// Walking a planned route.
    Routed { route: Pathfinding },
    /// Inside a solid dirt tile, digging it out.
    Stuck { tile: TilePos, last_dig_ms: u64 },
    /// In a fight with an opponent agent, referenced by id; the initiator
    /// wins when the fight resolves.
    Fighting { opponent: u64, since_ms: u64, initiator: bool },
    /// Lost a fight; removed from the world at the end of the tick.
    Dead,
}

/// One agent ("rumblebee"). The `id` is a stable handle: fight opponents
/// are referenced by id and resolved by lookup each tick, never by a
/// position in the agent table that a despawn could shift.
pub struct Agent {
    pub id: u64,
    pub faction: Faction,
    pub pos: WorldPos,
    /// Speed in milli-units per second.
    pub speed: u32,
    pub state: AgentState,
}

pub open spec fn spec_route_of(s: AgentState) -> Pathfinding {
    match s {
        AgentState::Routed { route } => route,
        _ => arbitrary(),
    }
}

pub open spec fn spec_fight_opponent(s: AgentState) -> u64 {
    match s {
        AgentState::Fighting { opponent, .. } => opponent,
        _ => 0,
    }
}

pub open spec fn spec_fight_since(s: AgentState) -> u64 {
    match s {
        AgentState::Fighting { since_ms, .. } => since_ms,
        _ => 0,
    }
}

pub open spec fn spec_fight_initiator(s: AgentState) -> bool {
    match s {
        AgentState::Fighting { initiator, .. } => initiator,
        _ => false,
    }
}

pub open spec fn spec_stuck_tile(s: AgentState) -> TilePos {
    match s {
        AgentState::Stuck { tile, .. } => tile,
        _ => arbitrary(),
    }
}

pub open spec fn spec_stuck_last(s: AgentState) -> u64 {
    match s {
        AgentState::Stuck { last_dig_ms, .. } => last_dig_ms,
        _ => 0,
    }
}

pub open spec fn spec_inactive_until(s: AgentState) -> u64 {
    match s {
        AgentState::Inactive { until_ms } => until_ms,
        _ => 0,
    }
}

/// All cells of a route lie on the map.
pub open spec fn spec_route_on_map(route: Pathfinding) -> bool {
    forall|i: int| 0 <= i < route.path@.len()
        ==> (#[trigger] route.path@[i]).x < MAP_COLS && route.path@[i].y < MAP_ROWS
}

/// A single agent's well-formedness: its position stays in a bounded world
/// region, its speed is bounded, and a held route is well-formed and lies
/// on the map.
pub open spec fn spec_agent_wf(a: Agent) -> bool {
    &&& -2_000_000 <= a.pos.x <= 2_000_000
    &&& -2_000_000 <= a.pos.y <= 2_000_000
    &&& a.speed <= 1_000_000
    &&& (a.state is Routed ==> spec_route_of(a.state).wf() && spec_route_on_map(
        spec_route_of(a.state),
    ))
    &&& (a.state is Stuck ==> spec_stuck_tile(a.state).x < MAP_COLS && spec_stuck_tile(
        a.state,
    ).y < MAP_ROWS)
}

/// A spawn request's given position, if any, lies in the bounded world
/// region agents may occupy.
pub open spec fn spec_spawn_wf(b: BeeBorn) -> bool {
    b.pos matches Some(p) ==> -2_000_000 <= p.x <= 2_000_000 && -2_000_000 <= p.y <= 2_000_000
}

/// Agent ids are unique handles.
pub open spec fn spec_ids_unique(agents: Seq<Agent>) -> bool {
    forall|i: int, j: int|
        0 <= i < agents.len() && 0 <= j < agents.len() && i != j
            ==> (#[trigger] agents[i].id) != (#[trigger] agents[j].id)
}

/// The agents at positions `i` and `j` are the two sides of one fight:
/// they reference each other by id, started at the same time, and exactly
/// one of the two is the initiator.
pub open spec fn spec_fight_partners(agents: Seq<Agent>, i: int, j: int) -> bool {
    &&& 0 <= j < agents.len()
    &&& j != i
    &&& agents[j].state is Fighting
    &&& agents[j].id == spec_fight_opponent(agents[i].state)
    &&& spec_fight_opponent(agents[j].state) == agents[i].id
    &&& spec_fight_since(agents[j].state) == spec_fight_since(agents[i].state)
    &&& spec_fight_initiator(agents[j].state) == !spec_fight_initiator(agents[i].state)
}

/// Fights are mutual: every fighting agent has an opponent in the table
/// that fights back against it.
pub open spec fn spec_fights_wf(agents: Seq<Agent>) -> bool {
    forall|i: int|
        0 <= i < agents.len() && (#[trigger] agents[i].state) is Fighting
            ==> exists|j: int| #[trigger] spec_fight_partners(agents, i, j)
}

/// The first `upto` rows of the tile table match the fixed starting map.
pub open spec fn spec_rows_match(tiles: Seq<Tile>, upto: int) -> bool {
    forall|x2: int, y2: int| 0 <= x2 < MAP_COLS && 0 <= y2 < upto
        ==> #[trigger] tiles[y2 * (MAP_COLS as int) + x2] == spec_map_tile(x2, y2)
}

/// The first `upto` rows of both navmeshes match the fixed starting map
/// under their rule sets.
pub open spec fn spec_mesh_rows_match(nm: NavmeshPair, upto: int) -> bool {
    forall|x2: int, y2: int| 0 <= x2 < MAP_COLS && 0 <= y2 < upto ==> {
        &&& #[trigger] nm.main.solid_at(x2, y2) == spec_solid_in_main(spec_map_tile(x2, y2))
        &&& nm.alt.solid_at(x2, y2) == spec_solid_in_alt(spec_map_tile(x2, y2))
    }
}

/// The whole simulation state.
pub struct World {
    pub tiles: Vec<Tile>,
    pub health: Vec<u8>,
    pub navmesh: NavmeshPair,
    pub agents: Vec<Agent>,
    pub spawns: Vec<BeeBorn>,
    pub game_data: GameData,
    /// The id the next agent born will get.
    pub next_id: u64,
    /// How long the egg spawner has been waiting, in milliseconds.
    pub plant_timer: u64,
}

impl World {
    /// The tile at mathematical coordinates `(x, y)`.
    pub open spec fn spec_tile_at(&self, x: int, y: int) -> Tile {
        self.tiles@[y * (MAP_COLS as int) + x]
    }

    /// Both navmeshes agree with the terrain under their own rule set.
    pub open spec fn spec_mesh_matches(&self) -> bool {
        forall|x: int, y: int| 0 <= x < MAP_COLS && 0 <= y < MAP_ROWS ==> {
            &&& #[trigger] self.navmesh.main.solid_at(x, y) == spec_solid_in_main(
                self.spec_tile_at(x, y),
            )
            &&& self.navmesh.alt.solid_at(x, y) == spec_solid_in_alt(self.spec_tile_at(x, y))
        }
    }

    pub open spec fn wf(&self) -> bool {
        &&& self.tiles@.len() == MAP_COLS * MAP_ROWS
        &&& self.health@.len() == MAP_COLS * MAP_ROWS
        &&& self.navmesh.wf()
        &&& self.navmesh.spec_width() == MAP_COLS
        &&& self.navmesh.spec_height() == MAP_ROWS
        &&& self.spec_mesh_matches()
        &&& forall|i: int| 0 <= i < self.agents@.len() ==> spec_agent_wf(#[trigger] self.agents@[i])
        &&& forall|i: int| 0 <= i < self.agents@.len() ==> (#[trigger] self.agents@[i].id) < self.next_id
        &&& forall|i: int| 0 <= i < self.spawns@.len() ==> spec_spawn_wf(#[trigger] self.spawns@[i])
        &&& spec_ids_unique(self.agents@)
        &&& spec_fights_wf(self.agents@)
    }

    /// Build the starting world: terrain from the fixed map, both
    /// navmeshes derived from it, no agents yet, and one spawn request for
    /// each of the two starting agents.
    #[verifier::rlimit(60)]
    pub fn new() -> (r: World)
        ensures
            r.wf(),
            forall|x: int, y: int| 0 <= x < MAP_COLS && 0 <= y < MAP_ROWS
                ==> #[trigger] r.spec_tile_at(x, y) == spec_map_tile(x, y),
            r.agents@.len() == 0,
            r.spawns@.len() == 2,
            r.spawns@[0].faction == Faction::Blue,
            r.spawns@[1].faction == Faction::Red,
            r.game_data.eggs_spawned == 0,
            !r.game_data.game_started,
            !r.game_data.game_over,
            r.game_data.bee_base_speed == RUMBLEBEE_SPEED_START,
            r.game_data.egg_spawn_time == EGG_SPAWN_TIME_START_MS,
    {
        let cols = MAP_COLS as usize;
        let rows = MAP_ROWS as usize;
        assert(cols == 23 && rows == 15);
        let mut tiles: Vec<Tile> = Vec::new();
        let mut health: Vec<u8> = Vec::new();
        let mut navmesh = NavmeshPair::new(MAP_COLS, MAP_ROWS);
        let mut y: usize = 0;
        while y < rows
            invariant
                y <= rows,
                cols == 23,
                rows == 15,
                tiles@.len() == y * 23,
                health@.len() == y * 23,
                navmesh.wf(),
                navmesh.spec_width() == MAP_COLS,
                navmesh.spec_height() == MAP_ROWS,
                spec_rows_match(tiles@, y as int),
                spec_mesh_rows_match(navmesh, y as int),
            decreases rows - y,
        {
            let mut x: usize = 0;
            while x < cols
                invariant
                    x <= cols,
                    y < rows,
                    cols == 23,
                    rows == 15,
                    tiles@.len() == y * 23 + x,
                    health@.len() == y * 23 + x,
                    navmesh.wf(),
                    navmesh.spec_width() == MAP_COLS,
                    navmesh.spec_height() == MAP_ROWS,
                    spec_rows_match(tiles@, y as int),
                    spec_mesh_rows_match(navmesh, y as int),
                    forall|x2: int| 0 <= x2 < x
                        ==> #[trigger] tiles@[y * 23 + x2] == spec_map_tile(x2, y as int),
                    forall|x2: int| 0 <= x2 < x ==> {
                        &&& #[trigger] navmesh.main.solid_at(x2, y as int) == spec_solid_in_main(
                            spec_map_tile(x2, y as int),
                        )
                        &&& navmesh.alt.solid_at(x2, y as int) == spec_solid_in_alt(
                            spec_map_tile(x2, y as int),
                        )
                    },
                decreases cols - x,
            {
                let pos = TilePos { x: x as u32, y: y as u32 };
                let t = get_tile_from_ascii(pos);
                let ghost tiles_before = tiles@;
                let ghost nm_before = navmesh;
                tiles.push(t);
                health.push(100);
                navmesh.update_navmesh_on_tile_change(pos, t);
                proof {
                    assert(spec_rows_match(tiles@, y as int)) by {
                        assert forall|x2: int, y2: int| 0 <= x2 < MAP_COLS && 0 <= y2 < y
                            implies #[trigger] tiles@[y2 * (MAP_COLS as int) + x2]
                            == spec_map_tile(x2, y2) by {
                            assert(0 <= y2 * (MAP_COLS as int) + x2 < tiles_before.len())
                                by (nonlinear_arith)
                                requires
                                    0 <= x2 < 23,
                                    0 <= y2 < y,
                                    MAP_COLS == 23,
                                    tiles_before.len() == y * 23 + x,
                                    x >= 0,
                            {}
                            assert(tiles_before[y2 * (MAP_COLS as int) + x2] == spec_map_tile(
                                x2,
                                y2,
                            ));
                        }
                    }
                    assert(spec_mesh_rows_match(navmesh, y as int)) by {
                        assert forall|x2: int, y2: int| 0 <= x2 < MAP_COLS && 0 <= y2 < y
                            implies {
                            &&& #[trigger] navmesh.main.solid_at(x2, y2) == spec_solid_in_main(
                                spec_map_tile(x2, y2),
                            )
                            &&& navmesh.alt.solid_at(x2, y2) == spec_solid_in_alt(
                                spec_map_tile(x2, y2),
                            )
                        } by {
                            assert(navmesh.main.solid_at(x2, y2) == nm_before.main.solid_at(
                                x2,
                                y2,
                            ));
                            assert(navmesh.alt.solid_at(x2, y2) == nm_before.alt.solid_at(
                                x2,
                                y2,
                            ));
                            assert(nm_before.main.solid_at(x2, y2) == spec_solid_in_main(
                                spec_map_tile(x2, y2),
                            ));
                        }
                    }
                    assert forall|x2: int| 0 <= x2 < x + 1 implies #[trigger] tiles@[y * 23 + x2]
                        == spec_map_tile(x2, y as int) by {
                        if x2 == x as int {
                            assert(tiles@[y * 23 + x] == t);
                        } else {
                            assert(0 <= y * 23 + x2 < tiles_before.len());
                            assert(tiles_before[y * 23 + x2] == spec_map_tile(x2, y as int));
                        }
                    }
                    assert forall|x2: int| 0 <= x2 < x + 1 implies {
                        &&& #[trigger] navmesh.main.solid_at(x2, y as int) == spec_solid_in_main(
                            spec_map_tile(x2, y as int),
                        )
                        &&& navmesh.alt.solid_at(x2, y as int) == spec_solid_in_alt(
                            spec_map_tile(x2, y as int),
                        )
                    } by {
                        if x2 == x as int {
                            assert(navmesh.main.solid_at(x as int, y as int)
                                == spec_solid_in_main(t));
                            assert(navmesh.alt.solid_at(x as int, y as int)
                                == spec_solid_in_alt(t));
                            assert(t == spec_map_tile(x as int, y as int));
                        } else {
                            assert(navmesh.main.solid_at(x2, y as int)
                                == nm_before.main.solid_at(x2, y as int));
                            assert(navmesh.alt.solid_at(x2, y as int) == nm_before.alt.solid_at(
                                x2,
                                y as int,
                            ));
                        }
                    }
                }
                x = x + 1;
            }
            proof {
                assert(spec_mesh_rows_match(navmesh, y + 1)) by {
                    assert forall|x2: int, y2: int|
                        0 <= x2 < MAP_COLS && 0 <= y2 < y + 1 implies {
                        &&& #[trigger] navmesh.main.solid_at(x2, y2) == spec_solid_in_main(
                            spec_map_tile(x2, y2),
                        )
                        &&& navmesh.alt.solid_at(x2, y2) == spec_solid_in_alt(
                            spec_map_tile(x2, y2),
                        )
                    } by {
                        if y2 == y as int {
                            assert(navmesh.main.solid_at(x2, y as int) == spec_solid_in_main(
                                spec_map_tile(x2, y as int),
                            ));
                            assert(navmesh.alt.solid_at(x2, y as int) == spec_solid_in_alt(
                                spec_map_tile(x2, y as int),
                            ));
                        } else {
                            assert(navmesh.main.solid_at(x2, y2) == spec_solid_in_main(
                                spec_map_tile(x2, y2),
                            ));
                            assert(navmesh.alt.solid_at(x2, y2) == spec_solid_in_alt(
                                spec_map_tile(x2, y2),
                            ));
                        }
                    }
                }
                assert(spec_rows_match(tiles@, y + 1)) by {
                    assert forall|x2: int, y2: int|
                        0 <= x2 < MAP_COLS && 0 <= y2 < y + 1
                        implies #[trigger] tiles@[y2 * (MAP_COLS as int) + x2] == spec_map_tile(
                        x2,
                        y2,
                    ) by {
                        if y2 == y as int {
                            assert(tiles@[(y as int) * 23 + x2] == spec_map_tile(x2, y as int));
                        } else {
                            assert(tiles@[y2 * (MAP_COLS as int) + x2] == spec_map_tile(x2, y2));
                        }
                    }
                }
            }
            y = y + 1;
        }
        assert(tiles@.len() == 345 && health@.len() == 345);
        let mut spawns: Vec<BeeBorn> = Vec::new();
        spawns.push(BeeBorn { pos: Some(WorldPos { x: 580, y: 300 }), faction: Faction::Blue });
        spawns.push(BeeBorn { pos: Some(WorldPos { x: 460, y: 300 }), faction: Faction::Red });
        let w = World {
            tiles,
            health,
            navmesh,
            agents: Vec::new(),
            spawns,
            game_data: GameData {
                eggs_spawned: 0,
                game_started: false,
                game_over: false,
                bee_base_speed: RUMBLEBEE_SPEED_START,
                egg_spawn_time: EGG_SPAWN_TIME_START_MS,
            },
            next_id: 0,
            plant_timer: 0,
        };
        proof {
            assert(w.spec_mesh_matches()) by {
                assert(spec_mesh_rows_match(w.navmesh, MAP_ROWS as int));
                assert forall|x2: int, y2: int| 0 <= x2 < MAP_COLS && 0 <= y2 < MAP_ROWS
                    implies {
                    &&& #[trigger] w.navmesh.main.solid_at(x2, y2) == spec_solid_in_main(
                        w.spec_tile_at(x2, y2),
                    )
                    &&& w.navmesh.alt.solid_at(x2, y2) == spec_solid_in_alt(
                        w.spec_tile_at(x2, y2),
                    )
                } by {
                    assert(w.navmesh.main.solid_at(x2, y2) == spec_solid_in_main(
                        spec_map_tile(x2, y2),
                    ));
                    assert(w.tiles@[y2 * (MAP_COLS as int) + x2] == spec_map_tile(x2, y2));
                }
            }
            assert forall|x2: int, y2: int| 0 <= x2 < MAP_COLS && 0 <= y2 < MAP_ROWS
                implies #[trigger] w.spec_tile_at(x2, y2) == spec_map_tile(x2, y2) by {
                assert(w.tiles@[y2 * (MAP_COLS as int) + x2] == spec_map_tile(x2, y2));
            }
        }
        w
    }

    /// The tile at `pos`.
    pub fn tile_at(&self, pos: TilePos) -> (t: Tile)
        requires
            self.tiles@.len() == MAP_COLS * MAP_ROWS,
            pos.x < MAP_COLS,
            pos.y < MAP_ROWS,
        ensures
            t == self.spec_tile_at(pos.x as int, pos.y as int),
    {
        let cols = MAP_COLS as usize;
        assert(cols == 23);
        let idx = (pos.y as usize) * cols + (pos.x as usize);
        assert(idx < 345 && idx == pos.y * 23 + pos.x) by (nonlinear_arith)
            requires
                pos.y < 15,
                pos.x < 23,
                cols == 23,
                idx == pos.y * cols + pos.x,
        {}
        self.tiles[idx]
    }
}

/// In a well-formed world the two navmeshes stand in their documented
/// relation: whatever the dirt-is-walkable grid blocks, the main grid
/// blocks too.
pub proof fn lemma_alt_solid_implies_main(w: &World, x: int, y: int)
    requires
        w.wf(),
        0 <= x < MAP_COLS,
        0 <= y < MAP_ROWS,
    ensures
        w.navmesh.alt.solid_at(x, y) ==> w.navmesh.main.solid_at(x, y),
{
    assert(w.navmesh.main.solid_at(x, y) == spec_solid_in_main(w.spec_tile_at(x, y)));
    assert(w.navmesh.alt.solid_at(x, y) == spec_solid_in_alt(w.spec_tile_at(x, y)));
}

/// What terrain invalidation does to one agent: a route whose remaining
/// cells cross a cell that just became solid is dropped, and nothing else
/// changes.
pub open spec fn spec_invalidate_agent(a: Agent, pos: TilePos, now_solid: bool) -> Agent {
    if a.state is Routed && now_solid && spec_route_of(a.state).remaining().contains(pos) {
        Agent { id: a.id, faction: a.faction, pos: a.pos, speed: a.speed, state: AgentState::Idle }
    } else {
        a
    }
}

/// Invalidation is idempotent on untouched routes: a terrain change whose
/// cell does not cross an agent's remaining route leaves that agent
/// entirely unchanged, as does any change to a non-solid tile.
pub proof fn lemma_invalidation_untouched(a: Agent, pos: TilePos, now_solid: bool)
    requires
        a.state is Routed ==> !spec_route_of(a.state).remaining().contains(pos) || !now_solid,
    ensures
        spec_invalidate_agent(a, pos, now_solid) == a,
{
}

impl World {
    /// Apply one terrain edit: store the tile, re-derive both navmeshes at
    /// that cell, and then drop every route whose remaining cells cross
    /// the cell if it is now solid — in that order, so routes are judged
    /// against the new solidity.
    #[verifier::rlimit(60)]
    pub fn set_tile(&mut self, pos: TilePos, tile: Tile)
        requires
            old(self).wf(),
            pos.x < MAP_COLS,
            pos.y < MAP_ROWS,
        ensures
            final(self).wf(),
            final(self).spec_tile_at(pos.x as int, pos.y as int) == tile,
            forall|x: int, y: int|
                0 <= x < MAP_COLS && 0 <= y < MAP_ROWS && !(x == pos.x as int && y == pos.y as int)
                    ==> #[trigger] final(self).spec_tile_at(x, y) == old(self).spec_tile_at(x, y),
            final(self).agents@.len() == old(self).agents@.len(),
            forall|i: int| 0 <= i < old(self).agents@.len()
                ==> #[trigger] final(self).agents@[i] == spec_invalidate_agent(
                    old(self).agents@[i],
                    pos,
                    spec_solid_in_main(tile),
                ),
            final(self).health == old(self).health,
            final(self).spawns == old(self).spawns,
            final(self).game_data == old(self).game_data,
            final(self).next_id == old(self).next_id,
            final(self).plant_timer == old(self).plant_timer,
    {
        let cols = MAP_COLS as usize;
        assert(cols == 23);
        let idx = (pos.y as usize) * cols + (pos.x as usize);
        assert(idx < 345 && idx == pos.y * 23 + pos.x) by (nonlinear_arith)
            requires
                pos.y < 15,
                pos.x < 23,
                cols == 23,
                idx == pos.y * cols + pos.x,
        {}
        self.tiles[idx] = tile;
        self.navmesh.update_navmesh_on_tile_change(pos, tile);
        proof {
            assert forall|x: int, y: int|
                0 <= x < MAP_COLS && 0 <= y < MAP_ROWS
                    && !(x == pos.x as int && y == pos.y as int)
                implies #[trigger] self.spec_tile_at(x, y) == old(self).spec_tile_at(x, y) by {
                assert(y * (MAP_COLS as int) + x != idx as int) by (nonlinear_arith)
                    requires
                        0 <= x < 23,
                        0 <= y < 15,
                        0 <= pos.x < 23,
                        0 <= pos.y < 15,
                        !(x == pos.x as int && y == pos.y as int),
                        idx == pos.y * 23 + pos.x,
                        MAP_COLS == 23,
                {}
            }
        }
        let solid = Tile::is_solid(tile);
        self.remove_conflicting_paths_on_tile_change(pos, solid);
        proof {
            let ghost agents0 = old(self).agents@;
            assert forall|j: int| 0 <= j < self.agents@.len() implies spec_agent_wf(
                #[trigger] self.agents@[j],
            ) by {
                assert(self.agents@[j] == spec_invalidate_agent(
                    agents0[j],
                    pos,
                    spec_solid_in_main(tile),
                ));
                assert(spec_agent_wf(agents0[j]));
            }
            assert forall|j: int| 0 <= j < self.agents@.len()
                implies (#[trigger] self.agents@[j].id) == agents0[j].id by {
                assert(self.agents@[j] == spec_invalidate_agent(
                    agents0[j],
                    pos,
                    spec_solid_in_main(tile),
                ));
            }
            assert(spec_ids_unique(self.agents@));
            assert(spec_fights_wf(self.agents@)) by {
                assert forall|i2: int|
                    0 <= i2 < self.agents@.len() && (#[trigger] self.agents@[i2].state)
                        is Fighting implies exists|j: int| #[trigger] spec_fight_partners(
                    self.agents@,
                    i2,
                    j,
                ) by {
                    assert(self.agents@[i2] == spec_invalidate_agent(
                        agents0[i2],
                        pos,
                        spec_solid_in_main(tile),
                    ));
                    assert(self.agents@[i2] == agents0[i2]);
                    let j = choose|j: int| spec_fight_partners(agents0, i2, j);
                    assert(spec_fight_partners(agents0, i2, j));
                    assert(self.agents@[j] == spec_invalidate_agent(
                        agents0[j],
                        pos,
                        spec_solid_in_main(tile),
                    ));
                    assert(self.agents@[j] == agents0[j]);
                    assert(spec_fight_partners(self.agents@, i2, j));
                }
            }
            assert(self.tiles@.len() == MAP_COLS * MAP_ROWS);
            assert(self.health@.len() == MAP_COLS * MAP_ROWS);
            assert(self.navmesh.wf());
            assert(self.navmesh.spec_width() == MAP_COLS);
            assert(self.navmesh.spec_height() == MAP_ROWS);
            assert(self.spec_mesh_matches());
            assert(forall|i2: int| 0 <= i2 < self.agents@.len()
                ==> (#[trigger] self.agents@[i2].id) < self.next_id);
            assert(forall|i2: int| 0 <= i2 < self.spawns@.len()
                ==> spec_spawn_wf(#[trigger] self.spawns@[i2]));
            assert(self.wf());
        }
    }

    /// The invalidation half of the reactor: once a cell's new solidity is
    /// known, drop every route whose remaining cells cross it. Nothing
    /// else about any agent changes, and a non-solid change drops nothing.
    pub fn remove_conflicting_paths_on_tile_change(&mut self, pos: TilePos, solid: bool)
        requires
            forall|j: int| 0 <= j < old(self).agents@.len() ==> spec_agent_wf(
                #[trigger] old(self).agents@[j],
            ),
        ensures
            final(self).tiles == old(self).tiles,
            final(self).health == old(self).health,
            final(self).navmesh == old(self).navmesh,
            final(self).spawns == old(self).spawns,
            final(self).game_data == old(self).game_data,
            final(self).next_id == old(self).next_id,
            final(self).plant_timer == old(self).plant_timer,
            final(self).agents@.len() == old(self).agents@.len(),
            forall|i: int| 0 <= i < old(self).agents@.len()
                ==> #[trigger] final(self).agents@[i] == spec_invalidate_agent(
                    old(self).agents@[i],
                    pos,
                    solid,
                ),
    {
        let ghost snap = *self;
        let ghost agents0 = self.agents@;
        let mut i: usize = 0;
        while i < self.agents.len()
            invariant
                self.agents@.len() == agents0.len(),
                i <= agents0.len(),
                self.tiles == snap.tiles,
                self.health == snap.health,
                self.navmesh == snap.navmesh,
                self.spawns == snap.spawns,
                self.game_data == snap.game_data,
                self.next_id == snap.next_id,
                self.plant_timer == snap.plant_timer,
                agents0 == snap.agents@,
                forall|j: int| 0 <= j < agents0.len() ==> spec_agent_wf(#[trigger] agents0[j]),
                forall|j: int| 0 <= j < i
                    ==> #[trigger] self.agents@[j] == spec_invalidate_agent(
                        agents0[j],
                        pos,
                        solid,
                    ),
                forall|j: int| i <= j < agents0.len() ==> #[trigger] self.agents@[j] == agents0[j],
            decreases agents0.len() - i,
        {
            let drop_route = match &self.agents[i].state {
                AgentState::Routed { route } => solid && route.remaining_contains(pos),
                _ => false,
            };
            if drop_route {
                let a = &self.agents[i];
                let replacement = Agent {
                    id: a.id,
                    faction: a.faction,
                    pos: a.pos,
                    speed: a.speed,
                    state: AgentState::Idle,
                };
                self.agents[i] = replacement;
            }
            i = i + 1;
        }
    }
}

} // verus!
