//! The dual navmesh: a pair of walkability grids kept in lockstep over the
//! same terrain, and the reactor that re-derives both from a tile whenever
//! the terrain changes.

use vstd::prelude::*;
use crate::grid::{lemma_push_contains, Navmesh, TilePos};
use crate::mover::{displacement, spec_displacement};
use crate::path::{
    px_to_tilepos, spec_px_to_tilepos, spec_tilepos_to_px, Pathfinding, WorldPos,
};
use crate::settings::{DIG_POWER, DIG_REPEAT_MS, GAP_LEFT, MAP_COLS, MAP_ROWS, TARGET_EPSILON};
use crate::terrain::{spec_solid_in_alt, spec_solid_in_main, Tile};
use crate::world::{
    spec_agent_wf, spec_route_of, spec_stuck_last, spec_stuck_tile, Agent, AgentState, World,
};

verus! {

/// A pair of navmeshes to represent an "alternative" view of the navmesh:
/// the same terrain without dirt tiles, to let an entity find a path as if
/// it wasn't obstructed by dirt.
pub struct NavmeshPair {
    pub main: Navmesh,
    pub alt: Navmesh,
}

impl NavmeshPair {
    /// Both grids are well-formed and share one set of dimensions.
    pub open spec fn wf(&self) -> bool {
        &&& self.main.wf()
        &&& self.alt.wf()
        &&& self.main.spec_width() == self.alt.spec_width()
        &&& self.main.spec_height() == self.alt.spec_height()
    }

    pub open spec fn spec_width(&self) -> u32 {
        self.main.spec_width()
    }

    pub open spec fn spec_height(&self) -> u32 {
        self.main.spec_height()
    }

    /// A fresh pair of all-clear grids of the same dimensions.
    pub fn new(width: u32, height: u32) -> (r: Self)
        requires
            width as int * height as int <= usize::MAX as int,
        ensures
            r.wf(),
            r.spec_width() == width,
            r.spec_height() == height,
            forall|x: int, y: int|
                !(#[trigger] r.main.solid_at(x, y)) <==> (0 <= x < width && 0 <= y < height),
            forall|x: int, y: int|
                !(#[trigger] r.alt.solid_at(x, y)) <==> (0 <= x < width && 0 <= y < height),
    {
        NavmeshPair { main: Navmesh::new(width, height), alt: Navmesh::new(width, height) }
    }

    /// Re-derive the solidity of one cell in both grids from the tile now
    /// occupying it: the main grid blocks everything but air and eggs, the
    /// alternative grid additionally lets dirt pass. No other cell changes.
    pub fn update_navmesh_on_tile_change(&mut self, pos: TilePos, tile: Tile)
        requires
            old(self).wf(),
            pos.x < old(self).spec_width(),
            pos.y < old(self).spec_height(),
        ensures
            final(self).wf(),
            final(self).spec_width() == old(self).spec_width(),
            final(self).spec_height() == old(self).spec_height(),
            final(self).main.solid_at(pos.x as int, pos.y as int) == spec_solid_in_main(tile),
            final(self).alt.solid_at(pos.x as int, pos.y as int) == spec_solid_in_alt(tile),
            forall|x: int, y: int|
                !(x == pos.x as int && y == pos.y as int)
                    ==> #[trigger] final(self).main.solid_at(x, y)
                        == old(self).main.solid_at(x, y),
            forall|x: int, y: int|
                !(x == pos.x as int && y == pos.y as int)
                    ==> #[trigger] final(self).alt.solid_at(x, y)
                        == old(self).alt.solid_at(x, y),
    {
        self.main.set_solid(pos, Tile::is_solid(tile));
        self.alt.set_solid(pos, Tile::is_solid_alt(tile));
    }
}

/// Frame times are clamped to this many milliseconds before they move
/// anything, so a long stall cannot teleport an agent.
pub open spec fn spec_clamp_dt(dt_ms: u64) -> u64 {
    if dt_ms > 300 {
        300
    } else {
        dt_ms
    }
}

/// How far an agent walks this tick, in whole world units.
pub open spec fn spec_step_len(speed: u32, dt_ms: u64) -> int {
    speed * spec_clamp_dt(dt_ms) / 1_000_000
}

/// The map cell an agent standing at world point `p` is on.
pub open spec fn spec_agent_cell(p: WorldPos) -> TilePos {
    spec_px_to_tilepos(WorldPos { x: (p.x - GAP_LEFT) as i64, y: p.y })
}

/// Where one movement tick puts a routed agent: displaced toward the
/// world-space point of its route's current cell.
pub open spec fn spec_follow_pos(a: Agent, dt_ms: u64) -> WorldPos {
    let route = spec_route_of(a.state);
    let target = spec_tilepos_to_px(route.path@[route.at as int]);
    let disp = spec_displacement(a.pos, target, spec_step_len(a.speed, dt_ms));
    WorldPos { x: (a.pos.x + disp.x) as i64, y: (a.pos.y + disp.y) as i64 }
}

/// After the tick's displacement, the agent has come closer to the target
/// than the arrival epsilon.
pub open spec fn spec_follow_arrived(a: Agent, dt_ms: u64) -> bool {
    let route = spec_route_of(a.state);
    let target = spec_tilepos_to_px(route.path@[route.at as int]);
    let np = spec_follow_pos(a, dt_ms);
    (target.x - np.x) * (target.x - np.x) + (target.y - np.y) * (target.y - np.y)
        < TARGET_EPSILON * TARGET_EPSILON
}

impl World {
    /// The movement pass: every routed agent moves toward its current
    /// path-step target; on arrival the cursor advances, and stepping past
    /// the final cell retires the route. Overshoot is not corrected;
    /// arrival is closeness to the target, and a target coinciding with
    /// the position gives a zero displacement.
    pub fn follow_path(&mut self, dt_ms: u64)
        requires
            old(self).wf(),
        ensures
            final(self).wf(),
            final(self).tiles == old(self).tiles,
            final(self).health == old(self).health,
            final(self).spawns == old(self).spawns,
            final(self).game_data == old(self).game_data,
            final(self).next_id == old(self).next_id,
            final(self).agents@.len() == old(self).agents@.len(),
            forall|k: int| 0 <= k < old(self).agents@.len()
                && !((#[trigger] old(self).agents@[k]).state is Routed)
                ==> final(self).agents@[k] == old(self).agents@[k],
            forall|k: int| 0 <= k < old(self).agents@.len()
                && (#[trigger] old(self).agents@[k]).state is Routed ==> {
                let a = old(self).agents@[k];
                let b = final(self).agents@[k];
                let route = spec_route_of(a.state);
                &&& b.id == a.id
                &&& b.faction == a.faction
                &&& b.speed == a.speed
                &&& b.pos == spec_follow_pos(a, dt_ms)
                &&& (!spec_follow_arrived(a, dt_ms) ==> b.state is Routed && spec_route_of(
                    b.state,
                ).path@ == route.path@ && spec_route_of(b.state).at == route.at)
                &&& (spec_follow_arrived(a, dt_ms) && route.at + 1 < route.path@.len()
                    ==> b.state is Routed && spec_route_of(b.state).path@ == route.path@
                        && spec_route_of(b.state).at == route.at + 1)
                &&& (spec_follow_arrived(a, dt_ms) && route.at + 1 >= route.path@.len()
                    ==> b.state is Idle)
            },
    {
        let dt = if dt_ms > 300 {
            300
        } else {
            dt_ms
        };
        let ghost agents0 = self.agents@;
        let ghost snap = *self;
        let n = self.agents.len();
        let mut i: usize = 0;
        while i < n
            invariant
                n == agents0.len(),
                i <= n,
                dt == spec_clamp_dt(dt_ms),
                dt <= 300,
                self.agents@.len() == n,
                self.tiles == snap.tiles,
                self.health == snap.health,
                self.navmesh == snap.navmesh,
                self.spawns == snap.spawns,
                self.game_data == snap.game_data,
                self.next_id == snap.next_id,
                agents0 == snap.agents@,
                snap.wf(),
                forall|k: int| 0 <= k < n ==> spec_agent_wf(#[trigger] self.agents@[k]),
                forall|k: int| 0 <= k < n
                    ==> (#[trigger] self.agents@[k]).id == agents0[k].id
                        && (self.agents@[k].state is Fighting <==> agents0[k].state is Fighting)
                        && (self.agents@[k].state is Fighting ==> self.agents@[k] == agents0[k]),
                forall|k: int| i <= k < n ==> #[trigger] self.agents@[k] == agents0[k],
                forall|k: int| 0 <= k < i && !((#[trigger] agents0[k]).state is Routed)
                    ==> self.agents@[k] == agents0[k],
                forall|k: int| 0 <= k < i && (#[trigger] agents0[k]).state is Routed ==> {
                    let a = agents0[k];
                    let b = self.agents@[k];
                    let route = spec_route_of(a.state);
                    &&& b.id == a.id
                    &&& b.faction == a.faction
                    &&& b.speed == a.speed
                    &&& b.pos == spec_follow_pos(a, dt_ms)
                    &&& (!spec_follow_arrived(a, dt_ms) ==> b.state is Routed && spec_route_of(
                        b.state,
                    ).path@ == route.path@ && spec_route_of(b.state).at == route.at)
                    &&& (spec_follow_arrived(a, dt_ms) && route.at + 1 < route.path@.len()
                        ==> b.state is Routed && spec_route_of(b.state).path@ == route.path@
                            && spec_route_of(b.state).at == route.at + 1)
                    &&& (spec_follow_arrived(a, dt_ms) && route.at + 1 >= route.path@.len()
                        ==> b.state is Idle)
                },
            decreases n - i,
        {
            let step_and_route = match &self.agents[i].state {
                AgentState::Routed { route } => Some(route.duplicate()),
                _ => None,
            };
            if let Some(mut route) = step_and_route {
                let a_pos = self.agents[i].pos;
                let a_speed = self.agents[i].speed;
                let target = route.current_target();
                proof {
                    let c = route.path@[route.at as int];
                    assert(c.x < MAP_COLS && c.y < MAP_ROWS);
                    assert(105 <= target.x <= 985 && 25 <= target.y <= 585);
                }
                proof {
                    assert(spec_agent_wf(agents0[i as int]));
                    assert((a_speed as u64) * dt <= 300_000_000) by (nonlinear_arith)
                        requires
                            a_speed <= 1_000_000,
                            dt <= 300,
                    {}
                }
                let step = ((a_speed as u64) * dt / 1_000_000) as i64;
                assert(0 <= step <= 300);
                let disp = displacement(a_pos, target, step);
                let new_pos = WorldPos { x: a_pos.x + disp.x, y: a_pos.y + disp.y };
                proof {
                    assert(-2_000_000 <= new_pos.x <= 2_000_000
                        && -2_000_000 <= new_pos.y <= 2_000_000) by {
                        if target.x >= a_pos.x {
                            assert(a_pos.x <= 985);
                        } else {
                            assert(a_pos.x > 105);
                        }
                        if target.y >= a_pos.y {
                            assert(a_pos.y <= 585);
                        } else {
                            assert(a_pos.y > 25);
                        }
                    }
                }
                let ddx = target.x - new_pos.x;
                let ddy = target.y - new_pos.y;
                proof {
                    assert(ddx * ddx >= 0 && ddx * ddx <= 16_000_000_000_000 && ddy * ddy >= 0
                        && ddy * ddy <= 16_000_000_000_000) by (nonlinear_arith)
                        requires
                            -4_000_000 <= ddx <= 4_000_000,
                            -4_000_000 <= ddy <= 4_000_000,
                    {}
                }
                let arrived = ddx * ddx + ddy * ddy < TARGET_EPSILON * TARGET_EPSILON;
                let a = &self.agents[i];
                let state = if arrived {
                    let more = route.step();
                    if more {
                        AgentState::Routed { route }
                    } else {
                        AgentState::Idle
                    }
                } else {
                    AgentState::Routed { route }
                };
                let moved = Agent {
                    id: a.id,
                    faction: a.faction,
                    pos: new_pos,
                    speed: a.speed,
                    state,
                };
                self.agents[i] = moved;
                proof {
                    assert(self.agents@[i as int].pos == spec_follow_pos(agents0[i as int], dt_ms));
                    assert(arrived == spec_follow_arrived(agents0[i as int], dt_ms));
                }
            }
            i = i + 1;
        }
        proof {
            assert(crate::world::spec_ids_unique(self.agents@));
            assert(crate::world::spec_fights_wf(self.agents@)) by {
                assert forall|k: int|
                    0 <= k < n && (#[trigger] self.agents@[k].state) is Fighting
                    implies exists|m: int| #[trigger] crate::world::spec_fight_partners(
                    self.agents@,
                    k,
                    m,
                ) by {
                    assert(agents0[k].state is Fighting);
                    let m = choose|m: int| crate::world::spec_fight_partners(agents0, k, m);
                    assert(crate::world::spec_fight_partners(agents0, k, m));
                    assert(self.agents@[m] == agents0[m]);
                    assert(self.agents@[k] == agents0[k]);
                    assert(crate::world::spec_fight_partners(self.agents@, k, m));
                }
            }
        }
    }
}

/// What the stuck check does to one agent: a routed agent standing on a
/// dirt tile drops its route and starts digging that tile.
pub open spec fn spec_check_stuck_agent(a: Agent, tiles: Seq<Tile>, now_ms: u64) -> Agent {
    if a.state is Routed {
        let c = spec_agent_cell(a.pos);
        if c.x < MAP_COLS && c.y < MAP_ROWS && tiles[c.y * (MAP_COLS as int) + c.x] is Dirt {
            Agent {
                id: a.id,
                faction: a.faction,
                pos: a.pos,
                speed: a.speed,
                state: AgentState::Stuck { tile: c, last_dig_ms: now_ms },
            }
        } else {
            a
        }
    } else {
        a
    }
}

/// The agent's dig timer has run out.
pub open spec fn spec_dig_due(a: Agent, now_ms: u64) -> bool {
    a.state is Stuck && now_ms >= spec_stuck_last(a.state) + DIG_REPEAT_MS
}

/// What one dig pass does to a stuck agent: it digs once more, and gets
/// free when the tile's health is used up.
pub open spec fn spec_smash_agent(a: Agent, health: Seq<u8>, now_ms: u64) -> Agent {
    if spec_dig_due(a, now_ms) {
        let c = spec_stuck_tile(a.state);
        if health[c.y * (MAP_COLS as int) + c.x] <= DIG_POWER {
            Agent { id: a.id, faction: a.faction, pos: a.pos, speed: a.speed, state: AgentState::Idle }
        } else {
            Agent {
                id: a.id,
                faction: a.faction,
                pos: a.pos,
                speed: a.speed,
                state: AgentState::Stuck { tile: c, last_dig_ms: now_ms },
            }
        }
    } else {
        a
    }
}

/// Some agent digs the cell `c` this pass.
pub open spec fn spec_cell_dug(agents: Seq<Agent>, c: TilePos, now_ms: u64) -> bool {
    exists|k: int|
        0 <= k < agents.len() && spec_dig_due(#[trigger] agents[k], now_ms) && spec_stuck_tile(
            agents[k].state,
        ) == c
}

impl World {
    /// The stuck check: a routed agent whose own cell is dirt stops
    /// following its route and starts digging the tile it is inside.
    pub fn check_if_stuck_in_tile(&mut self, now_ms: u64)
        requires
            old(self).wf(),
        ensures
            final(self).wf(),
            final(self).tiles == old(self).tiles,
            final(self).health == old(self).health,
            final(self).spawns == old(self).spawns,
            final(self).game_data == old(self).game_data,
            final(self).next_id == old(self).next_id,
            final(self).agents@.len() == old(self).agents@.len(),
            forall|k: int| 0 <= k < old(self).agents@.len()
                ==> #[trigger] final(self).agents@[k] == spec_check_stuck_agent(
                    old(self).agents@[k],
                    old(self).tiles@,
                    now_ms,
                ),
    {
        let ghost agents0 = self.agents@;
        let ghost snap = *self;
        let n = self.agents.len();
        let mut i: usize = 0;
        while i < n
            invariant
                n == agents0.len(),
                i <= n,
                self.agents@.len() == n,
                self.tiles == snap.tiles,
                self.health == snap.health,
                self.navmesh == snap.navmesh,
                self.spawns == snap.spawns,
                self.game_data == snap.game_data,
                self.next_id == snap.next_id,
                agents0 == snap.agents@,
                snap.wf(),
                forall|k: int| 0 <= k < i
                    ==> #[trigger] self.agents@[k] == spec_check_stuck_agent(
                        agents0[k],
                        snap.tiles@,
                        now_ms,
                    ),
                forall|k: int| i <= k < n ==> #[trigger] self.agents@[k] == agents0[k],
            decreases n - i,
        {
            let is_routed = match &self.agents[i].state {
                AgentState::Routed { .. } => true,
                _ => false,
            };
            if is_routed {
                proof {
                    assert(spec_agent_wf(agents0[i as int]));
                }
                let pos = self.agents[i].pos;
                let cell = px_to_tilepos(WorldPos { x: pos.x - GAP_LEFT, y: pos.y });
                if cell.x < MAP_COLS && cell.y < MAP_ROWS {
                    let t = self.tile_at(cell);
                    let is_dirt = match t {
                        Tile::Dirt { .. } => true,
                        _ => false,
                    };
                    if is_dirt {
                        let a = &self.agents[i];
                        let stuck = Agent {
                            id: a.id,
                            faction: a.faction,
                            pos: a.pos,
                            speed: a.speed,
                            state: AgentState::Stuck { tile: cell, last_dig_ms: now_ms },
                        };
                        self.agents[i] = stuck;
                    }
                }
            }
            i = i + 1;
        }
        proof {
            assert forall|k: int| 0 <= k < n implies spec_agent_wf(
                #[trigger] self.agents@[k],
            ) by {
                assert(self.agents@[k] == spec_check_stuck_agent(agents0[k], snap.tiles@, now_ms));
                assert(spec_agent_wf(agents0[k]));
            }
            assert forall|k: int| 0 <= k < n implies (#[trigger] self.agents@[k].id)
                == agents0[k].id && (self.agents@[k].state is Fighting ==> self.agents@[k]
                == agents0[k]) by {
                assert(self.agents@[k] == spec_check_stuck_agent(agents0[k], snap.tiles@, now_ms));
            }
            assert(crate::world::spec_ids_unique(self.agents@));
            assert(crate::world::spec_fights_wf(self.agents@)) by {
                assert forall|k: int|
                    0 <= k < n && (#[trigger] self.agents@[k].state) is Fighting
                    implies exists|m: int| #[trigger] crate::world::spec_fight_partners(
                    self.agents@,
                    k,
                    m,
                ) by {
                    assert(agents0[k].state is Fighting);
                    let m = choose|m: int| crate::world::spec_fight_partners(agents0, k, m);
                    assert(crate::world::spec_fight_partners(agents0, k, m));
                    assert(self.agents@[m] == spec_check_stuck_agent(
                        agents0[m],
                        snap.tiles@,
                        now_ms,
                    ));
                    assert(self.agents@[m] == agents0[m]);
                    assert(crate::world::spec_fight_partners(self.agents@, k, m));
                }
            }
        }
    }
}


impl World {
    /// The dig pass: every stuck agent whose dig timer has run out digs
    /// its tile once, reading the tile healths as they stood at the start
    /// of the pass; a tile dug to zero health becomes air (which frees the
    /// digger), and the terrain change goes through the usual reactor.
    pub fn smash_dirt_when_stuck(&mut self, now_ms: u64)
        requires
            old(self).wf(),
        ensures
            final(self).wf(),
            final(self).spawns == old(self).spawns,
            final(self).game_data == old(self).game_data,
            final(self).next_id == old(self).next_id,
            final(self).agents@.len() == old(self).agents@.len(),
            forall|k: int| 0 <= k < old(self).agents@.len()
                ==> #[trigger] final(self).agents@[k] == spec_smash_agent(
                    old(self).agents@[k],
                    old(self).health@,
                    now_ms,
                ),
            forall|c: TilePos|
                #![trigger c.x, c.y]
                c.x < MAP_COLS && c.y < MAP_ROWS ==> {
                let idx = c.y * (MAP_COLS as int) + c.x;
                let h0 = old(self).health@[idx];
                &&& final(self).health@[idx] == if spec_cell_dug(
                    old(self).agents@,
                    c,
                    now_ms,
                ) {
                    if h0 <= DIG_POWER {
                        0u8
                    } else {
                        (h0 - DIG_POWER) as u8
                    }
                } else {
                    h0
                }
                &&& final(self).spec_tile_at(c.x as int, c.y as int) == if spec_cell_dug(
                    old(self).agents@,
                    c,
                    now_ms,
                ) && h0 <= DIG_POWER {
                    Tile::Air
                } else {
                    old(self).spec_tile_at(c.x as int, c.y as int)
                }
            },
    {
        broadcast use lemma_push_contains;

        let ghost agents0 = self.agents@;
        let ghost snap = *self;
        let n = self.agents.len();
        let mut digs: Vec<(TilePos, u8)> = Vec::new();
        let mut i: usize = 0;
        while i < n
            invariant
                n == agents0.len(),
                i <= n,
                self.agents@.len() == n,
                self.tiles == snap.tiles,
                self.health == snap.health,
                self.navmesh == snap.navmesh,
                self.spawns == snap.spawns,
                self.game_data == snap.game_data,
                self.next_id == snap.next_id,
                agents0 == snap.agents@,
                snap.wf(),
                forall|k: int| 0 <= k < i
                    ==> #[trigger] self.agents@[k] == spec_smash_agent(
                        agents0[k],
                        snap.health@,
                        now_ms,
                    ),
                forall|k: int| i <= k < n ==> #[trigger] self.agents@[k] == agents0[k],
                forall|m: int| 0 <= m < digs@.len() ==> {
                    let c = (#[trigger] digs@[m]).0;
                    &&& c.x < MAP_COLS
                    &&& c.y < MAP_ROWS
                    &&& spec_cell_dug(agents0, c, now_ms)
                    &&& digs@[m].1 == if snap.health@[c.y * (MAP_COLS as int) + c.x] <= DIG_POWER {
                        0u8
                    } else {
                        (snap.health@[c.y * (MAP_COLS as int) + c.x] - DIG_POWER) as u8
                    }
                },
                forall|k: int| 0 <= k < i && spec_dig_due(#[trigger] agents0[k], now_ms)
                    ==> exists|m: int| 0 <= m < digs@.len() && (#[trigger] digs@[m]).0
                        == spec_stuck_tile(agents0[k].state),
            decreases n - i,
        {
            let due = match &self.agents[i].state {
                AgentState::Stuck { last_dig_ms, .. } => {
                    now_ms >= DIG_REPEAT_MS && now_ms - DIG_REPEAT_MS >= *last_dig_ms
                },
                _ => false,
            };
            if due {
                proof {
                    assert(spec_agent_wf(agents0[i as int]));
                    assert(spec_dig_due(agents0[i as int], now_ms));
                }
                let cell = match &self.agents[i].state {
                    AgentState::Stuck { tile, .. } => *tile,
                    _ => TilePos { x: 0, y: 0 },
                };
                let cols = MAP_COLS as usize;
                assert(cols == 23);
                let idx = (cell.y as usize) * cols + (cell.x as usize);
                assert(idx < 345 && idx == cell.y * 23 + cell.x) by (nonlinear_arith)
                    requires
                        cell.y < 15,
                        cell.x < 23,
                        cols == 23,
                        idx == cell.y * cols + cell.x,
                {}
                let h = self.health[idx];
                let newh: u8 = if h <= DIG_POWER {
                    0
                } else {
                    h - DIG_POWER
                };
                let ghost digs_before = digs@;
                digs.push((cell, newh));
                let a = &self.agents[i];
                let dug = Agent {
                    id: a.id,
                    faction: a.faction,
                    pos: a.pos,
                    speed: a.speed,
                    state: if h <= DIG_POWER {
                        AgentState::Idle
                    } else {
                        AgentState::Stuck { tile: cell, last_dig_ms: now_ms }
                    },
                };
                self.agents[i] = dug;
                proof {
                    assert(digs@[digs@.len() - 1].0 == cell);
                    assert(spec_cell_dug(agents0, cell, now_ms)) by {
                        assert(spec_dig_due(agents0[i as int], now_ms)
                            && spec_stuck_tile(agents0[i as int].state) == cell);
                    }
                    assert forall|k: int|
                        0 <= k < i + 1 && spec_dig_due(#[trigger] agents0[k], now_ms)
                        implies exists|m: int| 0 <= m < digs@.len() && (#[trigger] digs@[m]).0
                        == spec_stuck_tile(agents0[k].state) by {
                        if k < i {
                            let m0 = choose|m0: int|
                                0 <= m0 < digs_before.len() && (#[trigger] digs_before[m0]).0
                                    == spec_stuck_tile(agents0[k].state);
                            assert(digs@[m0].0 == spec_stuck_tile(agents0[k].state));
                        } else {
                            assert(digs@[digs@.len() - 1].0 == spec_stuck_tile(
                                agents0[k].state,
                            ));
                        }
                    }
                }
            }
            i = i + 1;
        }
        proof {
            // the pass so far only rewrote agent states; well-formedness
            // carries over
            assert forall|k: int| 0 <= k < n implies spec_agent_wf(
                #[trigger] self.agents@[k],
            ) by {
                assert(self.agents@[k] == spec_smash_agent(agents0[k], snap.health@, now_ms));
                assert(spec_agent_wf(agents0[k]));
            }
            assert forall|k: int| 0 <= k < n implies (#[trigger] self.agents@[k].id)
                == agents0[k].id && (self.agents@[k].state is Fighting ==> self.agents@[k]
                == agents0[k]) by {
                assert(self.agents@[k] == spec_smash_agent(agents0[k], snap.health@, now_ms));
            }
            assert(crate::world::spec_ids_unique(self.agents@));
            assert(crate::world::spec_fights_wf(self.agents@)) by {
                assert forall|k: int|
                    0 <= k < n && (#[trigger] self.agents@[k].state) is Fighting
                    implies exists|m: int| #[trigger] crate::world::spec_fight_partners(
                    self.agents@,
                    k,
                    m,
                ) by {
                    assert(agents0[k].state is Fighting);
                    let m = choose|m: int| crate::world::spec_fight_partners(agents0, k, m);
                    assert(crate::world::spec_fight_partners(agents0, k, m));
                    assert(self.agents@[m] == spec_smash_agent(
                        agents0[m],
                        snap.health@,
                        now_ms,
                    ));
                    assert(self.agents@[m] == agents0[m]);
                    assert(crate::world::spec_fight_partners(self.agents@, k, m));
                }
            }
        }
        let ghost mid = *self;
        let mut m: usize = 0;
        while m < digs.len()
            invariant
                m <= digs@.len(),
                self.agents@ == mid.agents@,
                self.spawns == mid.spawns,
                self.game_data == mid.game_data,
                self.next_id == mid.next_id,
                mid.wf(),
                self.wf(),
                snap.wf(),
                agents0 == snap.agents@,
                mid.tiles == snap.tiles,
                mid.health == snap.health,
                forall|m2: int| 0 <= m2 < digs@.len() ==> {
                    let c = (#[trigger] digs@[m2]).0;
                    &&& c.x < MAP_COLS
                    &&& c.y < MAP_ROWS
                    &&& spec_cell_dug(agents0, c, now_ms)
                    &&& digs@[m2].1 == if snap.health@[c.y * (MAP_COLS as int) + c.x]
                        <= DIG_POWER {
                        0u8
                    } else {
                        (snap.health@[c.y * (MAP_COLS as int) + c.x] - DIG_POWER) as u8
                    }
                },
                forall|k: int| 0 <= k < n && spec_dig_due(#[trigger] agents0[k], now_ms)
                    ==> exists|m2: int| 0 <= m2 < digs@.len() && (#[trigger] digs@[m2]).0
                        == spec_stuck_tile(agents0[k].state),
                forall|c: TilePos|
                    #![trigger c.x, c.y]
                    c.x < MAP_COLS && c.y < MAP_ROWS ==> {
                    let idx = c.y * (MAP_COLS as int) + c.x;
                    let h0 = snap.health@[idx];
                    &&& self.health@[idx] == if exists|m2: int|
                        0 <= m2 < m && (#[trigger] digs@[m2]).0 == c {
                        if h0 <= DIG_POWER {
                            0u8
                        } else {
                            (h0 - DIG_POWER) as u8
                        }
                    } else {
                        h0
                    }
                    &&& self.spec_tile_at(c.x as int, c.y as int) == if (exists|m2: int|
                        0 <= m2 < m && (#[trigger] digs@[m2]).0 == c) && h0 <= DIG_POWER {
                        Tile::Air
                    } else {
                        snap.spec_tile_at(c.x as int, c.y as int)
                    }
                },
            decreases digs@.len() - m,
        {
            let (cell, newh) = digs[m];
            let cols = MAP_COLS as usize;
            assert(cols == 23);
            let idx = (cell.y as usize) * cols + (cell.x as usize);
            assert(idx < 345 && idx == cell.y * 23 + cell.x) by (nonlinear_arith)
                requires
                    cell.y < 15,
                    cell.x < 23,
                    cols == 23,
                    idx == cell.y * cols + cell.x,
            {}
            let ghost pre = *self;
            self.health[idx] = newh;
            proof {
                assert(self.wf()) by {
                    assert(self.spec_mesh_matches()) by {
                        assert(self.tiles == pre.tiles && self.navmesh == pre.navmesh);
                    }
                }
            }
            if newh == 0 {
                let ghost pre2 = *self;
                self.set_tile(cell, Tile::Air);
                proof {
                    assert forall|k: int| 0 <= k < self.agents@.len()
                        implies #[trigger] self.agents@[k] == pre2.agents@[k] by {
                        assert(self.agents@[k] == crate::world::spec_invalidate_agent(
                            pre2.agents@[k],
                            cell,
                            spec_solid_in_main(Tile::Air),
                        ));
                    }
                    assert(self.agents@ =~= pre2.agents@);
                }
            }
            proof {
                assert(digs@[m as int] == (cell, newh));
                assert(self.health@.len() == 345 && pre.health@.len() == 345);
                assert(self.health@ == pre.health@.update(idx as int, newh));
                assert forall|c: TilePos|
                    #![trigger c.x, c.y]
                    c.x < MAP_COLS && c.y < MAP_ROWS implies {
                    let idx2 = c.y * (MAP_COLS as int) + c.x;
                    let h0 = snap.health@[idx2];
                    &&& self.health@[idx2] == if exists|m2: int|
                        0 <= m2 < m + 1 && (#[trigger] digs@[m2]).0 == c {
                        if h0 <= DIG_POWER {
                            0u8
                        } else {
                            (h0 - DIG_POWER) as u8
                        }
                    } else {
                        h0
                    }
                    &&& self.spec_tile_at(c.x as int, c.y as int) == if (exists|m2: int|
                        0 <= m2 < m + 1 && (#[trigger] digs@[m2]).0 == c) && h0 <= DIG_POWER {
                        Tile::Air
                    } else {
                        snap.spec_tile_at(c.x as int, c.y as int)
                    }
                } by {
                    let idx2 = c.y * (MAP_COLS as int) + c.x;
                    let h0 = snap.health@[idx2];
                    assert(0 <= idx2 < 345 && (idx2 == idx as int <==> c == cell))
                        by (nonlinear_arith)
                        requires
                            idx2 == c.y * (MAP_COLS as int) + c.x,
                            idx == cell.y * 23 + cell.x,
                            MAP_COLS == 23,
                            c.x < 23,
                            c.y < 15,
                            cell.x < 23,
                            cell.y < 15,
                    {}
                    if c == cell {
                        assert(digs@[m as int].0 == c);
                        assert(exists|m2: int| 0 <= m2 < m + 1 && (#[trigger] digs@[m2]).0
                            == c);
                        assert(newh == if h0 <= DIG_POWER {
                            0u8
                        } else {
                            (h0 - DIG_POWER) as u8
                        });
                        assert(self.health@[idx2] == newh);
                        if h0 <= DIG_POWER {
                            assert(self.spec_tile_at(c.x as int, c.y as int) == Tile::Air);
                        } else {
                            assert(newh != 0);
                            assert(!(h0 <= DIG_POWER));
                            assert(!((exists|m2: int| 0 <= m2 < m && (#[trigger] digs@[m2]).0
                                == c) && h0 <= DIG_POWER));
                            assert(pre.spec_tile_at(c.x as int, c.y as int)
                                == snap.spec_tile_at(c.x as int, c.y as int));
                            assert(self.spec_tile_at(c.x as int, c.y as int)
                                == pre.spec_tile_at(c.x as int, c.y as int));
                        }
                    } else {
                        assert(idx2 != idx as int);
                        assert(self.health@[idx2] == pre.health@[idx2]);
                        assert(self.spec_tile_at(c.x as int, c.y as int)
                            == pre.spec_tile_at(c.x as int, c.y as int));
                        assert((exists|m2: int| 0 <= m2 < m + 1 && (#[trigger] digs@[m2]).0
                            == c) == (exists|m2: int| 0 <= m2 < m && (#[trigger] digs@[m2]).0
                            == c)) by {
                            if exists|m2: int| 0 <= m2 < m + 1 && (#[trigger] digs@[m2]).0
                                == c {
                                let m2 = choose|m2: int|
                                    0 <= m2 < m + 1 && (#[trigger] digs@[m2]).0 == c;
                                assert(m2 < m);
                            }
                        }
                    }
                }
            }
            m = m + 1;
        }
        proof {
            assert forall|c: TilePos|
                #![trigger c.x, c.y]
                c.x < MAP_COLS && c.y < MAP_ROWS implies {
                ((exists|m2: int| 0 <= m2 < digs@.len() && (#[trigger] digs@[m2]).0 == c)
                    == spec_cell_dug(agents0, c, now_ms))
            } by {
                if exists|m2: int| 0 <= m2 < digs@.len() && (#[trigger] digs@[m2]).0 == c {
                    let m2 = choose|m2: int|
                        0 <= m2 < digs@.len() && (#[trigger] digs@[m2]).0 == c;
                    assert(spec_cell_dug(agents0, c, now_ms));
                }
                if spec_cell_dug(agents0, c, now_ms) {
                    let k = choose|k: int|
                        0 <= k < agents0.len() && spec_dig_due(#[trigger] agents0[k], now_ms)
                            && spec_stuck_tile(agents0[k].state) == c;
                    assert(exists|m2: int| 0 <= m2 < digs@.len() && (#[trigger] digs@[m2]).0
                        == spec_stuck_tile(agents0[k].state));
                }
            }
        }
    }
}

} // verus!
