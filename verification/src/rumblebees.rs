//! Agent lifecycle: waking freshly spawned agents, turning spawn requests
//! into agents, and the per-tick decision pass that gives idle agents a
//! route via the target-finding policy.

use vstd::prelude::*;
use crate::game::spec_agent_cell;
use crate::grid::{adjacent, TilePos};
use crate::path::{tilepos_to_px, WorldPos};
use crate::policy::{find_empty_tile, find_target, TargetOutcome};
use crate::rng::random_below;
use crate::search::is_path;
use crate::terrain::{spec_tile_topsoil, Faction, Tile};
use crate::settings::{
    INACTIVE_MS, MAP_COLS, MAP_ROWS, RUMBLEBEE_PER_EGG_SPEEDUP, RUMBLEBEE_SPEED_MAX,
    RUMBLEBEE_SPEED_VARIANCE,
};
use crate::world::{
    spec_agent_wf, spec_fight_since, spec_inactive_until, spec_route_of, spec_route_on_map,
    Agent, AgentState, BeeBorn, World,
};

verus! {

/// What the wake pass does to one agent: an inactive agent whose timer has
/// run out becomes idle.
pub open spec fn spec_wake_agent(a: Agent, now_ms: u64) -> Agent {
    if a.state is Inactive && now_ms >= spec_inactive_until(a.state) {
        Agent { id: a.id, faction: a.faction, pos: a.pos, speed: a.speed, state: AgentState::Idle }
    } else {
        a
    }
}

/// One birth's nudge to the base speed: up by the fixed step, capped at
/// the maximum.
pub open spec fn spec_speed_bump(b: u32) -> u32 {
    if b >= RUMBLEBEE_SPEED_MAX - RUMBLEBEE_PER_EGG_SPEEDUP {
        RUMBLEBEE_SPEED_MAX
    } else {
        (b + RUMBLEBEE_PER_EGG_SPEEDUP) as u32
    }
}

/// The base speed after `k` births.
pub open spec fn spec_base_after(b: u32, k: int) -> u32
    decreases k,
{
    if k <= 0 {
        b
    } else {
        spec_speed_bump(spec_base_after(b, k - 1))
    }
}

/// The lower end of the speed band a newborn draws from.
pub open spec fn spec_speed_lo(b: u32) -> u32 {
    (b / 1000 * (1000 - RUMBLEBEE_SPEED_VARIANCE)) as u32
}

/// The width of the speed band a newborn draws from (at least one, so the
/// draw is well-defined).
pub open spec fn spec_speed_spread(b: u32) -> u32 {
    if b / 1000 * (1000 + RUMBLEBEE_SPEED_VARIANCE) > spec_speed_lo(b) {
        (b / 1000 * (1000 + RUMBLEBEE_SPEED_VARIANCE) - spec_speed_lo(b)) as u32
    } else {
        1
    }
}

/// The agent the birth pass makes from one spawn request: the request's
/// faction, the given position (or a free cell's world point), a fresh
/// id, a speed drawn from the band around the base, and an inactive start.
pub open spec fn spec_newborn_ok(
    b: Agent,
    r: BeeBorn,
    id: int,
    base: u32,
    now_ms: u64,
    main: crate::grid::Navmesh,
) -> bool {
    &&& b.faction == r.faction
    &&& b.id == id
    &&& b.state is Inactive
    &&& spec_inactive_until(b.state) == now_ms + INACTIVE_MS
    &&& spec_speed_lo(base) <= b.speed < spec_speed_lo(base) + spec_speed_spread(base)
    &&& (r.pos matches Some(p) ==> b.pos == p)
    &&& (r.pos is None ==> exists|c: TilePos|
        c.x < MAP_COLS && c.y < MAP_ROWS && !(#[trigger] main.spec_solid(c)) && b.pos
            == crate::path::spec_tilepos_to_px(c))
}

impl World {
    /// The wake pass: freshly spawned agents stay passive until their
    /// timer runs out, then become idle and start taking decisions.
    pub fn do_nothing_for_a_bit(&mut self, now_ms: u64)
        requires
            old(self).wf(),
        ensures
            final(self).wf(),
            final(self).tiles == old(self).tiles,
            final(self).health == old(self).health,
            final(self).spawns == old(self).spawns,
            final(self).game_data == old(self).game_data,
            final(self).next_id == old(self).next_id,
            final(self).agents@.len() == old(self).agents@.len(),
            forall|k: int| 0 <= k < old(self).agents@.len()
                ==> #[trigger] final(self).agents@[k] == spec_wake_agent(
                    old(self).agents@[k],
                    now_ms,
                ),
    {
        let ghost agents0 = self.agents@;
        let ghost snap = *self;
        let n = self.agents.len();
        let mut i: usize = 0;
        while i < n
            invariant
                n == agents0.len(),
                i <= n,
                self.agents@.len() == n,
                self.tiles == snap.tiles,
                self.health == snap.health,
                self.navmesh == snap.navmesh,
                self.spawns == snap.spawns,
                self.game_data == snap.game_data,
                self.next_id == snap.next_id,
                agents0 == snap.agents@,
                snap.wf(),
                forall|k: int| 0 <= k < i
                    ==> #[trigger] self.agents@[k] == spec_wake_agent(agents0[k], now_ms),
                forall|k: int| i <= k < n ==> #[trigger] self.agents@[k] == agents0[k],
            decreases n - i,
        {
            let wake = match &self.agents[i].state {
                AgentState::Inactive { until_ms } => now_ms >= *until_ms,
                _ => false,
            };
            if wake {
                let a = &self.agents[i];
                let woke = Agent {
                    id: a.id,
                    faction: a.faction,
                    pos: a.pos,
                    speed: a.speed,
                    state: AgentState::Idle,
                };
                self.agents[i] = woke;
            }
            i = i + 1;
        }
        proof {
            assert forall|k: int| 0 <= k < n implies spec_agent_wf(
                #[trigger] self.agents@[k],
            ) && (#[trigger] self.agents@[k].id) == agents0[k].id && (self.agents@[k].state
                is Fighting ==> self.agents@[k] == agents0[k]) by {
                assert(self.agents@[k] == spec_wake_agent(agents0[k], now_ms));
                assert(spec_agent_wf(agents0[k]));
            }
            assert(crate::world::spec_ids_unique(self.agents@));
            assert(crate::world::spec_fights_wf(self.agents@)) by {
                assert forall|k: int|
                    0 <= k < n && (#[trigger] self.agents@[k].state) is Fighting
                    implies exists|m: int| #[trigger] crate::world::spec_fight_partners(
                    self.agents@,
                    k,
                    m,
                ) by {
                    assert(agents0[k].state is Fighting);
                    let m = choose|m: int| crate::world::spec_fight_partners(agents0, k, m);
                    assert(crate::world::spec_fight_partners(agents0, k, m));
                    assert(self.agents@[m] == spec_wake_agent(agents0[m], now_ms));
                    assert(self.agents@[m] == agents0[m]);
                    assert(crate::world::spec_fight_partners(self.agents@, k, m));
                }
            }
        }
    }

    /// The birth pass: every pending spawn request becomes an agent, at its
    /// given position or at a random free tile; a request with no given
    /// position on a fully blocked map is discarded. Each birth nudges the
    /// base speed up toward its cap, and the newborn starts inactive with
    /// a random speed around the base.
    pub fn birth_a_bee(&mut self, now_ms: u64)
        requires
            old(self).wf(),
            now_ms <= u64::MAX - INACTIVE_MS,
        ensures
            final(self).wf(),
            final(self).tiles == old(self).tiles,
            final(self).health == old(self).health,
            final(self).spawns@.len() == 0,
            final(self).game_data.eggs_spawned == old(self).game_data.eggs_spawned,
            final(self).game_data.game_started == old(self).game_data.game_started,
            final(self).game_data.game_over == old(self).game_data.game_over,
            final(self).game_data.egg_spawn_time == old(self).game_data.egg_spawn_time,
            final(self).agents@.len() >= old(self).agents@.len(),
            final(self).agents@.len() <= old(self).agents@.len() + old(self).spawns@.len(),
            forall|k: int| 0 <= k < old(self).agents@.len()
                ==> #[trigger] final(self).agents@[k] == old(self).agents@[k],
            forall|k: int| old(self).agents@.len() <= k < final(self).agents@.len() ==> {
                &&& (#[trigger] final(self).agents@[k]).state is Inactive
                &&& spec_inactive_until(final(self).agents@[k].state) == now_ms + INACTIVE_MS
                &&& final(self).agents@[k].id >= old(self).next_id
            },
            final(self).game_data.bee_base_speed == spec_base_after(
                old(self).game_data.bee_base_speed,
                old(self).spawns@.len() as int,
            ),
            (old(self).next_id + old(self).spawns@.len() <= u64::MAX && ((exists|c: TilePos|
                c.x < MAP_COLS && c.y < MAP_ROWS && !(#[trigger] old(
                    self,
                ).navmesh.main.spec_solid(c))) || (forall|m: int|
                0 <= m < old(self).spawns@.len()
                    ==> (#[trigger] old(self).spawns@[m]).pos is Some))) ==> {
                &&& final(self).agents@.len() == old(self).agents@.len() + old(
                    self,
                ).spawns@.len()
                &&& forall|q: int| 0 <= q < old(self).spawns@.len()
                    ==> spec_newborn_ok(
                        #[trigger] final(self).agents@[old(self).agents@.len() + q],
                        old(self).spawns@[q],
                        old(self).next_id + q,
                        spec_base_after(old(self).game_data.bee_base_speed, q + 1),
                        now_ms,
                        old(self).navmesh.main,
                    )
            },
    {
        let ghost agents0 = self.agents@;
        let ghost spawns0 = self.spawns@;
        let ghost snap = *self;
        let ghost can_spawn_all = snap.next_id + spawns0.len() <= u64::MAX && ((exists|
            c: TilePos,
        |
            c.x < MAP_COLS && c.y < MAP_ROWS && !(#[trigger] snap.navmesh.main.spec_solid(c)))
            || (forall|m: int|
            0 <= m < spawns0.len() ==> (#[trigger] spawns0[m]).pos is Some));
        let n_spawns = self.spawns.len();
        let mut s: usize = 0;
        while s < n_spawns
            invariant
                n_spawns == spawns0.len(),
                s <= n_spawns,
                now_ms <= u64::MAX - INACTIVE_MS,
                self.spawns@ == spawns0,
                self.tiles == snap.tiles,
                self.health == snap.health,
                self.navmesh == snap.navmesh,
                self.game_data.eggs_spawned == snap.game_data.eggs_spawned,
                self.game_data.game_started == snap.game_data.game_started,
                self.game_data.game_over == snap.game_data.game_over,
                self.game_data.egg_spawn_time == snap.game_data.egg_spawn_time,
                self.game_data.bee_base_speed == spec_base_after(
                    snap.game_data.bee_base_speed,
                    s as int,
                ),
                agents0 == snap.agents@,
                spawns0 == snap.spawns@,
                snap.wf(),
                self.wf(),
                self.next_id >= snap.next_id,
                agents0.len() <= self.agents@.len() <= agents0.len() + s,
                forall|k: int| 0 <= k < agents0.len()
                    ==> #[trigger] self.agents@[k] == agents0[k],
                forall|k: int| agents0.len() <= k < self.agents@.len() ==> {
                    &&& (#[trigger] self.agents@[k]).state is Inactive
                    &&& spec_inactive_until(self.agents@[k].state) == now_ms + INACTIVE_MS
                    &&& self.agents@[k].id >= snap.next_id
                },
                can_spawn_all == (snap.next_id + spawns0.len() <= u64::MAX && ((exists|
                    c: TilePos,
                |
                    c.x < MAP_COLS && c.y < MAP_ROWS && !(#[trigger] snap.navmesh.main.spec_solid(
                        c,
                    ))) || (forall|m: int|
                    0 <= m < spawns0.len() ==> (#[trigger] spawns0[m]).pos is Some))),
                can_spawn_all ==> {
                    &&& self.agents@.len() == agents0.len() + s
                    &&& self.next_id == snap.next_id + s
                    &&& forall|q: int| 0 <= q < s
                        ==> spec_newborn_ok(
                            #[trigger] self.agents@[agents0.len() + q],
                            spawns0[q],
                            snap.next_id + q,
                            spec_base_after(snap.game_data.bee_base_speed, q + 1),
                            now_ms,
                            snap.navmesh.main,
                        )
                },
            decreases n_spawns - s,
        {
            let faction = self.spawns[s].faction;
            let given = self.spawns[s].pos;

            // every birth nudges the base speed up, capped at the maximum
            let base = self.game_data.bee_base_speed;
            let bumped = if base >= RUMBLEBEE_SPEED_MAX - RUMBLEBEE_PER_EGG_SPEEDUP {
                RUMBLEBEE_SPEED_MAX
            } else {
                base + RUMBLEBEE_PER_EGG_SPEEDUP
            };
            let new_base = if bumped > RUMBLEBEE_SPEED_MAX {
                RUMBLEBEE_SPEED_MAX
            } else {
                bumped
            };
            self.game_data.bee_base_speed = new_base;
            proof {
                assert(spec_base_after(snap.game_data.bee_base_speed, s + 1)
                    == spec_speed_bump(spec_base_after(snap.game_data.bee_base_speed, s as int)));
                assert(new_base == spec_base_after(snap.game_data.bee_base_speed, s + 1));
            }

            let ghost mut free_cell: TilePos = TilePos { x: 0, y: 0 };
            let ghost mut used_free = false;
            let pos_given: Option<WorldPos> = match given {
                Some(p) => Some(p),
                None => {
                    match find_empty_tile(&self.navmesh.main, MAP_COLS, MAP_ROWS) {
                        Some(t) => {
                            proof {
                                free_cell = t;
                                used_free = true;
                            }
                            Some(tilepos_to_px(&t))
                        },
                        None => None,
                    }
                },
            };
            let id_ok = self.next_id < u64::MAX;
            if let Some(p) = pos_given {
                if id_ok {
                proof {
                    assert(crate::world::spec_spawn_wf(spawns0[s as int]));
                }
                let lo = new_base / 1000 * (1000 - RUMBLEBEE_SPEED_VARIANCE);
                let hi = new_base / 1000 * (1000 + RUMBLEBEE_SPEED_VARIANCE);
                let spread = if hi > lo {
                    hi - lo
                } else {
                    1
                };
                let speed = lo + random_below(spread);
                assert(speed <= 1_000_000);
                let id = self.next_id;
                let newbee = Agent {
                    id,
                    faction,
                    pos: p,
                    speed,
                    state: AgentState::Inactive { until_ms: now_ms + INACTIVE_MS },
                };
                let ghost pre = self.agents@;
                self.agents.push(newbee);
                self.next_id = id + 1;
                proof {
                    assert forall|k: int| 0 <= k < self.agents@.len() implies spec_agent_wf(
                        #[trigger] self.agents@[k],
                    ) && self.agents@[k].id < self.next_id by {
                        if k < pre.len() {
                            assert(self.agents@[k] == pre[k]);
                        }
                    }
                    assert(crate::world::spec_ids_unique(self.agents@)) by {
                        assert forall|k1: int, k2: int|
                            0 <= k1 < self.agents@.len() && 0 <= k2 < self.agents@.len()
                                && k1 != k2 implies (#[trigger] self.agents@[k1].id)
                            != (#[trigger] self.agents@[k2].id) by {
                            if k1 < pre.len() && k2 < pre.len() {
                            } else if k1 < pre.len() {
                                assert(self.agents@[k1].id < id);
                            } else if k2 < pre.len() {
                                assert(self.agents@[k2].id < id);
                            }
                        }
                    }
                    assert(crate::world::spec_fights_wf(self.agents@)) by {
                        assert forall|k: int|
                            0 <= k < self.agents@.len() && (#[trigger] self.agents@[k].state)
                                is Fighting implies exists|m: int|
                            #[trigger] crate::world::spec_fight_partners(self.agents@, k, m) by {
                            assert(k < pre.len() && self.agents@[k] == pre[k]);
                            let m = choose|m: int|
                                crate::world::spec_fight_partners(pre, k, m);
                            assert(crate::world::spec_fight_partners(pre, k, m));
                            assert(self.agents@[m] == pre[m]);
                            assert(crate::world::spec_fight_partners(self.agents@, k, m));
                        }
                    }
                    if can_spawn_all {
                        assert(self.agents@[agents0.len() + s] == newbee);
                        assert forall|q: int| 0 <= q < s + 1 implies spec_newborn_ok(
                            #[trigger] self.agents@[agents0.len() + q],
                            spawns0[q],
                            snap.next_id + q,
                            spec_base_after(snap.game_data.bee_base_speed, q + 1),
                            now_ms,
                            snap.navmesh.main,
                        ) by {
                            if q < s {
                                assert(self.agents@[agents0.len() + q] == pre[agents0.len()
                                    + q]);
                            } else {
                                assert(newbee.id == snap.next_id + s);
                                assert(newbee.faction == spawns0[s as int].faction);
                                if spawns0[s as int].pos is None {
                                    assert(used_free);
                                    assert(newbee.pos == crate::path::spec_tilepos_to_px(
                                        free_cell,
                                    ));
                                    assert(free_cell.x < MAP_COLS && free_cell.y < MAP_ROWS
                                        && !snap.navmesh.main.spec_solid(free_cell));
                                }
                            }
                        }
                    }
                }
                } else {
                    proof {
                        // the id space never runs dry while the premise holds
                        if can_spawn_all {
                            assert(self.next_id == snap.next_id + s);
                            assert(false);
                        }
                    }
                }
            } else {
                proof {
                    // a request is only dropped when it names no position
                    // and the map holds no free cell
                    if can_spawn_all {
                        if spawns0[s as int].pos is Some {
                            assert(false);
                        } else {
                            assert(forall|c: TilePos| c.x < MAP_COLS && c.y < MAP_ROWS
                                ==> #[trigger] snap.navmesh.main.spec_solid(c));
                            assert(false);
                        }
                    }
                }
            }
            s = s + 1;
        }
        self.spawns.clear();
    }

    /// The decision pass: every idle agent standing on the map asks the
    /// target-finding policy for a route; a usable answer makes it routed,
    /// and a map with no free cell left raises the terminal no-moves
    /// condition as the game-over flag.
    pub fn find_targets(&mut self)
        requires
            old(self).wf(),
        ensures
            final(self).wf(),
            final(self).tiles == old(self).tiles,
            final(self).health == old(self).health,
            final(self).spawns == old(self).spawns,
            final(self).next_id == old(self).next_id,
            final(self).game_data.eggs_spawned == old(self).game_data.eggs_spawned,
            final(self).game_data.game_started == old(self).game_data.game_started,
            final(self).game_data.bee_base_speed == old(self).game_data.bee_base_speed,
            final(self).game_data.egg_spawn_time == old(self).game_data.egg_spawn_time,
            old(self).game_data.game_over ==> final(self).game_data.game_over,
            final(self).game_data.game_over ==> old(self).game_data.game_over || forall|
                c: TilePos,
            |
                c.x < MAP_COLS && c.y < MAP_ROWS ==> #[trigger] old(
                    self,
                ).navmesh.main.spec_solid(c),
            crate::policy::spec_grid_fully_solid(old(self).navmesh.main) && (exists|k: int|
                0 <= k < old(self).agents@.len() && ((#[trigger] old(self).agents@[k]).state)
                    is Idle && spec_agent_cell(old(self).agents@[k].pos).x < MAP_COLS
                    && spec_agent_cell(old(self).agents@[k].pos).y < MAP_ROWS)
                ==> final(self).game_data.game_over,
            forall|k: int|
                0 <= k < old(self).agents@.len() && ((#[trigger] old(self).agents@[k]).state)
                    is Idle && spec_agent_cell(old(self).agents@[k].pos).x < MAP_COLS
                    && spec_agent_cell(old(self).agents@[k].pos).y < MAP_ROWS ==> {
                ||| final(self).agents@[k].state is Routed
                ||| exists|t: TilePos|
                    !(#[trigger] old(self).navmesh.main.spec_solid(t))
                        && !crate::search::reachable(
                        old(self).navmesh.main,
                        spec_agent_cell(old(self).agents@[k].pos),
                        t,
                    )
                ||| crate::policy::spec_grid_fully_solid(old(self).navmesh.main)
            },
            final(self).agents@.len() == old(self).agents@.len(),
            forall|k: int| 0 <= k < old(self).agents@.len()
                && !((#[trigger] old(self).agents@[k]).state is Idle)
                ==> final(self).agents@[k] == old(self).agents@[k],
            forall|k: int| 0 <= k < old(self).agents@.len()
                && ((#[trigger] old(self).agents@[k]).state is Idle) ==> {
                let a = old(self).agents@[k];
                let b = final(self).agents@[k];
                &&& b.id == a.id
                &&& b.faction == a.faction
                &&& b.pos == a.pos
                &&& b.speed == a.speed
                &&& (b.state is Idle || b.state is Routed)
                &&& (b.state is Routed ==> spec_route_of(b.state).wf() && spec_route_of(
                    b.state,
                ).at == 0 && (spec_route_of(b.state).path@[0] == spec_agent_cell(a.pos)
                    || adjacent(spec_agent_cell(a.pos), spec_route_of(b.state).path@[0])))
            },
    {
        let ghost agents0 = self.agents@;
        let ghost snap = *self;
        let n = self.agents.len();
        let mut i: usize = 0;
        while i < n
            invariant
                n == agents0.len(),
                i <= n,
                self.agents@.len() == n,
                self.tiles == snap.tiles,
                self.health == snap.health,
                self.navmesh == snap.navmesh,
                self.spawns == snap.spawns,
                self.next_id == snap.next_id,
                self.game_data.eggs_spawned == snap.game_data.eggs_spawned,
                self.game_data.game_started == snap.game_data.game_started,
                self.game_data.bee_base_speed == snap.game_data.bee_base_speed,
                self.game_data.egg_spawn_time == snap.game_data.egg_spawn_time,
                snap.game_data.game_over ==> self.game_data.game_over,
                self.game_data.game_over ==> snap.game_data.game_over || forall|c: TilePos|
                    c.x < MAP_COLS && c.y < MAP_ROWS
                        ==> #[trigger] snap.navmesh.main.spec_solid(c),
                crate::policy::spec_grid_fully_solid(snap.navmesh.main) ==> forall|k: int|
                    0 <= k < i && ((#[trigger] agents0[k]).state) is Idle && spec_agent_cell(
                        agents0[k].pos,
                    ).x < MAP_COLS && spec_agent_cell(agents0[k].pos).y < MAP_ROWS
                        ==> self.game_data.game_over,
                forall|k: int|
                    0 <= k < i && ((#[trigger] agents0[k]).state) is Idle && spec_agent_cell(
                        agents0[k].pos,
                    ).x < MAP_COLS && spec_agent_cell(agents0[k].pos).y < MAP_ROWS ==> {
                    ||| self.agents@[k].state is Routed
                    ||| exists|t: TilePos|
                        !(#[trigger] snap.navmesh.main.spec_solid(t))
                            && !crate::search::reachable(
                            snap.navmesh.main,
                            spec_agent_cell(agents0[k].pos),
                            t,
                        )
                    ||| crate::policy::spec_grid_fully_solid(snap.navmesh.main)
                },
                agents0 == snap.agents@,
                snap.wf(),
                forall|k: int| 0 <= k < n ==> spec_agent_wf(#[trigger] self.agents@[k]),
                forall|k: int| 0 <= k < n
                    ==> (#[trigger] self.agents@[k]).id == agents0[k].id
                        && (self.agents@[k].state is Fighting ==> self.agents@[k]
                        == agents0[k]),
                forall|k: int| i <= k < n ==> #[trigger] self.agents@[k] == agents0[k],
                forall|k: int| 0 <= k < i && !((#[trigger] agents0[k]).state is Idle)
                    ==> self.agents@[k] == agents0[k],
                forall|k: int| 0 <= k < i && ((#[trigger] agents0[k]).state is Idle) ==> {
                    let a = agents0[k];
                    let b = self.agents@[k];
                    &&& b.id == a.id
                    &&& b.faction == a.faction
                    &&& b.pos == a.pos
                    &&& b.speed == a.speed
                    &&& (b.state is Idle || b.state is Routed)
                    &&& (b.state is Routed ==> spec_route_of(b.state).wf() && spec_route_of(
                        b.state,
                    ).at == 0 && (spec_route_of(b.state).path@[0] == spec_agent_cell(a.pos)
                        || adjacent(spec_agent_cell(a.pos), spec_route_of(b.state).path@[0])))
                },
            decreases n - i,
        {
            let is_idle = match &self.agents[i].state {
                AgentState::Idle => true,
                _ => false,
            };
            if is_idle {
                proof {
                    assert(spec_agent_wf(agents0[i as int]));
                }
                let pos = self.agents[i].pos;
                let faction = self.agents[i].faction;
                let cell = crate::path::px_to_tilepos(WorldPos { x: pos.x - 80, y: pos.y });
                if cell.x < MAP_COLS && cell.y < MAP_ROWS {
                    proof {
                        assert(cell == spec_agent_cell(pos));
                    }
                    let outcome = find_target(&self.navmesh, &self.tiles, faction, cell);
                    match outcome {
                        TargetOutcome::ToEgg { route } => {
                            proof {
                                let e = choose|e: TilePos|
                                    crate::policy::spec_egg_compat(snap.tiles@, faction, e)
                                        && is_path(snap.navmesh.main, route.path@, cell, e);
                                assert(is_path(snap.navmesh.main, route.path@, cell, e));
                                if crate::policy::spec_grid_fully_solid(snap.navmesh.main) {
                                    // a compatible egg cell is never solid, so a fully
                                    // solid grid has none
                                    assert(crate::policy::spec_egg_compat(
                                        snap.tiles@,
                                        faction,
                                        e,
                                    ));
                                    assert(snap.spec_tile_at(e.x as int, e.y as int) is Egg);
                                    assert(!snap.navmesh.main.spec_solid(e));
                                    assert(false);
                                }
                                assert(spec_route_on_map(route)) by {
                                    assert forall|j: int| 0 <= j < route.path@.len()
                                        implies (#[trigger] route.path@[j]).x < MAP_COLS
                                        && route.path@[j].y < MAP_ROWS by {
                                        if j == 0 {
                                        } else {
                                            assert(crate::search::step_ok(
                                                snap.navmesh.main,
                                                route.path@[j - 1],
                                                route.path@[j],
                                            ));
                                            snap.navmesh.main.lemma_solid_out_of_bounds(
                                                route.path@[j],
                                            );
                                        }
                                    }
                                }
                            }
                            let a = &self.agents[i];
                            let routed = Agent {
                                id: a.id,
                                faction: a.faction,
                                pos: a.pos,
                                speed: a.speed,
                                state: AgentState::Routed { route },
                            };
                            self.agents[i] = routed;
                        },
                        TargetOutcome::DigToward { route } => {
                            proof {
                                let (full, e): (Seq<TilePos>, TilePos) = choose|
                                    full: Seq<TilePos>,
                                    e: TilePos,
                                |
                                    {
                                        &&& #[trigger] crate::policy::spec_egg_compat(
                                            snap.tiles@,
                                            faction,
                                            e,
                                        )
                                        &&& #[trigger] is_path(
                                            snap.navmesh.alt,
                                            full,
                                            cell,
                                            e,
                                        )
                                        &&& route.path@.len() <= full.len() - 1
                                        &&& forall|j: int| 0 <= j < route.path@.len()
                                            ==> #[trigger] route.path@[j] == full[j + 1]
                                        &&& forall|j: int| 0 <= j < route.path@.len() - 1
                                            ==> !snap.navmesh.main.spec_solid(
                                                #[trigger] route.path@[j],
                                            )
                                        &&& (snap.navmesh.main.spec_solid(
                                            route.path@[route.path@.len() - 1],
                                        ) || route.path@.len() == full.len() - 1)
                                    };
                                assert(is_path(snap.navmesh.alt, full, cell, e));
                                if crate::policy::spec_grid_fully_solid(snap.navmesh.main) {
                                    assert(crate::policy::spec_egg_compat(
                                        snap.tiles@,
                                        faction,
                                        e,
                                    ));
                                    assert(snap.spec_tile_at(e.x as int, e.y as int) is Egg);
                                    assert(!snap.navmesh.main.spec_solid(e));
                                    assert(false);
                                }
                                assert(spec_route_on_map(route)) by {
                                    assert forall|j: int| 0 <= j < route.path@.len()
                                        implies (#[trigger] route.path@[j]).x < MAP_COLS
                                        && route.path@[j].y < MAP_ROWS by {
                                        assert(route.path@[j] == full[j + 1]);
                                        assert(crate::search::step_ok(
                                            snap.navmesh.alt,
                                            full[j],
                                            full[j + 1],
                                        ));
                                        snap.navmesh.alt.lemma_solid_out_of_bounds(full[j + 1]);
                                    }
                                }
                                assert(route.path@[0] == full[1]);
                                assert(crate::search::step_ok(snap.navmesh.alt, full[0], full[1]));
                                assert(adjacent(cell, route.path@[0]));
                            }
                            let a = &self.agents[i];
                            let routed = Agent {
                                id: a.id,
                                faction: a.faction,
                                pos: a.pos,
                                speed: a.speed,
                                state: AgentState::Routed { route },
                            };
                            self.agents[i] = routed;
                        },
                        TargetOutcome::Wander { route } => {
                            proof {
                                let t = choose|t: TilePos|
                                    !(#[trigger] snap.navmesh.main.spec_solid(t)) && is_path(
                                        snap.navmesh.main,
                                        route.path@,
                                        cell,
                                        t,
                                    );
                                assert(is_path(snap.navmesh.main, route.path@, cell, t));
                                if crate::policy::spec_grid_fully_solid(snap.navmesh.main) {
                                    snap.navmesh.main.lemma_solid_out_of_bounds(t);
                                    assert(false);
                                }
                                assert(spec_route_on_map(route)) by {
                                    assert forall|j: int| 0 <= j < route.path@.len()
                                        implies (#[trigger] route.path@[j]).x < MAP_COLS
                                        && route.path@[j].y < MAP_ROWS by {
                                        if j == 0 {
                                        } else {
                                            assert(crate::search::step_ok(
                                                snap.navmesh.main,
                                                route.path@[j - 1],
                                                route.path@[j],
                                            ));
                                            snap.navmesh.main.lemma_solid_out_of_bounds(
                                                route.path@[j],
                                            );
                                        }
                                    }
                                }
                            }
                            let a = &self.agents[i];
                            let routed = Agent {
                                id: a.id,
                                faction: a.faction,
                                pos: a.pos,
                                speed: a.speed,
                                state: AgentState::Routed { route },
                            };
                            self.agents[i] = routed;
                        },
                        TargetOutcome::GiveUp => {
                            proof {
                                if crate::policy::spec_grid_fully_solid(snap.navmesh.main) {
                                    let t = choose|t: TilePos|
                                        !(#[trigger] snap.navmesh.main.spec_solid(t))
                                            && !crate::search::reachable(
                                            snap.navmesh.main,
                                            cell,
                                            t,
                                        );
                                    snap.navmesh.main.lemma_solid_out_of_bounds(t);
                                    assert(false);
                                }
                            }
                        },
                        TargetOutcome::NoMoves => {
                            self.game_data.game_over = true;
                        },
                    }
                }
            }
            i = i + 1;
        }
        proof {
            assert(crate::world::spec_ids_unique(self.agents@));
            assert(crate::world::spec_fights_wf(self.agents@)) by {
                assert forall|k: int|
                    0 <= k < n && (#[trigger] self.agents@[k].state) is Fighting
                    implies exists|m: int| #[trigger] crate::world::spec_fight_partners(
                    self.agents@,
                    k,
                    m,
                ) by {
                    assert(self.agents@[k] == agents0[k]);
                    assert(agents0[k].state is Fighting);
                    let m = choose|m: int| crate::world::spec_fight_partners(agents0, k, m);
                    assert(crate::world::spec_fight_partners(agents0, k, m));
                    assert(self.agents@[m].id == agents0[m].id);
                    assert(self.agents@[m] == agents0[m]) by {
                        assert(agents0[m].state is Fighting);
                        if self.agents@[m] != agents0[m] {
                            assert(self.agents@[m].state is Fighting ==> self.agents@[m]
                                == agents0[m]);
                        }
                    }
                    assert(crate::world::spec_fight_partners(self.agents@, k, m));
                }
            }
        }
    }
}


/// What the capture cascade does to the stalk column under a captured egg,
/// walking down from `y`: live stalks (style 0) die — the first one found
/// becomes the dead top (style 2), the ones below become dead trunk
/// (style 1) — already-dead stalks are passed over, and the walk stops at
/// the first non-stalk tile or at the bottom of the map. The boolean is
/// true when the walk met a non-stalk tile before any live stalk: the
/// captured egg then had no stalk of its own and turns into a dead top
/// itself rather than into air.
pub open spec fn spec_decay(tiles: Seq<Tile>, x: int, y: int, is_top: bool) -> (Seq<Tile>, bool)
    decreases y + 1,
{
    if y < 0 {
        (tiles, false)
    } else {
        match tiles[y * (MAP_COLS as int) + x] {
            Tile::Stalk { style } => {
                if style == 0 {
                    spec_decay(
                        tiles.update(
                            y * (MAP_COLS as int) + x,
                            Tile::Stalk { style: if is_top { 2 } else { 1 } },
                        ),
                        x,
                        y - 1,
                        false,
                    )
                } else {
                    spec_decay(tiles, x, y - 1, is_top)
                }
            },
            _ => (tiles, is_top),
        }
    }
}

/// The decay walk only rewrites live stalk cells into dead ones: any cell
/// it changes held a live stalk (style 0) and now holds a dead top
/// (style 2) or dead trunk (style 1).
proof fn lemma_decay_changes(tiles: Seq<Tile>, x: int, y: int, is_top: bool)
    requires
        tiles.len() == MAP_COLS * MAP_ROWS,
        0 <= x < MAP_COLS,
        y < MAP_ROWS,
    ensures
        spec_decay(tiles, x, y, is_top).0.len() == tiles.len(),
        forall|k: int|
            0 <= k < tiles.len() && (#[trigger] spec_decay(tiles, x, y, is_top).0[k])
                != tiles[k] ==> tiles[k] == (Tile::Stalk { style: 0 }) && (spec_decay(
                tiles,
                x,
                y,
                is_top,
            ).0[k] == (Tile::Stalk { style: 1 }) || spec_decay(tiles, x, y, is_top).0[k]
                == (Tile::Stalk { style: 2 })),
    decreases y + 1,
{
    if y < 0 {
    } else {
        let idx = y * (MAP_COLS as int) + x;
        assert(0 <= idx < tiles.len()) by (nonlinear_arith)
            requires
                0 <= x < 23,
                0 <= y < 15,
                tiles.len() == 345,
                idx == y * 23 + x,
        {}
        match tiles[idx] {
            Tile::Stalk { style } => {
                if style == 0 {
                    let t2 = tiles.update(
                        idx,
                        Tile::Stalk { style: if is_top { 2 } else { 1 } },
                    );
                    lemma_decay_changes(t2, x, y - 1, false);
                    assert forall|k: int|
                        0 <= k < tiles.len() && (#[trigger] spec_decay(
                            tiles,
                            x,
                            y,
                            is_top,
                        ).0[k]) != tiles[k] implies tiles[k] == (Tile::Stalk { style: 0 })
                        && (spec_decay(tiles, x, y, is_top).0[k] == (Tile::Stalk { style: 1 })
                        || spec_decay(tiles, x, y, is_top).0[k] == (Tile::Stalk {
                            style: 2,
                        })) by {
                        if spec_decay(tiles, x, y, is_top).0[k] != t2[k] {
                        } else {
                            assert(t2[k] != tiles[k] ==> k == idx);
                        }
                    }
                } else {
                    lemma_decay_changes(tiles, x, y - 1, is_top);
                }
            },
            _ => {},
        }
    }
}

impl World {
    /// Capture the egg at `egg_pos` for `faction`: the egg tile becomes
    /// air, the stalk that carried it dies from the top down, a stalkless
    /// egg leaves a dead top behind instead, a spawn request for the
    /// capturing faction appears at the egg's world point, and the egg
    /// counter grows. Terrain changes go through the reactor, so routes
    /// crossing a cell that became solid are dropped.
    #[verifier::rlimit(100)]
    #[verifier::spinoff_prover]
    pub fn capture_egg(&mut self, faction: Faction, egg_pos: TilePos)
        requires
            old(self).wf(),
            egg_pos.x < MAP_COLS,
            egg_pos.y < MAP_ROWS,
            old(self).spec_tile_at(egg_pos.x as int, egg_pos.y as int) is Egg,
        ensures
            final(self).wf(),
            final(self).health == old(self).health,
            final(self).next_id == old(self).next_id,
            final(self).game_data.game_over == old(self).game_data.game_over,
            final(self).game_data.bee_base_speed == old(self).game_data.bee_base_speed,
            final(self).game_data.egg_spawn_time == old(self).game_data.egg_spawn_time,
            final(self).game_data.game_started,
            final(self).game_data.eggs_spawned == if old(self).game_data.eggs_spawned
                < usize::MAX {
                old(self).game_data.eggs_spawned + 1
            } else {
                old(self).game_data.eggs_spawned as int
            },
            final(self).spawns@ == old(self).spawns@.push(
                BeeBorn {
                    pos: Some(crate::path::spec_tilepos_to_px(egg_pos)),
                    faction,
                },
            ),
            final(self).agents@.len() == old(self).agents@.len(),
            forall|k: int| 0 <= k < old(self).agents@.len() ==> {
                let a = old(self).agents@[k];
                let b = #[trigger] final(self).agents@[k];
                &&& b.id == a.id
                &&& b.faction == a.faction
                &&& b.pos == a.pos
                &&& b.speed == a.speed
                &&& (b.state == a.state || (a.state is Routed && b.state is Idle))
            },
            ({
                let eggidx = egg_pos.y * (MAP_COLS as int) + egg_pos.x;
                let after_air = old(self).tiles@.update(eggidx, Tile::Air);
                let dec = spec_decay(after_air, egg_pos.x as int, egg_pos.y - 1, true);
                final(self).tiles@ == if dec.1 {
                    dec.0.update(eggidx, Tile::Stalk { style: 2 })
                } else {
                    dec.0
                }
            }),
            forall|c: TilePos|
                #![trigger c.x, c.y]
                c.x < MAP_COLS && c.y < MAP_ROWS && final(self).spec_tile_at(
                    c.x as int,
                    c.y as int,
                ) != old(self).spec_tile_at(c.x as int, c.y as int) ==> {
                ||| (old(self).spec_tile_at(c.x as int, c.y as int) is Egg
                    && (final(self).spec_tile_at(c.x as int, c.y as int) is Air
                    || final(self).spec_tile_at(c.x as int, c.y as int) == (Tile::Stalk {
                        style: 2,
                    })))
                ||| (old(self).spec_tile_at(c.x as int, c.y as int) == (Tile::Stalk {
                    style: 0,
                }) && (final(self).spec_tile_at(c.x as int, c.y as int) == (Tile::Stalk {
                    style: 1,
                }) || final(self).spec_tile_at(c.x as int, c.y as int) == (Tile::Stalk {
                    style: 2,
                })))
            },
            !(final(self).spec_tile_at(egg_pos.x as int, egg_pos.y as int) is Egg),
            forall|c: TilePos|
                #![trigger c.x, c.y]
                c.x < MAP_COLS && c.y < MAP_ROWS && !(c == egg_pos) && old(self).spec_tile_at(
                    c.x as int,
                    c.y as int,
                ) is Egg ==> final(self).spec_tile_at(c.x as int, c.y as int) == old(
                self,
            ).spec_tile_at(c.x as int, c.y as int),
    {
        let ghost tiles0 = self.tiles@;
        let ghost agents0 = self.agents@;
        let ghost eggidx = egg_pos.y * (MAP_COLS as int) + egg_pos.x;
        self.set_tile(egg_pos, Tile::Air);
        proof {
            assert(self.tiles@ =~= tiles0.update(eggidx, Tile::Air)) by {
                assert(self.spec_tile_at(egg_pos.x as int, egg_pos.y as int) == Tile::Air);
                assert forall|k: int| 0 <= k < tiles0.len()
                    implies self.tiles@[k] == tiles0.update(eggidx, Tile::Air)[k] by {
                    let x2 = k % (MAP_COLS as int);
                    let y2 = k / (MAP_COLS as int);
                    assert(0 <= x2 < MAP_COLS && 0 <= y2 < MAP_ROWS && k == y2 * (
                    MAP_COLS as int) + x2) by (nonlinear_arith)
                        requires
                            0 <= k < 345,
                            MAP_COLS == 23,
                            MAP_ROWS == 15,
                            x2 == k % 23,
                            y2 == k / 23,
                    {}
                    if k != eggidx {
                        assert(!(x2 == egg_pos.x as int && y2 == egg_pos.y as int))
                            by (nonlinear_arith)
                            requires
                                k == y2 * 23 + x2,
                                eggidx == egg_pos.y * 23 + egg_pos.x,
                                k != eggidx,
                                MAP_COLS == 23,
                        {}
                        assert(self.spec_tile_at(x2, y2) == old(self).spec_tile_at(x2, y2));
                    }
                }
            }
        }
        let ghost after_air = self.tiles@;
        let ghost goal = spec_decay(after_air, egg_pos.x as int, egg_pos.y - 1, true);
        let mut cur: i64 = egg_pos.y as i64 - 1;
        let mut is_top: bool = true;
        let mut eggify: bool = false;
        let mut walking: bool = true;
        while walking
            invariant
                self.wf(),
                egg_pos.x < MAP_COLS,
                egg_pos.y < MAP_ROWS,
                -1 <= cur < MAP_ROWS,
                self.health == old(self).health,
                self.next_id == old(self).next_id,
                self.spawns == old(self).spawns,
                self.game_data == old(self).game_data,
                self.agents@.len() == agents0.len(),
                forall|k: int| 0 <= k < agents0.len() ==> {
                    let a = agents0[k];
                    let b = #[trigger] self.agents@[k];
                    &&& b.id == a.id
                    &&& b.faction == a.faction
                    &&& b.pos == a.pos
                    &&& b.speed == a.speed
                    &&& (b.state == a.state || (a.state is Routed && b.state is Idle))
                },
                walking ==> goal == spec_decay(self.tiles@, egg_pos.x as int, cur as int, is_top),
                !walking ==> goal == (self.tiles@, eggify),
            decreases cur + 1, (if walking { 1int } else { 0int }),
        {
            if cur < 0 {
                walking = false;
                eggify = false;
            } else {
                let here = TilePos { x: egg_pos.x, y: cur as u32 };
                let t = self.tile_at(here);
                match t {
                    Tile::Stalk { style } => {
                        if style == 0 {
                            let ghost pre = self.tiles@;
                            let ghost wpre = *self;
                            let replacement = Tile::Stalk {
                                style: if is_top {
                                    2
                                } else {
                                    1
                                },
                            };
                            self.set_tile(here, replacement);
                            proof {
                                let hidx = (cur as int) * (MAP_COLS as int) + egg_pos.x;
                                assert(self.tiles@ =~= pre.update(hidx, replacement)) by {
                                    assert(self.spec_tile_at(egg_pos.x as int, cur as int)
                                        == replacement);
                                    assert forall|k: int| 0 <= k < pre.len()
                                        implies self.tiles@[k] == pre.update(
                                        hidx,
                                        replacement,
                                    )[k] by {
                                        let x2 = k % (MAP_COLS as int);
                                        let y2 = k / (MAP_COLS as int);
                                        assert(0 <= x2 < MAP_COLS && 0 <= y2 < MAP_ROWS && k
                                            == y2 * (MAP_COLS as int) + x2)
                                            by (nonlinear_arith)
                                            requires
                                                0 <= k < 345,
                                                MAP_COLS == 23,
                                                MAP_ROWS == 15,
                                                x2 == k % 23,
                                                y2 == k / 23,
                                        {}
                                        if k != hidx {
                                            assert(!(x2 == egg_pos.x as int && y2 == cur as int))
                                                by (nonlinear_arith)
                                                requires
                                                    k == y2 * 23 + x2,
                                                    hidx == cur * 23 + egg_pos.x,
                                                    k != hidx,
                                                    MAP_COLS == 23,
                                            {}
                                            assert(self.spec_tile_at(x2, y2)
                                                == wpre.spec_tile_at(x2, y2));
                                        } else {
                                            assert(self.tiles@[k] == replacement);
                                        }
                                    }
                                }
                            }
                            is_top = false;
                        }
                    },
                    _ => {
                        walking = false;
                        eggify = is_top;
                    },
                }
                if walking {
                    cur = cur - 1;
                }
            }
        }
        if eggify {
            let ghost pre = self.tiles@;
            let ghost wpre = *self;
            self.set_tile(egg_pos, Tile::Stalk { style: 2 });
            proof {
                assert(self.tiles@ =~= pre.update(eggidx, Tile::Stalk { style: 2 })) by {
                    assert(self.spec_tile_at(egg_pos.x as int, egg_pos.y as int)
                        == Tile::Stalk { style: 2 });
                    assert forall|k: int| 0 <= k < pre.len()
                        implies self.tiles@[k] == pre.update(
                        eggidx,
                        Tile::Stalk { style: 2 },
                    )[k] by {
                        let x2 = k % (MAP_COLS as int);
                        let y2 = k / (MAP_COLS as int);
                        assert(0 <= x2 < MAP_COLS && 0 <= y2 < MAP_ROWS && k == y2 * (
                        MAP_COLS as int) + x2) by (nonlinear_arith)
                            requires
                                0 <= k < 345,
                                MAP_COLS == 23,
                                MAP_ROWS == 15,
                                x2 == k % 23,
                                y2 == k / 23,
                        {}
                        if k != eggidx {
                            assert(!(x2 == egg_pos.x as int && y2 == egg_pos.y as int))
                                by (nonlinear_arith)
                                requires
                                    k == y2 * 23 + x2,
                                    eggidx == egg_pos.y * 23 + egg_pos.x,
                                    k != eggidx,
                                    MAP_COLS == 23,
                            {}
                            assert(self.spec_tile_at(x2, y2) == wpre.spec_tile_at(x2, y2));
                        } else {
                            assert(self.tiles@[k] == Tile::Stalk { style: 2 });
                        }
                    }
                }
            }
        }
        proof {
            lemma_decay_changes(after_air, egg_pos.x as int, egg_pos.y - 1, true);
            assert forall|c: TilePos|
                #![trigger c.x, c.y]
                c.x < MAP_COLS && c.y < MAP_ROWS && self.spec_tile_at(c.x as int, c.y as int)
                    != old(self).spec_tile_at(c.x as int, c.y as int) implies {
                ||| (old(self).spec_tile_at(c.x as int, c.y as int) is Egg
                    && (self.spec_tile_at(c.x as int, c.y as int) is Air
                    || self.spec_tile_at(c.x as int, c.y as int) == (Tile::Stalk {
                        style: 2,
                    })))
                ||| (old(self).spec_tile_at(c.x as int, c.y as int) == (Tile::Stalk {
                    style: 0,
                }) && (self.spec_tile_at(c.x as int, c.y as int) == (Tile::Stalk { style: 1 })
                    || self.spec_tile_at(c.x as int, c.y as int) == (Tile::Stalk {
                    style: 2,
                })))
            } by {
                let k = c.y * (MAP_COLS as int) + c.x;
                assert(0 <= k < 345) by (nonlinear_arith)
                    requires
                        c.x < 23,
                        c.y < 15,
                        k == c.y * 23 + c.x,
                        MAP_COLS == 23,
                {}
                let dec = spec_decay(after_air, egg_pos.x as int, egg_pos.y - 1, true);
                if k == eggidx {
                    assert(c == egg_pos) by (nonlinear_arith)
                        requires
                            k == eggidx,
                            k == c.y * 23 + c.x,
                            eggidx == egg_pos.y * 23 + egg_pos.x,
                            c.x < 23,
                            egg_pos.x < 23,
                            MAP_COLS == 23,
                    {}
                    if dec.1 {
                    } else {
                        assert(self.tiles@[k] == dec.0[k]);
                        if dec.0[k] != after_air[k] {
                            assert(after_air[k] == (Tile::Stalk { style: 0 }));
                            assert(false);
                        }
                    }
                } else {
                    assert(self.tiles@[k] == dec.0[k]);
                    assert(after_air[k] == old(self).tiles@[k]);
                    if dec.0[k] != after_air[k] {
                        assert(after_air[k] == (Tile::Stalk { style: 0 }));
                    }
                }
            }
            assert forall|c: TilePos|
                #![trigger c.x, c.y]
                c.x < MAP_COLS && c.y < MAP_ROWS && !(c == egg_pos) && old(self).spec_tile_at(
                    c.x as int,
                    c.y as int,
                ) is Egg implies self.spec_tile_at(c.x as int, c.y as int) == old(
                self,
            ).spec_tile_at(c.x as int, c.y as int) by {
                let k = c.y * (MAP_COLS as int) + c.x;
                assert(0 <= k < 345 && k != eggidx) by (nonlinear_arith)
                    requires
                        c.x < 23,
                        c.y < 15,
                        egg_pos.x < 23,
                        egg_pos.y < 15,
                        k == c.y * 23 + c.x,
                        eggidx == egg_pos.y * 23 + egg_pos.x,
                        !(c.x == egg_pos.x && c.y == egg_pos.y),
                        MAP_COLS == 23,
                {}
                let dec = spec_decay(after_air, egg_pos.x as int, egg_pos.y - 1, true);
                assert(self.tiles@[k] == dec.0[k]);
                assert(after_air[k] == old(self).tiles@[k]);
                if dec.0[k] != after_air[k] {
                    assert(after_air[k] is Stalk);
                }
            }
            assert(!(self.spec_tile_at(egg_pos.x as int, egg_pos.y as int) is Egg)) by {
                let dec = spec_decay(after_air, egg_pos.x as int, egg_pos.y - 1, true);
                if dec.1 {
                } else {
                    assert(self.tiles@[eggidx] == dec.0[eggidx]);
                    if dec.0[eggidx] != after_air[eggidx] {
                        assert(dec.0[eggidx] is Stalk);
                    } else {
                        assert(after_air[eggidx] is Air);
                    }
                }
            }
        }
        let px = tilepos_to_px(&egg_pos);
        self.spawns.push(BeeBorn { pos: Some(px), faction });
        if self.game_data.eggs_spawned < usize::MAX {
            self.game_data.eggs_spawned = self.game_data.eggs_spawned + 1;
        }
        self.game_data.game_started = true;
        proof {
            assert forall|k: int| 0 <= k < self.spawns@.len() implies crate::world::spec_spawn_wf(
                #[trigger] self.spawns@[k],
            ) by {
                if k < self.spawns@.len() - 1 {
                    assert(self.spawns@[k] == old(self).spawns@[k]);
                }
            }
        }
    }
}


/// Some agent stands close enough to a compatible egg to capture it.
pub open spec fn spec_egg_capture_possible(w: World) -> bool {
    exists|k: int, c: TilePos|
        {
            &&& 0 <= k < w.agents@.len()
            &&& c.x < MAP_COLS
            &&& c.y < MAP_ROWS
            &&& (#[trigger] w.spec_tile_at(c.x as int, c.y as int)) is Egg
            &&& crate::terrain::spec_match_faction(
                (#[trigger] w.agents@[k]).faction,
                crate::terrain::spec_egg_faction(
                    crate::policy::spec_tile_egg_style(w.spec_tile_at(c.x as int, c.y as int)),
                ),
            )
            &&& crate::combat::spec_close(
                w.agents@[k].pos,
                crate::path::spec_tilepos_to_px(c),
                crate::settings::EGG_RADIUS as int,
            )
        }
}

/// Agent `k` of `w` stands close enough to a compatible egg at cell `c`
/// to capture it this pass.
pub open spec fn spec_wants_egg(w: World, k: int, c: TilePos) -> bool {
    &&& 0 <= k < w.agents@.len()
    &&& c.x < MAP_COLS
    &&& c.y < MAP_ROWS
    &&& w.spec_tile_at(c.x as int, c.y as int) is Egg
    &&& crate::terrain::spec_match_faction(
        w.agents@[k].faction,
        crate::terrain::spec_egg_faction(
            crate::policy::spec_tile_egg_style(w.spec_tile_at(c.x as int, c.y as int)),
        ),
    )
    &&& crate::combat::spec_close(
        w.agents@[k].pos,
        crate::path::spec_tilepos_to_px(c),
        crate::settings::EGG_RADIUS as int,
    )
}

impl World {
    /// The capture pass: every agent close enough to an egg it may target
    /// captures it. When no agent is near a compatible egg, nothing
    /// changes at all; the pass is skipped once the game is over.
    pub fn egg_collisions(&mut self)
        requires
            old(self).wf(),
        ensures
            final(self).wf(),
            final(self).health == old(self).health,
            final(self).next_id == old(self).next_id,
            final(self).game_data.game_over == old(self).game_data.game_over,
            final(self).game_data.bee_base_speed == old(self).game_data.bee_base_speed,
            final(self).game_data.egg_spawn_time == old(self).game_data.egg_spawn_time,
            old(self).game_data.game_started ==> final(self).game_data.game_started,
            final(self).game_data.eggs_spawned >= old(self).game_data.eggs_spawned,
            final(self).spawns@.len() >= old(self).spawns@.len(),
            forall|m: int| 0 <= m < old(self).spawns@.len()
                ==> #[trigger] final(self).spawns@[m] == old(self).spawns@[m],
            final(self).agents@.len() == old(self).agents@.len(),
            forall|k: int| 0 <= k < old(self).agents@.len() ==> {
                let a = old(self).agents@[k];
                let b = #[trigger] final(self).agents@[k];
                &&& b.id == a.id
                &&& b.faction == a.faction
                &&& b.pos == a.pos
                &&& b.speed == a.speed
                &&& (b.state == a.state || (a.state is Routed && b.state is Idle))
            },
            !spec_egg_capture_possible(*old(self)) ==> *final(self) == *old(self),
            !old(self).game_data.game_over ==> forall|k: int, c: TilePos|
                #![trigger spec_wants_egg(*old(self), k, c)]
                spec_wants_egg(*old(self), k, c) ==> !(final(self).spec_tile_at(
                    c.x as int,
                    c.y as int,
                ) is Egg) && exists|m: int, k2: int|
                    #![trigger final(self).spawns@[m], old(self).agents@[k2]]
                    {
                        &&& 0 <= m < final(self).spawns@.len()
                        &&& final(self).spawns@[m].pos == Some(
                            crate::path::spec_tilepos_to_px(c),
                        )
                        &&& spec_wants_egg(*old(self), k2, c)
                        &&& final(self).spawns@[m].faction == old(self).agents@[k2].faction
                    },
            forall|c: TilePos|
                #![trigger c.x, c.y]
                c.x < MAP_COLS && c.y < MAP_ROWS && old(self).spec_tile_at(
                    c.x as int,
                    c.y as int,
                ) is Egg && (forall|k: int| !(#[trigger] spec_wants_egg(*old(self), k, c)))
                    ==> final(self).spec_tile_at(c.x as int, c.y as int) == old(
                    self,
                ).spec_tile_at(c.x as int, c.y as int),
            forall|c: TilePos|
                #![trigger c.x, c.y]
                c.x < MAP_COLS && c.y < MAP_ROWS && final(self).spec_tile_at(
                    c.x as int,
                    c.y as int,
                ) != old(self).spec_tile_at(c.x as int, c.y as int) ==> {
                ||| (old(self).spec_tile_at(c.x as int, c.y as int) is Egg
                    && (final(self).spec_tile_at(c.x as int, c.y as int) is Air
                    || final(self).spec_tile_at(c.x as int, c.y as int) == (Tile::Stalk {
                        style: 2,
                    })))
                ||| (old(self).spec_tile_at(c.x as int, c.y as int) == (Tile::Stalk {
                    style: 0,
                }) && (final(self).spec_tile_at(c.x as int, c.y as int) == (Tile::Stalk {
                    style: 1,
                }) || final(self).spec_tile_at(c.x as int, c.y as int) == (Tile::Stalk {
                    style: 2,
                })))
            },
    {
        if self.game_data.game_over {
            return;
        }
        let ghost snap = *self;
        let n = self.agents.len();
        let cols = MAP_COLS as usize;
        let rows = MAP_ROWS as usize;
        assert(cols == 23 && rows == 15);
        let mut k: usize = 0;
        let mut any_captured: bool = false;
        while k < n
            invariant
                n == snap.agents@.len(),
                k <= n,
                cols == 23,
                rows == 15,
                snap.wf(),
                self.wf(),
                self.health == snap.health,
                self.next_id == snap.next_id,
                self.game_data.game_over == snap.game_data.game_over,
                self.game_data.bee_base_speed == snap.game_data.bee_base_speed,
                self.game_data.egg_spawn_time == snap.game_data.egg_spawn_time,
                snap.game_data.game_started ==> self.game_data.game_started,
                self.game_data.eggs_spawned >= snap.game_data.eggs_spawned,
                self.spawns@.len() >= snap.spawns@.len(),
                forall|m: int| 0 <= m < snap.spawns@.len()
                    ==> #[trigger] self.spawns@[m] == snap.spawns@[m],
                self.agents@.len() == n,
                forall|k2: int| 0 <= k2 < n ==> {
                    let a = snap.agents@[k2];
                    let b = #[trigger] self.agents@[k2];
                    &&& b.id == a.id
                    &&& b.faction == a.faction
                    &&& b.pos == a.pos
                    &&& b.speed == a.speed
                    &&& (b.state == a.state || (a.state is Routed && b.state is Idle))
                },
                !any_captured ==> *self == snap,
                any_captured ==> spec_egg_capture_possible(snap),
                forall|c: TilePos|
                    #![trigger c.x, c.y]
                    c.x < MAP_COLS && c.y < MAP_ROWS && self.spec_tile_at(c.x as int, c.y as int)
                        is Egg ==> self.spec_tile_at(c.x as int, c.y as int) == snap.spec_tile_at(
                        c.x as int,
                        c.y as int,
                    ),
                forall|c: TilePos|
                    #![trigger c.x, c.y]
                    c.x < MAP_COLS && c.y < MAP_ROWS && snap.spec_tile_at(c.x as int, c.y as int)
                        is Egg && !(self.spec_tile_at(c.x as int, c.y as int) is Egg)
                        ==> exists|m: int, k2: int|
                        #![trigger self.spawns@[m], snap.agents@[k2]]
                        {
                            &&& 0 <= m < self.spawns@.len()
                            &&& self.spawns@[m].pos == Some(crate::path::spec_tilepos_to_px(c))
                            &&& spec_wants_egg(snap, k2, c)
                            &&& self.spawns@[m].faction == snap.agents@[k2].faction
                        },
                forall|c: TilePos|
                    #![trigger c.x, c.y]
                    c.x < MAP_COLS && c.y < MAP_ROWS && snap.spec_tile_at(c.x as int, c.y as int)
                        is Egg && (forall|k2: int| !(#[trigger] spec_wants_egg(snap, k2, c)))
                        ==> self.spec_tile_at(c.x as int, c.y as int) == snap.spec_tile_at(
                        c.x as int,
                        c.y as int,
                    ),
                forall|c: TilePos|
                    #![trigger c.x, c.y]
                    c.x < MAP_COLS && c.y < MAP_ROWS && self.spec_tile_at(c.x as int, c.y as int)
                        != snap.spec_tile_at(c.x as int, c.y as int) ==> {
                    ||| (snap.spec_tile_at(c.x as int, c.y as int) is Egg
                        && (self.spec_tile_at(c.x as int, c.y as int) is Air
                        || self.spec_tile_at(c.x as int, c.y as int) == (Tile::Stalk { style: 2 })))
                    ||| (snap.spec_tile_at(c.x as int, c.y as int) == (Tile::Stalk { style: 0 })
                        && (self.spec_tile_at(c.x as int, c.y as int) == (Tile::Stalk { style: 1 })
                        || self.spec_tile_at(c.x as int, c.y as int) == (Tile::Stalk { style: 2 })))
                },
                forall|k2: int, c: TilePos|
                    #![trigger spec_wants_egg(snap, k2, c)]
                    spec_wants_egg(snap, k2, c) && (k2 < k)
                        ==> !(self.spec_tile_at(c.x as int, c.y as int) is Egg),
            decreases n - k,
        {
            let faction = self.agents[k].faction;
            let bee_pos = self.agents[k].pos;
            proof {
                assert(spec_agent_wf(self.agents@[k as int]));
            }
            let mut y: usize = 0;
            while y < rows
                invariant
                    n == snap.agents@.len(),
                    k < n,
                    y <= rows,
                    cols == 23,
                    rows == 15,
                    snap.wf(),
                    self.wf(),
                    faction == self.agents@[k as int].faction,
                    bee_pos == self.agents@[k as int].pos,
                    -2_000_000 <= bee_pos.x <= 2_000_000,
                    -2_000_000 <= bee_pos.y <= 2_000_000,
                    self.health == snap.health,
                    self.next_id == snap.next_id,
                    self.game_data.game_over == snap.game_data.game_over,
                    self.game_data.bee_base_speed == snap.game_data.bee_base_speed,
                    self.game_data.egg_spawn_time == snap.game_data.egg_spawn_time,
                    snap.game_data.game_started ==> self.game_data.game_started,
                    self.game_data.eggs_spawned >= snap.game_data.eggs_spawned,
                    self.spawns@.len() >= snap.spawns@.len(),
                    forall|m: int| 0 <= m < snap.spawns@.len()
                        ==> #[trigger] self.spawns@[m] == snap.spawns@[m],
                    self.agents@.len() == n,
                    forall|k2: int| 0 <= k2 < n ==> {
                        let a = snap.agents@[k2];
                        let b = #[trigger] self.agents@[k2];
                        &&& b.id == a.id
                        &&& b.faction == a.faction
                        &&& b.pos == a.pos
                        &&& b.speed == a.speed
                        &&& (b.state == a.state || (a.state is Routed && b.state is Idle))
                    },
                    !any_captured ==> *self == snap,
                    any_captured ==> spec_egg_capture_possible(snap),
                    forall|c: TilePos|
                        #![trigger c.x, c.y]
                        c.x < MAP_COLS && c.y < MAP_ROWS && self.spec_tile_at(c.x as int, c.y as int)
                            is Egg ==> self.spec_tile_at(c.x as int, c.y as int) == snap.spec_tile_at(
                            c.x as int,
                            c.y as int,
                        ),
                    forall|c: TilePos|
                        #![trigger c.x, c.y]
                        c.x < MAP_COLS && c.y < MAP_ROWS && snap.spec_tile_at(c.x as int, c.y as int)
                            is Egg && !(self.spec_tile_at(c.x as int, c.y as int) is Egg)
                            ==> exists|m: int, k2: int|
                            #![trigger self.spawns@[m], snap.agents@[k2]]
                            {
                                &&& 0 <= m < self.spawns@.len()
                                &&& self.spawns@[m].pos == Some(crate::path::spec_tilepos_to_px(c))
                                &&& spec_wants_egg(snap, k2, c)
                                &&& self.spawns@[m].faction == snap.agents@[k2].faction
                            },
                    forall|c: TilePos|
                        #![trigger c.x, c.y]
                        c.x < MAP_COLS && c.y < MAP_ROWS && snap.spec_tile_at(c.x as int, c.y as int)
                            is Egg && (forall|k2: int| !(#[trigger] spec_wants_egg(snap, k2, c)))
                            ==> self.spec_tile_at(c.x as int, c.y as int) == snap.spec_tile_at(
                            c.x as int,
                            c.y as int,
                        ),
                    forall|c: TilePos|
                        #![trigger c.x, c.y]
                        c.x < MAP_COLS && c.y < MAP_ROWS && self.spec_tile_at(c.x as int, c.y as int)
                            != snap.spec_tile_at(c.x as int, c.y as int) ==> {
                        ||| (snap.spec_tile_at(c.x as int, c.y as int) is Egg
                            && (self.spec_tile_at(c.x as int, c.y as int) is Air
                            || self.spec_tile_at(c.x as int, c.y as int) == (Tile::Stalk { style: 2 })))
                        ||| (snap.spec_tile_at(c.x as int, c.y as int) == (Tile::Stalk { style: 0 })
                            && (self.spec_tile_at(c.x as int, c.y as int) == (Tile::Stalk { style: 1 })
                            || self.spec_tile_at(c.x as int, c.y as int) == (Tile::Stalk { style: 2 })))
                    },
                    forall|k2: int, c: TilePos|
                        #![trigger spec_wants_egg(snap, k2, c)]
                        spec_wants_egg(snap, k2, c) && (k2 < k || (k2 == k && c.y < y))
                            ==> !(self.spec_tile_at(c.x as int, c.y as int) is Egg),
                decreases rows - y,
            {
                let mut x: usize = 0;
                while x < cols
                    invariant
                        n == snap.agents@.len(),
                        k < n,
                        y < rows,
                        x <= cols,
                        cols == 23,
                        rows == 15,
                        snap.wf(),
                        self.wf(),
                        faction == self.agents@[k as int].faction,
                        bee_pos == self.agents@[k as int].pos,
                        -2_000_000 <= bee_pos.x <= 2_000_000,
                        -2_000_000 <= bee_pos.y <= 2_000_000,
                        self.health == snap.health,
                        self.next_id == snap.next_id,
                        self.game_data.game_over == snap.game_data.game_over,
                        self.game_data.bee_base_speed == snap.game_data.bee_base_speed,
                        self.game_data.egg_spawn_time == snap.game_data.egg_spawn_time,
                        snap.game_data.game_started ==> self.game_data.game_started,
                        self.game_data.eggs_spawned >= snap.game_data.eggs_spawned,
                        self.spawns@.len() >= snap.spawns@.len(),
                        forall|m: int| 0 <= m < snap.spawns@.len()
                            ==> #[trigger] self.spawns@[m] == snap.spawns@[m],
                        self.agents@.len() == n,
                        forall|k2: int| 0 <= k2 < n ==> {
                            let a = snap.agents@[k2];
                            let b = #[trigger] self.agents@[k2];
                            &&& b.id == a.id
                            &&& b.faction == a.faction
                            &&& b.pos == a.pos
                            &&& b.speed == a.speed
                            &&& (b.state == a.state || (a.state is Routed && b.state is Idle))
                        },
                        !any_captured ==> *self == snap,
                        any_captured ==> spec_egg_capture_possible(snap),
                        forall|c: TilePos|
                            #![trigger c.x, c.y]
                            c.x < MAP_COLS && c.y < MAP_ROWS && self.spec_tile_at(c.x as int, c.y as int)
                                is Egg ==> self.spec_tile_at(c.x as int, c.y as int) == snap.spec_tile_at(
                                c.x as int,
                                c.y as int,
                            ),
                        forall|c: TilePos|
                            #![trigger c.x, c.y]
                            c.x < MAP_COLS && c.y < MAP_ROWS && snap.spec_tile_at(c.x as int, c.y as int)
                                is Egg && !(self.spec_tile_at(c.x as int, c.y as int) is Egg)
                                ==> exists|m: int, k2: int|
                                #![trigger self.spawns@[m], snap.agents@[k2]]
                                {
                                    &&& 0 <= m < self.spawns@.len()
                                    &&& self.spawns@[m].pos == Some(crate::path::spec_tilepos_to_px(c))
                                    &&& spec_wants_egg(snap, k2, c)
                                    &&& self.spawns@[m].faction == snap.agents@[k2].faction
                                },
                        forall|c: TilePos|
                            #![trigger c.x, c.y]
                            c.x < MAP_COLS && c.y < MAP_ROWS && snap.spec_tile_at(c.x as int, c.y as int)
                                is Egg && (forall|k2: int| !(#[trigger] spec_wants_egg(snap, k2, c)))
                                ==> self.spec_tile_at(c.x as int, c.y as int) == snap.spec_tile_at(
                                c.x as int,
                                c.y as int,
                            ),
                        forall|c: TilePos|
                            #![trigger c.x, c.y]
                            c.x < MAP_COLS && c.y < MAP_ROWS && self.spec_tile_at(c.x as int, c.y as int)
                                != snap.spec_tile_at(c.x as int, c.y as int) ==> {
                            ||| (snap.spec_tile_at(c.x as int, c.y as int) is Egg
                                && (self.spec_tile_at(c.x as int, c.y as int) is Air
                                || self.spec_tile_at(c.x as int, c.y as int) == (Tile::Stalk { style: 2 })))
                            ||| (snap.spec_tile_at(c.x as int, c.y as int) == (Tile::Stalk { style: 0 })
                                && (self.spec_tile_at(c.x as int, c.y as int) == (Tile::Stalk { style: 1 })
                                || self.spec_tile_at(c.x as int, c.y as int) == (Tile::Stalk { style: 2 })))
                        },
                        forall|k2: int, c: TilePos|
                            #![trigger spec_wants_egg(snap, k2, c)]
                            spec_wants_egg(snap, k2, c) && (k2 < k || (k2 == k && (c.y < y || (c.y == y && c.x < x))))
                                ==> !(self.spec_tile_at(c.x as int, c.y as int) is Egg),
                    decreases cols - x,
                {
                    let c = TilePos { x: x as u32, y: y as u32 };
                    let t = self.tile_at(c);
                    let style_opt: Option<u8> = match t {
                        Tile::Egg { style } => Some(style),
                        _ => None,
                    };
                    if let Some(style) = style_opt {
                        let egg_faction = crate::terrain::egg_faction(style);
                        let compatible = crate::terrain::match_faction(faction, egg_faction);
                        let egg_px = tilepos_to_px(&c);
                        let near = crate::combat::close(
                            bee_pos,
                            egg_px,
                            crate::settings::EGG_RADIUS,
                        );
                        if compatible && near {
                            proof {
                                if !any_captured {
                                    assert(*self == snap);
                                    assert(spec_egg_capture_possible(snap)) by {
                                        assert(snap.spec_tile_at(c.x as int, c.y as int)
                                            == t);
                                    }
                                }
                            }
                            let ghost pre = *self;
                            self.capture_egg(faction, c);
                            any_captured = true;
                            proof {
                                assert forall|k2: int| 0 <= k2 < n implies {
                                    let a = snap.agents@[k2];
                                    let b = #[trigger] self.agents@[k2];
                                    &&& b.id == a.id
                                    &&& b.faction == a.faction
                                    &&& b.pos == a.pos
                                    &&& b.speed == a.speed
                                    &&& (b.state == a.state || (a.state is Routed && b.state
                                        is Idle))
                                } by {
                                    let a = snap.agents@[k2];
                                    let m = pre.agents@[k2];
                                    let b = self.agents@[k2];
                                    assert(b.id == m.id && b.faction == m.faction && b.pos
                                        == m.pos && b.speed == m.speed && (b.state == m.state
                                        || (m.state is Routed && b.state is Idle)));
                                }
                                assert(self.agents@[k as int].faction == faction);
                                assert(self.agents@[k as int].pos == bee_pos);
                                // egg bookkeeping across the capture
                                assert(!(self.spec_tile_at(c.x as int, c.y as int) is Egg));
                                assert(spec_wants_egg(snap, k as int, c)) by {
                                    assert(pre.spec_tile_at(c.x as int, c.y as int) == t);
                                    assert(pre.spec_tile_at(c.x as int, c.y as int)
                                        == snap.spec_tile_at(c.x as int, c.y as int));
                                }
                                assert forall|c2: TilePos|
                                    #![trigger c2.x, c2.y]
                                    c2.x < MAP_COLS && c2.y < MAP_ROWS && self.spec_tile_at(
                                        c2.x as int,
                                        c2.y as int,
                                    ) is Egg implies self.spec_tile_at(c2.x as int, c2.y as int)
                                    == snap.spec_tile_at(c2.x as int, c2.y as int) by {
                                    assert(self.spec_tile_at(c2.x as int, c2.y as int)
                                        == pre.spec_tile_at(c2.x as int, c2.y as int));
                                }
                                assert forall|c2: TilePos|
                                    #![trigger c2.x, c2.y]
                                    c2.x < MAP_COLS && c2.y < MAP_ROWS && snap.spec_tile_at(
                                        c2.x as int,
                                        c2.y as int,
                                    ) is Egg && !(self.spec_tile_at(c2.x as int, c2.y as int)
                                        is Egg) implies exists|m: int, k2: int|
                                    #![trigger self.spawns@[m], snap.agents@[k2]]
                                    {
                                        &&& 0 <= m < self.spawns@.len()
                                        &&& self.spawns@[m].pos == Some(
                                            crate::path::spec_tilepos_to_px(c2),
                                        )
                                        &&& spec_wants_egg(snap, k2, c2)
                                        &&& self.spawns@[m].faction == snap.agents@[k2].faction
                                    } by {
                                    if pre.spec_tile_at(c2.x as int, c2.y as int) is Egg {
                                        // only the captured cell loses its egg
                                        if c2 == c {
                                            assert(self.spawns@[self.spawns@.len() - 1].pos
                                                == Some(crate::path::spec_tilepos_to_px(c2))
                                                && spec_wants_egg(snap, k as int, c2)
                                                && self.spawns@[self.spawns@.len() - 1].faction
                                                == snap.agents@[k as int].faction);
                                        } else {
                                            assert(self.spec_tile_at(c2.x as int, c2.y as int)
                                                == pre.spec_tile_at(c2.x as int, c2.y as int));
                                            assert(false);
                                        }
                                    } else {
                                        let (m, k2): (int, int) = choose|m: int, k2: int|
                                            #![trigger pre.spawns@[m], snap.agents@[k2]]
                                            {
                                                &&& 0 <= m < pre.spawns@.len()
                                                &&& pre.spawns@[m].pos == Some(
                                                    crate::path::spec_tilepos_to_px(c2),
                                                )
                                                &&& spec_wants_egg(snap, k2, c2)
                                                &&& pre.spawns@[m].faction
                                                    == snap.agents@[k2].faction
                                            };
                                        assert(self.spawns@[m].pos == Some(
                                            crate::path::spec_tilepos_to_px(c2),
                                        ) && self.spawns@[m].faction
                                            == snap.agents@[k2].faction);
                                    }
                                }
                                // an egg nobody may capture is untouched
                                assert forall|c2: TilePos|
                                    #![trigger c2.x, c2.y]
                                    c2.x < MAP_COLS && c2.y < MAP_ROWS && snap.spec_tile_at(
                                        c2.x as int,
                                        c2.y as int,
                                    ) is Egg && (forall|k2: int|
                                        !(#[trigger] spec_wants_egg(snap, k2, c2)))
                                    implies self.spec_tile_at(c2.x as int, c2.y as int)
                                    == snap.spec_tile_at(c2.x as int, c2.y as int) by {
                                    assert(!spec_wants_egg(snap, k as int, c2));
                                    assert(c2 != c);
                                    assert(pre.spec_tile_at(c2.x as int, c2.y as int)
                                        == snap.spec_tile_at(c2.x as int, c2.y as int));
                                    assert(self.spec_tile_at(c2.x as int, c2.y as int)
                                        == pre.spec_tile_at(c2.x as int, c2.y as int));
                                }
                                // changed tiles keep to the cascade's shapes
                                assert forall|c2: TilePos|
                                    #![trigger c2.x, c2.y]
                                    c2.x < MAP_COLS && c2.y < MAP_ROWS && self.spec_tile_at(
                                        c2.x as int,
                                        c2.y as int,
                                    ) != snap.spec_tile_at(c2.x as int, c2.y as int) implies {
                                    ||| (snap.spec_tile_at(c2.x as int, c2.y as int) is Egg
                                        && (self.spec_tile_at(c2.x as int, c2.y as int)
                                        is Air || self.spec_tile_at(c2.x as int, c2.y as int)
                                        == (Tile::Stalk { style: 2 })))
                                    ||| (snap.spec_tile_at(c2.x as int, c2.y as int)
                                        == (Tile::Stalk { style: 0 }) && (self.spec_tile_at(
                                        c2.x as int,
                                        c2.y as int,
                                    ) == (Tile::Stalk { style: 1 }) || self.spec_tile_at(
                                        c2.x as int,
                                        c2.y as int,
                                    ) == (Tile::Stalk { style: 2 })))
                                } by {
                                    if self.spec_tile_at(c2.x as int, c2.y as int)
                                        != pre.spec_tile_at(c2.x as int, c2.y as int) {
                                        // freshly changed by this capture: the cell was
                                        // still as at the start of the pass
                                        if pre.spec_tile_at(c2.x as int, c2.y as int)
                                            != snap.spec_tile_at(c2.x as int, c2.y as int) {
                                            assert(false);
                                        }
                                    }
                                }
                                assert forall|k2: int, c2: TilePos|
                                    #![trigger spec_wants_egg(snap, k2, c2)]
                                    spec_wants_egg(snap, k2, c2) && (k2 < k || (k2 == k && (
                                    c2.y < y || (c2.y == y && c2.x < x))))
                                    implies !(self.spec_tile_at(c2.x as int, c2.y as int)
                                    is Egg) by {
                                    if self.spec_tile_at(c2.x as int, c2.y as int) is Egg {
                                        assert(self.spec_tile_at(c2.x as int, c2.y as int)
                                            == pre.spec_tile_at(c2.x as int, c2.y as int));
                                    }
                                }
                            }
                        } else {
                            proof {
                                // a compatible close egg would have been taken: the
                                // pressed checks match the capture condition exactly
                                if spec_wants_egg(snap, k as int, c) {
                                    assert(self.spec_tile_at(c.x as int, c.y as int) == t);
                                    assert(self.spec_tile_at(c.x as int, c.y as int)
                                        == snap.spec_tile_at(c.x as int, c.y as int));
                                    assert(compatible);
                                    assert(near);
                                    assert(false);
                                }
                            }
                        }
                    } else {
                        proof {
                            assert(!(self.spec_tile_at(c.x as int, c.y as int) is Egg));
                        }
                    }
                    proof {
                        assert forall|k2: int, c2: TilePos|
                            #![trigger spec_wants_egg(snap, k2, c2)]
                            spec_wants_egg(snap, k2, c2) && (k2 < k || (k2 == k && (c2.y < y
                                || (c2.y == y && c2.x < x + 1))))
                            implies !(self.spec_tile_at(c2.x as int, c2.y as int) is Egg) by {
                            if k2 == k && c2.y == y && c2.x == x as int {
                                assert(c2 == c);
                            }
                        }
                    }
                    x = x + 1;
                }
                proof {
                    assert forall|k2: int, c2: TilePos|
                        #![trigger spec_wants_egg(snap, k2, c2)]
                        spec_wants_egg(snap, k2, c2) && (k2 < k || (k2 == k && c2.y < y + 1))
                        implies !(self.spec_tile_at(c2.x as int, c2.y as int) is Egg) by {
                        if k2 == k && c2.y == y as int {
                            assert(c2.x < MAP_COLS);
                        }
                    }
                }
                y = y + 1;
            }
            proof {
                assert forall|k2: int, c2: TilePos|
                    #![trigger spec_wants_egg(snap, k2, c2)]
                    spec_wants_egg(snap, k2, c2) && k2 < k + 1
                    implies !(self.spec_tile_at(c2.x as int, c2.y as int) is Egg) by {
                    if k2 == k {
                        assert(c2.y < MAP_ROWS);
                    }
                }
            }
            k = k + 1;
        }
    }
}


impl World {
    /// The plant pass: one random topsoil tile with air above it grows a
    /// stalk of random height, capped by the air above it, carrying an egg
    /// of a random faction on top; the soil below is spent. Terrain
    /// changes go through the reactor.
    pub fn spawn_plant(&mut self)
        requires
            old(self).wf(),
        ensures
            final(self).wf(),
            final(self).health == old(self).health,
            final(self).next_id == old(self).next_id,
            final(self).spawns == old(self).spawns,
            final(self).game_data == old(self).game_data,
            final(self).agents@.len() == old(self).agents@.len(),
            forall|k: int| 0 <= k < old(self).agents@.len() ==> {
                let a = old(self).agents@[k];
                let b = #[trigger] final(self).agents@[k];
                &&& b.id == a.id
                &&& b.faction == a.faction
                &&& b.pos == a.pos
                &&& b.speed == a.speed
                &&& (b.state == a.state || (a.state is Routed && b.state is Idle))
            },
            forall|c: TilePos|
                #![trigger c.x, c.y]
                c.x < MAP_COLS && c.y < MAP_ROWS && final(self).spec_tile_at(
                    c.x as int,
                    c.y as int,
                ) != old(self).spec_tile_at(c.x as int, c.y as int) ==> {
                ||| (old(self).spec_tile_at(c.x as int, c.y as int) is Dirt
                    && final(self).spec_tile_at(c.x as int, c.y as int) is Dirt)
                ||| (old(self).spec_tile_at(c.x as int, c.y as int) is Air
                    && (final(self).spec_tile_at(c.x as int, c.y as int) is Stalk
                    || final(self).spec_tile_at(c.x as int, c.y as int) is Egg))
            },
            (exists|c: TilePos|
                #![trigger c.x, c.y]
                c.x < MAP_COLS && c.y + 1 < MAP_ROWS && spec_tile_topsoil(
                    old(self).spec_tile_at(c.x as int, c.y as int),
                ) && old(self).spec_tile_at(c.x as int, c.y + 1) is Air) ==> exists|c2: TilePos|
                #![trigger c2.x, c2.y]
                c2.x < MAP_COLS && c2.y < MAP_ROWS && old(self).spec_tile_at(
                    c2.x as int,
                    c2.y as int,
                ) is Air && final(self).spec_tile_at(c2.x as int, c2.y as int) is Egg,
    {
        let ghost snap = *self;
        let cols = MAP_COLS as usize;
        let rows = MAP_ROWS as usize;
        assert(cols == 23 && rows == 15);

        // gather the soil tiles that have room for a plant above them
        let mut candidates: Vec<(TilePos, u32)> = Vec::new();
        let mut y: usize = 0;
        while y < rows
            invariant
                y <= rows,
                cols == 23,
                rows == 15,
                *self == snap,
                snap.wf(),
                candidates@.len() <= y * 23,
                forall|q: int| 0 <= q < candidates@.len() ==> {
                    let (soil, stack) = #[trigger] candidates@[q];
                    &&& soil.x < MAP_COLS
                    &&& soil.y + stack < MAP_ROWS
                    &&& 1 <= stack <= 3
                    &&& snap.spec_tile_at(soil.x as int, soil.y as int) is Dirt
                    &&& forall|t: int| 1 <= t <= stack ==> #[trigger] snap.spec_tile_at(
                        soil.x as int,
                        soil.y + t,
                    ) is Air
                },
                forall|c: TilePos|
                    #![trigger c.x, c.y]
                    c.x < MAP_COLS && c.y < y && c.y + 1 < MAP_ROWS && spec_tile_topsoil(
                        snap.spec_tile_at(c.x as int, c.y as int),
                    ) && snap.spec_tile_at(c.x as int, c.y + 1) is Air
                        ==> exists|q: int| 0 <= q < candidates@.len()
                            && (#[trigger] candidates@[q]).0 == c,
            decreases rows - y,
        {
            let mut x: usize = 0;
            while x < cols
                invariant
                    y < rows,
                    x <= cols,
                    cols == 23,
                    rows == 15,
                    *self == snap,
                    snap.wf(),
                    candidates@.len() <= y * 23 + x,
                    forall|q: int| 0 <= q < candidates@.len() ==> {
                        let (soil, stack) = #[trigger] candidates@[q];
                        &&& soil.x < MAP_COLS
                        &&& soil.y + stack < MAP_ROWS
                        &&& 1 <= stack <= 3
                        &&& snap.spec_tile_at(soil.x as int, soil.y as int) is Dirt
                        &&& forall|t: int| 1 <= t <= stack ==> #[trigger] snap.spec_tile_at(
                            soil.x as int,
                            soil.y + t,
                        ) is Air
                    },
                    forall|c: TilePos|
                        #![trigger c.x, c.y]
                        c.x < MAP_COLS && c.y < y && c.y + 1 < MAP_ROWS && spec_tile_topsoil(
                            snap.spec_tile_at(c.x as int, c.y as int),
                        ) && snap.spec_tile_at(c.x as int, c.y + 1) is Air
                            ==> exists|q: int| 0 <= q < candidates@.len()
                                && (#[trigger] candidates@[q]).0 == c,
                    forall|c: TilePos|
                        #![trigger c.x, c.y]
                        c.x < x && c.y == y && c.y + 1 < MAP_ROWS && spec_tile_topsoil(
                            snap.spec_tile_at(c.x as int, c.y as int),
                        ) && snap.spec_tile_at(c.x as int, c.y + 1) is Air
                            ==> exists|q: int| 0 <= q < candidates@.len()
                                && (#[trigger] candidates@[q]).0 == c,
                decreases cols - x,
            {
                let ghost cand0 = candidates@;
                let soil = TilePos { x: x as u32, y: y as u32 };
                let t = self.tile_at(soil);
                let topsoil = match t {
                    Tile::Dirt { topsoil, .. } => topsoil,
                    _ => false,
                };
                if topsoil {
                    let height = 1 + random_below(3);
                    let mut stack: u32 = 0;
                    loop
                        invariant
                            *self == snap,
                            snap.wf(),
                            soil.x < MAP_COLS,
                            soil.y < MAP_ROWS,
                            1 <= height <= 3,
                            stack <= height,
                            soil.y + stack < MAP_ROWS,
                            forall|t2: int| 1 <= t2 <= stack ==> #[trigger] snap.spec_tile_at(
                                soil.x as int,
                                soil.y + t2,
                            ) is Air,
                        ensures
                            stack <= height,
                            soil.y + stack < MAP_ROWS,
                            forall|t2: int| 1 <= t2 <= stack ==> #[trigger] snap.spec_tile_at(
                                soil.x as int,
                                soil.y + t2,
                            ) is Air,
                            (soil.y + 1 < MAP_ROWS && snap.spec_tile_at(
                                soil.x as int,
                                soil.y + 1,
                            ) is Air) ==> stack >= 1,
                        decreases height - stack,
                    {
                        if stack >= height {
                            break;
                        }
                        if soil.y + stack + 1 >= MAP_ROWS {
                            break;
                        }
                        let above = TilePos { x: soil.x, y: soil.y + stack + 1 };
                        let at = self.tile_at(above);
                        let is_air = match at {
                            Tile::Air => true,
                            _ => false,
                        };
                        if !is_air {
                            break;
                        }
                        stack = stack + 1;
                        proof {
                            assert(snap.spec_tile_at(soil.x as int, soil.y + stack) is Air);
                        }
                    }
                    if stack > 0 {
                        candidates.push((soil, stack));
                        proof {
                            assert(candidates@[candidates@.len() - 1] == (soil, stack));
                        }
                    }
                }
                proof {
                    assert forall|c: TilePos|
                        #![trigger c.x, c.y]
                        c.x < MAP_COLS && c.y < y && c.y + 1 < MAP_ROWS && spec_tile_topsoil(
                            snap.spec_tile_at(c.x as int, c.y as int),
                        ) && snap.spec_tile_at(c.x as int, c.y + 1) is Air
                        implies exists|q: int| 0 <= q < candidates@.len()
                        && (#[trigger] candidates@[q]).0 == c by {
                        let q = choose|q: int|
                            0 <= q < cand0.len() && (#[trigger] cand0[q]).0 == c;
                        assert(candidates@[q].0 == c);
                    }
                    assert forall|c: TilePos|
                        #![trigger c.x, c.y]
                        c.x < x + 1 && c.y == y && c.y + 1 < MAP_ROWS && spec_tile_topsoil(
                            snap.spec_tile_at(c.x as int, c.y as int),
                        ) && snap.spec_tile_at(c.x as int, c.y + 1) is Air
                        implies exists|q: int| 0 <= q < candidates@.len()
                        && (#[trigger] candidates@[q]).0 == c by {
                        if c.x == x as int {
                            assert(c == soil);
                            assert(candidates@[candidates@.len() - 1].0 == c);
                        } else {
                            let q = choose|q: int|
                                0 <= q < cand0.len() && (#[trigger] cand0[q]).0 == c;
                            assert(candidates@[q].0 == c);
                        }
                    }
                }
                x = x + 1;
            }
            proof {
                assert(candidates@.len() <= (y + 1) * 23);
                assert forall|c: TilePos|
                    #![trigger c.x, c.y]
                    c.x < MAP_COLS && c.y < y + 1 && c.y + 1 < MAP_ROWS && spec_tile_topsoil(
                        snap.spec_tile_at(c.x as int, c.y as int),
                    ) && snap.spec_tile_at(c.x as int, c.y + 1) is Air
                    implies exists|q: int| 0 <= q < candidates@.len()
                    && (#[trigger] candidates@[q]).0 == c by {}
            }
            y = y + 1;
        }
        proof {
            assert(candidates@.len() <= 345);
        }

        if candidates.len() == 0 {
            proof {
                if exists|c: TilePos|
                    #![trigger c.x, c.y]
                    c.x < MAP_COLS && c.y + 1 < MAP_ROWS && spec_tile_topsoil(
                        snap.spec_tile_at(c.x as int, c.y as int),
                    ) && snap.spec_tile_at(c.x as int, c.y + 1) is Air {
                    let c = choose|c: TilePos|
                        #![trigger c.x, c.y]
                        c.x < MAP_COLS && c.y + 1 < MAP_ROWS && spec_tile_topsoil(
                            snap.spec_tile_at(c.x as int, c.y as int),
                        ) && snap.spec_tile_at(c.x as int, c.y + 1) is Air;
                    assert(exists|q: int| 0 <= q < candidates@.len()
                        && (#[trigger] candidates@[q]).0 == c);
                    assert(false);
                }
            }
            return;
        }
        let pick = random_below(candidates.len() as u32) as usize;
        let (soil, stack) = candidates[pick];
        proof {
            assert(candidates@[pick as int] == (soil, stack));
        }
        let faction = Faction::random();
        let egg = crate::terrain::egg_style(faction);

        let ghost mid = *self;
        self.set_tile(soil, Tile::Dirt { topsoil: false, style: 5 });
        proof {
            assert forall|c: TilePos|
                #![trigger c.x, c.y]
                c.x < MAP_COLS && c.y < MAP_ROWS && self.spec_tile_at(c.x as int, c.y as int)
                    != snap.spec_tile_at(c.x as int, c.y as int) implies {
                ||| (snap.spec_tile_at(c.x as int, c.y as int) is Dirt && self.spec_tile_at(
                    c.x as int,
                    c.y as int,
                ) is Dirt)
                ||| (snap.spec_tile_at(c.x as int, c.y as int) is Air && (self.spec_tile_at(
                    c.x as int,
                    c.y as int,
                ) is Stalk || self.spec_tile_at(c.x as int, c.y as int) is Egg))
            } by {
                if c != soil {
                    assert(self.spec_tile_at(c.x as int, c.y as int) == snap.spec_tile_at(
                        c.x as int,
                        c.y as int,
                    ));
                }
            }
        }
        let mut t: u32 = 1;
        while t <= stack
            invariant
                1 <= t <= stack + 1,
                stack <= 3,
                soil.x < MAP_COLS,
                soil.y + stack < MAP_ROWS,
                self.wf(),
                snap.wf(),
                self.health == snap.health,
                self.next_id == snap.next_id,
                self.spawns == snap.spawns,
                self.game_data == snap.game_data,
                self.plant_timer == snap.plant_timer,
                self.agents@.len() == snap.agents@.len(),
                forall|k: int| 0 <= k < snap.agents@.len() ==> {
                    let a = snap.agents@[k];
                    let b = #[trigger] self.agents@[k];
                    &&& b.id == a.id
                    &&& b.faction == a.faction
                    &&& b.pos == a.pos
                    &&& b.speed == a.speed
                    &&& (b.state == a.state || (a.state is Routed && b.state is Idle))
                },
                forall|t2: int| 1 <= t2 <= stack ==> #[trigger] snap.spec_tile_at(
                    soil.x as int,
                    soil.y + t2,
                ) is Air,
                forall|c: TilePos|
                    #![trigger c.x, c.y]
                    c.x < MAP_COLS && c.y < MAP_ROWS && self.spec_tile_at(
                        c.x as int,
                        c.y as int,
                    ) != snap.spec_tile_at(c.x as int, c.y as int) ==> {
                    ||| (snap.spec_tile_at(c.x as int, c.y as int) is Dirt
                        && self.spec_tile_at(c.x as int, c.y as int) is Dirt)
                    ||| (snap.spec_tile_at(c.x as int, c.y as int) is Air
                        && (self.spec_tile_at(c.x as int, c.y as int) is Stalk
                        || self.spec_tile_at(c.x as int, c.y as int) is Egg))
                },
                t == stack + 1 ==> self.spec_tile_at(soil.x as int, soil.y + stack) is Egg,
            decreases stack + 1 - t,
        {
            let cell = TilePos { x: soil.x, y: soil.y + t };
            let newtile = if t == stack {
                Tile::Egg { style: egg }
            } else {
                Tile::Stalk { style: 0 }
            };
            let ghost pre = *self;
            self.set_tile(cell, newtile);
            proof {
                assert forall|c: TilePos|
                    #![trigger c.x, c.y]
                    c.x < MAP_COLS && c.y < MAP_ROWS && self.spec_tile_at(
                        c.x as int,
                        c.y as int,
                    ) != snap.spec_tile_at(c.x as int, c.y as int) implies {
                    ||| (snap.spec_tile_at(c.x as int, c.y as int) is Dirt
                        && self.spec_tile_at(c.x as int, c.y as int) is Dirt)
                    ||| (snap.spec_tile_at(c.x as int, c.y as int) is Air
                        && (self.spec_tile_at(c.x as int, c.y as int) is Stalk
                        || self.spec_tile_at(c.x as int, c.y as int) is Egg))
                } by {
                    if c == cell {
                        assert(snap.spec_tile_at(c.x as int, c.y as int) is Air);
                    } else {
                        assert(self.spec_tile_at(c.x as int, c.y as int) == pre.spec_tile_at(
                            c.x as int,
                            c.y as int,
                        ));
                    }
                }
            }
            t = t + 1;
        }
        proof {
            let top = TilePos { x: soil.x, y: (soil.y + stack) as u32 };
            assert(snap.spec_tile_at(top.x as int, top.y as int) is Air);
            assert(self.spec_tile_at(top.x as int, top.y as int) is Egg);
        }
    }

    /// The movement phases of one tick: wake timers, route following,
    /// the stuck check, and digging.
    fn tick_motion(&mut self, now_ms: u64, dt_ms: u64)
        requires
            old(self).wf(),
        ensures
            final(self).wf(),
            final(self).game_data.game_over == old(self).game_data.game_over,
    {
        self.do_nothing_for_a_bit(now_ms);
        self.follow_path(dt_ms);
        self.check_if_stuck_in_tile(now_ms);
        self.smash_dirt_when_stuck(now_ms);
    }

    /// The fight phases of one tick: the proximity scan, then the timed
    /// resolution. Afterwards every surviving fight is younger than the
    /// fight duration.
    fn tick_fights(&mut self, now_ms: u64)
        requires
            old(self).wf(),
        ensures
            final(self).wf(),
            final(self).game_data == old(self).game_data,
            forall|k: int| 0 <= k < final(self).agents@.len()
                && ((#[trigger] final(self).agents@[k]).state) is Fighting
                ==> now_ms < spec_fight_since(final(self).agents@[k].state)
                    + crate::settings::FIGHT_DURATION_MS,
    {
        self.fight_collisions(now_ms);
        let ghost w1 = *self;
        self.bee_fight(now_ms);
        proof {
            assert forall|k: int|
                0 <= k < self.agents@.len() && ((#[trigger] self.agents@[k]).state)
                    is Fighting implies now_ms < spec_fight_since(self.agents@[k].state)
                + crate::settings::FIGHT_DURATION_MS by {
                assert(self.agents@[k] == crate::combat::spec_resolve_agent(
                    w1.agents@,
                    k,
                    now_ms,
                ));
            }
        }
    }

    /// The combat phases of one tick: proximity, resolution, despawn.
    /// Afterwards no dead agent remains in the table and every surviving
    /// fight is younger than the fight duration.
    fn tick_combat(&mut self, now_ms: u64)
        requires
            old(self).wf(),
        ensures
            final(self).wf(),
            final(self).game_data.game_over ==> old(self).game_data.game_over
                || old(self).game_data.game_started,
            old(self).game_data.game_over ==> final(self).game_data.game_over,
            forall|k: int| 0 <= k < final(self).agents@.len()
                ==> !((#[trigger] final(self).agents@[k]).state is Dead),
            forall|k: int| 0 <= k < final(self).agents@.len()
                && ((#[trigger] final(self).agents@[k]).state) is Fighting
                ==> now_ms < spec_fight_since(final(self).agents@[k].state)
                    + crate::settings::FIGHT_DURATION_MS,
    {
        self.tick_fights(now_ms);
        let ghost w2 = *self;
        self.bee_dead();
        proof {
            assert forall|k: int|
                0 <= k < self.agents@.len() && ((#[trigger] self.agents@[k].state))
                    is Fighting implies now_ms < spec_fight_since(self.agents@[k].state)
                + crate::settings::FIGHT_DURATION_MS by {
                let m = choose|m: int|
                    {
                        &&& 0 <= m < w2.agents@.len()
                        &&& (#[trigger] self.agents@[k]).id == w2.agents@[m].id
                        &&& !(w2.agents@[m].state is Dead)
                        &&& self.agents@[k].faction == w2.agents@[m].faction
                        &&& self.agents@[k].pos == w2.agents@[m].pos
                        &&& self.agents@[k].speed == w2.agents@[m].speed
                        &&& (self.agents@[k].state == w2.agents@[m].state || (w2.agents@[m].state
                            is Routed && self.agents@[k].state is Idle))
                    };
                assert(self.agents@[k].state == w2.agents@[m].state);
            }
        }
    }

    /// The lifecycle phases of one tick: captures and births. Neither
    /// kills an agent nor starts or prolongs a fight.
    fn tick_lifecycle(&mut self, now_ms: u64)
        requires
            old(self).wf(),
            now_ms <= u64::MAX - INACTIVE_MS,
        ensures
            final(self).wf(),
            final(self).game_data.game_over == old(self).game_data.game_over,
            forall|k: int| 0 <= k < final(self).agents@.len()
                && ((#[trigger] final(self).agents@[k]).state) is Dead
                ==> k < old(self).agents@.len() && old(self).agents@[k].state is Dead,
            forall|k: int| 0 <= k < final(self).agents@.len()
                && ((#[trigger] final(self).agents@[k]).state) is Fighting
                ==> k < old(self).agents@.len() && old(self).agents@[k].state is Fighting
                    && spec_fight_since(final(self).agents@[k].state) == spec_fight_since(
                    old(self).agents@[k].state,
                ),
    {
        self.egg_collisions();
        let ghost w1 = *self;
        self.birth_a_bee(now_ms);
        proof {
            assert forall|k: int|
                0 <= k < self.agents@.len() && (((#[trigger] self.agents@[k]).state) is Dead
                    || (self.agents@[k].state) is Fighting) implies k < w1.agents@.len()
                && self.agents@[k] == w1.agents@[k] by {}
        }
    }

    /// The egg spawner: after the current delay has elapsed, a plant with
    /// a fresh egg grows somewhere and the delay shrinks toward its floor.
    fn tick_spawner(&mut self, dt_ms: u64)
        requires
            old(self).wf(),
        ensures
            final(self).wf(),
            final(self).game_data.game_over == old(self).game_data.game_over,
            final(self).agents@.len() == old(self).agents@.len(),
            forall|k: int| 0 <= k < final(self).agents@.len() ==> {
                let a = old(self).agents@[k];
                let b = #[trigger] final(self).agents@[k];
                b.state == a.state || (a.state is Routed && b.state is Idle)
            },
    {
        if !self.game_data.game_over {
            if self.plant_timer >= u64::MAX - dt_ms {
                self.plant_timer = u64::MAX;
            } else {
                self.plant_timer = self.plant_timer + dt_ms;
            }
            if self.plant_timer >= self.game_data.egg_spawn_time {
                self.plant_timer = 0;
                let shortened = if self.game_data.egg_spawn_time
                    >= crate::settings::EGG_SPAWN_TIME_END_MS
                        + crate::settings::EGG_SPAWN_SPEEDUP_MS {
                    self.game_data.egg_spawn_time - crate::settings::EGG_SPAWN_SPEEDUP_MS
                } else {
                    crate::settings::EGG_SPAWN_TIME_END_MS
                };
                self.game_data.egg_spawn_time = shortened;
                self.spawn_plant();
            }
        }
    }

    /// One simulation tick, in the fixed phase order: terrain edits have
    /// already been applied through `set_tile` (which updates the grids
    /// and invalidates crossing routes), then agents move and dig, then
    /// proximity starts fights and due fights resolve and the dead
    /// despawn, then captures and births happen, and finally idle agents
    /// get new routes, so replanning always sees fresh terrain.
    pub fn tick(&mut self, now_ms: u64, dt_ms: u64)
        requires
            old(self).wf(),
            now_ms <= u64::MAX - INACTIVE_MS,
        ensures
            final(self).wf(),
            old(self).game_data.game_over ==> final(self).game_data.game_over,
            forall|k: int| 0 <= k < final(self).agents@.len()
                ==> !((#[trigger] final(self).agents@[k]).state is Dead),
            forall|k: int| 0 <= k < final(self).agents@.len()
                && ((#[trigger] final(self).agents@[k]).state) is Fighting
                ==> now_ms < spec_fight_since(final(self).agents@[k].state)
                    + crate::settings::FIGHT_DURATION_MS,
    {
        self.tick_motion(now_ms, dt_ms);
        self.tick_combat(now_ms);
        let ghost wc = *self;
        self.tick_lifecycle(now_ms);
        let ghost wl = *self;
        self.find_targets();
        let ghost wt = *self;
        proof {
            assert forall|k: int|
                0 <= k < self.agents@.len() && (((#[trigger] self.agents@[k]).state) is Dead
                    || (self.agents@[k].state) is Fighting) implies self.agents@[k]
                == wl.agents@[k] by {
                if wl.agents@[k].state is Idle {
                    assert(self.agents@[k].state is Idle || self.agents@[k].state is Routed);
                }
            }
        }
        self.tick_spawner(dt_ms);
        proof {
            assert forall|k: int| 0 <= k < self.agents@.len()
                implies !((#[trigger] self.agents@[k]).state is Dead) && ((
            self.agents@[k].state) is Fighting ==> now_ms < spec_fight_since(
                self.agents@[k].state,
            ) + crate::settings::FIGHT_DURATION_MS) by {
                assert(self.agents@[k].state == wt.agents@[k].state || (wt.agents@[k].state
                    is Routed && self.agents@[k].state is Idle));
                if self.agents@[k].state is Dead || self.agents@[k].state is Fighting {
                    assert(self.agents@[k].state == wt.agents@[k].state);
                    assert(wt.agents@[k].state == wl.agents@[k].state || (wl.agents@[k].state
                        is Idle));
                }
            }
        }
    }
}

} // verus!
