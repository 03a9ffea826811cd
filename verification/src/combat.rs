//! The combat model: a pairwise proximity scan that puts colliding
//! opposite-faction agents into a timed fight, the resolution that after a
//! fixed duration kills the non-initiator and frees the initiator, and the
//! despawn pass that removes dead agents, leaves a marker tile where they
//! fell, and raises the game-over condition when a faction dies out.

use vstd::prelude::*;
use crate::game::spec_agent_cell;
use crate::grid::TilePos;
use crate::path::{px_to_tilepos, WorldPos};
use crate::settings::{FIGHT_DURATION_MS, FIGHT_RADIUS, GAP_LEFT, MAP_COLS, MAP_ROWS};
use crate::terrain::{Faction, Tile};
use crate::world::{
    spec_agent_wf, spec_fight_initiator, spec_fight_opponent, spec_fight_partners,
    spec_fight_since, spec_fights_wf, spec_ids_unique, Agent, AgentState, World,
};

verus! {

/// An agent takes part in proximity tests while it is neither freshly
/// spawned, nor already fighting, nor dead.
pub open spec fn spec_combat_ready(s: AgentState) -> bool {
    s is Idle || s is Routed || s is Stuck
}

fn combat_ready(s: &AgentState) -> (r: bool)
    ensures
        r == spec_combat_ready(*s),
{
    match s {
        AgentState::Idle => true,
        AgentState::Routed { .. } => true,
        AgentState::Stuck { .. } => true,
        _ => false,
    }
}

/// Two world points lie strictly closer than `radius` to each other.
pub open spec fn spec_close(a: WorldPos, b: WorldPos, radius: int) -> bool {
    (a.x - b.x) * (a.x - b.x) + (a.y - b.y) * (a.y - b.y) < radius * radius
}

/// Euclidean proximity test, compared on squared distances.
pub fn close(a: WorldPos, b: WorldPos, radius: i64) -> (r: bool)
    requires
        -2_000_000 <= a.x <= 2_000_000,
        -2_000_000 <= a.y <= 2_000_000,
        -2_000_000 <= b.x <= 2_000_000,
        -2_000_000 <= b.y <= 2_000_000,
        0 <= radius <= 1_000_000,
    ensures
        r == spec_close(a, b, radius as int),
{
    let dx = a.x - b.x;
    let dy = a.y - b.y;
    proof {
        assert(dx * dx <= 16_000_000_000_000 && dx * dx >= 0 && dy * dy <= 16_000_000_000_000
            && dy * dy >= 0 && radius * radius <= 1_000_000_000_000) by (nonlinear_arith)
            requires
                -4_000_000 <= dx <= 4_000_000,
                -4_000_000 <= dy <= 4_000_000,
                0 <= radius <= 1_000_000,
        {}
    }
    dx * dx + dy * dy < radius * radius
}

/// Proximity is symmetric.
pub proof fn lemma_close_symmetric(a: WorldPos, b: WorldPos, radius: int)
    ensures
        spec_close(a, b, radius) == spec_close(b, a, radius),
{
    assert((a.x - b.x) * (a.x - b.x) == (b.x - a.x) * (b.x - a.x)) by (nonlinear_arith) {}
    assert((a.y - b.y) * (a.y - b.y) == (b.y - a.y) * (b.y - a.y)) by (nonlinear_arith) {}
}

/// A fresh fight has a cause: the newly fighting agent's partner in the
/// table was itself combat-ready before the pass, of the opposing faction,
/// and within the fight radius.
pub open spec fn spec_fight_origin(
    agents: Seq<Agent>,
    agents0: Seq<Agent>,
    k: int,
    now_ms: u64,
) -> bool {
    exists|m: int|
        {
            &&& #[trigger] spec_fight_partners(agents, k, m)
            &&& spec_combat_ready(agents0[m].state)
            &&& agents0[m].faction != agents0[k].faction
            &&& spec_close(agents0[k].pos, agents0[m].pos, FIGHT_RADIUS as int)
        }
}

/// What fight resolution does to one agent once its fight has lasted the
/// full duration: the initiator returns to idle, the other side dies.
pub open spec fn spec_resolve_agent(agents: Seq<Agent>, k: int, now_ms: u64) -> Agent {
    let a = agents[k];
    if a.state is Fighting && now_ms >= spec_fight_since(a.state) + FIGHT_DURATION_MS {
        if spec_fight_initiator(a.state) {
            Agent { id: a.id, faction: a.faction, pos: a.pos, speed: a.speed, state: AgentState::Idle }
        } else {
            Agent { id: a.id, faction: a.faction, pos: a.pos, speed: a.speed, state: AgentState::Dead }
        }
    } else {
        a
    }
}

/// The marker style a fallen agent's faction leaves behind.
pub open spec fn spec_poo_style(f: Faction) -> u8 {
    if f == Faction::Blue {
        1
    } else {
        0
    }
}

/// A collected marker entry comes from some dead agent: its cell and its
/// style byte.
pub open spec fn spec_poo_entry_ok(agents: Seq<Agent>, e: (TilePos, u8)) -> bool {
    exists|m2: int|
        0 <= m2 < agents.len() && ((#[trigger] agents[m2]).state) is Dead && spec_agent_cell(
            agents[m2].pos,
        ) == e.0 && e.1 == spec_poo_style(agents[m2].faction)
}

/// The cell `c` holds the marker of one of the collected entries at `c`.
pub open spec fn spec_marked(w: World, poos: Seq<(TilePos, u8)>, c: TilePos) -> bool {
    exists|q2: int|
        0 <= q2 < poos.len() && (#[trigger] poos[q2]).0 == c && w.spec_tile_at(
            c.x as int,
            c.y as int,
        ) == (Tile::Poo { style: poos[q2].1 })
}

/// The world `w1` carries the death marker of the dead agent at position
/// `m` of the earlier table `agents`: its cell holds a marker tile in the
/// style of one of the agents that fell there.
pub open spec fn spec_death_marked(agents: Seq<Agent>, w1: World, m: int) -> bool {
    exists|m2: int|
        {
            &&& 0 <= m2 < agents.len()
            &&& ((#[trigger] agents[m2]).state) is Dead
            &&& spec_agent_cell(agents[m2].pos) == spec_agent_cell(agents[m].pos)
            &&& w1.spec_tile_at(
                spec_agent_cell(agents[m].pos).x as int,
                spec_agent_cell(agents[m].pos).y as int,
            ) == (Tile::Poo { style: spec_poo_style(agents[m2].faction) })
        }
}

/// Once every collected marker entry is written, every dead agent's cell
/// carries a death marker.
proof fn lemma_markers_settle(agents0: Seq<Agent>, w: World, poos: Seq<(TilePos, u8)>)
    requires
        forall|q: int| 0 <= q < poos.len()
            ==> (#[trigger] poos[q]).0.x < MAP_COLS && poos[q].0.y < MAP_ROWS,
        forall|q: int| 0 <= q < poos.len() ==> spec_poo_entry_ok(agents0, #[trigger] poos[q]),
        forall|q: int| 0 <= q < poos.len() ==> spec_marked(w, poos, (#[trigger] poos[q]).0),
        forall|m: int|
            0 <= m < agents0.len() && ((#[trigger] agents0[m]).state) is Dead
                && spec_agent_cell(agents0[m].pos).x < MAP_COLS && spec_agent_cell(
                agents0[m].pos,
            ).y < MAP_ROWS ==> exists|q: int| 0 <= q < poos.len() && (#[trigger] poos[q]).0
                == spec_agent_cell(agents0[m].pos),
    ensures
        forall|m: int|
            0 <= m < agents0.len() && ((#[trigger] agents0[m]).state) is Dead
                && spec_agent_cell(agents0[m].pos).x < MAP_COLS && spec_agent_cell(
                agents0[m].pos,
            ).y < MAP_ROWS ==> spec_death_marked(agents0, w, m),
{
    assert forall|m: int|
        0 <= m < agents0.len() && ((#[trigger] agents0[m]).state) is Dead && spec_agent_cell(
            agents0[m].pos,
        ).x < MAP_COLS && spec_agent_cell(agents0[m].pos).y < MAP_ROWS
        implies spec_death_marked(agents0, w, m) by {
        let q = choose|q: int|
            0 <= q < poos.len() && (#[trigger] poos[q]).0 == spec_agent_cell(agents0[m].pos);
        assert(spec_marked(w, poos, poos[q].0));
        let q2 = choose|q2: int|
            0 <= q2 < poos.len() && (#[trigger] poos[q2]).0 == poos[q].0 && w.spec_tile_at(
                poos[q].0.x as int,
                poos[q].0.y as int,
            ) == (Tile::Poo { style: poos[q2].1 });
        assert(spec_poo_entry_ok(agents0, poos[q2]));
        let m2 = choose|m2: int|
            0 <= m2 < agents0.len() && ((#[trigger] agents0[m2]).state) is Dead
                && spec_agent_cell(agents0[m2].pos) == poos[q2].0 && poos[q2].1
                == spec_poo_style(agents0[m2].faction);
        assert(spec_agent_cell(agents0[m2].pos) == spec_agent_cell(agents0[m].pos));
    }
}

/// After the dead are removed and later passes only touch states, every
/// survivor still corresponds to a living agent of the old table and every
/// living agent of the old table is still present by id.
proof fn lemma_despawn_settles(agents0: Seq<Agent>, mid: Seq<Agent>, fin: Seq<Agent>)
    requires
        fin.len() == mid.len(),
        forall|k: int| 0 <= k < mid.len() ==> !((#[trigger] mid[k]).state is Dead),
        forall|k: int| 0 <= k < mid.len() ==> agents0.contains(#[trigger] mid[k]),
        forall|m: int| 0 <= m < agents0.len() && !((#[trigger] agents0[m]).state is Dead)
            ==> mid.contains(agents0[m]),
        forall|k: int| 0 <= k < mid.len() ==> {
            let a = mid[k];
            let b = #[trigger] fin[k];
            &&& b.id == a.id
            &&& b.faction == a.faction
            &&& b.pos == a.pos
            &&& b.speed == a.speed
            &&& (b.state == a.state || (a.state is Routed && b.state is Idle))
        },
    ensures
        forall|k: int| 0 <= k < fin.len() ==> !((#[trigger] fin[k]).state is Dead),
        forall|k: int| 0 <= k < fin.len() ==> exists|m: int|
            {
                &&& 0 <= m < agents0.len()
                &&& (#[trigger] fin[k]).id == agents0[m].id
                &&& !(agents0[m].state is Dead)
                &&& fin[k].faction == agents0[m].faction
                &&& fin[k].pos == agents0[m].pos
                &&& fin[k].speed == agents0[m].speed
                &&& (fin[k].state == agents0[m].state || (agents0[m].state is Routed
                    && fin[k].state is Idle))
            },
        forall|m: int| 0 <= m < agents0.len() && !((#[trigger] agents0[m]).state is Dead)
            ==> exists|k: int| 0 <= k < fin.len() && (#[trigger] fin[k]).id == agents0[m].id,
{
    assert forall|k: int| 0 <= k < fin.len() implies !((#[trigger] fin[k]).state is Dead) by {
        assert(fin[k].state == mid[k].state || fin[k].state is Idle);
    }
    assert forall|k: int| 0 <= k < fin.len() implies exists|m: int|
        {
            &&& 0 <= m < agents0.len()
            &&& (#[trigger] fin[k]).id == agents0[m].id
            &&& !(agents0[m].state is Dead)
            &&& fin[k].faction == agents0[m].faction
            &&& fin[k].pos == agents0[m].pos
            &&& fin[k].speed == agents0[m].speed
            &&& (fin[k].state == agents0[m].state || (agents0[m].state is Routed && fin[k].state
                is Idle))
        } by {
        let m = choose|m: int| 0 <= m < agents0.len() && (#[trigger] agents0[m]) == mid[k];
        assert(mid[k] == agents0[m]);
        assert(!(agents0[m].state is Dead));
    }
    assert forall|m: int| 0 <= m < agents0.len() && !((#[trigger] agents0[m]).state is Dead)
        implies exists|k: int| 0 <= k < fin.len() && (#[trigger] fin[k]).id == agents0[m].id
        by {
        let k = choose|k: int| 0 <= k < mid.len() && (#[trigger] mid[k]) == agents0[m];
        assert(fin[k].id == agents0[m].id);
    }
}

/// How many of the agents belong to `f`, dead ones excluded.
pub open spec fn spec_count_faction(agents: Seq<Agent>, f: Faction) -> nat
    decreases agents.len(),
{
    if agents.len() == 0 {
        0
    } else {
        spec_count_faction(agents.drop_last(), f) + if agents.last().faction == f
            && !(agents.last().state is Dead) {
            1nat
        } else {
            0nat
        }
    }
}

/// Removing one dead agent from a well-formed table keeps it well-formed:
/// ids stay unique, fights stay mutual (a dead agent is in no fight), and
/// membership of the living is unchanged.
proof fn lemma_remove_dead_step(
    agents0: Seq<Agent>,
    pre: Seq<Agent>,
    post: Seq<Agent>,
    cur: int,
    next_id: u64,
)
    requires
        0 <= cur < pre.len(),
        pre[cur].state is Dead,
        post == pre.remove(cur),
        forall|k: int| 0 <= k < pre.len() ==> spec_agent_wf(#[trigger] pre[k]) && pre[k].id
            < next_id,
        spec_ids_unique(pre),
        spec_fights_wf(pre),
        forall|k: int| 0 <= k < cur ==> !((#[trigger] pre[k]).state is Dead),
        forall|k: int| 0 <= k < pre.len() ==> agents0.contains(#[trigger] pre[k]),
        forall|m: int| 0 <= m < agents0.len() && !((#[trigger] agents0[m]).state is Dead)
            ==> pre.contains(agents0[m]),
    ensures
        post.len() == pre.len() - 1,
        forall|k: int| 0 <= k < post.len() ==> spec_agent_wf(#[trigger] post[k]) && post[k].id
            < next_id,
        spec_ids_unique(post),
        spec_fights_wf(post),
        forall|k: int| 0 <= k < cur ==> !((#[trigger] post[k]).state is Dead),
        forall|k: int| 0 <= k < post.len() ==> agents0.contains(#[trigger] post[k]),
        forall|m: int| 0 <= m < agents0.len() && !((#[trigger] agents0[m]).state is Dead)
            ==> post.contains(agents0[m]),
{
    assert forall|k: int| 0 <= k < post.len() implies #[trigger] post[k] == (if k < cur {
        pre[k]
    } else {
        pre[k + 1]
    }) by {}
    assert forall|k: int| 0 <= k < post.len() implies spec_agent_wf(#[trigger] post[k])
        && post[k].id < next_id && agents0.contains(post[k]) by {
        if k < cur {
            assert(post[k] == pre[k]);
        } else {
            assert(post[k] == pre[k + 1]);
        }
    }
    assert(spec_ids_unique(post)) by {
        assert forall|k1: int, k2: int|
            0 <= k1 < post.len() && 0 <= k2 < post.len() && k1 != k2
            implies (#[trigger] post[k1].id) != (#[trigger] post[k2].id) by {}
    }
    assert(spec_fights_wf(post)) by {
        assert forall|k: int| 0 <= k < post.len() && (#[trigger] post[k].state) is Fighting
            implies exists|m2: int| #[trigger] spec_fight_partners(post, k, m2) by {
            let kp = if k < cur {
                k
            } else {
                k + 1
            };
            assert(pre[kp].state is Fighting);
            let m0 = choose|m0: int| spec_fight_partners(pre, kp, m0);
            assert(spec_fight_partners(pre, kp, m0));
            assert(m0 != cur);
            let m2 = if m0 < cur {
                m0
            } else {
                m0 - 1
            };
            assert(post[m2] == pre[m0]);
            assert(m2 != k) by {
                if m2 == k {
                    assert(m0 == kp);
                }
            }
            assert(spec_fight_partners(post, k, m2));
        }
    }
    assert forall|m: int| 0 <= m < agents0.len() && !((#[trigger] agents0[m]).state is Dead)
        implies post.contains(agents0[m]) by {
        let k0 = choose|k0: int| 0 <= k0 < pre.len() && pre[k0] == agents0[m];
        assert(k0 != cur);
        if k0 < cur {
            assert(post[k0] == agents0[m]);
        } else {
            assert(post[k0 - 1] == agents0[m]);
        }
    }
}

impl World {
    /// The index of the agent with the given id, if any.
    fn find_agent(&self, id: u64) -> (r: Option<usize>)
        ensures
            r matches Some(j) ==> j < self.agents@.len() && self.agents@[j as int].id == id,
            r is None ==> forall|j: int| 0 <= j < self.agents@.len()
                ==> (#[trigger] self.agents@[j].id) != id,
    {
        let mut j: usize = 0;
        while j < self.agents.len()
            invariant
                j <= self.agents@.len(),
                forall|k: int| 0 <= k < j ==> (#[trigger] self.agents@[k].id) != id,
            decreases self.agents@.len() - j,
        {
            if self.agents[j].id == id {
                return Some(j);
            }
            j = j + 1;
        }
        None
    }

    /// The proximity pass: every unordered pair of combat-ready agents of
    /// opposing factions closer than the fight radius enters a fight, both
    /// sides referencing each other, the first of the pair as initiator;
    /// routes of both are dropped. Afterwards no close opposing
    /// combat-ready pair remains.
    #[verifier::spinoff_prover]
    pub fn fight_collisions(&mut self, now_ms: u64)
        requires
            old(self).wf(),
        ensures
            final(self).wf(),
            final(self).tiles == old(self).tiles,
            final(self).health == old(self).health,
            final(self).spawns == old(self).spawns,
            final(self).game_data == old(self).game_data,
            final(self).next_id == old(self).next_id,
            final(self).agents@.len() == old(self).agents@.len(),
            forall|k: int| 0 <= k < old(self).agents@.len() ==> {
                &&& (#[trigger] final(self).agents@[k]).id == old(self).agents@[k].id
                &&& final(self).agents@[k].faction == old(self).agents@[k].faction
                &&& final(self).agents@[k].pos == old(self).agents@[k].pos
                &&& final(self).agents@[k].speed == old(self).agents@[k].speed
            },
            forall|k: int| 0 <= k < old(self).agents@.len()
                && !spec_combat_ready((#[trigger] old(self).agents@[k]).state)
                ==> final(self).agents@[k] == old(self).agents@[k],
            forall|k: int| 0 <= k < old(self).agents@.len()
                && spec_combat_ready((#[trigger] old(self).agents@[k]).state)
                ==> final(self).agents@[k] == old(self).agents@[k]
                    || (final(self).agents@[k].state is Fighting && spec_fight_since(
                    final(self).agents@[k].state,
                ) == now_ms),
            forall|a: int, b: int|
                0 <= a < b < final(self).agents@.len()
                    && spec_combat_ready((#[trigger] final(self).agents@[a]).state)
                    && spec_combat_ready((#[trigger] final(self).agents@[b]).state)
                    ==> !(final(self).agents@[a].faction != final(self).agents@[b].faction
                        && spec_close(
                        final(self).agents@[a].pos,
                        final(self).agents@[b].pos,
                        FIGHT_RADIUS as int,
                    )),
            forall|k: int|
                0 <= k < old(self).agents@.len() && ((#[trigger] final(self).agents@[k]).state)
                    is Fighting && !(old(self).agents@[k].state is Fighting)
                    ==> spec_fight_origin(final(self).agents@, old(self).agents@, k, now_ms),
    {
        let ghost agents0 = self.agents@;
        let ghost snap = *self;
        let n = self.agents.len();
        let mut i: usize = 0;
        while i < n
            invariant
                n == agents0.len(),
                i <= n,
                self.agents@.len() == n,
                self.tiles == snap.tiles,
                self.health == snap.health,
                self.navmesh == snap.navmesh,
                self.spawns == snap.spawns,
                self.game_data == snap.game_data,
                self.next_id == snap.next_id,
                agents0 == snap.agents@,
                snap.wf(),
                forall|k: int| 0 <= k < n ==> {
                    &&& (#[trigger] self.agents@[k]).id == agents0[k].id
                    &&& self.agents@[k].faction == agents0[k].faction
                    &&& self.agents@[k].pos == agents0[k].pos
                    &&& self.agents@[k].speed == agents0[k].speed
                },
                forall|k: int| 0 <= k < n ==> spec_agent_wf(#[trigger] self.agents@[k]),
                spec_fights_wf(self.agents@),
                forall|k: int| 0 <= k < n && spec_combat_ready((#[trigger] self.agents@[k]).state)
                    ==> self.agents@[k] == agents0[k],
                forall|k: int| 0 <= k < n
                    && !spec_combat_ready((#[trigger] agents0[k]).state)
                    ==> self.agents@[k] == agents0[k],
                forall|k: int| 0 <= k < n
                    && spec_combat_ready((#[trigger] agents0[k]).state)
                    ==> self.agents@[k] == agents0[k]
                        || (self.agents@[k].state is Fighting && spec_fight_since(
                        self.agents@[k].state,
                    ) == now_ms),
                forall|a: int, b: int|
                    0 <= a < b < n && a < i
                        && spec_combat_ready((#[trigger] self.agents@[a]).state)
                        && spec_combat_ready((#[trigger] self.agents@[b]).state)
                        ==> !(self.agents@[a].faction != self.agents@[b].faction && spec_close(
                        self.agents@[a].pos,
                        self.agents@[b].pos,
                        FIGHT_RADIUS as int,
                    )),
                forall|k: int|
                    0 <= k < n && ((#[trigger] self.agents@[k]).state) is Fighting
                        && !(agents0[k].state is Fighting)
                        ==> spec_fight_origin(self.agents@, agents0, k, now_ms),
            decreases n - i,
        {
            let mut j: usize = i + 1;
            while j < n
                invariant
                    n == agents0.len(),
                    i < n,
                    i + 1 <= j <= n,
                    self.agents@.len() == n,
                    self.tiles == snap.tiles,
                    self.health == snap.health,
                    self.navmesh == snap.navmesh,
                    self.spawns == snap.spawns,
                    self.game_data == snap.game_data,
                    self.next_id == snap.next_id,
                    agents0 == snap.agents@,
                    snap.wf(),
                    forall|k: int| 0 <= k < n ==> {
                        &&& (#[trigger] self.agents@[k]).id == agents0[k].id
                        &&& self.agents@[k].faction == agents0[k].faction
                        &&& self.agents@[k].pos == agents0[k].pos
                        &&& self.agents@[k].speed == agents0[k].speed
                    },
                    forall|k: int| 0 <= k < n ==> spec_agent_wf(#[trigger] self.agents@[k]),
                    spec_fights_wf(self.agents@),
                    forall|k: int| 0 <= k < n
                        && spec_combat_ready((#[trigger] self.agents@[k]).state)
                        ==> self.agents@[k] == agents0[k],
                    forall|k: int| 0 <= k < n
                        && !spec_combat_ready((#[trigger] agents0[k]).state)
                        ==> self.agents@[k] == agents0[k],
                    forall|k: int| 0 <= k < n
                        && spec_combat_ready((#[trigger] agents0[k]).state)
                        ==> self.agents@[k] == agents0[k]
                            || (self.agents@[k].state is Fighting && spec_fight_since(
                            self.agents@[k].state,
                        ) == now_ms),
                    forall|a: int, b: int|
                        0 <= a < b < n && (a < i || (a == i && b < j))
                            && spec_combat_ready((#[trigger] self.agents@[a]).state)
                            && spec_combat_ready((#[trigger] self.agents@[b]).state)
                            ==> !(self.agents@[a].faction != self.agents@[b].faction
                                && spec_close(
                                self.agents@[a].pos,
                                self.agents@[b].pos,
                                FIGHT_RADIUS as int,
                            )),
                    forall|k: int|
                        0 <= k < n && ((#[trigger] self.agents@[k]).state) is Fighting
                            && !(agents0[k].state is Fighting)
                            ==> spec_fight_origin(self.agents@, agents0, k, now_ms),
                decreases n - j,
            {
                let ready_i = combat_ready(&self.agents[i].state);
                let ready_j = combat_ready(&self.agents[j].state);
                let differ = {
                    let fa = self.agents[i].faction;
                    let fb = self.agents[j].faction;
                    !(fa == fb)
                };
                let near = close(self.agents[i].pos, self.agents[j].pos, FIGHT_RADIUS);
                if ready_i && ready_j && differ && near {
                    let ghost pre = self.agents@;
                    let id_i = self.agents[i].id;
                    let id_j = self.agents[j].id;
                    let a = &self.agents[i];
                    let fighter_i = Agent {
                        id: a.id,
                        faction: a.faction,
                        pos: a.pos,
                        speed: a.speed,
                        state: AgentState::Fighting {
                            opponent: id_j,
                            since_ms: now_ms,
                            initiator: true,
                        },
                    };
                    self.agents[i] = fighter_i;
                    let b = &self.agents[j];
                    let fighter_j = Agent {
                        id: b.id,
                        faction: b.faction,
                        pos: b.pos,
                        speed: b.speed,
                        state: AgentState::Fighting {
                            opponent: id_i,
                            since_ms: now_ms,
                            initiator: false,
                        },
                    };
                    self.agents[j] = fighter_j;
                    proof {
                        assert(spec_fight_partners(self.agents@, i as int, j as int));
                        assert(spec_fight_partners(self.agents@, j as int, i as int));
                        assert(pre[i as int] == agents0[i as int]);
                        assert(pre[j as int] == agents0[j as int]);
                        assert forall|k: int|
                            0 <= k < n && ((#[trigger] self.agents@[k].state)) is Fighting
                                && !(agents0[k].state is Fighting)
                            implies spec_fight_origin(self.agents@, agents0, k, now_ms) by {
                            if k == i as int {
                                assert(spec_fight_partners(self.agents@, k, j as int)
                                    && spec_combat_ready(agents0[j as int].state)
                                    && agents0[j as int].faction != agents0[k].faction
                                    && spec_close(
                                    agents0[k].pos,
                                    agents0[j as int].pos,
                                    FIGHT_RADIUS as int,
                                ));
                            } else if k == j as int {
                                lemma_close_symmetric(
                                    agents0[k].pos,
                                    agents0[i as int].pos,
                                    FIGHT_RADIUS as int,
                                );
                                assert(spec_fight_partners(self.agents@, k, i as int)
                                    && spec_combat_ready(agents0[i as int].state)
                                    && agents0[i as int].faction != agents0[k].faction
                                    && spec_close(
                                    agents0[k].pos,
                                    agents0[i as int].pos,
                                    FIGHT_RADIUS as int,
                                ));
                            } else {
                                assert(pre[k].state is Fighting);
                                let m = choose|m: int|
                                    {
                                        &&& #[trigger] spec_fight_partners(pre, k, m)
                                        &&& spec_combat_ready(agents0[m].state)
                                        &&& agents0[m].faction != agents0[k].faction
                                        &&& spec_close(
                                            agents0[k].pos,
                                            agents0[m].pos,
                                            FIGHT_RADIUS as int,
                                        )
                                    };
                                assert(spec_fight_partners(pre, k, m));
                                assert(m != i as int && m != j as int);
                                assert(self.agents@[m] == pre[m]);
                                assert(spec_fight_partners(self.agents@, k, m)
                                    && spec_combat_ready(agents0[m].state)
                                    && agents0[m].faction != agents0[k].faction
                                    && spec_close(
                                    agents0[k].pos,
                                    agents0[m].pos,
                                    FIGHT_RADIUS as int,
                                ));
                            }
                        }
                        assert(spec_fights_wf(self.agents@)) by {
                            assert forall|k: int|
                                0 <= k < n && (#[trigger] self.agents@[k].state) is Fighting
                                implies exists|m: int| #[trigger] spec_fight_partners(
                                self.agents@,
                                k,
                                m,
                            ) by {
                                if k == i as int {
                                } else if k == j as int {
                                } else {
                                    assert(pre[k].state is Fighting);
                                    let m = choose|m: int| spec_fight_partners(pre, k, m);
                                    assert(spec_fight_partners(pre, k, m));
                                    assert(m != i as int && m != j as int);
                                    assert(self.agents@[m] == pre[m]);
                                    assert(spec_fight_partners(self.agents@, k, m));
                                }
                            }
                        }
                    }
                }
                j = j + 1;
            }
            i = i + 1;
        }
    }

    /// The resolution pass: every fight that has lasted the full duration
    /// ends; the initiator returns to idle and the other side dies. All
    /// other agents are untouched.
    #[verifier::spinoff_prover]
    pub fn bee_fight(&mut self, now_ms: u64)
        requires
            old(self).wf(),
        ensures
            final(self).wf(),
            final(self).tiles == old(self).tiles,
            final(self).health == old(self).health,
            final(self).spawns == old(self).spawns,
            final(self).game_data == old(self).game_data,
            final(self).next_id == old(self).next_id,
            final(self).agents@.len() == old(self).agents@.len(),
            forall|k: int| 0 <= k < old(self).agents@.len()
                ==> #[trigger] final(self).agents@[k] == spec_resolve_agent(
                    old(self).agents@,
                    k,
                    now_ms,
                ),
    {
        let ghost agents0 = self.agents@;
        let ghost snap = *self;
        let n = self.agents.len();
        let mut i: usize = 0;
        while i < n
            invariant
                n == agents0.len(),
                i <= n,
                self.agents@.len() == n,
                self.tiles == snap.tiles,
                self.health == snap.health,
                self.navmesh == snap.navmesh,
                self.spawns == snap.spawns,
                self.game_data == snap.game_data,
                self.next_id == snap.next_id,
                agents0 == snap.agents@,
                snap.wf(),
                forall|k: int| 0 <= k < i
                    ==> #[trigger] self.agents@[k] == spec_resolve_agent(agents0, k, now_ms),
                forall|k: int| i <= k < n
                    ==> #[trigger] self.agents@[k] == agents0[k] || self.agents@[k]
                        == spec_resolve_agent(agents0, k, now_ms),
                forall|k: int| 0 <= k < n && (#[trigger] self.agents@[k].state) is Fighting
                    ==> self.agents@[k] == agents0[k],
                forall|k: int, m: int|
                    0 <= k < n && (#[trigger] self.agents@[k].state) is Fighting
                        && #[trigger] spec_fight_partners(agents0, k, m)
                        ==> self.agents@[m] == agents0[m],
            decreases n - i,
        {
            let due = match &self.agents[i].state {
                AgentState::Fighting { since_ms, .. } => {
                    now_ms >= *since_ms && now_ms - *since_ms >= FIGHT_DURATION_MS
                },
                _ => false,
            };
            if due {
                proof {
                    assert(self.agents@[i as int] == agents0[i as int]);
                    assert(agents0[i as int].state is Fighting);
                }
                let opp_id = match &self.agents[i].state {
                    AgentState::Fighting { opponent, .. } => *opponent,
                    _ => 0,
                };
                let initiator = match &self.agents[i].state {
                    AgentState::Fighting { initiator, .. } => *initiator,
                    _ => false,
                };
                let ghost m = choose|m: int| spec_fight_partners(agents0, i as int, m);
                proof {
                    assert(spec_fight_partners(agents0, i as int, m));
                    // the partner is untouched and keeps its id
                    assert(self.agents@[m] == agents0[m]);
                    assert(agents0[m].id == opp_id);
                }
                let found = self.find_agent(opp_id);
                match found {
                    None => {
                        proof {
                            assert(self.agents@[m].id == opp_id);
                            assert(false);
                        }
                    },
                    Some(jj) => {
                        proof {
                            // ids pin the found index down to the partner
                            assert(self.agents@[jj as int].id == opp_id);
                            assert(self.agents@[jj as int].id == agents0[jj as int].id);
                            assert(spec_ids_unique(agents0));
                            assert(jj as int == m);
                            // the partner's fight mirrors this one, so it is due too
                            assert(spec_fight_since(agents0[m].state) == spec_fight_since(
                                agents0[i as int].state,
                            ));
                        }
                        let ghost pre = self.agents@;
                        let a = &self.agents[i];
                        let me = Agent {
                            id: a.id,
                            faction: a.faction,
                            pos: a.pos,
                            speed: a.speed,
                            state: if initiator {
                                AgentState::Idle
                            } else {
                                AgentState::Dead
                            },
                        };
                        self.agents[i] = me;
                        let b = &self.agents[jj];
                        let other = Agent {
                            id: b.id,
                            faction: b.faction,
                            pos: b.pos,
                            speed: b.speed,
                            state: if initiator {
                                AgentState::Dead
                            } else {
                                AgentState::Idle
                            },
                        };
                        self.agents[jj] = other;
                        proof {
                            assert(self.agents@[i as int] == spec_resolve_agent(
                                agents0,
                                i as int,
                                now_ms,
                            ));
                            assert(self.agents@[m] == spec_resolve_agent(agents0, m, now_ms));
                            assert(m != i as int);
                            assert forall|k: int|
                                0 <= k < n && (#[trigger] self.agents@[k].state) is Fighting
                                implies self.agents@[k] == agents0[k] by {
                                assert(k != i as int && k != m);
                                assert(self.agents@[k] == pre[k]);
                            }
                            assert forall|k: int, m2: int|
                                0 <= k < n && (#[trigger] self.agents@[k].state) is Fighting
                                    && #[trigger] spec_fight_partners(agents0, k, m2)
                                implies self.agents@[m2] == agents0[m2] by {
                                assert(k != i as int && k != m);
                                assert(self.agents@[k] == pre[k]);
                                assert(pre[k].state is Fighting);
                                // the resolved pair cannot be this fight's partner:
                                // opponent ids are unique
                                assert(m2 != i as int && m2 != m) by {
                                    if m2 == i as int {
                                        assert(spec_fight_opponent(agents0[i as int].state)
                                            == agents0[k].id);
                                        assert(spec_fight_opponent(agents0[i as int].state)
                                            == agents0[m].id);
                                        assert(spec_ids_unique(agents0));
                                        assert(k == m);
                                        assert(pre[m].state is Fighting);
                                        assert(pre[m] == agents0[m]);
                                        assert(spec_fight_partners(agents0, m, i as int)) by {
                                            let m3 = choose|m3: int| spec_fight_partners(
                                                agents0,
                                                m,
                                                m3,
                                            );
                                            assert(spec_fight_partners(agents0, m, m3));
                                            assert(agents0[m3].id == spec_fight_opponent(
                                                agents0[m].state,
                                            ));
                                            assert(agents0[m3].id == agents0[i as int].id);
                                            assert(m3 == i as int);
                                        }
                                        assert(false);
                                    }
                                    if m2 == m {
                                        assert(spec_fight_opponent(agents0[m].state)
                                            == agents0[k].id);
                                        assert(spec_fight_opponent(agents0[m].state)
                                            == agents0[i as int].id);
                                        assert(k == i as int);
                                        assert(false);
                                    }
                                }
                                assert(self.agents@[m2] == pre[m2]);
                            }
                            assert(spec_fights_wf(self.agents@)) by {
                                assert forall|k: int|
                                    0 <= k < n && (#[trigger] self.agents@[k].state) is Fighting
                                    implies exists|m2: int| #[trigger] spec_fight_partners(
                                    self.agents@,
                                    k,
                                    m2,
                                ) by {
                                    assert(self.agents@[k] == agents0[k]);
                                    assert(agents0[k].state is Fighting);
                                    let m2 = choose|m2: int| spec_fight_partners(agents0, k, m2);
                                    assert(spec_fight_partners(agents0, k, m2));
                                    assert(self.agents@[m2] == agents0[m2]);
                                    assert(spec_fight_partners(self.agents@, k, m2));
                                }
                            }
                        }
                    },
                }
            }
            proof {
                if !due {
                    assert(self.agents@[i as int] == spec_resolve_agent(
                        agents0,
                        i as int,
                        now_ms,
                    )) by {
                        if self.agents@[i as int] == agents0[i as int] {
                            if agents0[i as int].state is Fighting {
                                assert(!(now_ms >= spec_fight_since(agents0[i as int].state)
                                    + FIGHT_DURATION_MS));
                            }
                        }
                    }
                }
            }
            i = i + 1;
        }
        proof {
            assert forall|k: int| 0 <= k < n implies spec_agent_wf(
                #[trigger] self.agents@[k],
            ) by {
                assert(self.agents@[k] == spec_resolve_agent(agents0, k, now_ms));
            }
            assert forall|k: int| 0 <= k < n implies (#[trigger] self.agents@[k].id)
                == agents0[k].id by {
                assert(self.agents@[k] == spec_resolve_agent(agents0, k, now_ms));
            }
            assert(spec_ids_unique(self.agents@));
            assert(spec_fights_wf(self.agents@)) by {
                assert forall|k: int|
                    0 <= k < n && (#[trigger] self.agents@[k].state) is Fighting
                    implies exists|m: int| #[trigger] spec_fight_partners(
                    self.agents@,
                    k,
                    m,
                ) by {
                    assert(self.agents@[k] == agents0[k]);
                    assert(agents0[k].state is Fighting);
                    let m = choose|m: int| spec_fight_partners(agents0, k, m);
                    assert(spec_fight_partners(agents0, k, m));
                    assert(self.agents@[m] == agents0[m]);
                    assert(spec_fight_partners(self.agents@, k, m));
                }
            }
        }
    }
}


impl World {
    /// How many living agents belong to `f`.
    #[verifier::spinoff_prover]
    pub fn count_faction(&self, f: Faction) -> (r: usize)
        ensures
            r == spec_count_faction(self.agents@, f),
    {
        let n = self.agents.len();
        let mut cnt: usize = 0;
        let mut i: usize = 0;
        while i < n
            invariant
                n == self.agents@.len(),
                i <= n,
                cnt <= i,
                cnt == spec_count_faction(self.agents@.take(i as int), f),
            decreases n - i,
        {
            let counts = match &self.agents[i].state {
                AgentState::Dead => false,
                _ => self.agents[i].faction == f,
            };
            proof {
                let t1 = self.agents@.take(i + 1);
                assert(t1.drop_last() =~= self.agents@.take(i as int));
                assert(t1.last() == self.agents@[i as int]);
            }
            if counts {
                cnt = cnt + 1;
            }
            i = i + 1;
        }
        proof {
            assert(self.agents@.take(n as int) =~= self.agents@);
        }
        cnt
    }

    /// Remove every dead agent from the table, keeping the others in
    /// order.
    #[verifier::spinoff_prover]
    fn remove_dead(&mut self)
        requires
            old(self).wf(),
        ensures
            final(self).wf(),
            final(self).tiles == old(self).tiles,
            final(self).health == old(self).health,
            final(self).navmesh == old(self).navmesh,
            final(self).spawns == old(self).spawns,
            final(self).game_data == old(self).game_data,
            final(self).next_id == old(self).next_id,
            forall|k: int| 0 <= k < final(self).agents@.len()
                ==> !((#[trigger] final(self).agents@[k]).state is Dead),
            forall|k: int| 0 <= k < final(self).agents@.len()
                ==> old(self).agents@.contains(#[trigger] final(self).agents@[k]),
            forall|m: int| 0 <= m < old(self).agents@.len()
                && !((#[trigger] old(self).agents@[m]).state is Dead)
                ==> final(self).agents@.contains(old(self).agents@[m]),
    {
        let ghost agents0 = self.agents@;
        let ghost snap = *self;
        proof {
            assert forall|k: int| 0 <= k < self.agents@.len()
                implies agents0.contains(#[trigger] self.agents@[k]) by {
                assert(agents0[k] == self.agents@[k]);
            }
            assert forall|m: int| 0 <= m < agents0.len()
                && !((#[trigger] agents0[m]).state is Dead)
                implies self.agents@.contains(agents0[m]) by {
                assert(self.agents@[m] == agents0[m]);
            }
        }
        let mut cur: usize = 0;
        while cur < self.agents.len()
            invariant
                snap.wf(),
                agents0 == snap.agents@,
                self.tiles == snap.tiles,
                self.health == snap.health,
                self.navmesh == snap.navmesh,
                self.spawns == snap.spawns,
                self.game_data == snap.game_data,
                self.next_id == snap.next_id,
                cur <= self.agents@.len(),
                forall|k: int| 0 <= k < self.agents@.len() ==> spec_agent_wf(
                    #[trigger] self.agents@[k],
                ) && self.agents@[k].id < self.next_id,
                spec_ids_unique(self.agents@),
                spec_fights_wf(self.agents@),
                forall|k: int| 0 <= k < cur ==> !((#[trigger] self.agents@[k]).state is Dead),
                forall|k: int| 0 <= k < self.agents@.len()
                    ==> agents0.contains(#[trigger] self.agents@[k]),
                forall|m: int| 0 <= m < agents0.len()
                    && !((#[trigger] agents0[m]).state is Dead)
                    ==> self.agents@.contains(agents0[m]),
            decreases self.agents@.len() - cur,
        {
            let is_dead = match &self.agents[cur].state {
                AgentState::Dead => true,
                _ => false,
            };
            if is_dead {
                let ghost pre = self.agents@;
                self.agents.remove(cur);
                proof {
                    lemma_remove_dead_step(agents0, pre, self.agents@, cur as int, self.next_id);
                }
            } else {
                cur = cur + 1;
            }
        }
    }

    /// The despawn pass: dead agents leave the world, each leaving a
    /// marker tile where it fell; when afterwards a faction has no living
    /// agent left and the game has begun, the game is over.
    /// The marker tiles the dead leave behind: for each dead agent on the
    /// map, its cell and its faction's marker style.
    #[verifier::spinoff_prover]
    fn collect_markers(&self) -> (poos: Vec<(TilePos, u8)>)
        requires
            self.wf(),
        ensures
            forall|q: int| 0 <= q < poos@.len()
                ==> (#[trigger] poos@[q]).0.x < MAP_COLS && poos@[q].0.y < MAP_ROWS,
            forall|q: int| 0 <= q < poos@.len()
                ==> spec_poo_entry_ok(self.agents@, #[trigger] poos@[q]),
            forall|m: int|
                0 <= m < self.agents@.len() && ((#[trigger] self.agents@[m]).state) is Dead
                    && spec_agent_cell(self.agents@[m].pos).x < MAP_COLS && spec_agent_cell(
                    self.agents@[m].pos,
                ).y < MAP_ROWS ==> exists|q: int| 0 <= q < poos@.len()
                    && (#[trigger] poos@[q]).0 == spec_agent_cell(self.agents@[m].pos),
    {
        let ghost agents0 = self.agents@;
        let n = self.agents.len();
        let mut poos: Vec<(TilePos, u8)> = Vec::new();
        let mut i: usize = 0;
        while i < n
            invariant
                n == self.agents@.len(),
                agents0 == self.agents@,
                i <= n,
                self.wf(),
                forall|q: int| 0 <= q < poos@.len()
                    ==> (#[trigger] poos@[q]).0.x < MAP_COLS && poos@[q].0.y < MAP_ROWS,
                forall|q: int| 0 <= q < poos@.len()
                    ==> spec_poo_entry_ok(agents0, #[trigger] poos@[q]),
                forall|m: int|
                    0 <= m < i && ((#[trigger] agents0[m]).state) is Dead && spec_agent_cell(
                        agents0[m].pos,
                    ).x < MAP_COLS && spec_agent_cell(agents0[m].pos).y < MAP_ROWS
                        ==> exists|q: int| 0 <= q < poos@.len() && (#[trigger] poos@[q]).0
                            == spec_agent_cell(agents0[m].pos),
            decreases n - i,
        {
            let is_dead = match &self.agents[i].state {
                AgentState::Dead => true,
                _ => false,
            };
            let ghost poos_before = poos@;
            if is_dead {
                proof {
                    assert(spec_agent_wf(self.agents@[i as int]));
                }
                let pos = self.agents[i].pos;
                let cell = px_to_tilepos(WorldPos { x: pos.x - GAP_LEFT, y: pos.y });
                if cell.x < MAP_COLS && cell.y < MAP_ROWS {
                    let style: u8 = if self.agents[i].faction == Faction::Blue {
                        1
                    } else {
                        0
                    };
                    poos.push((cell, style));
                    proof {
                        assert(poos@[poos@.len() - 1].0 == spec_agent_cell(
                            agents0[i as int].pos,
                        ));
                        assert(poos@[poos@.len() - 1].1 == spec_poo_style(
                            agents0[i as int].faction,
                        ));
                        assert forall|q: int| 0 <= q < poos@.len()
                            implies spec_poo_entry_ok(agents0, #[trigger] poos@[q]) by {
                            if q < poos@.len() - 1 {
                                assert(poos@[q] == poos_before[q]);
                                assert(spec_poo_entry_ok(agents0, poos_before[q]));
                            } else {
                                assert(agents0[i as int].state is Dead && spec_agent_cell(
                                    agents0[i as int].pos,
                                ) == poos@[q].0 && poos@[q].1 == spec_poo_style(
                                    agents0[i as int].faction,
                                ));
                            }
                        }
                    }
                }
            }
            proof {
                assert forall|m: int|
                    0 <= m < i + 1 && ((#[trigger] agents0[m]).state) is Dead
                        && spec_agent_cell(agents0[m].pos).x < MAP_COLS && spec_agent_cell(
                        agents0[m].pos,
                    ).y < MAP_ROWS implies exists|q: int| 0 <= q < poos@.len()
                    && (#[trigger] poos@[q]).0 == spec_agent_cell(agents0[m].pos) by {
                    if m < i {
                        let q = choose|q: int|
                            0 <= q < poos_before.len() && (#[trigger] poos_before[q]).0
                                == spec_agent_cell(agents0[m].pos);
                        assert(poos@[q].0 == spec_agent_cell(agents0[m].pos));
                    } else {
                        assert(poos@[poos@.len() - 1].0 == spec_agent_cell(agents0[m].pos));
                    }
                }
            }
            i = i + 1;
        }
        poos
    }

    /// Write every collected marker into the terrain, through the reactor.
    #[verifier::spinoff_prover]
    fn place_markers(&mut self, poos: &Vec<(TilePos, u8)>)
        requires
            old(self).wf(),
            forall|q: int| 0 <= q < poos@.len()
                ==> (#[trigger] poos@[q]).0.x < MAP_COLS && poos@[q].0.y < MAP_ROWS,
        ensures
            final(self).wf(),
            final(self).health == old(self).health,
            final(self).next_id == old(self).next_id,
            final(self).spawns == old(self).spawns,
            final(self).game_data == old(self).game_data,
            final(self).plant_timer == old(self).plant_timer,
            final(self).agents@.len() == old(self).agents@.len(),
            forall|k: int| 0 <= k < old(self).agents@.len() ==> {
                let a = old(self).agents@[k];
                let b = #[trigger] final(self).agents@[k];
                &&& b.id == a.id
                &&& b.faction == a.faction
                &&& b.pos == a.pos
                &&& b.speed == a.speed
                &&& (b.state == a.state || (a.state is Routed && b.state is Idle))
            },
            forall|c: TilePos|
                #![trigger c.x, c.y]
                c.x < MAP_COLS && c.y < MAP_ROWS && final(self).spec_tile_at(
                    c.x as int,
                    c.y as int,
                ) != old(self).spec_tile_at(c.x as int, c.y as int) ==> final(self).spec_tile_at(
                    c.x as int,
                    c.y as int,
                ) is Poo,
            forall|q: int| 0 <= q < poos@.len()
                ==> spec_marked(*final(self), poos@, (#[trigger] poos@[q]).0),
    {
        let ghost mid = *old(self);
        let mut p: usize = 0;
        while p < poos.len()
            invariant
                p <= poos@.len(),
                self.wf(),
                mid.wf(),
                self.health == mid.health,
                self.next_id == mid.next_id,
                self.spawns == mid.spawns,
                self.game_data == mid.game_data,
                self.plant_timer == mid.plant_timer,
                forall|q: int| 0 <= q < poos@.len()
                    ==> (#[trigger] poos@[q]).0.x < MAP_COLS && poos@[q].0.y < MAP_ROWS,
                self.agents@.len() == mid.agents@.len(),
                forall|k: int| 0 <= k < mid.agents@.len() ==> {
                    let a = mid.agents@[k];
                    let b = #[trigger] self.agents@[k];
                    &&& b.id == a.id
                    &&& b.faction == a.faction
                    &&& b.pos == a.pos
                    &&& b.speed == a.speed
                    &&& (b.state == a.state || (a.state is Routed && b.state is Idle))
                },
                forall|c: TilePos|
                    #![trigger c.x, c.y]
                    c.x < MAP_COLS && c.y < MAP_ROWS && self.spec_tile_at(
                        c.x as int,
                        c.y as int,
                    ) != mid.spec_tile_at(c.x as int, c.y as int) ==> self.spec_tile_at(
                        c.x as int,
                        c.y as int,
                    ) is Poo,
                forall|q: int| 0 <= q < p
                    ==> spec_marked(*self, poos@, (#[trigger] poos@[q]).0),
            decreases poos@.len() - p,
        {
            let (cell, style) = poos[p];
            let ghost pre = *self;
            self.set_tile(cell, Tile::Poo { style });
            proof {
                assert forall|q: int| 0 <= q < p + 1 implies spec_marked(
                    *self,
                    poos@,
                    (#[trigger] poos@[q]).0,
                ) by {
                    if poos@[q].0 == cell {
                        assert(poos@[p as int].0 == poos@[q].0 && self.spec_tile_at(
                            poos@[q].0.x as int,
                            poos@[q].0.y as int,
                        ) == (Tile::Poo { style: poos@[p as int].1 }));
                    } else {
                        assert(self.spec_tile_at(poos@[q].0.x as int, poos@[q].0.y as int)
                            == pre.spec_tile_at(poos@[q].0.x as int, poos@[q].0.y as int));
                        assert(spec_marked(pre, poos@, poos@[q].0));
                        let q2 = choose|q2: int|
                            0 <= q2 < poos@.len() && (#[trigger] poos@[q2]).0 == poos@[q].0
                                && pre.spec_tile_at(poos@[q].0.x as int, poos@[q].0.y as int)
                                == (Tile::Poo { style: poos@[q2].1 });
                        assert(poos@[q2].0 == poos@[q].0 && self.spec_tile_at(
                            poos@[q].0.x as int,
                            poos@[q].0.y as int,
                        ) == (Tile::Poo { style: poos@[q2].1 }));
                    }
                }
                assert forall|c: TilePos|
                    #![trigger c.x, c.y]
                    c.x < MAP_COLS && c.y < MAP_ROWS && self.spec_tile_at(
                        c.x as int,
                        c.y as int,
                    ) != mid.spec_tile_at(c.x as int, c.y as int) implies self.spec_tile_at(
                    c.x as int,
                    c.y as int,
                ) is Poo by {
                    if c == cell {
                    } else {
                        assert(self.spec_tile_at(c.x as int, c.y as int) == pre.spec_tile_at(
                            c.x as int,
                            c.y as int,
                        ));
                    }
                }
            }
            p = p + 1;
        }
    }

    #[verifier::rlimit(100)]
    #[verifier::spinoff_prover]
    pub fn bee_dead(&mut self)
        requires
            old(self).wf(),
        ensures
            final(self).wf(),
            final(self).health == old(self).health,
            final(self).next_id == old(self).next_id,
            final(self).spawns == old(self).spawns,
            final(self).game_data.eggs_spawned == old(self).game_data.eggs_spawned,
            final(self).game_data.game_started == old(self).game_data.game_started,
            final(self).game_data.bee_base_speed == old(self).game_data.bee_base_speed,
            final(self).game_data.egg_spawn_time == old(self).game_data.egg_spawn_time,
            final(self).game_data.game_over == (old(self).game_data.game_over || (old(
                self,
            ).game_data.game_started && (spec_count_faction(final(self).agents@, Faction::Blue)
                == 0 || spec_count_faction(final(self).agents@, Faction::Red) == 0))),
            forall|c: TilePos|
                #![trigger c.x, c.y]
                c.x < MAP_COLS && c.y < MAP_ROWS && final(self).spec_tile_at(
                    c.x as int,
                    c.y as int,
                ) != old(self).spec_tile_at(c.x as int, c.y as int) ==> final(self).spec_tile_at(
                    c.x as int,
                    c.y as int,
                ) is Poo,
            forall|m: int|
                0 <= m < old(self).agents@.len() && ((#[trigger] old(self).agents@[m]).state)
                    is Dead && spec_agent_cell(old(self).agents@[m].pos).x < MAP_COLS
                    && spec_agent_cell(old(self).agents@[m].pos).y < MAP_ROWS
                    ==> spec_death_marked(old(self).agents@, *final(self), m),
            forall|k: int| 0 <= k < final(self).agents@.len()
                ==> !((#[trigger] final(self).agents@[k]).state is Dead),
            forall|k: int| 0 <= k < final(self).agents@.len()
                ==> exists|m: int|
                {
                    &&& 0 <= m < old(self).agents@.len()
                    &&& (#[trigger] final(self).agents@[k]).id == old(self).agents@[m].id
                    &&& !(old(self).agents@[m].state is Dead)
                    &&& final(self).agents@[k].faction == old(self).agents@[m].faction
                    &&& final(self).agents@[k].pos == old(self).agents@[m].pos
                    &&& final(self).agents@[k].speed == old(self).agents@[m].speed
                    &&& (final(self).agents@[k].state == old(self).agents@[m].state || (old(
                        self,
                    ).agents@[m].state is Routed && final(self).agents@[k].state is Idle))
                },
            forall|m: int| 0 <= m < old(self).agents@.len()
                && !((#[trigger] old(self).agents@[m]).state is Dead)
                ==> exists|k: int| 0 <= k < final(self).agents@.len()
                    && (#[trigger] final(self).agents@[k]).id == old(self).agents@[m].id,
    {
        let ghost agents0 = self.agents@;
        let ghost snap = *self;

        let poos = self.collect_markers();
        self.remove_dead();
        let ghost mid = *self;
        self.place_markers(&poos);

        proof {
            lemma_markers_settle(agents0, *self, poos@);
        }

        proof {
            lemma_despawn_settles(agents0, mid.agents@, self.agents@);
        }
        self.check_extinction();
    }

    /// Raise the game-over condition when a faction has no living agent
    /// left in a started game.
    #[verifier::spinoff_prover]
    fn check_extinction(&mut self)
        requires
            old(self).wf(),
        ensures
            final(self).wf(),
            final(self).tiles == old(self).tiles,
            final(self).health == old(self).health,
            final(self).navmesh == old(self).navmesh,
            final(self).agents == old(self).agents,
            final(self).spawns == old(self).spawns,
            final(self).next_id == old(self).next_id,
            final(self).plant_timer == old(self).plant_timer,
            final(self).game_data.eggs_spawned == old(self).game_data.eggs_spawned,
            final(self).game_data.game_started == old(self).game_data.game_started,
            final(self).game_data.bee_base_speed == old(self).game_data.bee_base_speed,
            final(self).game_data.egg_spawn_time == old(self).game_data.egg_spawn_time,
            final(self).game_data.game_over == (old(self).game_data.game_over || (old(
                self,
            ).game_data.game_started && (spec_count_faction(old(self).agents@, Faction::Blue)
                == 0 || spec_count_faction(old(self).agents@, Faction::Red) == 0))),
    {
        let blue = self.count_faction(Faction::Blue);
        let red = self.count_faction(Faction::Red);
        if (blue == 0 || red == 0) && self.game_data.game_started && !self.game_data.game_over {
            self.game_data.game_over = true;
        }
    }
}

} // verus!
