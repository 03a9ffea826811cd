//! The path planner: a deterministic breadth-first search over the navmesh
//! with unit edge costs. A returned route starts at the search origin,
//! ends at the goal, and moves only along non-solid 4-adjacent cells;
//! `None` is returned exactly when no such route exists.

use vstd::prelude::*;
use vstd::seq_lib::*;
use vstd::set_lib::*;
use crate::grid::{adjacent, Navmesh, TilePos};
use crate::path::Pathfinding;

verus! {

/// One legal move of a route: onto a 4-adjacent, non-solid cell.
pub open spec fn step_ok(g: Navmesh, a: TilePos, b: TilePos) -> bool {
    adjacent(a, b) && !g.spec_solid(b)
}

/// `p` is a walkable route on `g` from `from` to `to`: it begins at `from`,
/// ends at `to`, and each move is onto a non-solid 4-adjacent cell. The
/// starting cell itself need not be non-solid.
pub open spec fn is_path(g: Navmesh, p: Seq<TilePos>, from: TilePos, to: TilePos) -> bool {
    &&& p.len() > 0
    &&& p[0] == from
    &&& p[p.len() - 1] == to
    &&& forall|i: int| 0 <= i < p.len() - 1 ==> step_ok(g, #[trigger] p[i], p[i + 1])
}

/// Some walkable route connects `from` to `to` on `g`.
pub open spec fn reachable(g: Navmesh, from: TilePos, to: TilePos) -> bool {
    exists|p: Seq<TilePos>| is_path(g, p, from, to)
}

/// The row-major index of an in-bounds cell.
pub open spec fn pidx(g: Navmesh, c: TilePos) -> int {
    c.y * g.spec_width() + c.x
}

/// The search has recorded cell `c`: it is in bounds and its bit is set.
pub open spec fn vis(g: Navmesh, v: Seq<bool>, c: TilePos) -> bool {
    g.spec_in_bounds(c) && v[pidx(g, c)]
}

/// Every legal move out of `a` lands on a recorded cell.
pub open spec fn nbrs_vis(g: Navmesh, v: Seq<bool>, a: TilePos) -> bool {
    forall|b: TilePos| #[trigger] step_ok(g, a, b) ==> vis(g, v, b)
}

/// The recorded set is closed under legal moves.
pub open spec fn vis_closed(g: Navmesh, v: Seq<bool>) -> bool {
    forall|a: TilePos, b: TilePos|
        #![trigger vis(g, v, a), step_ok(g, a, b)]
        vis(g, v, a) && step_ok(g, a, b) ==> vis(g, v, b)
}

proof fn lemma_pidx_bounds(g: Navmesh, c: TilePos)
    requires
        g.spec_in_bounds(c),
    ensures
        0 <= pidx(g, c) < g.spec_width() * g.spec_height(),
{
    assert(0 <= c.y * g.spec_width() + c.x < g.spec_width() * g.spec_height())
        by (nonlinear_arith)
        requires
            c.x < g.spec_width(),
            c.y < g.spec_height(),
    {}
}

proof fn lemma_pidx_injective(g: Navmesh, c1: TilePos, c2: TilePos)
    requires
        g.spec_in_bounds(c1),
        g.spec_in_bounds(c2),
        pidx(g, c1) == pidx(g, c2),
    ensures
        c1 == c2,
{
    assert(c1.x == c2.x && c1.y == c2.y) by (nonlinear_arith)
        requires
            c1.x < g.spec_width(),
            c2.x < g.spec_width(),
            c1.y * g.spec_width() + c1.x == c2.y * g.spec_width() + c2.x,
    {}
}

/// A duplicate-free sequence of in-bounds cells cannot be longer than the
/// number of cells of the grid.
proof fn lemma_queue_bounded(g: Navmesh, q: Seq<TilePos>)
    requires
        q.no_duplicates(),
        forall|i: int| 0 <= i < q.len() ==> g.spec_in_bounds(#[trigger] q[i]),
    ensures
        q.len() <= g.spec_width() * g.spec_height(),
{
    let f = |c: TilePos| pidx(g, c);
    let idxs = q.map_values(f);
    assert(idxs.no_duplicates()) by {
        assert forall|i: int, j: int| 0 <= i < idxs.len() && 0 <= j < idxs.len() && i != j
            implies idxs[i] != idxs[j] by {
            if idxs[i] == idxs[j] {
                lemma_pidx_injective(g, q[i], q[j]);
            }
        }
    }
    idxs.unique_seq_to_set();
    let total = g.spec_width() * g.spec_height();
    assert(idxs.to_set().subset_of(set_int_range(0, total))) by {
        assert forall|x: int| #[trigger] idxs.to_set().contains(x)
            implies set_int_range(0, total).contains(x) by {
            let i = choose|i: int| 0 <= i < idxs.len() && idxs[i] == x;
            lemma_pidx_bounds(g, q[i]);
        }
    }
    lemma_int_range(0, total);
    lemma_len_subset(idxs.to_set(), set_int_range(0, total));
}

/// A recorded set that is closed under legal moves and contains the start of
/// a walkable route contains its end.
proof fn lemma_closed_reaches(g: Navmesh, v: Seq<bool>, p: Seq<TilePos>, from: TilePos, to: TilePos)
    requires
        vis_closed(g, v),
        vis(g, v, from),
        is_path(g, p, from, to),
    ensures
        vis(g, v, to),
    decreases p.len(),
{
    if p.len() == 1 {
        assert(to == from);
    } else {
        assert(step_ok(g, p[0], p[1]));
        assert(vis(g, v, p[1]));
        let q = p.subrange(1, p.len() as int);
        assert(is_path(g, q, p[1], to)) by {
            assert(q[0] == p[1]);
            assert(q[q.len() - 1] == p[p.len() - 1]);
            assert forall|i: int| 0 <= i < q.len() - 1 implies #[trigger] step_ok(g, q[i], q[i + 1]) by {
                assert(q[i] == p[i + 1]);
                assert(q[i + 1] == p[i + 2]);
                assert(step_ok(g, p[i + 1], p[i + 2]));
            }
        }
        lemma_closed_reaches(g, v, q, p[1], to);
    }
}

/// A route cannot end on a solid goal other than its own starting cell.
pub proof fn lemma_solid_goal_unreachable(g: Navmesh, from: TilePos, to: TilePos)
    requires
        g.spec_solid(to),
        from != to,
    ensures
        !reachable(g, from, to),
{
    if reachable(g, from, to) {
        let p = choose|p: Seq<TilePos>| is_path(g, p, from, to);
        if p.len() == 1 {
            assert(from == to);
        } else {
            assert(step_ok(g, p[p.len() - 2], p[p.len() - 1]));
        }
        assert(false);
    }
}

/// The row-major index of an in-bounds cell, as a vector index.
fn cell_index(grid: &Navmesh, c: TilePos, total: usize) -> (i: usize)
    requires
        grid.wf(),
        grid.spec_in_bounds(c),
        total == grid.spec_width() * grid.spec_height(),
    ensures
        i == pidx(*grid, c),
        i < total,
{
    proof {
        lemma_pidx_bounds(*grid, c);
    }
    (c.y as usize) * (grid.width() as usize) + (c.x as usize)
}

impl Pathfinding {
    /// Plan a route from `from` to `to` across `navmesh`.
    ///
    /// The search is a breadth-first expansion with the fixed neighbour
    /// order below, left, right, above, so results are deterministic; with
    /// unit edge costs this realizes the planner's uniform-cost behaviour.
    /// Returns `Some` route exactly when the goal is connected to the start
    /// through non-solid cells, and `None` otherwise; in particular a solid
    /// goal cell (other than `from` itself) is never reached.
    #[verifier::loop_isolation(false)]
    pub fn astar(navmesh: &Navmesh, from: TilePos, to: TilePos) -> (r: Option<Pathfinding>)
        requires
            navmesh.wf(),
            navmesh.spec_in_bounds(from),
        ensures
            r matches Some(pf) ==> pf.at == 0 && is_path(*navmesh, pf.path@, from, to),
            r is None <==> !reachable(*navmesh, from, to),
    {
        let total = navmesh.cell_count();
        let mut visited: Vec<bool> = vec![false; total];
        let mut paths: Vec<Vec<TilePos>> = Vec::new();
        while paths.len() < total
            invariant
                paths@.len() <= total,
            decreases total - paths@.len(),
        {
            paths.push(Vec::new());
        }
        let mut queue: Vec<TilePos> = Vec::new();
        let mut head: usize = 0;

        let fidx = cell_index(navmesh, from, total);
        assert(forall|i: int| 0 <= i < total ==> !visited@[i]);
        visited[fidx] = true;
        let mut first: Vec<TilePos> = Vec::new();
        first.push(from);
        paths[fidx] = first;
        queue.push(from);

        proof {
            assert forall|c: TilePos| #[trigger] vis(*navmesh, visited@, c)
                implies queue@.contains(c) by {
                lemma_pidx_bounds(*navmesh, c);
                lemma_pidx_injective(*navmesh, c, from);
                assert(queue@[0] == c);
            }
            assert forall|c: TilePos| #[trigger] vis(*navmesh, visited@, c)
                implies is_path(*navmesh, paths@[pidx(*navmesh, c)]@, from, c) by {
                lemma_pidx_bounds(*navmesh, c);
                lemma_pidx_injective(*navmesh, c, from);
            }
        }

        while head < queue.len()
            invariant
                visited@.len() == total,
                paths@.len() == total,
                head <= queue@.len(),
                queue@.len() <= total,
                queue@.no_duplicates(),
                forall|i: int| 0 <= i < queue@.len()
                    ==> navmesh.spec_in_bounds(#[trigger] queue@[i])
                        && vis(*navmesh, visited@, queue@[i]),
                forall|c: TilePos| #[trigger] vis(*navmesh, visited@, c) ==> queue@.contains(c),
                forall|c: TilePos| #[trigger] vis(*navmesh, visited@, c)
                    ==> is_path(*navmesh, paths@[pidx(*navmesh, c)]@, from, c),
                vis(*navmesh, visited@, from),
                forall|j: int| 0 <= j < head
                    ==> nbrs_vis(*navmesh, visited@, #[trigger] queue@[j]) && queue@[j] != to,
            decreases total - head,
        {
            let cur = queue[head];
            let ci = cell_index(navmesh, cur, total);
            if cur.x == to.x && cur.y == to.y {
                let path = paths[ci].clone();
                proof {
                    assert(cur == to);
                    assert(path@ == paths@[pidx(*navmesh, cur)]@);
                    assert(is_path(*navmesh, path@, from, to));
                }
                return Some(Pathfinding { path, at: 0 });
            }
            let ns = navmesh.empty_neighbours(cur);
            let ghost pre_visited = visited@;
            let mut k: usize = 0;
            while k < ns.len()
                invariant
                    visited@.len() == total,
                    paths@.len() == total,
                    head < queue@.len(),
                    queue@.len() <= total,
                    queue@[head as int] == cur,
                    queue@.no_duplicates(),
                    forall|i: int| 0 <= i < queue@.len()
                        ==> navmesh.spec_in_bounds(#[trigger] queue@[i])
                            && vis(*navmesh, visited@, queue@[i]),
                    forall|c: TilePos| #[trigger] vis(*navmesh, visited@, c)
                        ==> queue@.contains(c),
                    forall|c: TilePos| #[trigger] vis(*navmesh, visited@, c)
                        ==> is_path(*navmesh, paths@[pidx(*navmesh, c)]@, from, c),
                    vis(*navmesh, visited@, from),
                    forall|j: int| 0 <= j < head
                        ==> nbrs_vis(*navmesh, visited@, #[trigger] queue@[j])
                            && queue@[j] != to,
                    forall|m: int| 0 <= m < k ==> vis(*navmesh, visited@, #[trigger] ns@[m]),
                    forall|k2: int| 0 <= k2 < pre_visited.len() && pre_visited[k2]
                        ==> visited@[k2],
                decreases ns@.len() - k,
            {
                let n = ns[k];
                proof {
                    assert(ns@.contains(n));
                    assert(step_ok(*navmesh, cur, n));
                    navmesh.lemma_solid_out_of_bounds(n);
                }
                let ni = cell_index(navmesh, n, total);
                if !visited[ni] {
                    let ghost old_visited = visited@;
                    let ghost old_queue = queue@;
                    visited[ni] = true;
                    let mut np = paths[ci].clone();
                    proof {
                        assert(vis(*navmesh, old_visited, cur));
                        assert(np@ == paths@[pidx(*navmesh, cur)]@);
                        assert(is_path(*navmesh, np@, from, cur));
                    }
                    np.push(n);
                    paths[ni] = np;
                    queue.push(n);
                    proof {
                        let v2 = visited@;
                        // the freshly recorded cell carries a valid route
                        let p2 = paths@[pidx(*navmesh, n)]@;
                        assert(p2[p2.len() - 1] == n);
                        assert forall|i: int| 0 <= i < p2.len() - 1
                            implies #[trigger] step_ok(*navmesh, p2[i], p2[i + 1]) by {
                            let old_p = paths@[pidx(*navmesh, cur)]@;
                            if i < p2.len() - 2 {
                                assert(step_ok(*navmesh, old_p[i], old_p[i + 1]));
                            } else {
                                assert(p2[i] == cur && p2[i + 1] == n);
                            }
                        }
                        assert(is_path(*navmesh, p2, from, n));
                        // recorded cells are exactly the old ones plus `n`
                        assert forall|c: TilePos| #[trigger] vis(*navmesh, v2, c)
                            implies queue@.contains(c) by {
                            lemma_pidx_bounds(*navmesh, c);
                            if pidx(*navmesh, c) == ni as int {
                                lemma_pidx_injective(*navmesh, c, n);
                                assert(queue@[queue@.len() - 1] == n);
                            } else {
                                assert(vis(*navmesh, old_visited, c));
                                let j = choose|j: int|
                                    0 <= j < old_queue.len() && old_queue[j] == c;
                                assert(queue@[j] == c);
                            }
                        }
                        assert forall|c: TilePos| #[trigger] vis(*navmesh, v2, c)
                            implies is_path(*navmesh, paths@[pidx(*navmesh, c)]@, from, c) by {
                            lemma_pidx_bounds(*navmesh, c);
                            if pidx(*navmesh, c) == ni as int {
                                lemma_pidx_injective(*navmesh, c, n);
                            } else {
                                assert(vis(*navmesh, old_visited, c));
                            }
                        }
                        // `n` was not yet recorded, so it is not yet queued
                        assert(queue@.no_duplicates()) by {
                            if old_queue.contains(n) {
                                let j = choose|j: int|
                                    0 <= j < old_queue.len() && old_queue[j] == n;
                                assert(vis(*navmesh, old_visited, old_queue[j]));
                                assert(false);
                            }
                        }
                        assert(queue@.len() <= total) by {
                            lemma_queue_bounded(*navmesh, queue@);
                        }
                        // monotonicity: everything recorded before stays recorded
                        assert forall|i: int| 0 <= i < queue@.len()
                            implies navmesh.spec_in_bounds(#[trigger] queue@[i])
                                && vis(*navmesh, visited@, queue@[i]) by {
                            if i < old_queue.len() {
                                assert(queue@[i] == old_queue[i]);
                                assert(vis(*navmesh, old_visited, old_queue[i]));
                                lemma_pidx_bounds(*navmesh, old_queue[i]);
                            } else {
                                assert(queue@[i] == n);
                            }
                        }
                        assert forall|m: int| 0 <= m < k + 1
                            implies vis(*navmesh, visited@, #[trigger] ns@[m]) by {
                            if m < k {
                                assert(vis(*navmesh, old_visited, ns@[m]));
                                lemma_pidx_bounds(*navmesh, ns@[m]);
                            } else {
                                assert(ns@[m] == n);
                            }
                        }
                        assert(vis(*navmesh, visited@, from)) by {
                            assert(vis(*navmesh, old_visited, from));
                            lemma_pidx_bounds(*navmesh, from);
                        }
                        assert forall|j: int| 0 <= j < head
                            implies nbrs_vis(*navmesh, visited@, #[trigger] queue@[j])
                                && queue@[j] != to by {
                            assert(queue@[j] == old_queue[j]);
                            assert(nbrs_vis(*navmesh, old_visited, old_queue[j]));
                            assert forall|b: TilePos| #[trigger] step_ok(*navmesh, queue@[j], b)
                                implies vis(*navmesh, visited@, b) by {
                                assert(vis(*navmesh, old_visited, b));
                                lemma_pidx_bounds(*navmesh, b);
                            }
                        }
                    }
                }
                k = k + 1;
            }
            proof {
                assert(nbrs_vis(*navmesh, visited@, cur)) by {
                    assert forall|b: TilePos| #[trigger] step_ok(*navmesh, cur, b)
                        implies vis(*navmesh, visited@, b) by {
                        assert(ns@.contains(b));
                        let m = choose|m: int| 0 <= m < ns@.len() && ns@[m] == b;
                        assert(vis(*navmesh, visited@, ns@[m]));
                    }
                }
            }
            head = head + 1;
        }
        proof {
            // all queued cells were processed, so the recorded set is closed
            // and does not contain the goal
            assert(!vis(*navmesh, visited@, to)) by {
                if vis(*navmesh, visited@, to) {
                    let j = choose|j: int| 0 <= j < queue@.len() && queue@[j] == to;
                    assert(queue@[j] != to);
                }
            }
            assert(vis_closed(*navmesh, visited@)) by {
                assert forall|a: TilePos, b: TilePos|
                    vis(*navmesh, visited@, a) && step_ok(*navmesh, a, b)
                    implies vis(*navmesh, visited@, b) by {
                    let j = choose|j: int| 0 <= j < queue@.len() && queue@[j] == a;
                    assert(nbrs_vis(*navmesh, visited@, queue@[j]));
                }
            }
            if reachable(*navmesh, from, to) {
                let p = choose|p: Seq<TilePos>| is_path(*navmesh, p, from, to);
                lemma_closed_reaches(*navmesh, visited@, p, from, to);
                assert(false);
            }
        }
        None
    }
}

} // verus!
