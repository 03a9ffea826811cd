//! Per-tick movement toward a world-space target: the displacement is the
//! direction to the target, normalized by its integer length and scaled by
//! the distance walked this tick. A zero-length direction gives a zero
//! displacement rather than a panic, and overshooting the target is allowed
//! by design; arrival is detected by closeness, not by clamping.

use vstd::prelude::*;
use vstd::arithmetic::div_mod::{lemma_div_is_ordered, lemma_div_multiples_vanish, lemma_div_pos_is_pos};
use crate::path::WorldPos;

verus! {

/// The integer square root: the largest `r` with `r * r <= n`.
pub open spec fn spec_isqrt(n: nat) -> nat
    decreases n,
{
    if n == 0 {
        0
    } else {
        let r = spec_isqrt((n - 1) as nat);
        if (r + 1) * (r + 1) <= n {
            r + 1
        } else {
            r
        }
    }
}

pub proof fn lemma_isqrt_bounds(n: nat)
    ensures
        spec_isqrt(n) * spec_isqrt(n) <= n,
        n < (spec_isqrt(n) + 1) * (spec_isqrt(n) + 1),
    decreases n,
{
    if n > 0 {
        lemma_isqrt_bounds((n - 1) as nat);
        let r = spec_isqrt((n - 1) as nat);
        if (r + 1) * (r + 1) <= n {
            assert(spec_isqrt(n) == r + 1);
            assert(n - 1 < (r + 1) * (r + 1));
            assert(n < (r + 2) * (r + 2)) by (nonlinear_arith)
                requires
                    n <= (r + 1) * (r + 1),
                    r >= 0,
            {}
        } else {
            assert(spec_isqrt(n) == r);
            assert(r * r <= n - 1 <= n);
        }
        assert(spec_isqrt(n) * spec_isqrt(n) <= n);
        assert(n < (spec_isqrt(n) + 1) * (spec_isqrt(n) + 1));
    } else {
        let s = spec_isqrt(n);
        assert(s == 0);
        assert(n < (s + 1) * (s + 1)) by (nonlinear_arith)
            requires
                s == 0,
                n == 0,
        {}
    }
}

pub proof fn lemma_isqrt_unique(n: nat, r: nat)
    requires
        r * r <= n,
        n < (r + 1) * (r + 1),
    ensures
        r == spec_isqrt(n),
{
    lemma_isqrt_bounds(n);
    let s = spec_isqrt(n);
    assert(r == s) by (nonlinear_arith)
        requires
            r * r <= n < (r + 1) * (r + 1),
            s * s <= n < (s + 1) * (s + 1),
            r >= 0,
            s >= 0,
    {}
}

/// The integer square root, by counting up.
pub fn isqrt(n: u64) -> (r: u64)
    requires
        n <= 0x7000_0000_0000_0000,
    ensures
        r as nat == spec_isqrt(n as nat),
        r * r <= n,
        n < (r + 1) * (r + 1),
{
    let mut r: u64 = 0;
    loop
        invariant
            r * r <= n,
            n <= 0x7000_0000_0000_0000,
        ensures
            r * r <= n < (r + 1) * (r + 1),
        decreases n - r * r,
    {
        proof {
            assert(r < 3_000_000_000) by (nonlinear_arith)
                requires
                    r * r <= n,
                    n <= 0x7000_0000_0000_0000,
            {}
            assert((r + 1) * (r + 1) <= u64::MAX) by (nonlinear_arith)
                requires
                    r < 3_000_000_000,
            {}
        }
        let next = (r + 1) * (r + 1);
        if next <= n {
            proof {
                assert(r * r < (r + 1) * (r + 1)) by (nonlinear_arith)
                    requires
                        r >= 0,
                {}
            }
            r = r + 1;
        } else {
            break;
        }
    }
    proof {
        lemma_isqrt_unique(n as nat, r as nat);
    }
    r
}

/// One axis of the displacement: `d * step / len`, with the division taken
/// on magnitudes so that rounding is toward zero on both axes.
pub open spec fn spec_axis_step(d: int, step: int, len: int) -> int {
    if d >= 0 {
        d * step / len
    } else {
        -((-d) * step / len)
    }
}

/// The displacement of one tick: the vector to the target, scaled by
/// `step / length`; zero when the target coincides with the position.
pub open spec fn spec_displacement(pos: WorldPos, target: WorldPos, step: int) -> WorldPos {
    let dx = target.x - pos.x;
    let dy = target.y - pos.y;
    let len = spec_isqrt((dx * dx + dy * dy) as nat) as int;
    if len == 0 {
        WorldPos { x: 0, y: 0 }
    } else {
        WorldPos { x: spec_axis_step(dx, step, len) as i64, y: spec_axis_step(dy, step, len) as i64 }
    }
}

proof fn lemma_axis_bound(d: int, step: int, len: int)
    requires
        0 <= d <= len,
        0 < len,
        0 <= step,
    ensures
        0 <= d * step / len <= step,
{
    assert(d * step <= len * step) by (nonlinear_arith)
        requires
            0 <= d <= len,
            0 <= step,
    {}
    lemma_div_pos_is_pos(d * step, len);
    lemma_div_is_ordered(d * step, len * step, len);
    lemma_div_multiples_vanish(step, len);
}

/// Compute this tick's displacement of an agent at `pos` steering for
/// `target` that walks `step` world units.
pub fn displacement(pos: WorldPos, target: WorldPos, step: i64) -> (r: WorldPos)
    requires
        0 <= step <= 1000,
        -1_000_000_000 <= pos.x <= 1_000_000_000,
        -1_000_000_000 <= pos.y <= 1_000_000_000,
        -1_000_000_000 <= target.x <= 1_000_000_000,
        -1_000_000_000 <= target.y <= 1_000_000_000,
    ensures
        r == spec_displacement(pos, target, step as int),
        target.x >= pos.x ==> 0 <= r.x <= step,
        target.x < pos.x ==> -step <= r.x <= 0,
        target.y >= pos.y ==> 0 <= r.y <= step,
        target.y < pos.y ==> -step <= r.y <= 0,
{
    let dx = target.x - pos.x;
    let dy = target.y - pos.y;
    proof {
        assert(dx * dx <= 4_000_000_000_000_000_000 && dy * dy <= 4_000_000_000_000_000_000
            && dx * dx >= 0 && dy * dy >= 0) by (nonlinear_arith)
            requires
                -2_000_000_000 <= dx <= 2_000_000_000,
                -2_000_000_000 <= dy <= 2_000_000_000,
        {}
    }
    let dist2 = (dx * dx) as u64 + (dy * dy) as u64;
    let len = isqrt(dist2);
    if len == 0 {
        return WorldPos { x: 0, y: 0 };
    }
    proof {
        assert(dx * dx <= dist2 && dy * dy <= dist2);
        assert((dist2 as int) < (len + 1) * (len + 1));
        assert(-(len as int) <= dx <= len as int && -(len as int) <= dy <= len as int)
            by (nonlinear_arith)
            requires
                dx * dx <= dist2,
                dy * dy <= dist2,
                (dist2 as int) < (len + 1) * (len + 1),
                len >= 0,
        {}
        if dx >= 0 {
            lemma_axis_bound(dx as int, step as int, len as int);
        } else {
            lemma_axis_bound(-(dx as int), step as int, len as int);
        }
        if dy >= 0 {
            lemma_axis_bound(dy as int, step as int, len as int);
        } else {
            lemma_axis_bound(-(dy as int), step as int, len as int);
        }
    }
    let axu: u64 = if dx >= 0 { dx as u64 } else { (-dx) as u64 };
    let ayu: u64 = if dy >= 0 { dy as u64 } else { (-dy) as u64 };
    proof {
        assert(axu * (step as u64) <= 2_000_000_000 * 1000
            && ayu * (step as u64) <= 2_000_000_000 * 1000) by (nonlinear_arith)
            requires
                axu <= 2_000_000_000,
                ayu <= 2_000_000_000,
                0 <= step <= 1000,
        {}
    }
    let qx = (axu * (step as u64)) / len;
    let qy = (ayu * (step as u64)) / len;
    let sx: i64 = if dx >= 0 { qx as i64 } else { -(qx as i64) };
    let sy: i64 = if dy >= 0 { qy as i64 } else { -(qy as i64) };
    WorldPos { x: sx, y: sy }
}

} // verus!
