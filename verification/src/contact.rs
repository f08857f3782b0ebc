//! Contact between two particles, and the resolution of every pair of a bag.
//!
//! Particles have radius one half. Two whose centres are closer than the
//! trigger distance are moved apart along the line through their centres,
//! each by three sixteenths of what is missing: half the shortfall, damped by
//! the response coefficient of three quarters, shared equally.

use vstd::prelude::*;
use crate::particle::Particle;
use crate::units::{
    clip, floor_sqrt, is_floor_sqrt, isqrt, lemma_floor_sqrt, lemma_floor_sqrt_is, saturate, UNIT,
};

verus! {

/// The square of the trigger distance: 1.2 square units, in square steps.
pub const MIN_DIST_SQ: i64 = 1_200_000_000_000_000_000;

/// The trigger distance, in steps: the whole part of the root of `MIN_DIST_SQ`.
pub const MIN_DIST: i64 = 1_095_445_115;

/// `MIN_DIST` is what its name says.
pub proof fn lemma_min_dist()
    ensures
        is_floor_sqrt(MIN_DIST_SQ as int, MIN_DIST as int),
        floor_sqrt(MIN_DIST_SQ as int) == MIN_DIST,
{
    assert(is_floor_sqrt(MIN_DIST_SQ as int, MIN_DIST as int)) by (nonlinear_arith);
    lemma_floor_sqrt_is(MIN_DIST_SQ as int, MIN_DIST as int);
}

/// The square of the distance between two particles.
pub open spec fn gap_sq(a: Particle, b: Particle) -> int {
    (a.x - b.x) * (a.x - b.x) + (a.y - b.y) * (a.y - b.y)
}

/// Whether two particles are closer than the trigger distance.
pub open spec fn overlapping(a: Particle, b: Particle) -> bool {
    gap_sq(a, b) < MIN_DIST_SQ
}

/// How far a particle is moved along one axis, when the other particle lies
/// `delta` away on that axis and `dist` away in all: three sixteenths of the
/// shortfall, times the share of this axis in the direction, rounded towards
/// zero and signed like `delta`.
pub open spec fn shift(delta: int, dist: int) -> int {
    if delta < 0 {
        -((3 * (-delta) * (MIN_DIST - dist)) / (16 * dist))
    } else {
        (3 * delta * (MIN_DIST - dist)) / (16 * dist)
    }
}

/// The two particles after their contact is resolved. Only positions change.
/// Two particles at the very same place have no direction to part in and are
/// left alone.
pub open spec fn pushed_apart(a: Particle, b: Particle) -> (Particle, Particle) {
    let d = floor_sqrt(gap_sq(a, b));
    if overlapping(a, b) && d > 0 {
        let sx = shift(a.x - b.x, d);
        let sy = shift(a.y - b.y, d);
        (
            Particle { x: clip(a.x + sx), y: clip(a.y + sy), ..a },
            Particle { x: clip(b.x - sx), y: clip(b.y - sy), ..b },
        )
    } else {
        (a, b)
    }
}

/// The bag with the pair at `i` and `k` resolved.
pub open spec fn resolve_at(s: Seq<Particle>, i: int, k: int) -> Seq<Particle> {
    let (a, b) = pushed_apart(s[i], s[k]);
    s.update(i, a).update(k, b)
}

/// The bag after the pairs `(i, k)`, `(i, k + 1)`, ... and then all pairs that
/// begin after `i` are resolved, one after the other, each on what the
/// earlier ones left.
pub open spec fn resolve_from(s: Seq<Particle>, i: int, k: int) -> Seq<Particle>
    decreases s.len() - i, s.len() - k,
{
    if !(0 <= i < k) || i + 1 >= s.len() {
        s
    } else if k >= s.len() {
        resolve_from(s, i + 1, i + 2)
    } else {
        resolve_from(resolve_at(s, i, k), i, k + 1)
    }
}

/// The bag after every pair is resolved, in the order `(0, 1)`, `(0, 2)`, ...,
/// `(1, 2)`, ...
pub open spec fn resolved(s: Seq<Particle>) -> Seq<Particle> {
    resolve_from(s, 0, 1)
}

/// Whether `q` is `p` at another place: all but the position is the same.
pub open spec fn displaced(p: Particle, q: Particle) -> bool {
    &&& q.px == p.px
    &&& q.py == p.py
    &&& q.ax == p.ax
    &&& q.ay == p.ay
    &&& q.color == p.color
}

/// Whether the bag `r` holds the particles of `s`, each at its index, at
/// another place.
pub open spec fn bag_displaced(s: Seq<Particle>, r: Seq<Particle>) -> bool {
    &&& s.len() == r.len()
    &&& forall|t: int| 0 <= t < s.len() ==> displaced(s[t], #[trigger] r[t])
}

/// Resolving only moves particles: each keeps its index, its remembered
/// position, its acceleration and its colour.
pub proof fn lemma_resolve_from_displaced(s: Seq<Particle>, i: int, k: int)
    ensures
        bag_displaced(s, resolve_from(s, i, k)),
    decreases s.len() - i, s.len() - k,
{
    if !(0 <= i < k) || i + 1 >= s.len() {
    } else if k >= s.len() {
        lemma_resolve_from_displaced(s, i + 1, i + 2);
    } else {
        let r = resolve_at(s, i, k);
        lemma_resolve_from_displaced(r, i, k + 1);
        let e = resolve_from(r, i, k + 1);
        assert forall|t: int| 0 <= t < s.len() implies displaced(s[t], #[trigger] e[t]) by {
            assert(displaced(s[t], r[t]));
            assert(displaced(r[t], e[t]));
        }
    }
}

/// Resolving keeps the number of particles.
pub proof fn lemma_resolve_from_len(s: Seq<Particle>, i: int, k: int)
    ensures
        resolve_from(s, i, k).len() == s.len(),
    decreases s.len() - i, s.len() - k,
{
    if !(0 <= i < k) || i + 1 >= s.len() {
    } else if k >= s.len() {
        lemma_resolve_from_len(s, i + 1, i + 2);
    } else {
        lemma_resolve_from_len(resolve_at(s, i, k), i, k + 1);
    }
}

/// A resolved contact never leaves the pair closer than it was.
pub proof fn lemma_pushed_apart_gap(a: Particle, b: Particle)
    ensures
        gap_sq(pushed_apart(a, b).0, pushed_apart(a, b).1) >= gap_sq(a, b),
{
    let d = floor_sqrt(gap_sq(a, b));
    if overlapping(a, b) && d > 0 {
        lemma_gap_sq(a, b);
        lemma_overlap_dist(gap_sq(a, b), d);
        let (p, q) = pushed_apart(a, b);
        lemma_axis_apart(a.x as int, b.x as int, d);
        lemma_axis_apart(a.y as int, b.y as int, d);
        lemma_square_grows(a.x - b.x, p.x - q.x);
        lemma_square_grows(a.y - b.y, p.y - q.y);
    }
}

/// A squared distance is not negative.
pub proof fn lemma_gap_sq(a: Particle, b: Particle)
    ensures
        gap_sq(a, b) >= 0,
{
    assert(gap_sq(a, b) >= 0) by (nonlinear_arith)
        requires
            gap_sq(a, b) == (a.x - b.x) * (a.x - b.x) + (a.y - b.y) * (a.y - b.y),
    ;
}

/// The distance of an overlapping pair is at most the trigger distance.
proof fn lemma_overlap_dist(n: int, d: int)
    requires
        n < MIN_DIST_SQ,
        d == floor_sqrt(n),
        n >= 0,
    ensures
        0 <= d <= MIN_DIST,
        d * d <= n,
{
    lemma_min_dist();
    lemma_floor_sqrt(n);
    if d > MIN_DIST {
        assert(d * d >= (MIN_DIST + 1) * (MIN_DIST + 1)) by (nonlinear_arith)
            requires
                d >= MIN_DIST + 1,
        ;
    }
}

/// Along one axis the shifted positions are at least as far apart, on the
/// same side, as before.
proof fn lemma_axis_apart(u: int, v: int, d: int)
    requires
        i64::MIN <= u <= i64::MAX,
        i64::MIN <= v <= i64::MAX,
        0 < d <= MIN_DIST,
    ensures
        u - v >= 0 ==> clip(u + shift(u - v, d)) - clip(v - shift(u - v, d)) >= u - v,
        u - v < 0 ==> clip(u + shift(u - v, d)) - clip(v - shift(u - v, d)) <= u - v,
{
    let delta = u - v;
    if delta >= 0 {
        assert((3 * delta * (MIN_DIST - d)) / (16 * d) >= 0) by (nonlinear_arith)
            requires
                delta >= 0,
                0 < d <= MIN_DIST,
        ;
    } else {
        assert((3 * (-delta) * (MIN_DIST - d)) / (16 * d) >= 0) by (nonlinear_arith)
            requires
                delta < 0,
                0 < d <= MIN_DIST,
        ;
    }
}

proof fn lemma_square_grows(e: int, f: int)
    requires
        (e >= 0 && f >= e) || (e < 0 && f <= e),
    ensures
        f * f >= e * e,
{
    assert(f * f >= e * e) by (nonlinear_arith)
        requires
            (e >= 0 && f >= e) || (e < 0 && f <= e),
    ;
}

/// Particles two units or more apart on an axis do not overlap.
proof fn lemma_far_apart(dx: int, dy: int)
    requires
        dx >= 2 * UNIT || dx <= -2 * UNIT || dy >= 2 * UNIT || dy <= -2 * UNIT,
    ensures
        dx * dx + dy * dy >= MIN_DIST_SQ,
{
    assert(dx * dx + dy * dy >= 4 * UNIT * UNIT) by (nonlinear_arith)
        requires
            dx >= 2 * UNIT || dx <= -2 * UNIT || dy >= 2 * UNIT || dy <= -2 * UNIT,
    ;
}

/// The shift along one axis.
fn shift_by(delta: i128, dist: i128) -> (s: i128)
    requires
        -2 * UNIT < delta < 2 * UNIT,
        0 < dist <= MIN_DIST,
    ensures
        s == shift(delta as int, dist as int),
        -8 * UNIT * UNIT <= s <= 8 * UNIT * UNIT,
{
    let lack: i128 = MIN_DIST as i128 - dist;
    let size: i128 = if delta < 0 {
        -delta
    } else {
        delta
    };
    assert(0 <= 3 * size * lack <= 8 * UNIT * UNIT) by (nonlinear_arith)
        requires
            0 <= size < 2 * UNIT,
            0 <= lack < MIN_DIST,
    ;
    let moved: i128 = (3 * size * lack) / (16 * dist);
    assert(0 <= moved <= 3 * size * lack) by (nonlinear_arith)
        requires
            moved == (3 * size * lack) / (16 * dist),
            0 <= 3 * size * lack,
            0 < dist,
    ;
    if delta < 0 {
        -moved
    } else {
        moved
    }
}

/// Resolves the contact of two particles.
pub fn push_apart(a: Particle, b: Particle) -> (r: (Particle, Particle))
    ensures
        r == pushed_apart(a, b),
        gap_sq(r.0, r.1) >= gap_sq(a, b),
{
    proof {
        lemma_pushed_apart_gap(a, b);
    }
    let dx: i128 = a.x as i128 - b.x as i128;
    let dy: i128 = a.y as i128 - b.y as i128;
    let reach: i128 = 2 * (UNIT as i128);
    if dx >= reach || dx <= -reach || dy >= reach || dy <= -reach {
        proof {
            lemma_far_apart(dx as int, dy as int);
        }
        return (a, b);
    }
    assert(0 <= dx * dx < 4 * UNIT * UNIT) by (nonlinear_arith)
        requires
            -2 * UNIT < dx < 2 * UNIT,
    ;
    assert(0 <= dy * dy < 4 * UNIT * UNIT) by (nonlinear_arith)
        requires
            -2 * UNIT < dy < 2 * UNIT,
    ;
    let dsq: i128 = dx * dx + dy * dy;
    if dsq >= MIN_DIST_SQ as i128 {
        return (a, b);
    }
    let d: i128 = isqrt(dsq as u64) as i128;
    if d == 0 {
        return (a, b);
    }
    proof {
        lemma_overlap_dist(dsq as int, d as int);
    }
    let sx: i128 = shift_by(dx, d);
    let sy: i128 = shift_by(dy, d);
    (
        Particle {
            x: saturate(a.x as i128 + sx),
            y: saturate(a.y as i128 + sy),
            px: a.px,
            py: a.py,
            ax: a.ax,
            ay: a.ay,
            color: a.color,
        },
        Particle {
            x: saturate(b.x as i128 - sx),
            y: saturate(b.y as i128 - sy),
            px: b.px,
            py: b.py,
            ax: b.ax,
            ay: b.ay,
            color: b.color,
        },
    )
}

/// Resolves every pair of the bag, in order, each on what the earlier ones
/// left.
pub fn resolve(bag: &mut Vec<Particle>)
    ensures
        final(bag)@ == resolved(old(bag)@),
        final(bag).len() == old(bag).len(),
{
    let n: usize = bag.len();
    if n < 2 {
        return;
    }
    let mut i: usize = 0;
    let mut k: usize = 1;
    while i + 1 < n
        invariant
            bag.len() == n,
            n >= 2,
            i < k <= n,
            resolve_from(bag@, i as int, k as int) == resolved(old(bag)@),
        decreases n - i, n - k,
    {
        if k >= n {
            i += 1;
            k = i + 1;
        } else {
            let (a, b) = push_apart(bag[i], bag[k]);
            bag[i] = a;
            bag[k] = b;
            k += 1;
        }
    }
}

} // verus!
