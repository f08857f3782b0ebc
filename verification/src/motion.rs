//! What a sub-step does to one particle on its own: the force that it
//! gathers, the walls that hold it, and the Verlet step that moves it.

use vstd::prelude::*;
use crate::particle::Particle;
use crate::units::{clip, floor_div, saturate, UNIT};

verus! {

/// Gravity along x, in steps per square time unit.
pub const GRAVITY_X: i64 = 0;

/// Gravity along y: 9.81 times 5 units per square time unit, pointing down.
pub const GRAVITY_Y: i64 = 49_050_000_000;

/// The number of sub-steps in a tick.
pub const SUB_STEPS: u32 = 10;

/// Microseconds of frame time in one time unit of a sub-step: a frame of
/// `m` microseconds gives each of its ten sub-steps `m / 100000 / 10` time
/// units.
pub const STEP_DIVISOR: i64 = 1_000_000;

/// The particle with gravity added to what it has gathered.
pub open spec fn accelerated(p: Particle) -> Particle {
    Particle { ax: clip(p.ax + GRAVITY_X), ay: clip(p.ay + GRAVITY_Y), ..p }
}

/// The coordinate `x`, held between zero and the last cell's near edge on an
/// axis of `n` cells.
pub open spec fn held(x: i64, n: int) -> i64 {
    if x < 0 {
        0
    } else if x > (n - 1) * UNIT {
        ((n - 1) * UNIT) as i64
    } else {
        x
    }
}

/// The particle, held inside a world of `w` by `h` cells. Its previous
/// position stays, so a particle that hits a wall loses speed there.
pub open spec fn bounded(p: Particle, w: int, h: int) -> Particle {
    Particle { x: held(p.x, w), y: held(p.y, h), ..p }
}

/// Whether the particle lies inside a world of `w` by `h` cells.
pub open spec fn contained(p: Particle, w: int, h: int) -> bool {
    &&& 0 <= p.x <= (w - 1) * UNIT
    &&& 0 <= p.y <= (h - 1) * UNIT
}

/// Whether the particle has let go of its acceleration and remembers a
/// previous position inside a world of `w` by `h` cells.
pub open spec fn calm(p: Particle, w: int, h: int) -> bool {
    &&& p.ax == 0
    &&& p.ay == 0
    &&& 0 <= p.px <= (w - 1) * UNIT
    &&& 0 <= p.py <= (h - 1) * UNIT
}

/// The frame time that a tick works with: at least one microsecond.
pub open spec fn frame_time(micros: int) -> int {
    if micros < 1 {
        1
    } else {
        micros
    }
}

/// The distance, in steps, that the acceleration `a` adds in one sub-step of
/// a frame of `micros` microseconds: `a` times the square of the sub-step's
/// time, rounded down.
pub open spec fn drift(a: int, micros: int) -> int {
    (a * frame_time(micros) * frame_time(micros)) / (STEP_DIVISOR * STEP_DIVISOR)
}

/// The particle after one Verlet step: it keeps going as far as it came
/// since the previous step, plus what its acceleration adds, and lets go of
/// the acceleration.
pub open spec fn moved(p: Particle, micros: int) -> Particle {
    Particle {
        x: clip(p.x + (p.x - p.px) + drift(p.ax as int, micros)),
        y: clip(p.y + (p.y - p.py) + drift(p.ay as int, micros)),
        px: p.x,
        py: p.y,
        ax: 0,
        ay: 0,
        color: p.color,
    }
}

/// Whether the position of the particle, rounded down, is the cell `(i, j)`.
pub open spec fn at_home(p: Particle, i: int, j: int) -> bool {
    p.x as int / (UNIT as int) == i && p.y as int / (UNIT as int) == j
}

/// Adds gravity to what the particle has gathered.
pub fn accelerate(p: Particle) -> (q: Particle)
    ensures
        q == accelerated(p),
{
    Particle {
        x: p.x,
        y: p.y,
        px: p.px,
        py: p.py,
        ax: saturate(p.ax as i128 + GRAVITY_X as i128),
        ay: saturate(p.ay as i128 + GRAVITY_Y as i128),
        color: p.color,
    }
}

/// Holds a coordinate inside an axis of `n` cells.
pub fn hold(x: i64, n: usize) -> (r: i64)
    ensures
        r == held(x, n as int),
{
    let top: i128 = (n as i128 - 1) * (UNIT as i128);
    if x < 0 {
        0
    } else if x as i128 > top {
        top as i64
    } else {
        x
    }
}

/// Holds the particle inside a world of `w` by `h` cells.
pub fn bound(p: Particle, w: usize, h: usize) -> (q: Particle)
    ensures
        q == bounded(p, w as int, h as int),
{
    Particle { x: hold(p.x, w), y: hold(p.y, h), px: p.px, py: p.py, ax: p.ax, ay: p.ay, color: p.color }
}

/// The distance that an acceleration adds in one sub-step.
pub fn drift_of(a: i64, micros: u32) -> (d: i128)
    ensures
        d == drift(a as int, micros as int),
        -0x4000_0000_0000_0000_0000_0000_0000_0000 <= d <= 0x4000_0000_0000_0000_0000_0000_0000_0000,
{
    let m: i128 = if micros < 1 {
        1
    } else {
        micros as i128
    };
    assert(0 < m * m <= 0xffff_ffff * 0xffff_ffff) by (nonlinear_arith)
        requires
            1 <= m <= 0xffff_ffff,
    ;
    let mm: i128 = m * m;
    assert(-0x8000_0000_0000_0000 * (0xffff_ffff * 0xffff_ffff) <= a * mm <= 0x8000_0000_0000_0000 * (
    0xffff_ffff * 0xffff_ffff)) by (nonlinear_arith)
        requires
            -0x8000_0000_0000_0000 <= a <= 0x8000_0000_0000_0000,
            0 < mm <= 0xffff_ffff * 0xffff_ffff,
    ;
    let n: i128 = (a as i128) * mm;
    assert(n == a * frame_time(micros as int) * frame_time(micros as int)) by (nonlinear_arith)
        requires
            n == a * mm,
            mm == m * m,
            m == frame_time(micros as int),
    ;
    let scale: i128 = 1_000_000_000_000;
    assert(scale == STEP_DIVISOR * STEP_DIVISOR) by (nonlinear_arith)
        requires
            scale == 1_000_000_000_000,
            STEP_DIVISOR == 1_000_000,
    ;
    let d: i128 = floor_div(n, scale);
    assert(-0x4000_0000_0000_0000_0000_0000_0000_0000 <= d <= 0x4000_0000_0000_0000_0000_0000_0000_0000)
        by (nonlinear_arith)
        requires
            d == n / scale,
            scale == 1_000_000_000_000,
            -0x8000_0000_0000_0000 * (0xffff_ffff * 0xffff_ffff) <= n <= 0x8000_0000_0000_0000 * (
            0xffff_ffff * 0xffff_ffff),
    ;
    d
}

/// One Verlet step of a particle.
pub fn advance(p: Particle, micros: u32) -> (q: Particle)
    ensures
        q == moved(p, micros as int),
{
    let dx: i128 = p.x as i128 - p.px as i128;
    let dy: i128 = p.y as i128 - p.py as i128;
    Particle {
        x: saturate(p.x as i128 + dx + drift_of(p.ax, micros)),
        y: saturate(p.y as i128 + dy + drift_of(p.ay, micros)),
        px: p.x,
        py: p.y,
        ax: 0,
        ay: 0,
        color: p.color,
    }
}

/// Whether the particle's position, rounded down, is the cell `(i, j)`.
pub fn is_home(p: Particle, i: usize, j: usize) -> (r: bool)
    ensures
        r == at_home(p, i as int, j as int),
{
    p.x >= 0 && p.y >= 0 && (p.x / UNIT) as u128 == i as u128 && (p.y / UNIT) as u128 == j as u128
}

} // verus!
