//! The brush: a square of new particles around the pointer.

use vstd::prelude::*;
use vstd::arithmetic::div_mod::lemma_multiply_divide_lt;
use crate::grid::{coherent, inserted, population, Grid};
use crate::particle::Particle;
use crate::units::UNIT;
use crate::world::World;

verus! {

/// How many cells the brush reaches from the pointer, on each side.
pub const REACH: i64 = 2;

/// The number of rolls that a stroke may use: two for each cell of the
/// largest square.
pub const ROLLS: usize = 50;

/// The part of a cell, in steps, that a roll stands for: the roll as a
/// fraction of the range of `u32`, so at least zero and less than one cell.
pub open spec fn jitter(roll: u32) -> int {
    (roll as int * UNIT as int) / 0x1_0000_0000
}

/// The first cell of the brush along an axis with the pointer at `m`.
pub open spec fn first_cell(m: int) -> int {
    if m - REACH < 0 {
        0
    } else {
        m - REACH
    }
}

/// The last cell of the brush along an axis of `n` cells.
pub open spec fn last_cell(m: int, n: int) -> int {
    if m + REACH > n - 1 {
        n - 1
    } else {
        m + REACH
    }
}

/// The number of cells of the brush along an axis of `n` cells.
pub open spec fn span(m: int, n: int) -> int {
    if last_cell(m, n) < first_cell(m) {
        0
    } else {
        last_cell(m, n) - first_cell(m) + 1
    }
}

/// The number of particles of a stroke at `(mx, my)` in a world of `w` by
/// `h` cells: one for each cell of the square that lies in the world.
pub open spec fn brush_count(mx: int, my: int, w: int, h: int) -> int {
    span(mx, w) * span(my, h)
}

/// The `n`-th particle of a stroke, column by column: at rest in its cell of
/// the square, off the cell's corner by the jitter of its two rolls.
pub open spec fn brush_particle(
    n: int,
    mx: int,
    my: int,
    h: int,
    rolls: Seq<u32>,
    color: (u8, u8, u8),
) -> Particle {
    let x = (first_cell(mx) + n / span(my, h)) * UNIT + jitter(rolls[2 * n]);
    let y = (first_cell(my) + n % span(my, h)) * UNIT + jitter(rolls[2 * n + 1]);
    Particle { x: x as i64, y: y as i64, px: x as i64, py: y as i64, ax: 0, ay: 0, color }
}

/// The grid with the first `n` particles of a stroke inserted.
pub open spec fn brushed(
    g: Grid,
    mx: int,
    my: int,
    rolls: Seq<u32>,
    color: (u8, u8, u8),
    n: nat,
) -> Grid
    decreases n,
{
    if n == 0 {
        g
    } else {
        inserted(
            brushed(g, mx, my, rolls, color, (n - 1) as nat),
            brush_particle(n - 1, mx, my, g[0].len() as int, rolls, color),
        )
    }
}

/// The grid after a whole stroke.
pub open spec fn stroked(g: Grid, mx: int, my: int, rolls: Seq<u32>, color: (u8, u8, u8)) -> Grid {
    brushed(g, mx, my, rolls, color, brush_count(mx, my, g.len() as int, g[0].len() as int) as nat)
}

/// The jitter of a roll.
pub fn jitter_of(roll: u32) -> (j: i64)
    ensures
        j == jitter(roll),
        0 <= j < UNIT,
{
    let j: u64 = (roll as u64 * 1_000_000_000) / 0x1_0000_0000;
    j as i64
}

/// The first cell and the number of cells of the brush along an axis of `n`
/// cells.
pub fn reach_of(m: i32, n: usize) -> (r: (i64, i64))
    requires
        n >= 1,
    ensures
        r.0 == first_cell(m as int),
        r.1 == span(m as int, n as int),
        0 <= r.0,
        0 <= r.1 <= 5,
        r.1 > 0 ==> r.0 + r.1 - 1 <= m + REACH,
{
    let first: i64 = if (m as i64) - REACH < 0 {
        0
    } else {
        (m as i64) - REACH
    };
    let last: i128 = if (m as i128) + (REACH as i128) > (n as i128) - 1 {
        (n as i128) - 1
    } else {
        (m as i128) + (REACH as i128)
    };
    if last < first as i128 {
        (first, 0)
    } else {
        (first, (last - first as i128 + 1) as i64)
    }
}

/// Inserts one particle for each cell of the square of five by five cells
/// around `(mx, my)` that lies in the world, each at rest, in the given
/// colour, and off its cell's corner by the jitter of two rolls.
pub fn brush(world: &mut World, mx: i32, my: i32, rolls: &[u32; 50], color: (u8, u8, u8))
    requires
        old(world).wf(),
    ensures
        final(world).wf(),
        final(world).spec_width() == old(world).spec_width(),
        final(world).spec_height() == old(world).spec_height(),
        final(world)@ == stroked(old(world)@, mx as int, my as int, rolls@, color),
        coherent(old(world)@) ==> coherent(final(world)@),
        population(final(world)@) == population(old(world)@) + brush_count(
            mx as int,
            my as int,
            old(world).spec_width(),
            old(world).spec_height(),
        ),
{
    let ghost g = world@;
    let (x0, cols) = reach_of(mx, world.width());
    let (y0, rows) = reach_of(my, world.height());
    assert(0 <= cols * rows <= 25) by (nonlinear_arith)
        requires
            0 <= cols <= 5,
            0 <= rows <= 5,
    ;
    let count: i64 = cols * rows;
    assert(g.len() == world.spec_width());
    assert(g[0].len() == world.spec_height());
    let mut n: i64 = 0;
    while n < count
        invariant
            0 <= n <= count,
            count == cols * rows,
            count <= 25,
            0 <= cols <= 5,
            0 <= rows <= 5,
            x0 == first_cell(mx as int),
            y0 == first_cell(my as int),
            cols == span(mx as int, g.len() as int),
            rows == span(my as int, g[0].len() as int),
            cols > 0 ==> x0 + cols - 1 <= mx + REACH,
            rows > 0 ==> y0 + rows - 1 <= my + REACH,
            0 <= x0,
            0 <= y0,
            world.wf(),
            world.spec_width() == old(world).spec_width(),
            world.spec_height() == old(world).spec_height(),
            world@ == brushed(g, mx as int, my as int, rolls@, color, n as nat),
            coherent(g) ==> coherent(world@),
            population(world@) == population(g) + n,
        decreases count - n,
    {
        assert(rows > 0 && cols > 0) by (nonlinear_arith)
            requires
                0 <= n < cols * rows,
                0 <= cols,
                0 <= rows,
        ;
        proof {
            lemma_multiply_divide_lt(n as int, rows as int, cols as int);
        }
        let x: i64 = x0 + n / rows;
        let y: i64 = y0 + n % rows;
        let jx: i64 = jitter_of(rolls[(2 * n) as usize]);
        let jy: i64 = jitter_of(rolls[(2 * n + 1) as usize]);
        let p: Particle = Particle::new(x * UNIT + jx, y * UNIT + jy, 0, 0, color);
        assert(p == brush_particle(n as int, mx as int, my as int, g[0].len() as int, rolls@, color));
        world.add_particle(p);
        n += 1;
    }
}

} // verus!
