//! The mathematical model of the world: a sequence of columns, each a sequence
//! of cells, each a sequence of particles in the order in which they were put
//! there.

use vstd::prelude::*;
use crate::particle::Particle;
use crate::units::{clamp, UNIT};

verus! {

pub type Column = Seq<Seq<Particle>>;

pub type Grid = Seq<Column>;

/// What a column of cells holds.
pub open spec fn column_view(col: Vec<Vec<Particle>>) -> Column {
    Seq::new(col.len() as nat, |j: int| col[j]@)
}

/// What a grid of cells holds.
pub open spec fn grid_view(cells: Vec<Vec<Vec<Particle>>>) -> Grid {
    Seq::new(cells.len() as nat, |i: int| column_view(cells[i]))
}

/// `g` has `w` columns of `h` cells each.
pub open spec fn rect(g: Grid, w: int, h: int) -> bool {
    &&& g.len() == w
    &&& forall|i: int| 0 <= i < w ==> (#[trigger] g[i]).len() == h
}

/// The vectors behind a rectangular grid have its lengths.
pub proof fn lemma_rect_cells(cells: Vec<Vec<Vec<Particle>>>, w: int, h: int)
    requires
        rect(grid_view(cells), w, h),
    ensures
        cells.len() == w,
        forall|i: int| 0 <= i < w ==> (#[trigger] cells[i]).len() == h,
{
    assert forall|i: int| 0 <= i < w implies (#[trigger] cells[i]).len() == h by {
        assert(grid_view(cells)[i].len() == h);
    }
}

/// Two grids with the same number of particles in every cell.
pub open spec fn same_shape(g: Grid, f: Grid) -> bool {
    &&& g.len() == f.len()
    &&& forall|i: int| 0 <= i < g.len() ==> (#[trigger] g[i]).len() == f[i].len()
    &&& forall|i: int, j: int|
        0 <= i < g.len() && 0 <= j < g[i].len() ==> (#[trigger] g[i][j]).len() == f[i][j].len()
}

/// The cell, along one axis of `n` cells, that the coordinate `x` falls into:
/// its whole part, held to `0 ..= n - 1`.
pub open spec fn cell_index(x: int, n: int) -> int {
    clamp(x / (UNIT as int), 0, n - 1)
}

/// Every particle lies in the cell that its position names.
pub open spec fn coherent(g: Grid) -> bool {
    forall|i: int, j: int, k: int|
        0 <= i < g.len() && 0 <= j < g[i].len() && 0 <= k < g[i][j].len() ==> {
            &&& cell_index((#[trigger] g[i][j][k]).x as int, g.len() as int) == i
            &&& cell_index(g[i][j][k].y as int, g[i].len() as int) == j
        }
}

/// `g` with the cell `(i, j)` replaced by `s`.
pub open spec fn put(g: Grid, i: int, j: int, s: Seq<Particle>) -> Grid {
    g.update(i, g[i].update(j, s))
}

/// `g` with `p` added at the end of the cell that its position names.
pub open spec fn inserted(g: Grid, p: Particle) -> Grid {
    let i = cell_index(p.x as int, g.len() as int);
    let j = cell_index(p.y as int, g[i].len() as int);
    put(g, i, j, g[i][j].push(p))
}

/// The number of particles in the first `n` cells of a column.
pub open spec fn column_count(col: Column, n: nat) -> nat
    decreases n,
{
    if n == 0 {
        0
    } else {
        column_count(col, (n - 1) as nat) + col[n - 1].len()
    }
}

/// The number of particles in the first `n` columns of a grid.
pub open spec fn grid_count(g: Grid, n: nat) -> nat
    decreases n,
{
    if n == 0 {
        0
    } else {
        grid_count(g, (n - 1) as nat) + column_count(g[n - 1], g[n - 1].len())
    }
}

/// The number of particles in the grid.
pub open spec fn population(g: Grid) -> nat {
    grid_count(g, g.len())
}

/// A column of empty cells holds no particle.
pub proof fn lemma_empty_column(col: Column, n: nat)
    requires
        n <= col.len(),
        forall|j: int| 0 <= j < col.len() ==> (#[trigger] col[j]).len() == 0,
    ensures
        column_count(col, n) == 0,
    decreases n,
{
    if n > 0 {
        lemma_empty_column(col, (n - 1) as nat);
    }
}

/// A grid of empty cells holds no particle.
pub proof fn lemma_empty_population(g: Grid, n: nat)
    requires
        n <= g.len(),
        forall|i: int, j: int| 0 <= i < g.len() && 0 <= j < g[i].len() ==> (#[trigger] g[i][j]).len() == 0,
    ensures
        grid_count(g, n) == 0,
    decreases n,
{
    if n > 0 {
        lemma_empty_population(g, (n - 1) as nat);
        lemma_empty_column(g[n - 1], g[n - 1].len());
    }
}

/// The particles of the first `n` cells of a column, cell after cell.
pub open spec fn column_particles(col: Column, n: nat) -> Seq<Particle>
    decreases n,
{
    if n == 0 {
        Seq::empty()
    } else {
        column_particles(col, (n - 1) as nat) + col[n - 1]
    }
}

/// The particles of the first `n` columns of a grid, column after column.
pub open spec fn grid_particles(g: Grid, n: nat) -> Seq<Particle>
    decreases n,
{
    if n == 0 {
        Seq::empty()
    } else {
        grid_particles(g, (n - 1) as nat) + column_particles(g[n - 1], g[n - 1].len())
    }
}

/// All particles of the grid: column after column and, in a column, cell
/// after cell.
pub open spec fn particles_of(g: Grid) -> Seq<Particle> {
    grid_particles(g, g.len())
}

/// The list of the particles of a column is as long as their count.
pub proof fn lemma_column_particles_len(col: Column, n: nat)
    ensures
        column_particles(col, n).len() == column_count(col, n),
    decreases n,
{
    if n > 0 {
        lemma_column_particles_len(col, (n - 1) as nat);
    }
}

/// The list of the particles of a grid is as long as their count.
pub proof fn lemma_grid_particles_len(g: Grid, n: nat)
    ensures
        grid_particles(g, n).len() == grid_count(g, n),
    decreases n,
{
    if n > 0 {
        lemma_grid_particles_len(g, (n - 1) as nat);
        lemma_column_particles_len(g[n - 1], g[n - 1].len());
    }
}

/// The cell index of a coordinate.
pub fn cell_of(x: i64, n: usize) -> (c: usize)
    requires
        n >= 1,
    ensures
        c == cell_index(x as int, n as int),
{
    if x < 0 {
        0
    } else {
        let q: u64 = (x / UNIT) as u64;
        if q as u128 >= n as u128 {
            n - 1
        } else {
            q as usize
        }
    }
}

/// Inserting into a rectangle with at least one cell leaves a rectangle.
pub proof fn lemma_inserted_rect(g: Grid, p: Particle, w: int, h: int)
    requires
        rect(g, w, h),
        w >= 1,
        h >= 1,
    ensures
        rect(inserted(g, p), w, h),
{
    let i = cell_index(p.x as int, g.len() as int);
    assert(g[i].len() == h);
    let f = inserted(g, p);
    assert forall|c: int| 0 <= c < w implies (#[trigger] f[c]).len() == h by {
        assert(g[c].len() == h);
    }
}

/// Inserting keeps every particle in the cell that its position names.
pub proof fn lemma_inserted_coherent(g: Grid, p: Particle)
    requires
        coherent(g),
        g.len() >= 1,
        g[0].len() >= 1,
        rect(g, g.len() as int, g[0].len() as int),
    ensures
        coherent(inserted(g, p)),
{
    let i = cell_index(p.x as int, g.len() as int);
    assert(g[i].len() == g[0].len());
    let j = cell_index(p.y as int, g[i].len() as int);
    let f = inserted(g, p);
    assert forall|a: int, b: int, k: int|
        0 <= a < f.len() && 0 <= b < f[a].len() && 0 <= k < f[a][b].len() implies {
        &&& cell_index((#[trigger] f[a][b][k]).x as int, f.len() as int) == a
        &&& cell_index(f[a][b][k].y as int, f[a].len() as int) == b
    } by {
        assert(g[a].len() == g[0].len());
        if a == i && b == j && k == g[i][j].len() {
        } else {
            assert(f[a][b][k] == g[a][b][k]);
        }
    }
}

/// Puts `p` at the end of the cell that its position names.
pub fn insert(cells: &mut Vec<Vec<Vec<Particle>>>, p: Particle)
    requires
        old(cells).len() >= 1,
        old(cells)[0].len() >= 1,
        rect(grid_view(*old(cells)), old(cells).len() as int, old(cells)[0].len() as int),
    ensures
        grid_view(*final(cells)) == inserted(grid_view(*old(cells)), p),
        final(cells).len() == old(cells).len(),
        final(cells)[0].len() == old(cells)[0].len(),
        rect(grid_view(*final(cells)), old(cells).len() as int, old(cells)[0].len() as int),
{
    let ghost g = grid_view(*cells);
    let w: usize = cells.len();
    let h: usize = cells[0].len();
    proof {
        lemma_rect_cells(*cells, w as int, h as int);
        lemma_inserted_rect(g, p, w as int, h as int);
    }
    let i: usize = cell_of(p.x, w);
    let j: usize = cell_of(p.y, h);
    cells[i][j].push(p);
    assert(grid_view(*cells) =~~= inserted(g, p));
    proof {
        lemma_rect_cells(*cells, w as int, h as int);
    }
}

} // verus!
