//! The collision stage.
//!
//! Every cell that is not on the border and holds a particle has its
//! neighbourhood resolved: the particles of the three by three block around
//! it are gathered into one bag, every pair of the bag is resolved, and the
//! particles go back to where they came from. Columns are visited in two
//! passes, the odd ones first and then the even ones, each from left to
//! right and from top to bottom.
//!
//! The blocks of two centres in neighbouring odd (or even) columns share the
//! column between them, and a resolved pair depends on what the pairs before
//! it left. So the cells of a pass are taken in turn, not side by side: the
//! outcome is the same on every run.

use vstd::prelude::*;
use crate::contact::{bag_displaced, displaced, lemma_resolve_from_displaced, resolve, resolved};
use crate::grid::{grid_view, lemma_rect_cells, put, rect, same_shape, Grid};
use crate::particle::Particle;

verus! {

/// `(i, j)` names a cell of the rectangular grid `g` that is not on its border.
pub open spec fn inner(g: Grid, i: int, j: int) -> bool {
    &&& g.len() >= 1
    &&& rect(g, g.len() as int, g[0].len() as int)
    &&& 1 <= i < g.len() - 1
    &&& 1 <= j < g[0].len() - 1
}

/// The `n`-th cell of the block around `(i, j)`, row by row.
pub open spec fn slot(g: Grid, i: int, j: int, n: int) -> Seq<Particle> {
    g[i - 1 + n % 3][j - 1 + n / 3]
}

/// The particles of the first `n` cells of the block around `(i, j)`.
pub open spec fn gathered(g: Grid, i: int, j: int, n: nat) -> Seq<Particle>
    decreases n,
{
    if n == 0 {
        Seq::empty()
    } else {
        gathered(g, i, j, (n - 1) as nat) + slot(g, i, j, n - 1)
    }
}

/// The bag of all particles in the block around `(i, j)`.
pub open spec fn neighborhood(g: Grid, i: int, j: int) -> Seq<Particle> {
    gathered(g, i, j, 9)
}

/// `g` with the first `n` cells of the block around `(i, j)` refilled from
/// `s`, each cell taking as many particles as it held, in order.
pub open spec fn scattered(g: Grid, i: int, j: int, s: Seq<Particle>, n: nat) -> Grid
    decreases n,
{
    if n == 0 {
        g
    } else {
        let m = (n - 1) as nat;
        put(
            scattered(g, i, j, s, m),
            i - 1 + m % 3,
            j - 1 + m / 3,
            s.subrange(gathered(g, i, j, m).len() as int, gathered(g, i, j, n).len() as int),
        )
    }
}

/// The grid after the neighbourhood of `(i, j)` is resolved. An empty cell,
/// or a neighbourhood of a single particle, leaves the grid as it is.
pub open spec fn collided_cell(g: Grid, i: int, j: int) -> Grid {
    let near = neighborhood(g, i, j);
    if g[i][j].len() == 0 || near.len() < 2 {
        g
    } else {
        scattered(g, i, j, resolved(near), 9)
    }
}

/// The grid after the inner cells of column `i` from row `j` on are resolved.
pub open spec fn collided_rows(g: Grid, i: int, j: int, h: int) -> Grid
    decreases h - j,
{
    if 1 <= j < h - 1 {
        collided_rows(collided_cell(g, i, j), i, j + 1, h)
    } else {
        g
    }
}

/// The grid after the inner columns `i`, `i + 2`, ... are resolved.
pub open spec fn collided_columns(g: Grid, i: int, w: int, h: int) -> Grid
    decreases w - i,
{
    if 1 <= i < w - 1 {
        collided_columns(collided_rows(g, i, 1, h), i + 2, w, h)
    } else {
        g
    }
}

/// The grid after one pass over the columns `first`, `first + 2`, ...
pub open spec fn collided_pass(g: Grid, first: int) -> Grid {
    collided_columns(g, first, g.len() as int, g[0].len() as int)
}

/// The grid after the collision stage: the odd columns, then the even ones.
pub open spec fn collided(g: Grid) -> Grid {
    collided_pass(collided_pass(g, 1), 2)
}

/// A rectangle stays one under a change that keeps the shape.
pub proof fn lemma_shape_rect(g: Grid, f: Grid, w: int, h: int)
    requires
        same_shape(g, f),
        rect(f, w, h),
    ensures
        rect(g, w, h),
{
}

/// Keeping the shape is transitive.
pub proof fn lemma_shape_trans(g: Grid, f: Grid, e: Grid)
    requires
        same_shape(g, f),
        same_shape(f, e),
    ensures
        same_shape(g, e),
{
    assert forall|i: int, j: int| 0 <= i < g.len() && 0 <= j < g[i].len() implies (#[trigger] g[i][j]).len()
        == e[i][j].len() by {
        assert(g[i][j].len() == f[i][j].len());
        assert(f[i][j].len() == e[i][j].len());
    }
}

/// The bag grows with the number of cells gathered, and the `n`-th cell adds
/// its own particles.
pub proof fn lemma_gathered_len(g: Grid, i: int, j: int, n: nat, m: nat)
    requires
        n <= m,
    ensures
        gathered(g, i, j, n).len() <= gathered(g, i, j, m).len(),
        gathered(g, i, j, n + 1).len() == gathered(g, i, j, n).len() + slot(g, i, j, n as int).len(),
    decreases m - n,
{
    if n < m {
        lemma_gathered_len(g, i, j, n + 1, m);
    }
}

/// Refilling keeps the shape of the grid.
pub proof fn lemma_scattered_shape(g: Grid, i: int, j: int, s: Seq<Particle>, n: nat)
    requires
        inner(g, i, j),
        n <= 9,
        s.len() == neighborhood(g, i, j).len(),
    ensures
        same_shape(scattered(g, i, j, s, n), g),
    decreases n,
{
    if n > 0 {
        let m = (n - 1) as nat;
        lemma_scattered_shape(g, i, j, s, m);
        lemma_gathered_len(g, i, j, m, 9);
        lemma_gathered_len(g, i, j, n, 9);
        let f = scattered(g, i, j, s, m);
        let a = i - 1 + m % 3;
        let b = j - 1 + m / 3;
        let part = s.subrange(gathered(g, i, j, m).len() as int, gathered(g, i, j, n).len() as int);
        assert(g[a].len() == g[0].len());
        assert(f[a].len() == g[a].len());
        assert(part.len() == g[a][b].len());
        let e = put(f, a, b, part);
        assert forall|c: int| 0 <= c < e.len() implies (#[trigger] e[c]).len() == g[c].len() by {
            assert(f[c].len() == g[c].len());
        }
        assert forall|c: int, r: int| 0 <= c < e.len() && 0 <= r < e[c].len() implies (#[trigger] e[c][r]).len()
            == g[c][r].len() by {
            assert(f[c].len() == g[c].len());
            assert(f[c][r].len() == g[c][r].len());
        }
    }
}

/// Whether the grid `f` holds the particles of `g`, each in its cell and at
/// its index, at another place.
pub open spec fn grid_displaced(g: Grid, f: Grid) -> bool {
    &&& same_shape(f, g)
    &&& forall|a: int, b: int, t: int|
        0 <= a < g.len() && 0 <= b < g[a].len() && 0 <= t < g[a][b].len() ==> displaced(
            g[a][b][t],
            #[trigger] f[a][b][t],
        )
}

/// Being displaced is transitive.
pub proof fn lemma_displaced_trans(g: Grid, f: Grid, e: Grid)
    requires
        grid_displaced(g, f),
        grid_displaced(f, e),
    ensures
        grid_displaced(g, e),
{
    lemma_shape_trans(e, f, g);
    assert forall|a: int, b: int, t: int|
        0 <= a < g.len() && 0 <= b < g[a].len() && 0 <= t < g[a][b].len() implies displaced(
        g[a][b][t],
        #[trigger] e[a][b][t],
    ) by {
        assert(f[a].len() == g[a].len());
        assert(f[a][b].len() == g[a][b].len());
        assert(displaced(g[a][b][t], f[a][b][t]));
        assert(displaced(f[a][b][t], e[a][b][t]));
    }
}

/// The particles of the `m`-th cell of the block lie in the bag where the
/// first `m` cells end.
proof fn lemma_gathered_part(g: Grid, i: int, j: int, m: nat, n: nat)
    requires
        m < n,
    ensures
        gathered(g, i, j, n).subrange(
            gathered(g, i, j, m).len() as int,
            gathered(g, i, j, m + 1).len() as int,
        ) == slot(g, i, j, m as int),
    decreases n - m,
{
    lemma_gathered_len(g, i, j, m, n);
    lemma_gathered_len(g, i, j, m + 1, n);
    let from = gathered(g, i, j, m).len() as int;
    let to = gathered(g, i, j, m + 1).len() as int;
    if n == m + 1 {
        assert(gathered(g, i, j, n).subrange(from, to) =~= slot(g, i, j, m as int));
    } else {
        lemma_gathered_part(g, i, j, m, (n - 1) as nat);
        lemma_gathered_len(g, i, j, m + 1, (n - 1) as nat);
        assert(gathered(g, i, j, n).subrange(from, to) =~= gathered(g, i, j, (n - 1) as nat).subrange(
            from,
            to,
        ));
    }
}

/// What refilling leaves in each cell: a cell among the first `n` of the
/// block has its part of the bag, every other cell what it had.
proof fn lemma_scattered_cell(g: Grid, i: int, j: int, s: Seq<Particle>, n: nat, a: int, b: int)
    requires
        inner(g, i, j),
        n <= 9,
        s.len() == neighborhood(g, i, j).len(),
        0 <= a < g.len(),
        0 <= b < g[0].len(),
    ensures
        scattered(g, i, j, s, n)[a][b] == if i - 1 <= a <= i + 1 && j - 1 <= b <= j + 1 && (b - j + 1) * 3
            + (a - i + 1) < n {
            s.subrange(
                gathered(g, i, j, ((b - j + 1) * 3 + (a - i + 1)) as nat).len() as int,
                gathered(g, i, j, ((b - j + 1) * 3 + (a - i + 1) + 1) as nat).len() as int,
            )
        } else {
            g[a][b]
        },
    decreases n,
{
    if n > 0 {
        let m = (n - 1) as nat;
        lemma_scattered_cell(g, i, j, s, m, a, b);
        lemma_scattered_shape(g, i, j, s, m);
        let f = scattered(g, i, j, s, m);
        let c = i - 1 + m % 3;
        let r = j - 1 + m / 3;
        assert(g[c].len() == g[0].len());
        assert(f[c].len() == g[c].len());
        assert(g[a].len() == g[0].len());
        assert(f[a].len() == g[a].len());
    }
}

/// Refilling from a bag of displaced particles displaces the grid.
proof fn lemma_scattered_displaced(g: Grid, i: int, j: int, s: Seq<Particle>)
    requires
        inner(g, i, j),
        bag_displaced(neighborhood(g, i, j), s),
    ensures
        grid_displaced(g, scattered(g, i, j, s, 9)),
{
    let f = scattered(g, i, j, s, 9);
    let near = neighborhood(g, i, j);
    lemma_scattered_shape(g, i, j, s, 9);
    assert forall|a: int, b: int, t: int|
        0 <= a < g.len() && 0 <= b < g[a].len() && 0 <= t < g[a][b].len() implies displaced(
        g[a][b][t],
        #[trigger] f[a][b][t],
    ) by {
        assert(g[a].len() == g[0].len());
        lemma_scattered_cell(g, i, j, s, 9, a, b);
        if i - 1 <= a <= i + 1 && j - 1 <= b <= j + 1 {
            let m = ((b - j + 1) * 3 + (a - i + 1)) as nat;
            lemma_gathered_part(g, i, j, m, 9);
            lemma_gathered_len(g, i, j, m, 9);
            lemma_gathered_len(g, i, j, m + 1, 9);
            let from = gathered(g, i, j, m).len() as int;
            let to = gathered(g, i, j, m + 1).len() as int;
            assert(slot(g, i, j, m as int) == g[a][b]);
            assert(near.subrange(from, to)[t] == near[from + t]);
            assert(s.subrange(from, to)[t] == s[from + t]);
            assert(displaced(near[from + t], s[from + t]));
        }
    }
}

proof fn lemma_collided_cell_displaced(g: Grid, i: int, j: int)
    requires
        inner(g, i, j),
    ensures
        grid_displaced(g, collided_cell(g, i, j)),
{
    let near = neighborhood(g, i, j);
    if g[i][j].len() == 0 || near.len() < 2 {
    } else {
        lemma_resolve_from_displaced(near, 0, 1);
        lemma_scattered_displaced(g, i, j, resolved(near));
    }
}

proof fn lemma_collided_rows_displaced(g: Grid, i: int, j: int, h: int)
    requires
        g.len() >= 1,
        h == g[0].len(),
        rect(g, g.len() as int, h),
        1 <= i < g.len() - 1,
        1 <= j,
    ensures
        grid_displaced(g, collided_rows(g, i, j, h)),
    decreases h - j,
{
    if 1 <= j < h - 1 {
        let f = collided_cell(g, i, j);
        lemma_collided_cell_displaced(g, i, j);
        lemma_shape_rect(f, g, g.len() as int, h);
        assert(f[0].len() == g[0].len());
        lemma_collided_rows_displaced(f, i, j + 1, h);
        lemma_displaced_trans(g, f, collided_rows(f, i, j + 1, h));
    }
}

proof fn lemma_collided_columns_displaced(g: Grid, i: int, w: int, h: int)
    requires
        w == g.len(),
        w >= 1,
        h == g[0].len(),
        rect(g, w, h),
        1 <= i,
    ensures
        grid_displaced(g, collided_columns(g, i, w, h)),
    decreases w - i,
{
    if 1 <= i < w - 1 {
        let f = collided_rows(g, i, 1, h);
        lemma_collided_rows_displaced(g, i, 1, h);
        lemma_shape_rect(f, g, w, h);
        assert(f[0].len() == g[0].len());
        lemma_collided_columns_displaced(f, i + 2, w, h);
        lemma_displaced_trans(g, f, collided_columns(f, i + 2, w, h));
    }
}

/// The collision stage only moves particles: each stays in its cell, at its
/// index, and keeps its remembered position, its acceleration and its
/// colour.
pub proof fn collisions_only_move(g: Grid)
    requires
        g.len() >= 1,
        rect(g, g.len() as int, g[0].len() as int),
    ensures
        grid_displaced(g, collided(g)),
{
    let w = g.len() as int;
    let h = g[0].len() as int;
    let f = collided_pass(g, 1);
    lemma_collided_columns_displaced(g, 1, w, h);
    lemma_shape_rect(f, g, w, h);
    assert(f[0].len() == g[0].len());
    lemma_collided_columns_displaced(f, 2, w, h);
    lemma_displaced_trans(g, f, collided(g));
}

/// The bag of the block around `(i, j)`.
fn gather(cells: &Vec<Vec<Vec<Particle>>>, i: usize, j: usize) -> (near: Vec<Particle>)
    requires
        inner(grid_view(*cells), i as int, j as int),
    ensures
        near@ == neighborhood(grid_view(*cells), i as int, j as int),
{
    let ghost g = grid_view(*cells);
    proof {
        lemma_rect_cells(*cells, g.len() as int, g[0].len() as int);
    }
    let mut near: Vec<Particle> = Vec::new();
    let mut n: usize = 0;
    while n < 9
        invariant
            n <= 9,
            g == grid_view(*cells),
            inner(g, i as int, j as int),
            cells.len() == g.len(),
            forall|a: int| 0 <= a < cells.len() ==> (#[trigger] cells[a]).len() == g[0].len(),
            near@ == gathered(g, i as int, j as int, n as nat),
        decreases 9 - n,
    {
        let a: usize = i - 1 + n % 3;
        let b: usize = j - 1 + n / 3;
        let len: usize = cells[a][b].len();
        let ghost before = near@;
        let mut k: usize = 0;
        while k < len
            invariant
                k <= len,
                a < cells.len(),
                b < cells[a as int].len(),
                len == cells[a as int][b as int].len(),
                near@ == before + cells[a as int][b as int]@.subrange(0, k as int),
            decreases len - k,
        {
            near.push(cells[a][b][k]);
            k += 1;
            assert(near@ =~= before + cells[a as int][b as int]@.subrange(0, k as int));
        }
        assert(cells[a as int][b as int]@.subrange(0, len as int) =~= cells[a as int][b as int]@);
        assert(g[a as int][b as int] == cells[a as int][b as int]@);
        n += 1;
    }
    near
}

/// Overwrites the cell `(a, b)` with as many particles of `src`, from `off` on,
/// as it holds.
fn refill(cells: &mut Vec<Vec<Vec<Particle>>>, a: usize, b: usize, src: &Vec<Particle>, off: usize)
    requires
        a < old(cells).len(),
        b < old(cells)[a as int].len(),
        off + old(cells)[a as int][b as int].len() <= src.len(),
    ensures
        grid_view(*final(cells)) == put(
            grid_view(*old(cells)),
            a as int,
            b as int,
            src@.subrange(off as int, off + old(cells)[a as int][b as int].len()),
        ),
{
    let ghost start = *cells;
    let len: usize = cells[a][b].len();
    let mut k: usize = 0;
    while k < len
        invariant
            k <= len,
            off + len <= src.len(),
            cells.len() == start.len(),
            a < cells.len(),
            cells[a as int].len() == start[a as int].len(),
            b < cells[a as int].len(),
            cells[a as int][b as int].len() == len,
            len == start[a as int][b as int].len(),
            forall|t: int| 0 <= t < k ==> cells[a as int][b as int][t] == src[off + t],
            forall|c: int| 0 <= c < cells.len() && c != a ==> cells[c] == start[c],
            forall|r: int| 0 <= r < cells[a as int].len() && r != b ==> cells[a as int][r] == start[a as int][r],
        decreases len - k,
    {
        cells[a][b][k] = src[off + k];
        k += 1;
    }
    assert(grid_view(*cells) =~~= put(
        grid_view(start),
        a as int,
        b as int,
        src@.subrange(off as int, off + len),
    ));
}

/// Hands the particles of the bag back to the cells of the block around
/// `(i, j)`.
fn scatter(cells: &mut Vec<Vec<Vec<Particle>>>, i: usize, j: usize, near: &Vec<Particle>)
    requires
        inner(grid_view(*old(cells)), i as int, j as int),
        near.len() == neighborhood(grid_view(*old(cells)), i as int, j as int).len(),
    ensures
        grid_view(*final(cells)) == scattered(grid_view(*old(cells)), i as int, j as int, near@, 9),
        same_shape(grid_view(*final(cells)), grid_view(*old(cells))),
{
    let ghost g = grid_view(*cells);
    let mut off: usize = 0;
    let mut n: usize = 0;
    while n < 9
        invariant
            n <= 9,
            inner(g, i as int, j as int),
            near.len() == neighborhood(g, i as int, j as int).len(),
            grid_view(*cells) == scattered(g, i as int, j as int, near@, n as nat),
            off == gathered(g, i as int, j as int, n as nat).len(),
        decreases 9 - n,
    {
        proof {
            lemma_scattered_shape(g, i as int, j as int, near@, n as nat);
            lemma_shape_rect(grid_view(*cells), g, g.len() as int, g[0].len() as int);
            lemma_rect_cells(*cells, g.len() as int, g[0].len() as int);
            lemma_gathered_len(g, i as int, j as int, n as nat, 9);
            lemma_gathered_len(g, i as int, j as int, (n + 1) as nat, 9);
            assert(cells[0].len() == g[0].len());
        }
        let a: usize = i - 1 + n % 3;
        let b: usize = j - 1 + n / 3;
        assert(grid_view(*cells)[a as int][b as int].len() == g[a as int][b as int].len());
        let len: usize = cells[a][b].len();
        refill(cells, a, b, near, off);
        off += len;
        n += 1;
    }
    proof {
        lemma_scattered_shape(g, i as int, j as int, near@, 9);
    }
}

/// Resolves the neighbourhood of the cell `(i, j)`.
pub fn collide_at(cells: &mut Vec<Vec<Vec<Particle>>>, i: usize, j: usize)
    requires
        inner(grid_view(*old(cells)), i as int, j as int),
    ensures
        grid_view(*final(cells)) == collided_cell(grid_view(*old(cells)), i as int, j as int),
        same_shape(grid_view(*final(cells)), grid_view(*old(cells))),
{
    let ghost g = grid_view(*cells);
    proof {
        lemma_rect_cells(*cells, g.len() as int, g[0].len() as int);
        assert(g[i as int][j as int] == cells[i as int][j as int]@);
    }
    if cells[i][j].len() == 0 {
        return;
    }
    let mut near: Vec<Particle> = gather(cells, i, j);
    if near.len() < 2 {
        return;
    }
    resolve(&mut near);
    scatter(cells, i, j, &near);
}

/// One pass of the collision stage: the inner cells of the columns `first`,
/// `first + 2`, ... in turn.
pub fn collide_pass(cells: &mut Vec<Vec<Vec<Particle>>>, first: usize)
    requires
        old(cells).len() >= 1,
        old(cells)[0].len() >= 1,
        rect(grid_view(*old(cells)), old(cells).len() as int, old(cells)[0].len() as int),
        first == 1 || first == 2,
    ensures
        grid_view(*final(cells)) == collided_pass(grid_view(*old(cells)), first as int),
        same_shape(grid_view(*final(cells)), grid_view(*old(cells))),
{
    let ghost g = grid_view(*cells);
    let w: usize = cells.len();
    let h: usize = cells[0].len();
    let mut i: usize = first;
    while i < w - 1
        invariant
            1 <= i <= w + 1,
            w >= 1,
            h >= 1,
            w == g.len(),
            h == g[0].len(),
            rect(g, w as int, h as int),
            same_shape(grid_view(*cells), g),
            collided_columns(grid_view(*cells), i as int, w as int, h as int) == collided_columns(
                g,
                first as int,
                w as int,
                h as int,
            ),
        decreases w + 1 - i,
    {
        let ghost column_start = grid_view(*cells);
        let mut j: usize = 1;
        while j < h - 1
            invariant
                1 <= j,
                h >= 1,
                1 <= i < w - 1,
                w == g.len(),
                h == g[0].len(),
                rect(g, w as int, h as int),
                same_shape(grid_view(*cells), g),
                collided_rows(grid_view(*cells), i as int, j as int, h as int) == collided_rows(
                    column_start,
                    i as int,
                    1,
                    h as int,
                ),
            decreases h - j,
        {
            let ghost before = grid_view(*cells);
            proof {
                lemma_shape_rect(before, g, w as int, h as int);
                assert(before[0].len() == h);
            }
            collide_at(cells, i, j);
            proof {
                lemma_shape_trans(grid_view(*cells), before, g);
            }
            j += 1;
        }
        i += 2;
    }
}

/// The collision stage: the pass over the odd columns, then the pass over the
/// even ones.
pub fn collide(cells: &mut Vec<Vec<Vec<Particle>>>)
    requires
        old(cells).len() >= 1,
        old(cells)[0].len() >= 1,
        rect(grid_view(*old(cells)), old(cells).len() as int, old(cells)[0].len() as int),
    ensures
        grid_view(*final(cells)) == collided(grid_view(*old(cells))),
        same_shape(grid_view(*final(cells)), grid_view(*old(cells))),
        grid_displaced(grid_view(*old(cells)), grid_view(*final(cells))),
{
    let ghost g = grid_view(*cells);
    proof {
        collisions_only_move(g);
    }
    collide_pass(cells, 1);
    let ghost f = grid_view(*cells);
    proof {
        lemma_shape_rect(f, g, g.len() as int, g[0].len() as int);
        assert(f[0].len() == g[0].len());
        lemma_rect_cells(*cells, g.len() as int, g[0].len() as int);
    }
    collide_pass(cells, 2);
    proof {
        lemma_shape_trans(grid_view(*cells), f, g);
    }
}

} // verus!
