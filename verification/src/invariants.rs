//! What every tick keeps or establishes: the number of particles, the cell
//! that each one lies in, the rest of its acceleration, and the place it
//! remembers.

use vstd::prelude::*;
use crate::collide::{
    collided, collided_cell, collided_columns, collided_pass, collided_rows, inner,
    lemma_scattered_shape, lemma_shape_rect, lemma_shape_trans, neighborhood,
};
use crate::contact::{lemma_resolve_from_len, resolved};
use crate::grid::{
    cell_index, coherent, column_count, grid_count, inserted, lemma_inserted_coherent,
    lemma_inserted_rect, population, put, rect, same_shape, Column, Grid,
};
use crate::motion::{at_home, calm, contained, SUB_STEPS};
use crate::particle::Particle;
use crate::passes::{advanced, gone, kept, left_column, lemma_split_push};
use crate::simulation::{
    departures, forced, inserted_all, integrated, restored, settled,
    stepped, stepped_times, ticked, walled,
};
use crate::units::UNIT;

verus! {

/// Every particle of the bag is calm.
pub open spec fn bag_calm(t: Seq<Particle>, w: int, h: int) -> bool {
    forall|k: int| 0 <= k < t.len() ==> calm(#[trigger] t[k], w, h)
}

/// Every particle of the bag is in the cell `(i, j)`.
pub open spec fn bag_home(t: Seq<Particle>, i: int, j: int) -> bool {
    forall|k: int| 0 <= k < t.len() ==> at_home(#[trigger] t[k], i, j)
}

/// Every particle of the grid is inside the world.
pub open spec fn all_contained(g: Grid) -> bool {
    forall|i: int, j: int, k: int|
        0 <= i < g.len() && 0 <= j < g[i].len() && 0 <= k < g[i][j].len() ==> contained(
            #[trigger] g[i][j][k],
            g.len() as int,
            g[0].len() as int,
        )
}

/// Every particle of the grid has let go of its acceleration and remembers a
/// previous position inside the world.
pub open spec fn all_calm(g: Grid) -> bool {
    forall|i: int, j: int, k: int|
        0 <= i < g.len() && 0 <= j < g[i].len() && 0 <= k < g[i][j].len() ==> calm(
            #[trigger] g[i][j][k],
            g.len() as int,
            g[0].len() as int,
        )
}

/// Splitting a bag by cell loses nothing, keeps only what is at home, and
/// keeps calm particles calm.
pub proof fn lemma_split(t: Seq<Particle>, i: int, j: int, w: int, h: int)
    ensures
        kept(t, i, j).len() + gone(t, i, j).len() == t.len(),
        bag_home(kept(t, i, j), i, j),
        bag_calm(t, w, h) ==> bag_calm(kept(t, i, j), w, h) && bag_calm(gone(t, i, j), w, h),
    decreases t.len(),
{
    if t.len() == 0 {
        reveal(Seq::filter);
    } else {
        let front = t.drop_last();
        let q = t.last();
        lemma_split(front, i, j, w, h);
        assert(t =~= front.push(q));
        lemma_split_push(front, q, i, j);
        if bag_calm(t, w, h) {
            assert forall|k: int| 0 <= k < front.len() implies calm(#[trigger] front[k], w, h) by {
                assert(front[k] == t[k]);
            }
            assert(calm(t[t.len() - 1], w, h));
        }
    }
}

/// Two columns with cells of equal sizes hold equally many particles.
pub proof fn lemma_column_count_shape(a: Column, b: Column, n: nat)
    requires
        n <= a.len(),
        a.len() == b.len(),
        forall|j: int| 0 <= j < a.len() ==> (#[trigger] a[j]).len() == b[j].len(),
    ensures
        column_count(a, n) == column_count(b, n),
    decreases n,
{
    if n > 0 {
        lemma_column_count_shape(a, b, (n - 1) as nat);
    }
}

proof fn lemma_grid_count_shape(g: Grid, f: Grid, n: nat)
    requires
        same_shape(g, f),
        n <= g.len(),
    ensures
        grid_count(g, n) == grid_count(f, n),
    decreases n,
{
    if n > 0 {
        lemma_grid_count_shape(g, f, (n - 1) as nat);
        let a = g[n - 1];
        let b = f[n - 1];
        assert(a.len() == b.len());
        assert forall|j: int| 0 <= j < a.len() implies (#[trigger] a[j]).len() == b[j].len() by {
            assert(g[n - 1][j].len() == f[n - 1][j].len());
        }
        lemma_column_count_shape(a, b, a.len());
    }
}

/// Two grids of the same shape hold equally many particles.
pub proof fn lemma_shape_population(g: Grid, f: Grid)
    requires
        same_shape(g, f),
    ensures
        population(g) == population(f),
{
    lemma_grid_count_shape(g, f, g.len());
}

proof fn lemma_column_count_update(col: Column, j: int, s: Seq<Particle>, n: nat)
    requires
        0 <= j < col.len(),
        n <= col.len(),
    ensures
        column_count(col.update(j, s), n) == column_count(col, n) + (if j < n {
            s.len() - col[j].len()
        } else {
            0
        }),
    decreases n,
{
    if n > 0 {
        lemma_column_count_update(col, j, s, (n - 1) as nat);
    }
}

proof fn lemma_grid_count_update(g: Grid, i: int, c: Column, n: nat)
    requires
        0 <= i < g.len(),
        n <= g.len(),
    ensures
        grid_count(g.update(i, c), n) == grid_count(g, n) + (if i < n {
            column_count(c, c.len()) - column_count(g[i], g[i].len())
        } else {
            0
        }),
    decreases n,
{
    if n > 0 {
        lemma_grid_count_update(g, i, c, (n - 1) as nat);
    }
}

/// Replacing a cell changes the number of particles by the difference of
/// the sizes.
pub proof fn lemma_put_population(g: Grid, i: int, j: int, s: Seq<Particle>)
    requires
        0 <= i < g.len(),
        0 <= j < g[i].len(),
    ensures
        population(put(g, i, j, s)) == population(g) + s.len() - g[i][j].len(),
{
    lemma_column_count_update(g[i], j, s, g[i].len());
    lemma_grid_count_update(g, i, g[i].update(j, s), g.len());
}

/// Inserting adds one particle.
pub proof fn lemma_inserted_population(g: Grid, p: Particle, w: int, h: int)
    requires
        rect(g, w, h),
        w >= 1,
        h >= 1,
    ensures
        population(inserted(g, p)) == population(g) + 1,
{
    let i = cell_index(p.x as int, g.len() as int);
    assert(g[i].len() == h);
    let j = cell_index(p.y as int, g[i].len() as int);
    lemma_put_population(g, i, j, g[i][j].push(p));
}

/// The force stage keeps the shape of the grid.
pub proof fn lemma_forced_shape(g: Grid)
    ensures
        same_shape(forced(g), g),
{
}

/// The boundary stage keeps the shape of the grid and leaves every particle
/// inside the world.
pub proof fn lemma_walled(g: Grid, w: int, h: int)
    requires
        rect(g, w, h),
        w >= 1,
        h >= 1,
    ensures
        same_shape(walled(g), g),
        all_contained(walled(g)),
{
    let f = walled(g);
    assert(g[0].len() == h);
    assert(f[0].len() == h);
}

proof fn lemma_collided_cell_shape(g: Grid, i: int, j: int)
    requires
        inner(g, i, j),
    ensures
        same_shape(collided_cell(g, i, j), g),
{
    let near = neighborhood(g, i, j);
    if g[i][j].len() == 0 || near.len() < 2 {
    } else {
        lemma_resolve_from_len(near, 0, 1);
        lemma_scattered_shape(g, i, j, resolved(near), 9);
    }
}

proof fn lemma_collided_rows_shape(g: Grid, i: int, j: int, h: int)
    requires
        g.len() >= 1,
        h == g[0].len(),
        rect(g, g.len() as int, h),
        1 <= i < g.len() - 1,
        1 <= j,
    ensures
        same_shape(collided_rows(g, i, j, h), g),
    decreases h - j,
{
    if 1 <= j < h - 1 {
        let f = collided_cell(g, i, j);
        lemma_collided_cell_shape(g, i, j);
        lemma_shape_rect(f, g, g.len() as int, h);
        assert(f[0].len() == g[0].len());
        lemma_collided_rows_shape(f, i, j + 1, h);
        lemma_shape_trans(collided_rows(f, i, j + 1, h), f, g);
    }
}

proof fn lemma_collided_columns_shape(g: Grid, i: int, w: int, h: int)
    requires
        w == g.len(),
        w >= 1,
        h == g[0].len(),
        rect(g, w, h),
        1 <= i,
    ensures
        same_shape(collided_columns(g, i, w, h), g),
    decreases w - i,
{
    if 1 <= i < w - 1 {
        let f = collided_rows(g, i, 1, h);
        lemma_collided_rows_shape(g, i, 1, h);
        lemma_shape_rect(f, g, w, h);
        assert(f[0].len() == g[0].len());
        lemma_collided_columns_shape(f, i + 2, w, h);
        lemma_shape_trans(collided_columns(f, i + 2, w, h), f, g);
    }
}

/// The collision stage keeps the shape of the grid.
pub proof fn lemma_collided_shape(g: Grid)
    requires
        g.len() >= 1,
        rect(g, g.len() as int, g[0].len() as int),
    ensures
        same_shape(collided(g), g),
{
    let w = g.len() as int;
    let h = g[0].len() as int;
    let f = collided_pass(g, 1);
    lemma_collided_columns_shape(g, 1, w, h);
    lemma_shape_rect(f, g, w, h);
    assert(f[0].len() == g[0].len());
    lemma_collided_columns_shape(f, 2, w, h);
    lemma_shape_trans(collided(g), f, g);
}

proof fn lemma_settled_column_count(g: Grid, i: int, micros: int, n: nat)
    requires
        0 <= i < g.len(),
        n <= g[i].len(),
    ensures
        column_count(settled(g, micros)[i], n) + left_column(g[i], i, micros, n).len() == column_count(
            g[i],
            n,
        ),
    decreases n,
{
    if n > 0 {
        lemma_settled_column_count(g, i, micros, (n - 1) as nat);
        lemma_split(advanced(g[i][n - 1], micros), i, n - 1, 0, 0);
    }
}

proof fn lemma_settled_count(g: Grid, micros: int, n: nat)
    requires
        n <= g.len(),
    ensures
        grid_count(settled(g, micros), n) + column_count(departures(g, micros), n) == grid_count(g, n),
    decreases n,
{
    if n > 0 {
        lemma_settled_count(g, micros, (n - 1) as nat);
        lemma_settled_column_count(g, n - 1, micros, g[n - 1].len());
    }
}

proof fn lemma_left_column_calm(col: Column, i: int, micros: int, n: nat, w: int, h: int)
    requires
        n <= col.len(),
        forall|j: int, k: int|
            0 <= j < col.len() && 0 <= k < col[j].len() ==> contained(#[trigger] col[j][k], w, h),
    ensures
        bag_calm(left_column(col, i, micros, n), w, h),
    decreases n,
{
    if n > 0 {
        lemma_left_column_calm(col, i, micros, (n - 1) as nat, w, h);
        let t = advanced(col[n - 1], micros);
        assert forall|k: int| 0 <= k < t.len() implies calm(#[trigger] t[k], w, h) by {
            assert(contained(col[n - 1][k], w, h));
        }
        lemma_split(t, i, n - 1, w, h);
    }
}

/// After the Verlet step, what stays in the cells is a rectangle of
/// particles that are each in their cell; if every particle was inside the
/// world, those that stay and those that leave are calm.
pub proof fn lemma_settled(g: Grid, micros: int, w: int, h: int)
    requires
        rect(g, w, h),
        w >= 1,
        h >= 1,
    ensures
        rect(settled(g, micros), w, h),
        coherent(settled(g, micros)),
        all_contained(g) ==> all_calm(settled(g, micros)),
        all_contained(g) ==> forall|c: int|
            0 <= c < w ==> bag_calm(#[trigger] departures(g, micros)[c], w, h),
{
    let s = settled(g, micros);
    assert(g[0].len() == h);
    assert forall|i: int, j: int, k: int|
        0 <= i < s.len() && 0 <= j < s[i].len() && 0 <= k < s[i][j].len() implies {
        &&& cell_index((#[trigger] s[i][j][k]).x as int, s.len() as int) == i
        &&& cell_index(s[i][j][k].y as int, s[i].len() as int) == j
    } by {
        assert(g[i].len() == h);
        lemma_split(advanced(g[i][j], micros), i, j, w, h);
        assert(at_home(kept(advanced(g[i][j], micros), i, j)[k], i, j));
    }
    if all_contained(g) {
        assert forall|i: int, j: int, k: int|
            0 <= i < s.len() && 0 <= j < s[i].len() && 0 <= k < s[i][j].len() implies calm(
            #[trigger] s[i][j][k],
            s.len() as int,
            s[0].len() as int,
        ) by {
            let t = advanced(g[i][j], micros);
            assert forall|n: int| 0 <= n < t.len() implies calm(#[trigger] t[n], w, h) by {
                assert(contained(g[i][j][n], w, h));
            }
            lemma_split(t, i, j, w, h);
            assert(calm(kept(t, i, j)[k], w, h));
        }
        assert forall|c: int| 0 <= c < w implies bag_calm(
            #[trigger] departures(g, micros)[c],
            w,
            h,
        ) by {
            assert forall|j: int, k: int| 0 <= j < g[c].len() && 0 <= k < g[c][j].len() implies contained(
                #[trigger] g[c][j][k],
                w,
                h,
            ) by {}
            lemma_left_column_calm(g[c], c, micros, g[c].len(), w, h);
        }
    }
}

proof fn lemma_inserted_calm(g: Grid, p: Particle, w: int, h: int)
    requires
        rect(g, w, h),
        w >= 1,
        h >= 1,
        all_calm(g),
        calm(p, w, h),
    ensures
        all_calm(inserted(g, p)),
{
    let i = cell_index(p.x as int, g.len() as int);
    assert(g[i].len() == h);
    assert(g[0].len() == h);
    let j = cell_index(p.y as int, g[i].len() as int);
    let f = inserted(g, p);
    assert(f[0].len() == h);
    assert forall|a: int, b: int, k: int|
        0 <= a < f.len() && 0 <= b < f[a].len() && 0 <= k < f[a][b].len() implies calm(
        #[trigger] f[a][b][k],
        f.len() as int,
        f[0].len() as int,
    ) by {
        if a == i && b == j && k == g[i][j].len() {
        } else {
            assert(f[a][b][k] == g[a][b][k]);
        }
    }
}

proof fn lemma_inserted_all(g: Grid, q: Seq<Particle>, n: nat, w: int, h: int)
    requires
        rect(g, w, h),
        w >= 1,
        h >= 1,
        n <= q.len(),
        coherent(g),
    ensures
        rect(inserted_all(g, q, n), w, h),
        coherent(inserted_all(g, q, n)),
        population(inserted_all(g, q, n)) == population(g) + n,
        all_calm(g) && bag_calm(q, w, h) ==> all_calm(inserted_all(g, q, n)),
    decreases n,
{
    if n > 0 {
        let f = inserted_all(g, q, (n - 1) as nat);
        lemma_inserted_all(g, q, (n - 1) as nat, w, h);
        lemma_inserted_rect(f, q[n - 1], w, h);
        assert(f[0].len() == h);
        lemma_inserted_coherent(f, q[n - 1]);
        lemma_inserted_population(f, q[n - 1], w, h);
        if all_calm(g) && bag_calm(q, w, h) {
            lemma_inserted_calm(f, q[n - 1], w, h);
        }
    }
}

proof fn lemma_restored(g: Grid, queues: Seq<Seq<Particle>>, n: nat, w: int, h: int)
    requires
        rect(g, w, h),
        w >= 1,
        h >= 1,
        n <= queues.len(),
        coherent(g),
    ensures
        rect(restored(g, queues, n), w, h),
        coherent(restored(g, queues, n)),
        population(restored(g, queues, n)) == population(g) + column_count(queues, n),
        all_calm(g) && (forall|c: int| 0 <= c < queues.len() ==> bag_calm(#[trigger] queues[c], w, h))
            ==> all_calm(restored(g, queues, n)),
    decreases n,
{
    if n > 0 {
        let f = restored(g, queues, (n - 1) as nat);
        lemma_restored(g, queues, (n - 1) as nat, w, h);
        lemma_inserted_all(f, queues[n - 1], queues[n - 1].len(), w, h);
    }
}

/// The Verlet step with the return of the leavers keeps the rectangle and
/// the number of particles, and leaves every particle in the cell that its
/// position names; if every particle was inside the world, all are calm
/// afterwards.
pub proof fn lemma_integrated(g: Grid, micros: int, w: int, h: int)
    requires
        rect(g, w, h),
        w >= 1,
        h >= 1,
    ensures
        rect(integrated(g, micros), w, h),
        coherent(integrated(g, micros)),
        population(integrated(g, micros)) == population(g),
        all_contained(g) ==> all_calm(integrated(g, micros)),
{
    lemma_settled(g, micros, w, h);
    lemma_settled_count(g, micros, g.len());
    lemma_restored(settled(g, micros), departures(g, micros), g.len(), w, h);
}

/// A sub-step keeps the rectangle and the number of particles, and leaves
/// every particle calm and in the cell that its position names.
pub proof fn lemma_stepped(g: Grid, micros: int, w: int, h: int)
    requires
        rect(g, w, h),
        w >= 1,
        h >= 1,
    ensures
        rect(stepped(g, micros), w, h),
        coherent(stepped(g, micros)),
        all_calm(stepped(g, micros)),
        population(stepped(g, micros)) == population(g),
{
    let f1 = forced(g);
    lemma_forced_shape(g);
    lemma_shape_rect(f1, g, w, h);
    lemma_shape_population(f1, g);
    assert(f1[0].len() == h);
    let f2 = collided(f1);
    lemma_collided_shape(f1);
    lemma_shape_rect(f2, f1, w, h);
    lemma_shape_population(f2, f1);
    let f3 = walled(f2);
    lemma_walled(f2, w, h);
    lemma_shape_rect(f3, f2, w, h);
    lemma_shape_population(f3, f2);
    lemma_integrated(f3, micros, w, h);
}

/// Sub-steps keep the rectangle and the number of particles; after at least
/// one, every particle is calm and in the cell that its position names.
pub proof fn lemma_stepped_times(g: Grid, micros: int, n: nat, w: int, h: int)
    requires
        rect(g, w, h),
        w >= 1,
        h >= 1,
    ensures
        rect(stepped_times(g, micros, n), w, h),
        population(stepped_times(g, micros, n)) == population(g),
        n >= 1 ==> coherent(stepped_times(g, micros, n)) && all_calm(stepped_times(g, micros, n)),
    decreases n,
{
    if n > 0 {
        lemma_stepped_times(g, micros, (n - 1) as nat, w, h);
        lemma_stepped(stepped_times(g, micros, (n - 1) as nat), micros, w, h);
    }
}

/// The grid after one tick for each of the first `n` frame times.
pub open spec fn ticked_each(g: Grid, frames: Seq<int>, n: nat) -> Grid
    decreases n,
{
    if n == 0 {
        g
    } else {
        ticked(ticked_each(g, frames, (n - 1) as nat), frames[n - 1])
    }
}

/// Bucket coherence. After a tick every particle lies in the cell that its
/// position names: the whole part of each coordinate, held to the grid. For
/// a particle whose position is inside the grid, the whole parts of its
/// coordinates are the indices of its cell.
pub proof fn tick_keeps_buckets_coherent(g: Grid, micros: int, w: int, h: int)
    requires
        rect(g, w, h),
        w >= 1,
        h >= 1,
    ensures
        rect(ticked(g, micros), w, h),
        coherent(ticked(g, micros)),
        forall|i: int, j: int, k: int|
            0 <= i < w && 0 <= j < h && 0 <= k < ticked(g, micros)[i][j].len() ==> {
                let p = #[trigger] ticked(g, micros)[i][j][k];
                &&& 0 <= p.x < w * UNIT ==> p.x as int / (UNIT as int) == i
                &&& 0 <= p.y < h * UNIT ==> p.y as int / (UNIT as int) == j
            },
{
    lemma_stepped_times(g, micros, SUB_STEPS as nat, w, h);
    let f = ticked(g, micros);
    assert forall|i: int, j: int, k: int| 0 <= i < w && 0 <= j < h && 0 <= k < f[i][j].len() implies {
        let p = #[trigger] f[i][j][k];
        &&& 0 <= p.x < w * UNIT ==> p.x as int / (UNIT as int) == i
        &&& 0 <= p.y < h * UNIT ==> p.y as int / (UNIT as int) == j
    } by {
        assert(f[i].len() == h);
        let p = f[i][j][k];
        assert(cell_index(p.x as int, w) == i);
        assert(cell_index(p.y as int, h) == j);
    }
}

/// Containment. The boundary stage leaves every particle inside the world,
/// and that is the position which a particle remembers as its previous one
/// when the tick ends.
pub proof fn tick_remembers_contained_positions(g: Grid, micros: int, w: int, h: int)
    requires
        rect(g, w, h),
        w >= 1,
        h >= 1,
    ensures
        all_contained(walled(g)),
        forall|i: int, j: int, k: int|
            0 <= i < w && 0 <= j < h && 0 <= k < ticked(g, micros)[i][j].len() ==> {
                let p = #[trigger] ticked(g, micros)[i][j][k];
                &&& 0 <= p.px <= (w - 1) * UNIT
                &&& 0 <= p.py <= (h - 1) * UNIT
            },
{
    lemma_walled(g, w, h);
    lemma_stepped_times(g, micros, SUB_STEPS as nat, w, h);
    let f = ticked(g, micros);
    assert(f[0].len() == h);
    assert forall|i: int, j: int, k: int| 0 <= i < w && 0 <= j < h && 0 <= k < f[i][j].len() implies {
        let p = #[trigger] f[i][j][k];
        &&& 0 <= p.px <= (w - 1) * UNIT
        &&& 0 <= p.py <= (h - 1) * UNIT
    } by {
        assert(f[i].len() == h);
        assert(calm(f[i][j][k], w, h));
    }
}

/// Population conservation. A tick neither makes nor loses a particle.
pub proof fn tick_conserves_population(g: Grid, micros: int, w: int, h: int)
    requires
        rect(g, w, h),
        w >= 1,
        h >= 1,
    ensures
        population(ticked(g, micros)) == population(g),
{
    lemma_stepped_times(g, micros, SUB_STEPS as nat, w, h);
}

/// Population conservation over any number of ticks, whatever their frame
/// times.
pub proof fn ticks_conserve_population(g: Grid, frames: Seq<int>, n: nat, w: int, h: int)
    requires
        rect(g, w, h),
        w >= 1,
        h >= 1,
    ensures
        rect(ticked_each(g, frames, n), w, h),
        population(ticked_each(g, frames, n)) == population(g),
    decreases n,
{
    if n > 0 {
        ticks_conserve_population(g, frames, (n - 1) as nat, w, h);
        lemma_stepped_times(ticked_each(g, frames, (n - 1) as nat), frames[n - 1], SUB_STEPS as nat, w, h);
    }
}

/// Acceleration reset. After a tick no particle holds any acceleration.
pub proof fn tick_resets_acceleration(g: Grid, micros: int, w: int, h: int)
    requires
        rect(g, w, h),
        w >= 1,
        h >= 1,
    ensures
        forall|i: int, j: int, k: int|
            0 <= i < w && 0 <= j < h && 0 <= k < ticked(g, micros)[i][j].len() ==> {
                let p = #[trigger] ticked(g, micros)[i][j][k];
                p.ax == 0 && p.ay == 0
            },
{
    lemma_stepped_times(g, micros, SUB_STEPS as nat, w, h);
    let f = ticked(g, micros);
    assert(f[0].len() == h);
    assert forall|i: int, j: int, k: int| 0 <= i < w && 0 <= j < h && 0 <= k < f[i][j].len() implies {
        let p = #[trigger] f[i][j][k];
        p.ax == 0 && p.ay == 0
    } by {
        assert(f[i].len() == h);
        assert(calm(f[i][j][k], w, h));
    }
}

} // verus!
