//! The stages of a sub-step, and the tick that runs ten of them.
//!
//! A sub-step is: gather the forces, resolve the collisions, hold everything
//! inside the walls, move every particle by one Verlet step and hand those
//! that left their cell to the cell they are in now.

use vstd::prelude::*;
use crate::collide::{collide, collided};
use crate::grid::{
    coherent, column_view, grid_view, insert, inserted, lemma_rect_cells, population, rect,
    same_shape, Grid,
};
use crate::invariants::{
    all_calm, all_contained, lemma_integrated, lemma_stepped, lemma_stepped_times, lemma_walled,
};
use crate::motion::{accelerated, bounded, SUB_STEPS};
use crate::parallel::each_column;
use crate::particle::Particle;
use crate::passes::{advanced, kept, left_column, Pass};
use crate::world::World;

verus! {

/// The grid after the force stage: every particle has gathered gravity.
pub open spec fn forced(g: Grid) -> Grid {
    Seq::new(
        g.len(),
        |i: int| Seq::new(g[i].len(), |j: int| g[i][j].map_values(|p: Particle| accelerated(p))),
    )
}

/// The grid after the boundary stage: every particle is held inside the
/// world.
pub open spec fn walled(g: Grid) -> Grid {
    Seq::new(
        g.len(),
        |i: int|
            Seq::new(
                g[i].len(),
                |j: int| g[i][j].map_values(|p: Particle| bounded(p, g.len() as int, g[0].len() as int)),
            ),
    )
}

/// The grid after the Verlet step, without the particles that left their
/// cell.
pub open spec fn settled(g: Grid, micros: int) -> Grid {
    Seq::new(g.len(), |i: int| Seq::new(g[i].len(), |j: int| kept(advanced(g[i][j], micros), i, j)))
}

/// The particles that left their cell in the Verlet step, column by column
/// and, in a column, cell after cell.
pub open spec fn departures(g: Grid, micros: int) -> Seq<Seq<Particle>> {
    Seq::new(g.len(), |i: int| left_column(g[i], i, micros, g[i].len()))
}

/// `g` with the first `n` particles of `q` inserted, one after the other.
pub open spec fn inserted_all(g: Grid, q: Seq<Particle>, n: nat) -> Grid
    decreases n,
{
    if n == 0 {
        g
    } else {
        inserted(inserted_all(g, q, (n - 1) as nat), q[n - 1])
    }
}

/// `g` with the particles of the first `n` queues inserted, queue after
/// queue.
pub open spec fn restored(g: Grid, queues: Seq<Seq<Particle>>, n: nat) -> Grid
    decreases n,
{
    if n == 0 {
        g
    } else {
        inserted_all(restored(g, queues, (n - 1) as nat), queues[n - 1], queues[n - 1].len())
    }
}

/// The grid after the Verlet step and the return of the particles that left
/// their cell: they are inserted only when every cell has been stepped.
pub open spec fn integrated(g: Grid, micros: int) -> Grid {
    restored(settled(g, micros), departures(g, micros), g.len())
}

/// The grid after one sub-step of a frame of `micros` microseconds.
pub open spec fn stepped(g: Grid, micros: int) -> Grid {
    integrated(walled(collided(forced(g))), micros)
}

/// The grid after `n` sub-steps.
pub open spec fn stepped_times(g: Grid, micros: int, n: nat) -> Grid
    decreases n,
{
    if n == 0 {
        g
    } else {
        stepped(stepped_times(g, micros, (n - 1) as nat), micros)
    }
}

/// The grid after one tick of a frame of `micros` microseconds.
pub open spec fn ticked(g: Grid, micros: int) -> Grid {
    stepped_times(g, micros, SUB_STEPS as nat)
}

/// The force stage.
pub fn apply_forces(cells: &mut Vec<Vec<Vec<Particle>>>)
    ensures
        grid_view(*final(cells)) == forced(grid_view(*old(cells))),
        same_shape(grid_view(*final(cells)), grid_view(*old(cells))),
{
    let ghost g = grid_view(*cells);
    let _ = each_column(cells, Pass::Force);
    assert(grid_view(*cells) =~~= forced(g));
}

/// The boundary stage.
pub fn enforce_bounds(cells: &mut Vec<Vec<Vec<Particle>>>)
    requires
        old(cells).len() >= 1,
    ensures
        grid_view(*final(cells)) == walled(grid_view(*old(cells))),
        same_shape(grid_view(*final(cells)), grid_view(*old(cells))),
        old(cells)[0].len() >= 1 && rect(
            grid_view(*old(cells)),
            old(cells).len() as int,
            old(cells)[0].len() as int,
        ) ==> all_contained(grid_view(*final(cells))),
{
    let ghost g = grid_view(*cells);
    let w: usize = cells.len();
    let h: usize = cells[0].len();
    let _ = each_column(cells, Pass::Bounds { w, h });
    assert(grid_view(*cells) =~~= walled(g));
    proof {
        if h >= 1 && rect(g, w as int, h as int) {
            lemma_walled(g, w as int, h as int);
        }
    }
}

/// The Verlet step, with the return of the particles that left their cell.
pub fn integrate(cells: &mut Vec<Vec<Vec<Particle>>>, micros: u32)
    requires
        old(cells).len() >= 1,
        old(cells)[0].len() >= 1,
        rect(grid_view(*old(cells)), old(cells).len() as int, old(cells)[0].len() as int),
    ensures
        grid_view(*final(cells)) == integrated(grid_view(*old(cells)), micros as int),
        final(cells).len() == old(cells).len(),
        final(cells)[0].len() == old(cells)[0].len(),
        rect(grid_view(*final(cells)), old(cells).len() as int, old(cells)[0].len() as int),
        coherent(grid_view(*final(cells))),
        population(grid_view(*final(cells))) == population(grid_view(*old(cells))),
        all_contained(grid_view(*old(cells))) ==> all_calm(grid_view(*final(cells))),
{
    let ghost g = grid_view(*cells);
    let w: usize = cells.len();
    let h: usize = cells[0].len();
    proof {
        lemma_integrated(g, micros as int, w as int, h as int);
    }
    let queues: Vec<Vec<Particle>> = each_column(cells, Pass::Integrate { micros });
    let ghost s = grid_view(*cells);
    let ghost d = column_view(queues);
    assert(s =~~= settled(g, micros as int));
    assert(d =~~= departures(g, micros as int));
    proof {
        lemma_rect_cells(*cells, w as int, h as int);
    }
    let mut c: usize = 0;
    while c < queues.len()
        invariant
            c <= queues.len(),
            queues.len() == g.len(),
            d == column_view(queues),
            w >= 1,
            h >= 1,
            cells.len() == w,
            cells[0].len() == h,
            rect(grid_view(*cells), w as int, h as int),
            grid_view(*cells) == restored(s, d, c as nat),
        decreases queues.len() - c,
    {
        let ghost base = grid_view(*cells);
        let n: usize = queues[c].len();
        let mut k: usize = 0;
        while k < n
            invariant
                k <= n,
                c < queues.len(),
                n == queues[c as int].len(),
                d == column_view(queues),
                w >= 1,
                h >= 1,
                cells.len() == w,
                cells[0].len() == h,
                rect(grid_view(*cells), w as int, h as int),
                grid_view(*cells) == inserted_all(base, d[c as int], k as nat),
            decreases n - k,
        {
            insert(cells, queues[c][k]);
            k += 1;
        }
        c += 1;
    }
}

/// One sub-step.
pub fn step(cells: &mut Vec<Vec<Vec<Particle>>>, micros: u32)
    requires
        old(cells).len() >= 1,
        old(cells)[0].len() >= 1,
        rect(grid_view(*old(cells)), old(cells).len() as int, old(cells)[0].len() as int),
    ensures
        grid_view(*final(cells)) == stepped(grid_view(*old(cells)), micros as int),
        final(cells).len() == old(cells).len(),
        final(cells)[0].len() == old(cells)[0].len(),
        rect(grid_view(*final(cells)), old(cells).len() as int, old(cells)[0].len() as int),
        coherent(grid_view(*final(cells))),
        all_calm(grid_view(*final(cells))),
        population(grid_view(*final(cells))) == population(grid_view(*old(cells))),
{
    let ghost w = cells.len() as int;
    let ghost h = cells[0].len() as int;
    proof {
        lemma_stepped(grid_view(*cells), micros as int, w, h);
    }
    apply_forces(cells);
    proof {
        lemma_rect_cells(*cells, w, h);
    }
    collide(cells);
    proof {
        lemma_rect_cells(*cells, w, h);
    }
    enforce_bounds(cells);
    proof {
        lemma_rect_cells(*cells, w, h);
    }
    integrate(cells, micros);
}

/// Advances the world by one frame of `delta_micro` microseconds, in ten
/// sub-steps.
pub fn tick(world: &mut World, delta_micro: u32)
    requires
        old(world).wf(),
    ensures
        final(world).wf(),
        final(world).spec_width() == old(world).spec_width(),
        final(world).spec_height() == old(world).spec_height(),
        final(world)@ == ticked(old(world)@, delta_micro as int),
        coherent(final(world)@),
        all_calm(final(world)@),
        population(final(world)@) == population(old(world)@),
{
    let ghost g = world@;
    proof {
        lemma_rect_cells(world.cells, world.width as int, world.height as int);
        lemma_stepped_times(g, delta_micro as int, SUB_STEPS as nat, world.width as int, world.height as int);
    }
    let mut n: u32 = 0;
    while n < SUB_STEPS
        invariant
            n <= SUB_STEPS,
            world.wf(),
            world.width == old(world).width,
            world.height == old(world).height,
            world.cells.len() == world.width,
            world.cells[0].len() == world.height,
            world@ == stepped_times(g, delta_micro as int, n as nat),
        decreases SUB_STEPS - n,
    {
        step(&mut world.cells, delta_micro);
        n += 1;
    }
}

} // verus!
