//! The world: a rectangle of cells that own the particles.

use vstd::prelude::*;
use crate::grid::{
    coherent, column_particles, grid_particles, grid_view, insert, inserted,
    lemma_empty_population, lemma_grid_particles_len, lemma_inserted_coherent, lemma_rect_cells,
    particles_of, population, put, rect, Grid,
};
use crate::invariants::{lemma_inserted_population, lemma_put_population};
use crate::particle::Particle;

verus! {

/// A `width` by `height` grid of unit cells.
pub struct World {
    pub(crate) cells: Vec<Vec<Vec<Particle>>>,
    pub(crate) width: usize,
    pub(crate) height: usize,
}

impl View for World {
    type V = Grid;

    open(crate) spec fn view(&self) -> Grid {
        grid_view(self.cells)
    }
}

impl World {
    /// The number of columns.
    pub open(crate) spec fn spec_width(&self) -> int {
        self.width as int
    }

    /// The number of cells in a column.
    pub open(crate) spec fn spec_height(&self) -> int {
        self.height as int
    }

    /// The grid is a non-empty rectangle of the stated size.
    pub open spec fn wf(&self) -> bool {
        &&& self.spec_width() >= 1
        &&& self.spec_height() >= 1
        &&& rect(self@, self.spec_width(), self.spec_height())
    }

    /// An empty world.
    pub fn new(w: usize, h: usize) -> (world: World)
        requires
            w >= 1,
            h >= 1,
        ensures
            world.wf(),
            world.spec_width() == w,
            world.spec_height() == h,
            forall|i: int, j: int| 0 <= i < w && 0 <= j < h ==> (#[trigger] world@[i][j]).len() == 0,
            coherent(world@),
            population(world@) == 0,
    {
        let mut cells: Vec<Vec<Vec<Particle>>> = Vec::new();
        let mut i: usize = 0;
        while i < w
            invariant
                i <= w,
                cells.len() == i,
                forall|a: int| 0 <= a < i ==> (#[trigger] cells[a]).len() == h,
                forall|a: int, b: int| 0 <= a < i && 0 <= b < h ==> (#[trigger] cells[a][b]).len() == 0,
            decreases w - i,
        {
            let mut col: Vec<Vec<Particle>> = Vec::new();
            let mut j: usize = 0;
            while j < h
                invariant
                    j <= h,
                    col.len() == j,
                    forall|b: int| 0 <= b < j ==> (#[trigger] col[b]).len() == 0,
                decreases h - j,
            {
                col.push(Vec::new());
                j += 1;
            }
            cells.push(col);
            i += 1;
        }
        let world = World { cells, width: w, height: h };
        proof {
            lemma_empty_population(world@, w as nat);
        }
        world
    }

    /// The number of columns.
    pub fn width(&self) -> (w: usize)
        ensures
            w == self.spec_width(),
    {
        self.width
    }

    /// The number of cells in a column.
    pub fn height(&self) -> (h: usize)
        ensures
            h == self.spec_height(),
    {
        self.height
    }

    /// Puts `p` into the cell that its position names; a position outside the
    /// world goes to the nearest cell.
    pub fn add_particle(&mut self, p: Particle)
        requires
            old(self).wf(),
        ensures
            final(self).wf(),
            final(self).spec_width() == old(self).spec_width(),
            final(self).spec_height() == old(self).spec_height(),
            final(self)@ == inserted(old(self)@, p),
            coherent(old(self)@) ==> coherent(final(self)@),
            population(final(self)@) == population(old(self)@) + 1,
    {
        proof {
            lemma_rect_cells(self.cells, self.width as int, self.height as int);
            assert(self@[0].len() == self.height);
            if coherent(self@) {
                lemma_inserted_coherent(self@, p);
            }
            lemma_inserted_population(self@, p, self.width as int, self.height as int);
        }
        insert(&mut self.cells, p);
    }

    /// The particles of the cell `(i, j)`.
    pub fn cell(&self, i: usize, j: usize) -> (c: &Vec<Particle>)
        requires
            self.wf(),
            i < self.spec_width(),
            j < self.spec_height(),
        ensures
            c@ == self@[i as int][j as int],
    {
        proof {
            lemma_rect_cells(self.cells, self.width as int, self.height as int);
        }
        &self.cells[i][j]
    }

    /// Takes the `k`-th particle out of the cell `(i, j)` and puts it into the
    /// cell that its position names, behind those that are there.
    pub fn relocate(&mut self, i: usize, j: usize, k: usize)
        requires
            old(self).wf(),
            i < old(self).spec_width(),
            j < old(self).spec_height(),
            k < old(self)@[i as int][j as int].len(),
        ensures
            final(self).wf(),
            final(self).spec_width() == old(self).spec_width(),
            final(self).spec_height() == old(self).spec_height(),
            final(self)@ == inserted(
                put(old(self)@, i as int, j as int, old(self)@[i as int][j as int].remove(k as int)),
                old(self)@[i as int][j as int][k as int],
            ),
            population(final(self)@) == population(old(self)@),
    {
        let ghost g = self@;
        proof {
            lemma_rect_cells(self.cells, self.width as int, self.height as int);
        }
        let p: Particle = self.cells[i][j].remove(k);
        let ghost f = self@;
        proof {
            let s = g[i as int][j as int].remove(k as int);
            assert(f =~~= put(g, i as int, j as int, s));
            assert(g[i as int].len() == self.height);
            lemma_put_population(g, i as int, j as int, s);
            assert forall|c: int| 0 <= c < self.width implies (#[trigger] f[c]).len() == self.height by {
                assert(g[c].len() == self.height);
            }
            lemma_rect_cells(self.cells, self.width as int, self.height as int);
            lemma_inserted_population(f, p, self.width as int, self.height as int);
        }
        insert(&mut self.cells, p);
    }

    /// All particles: column after column and, in a column, cell after cell.
    pub fn particles(&self) -> (all: Vec<Particle>)
        requires
            self.wf(),
        ensures
            all@ == particles_of(self@),
            all.len() == population(self@),
    {
        let ghost g = self@;
        proof {
            lemma_rect_cells(self.cells, self.width as int, self.height as int);
            lemma_grid_particles_len(g, g.len());
        }
        let mut all: Vec<Particle> = Vec::new();
        let mut i: usize = 0;
        while i < self.width
            invariant
                i <= self.width,
                g == self@,
                self.cells.len() == self.width,
                forall|a: int| 0 <= a < self.width ==> (#[trigger] self.cells[a]).len() == self.height,
                all@ == grid_particles(g, i as nat),
            decreases self.width - i,
        {
            let ghost before = all@;
            let mut j: usize = 0;
            while j < self.height
                invariant
                    j <= self.height,
                    i < self.width,
                    g == self@,
                    self.cells.len() == self.width,
                    self.cells[i as int].len() == self.height,
                    all@ == before + column_particles(g[i as int], j as nat),
                decreases self.height - j,
            {
                let ghost front = all@;
                let n: usize = self.cells[i][j].len();
                let mut k: usize = 0;
                while k < n
                    invariant
                        k <= n,
                        i < self.cells.len(),
                        j < self.cells[i as int].len(),
                        n == self.cells[i as int][j as int].len(),
                        all@ == front + self.cells[i as int][j as int]@.subrange(0, k as int),
                    decreases n - k,
                {
                    all.push(self.cells[i][j][k]);
                    k += 1;
                    assert(all@ =~= front + self.cells[i as int][j as int]@.subrange(0, k as int));
                }
                assert(self.cells[i as int][j as int]@.subrange(0, n as int) =~= g[i as int][j as int]);
                assert(all@ =~= before + column_particles(g[i as int], (j + 1) as nat));
                j += 1;
            }
            assert(g[i as int].len() == self.height);
            i += 1;
        }
        all
    }
}

} // verus!
