//! The passes that treat every particle on its own, column by column: the
//! force stage, the boundary stage, and the Verlet step that also takes out
//! of each cell the particles that have left it.

use vstd::prelude::*;
use crate::grid::{column_view, Column};
use crate::motion::{
    accelerate, accelerated, advance, at_home, bound, bounded, is_home, moved,
};
use crate::particle::Particle;

verus! {

/// A pass over the particles of a column.
#[derive(Clone, Copy, Debug, PartialEq, Eq)]
pub enum Pass {
    /// Add gravity to every particle.
    Force,
    /// Hold every particle inside a world of `w` by `h` cells.
    Bounds { w: usize, h: usize },
    /// Move every particle by one Verlet step of a frame of `micros`
    /// microseconds, and take out those that are no longer in their cell.
    Integrate { micros: u32 },
}

/// The particles of a bag after their Verlet step.
pub open spec fn advanced(s: Seq<Particle>, micros: int) -> Seq<Particle> {
    s.map_values(|p: Particle| moved(p, micros))
}

/// The particles of a bag that are in the cell `(i, j)`, in order.
pub open spec fn kept(t: Seq<Particle>, i: int, j: int) -> Seq<Particle> {
    t.filter(|q: Particle| at_home(q, i, j))
}

/// The particles of a bag that are not in the cell `(i, j)`, in order.
pub open spec fn gone(t: Seq<Particle>, i: int, j: int) -> Seq<Particle> {
    t.filter(|q: Particle| !at_home(q, i, j))
}

/// What the pass leaves in the cell `(i, j)` that held `s`.
pub open spec fn passed_cell(pass: Pass, i: int, j: int, s: Seq<Particle>) -> Seq<Particle> {
    match pass {
        Pass::Force => s.map_values(|p: Particle| accelerated(p)),
        Pass::Bounds { w, h } => s.map_values(|p: Particle| bounded(p, w as int, h as int)),
        Pass::Integrate { micros } => kept(advanced(s, micros as int), i, j),
    }
}

/// What the pass takes out of the cell `(i, j)` that held `s`.
pub open spec fn taken_cell(pass: Pass, i: int, j: int, s: Seq<Particle>) -> Seq<Particle> {
    match pass {
        Pass::Force => Seq::empty(),
        Pass::Bounds { w, h } => Seq::empty(),
        Pass::Integrate { micros } => gone(advanced(s, micros as int), i, j),
    }
}

/// What the pass leaves in the column `i`.
pub open spec fn passed_column(pass: Pass, i: int, col: Column) -> Column {
    Seq::new(col.len(), |j: int| passed_cell(pass, i, j, col[j]))
}

/// The particles that the Verlet step takes out of the first `n` cells of
/// the column `i`, cell after cell.
pub open spec fn left_column(col: Column, i: int, micros: int, n: nat) -> Seq<Particle>
    decreases n,
{
    if n == 0 {
        Seq::empty()
    } else {
        left_column(col, i, micros, (n - 1) as nat) + gone(advanced(col[n - 1], micros), i, n - 1)
    }
}

/// What the pass takes out of the first `n` cells of the column `i`.
pub open spec fn taken_column(pass: Pass, i: int, col: Column, n: nat) -> Seq<Particle> {
    match pass {
        Pass::Force => Seq::empty(),
        Pass::Bounds { w, h } => Seq::empty(),
        Pass::Integrate { micros } => left_column(col, i, micros as int, n),
    }
}

/// The Verlet step of a bag with one more particle.
pub proof fn lemma_advanced_push(s: Seq<Particle>, p: Particle, micros: int)
    ensures
        advanced(s.push(p), micros) == advanced(s, micros).push(moved(p, micros)),
{
    assert(advanced(s.push(p), micros) =~= advanced(s, micros).push(moved(p, micros)));
}

/// An empty bag has nothing to step, to keep or to let go.
pub proof fn lemma_split_empty(i: int, j: int, micros: int)
    ensures
        advanced(Seq::<Particle>::empty(), micros) == Seq::<Particle>::empty(),
        kept(Seq::<Particle>::empty(), i, j) == Seq::<Particle>::empty(),
        gone(Seq::<Particle>::empty(), i, j) == Seq::<Particle>::empty(),
{
    reveal(Seq::filter);
    assert(advanced(Seq::<Particle>::empty(), micros) =~= Seq::<Particle>::empty());
}

/// A bag with one more particle is split by adding the particle to its side.
pub proof fn lemma_split_push(t: Seq<Particle>, q: Particle, i: int, j: int)
    ensures
        kept(t.push(q), i, j) == if at_home(q, i, j) {
            kept(t, i, j).push(q)
        } else {
            kept(t, i, j)
        },
        gone(t.push(q), i, j) == if at_home(q, i, j) {
            gone(t, i, j)
        } else {
            gone(t, i, j).push(q)
        },
{
    reveal(Seq::filter);
    assert(t.push(q).drop_last() =~= t);
}

/// The force stage or the boundary stage on one cell.
fn reshape_cell(cell: &mut Vec<Particle>, pass: Pass)
    requires
        pass is Force || pass is Bounds,
    ensures
        final(cell)@ == passed_cell(pass, 0, 0, old(cell)@),
        final(cell).len() == old(cell).len(),
{
    let n: usize = cell.len();
    let mut k: usize = 0;
    while k < n
        invariant
            k <= n,
            cell.len() == n,
            n == old(cell).len(),
            pass is Force || pass is Bounds,
            forall|t: int| 0 <= t < k ==> cell[t] == passed_cell(pass, 0, 0, old(cell)@)[t],
            forall|t: int| k <= t < n ==> cell[t] == old(cell)[t],
        decreases n - k,
    {
        let p: Particle = cell[k];
        match pass {
            Pass::Force => {
                cell[k] = accelerate(p);
            },
            Pass::Bounds { w, h } => {
                cell[k] = bound(p, w, h);
            },
            Pass::Integrate { micros } => {},
        }
        k += 1;
    }
    assert(cell@ =~= passed_cell(pass, 0, 0, old(cell)@));
}

/// The Verlet step on the cell `(i, j)`: the particles that stay are moved to
/// the front of the cell, in order, and the others are added to `left`.
fn integrate_cell(cell: &mut Vec<Particle>, i: usize, j: usize, micros: u32, left: &mut Vec<Particle>)
    ensures
        final(cell)@ == kept(advanced(old(cell)@, micros as int), i as int, j as int),
        final(left)@ == old(left)@ + gone(advanced(old(cell)@, micros as int), i as int, j as int),
{
    let n: usize = cell.len();
    let ghost start = cell@;
    let ghost queue = left@;
    let mut k: usize = 0;
    let mut stay: usize = 0;
    proof {
        lemma_split_empty(i as int, j as int, micros as int);
        assert(start.subrange(0, 0) =~= Seq::<Particle>::empty());
        assert(left@ =~= queue + Seq::<Particle>::empty());
    }
    while k < n
        invariant
            stay <= k <= n,
            cell.len() == n,
            n == start.len(),
            cell@.subrange(0, stay as int) == kept(
                advanced(start.subrange(0, k as int), micros as int),
                i as int,
                j as int,
            ),
            left@ == queue + gone(advanced(start.subrange(0, k as int), micros as int), i as int, j as int),
            forall|t: int| k <= t < n ==> cell[t] == start[t],
        decreases n - k,
    {
        let q: Particle = advance(cell[k], micros);
        proof {
            let done = start.subrange(0, k as int);
            assert(start.subrange(0, k + 1) =~= done.push(start[k as int]));
            lemma_advanced_push(done, start[k as int], micros as int);
            lemma_split_push(advanced(done, micros as int), q, i as int, j as int);
        }
        let ghost front = cell@.subrange(0, stay as int);
        if is_home(q, i, j) {
            cell[stay] = q;
            assert(cell@.subrange(0, stay + 1) =~= front.push(q));
            stay += 1;
        } else {
            left.push(q);
            assert(cell@.subrange(0, stay as int) =~= front);
        }
        k += 1;
    }
    assert(start.subrange(0, n as int) =~= start);
    cell.truncate(stay);
}

/// One pass over the cell `(i, j)`; what it takes out is added to `left`.
fn pass_cell(cell: &mut Vec<Particle>, i: usize, j: usize, pass: Pass, left: &mut Vec<Particle>)
    ensures
        final(cell)@ == passed_cell(pass, i as int, j as int, old(cell)@),
        final(left)@ == old(left)@ + taken_cell(pass, i as int, j as int, old(cell)@),
{
    match pass {
        Pass::Integrate { micros } => {
            integrate_cell(cell, i, j, micros, left);
        },
        _ => {
            reshape_cell(cell, pass);
            assert(left@ =~= old(left)@ + Seq::<Particle>::empty());
        },
    }
}

/// One pass over the column `i`. Returns what it took out, cell after cell.
pub fn run_pass(col: &mut Vec<Vec<Particle>>, i: usize, pass: Pass) -> (left: Vec<Particle>)
    ensures
        column_view(*final(col)) == passed_column(pass, i as int, column_view(*old(col))),
        left@ == taken_column(pass, i as int, column_view(*old(col)), old(col).len() as nat),
{
    let ghost start = column_view(*col);
    let mut left: Vec<Particle> = Vec::new();
    let h: usize = col.len();
    let mut j: usize = 0;
    while j < h
        invariant
            j <= h,
            col.len() == h,
            h == start.len(),
            forall|b: int| 0 <= b < j ==> (#[trigger] col[b])@ == passed_cell(pass, i as int, b, start[b]),
            forall|b: int| j <= b < h ==> (#[trigger] col[b])@ == start[b],
            left@ == taken_column(pass, i as int, start, j as nat),
        decreases h - j,
    {
        let ghost queue = left@;
        pass_cell(&mut col[j], i, j, pass, &mut left);
        assert(left@ =~= taken_column(pass, i as int, start, (j + 1) as nat)) by {
            assert(left@ == queue + taken_cell(pass, i as int, j as int, start[j as int]));
        }
        j += 1;
    }
    assert(column_view(*col) =~= passed_column(pass, i as int, start));
    left
}

} // verus!
