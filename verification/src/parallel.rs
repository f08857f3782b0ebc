//! The columns of the grid, handed out to a pool of worker threads.

use vstd::prelude::*;
use rayon::iter::{IndexedParallelIterator, IntoParallelRefMutIterator, ParallelIterator};
use crate::grid::column_view;
use crate::particle::Particle;
use crate::passes::{passed_column, run_pass, taken_column, Pass};

verus! {

/// Runs `run_pass` on every column, each with its index, on rayon's thread
/// pool, and returns what the pass took out of each column, in the order of
/// the columns.
///
/// This is rayon's `par_iter_mut`, `enumerate`, `map` and `collect` on a
/// vector. The contract is not proved. It claims of rayon that every element
/// is handed to the closure exactly once, together with its index, and that
/// the results are collected in the order of the elements; what the closure
/// does to a column is then what `run_pass` has been proved to do.
#[verifier::external_body]
pub(crate) fn each_column(cells: &mut Vec<Vec<Vec<Particle>>>, pass: Pass) -> (left: Vec<Vec<Particle>>)
    ensures
        final(cells).len() == old(cells).len(),
        left.len() == old(cells).len(),
        forall|i: int|
            0 <= i < old(cells).len() ==> column_view(#[trigger] final(cells)[i]) == passed_column(
                pass,
                i,
                column_view(old(cells)[i]),
            ),
        forall|i: int|
            0 <= i < old(cells).len() ==> (#[trigger] left[i])@ == taken_column(
                pass,
                i,
                column_view(old(cells)[i]),
                old(cells)[i].len() as nat,
            ),
{
    cells.par_iter_mut().enumerate().map(|(i, col)| run_pass(col, i, pass)).collect()
}

} // verus!
