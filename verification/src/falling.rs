//! A particle alone in the world: nothing to collide with, so a tick is ten
//! times force, walls and Verlet step, and gravity never lets it rise.

use vstd::prelude::*;
use crate::collide::{
    collided, collided_cell, collided_columns, collided_pass, collided_rows, gathered, neighborhood,
};
use crate::grid::{cell_index, inserted, Column, Grid};
use crate::invariants::ticked_each;
use crate::motion::{
    accelerated, at_home, bounded, drift, frame_time, held, moved, GRAVITY_Y, STEP_DIVISOR,
    SUB_STEPS,
};
use crate::particle::Particle;
use crate::passes::{advanced, gone, kept, left_column, lemma_split_empty, lemma_split_push};
use crate::simulation::{
    departures, forced, inserted_all, integrated, restored, settled, stepped, stepped_times,
    ticked, walled,
};
use crate::units::UNIT;

verus! {

/// The grid of `w` by `h` cells that holds nothing.
pub open spec fn bare(w: int, h: int) -> Grid {
    Seq::new(w as nat, |i: int| Seq::new(h as nat, |j: int| Seq::<Particle>::empty()))
}

/// The grid of `w` by `h` cells that holds nothing but `p`, in the cell
/// `(a, b)`.
pub open spec fn lone(p: Particle, a: int, b: int, w: int, h: int) -> Grid {
    Seq::new(
        w as nat,
        |i: int|
            Seq::new(
                h as nat,
                |j: int|
                    if i == a && j == b {
                        seq![p]
                    } else {
                        Seq::<Particle>::empty()
                    },
            ),
    )
}

/// The grid that holds nothing but `p`, in the cell that its position names.
pub open spec fn lone_at(p: Particle, w: int, h: int) -> Grid {
    lone(p, cell_index(p.x as int, w), cell_index(p.y as int, h), w, h)
}

/// What a sub-step does to a particle that meets no other.
pub open spec fn lone_step(p: Particle, micros: int, w: int, h: int) -> Particle {
    moved(bounded(accelerated(p), w, h), micros)
}

/// What `n` sub-steps do to a particle that meets no other.
pub open spec fn lone_steps(p: Particle, micros: int, w: int, h: int, n: nat) -> Particle
    decreases n,
{
    if n == 0 {
        p
    } else {
        lone_step(lone_steps(p, micros, w, h, (n - 1) as nat), micros, w, h)
    }
}

/// What a tick does to a particle that meets no other.
pub open spec fn lone_ticked(p: Particle, micros: int, w: int, h: int) -> Particle {
    lone_steps(p, micros, w, h, SUB_STEPS as nat)
}

/// What a tick for each of the first `n` frame times does to a particle
/// that meets no other.
pub open spec fn lone_ticked_each(p: Particle, frames: Seq<int>, w: int, h: int, n: nat) -> Particle
    decreases n,
{
    if n == 0 {
        p
    } else {
        lone_ticked(lone_ticked_each(p, frames, w, h, (n - 1) as nat), frames[n - 1], w, h)
    }
}

/// A particle that is not rising: it holds no acceleration, and the position
/// that it remembers is inside the world and not below the one it has.
pub open spec fn falling(p: Particle, h: int) -> bool {
    &&& p.ay == 0
    &&& p.py <= p.y
    &&& 0 <= p.py <= (h - 1) * UNIT
}

proof fn lemma_forced_lone(p: Particle, a: int, b: int, w: int, h: int)
    requires
        w >= 0,
        h >= 0,
    ensures
        forced(lone(p, a, b, w, h)) == lone(accelerated(p), a, b, w, h),
{
    let g = lone(p, a, b, w, h);
    let f = forced(g);
    let e = lone(accelerated(p), a, b, w, h);
    assert forall|i: int, j: int| 0 <= i < w && 0 <= j < h implies #[trigger] f[i][j] =~= e[i][j] by {
        assert(g[i][j] == if i == a && j == b {
            seq![p]
        } else {
            Seq::<Particle>::empty()
        });
    }
    assert forall|i: int| 0 <= i < w implies #[trigger] f[i] =~= e[i] by {
        assert forall|j: int| 0 <= j < h implies #[trigger] f[i][j] == e[i][j] by {
            assert(f[i][j] =~= e[i][j]);
        }
    }
    assert(f =~= e);
}

proof fn lemma_walled_lone(p: Particle, a: int, b: int, w: int, h: int)
    requires
        w >= 1,
        h >= 0,
    ensures
        walled(lone(p, a, b, w, h)) == lone(bounded(p, w, h), a, b, w, h),
{
    let g = lone(p, a, b, w, h);
    let f = walled(g);
    let e = lone(bounded(p, w, h), a, b, w, h);
    assert(g.len() == w);
    assert(g[0].len() == h);
    assert forall|i: int, j: int| 0 <= i < w && 0 <= j < h implies #[trigger] f[i][j] =~= e[i][j] by {
        assert(g[i][j] == if i == a && j == b {
            seq![p]
        } else {
            Seq::<Particle>::empty()
        });
    }
    assert forall|i: int| 0 <= i < w implies #[trigger] f[i] =~= e[i] by {
        assert forall|j: int| 0 <= j < h implies #[trigger] f[i][j] == e[i][j] by {
            assert(f[i][j] =~= e[i][j]);
        }
    }
    assert(f =~= e);
}

proof fn lemma_gathered_lone(p: Particle, a: int, b: int, w: int, h: int, i: int, j: int, n: nat)
    requires
        1 <= i < w - 1,
        1 <= j < h - 1,
        n <= 9,
    ensures
        gathered(lone(p, a, b, w, h), i, j, n).len() == if i - 1 <= a <= i + 1 && j - 1 <= b <= j + 1 && (b
            - j + 1) * 3 + (a - i + 1) < n {
            1nat
        } else {
            0nat
        },
    decreases n,
{
    if n > 0 {
        lemma_gathered_lone(p, a, b, w, h, i, j, (n - 1) as nat);
        let m = n - 1;
        let g = lone(p, a, b, w, h);
        let c = i - 1 + m % 3;
        let r = j - 1 + m / 3;
        assert(g[c][r] == if c == a && r == b {
            seq![p]
        } else {
            Seq::<Particle>::empty()
        });
    }
}

proof fn lemma_collided_rows_lone(g: Grid, p: Particle, a: int, b: int, w: int, h: int, i: int, j: int)
    requires
        g == lone(p, a, b, w, h),
        1 <= i < w - 1,
        1 <= j,
    ensures
        collided_rows(g, i, j, h) == g,
    decreases h - j,
{
    if 1 <= j < h - 1 {
        lemma_gathered_lone(p, a, b, w, h, i, j, 9);
        assert(neighborhood(g, i, j).len() < 2);
        assert(collided_cell(g, i, j) == g);
        lemma_collided_rows_lone(g, p, a, b, w, h, i, j + 1);
    }
}

proof fn lemma_collided_columns_lone(g: Grid, p: Particle, a: int, b: int, w: int, h: int, i: int)
    requires
        g == lone(p, a, b, w, h),
        1 <= i,
    ensures
        collided_columns(g, i, w, h) == g,
    decreases w - i,
{
    if 1 <= i < w - 1 {
        lemma_collided_rows_lone(g, p, a, b, w, h, i, 1);
        lemma_collided_columns_lone(g, p, a, b, w, h, i + 2);
    }
}

proof fn lemma_collided_lone(p: Particle, a: int, b: int, w: int, h: int)
    requires
        w >= 1,
        h >= 0,
    ensures
        collided(lone(p, a, b, w, h)) == lone(p, a, b, w, h),
{
    let g = lone(p, a, b, w, h);
    assert(g.len() == w);
    assert(g[0].len() == h);
    lemma_collided_columns_lone(g, p, a, b, w, h, 1);
    assert(collided_pass(g, 1) == g);
    lemma_collided_columns_lone(g, p, a, b, w, h, 2);
}

proof fn lemma_split_few(p: Particle, i: int, j: int, micros: int)
    ensures
        kept(advanced(Seq::<Particle>::empty(), micros), i, j) == Seq::<Particle>::empty(),
        gone(advanced(Seq::<Particle>::empty(), micros), i, j) == Seq::<Particle>::empty(),
        kept(advanced(seq![p], micros), i, j) == if at_home(moved(p, micros), i, j) {
            seq![moved(p, micros)]
        } else {
            Seq::<Particle>::empty()
        },
        gone(advanced(seq![p], micros), i, j) == if at_home(moved(p, micros), i, j) {
            Seq::<Particle>::empty()
        } else {
            seq![moved(p, micros)]
        },
{
    let none = Seq::<Particle>::empty();
    let q = moved(p, micros);
    lemma_split_empty(i, j, micros);
    assert(advanced(seq![p], micros) =~= none.push(q));
    lemma_split_push(none, q, i, j);
    assert(none.push(q) =~= seq![q]);
}

proof fn lemma_left_column_lone(col: Column, i: int, micros: int, n: nat, b: int, p: Particle)
    requires
        n <= col.len(),
        forall|j: int|
            0 <= j < col.len() ==> #[trigger] col[j] == if j == b {
                seq![p]
            } else {
                Seq::<Particle>::empty()
            },
    ensures
        left_column(col, i, micros, n) == if 0 <= b < n && !at_home(moved(p, micros), i, b) {
            seq![moved(p, micros)]
        } else {
            Seq::<Particle>::empty()
        },
    decreases n,
{
    if n > 0 {
        lemma_left_column_lone(col, i, micros, (n - 1) as nat, b, p);
        lemma_split_few(p, i, n - 1, micros);
        let before = left_column(col, i, micros, (n - 1) as nat);
        let more = gone(advanced(col[n - 1], micros), i, n - 1);
        assert(before + more =~= if 0 <= b < n && !at_home(moved(p, micros), i, b) {
            seq![moved(p, micros)]
        } else {
            Seq::<Particle>::empty()
        });
    }
}

proof fn lemma_restored_lone(s: Grid, d: Seq<Seq<Particle>>, n: nat, a: int, q: Seq<Particle>)
    requires
        n <= d.len(),
        q.len() <= 1,
        forall|c: int|
            0 <= c < d.len() ==> #[trigger] d[c] == if c == a {
                q
            } else {
                Seq::<Particle>::empty()
            },
    ensures
        restored(s, d, n) == if 0 <= a < n && q.len() == 1 {
            inserted(s, q[0])
        } else {
            s
        },
    decreases n,
{
    if n > 0 {
        lemma_restored_lone(s, d, (n - 1) as nat, a, q);
        let f = restored(s, d, (n - 1) as nat);
        let last = d[n - 1];
        assert(inserted_all(f, last, 0) == f);
        if last.len() == 1 {
            assert(inserted_all(f, last, 1) == inserted(inserted_all(f, last, 0), last[0]));
        }
    }
}

proof fn lemma_integrated_lone(p: Particle, a: int, b: int, w: int, h: int, micros: int)
    requires
        0 <= a < w,
        0 <= b < h,
    ensures
        integrated(lone(p, a, b, w, h), micros) == lone_at(moved(p, micros), w, h),
{
    let g = lone(p, a, b, w, h);
    let q = moved(p, micros);
    let s = settled(g, micros);
    let d = departures(g, micros);
    let stays = at_home(q, a, b);
    let queue = if stays {
        Seq::<Particle>::empty()
    } else {
        seq![q]
    };
    let rest = if stays {
        lone(q, a, b, w, h)
    } else {
        bare(w, h)
    };
    assert forall|i: int, j: int| 0 <= i < w && 0 <= j < h implies #[trigger] s[i][j] == rest[i][j] by {
        lemma_split_few(p, i, j, micros);
        assert(g[i][j] == if i == a && j == b {
            seq![p]
        } else {
            Seq::<Particle>::empty()
        });
    }
    assert forall|i: int| 0 <= i < w implies #[trigger] s[i] =~= rest[i] by {
        assert forall|j: int| 0 <= j < h implies #[trigger] s[i][j] == rest[i][j] by {}
    }
    assert(s =~= rest);
    assert forall|c: int| 0 <= c < w implies #[trigger] d[c] == if c == a {
        queue
    } else {
        Seq::<Particle>::empty()
    } by {
        let col = g[c];
        let at = if c == a {
            b
        } else {
            -1
        };
        assert forall|j: int| 0 <= j < col.len() implies #[trigger] col[j] == if j == at {
            seq![p]
        } else {
            Seq::<Particle>::empty()
        } by {}
        lemma_left_column_lone(col, c, micros, col.len(), at, p);
    }
    lemma_restored_lone(s, d, w as nat, a, queue);
    let e = lone_at(q, w, h);
    if stays {
        assert(integrated(g, micros) == s);
        assert(cell_index(q.x as int, w) == a);
        assert(cell_index(q.y as int, h) == b);
    } else {
        let f = inserted(bare(w, h), q);
        assert(integrated(g, micros) == f);
        let ci = cell_index(q.x as int, w);
        let cj = cell_index(q.y as int, h);
        assert(bare(w, h)[ci].len() == h);
        assert forall|i: int| 0 <= i < w implies #[trigger] f[i] =~= e[i] by {
            assert forall|j: int| 0 <= j < h implies #[trigger] f[i][j] =~= e[i][j] by {}
        }
        assert(f =~= e);
    }
}

/// A sub-step moves a lone particle as `lone_step` says.
pub proof fn lemma_stepped_lone(p: Particle, a: int, b: int, w: int, h: int, micros: int)
    requires
        0 <= a < w,
        0 <= b < h,
    ensures
        stepped(lone(p, a, b, w, h), micros) == lone_at(lone_step(p, micros, w, h), w, h),
{
    lemma_forced_lone(p, a, b, w, h);
    lemma_collided_lone(accelerated(p), a, b, w, h);
    lemma_walled_lone(accelerated(p), a, b, w, h);
    lemma_integrated_lone(bounded(accelerated(p), w, h), a, b, w, h, micros);
}

/// Sub-steps move a lone particle as `lone_steps` says.
pub proof fn lemma_stepped_times_lone(p: Particle, w: int, h: int, micros: int, n: nat)
    requires
        w >= 1,
        h >= 1,
    ensures
        stepped_times(lone_at(p, w, h), micros, n) == lone_at(lone_steps(p, micros, w, h, n), w, h),
    decreases n,
{
    if n > 0 {
        lemma_stepped_times_lone(p, w, h, micros, (n - 1) as nat);
        let q = lone_steps(p, micros, w, h, (n - 1) as nat);
        lemma_stepped_lone(q, cell_index(q.x as int, w), cell_index(q.y as int, h), w, h, micros);
    }
}

/// A sub-step keeps a lone particle falling, and does not lift it as far as
/// the world shows it.
pub proof fn lemma_lone_step_falls(p: Particle, micros: int, w: int, h: int)
    requires
        h >= 1,
        falling(p, h),
    ensures
        falling(lone_step(p, micros, w, h), h),
        held(lone_step(p, micros, w, h).y, h) >= held(p.y, h),
        p.y <= (h - 1) * UNIT ==> lone_step(p, micros, w, h).y >= p.y,
{
    let t = frame_time(micros);
    assert(GRAVITY_Y * t * t >= 0) by (nonlinear_arith)
        requires
            GRAVITY_Y >= 0,
    ;
    let above = GRAVITY_Y * t * t;
    let below = STEP_DIVISOR * STEP_DIVISOR;
    assert(below > 0) by (nonlinear_arith)
        requires
            below == STEP_DIVISOR * STEP_DIVISOR,
            STEP_DIVISOR == 1_000_000,
    ;
    assert(above / below >= 0) by (nonlinear_arith)
        requires
            above >= 0,
            below > 0,
    ;
    assert(drift(GRAVITY_Y as int, micros) == above / below);
}

proof fn lemma_lone_steps_fall(p: Particle, micros: int, w: int, h: int, n: nat)
    requires
        h >= 1,
        falling(p, h),
    ensures
        falling(lone_steps(p, micros, w, h, n), h),
        held(lone_steps(p, micros, w, h, n).y, h) >= held(p.y, h),
    decreases n,
{
    if n > 0 {
        lemma_lone_steps_fall(p, micros, w, h, (n - 1) as nat);
        lemma_lone_step_falls(lone_steps(p, micros, w, h, (n - 1) as nat), micros, w, h);
    }
}

/// Gravity monotone. A world that holds one particle, not rising, holds
/// after a tick that one particle, still not rising and, as far as the walls
/// let it be seen, not higher than before. The height itself can drop back
/// to the floor from the little that the last sub-step added below it.
pub proof fn lone_particle_never_rises(p: Particle, micros: int, w: int, h: int)
    requires
        w >= 1,
        h >= 1,
        falling(p, h),
    ensures
        ticked(lone_at(p, w, h), micros) == lone_at(lone_ticked(p, micros, w, h), w, h),
        falling(lone_ticked(p, micros, w, h), h),
        held(lone_ticked(p, micros, w, h).y, h) >= held(p.y, h),
        p.y <= (h - 1) * UNIT ==> lone_ticked(p, micros, w, h).y >= p.y,
{
    lemma_stepped_times_lone(p, w, h, micros, SUB_STEPS as nat);
    lemma_lone_steps_fall(p, micros, w, h, SUB_STEPS as nat);
}

/// Gravity monotone over any number of ticks, whatever their frame times:
/// the height of a lone particle, as far as the walls let it be seen, never
/// decreases from one tick to the next.
pub proof fn lone_particle_keeps_falling(p: Particle, frames: Seq<int>, w: int, h: int, n: nat)
    requires
        w >= 1,
        h >= 1,
        falling(p, h),
    ensures
        ticked_each(lone_at(p, w, h), frames, n) == lone_at(lone_ticked_each(p, frames, w, h, n), w, h),
        falling(lone_ticked_each(p, frames, w, h, n), h),
        n >= 1 ==> held(lone_ticked_each(p, frames, w, h, n).y, h) >= held(
            lone_ticked_each(p, frames, w, h, (n - 1) as nat).y,
            h,
        ),
    decreases n,
{
    if n > 0 {
        lone_particle_keeps_falling(p, frames, w, h, (n - 1) as nat);
        lone_particle_never_rises(lone_ticked_each(p, frames, w, h, (n - 1) as nat), frames[n - 1], w, h);
    }
}

} // verus!
