//! The data-parallel step strategy.
//!
//! Rows of the next state depend only on the immutable snapshot, never on
//! one another, so they can be computed concurrently: each worker builds one
//! output row from the snapshot rows around it, and the rows are collected
//! back in index order. Only the dispatch across workers is trusted; the
//! per-row computation and the reassembly of the rows are verified.

use vstd::prelude::*;
use rayon::iter::IndexedParallelIterator;
use rayon::iter::IntoParallelIterator;
use rayon::iter::ParallelIterator;
use crate::Field;
use crate::lemma_row_major_index_bound;
use crate::step::cells_in_range;
use crate::step::lemma_coords_round_trip;
use crate::step::step_cell;
use crate::step::stepped;

verus! {

/// One output row of the step over the snapshot `old`, computed with the
/// same zero-or-one masks as the branchless sweeps, fused into a single
/// pass over the row.
#[verifier::rlimit(60)]
fn step_row(old: &Vec<u32>, width: usize, height: usize, y: usize) -> (r: Vec<u32>)
    requires
        old@.len() == width * height,
        y < height,
        cells_in_range(old@),
    ensures
        r@.len() == width,
        forall|x: int|
            0 <= x < width ==> r@[x] == #[trigger] step_cell(
                old@,
                width as int,
                height as int,
                y * width + x,
            ),
{
    let ghost wi = width as int;
    let ghost hi = height as int;
    let n = old.len();
    let mut r: Vec<u32> = Vec::new();
    let mut x: usize = 0;
    while x < width
        invariant
            wi == width as int,
            hi == height as int,
            old@.len() == n,
            old@.len() == width * height,
            y < height,
            cells_in_range(old@),
            x <= width,
            r@.len() == x,
            forall|c: int|
                0 <= c < x ==> r@[c] == #[trigger] step_cell(old@, wi, hi, y * wi + c),
        decreases width - x,
    {
        proof {
            lemma_row_major_index_bound(wi, hi, x as int, y as int);
            lemma_coords_round_trip(wi, x as int, y as int);
            assert((y + 1) * wi == y * wi + wi && (y - 1) * wi == y * wi - wi)
                by (nonlinear_arith);
            if x + 1 < width {
                lemma_row_major_index_bound(wi, hi, x + 1, y as int);
            }
            if y > 0 {
                lemma_row_major_index_bound(wi, hi, x as int, y - 1);
            }
            if y + 1 < height {
                lemma_row_major_index_bound(wi, hi, x as int, y + 1);
            }
        }
        let i = y * width + x;
        let mut v = old[i];
        if x + 1 < width {
            v += ((old[i + 1] >= 4) as u32) * 1;
        }
        if x > 0 {
            v += ((old[i - 1] >= 4) as u32) * 1;
        }
        if y + 1 < height {
            v += ((old[i + width] >= 4) as u32) * 1;
        }
        if y > 0 {
            v += ((old[i - width] >= 4) as u32) * 1;
        }
        v -= ((old[i] >= 4) as u32) * 4;
        r.push(v);
        proof {
            assert(r@[x as int] == step_cell(old@, wi, hi, y * wi + x));
        }
        x += 1;
    }
    r
}

/// Relies on rayon's `into_par_iter`, `map` and `collect`: the closure runs
/// once per row index, possibly on concurrent workers, and the indexed
/// parallel iterator collects the results into a vector in index order, so
/// element `y` is what `step_row` returned for `y`. What each row holds is
/// the verified contract of [`step_row`].
#[verifier::external_body]
fn par_step_rows(old: &Vec<u32>, width: usize, height: usize) -> (rows: Vec<Vec<u32>>)
    requires
        old@.len() == width * height,
        cells_in_range(old@),
    ensures
        rows@.len() == height,
        forall|y: int|
            0 <= y < height ==> (#[trigger] rows@[y])@.len() == width,
        forall|y: int, x: int|
            #![trigger rows@[y]@[x]]
            0 <= y < height && 0 <= x < width ==> rows@[y]@[x] == step_cell(
                old@,
                width as int,
                height as int,
                y * (width as int) + x,
            ),
{
    (0..height).into_par_iter().map(|y| step_row(old, width, height, y)).collect()
}

impl Field<u32> {
    /// One simulation step computed row by row on a pool of parallel
    /// workers. Every worker reads only the immutable snapshot and writes
    /// only its own output row, so no two workers touch the same memory.
    /// Computes the same next state as [`Field::slow_update`].
    pub fn update_parallel(&mut self)
        requires
            old(self).wf(),
            cells_in_range(old(self).data@),
        ensures
            final(self).wf(),
            final(self).width == old(self).width,
            final(self).height == old(self).height,
            final(self).old_data@ == old(self).data@,
            stepped(
                old(self).data@,
                final(self).data@,
                old(self).width as int,
                old(self).height as int,
            ),
    {
        core::mem::swap(&mut self.data, &mut self.old_data);
        let w = self.width;
        let h = self.height;
        let ghost snap = self.old_data@;
        let ghost wi = w as int;
        let ghost hi = h as int;
        let rows = par_step_rows(&self.old_data, w, h);
        let mut data: Vec<u32> = Vec::new();
        let mut y: usize = 0;
        while y < h
            invariant
                wi == w as int,
                hi == h as int,
                snap.len() == w * h,
                rows@.len() == h,
                forall|r: int| 0 <= r < h ==> (#[trigger] rows@[r])@.len() == w,
                forall|r: int, c: int|
                    #![trigger rows@[r]@[c]]
                    0 <= r < h && 0 <= c < w ==> rows@[r]@[c] == step_cell(
                        snap,
                        wi,
                        hi,
                        r * wi + c,
                    ),
                y <= h,
                data@.len() == y * w,
                forall|i: int| 0 <= i < y * w ==> data@[i] == #[trigger] step_cell(snap, wi, hi, i),
            decreases h - y,
        {
            let row = &rows[y];
            let mut x: usize = 0;
            proof {
                if w > 0 {
                    lemma_row_major_index_bound(wi, hi, 0, y as int);
                }
                assert((y + 1) * wi == y * wi + wi) by (nonlinear_arith);
                assert((y + 1) * wi <= hi * wi && hi * wi == wi * hi) by (nonlinear_arith)
                    requires
                        y + 1 <= hi,
                        wi >= 0,
                ;
            }
            while x < w
                invariant
                    wi == w as int,
                    hi == h as int,
                    snap.len() == w * h,
                    y < h,
                    row@.len() == w,
                    forall|c: int|
                        0 <= c < w ==> row@[c] == #[trigger] step_cell(snap, wi, hi, y * wi + c),
                    x <= w,
                    y * wi + wi <= wi * hi,
                    data@.len() == y * wi + x,
                    forall|i: int|
                        0 <= i < y * wi + x ==> data@[i] == #[trigger] step_cell(snap, wi, hi, i),
                decreases w - x,
            {
                data.push(row[x]);
                x += 1;
            }
            proof {
                assert((y + 1) * wi == y * wi + wi) by (nonlinear_arith);
            }
            y += 1;
        }
        proof {
            assert(data@.len() == hi * wi) by (nonlinear_arith)
                requires
                    data@.len() == (h as int) * (w as int),
                    wi == w as int,
                    hi == h as int,
            ;
        }
        self.data = data;
    }
}

} // verus!
