//! The scalar step strategies: the cell-by-cell reference walk and the
//! five-sweep restructurings of it.

use vstd::prelude::*;
use crate::Field;
use crate::step::cells_in_range;
use crate::step::dec_amount;
use crate::step::lemma_coords;
use crate::step::lemma_neighbors;
use crate::step::lemma_step_cell_parts;
use crate::step::lemma_upto_advance;
use crate::step::lemma_upto_complete;
use crate::step::recv_above;
use crate::step::recv_below;
use crate::step::recv_left;
use crate::step::recv_right;
use crate::step::step_cell_upto;
use crate::step::stepped;

verus! {

/// A fresh buffer holding the same counts as `src`.
pub(crate) fn copy_cells(src: &Vec<u32>) -> (r: Vec<u32>)
    ensures
        r@ == src@,
{
    let mut r: Vec<u32> = Vec::new();
    let mut i: usize = 0;
    while i < src.len()
        invariant
            i <= src.len(),
            r@ == src@.subrange(0, i as int),
        decreases src.len() - i,
    {
        r.push(src[i]);
        proof {
            assert(r@ =~= src@.subrange(0, i + 1));
        }
        i += 1;
    }
    proof {
        assert(r@ =~= src@);
    }
    r
}

impl Field<u32> {
    /// One simulation step, cell by cell: snapshot the grid, then walk the
    /// snapshot in index order and, for every cell holding at least four
    /// grains, move one grain to each existing cardinal neighbour and drop
    /// four from the cell itself.
    #[verifier::rlimit(60)]
    pub fn slow_update(&mut self)
        requires
            old(self).wf(),
            cells_in_range(old(self).data@),
        ensures
            final(self).wf(),
            final(self).width == old(self).width,
            final(self).height == old(self).height,
            final(self).old_data@ == old(self).data@,
            stepped(
                old(self).data@,
                final(self).data@,
                old(self).width as int,
                old(self).height as int,
            ),
    {
        core::mem::swap(&mut self.data, &mut self.old_data);
        self.data = copy_cells(&self.old_data);
        let w = self.width;
        let h = self.height;
        let n = self.old_data.len();
        let ghost snap = self.old_data@;
        let ghost wi = w as int;
        let ghost hi = h as int;
        let mut i: usize = 0;
        proof {
            assert forall|j: int| 0 <= j < n implies #[trigger] self.data@[j] == step_cell_upto(
                snap,
                wi,
                hi,
                0,
                j,
            ) by {
                assert(step_cell_upto(snap, wi, hi, 0, j) == snap[j]);
            }
        }
        while i < n
            invariant
                wi == w as int,
                hi == h as int,
                self.width == w,
                self.height == h,
                self.old_data@ == snap,
                snap.len() == n,
                n == w * h,
                self.data@.len() == n,
                cells_in_range(snap),
                i <= n,
                forall|j: int|
                    0 <= j < n ==> #[trigger] self.data@[j] == step_cell_upto(
                        snap,
                        wi,
                        hi,
                        i as int,
                        j,
                    ),
            decreases n - i,
        {
            proof {
                assert(w > 0 && h > 0) by (nonlinear_arith)
                    requires
                        n == w * h,
                        i < n,
                        w >= 0,
                        h >= 0,
                ;
                lemma_coords(wi, hi, i as int);
                lemma_neighbors(wi, hi, i as int);
            }
            if self.old_data[i] >= 4 {
                let (x, y) = self.to_coords(i);
                if x > 0 {
                    let v = self.data[i - 1];
                    self.data[i - 1] = v + 1;
                }
                if x + 1 < w {
                    let v = self.data[i + 1];
                    self.data[i + 1] = v + 1;
                }
                if y > 0 {
                    let v = self.data[i - w];
                    self.data[i - w] = v + 1;
                }
                if y + 1 < h {
                    let v = self.data[i + w];
                    self.data[i + w] = v + 1;
                }
                let v = self.data[i];
                self.data[i] = v - 4;
            }
            proof {
                assert forall|j: int| 0 <= j < n implies #[trigger] self.data@[j] == step_cell_upto(
                    snap,
                    wi,
                    hi,
                    i + 1,
                    j,
                ) by {
                    lemma_upto_advance(snap, wi, hi, i as int, j);
                }
            }
            i += 1;
        }
        proof {
            if n > 0 {
                assert(w > 0 && h > 0) by (nonlinear_arith)
                    requires
                        n == w * h,
                        n > 0,
                        w >= 0,
                        h >= 0,
                ;
                assert forall|j: int|
                    0 <= j < n implies self.data@[j] == #[trigger] crate::step::step_cell(
                    snap,
                    wi,
                    hi,
                    j,
                ) by {
                    lemma_upto_complete(snap, wi, hi, j);
                }
            }
        }
    }

    /// One simulation step as five branch-light sweeps over the snapshot:
    /// one sweep per receipt direction, each confined to the rows where that
    /// neighbour exists, and a final sweep applying the decrements. Computes
    /// the same next state as [`Field::slow_update`].
    pub fn update_iter(&mut self)
        requires
            old(self).wf(),
            cells_in_range(old(self).data@),
        ensures
            final(self).wf(),
            final(self).width == old(self).width,
            final(self).height == old(self).height,
            final(self).old_data@ == old(self).data@,
            stepped(
                old(self).data@,
                final(self).data@,
                old(self).width as int,
                old(self).height as int,
            ),
    {
        core::mem::swap(&mut self.data, &mut self.old_data);
        self.data = copy_cells(&self.old_data);
        let w = self.width;
        let h = self.height;
        let n = self.old_data.len();
        let ghost snap = self.old_data@;
        let ghost wi = w as int;
        let ghost hi = h as int;
        let mut i: usize = 0;
        while i < n
            invariant
                wi == w as int,
                hi == h as int,
                self.width == w,
                self.height == h,
                self.old_data@ == snap,
                snap.len() == n,
                n == w * h,
                self.data@.len() == n,
                cells_in_range(snap),
                i <= n,
                forall|j: int|
                    0 <= j < i ==> #[trigger] self.data@[j] == snap[j] + recv_right(snap, wi, j),
                forall|j: int| i <= j < n ==> #[trigger] self.data@[j] == snap[j],
            decreases n - i,
        {
            proof {
                assert(w > 0 && h > 0) by (nonlinear_arith)
                    requires
                        n == w * h,
                        i < n,
                        w >= 0,
                        h >= 0,
                ;
                lemma_neighbors(wi, hi, i as int);
            }
            if i % w + 1 < w {
                if self.old_data[i + 1] >= 4 {
                    let v = self.data[i];
                    self.data[i] = v + 1;
                }
            }
            i += 1;
        }
        let mut i: usize = 0;
        while i < n
            invariant
                wi == w as int,
                hi == h as int,
                self.width == w,
                self.height == h,
                self.old_data@ == snap,
                snap.len() == n,
                n == w * h,
                self.data@.len() == n,
                cells_in_range(snap),
                i <= n,
                forall|j: int|
                    0 <= j < i ==> #[trigger] self.data@[j] == snap[j] + recv_right(snap, wi, j)
                        + recv_left(snap, wi, j),
                forall|j: int|
                    i <= j < n ==> #[trigger] self.data@[j] == snap[j] + recv_right(snap, wi, j),
            decreases n - i,
        {
            proof {
                assert(w > 0 && h > 0) by (nonlinear_arith)
                    requires
                        n == w * h,
                        i < n,
                        w >= 0,
                        h >= 0,
                ;
                lemma_neighbors(wi, hi, i as int);
            }
            if i % w > 0 {
                if self.old_data[i - 1] >= 4 {
                    let v = self.data[i];
                    self.data[i] = v + 1;
                }
            }
            i += 1;
        }
        let mut i: usize = 0;
        while i < n
            invariant
                wi == w as int,
                hi == h as int,
                self.width == w,
                self.height == h,
                self.old_data@ == snap,
                snap.len() == n,
                n == w * h,
                self.data@.len() == n,
                cells_in_range(snap),
                i <= n,
                forall|j: int|
                    0 <= j < i ==> #[trigger] self.data@[j] == snap[j] + recv_right(snap, wi, j)
                        + recv_left(snap, wi, j) + recv_below(snap, wi, hi, j),
                forall|j: int|
                    i <= j < n ==> #[trigger] self.data@[j] == snap[j] + recv_right(snap, wi, j)
                        + recv_left(snap, wi, j),
            decreases n - i,
        {
            proof {
                assert(w > 0 && h > 0) by (nonlinear_arith)
                    requires
                        n == w * h,
                        i < n,
                        w >= 0,
                        h >= 0,
                ;
                lemma_neighbors(wi, hi, i as int);
            }
            if i / w + 1 < h {
                if self.old_data[i + w] >= 4 {
                    let v = self.data[i];
                    self.data[i] = v + 1;
                }
            }
            i += 1;
        }
        let mut i: usize = 0;
        while i < n
            invariant
                wi == w as int,
                hi == h as int,
                self.width == w,
                self.height == h,
                self.old_data@ == snap,
                snap.len() == n,
                n == w * h,
                self.data@.len() == n,
                cells_in_range(snap),
                i <= n,
                forall|j: int|
                    0 <= j < i ==> #[trigger] self.data@[j] == snap[j] + recv_right(snap, wi, j)
                        + recv_left(snap, wi, j) + recv_below(snap, wi, hi, j) + recv_above(
                        snap,
                        wi,
                        j,
                    ),
                forall|j: int|
                    i <= j < n ==> #[trigger] self.data@[j] == snap[j] + recv_right(snap, wi, j)
                        + recv_left(snap, wi, j) + recv_below(snap, wi, hi, j),
            decreases n - i,
        {
            proof {
                assert(w > 0 && h > 0) by (nonlinear_arith)
                    requires
                        n == w * h,
                        i < n,
                        w >= 0,
                        h >= 0,
                ;
                lemma_neighbors(wi, hi, i as int);
            }
            if i / w > 0 {
                if self.old_data[i - w] >= 4 {
                    let v = self.data[i];
                    self.data[i] = v + 1;
                }
            }
            i += 1;
        }
        let mut i: usize = 0;
        while i < n
            invariant
                wi == w as int,
                hi == h as int,
                self.width == w,
                self.height == h,
                self.old_data@ == snap,
                snap.len() == n,
                n == w * h,
                self.data@.len() == n,
                cells_in_range(snap),
                i <= n,
                forall|j: int|
                    0 <= j < i ==> #[trigger] self.data@[j] == snap[j] + recv_right(snap, wi, j)
                        + recv_left(snap, wi, j) + recv_below(snap, wi, hi, j) + recv_above(
                        snap,
                        wi,
                        j,
                    ) - dec_amount(snap, j),
                forall|j: int|
                    i <= j < n ==> #[trigger] self.data@[j] == snap[j] + recv_right(snap, wi, j)
                        + recv_left(snap, wi, j) + recv_below(snap, wi, hi, j) + recv_above(
                        snap,
                        wi,
                        j,
                    ),
            decreases n - i,
        {
            if self.old_data[i] >= 4 {
                let v = self.data[i];
                self.data[i] = v - 4;
            }
            i += 1;
        }
        proof {
            assert forall|j: int| 0 <= j < n implies self.data@[j] == #[trigger] crate::step::step_cell(
                snap,
                wi,
                hi,
                j,
            ) by {
                lemma_step_cell_parts(snap, wi, hi, j);
            }
        }
    }

    /// The same five sweeps as [`Field::update_iter`], with the threshold
    /// test folded into arithmetic: each sweep adds or subtracts an amount
    /// scaled by a zero-or-one mask instead of branching on the comparison.
    /// Computes the same next state as [`Field::slow_update`].
    pub fn update_iter_branchless(&mut self)
        requires
            old(self).wf(),
            cells_in_range(old(self).data@),
        ensures
            final(self).wf(),
            final(self).width == old(self).width,
            final(self).height == old(self).height,
            final(self).old_data@ == old(self).data@,
            stepped(
                old(self).data@,
                final(self).data@,
                old(self).width as int,
                old(self).height as int,
            ),
    {
        core::mem::swap(&mut self.data, &mut self.old_data);
        self.data = copy_cells(&self.old_data);
        let w = self.width;
        let h = self.height;
        let n = self.old_data.len();
        let ghost snap = self.old_data@;
        let ghost wi = w as int;
        let ghost hi = h as int;
        let mut i: usize = 0;
        while i < n
            invariant
                wi == w as int,
                hi == h as int,
                self.width == w,
                self.height == h,
                self.old_data@ == snap,
                snap.len() == n,
                n == w * h,
                self.data@.len() == n,
                cells_in_range(snap),
                i <= n,
                forall|j: int|
                    0 <= j < i ==> #[trigger] self.data@[j] == snap[j] + recv_right(snap, wi, j),
                forall|j: int| i <= j < n ==> #[trigger] self.data@[j] == snap[j],
            decreases n - i,
        {
            proof {
                assert(w > 0 && h > 0) by (nonlinear_arith)
                    requires
                        n == w * h,
                        i < n,
                        w >= 0,
                        h >= 0,
                ;
                lemma_neighbors(wi, hi, i as int);
            }
            if i % w + 1 < w {
                let m = (self.old_data[i + 1] >= 4) as u32;
                let v = self.data[i];
                self.data[i] = v + m * 1;
            }
            i += 1;
        }
        let mut i: usize = 0;
        while i < n
            invariant
                wi == w as int,
                hi == h as int,
                self.width == w,
                self.height == h,
                self.old_data@ == snap,
                snap.len() == n,
                n == w * h,
                self.data@.len() == n,
                cells_in_range(snap),
                i <= n,
                forall|j: int|
                    0 <= j < i ==> #[trigger] self.data@[j] == snap[j] + recv_right(snap, wi, j)
                        + recv_left(snap, wi, j),
                forall|j: int|
                    i <= j < n ==> #[trigger] self.data@[j] == snap[j] + recv_right(snap, wi, j),
            decreases n - i,
        {
            proof {
                assert(w > 0 && h > 0) by (nonlinear_arith)
                    requires
                        n == w * h,
                        i < n,
                        w >= 0,
                        h >= 0,
                ;
                lemma_neighbors(wi, hi, i as int);
            }
            if i % w > 0 {
                let m = (self.old_data[i - 1] >= 4) as u32;
                let v = self.data[i];
                self.data[i] = v + m * 1;
            }
            i += 1;
        }
        let mut i: usize = 0;
        while i < n
            invariant
                wi == w as int,
                hi == h as int,
                self.width == w,
                self.height == h,
                self.old_data@ == snap,
                snap.len() == n,
                n == w * h,
                self.data@.len() == n,
                cells_in_range(snap),
                i <= n,
                forall|j: int|
                    0 <= j < i ==> #[trigger] self.data@[j] == snap[j] + recv_right(snap, wi, j)
                        + recv_left(snap, wi, j) + recv_below(snap, wi, hi, j),
                forall|j: int|
                    i <= j < n ==> #[trigger] self.data@[j] == snap[j] + recv_right(snap, wi, j)
                        + recv_left(snap, wi, j),
            decreases n - i,
        {
            proof {
                assert(w > 0 && h > 0) by (nonlinear_arith)
                    requires
                        n == w * h,
                        i < n,
                        w >= 0,
                        h >= 0,
                ;
                lemma_neighbors(wi, hi, i as int);
            }
            if i / w + 1 < h {
                let m = (self.old_data[i + w] >= 4) as u32;
                let v = self.data[i];
                self.data[i] = v + m * 1;
            }
            i += 1;
        }
        let mut i: usize = 0;
        while i < n
            invariant
                wi == w as int,
                hi == h as int,
                self.width == w,
                self.height == h,
                self.old_data@ == snap,
                snap.len() == n,
                n == w * h,
                self.data@.len() == n,
                cells_in_range(snap),
                i <= n,
                forall|j: int|
                    0 <= j < i ==> #[trigger] self.data@[j] == snap[j] + recv_right(snap, wi, j)
                        + recv_left(snap, wi, j) + recv_below(snap, wi, hi, j) + recv_above(
                        snap,
                        wi,
                        j,
                    ),
                forall|j: int|
                    i <= j < n ==> #[trigger] self.data@[j] == snap[j] + recv_right(snap, wi, j)
                        + recv_left(snap, wi, j) + recv_below(snap, wi, hi, j),
            decreases n - i,
        {
            proof {
                assert(w > 0 && h > 0) by (nonlinear_arith)
                    requires
                        n == w * h,
                        i < n,
                        w >= 0,
                        h >= 0,
                ;
                lemma_neighbors(wi, hi, i as int);
            }
            if i / w > 0 {
                let m = (self.old_data[i - w] >= 4) as u32;
                let v = self.data[i];
                self.data[i] = v + m * 1;
            }
            i += 1;
        }
        let mut i: usize = 0;
        while i < n
            invariant
                wi == w as int,
                hi == h as int,
                self.width == w,
                self.height == h,
                self.old_data@ == snap,
                snap.len() == n,
                n == w * h,
                self.data@.len() == n,
                cells_in_range(snap),
                i <= n,
                forall|j: int|
                    0 <= j < i ==> #[trigger] self.data@[j] == snap[j] + recv_right(snap, wi, j)
                        + recv_left(snap, wi, j) + recv_below(snap, wi, hi, j) + recv_above(
                        snap,
                        wi,
                        j,
                    ) - dec_amount(snap, j),
                forall|j: int|
                    i <= j < n ==> #[trigger] self.data@[j] == snap[j] + recv_right(snap, wi, j)
                        + recv_left(snap, wi, j) + recv_below(snap, wi, hi, j) + recv_above(
                        snap,
                        wi,
                        j,
                    ),
            decreases n - i,
        {
            let m = (self.old_data[i] >= 4) as u32;
            let v = self.data[i];
            self.data[i] = v - m * 4;
            i += 1;
        }
        proof {
            assert forall|j: int| 0 <= j < n implies self.data@[j] == #[trigger] crate::step::step_cell(
                snap,
                wi,
                hi,
                j,
            ) by {
                lemma_step_cell_parts(snap, wi, hi, j);
            }
        }
    }
}

} // verus!
