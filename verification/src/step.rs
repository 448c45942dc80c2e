//! The mathematical step semantics shared by every update strategy.
//!
//! A step reads a snapshot `old` of the grid and produces a new grid in
//! which every cell that held at least four grains in the snapshot has lost
//! exactly four, and every cell has gained one grain for each of its
//! cardinal neighbours that toppled. Grains sent across the grid edge
//! vanish.

use vstd::prelude::*;
use vstd::arithmetic::div_mod::lemma_fundamental_div_mod;
use vstd::arithmetic::div_mod::lemma_fundamental_div_mod_converse_mod;
use vstd::arithmetic::div_mod::lemma_fundamental_div_mod_converse_div;

verus! {

/// The toppling threshold: a cell holding at least four grains topples.
pub open spec fn topples(v: u32) -> bool {
    v >= 4
}

/// Every count leaves room for the at most four grains a cell can gain in
/// one step, so no update overflows the count type.
pub open spec fn cells_in_range(s: Seq<u32>) -> bool {
    forall|i: int| 0 <= i < s.len() ==> #[trigger] s[i] <= u32::MAX - 4
}

/// The value of cell `i` after one full step over the snapshot `old` of a
/// `w`-by-`h` row-major grid: its snapshot value, minus four if it toppled,
/// plus one for each existing cardinal neighbour that toppled.
pub open spec fn step_cell(old: Seq<u32>, w: int, h: int, i: int) -> int {
    let x = i % w;
    let y = i / w;
    old[i] - (if topples(old[i]) {
        4int
    } else {
        0int
    }) + (if x > 0 && topples(old[i - 1]) {
        1int
    } else {
        0int
    }) + (if x + 1 < w && topples(old[i + 1]) {
        1int
    } else {
        0int
    }) + (if y > 0 && topples(old[i - w]) {
        1int
    } else {
        0int
    }) + (if y + 1 < h && topples(old[i + w]) {
        1int
    } else {
        0int
    })
}

/// The value of cell `i` after only the toppling cells with index below `k`
/// have acted: the partial state that the reference scalar strategy reaches
/// after processing the first `k` cells of the snapshot.
pub open spec fn step_cell_upto(old: Seq<u32>, w: int, h: int, k: int, i: int) -> int {
    let x = i % w;
    let y = i / w;
    old[i] - (if i < k && topples(old[i]) {
        4int
    } else {
        0int
    }) + (if x > 0 && 0 <= i - 1 && i - 1 < k && topples(old[i - 1]) {
        1int
    } else {
        0int
    }) + (if x + 1 < w && 0 <= i + 1 && i + 1 < k && topples(old[i + 1]) {
        1int
    } else {
        0int
    }) + (if y > 0 && 0 <= i - w && i - w < k && topples(old[i - w]) {
        1int
    } else {
        0int
    }) + (if y + 1 < h && 0 <= i + w && i + w < k && topples(old[i + w]) {
        1int
    } else {
        0int
    })
}

/// One grain received from the right neighbour, when it exists and topples.
pub open spec fn recv_right(old: Seq<u32>, w: int, i: int) -> int {
    if i % w + 1 < w && topples(old[i + 1]) {
        1int
    } else {
        0int
    }
}

/// One grain received from the left neighbour, when it exists and topples.
pub open spec fn recv_left(old: Seq<u32>, w: int, i: int) -> int {
    if i % w > 0 && topples(old[i - 1]) {
        1int
    } else {
        0int
    }
}

/// One grain received from the neighbour one row down, when it exists and
/// topples.
pub open spec fn recv_below(old: Seq<u32>, w: int, h: int, i: int) -> int {
    if i / w + 1 < h && topples(old[i + w]) {
        1int
    } else {
        0int
    }
}

/// One grain received from the neighbour one row up, when it exists and
/// topples.
pub open spec fn recv_above(old: Seq<u32>, w: int, i: int) -> int {
    if i / w > 0 && topples(old[i - w]) {
        1int
    } else {
        0int
    }
}

/// The four grains a toppling cell loses.
pub open spec fn dec_amount(old: Seq<u32>, i: int) -> int {
    if topples(old[i]) {
        4int
    } else {
        0int
    }
}

/// The per-cell step value decomposes into the five sweeps that the
/// pass-based strategies perform: four directed receipts and one decrement.
pub proof fn lemma_step_cell_parts(old: Seq<u32>, w: int, h: int, i: int)
    ensures
        step_cell(old, w, h, i) == old[i] + recv_right(old, w, i) + recv_left(old, w, i)
            + recv_below(old, w, h, i) + recv_above(old, w, i) - dec_amount(old, i),
{
}

/// The step relation: `new` is the grid that one step computes from the
/// snapshot `old` on a `w`-by-`h` grid.
pub open spec fn stepped(old: Seq<u32>, new: Seq<u32>, w: int, h: int) -> bool {
    &&& old.len() == w * h
    &&& new.len() == old.len()
    &&& forall|i: int| 0 <= i < old.len() ==> new[i] == #[trigger] step_cell(old, w, h, i)
}

/// A flat index of a `w`-by-`h` row-major grid decomposes into a column
/// below `w` and a row below `h`.
pub proof fn lemma_coords(w: int, h: int, i: int)
    requires
        w > 0,
        0 <= i < w * h,
    ensures
        0 <= i % w < w,
        0 <= i / w < h,
        i == (i / w) * w + i % w,
{
    lemma_fundamental_div_mod(i, w);
    assert((i / w) * w == w * (i / w)) by (nonlinear_arith);
    assert(0 <= i % w < w) by (nonlinear_arith)
        requires
            w > 0,
            0 <= i,
    ;
    assert(0 <= i / w && i / w < h) by (nonlinear_arith)
        requires
            w > 0,
            0 <= i < w * h,
            i == w * (i / w) + i % w,
            0 <= i % w < w,
    ;
}

/// Round trip between the two coordinate systems: the row-major index of
/// `(x, y)` maps back to column `x` and row `y`.
pub proof fn lemma_coords_round_trip(w: int, x: int, y: int)
    requires
        w > 0,
        0 <= x < w,
        0 <= y,
    ensures
        (y * w + x) % w == x,
        (y * w + x) / w == y,
{
    lemma_fundamental_div_mod_converse_mod(y * w + x, w, y, x);
    lemma_fundamental_div_mod_converse_div(y * w + x, w, y, x);
}

/// The coordinates of the four neighbours of cell `i`, and the bounds that
/// keep each existing neighbour's index inside the buffer.
pub proof fn lemma_neighbors(w: int, h: int, i: int)
    requires
        w > 0,
        h > 0,
        0 <= i < w * h,
    ensures
        i % w > 0 ==> (i - 1) % w == i % w - 1 && (i - 1) / w == i / w && 0 <= i - 1,
        i % w == 0 && i > 0 ==> (i - 1) % w == w - 1 && (i - 1) / w == i / w - 1,
        i % w + 1 < w ==> (i + 1) % w == i % w + 1 && (i + 1) / w == i / w && i + 1 < w * h,
        i % w + 1 == w && i + 1 < w * h ==> (i + 1) % w == 0 && (i + 1) / w == i / w + 1,
        i / w > 0 ==> (i - w) % w == i % w && (i - w) / w == i / w - 1 && 0 <= i - w,
        i / w + 1 < h ==> (i + w) % w == i % w && (i + w) / w == i / w + 1 && i + w < w * h,
        i / w == 0 ==> i - w < 0,
        i / w + 1 >= h ==> i + w >= w * h,
{
    lemma_coords(w, h, i);
    let x = i % w;
    let y = i / w;
    if x > 0 {
        assert(y * w >= 0) by (nonlinear_arith)
            requires
                y >= 0,
                w > 0,
        ;
        lemma_fundamental_div_mod_converse_mod(i - 1, w, y, x - 1);
        lemma_fundamental_div_mod_converse_div(i - 1, w, y, x - 1);
    }
    if x == 0 && i > 0 {
        assert(i - 1 == (y - 1) * w + (w - 1)) by (nonlinear_arith)
            requires
                i == y * w + x,
                x == 0,
        ;
        lemma_fundamental_div_mod_converse_mod(i - 1, w, y - 1, w - 1);
        lemma_fundamental_div_mod_converse_div(i - 1, w, y - 1, w - 1);
    }
    if x + 1 < w {
        lemma_fundamental_div_mod_converse_mod(i + 1, w, y, x + 1);
        lemma_fundamental_div_mod_converse_div(i + 1, w, y, x + 1);
        crate::lemma_row_major_index_bound(w, h, x + 1, y);
    }
    if x + 1 == w && i + 1 < w * h {
        assert(i + 1 == (y + 1) * w) by (nonlinear_arith)
            requires
                i == y * w + x,
                x + 1 == w,
        ;
        lemma_fundamental_div_mod_converse_mod(i + 1, w, y + 1, 0);
        lemma_fundamental_div_mod_converse_div(i + 1, w, y + 1, 0);
    }
    if y > 0 {
        assert(i - w == (y - 1) * w + x) by (nonlinear_arith)
            requires
                i == y * w + x,
        ;
        lemma_fundamental_div_mod_converse_mod(i - w, w, y - 1, x);
        lemma_fundamental_div_mod_converse_div(i - w, w, y - 1, x);
        crate::lemma_row_major_index_bound(w, h, x, y - 1);
    }
    if y + 1 < h {
        assert(i + w == (y + 1) * w + x) by (nonlinear_arith)
            requires
                i == y * w + x,
        ;
        lemma_fundamental_div_mod_converse_mod(i + w, w, y + 1, x);
        lemma_fundamental_div_mod_converse_div(i + w, w, y + 1, x);
        crate::lemma_row_major_index_bound(w, h, x, y + 1);
    }
    if y == 0 {
        assert(i - w < 0) by (nonlinear_arith)
            requires
                i == y * w + x,
                y == 0,
                0 <= x < w,
        ;
    }
    if y + 1 >= h {
        assert(i + w >= w * h) by (nonlinear_arith)
            requires
                i == y * w + x,
                y + 1 >= h,
                w > 0,
                0 <= x,
        ;
    }
}

/// What processing the toppling cell `i` adds to cell `j`: minus four at `i`
/// itself, plus one at each existing cardinal neighbour of `i`, and nothing
/// elsewhere or when `i` does not topple.
pub open spec fn topple_delta(old: Seq<u32>, w: int, h: int, i: int, j: int) -> int {
    if !topples(old[i]) {
        0int
    } else if j == i {
        -4int
    } else if j == i - 1 && i % w > 0 {
        1int
    } else if j == i + 1 && i % w + 1 < w {
        1int
    } else if j == i - w && i / w > 0 {
        1int
    } else if j == i + w && i / w + 1 < h {
        1int
    } else {
        0int
    }
}

/// Letting one more cell of the snapshot act changes the partial state at
/// `j` by exactly that cell's contribution to `j`.
pub proof fn lemma_upto_advance(old: Seq<u32>, w: int, h: int, i: int, j: int)
    requires
        w > 0,
        h > 0,
        old.len() == w * h,
        0 <= i < old.len(),
        0 <= j < old.len(),
    ensures
        step_cell_upto(old, w, h, i + 1, j) == step_cell_upto(old, w, h, i, j) + topple_delta(
            old,
            w,
            h,
            i,
            j,
        ),
{
    lemma_neighbors(w, h, i);
    lemma_neighbors(w, h, j);
    let goal = step_cell_upto(old, w, h, i + 1, j) == step_cell_upto(old, w, h, i, j)
        + topple_delta(old, w, h, i, j);
    if !topples(old[i]) {
        assert(goal);
    } else if j == i {
        assert(goal);
    } else if j == i - 1 {
        if i % w > 0 {
            assert(goal);
        } else {
            assert(goal);
        }
    } else if j == i + 1 {
        if i % w + 1 < w {
            assert(goal);
        } else {
            assert(goal);
        }
    } else if j == i - w {
        if i / w > 0 {
            assert(goal);
        } else {
            assert(goal);
        }
    } else if j == i + w {
        if i / w + 1 < h {
            assert(goal);
        } else {
            assert(goal);
        }
    } else {
        assert(goal);
    }
}

/// Once every cell of the snapshot has acted, the partial state is the full
/// step.
pub proof fn lemma_upto_complete(old: Seq<u32>, w: int, h: int, i: int)
    requires
        w > 0,
        h > 0,
        old.len() == w * h,
        0 <= i < old.len(),
    ensures
        step_cell_upto(old, w, h, old.len() as int, i) == step_cell(old, w, h, i),
{
    lemma_neighbors(w, h, i);
}

/// Law: the step relation is a function — two grids computed from the same
/// snapshot by any strategies that satisfy it are equal.
pub proof fn lemma_step_deterministic(old: Seq<u32>, a: Seq<u32>, b: Seq<u32>, w: int, h: int)
    requires
        stepped(old, a, w, h),
        stepped(old, b, w, h),
    ensures
        a == b,
{
    assert forall|i: int| 0 <= i < a.len() implies a[i] == b[i] by {
        assert(a[i] == step_cell(old, w, h, i));
        assert(b[i] == step_cell(old, w, h, i));
    }
    assert(a =~= b);
}

/// Law: any two runs of equally many steps from the same start state end in
/// the same state, whichever strategies computed the steps. A run is the
/// sequence of states it passes through, consecutive ones related by
/// [`stepped`].
pub proof fn lemma_runs_agree(a: Seq<Seq<u32>>, b: Seq<Seq<u32>>, w: int, h: int)
    requires
        a.len() == b.len(),
        a.len() > 0,
        a[0] == b[0],
        forall|k: int| 0 <= k < a.len() - 1 ==> stepped(#[trigger] a[k], a[k + 1], w, h),
        forall|k: int| 0 <= k < b.len() - 1 ==> stepped(#[trigger] b[k], b[k + 1], w, h),
    ensures
        a.last() == b.last(),
    decreases a.len(),
{
    if a.len() > 1 {
        lemma_step_deterministic(a[0], a[1], b[1], w, h);
        lemma_runs_agree(a.drop_first(), b.drop_first(), w, h);
    }
}

/// Law: a single step topples a cell at most once. The cell keeps at least
/// its snapshot value minus four however large that value was, and a
/// toppling cell whose neighbours all stay quiet ends with exactly its
/// snapshot value minus four.
pub proof fn lemma_no_cascade(old: Seq<u32>, w: int, h: int, i: int)
    requires
        0 <= i < old.len(),
    ensures
        step_cell(old, w, h, i) >= old[i] - 4,
        step_cell(old, w, h, i) <= old[i] + 4,
        topples(old[i]) ==> step_cell(old, w, h, i) <= old[i],
        (topples(old[i]) && !topples(old[i - 1]) && !topples(old[i + 1]) && !topples(old[i - w])
            && !topples(old[i + w])) ==> step_cell(old, w, h, i) == old[i] - 4,
{
}

} // verus!

