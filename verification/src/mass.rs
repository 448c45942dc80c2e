//! Mass accounting for a step: grains move but are never created, and they
//! are lost only over the grid edge.

use vstd::prelude::*;
use vstd::arithmetic::div_mod::lemma_basic_div;
use vstd::arithmetic::div_mod::lemma_fundamental_div_mod_converse_mod;
use crate::step::dec_amount;
use crate::step::lemma_coords;
use crate::step::lemma_neighbors;
use crate::step::lemma_step_cell_parts;
use crate::step::recv_above;
use crate::step::recv_below;
use crate::step::recv_left;
use crate::step::recv_right;
use crate::step::step_cell;
use crate::step::stepped;
use crate::step::topples;

verus! {

/// The total number of grains on the grid.
pub open spec fn total_grains(s: Seq<u32>) -> int
    decreases s.len(),
{
    if s.len() == 0 {
        0int
    } else {
        s[0] + total_grains(s.drop_first())
    }
}

/// The sum of a sequence of integer contributions.
pub open spec fn sum_int(s: Seq<int>) -> int
    decreases s.len(),
{
    if s.len() == 0 {
        0int
    } else {
        s[0] + sum_int(s.drop_first())
    }
}

/// A sequence of zero contributions sums to zero.
proof fn lemma_sum_zeros(s: Seq<int>)
    requires
        forall|i: int| 0 <= i < s.len() ==> #[trigger] s[i] == 0,
    ensures
        sum_int(s) == 0,
    decreases s.len(),
{
    if s.len() > 0 {
        lemma_sum_zeros(s.drop_first());
    }
}

/// A sum splits at any cut point.
proof fn lemma_sum_split(s: Seq<int>, k: int)
    requires
        0 <= k <= s.len(),
    ensures
        sum_int(s) == sum_int(s.take(k)) + sum_int(s.skip(k)),
    decreases k,
{
    if k == 0 {
        assert(s.take(0) =~= Seq::<int>::empty());
        assert(s.skip(0) =~= s);
    } else {
        lemma_sum_split(s.drop_first(), k - 1);
        assert(s.drop_first().take(k - 1) =~= s.take(k).drop_first());
        assert(s.drop_first().skip(k - 1) =~= s.skip(k));
        assert(s.take(k)[0] == s[0]);
    }
}

/// Two contribution sequences that agree up to a shift by `k` — `a` starts
/// with `k` zeros and `b` ends with `k` zeros — have equal sums.
proof fn lemma_sum_shift(a: Seq<int>, b: Seq<int>, k: int)
    requires
        a.len() == b.len(),
        0 <= k <= a.len(),
        forall|i: int| 0 <= i < k ==> #[trigger] a[i] == 0,
        forall|i: int| k <= i < a.len() ==> #[trigger] a[i] == b[i - k],
        forall|j: int| a.len() - k <= j < a.len() ==> #[trigger] b[j] == 0,
    ensures
        sum_int(a) == sum_int(b),
{
    let n = a.len() as int;
    lemma_sum_split(a, k);
    lemma_sum_zeros(a.take(k));
    lemma_sum_split(b, n - k);
    lemma_sum_zeros(b.skip(n - k));
    assert(a.skip(k) =~= b.take(n - k));
}

/// Pointwise addition of contributions adds their sums.
proof fn lemma_sum_pointwise_add(a: Seq<int>, b: Seq<int>, c: Seq<int>)
    requires
        a.len() == b.len(),
        c.len() == a.len(),
        forall|i: int| 0 <= i < c.len() ==> #[trigger] c[i] == a[i] + b[i],
    ensures
        sum_int(c) == sum_int(a) + sum_int(b),
    decreases c.len(),
{
    if c.len() > 0 {
        lemma_sum_pointwise_add(a.drop_first(), b.drop_first(), c.drop_first());
    }
}

/// The change in the total is the sum of the per-cell changes.
proof fn lemma_total_diff(old: Seq<u32>, new: Seq<u32>)
    requires
        new.len() == old.len(),
    ensures
        total_grains(new) == total_grains(old) + sum_int(
            Seq::new(old.len(), |i: int| new[i] - old[i]),
        ),
    decreases old.len(),
{
    let d = Seq::new(old.len(), |i: int| new[i] - old[i]);
    if old.len() > 0 {
        lemma_total_diff(old.drop_first(), new.drop_first());
        assert(d.drop_first() =~= Seq::new(
            (old.len() - 1) as nat,
            |i: int| new.drop_first()[i] - old.drop_first()[i],
        ));
    }
}

/// Overwriting one cell changes the total by the difference at that cell.
proof fn lemma_total_update(s: Seq<u32>, i: int, v: u32)
    requires
        0 <= i < s.len(),
    ensures
        total_grains(s.update(i, v)) == total_grains(s) - s[i] + v,
    decreases i,
{
    if i == 0 {
        assert(s.update(0, v).drop_first() =~= s.drop_first());
    } else {
        lemma_total_update(s.drop_first(), i - 1, v);
        assert(s.update(i, v).drop_first() =~= s.drop_first().update(i - 1, v));
    }
}

/// No toppling cell touches the grid edge: every cell holding at least four
/// grains has all four of its neighbours on the grid.
pub open spec fn interior_topplers_only(old: Seq<u32>, w: int, h: int) -> bool {
    forall|i: int|
        0 <= i < old.len() && topples(#[trigger] old[i]) ==> i % w > 0 && i % w + 1 < w && i / w > 0
            && i / w + 1 < h
}

/// Law: a step conserves mass away from the boundary. When no toppling cell
/// is adjacent to the grid edge, every grain a toppling cell loses arrives
/// at a neighbour, so the total is unchanged.
pub proof fn lemma_mass_conserved_interior(old: Seq<u32>, new: Seq<u32>, w: int, h: int)
    requires
        w >= 0,
        h >= 0,
        stepped(old, new, w, h),
        interior_topplers_only(old, w, h),
    ensures
        total_grains(new) == total_grains(old),
{
    let n = old.len() as int;
    if n == 0 {
        assert(new =~= Seq::<u32>::empty());
        assert(old =~= Seq::<u32>::empty());
    } else {
        assert(w > 0 && h > 0) by (nonlinear_arith)
            requires
                n == w * h,
                n > 0,
                w >= 0,
                h >= 0,
        ;
        assert((h - 1) * w + (w - 1) == w * h - 1) by (nonlinear_arith);
        lemma_fundamental_div_mod_converse_mod(n - 1, w, h - 1, w - 1);
        let t4 = Seq::new(n as nat, |i: int| if topples(old[i]) { 1int } else { 0int });
        let rr = Seq::new(n as nat, |i: int| recv_right(old, w, i));
        let rl = Seq::new(n as nat, |i: int| recv_left(old, w, i));
        let rb = Seq::new(n as nat, |i: int| recv_below(old, w, h, i));
        let ra = Seq::new(n as nat, |i: int| recv_above(old, w, i));
        let d4 = Seq::new(n as nat, |i: int| dec_amount(old, i));
        let diff = Seq::new(n as nat, |i: int| new[i] - old[i]);
        lemma_total_diff(old, new);

        // Each received grain left a toppling cell: the four receipt sums
        // each equal the count of toppling cells.
        lemma_coords(w, h, 0);
        assert forall|i: int| 0 <= i < 1 implies #[trigger] rl[i] == 0 by {}
        assert forall|i: int| 1 <= i < n implies #[trigger] rl[i] == t4[i - 1] by {
            lemma_neighbors(w, h, i - 1);
        }
        assert forall|j: int| n - 1 <= j < n implies #[trigger] t4[j] == 0 by {}
        lemma_sum_shift(rl, t4, 1);

        assert forall|i: int| 0 <= i < 1 implies #[trigger] t4[i] == 0 by {}
        assert forall|i: int| 1 <= i < n implies #[trigger] t4[i] == rr[i - 1] by {
            lemma_neighbors(w, h, i);
        }
        assert forall|j: int| n - 1 <= j < n implies #[trigger] rr[j] == 0 by {}
        lemma_sum_shift(t4, rr, 1);

        assert forall|i: int| 0 <= i < w implies #[trigger] ra[i] == 0 by {
            lemma_basic_div(i, w);
        }
        assert forall|i: int| w <= i < n implies #[trigger] ra[i] == t4[i - w] by {
            lemma_neighbors(w, h, i - w);
        }
        assert forall|j: int| n - w <= j < n implies #[trigger] t4[j] == 0 by {
            if topples(old[j]) {
                lemma_neighbors(w, h, j);
            }
        }
        lemma_sum_shift(ra, t4, w);

        assert forall|i: int| 0 <= i < w implies #[trigger] t4[i] == 0 by {
            lemma_basic_div(i, w);
        }
        assert forall|i: int| w <= i < n implies #[trigger] t4[i] == rb[i - w] by {
            lemma_neighbors(w, h, i);
        }
        assert forall|j: int| n - w <= j < n implies #[trigger] rb[j] == 0 by {
            lemma_neighbors(w, h, j);
        }
        lemma_sum_shift(t4, rb, w);

        // The decrement sum is four counts of the toppling cells.
        let t8 = Seq::new(n as nat, |i: int| t4[i] + t4[i]);
        lemma_sum_pointwise_add(t4, t4, t8);
        lemma_sum_pointwise_add(t8, t8, d4);

        // The per-cell change is the four receipts minus the decrement.
        let p1 = Seq::new(n as nat, |i: int| rr[i] + rl[i]);
        let p2 = Seq::new(n as nat, |i: int| rb[i] + ra[i]);
        let p3 = Seq::new(n as nat, |i: int| p1[i] + p2[i]);
        lemma_sum_pointwise_add(rr, rl, p1);
        lemma_sum_pointwise_add(rb, ra, p2);
        lemma_sum_pointwise_add(p1, p2, p3);
        assert forall|i: int| 0 <= i < n implies #[trigger] p3[i] == diff[i] + d4[i] by {
            lemma_step_cell_parts(old, w, h, i);
            assert(new[i] == step_cell(old, w, h, i));
        }
        lemma_sum_pointwise_add(diff, d4, p3);
    }
}

/// Law: a toppling corner loses exactly the two grains meant for its two
/// missing neighbours. On an otherwise empty grid whose corner cell holds at
/// least four grains, one step lowers the total by exactly two.
pub proof fn lemma_corner_mass_loss(old: Seq<u32>, new: Seq<u32>, w: int, h: int)
    requires
        stepped(old, new, w, h),
        w >= 2,
        h >= 2,
        topples(old[0]),
        forall|i: int| 1 <= i < old.len() ==> #[trigger] old[i] == 0,
    ensures
        total_grains(new) == total_grains(old) - 2,
{
    let n = old.len() as int;
    assert(n >= 2 * w >= 4) by (nonlinear_arith)
        requires
            n == w * h,
            w >= 2,
            h >= 2,
    ;
    let chain = old.update(0, (old[0] - 4) as u32).update(1, 1u32).update(w, 1u32);
    assert forall|i: int| 0 <= i < n implies new[i] == #[trigger] chain[i] by {
        lemma_neighbors(w, h, i);
        lemma_coords(w, h, i);
        assert(new[i] == step_cell(old, w, h, i));
        if i == 0 {
            lemma_basic_div(0, w);
        } else if i == 1 {
            vstd::arithmetic::div_mod::lemma_small_mod(1nat, w as nat);
            lemma_basic_div(1, w);
        } else if i == w {
            lemma_fundamental_div_mod_converse_mod(w, w, 1, 0);
            vstd::arithmetic::div_mod::lemma_fundamental_div_mod_converse_div(w, w, 1, 0);
        }
    }
    assert(new =~= chain);
    lemma_total_update(old, 0, (old[0] - 4) as u32);
    lemma_total_update(old.update(0, (old[0] - 4) as u32), 1, 1u32);
    lemma_total_update(old.update(0, (old[0] - 4) as u32).update(1, 1u32), w, 1u32);
}

} // verus!
