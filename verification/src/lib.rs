//! An abelian sandpile automaton over a dense two-dimensional grid.
//!
//! A [`Field`] owns a rectangular buffer of per-cell grain counts. Any cell
//! holding at least four grains topples during a step: it loses exactly four
//! grains and each of its existing cardinal neighbours gains one. Grains sent
//! past the grid edge are dropped (absorbing boundary). Several step
//! strategies are provided; all are proved to compute the same next state.

use vstd::prelude::*;

pub mod get;
pub mod line;
pub mod mass;
pub mod parallel;
pub mod step;
pub mod update;

verus! {

/// A dense rectangular grid of per-cell counts, stored row-major:
/// the cell at column `x`, row `y` lives at index `y * width + x`.
///
/// `old_data` is a scratch buffer holding, between steps, the snapshot of the
/// state that the most recent step started from.
#[derive(Clone, Debug)]
pub struct Field<T> {
    pub width: usize,
    pub height: usize,
    pub data: Vec<T>,
    pub old_data: Vec<T>,
}

/// A grain count: a plain copyable value with a known zero, the value every
/// cell starts from.
pub trait GridCell: Copy {
    /// The zero count.
    spec fn zero_spec() -> Self;

    /// Returns the zero count.
    fn zero() -> (r: Self)
        ensures
            r == Self::zero_spec(),
    ;
}

impl GridCell for u8 {
    open spec fn zero_spec() -> u8 {
        0
    }

    fn zero() -> u8 {
        0
    }
}

impl GridCell for u32 {
    open spec fn zero_spec() -> u32 {
        0
    }

    fn zero() -> u32 {
        0
    }
}

impl<T: GridCell> Field<T> {
    /// A grid of the given dimensions with both buffers zero-filled.
    pub fn new(width: usize, height: usize) -> (r: Self)
        requires
            width * height <= usize::MAX,
        ensures
            r.wf(),
            r.width == width,
            r.height == height,
            r.data@.len() == width * height,
            forall|i: int| 0 <= i < r.data@.len() ==> #[trigger] r.data@[i] == T::zero_spec(),
            r.old_data@ == r.data@,
    {
        let n = width * height;
        let data = zero_cells::<T>(n);
        let old_data = zero_cells::<T>(n);
        proof {
            assert(data@ =~= old_data@);
        }
        Field { width, height, data, old_data }
    }
}

/// A buffer of `n` zero counts.
fn zero_cells<T: GridCell>(n: usize) -> (r: Vec<T>)
    ensures
        r@.len() == n,
        forall|i: int| 0 <= i < n ==> #[trigger] r@[i] == T::zero_spec(),
{
    let mut r: Vec<T> = Vec::new();
    let mut i: usize = 0;
    while i < n
        invariant
            i <= n,
            r@.len() == i,
            forall|j: int| 0 <= j < i ==> #[trigger] r@[j] == T::zero_spec(),
        decreases n - i,
    {
        r.push(T::zero());
        i += 1;
    }
    r
}

impl<T> Field<T> {
    /// Both buffers cover the whole grid.
    pub open spec fn wf(&self) -> bool {
        &&& self.data.len() == self.width * self.height
        &&& self.old_data.len() == self.data.len()
    }

    /// The flat index of column `x`, row `y`.
    pub open spec fn spec_from_coords(&self, x: usize, y: usize) -> int {
        y * self.width + x
    }

    /// Maps a flat index back to `(column, row)`.
    pub fn to_coords(&self, index: usize) -> (r: (usize, usize))
        requires
            self.width > 0,
        ensures
            r.0 == index as int % self.width as int,
            r.1 == index as int / self.width as int,
    {
        (index % self.width, index / self.width)
    }

    /// Maps `(column, row)` to the flat index, without bounds checks.
    pub fn from_coords(&self, x: usize, y: usize) -> (r: usize)
        requires
            self.width * y + x <= usize::MAX,
        ensures
            r == self.spec_from_coords(x, y),
    {
        proof {
            assert(self.width * y == y * self.width) by (nonlinear_arith);
        }
        self.width * y + x
    }

    /// Maps `(column, row)` to the flat index, or `None` when the
    /// coordinates fall outside the grid.
    pub fn from_coords_checked(&self, x: usize, y: usize) -> (r: Option<usize>)
        requires
            self.wf(),
        ensures
            x < self.width && y < self.height ==> r == Some(
                self.spec_from_coords(x, y) as usize,
            ),
            !(x < self.width && y < self.height) ==> r is None,
    {
        if x < self.width && y < self.height {
            proof {
                lemma_row_major_index_bound(self.width as int, self.height as int, x as int, y as int);
            }
            Some(self.width * y + x)
        } else {
            None
        }
    }
}

/// Whether two buffers hold the same counts.
fn eq_cells(a: &Vec<u32>, b: &Vec<u32>) -> (r: bool)
    ensures
        r == (a@ == b@),
{
    if a.len() != b.len() {
        return false;
    }
    let mut i: usize = 0;
    while i < a.len()
        invariant
            a@.len() == b@.len(),
            i <= a@.len(),
            forall|j: int| 0 <= j < i ==> a@[j] == b@[j],
        decreases a@.len() - i,
    {
        if a[i] != b[i] {
            return false;
        }
        i += 1;
    }
    proof {
        assert(a@ =~= b@);
    }
    true
}

impl PartialEq for Field<u32> {
    /// Two grids are equal when their dimensions and both buffers agree.
    fn eq(&self, other: &Field<u32>) -> (r: bool) {
        self.width == other.width && self.height == other.height && eq_cells(
            &self.data,
            &other.data,
        ) && eq_cells(&self.old_data, &other.old_data)
    }
}

impl vstd::std_specs::cmp::PartialEqSpecImpl for Field<u32> {
    open spec fn obeys_eq_spec() -> bool {
        true
    }

    open spec fn eq_spec(&self, other: &Field<u32>) -> bool {
        &&& self.width == other.width
        &&& self.height == other.height
        &&& self.data@ == other.data@
        &&& self.old_data@ == other.old_data@
    }
}

/// For coordinates inside a `w`-by-`h` grid, the row-major index lies inside
/// the grid's buffer.
pub proof fn lemma_row_major_index_bound(w: int, h: int, x: int, y: int)
    requires
        0 <= x < w,
        0 <= y < h,
    ensures
        0 <= y * w + x < w * h,
{
    assert(y * w + x < w * h) by (nonlinear_arith)
        requires
            0 <= x < w,
            0 <= y < h,
    ;
    assert(y * w + x >= 0) by (nonlinear_arith)
        requires
            0 <= x,
            0 <= y,
            0 < w,
    ;
}

} // verus!
