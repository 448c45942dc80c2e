//! Checked cell access, abstracted over the index form: a flat buffer index
//! or an `(x, y)` coordinate pair.

use vstd::prelude::*;
use crate::Field;

verus! {

/// Checked read access under an index of type `Idx`.
pub trait Get<Idx> {
    type Output;

    /// What the caller must know before asking (at most a machine limit on
    /// the index arithmetic).
    spec fn get_req(&self, index: Idx) -> bool;

    /// The cell under `index`, or `None` when the index misses the grid.
    spec fn get_spec(&self, index: Idx) -> Option<Self::Output>;

    /// Returns the cell under `index`, or `None` when the index misses the
    /// grid.
    fn get(&self, index: Idx) -> (r: Option<Self::Output>)
        requires
            self.get_req(index),
        ensures
            r == self.get_spec(index),
    ;
}

/// Checked write access under an index of type `Idx`.
pub trait GetMut<Idx>: Get<Idx> + Sized {
    /// Overwrites the cell under `index` and reports whether the index hit
    /// the grid; a miss leaves the value unchanged.
    fn set(&mut self, index: Idx, value: Self::Output) -> (r: bool)
        requires
            old(self).get_req(index),
        ensures
            r == (old(self).get_spec(index) is Some),
            r ==> final(self).get_spec(index) == Some(value),
            !r ==> *final(self) == *old(self),
            forall|other: Idx|
                other != index ==> #[trigger] final(self).get_spec(other) == old(self).get_spec(
                    other,
                ),
    ;
}

impl<T: Copy> Get<usize> for Field<T> {
    type Output = T;

    open spec fn get_req(&self, index: usize) -> bool {
        true
    }

    open spec fn get_spec(&self, index: usize) -> Option<T> {
        if index < self.data.len() {
            Some(self.data[index as int])
        } else {
            None
        }
    }

    fn get(&self, index: usize) -> (r: Option<T>) {
        if index < self.data.len() {
            Some(self.data[index])
        } else {
            None
        }
    }
}

impl<T: Copy> GetMut<usize> for Field<T> {
    fn set(&mut self, index: usize, value: T) -> (r: bool) {
        if index < self.data.len() {
            self.data[index] = value;
            true
        } else {
            false
        }
    }
}

impl<T: Copy> Get<(usize, usize)> for Field<T> {
    type Output = T;

    open spec fn get_req(&self, index: (usize, usize)) -> bool {
        self.width * index.1 + index.0 <= usize::MAX
    }

    open spec fn get_spec(&self, index: (usize, usize)) -> Option<T> {
        let i = self.spec_from_coords(index.0, index.1);
        if index.0 < self.width && i < self.data.len() {
            Some(self.data[i])
        } else {
            None
        }
    }

    fn get(&self, index: (usize, usize)) -> (r: Option<T>) {
        let (x, y) = index;
        if x < self.width {
            let i = self.from_coords(x, y);
            if i < self.data.len() {
                Some(self.data[i])
            } else {
                None
            }
        } else {
            None
        }
    }
}

impl<T: Copy> GetMut<(usize, usize)> for Field<T> {
    fn set(&mut self, index: (usize, usize), value: T) -> (r: bool) {
        let (x, y) = index;
        if x < self.width {
            let i = self.from_coords(x, y);
            if i < self.data.len() {
                self.data[i] = value;
                proof {
                    assert forall|other: (usize, usize)|
                        other != index implies #[trigger] self.get_spec(other) == old(
                        self,
                    ).get_spec(other) by {
                        if other.0 < self.width && self.spec_from_coords(other.0, other.1)
                            < self.data@.len() {
                            crate::step::lemma_coords_round_trip(
                                self.width as int,
                                other.0 as int,
                                other.1 as int,
                            );
                            crate::step::lemma_coords_round_trip(
                                self.width as int,
                                x as int,
                                y as int,
                            );
                        }
                    }
                }
                true
            } else {
                false
            }
        } else {
            false
        }
    }
}

} // verus!
