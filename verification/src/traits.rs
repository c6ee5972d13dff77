//! Small numeric traits shared by coordinates and positions.

use vstd::prelude::*;

verus! {

/// Values that can be multiplied by themselves.
pub trait Square: Sized {
    /// Whether the square of `self` is representable in `Self`.
    spec fn sq_fits(&self) -> bool;

    /// The square of `self`.
    spec fn sq_spec(&self) -> Self;

    fn sq(&self) -> (r: Self)
        requires
            self.sq_fits(),
        ensures
            r == self.sq_spec(),
    ;
}

/// Values with a notion of being equal up to a tiny absolute tolerance.
pub trait IsVeryClose {
    /// Whether `self` and `other` differ by less than the tolerance.
    spec fn very_close(&self, other: &Self) -> bool;

    fn is_very_close_to(&self, other: &Self) -> (r: bool)
        ensures
            r == self.very_close(other),
    ;
}

/// Values of which the lesser of two can be picked.
pub trait Minimum {
    /// Whether `self` is strictly less than `other`.
    spec fn less_than(&self, other: &Self) -> bool;

    /// Returns `self` when it is strictly less than `other`, and `other`
    /// otherwise (so `other` wins a tie).
    fn min<'a>(&'a self, other: &'a Self) -> (r: &'a Self)
        ensures
            r == (if self.less_than(other) {
                self
            } else {
                other
            }),
    ;
}

} // verus!
