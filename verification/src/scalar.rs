//! The numeric traits on the integers that stand for lengths, and the
//! integer square root.
//!
//! A coordinate is an `i32` count of micro-ångströms. Differences of
//! coordinates and their squares are held in `i128`, where they cannot
//! overflow.

use vstd::prelude::*;
use crate::traits::{IsVeryClose, Minimum, Square};

verus! {

/// Length units (micro-ångströms) in one ångström.
pub const UNITS_PER_ANGSTROM: i32 = 1_000_000;

/// Length units (micro-ångströms) in one picometer.
pub const UNITS_PER_PICOMETER: i32 = 10_000;

/// The closeness tolerance is one part in this many of a length unit:
/// 10⁻¹⁶ Å is 10⁻¹⁰ micro-ångströms.
pub const CLOSENESS_PER_UNIT: i64 = 10_000_000_000;

/// One more than the largest `i128` whose square is an `i128`.
pub const SQRT_LIMIT: i128 = 13_043_817_825_332_782_213;

/// Whether two coordinates differ by less than 10⁻¹⁶ Å.
pub open spec fn coordinates_very_close(a: int, b: int) -> bool {
    if a >= b {
        CLOSENESS_PER_UNIT * (a - b) < 1
    } else {
        CLOSENESS_PER_UNIT * (b - a) < 1
    }
}

/// At a resolution of a micro-ångström, only equal coordinates are closer
/// than 10⁻¹⁶ Å.
pub proof fn lemma_very_close_is_equal(a: int, b: int)
    ensures
        coordinates_very_close(a, b) <==> a == b,
{
}

/// Whether `r` is the square root of `n`, rounded down.
pub open spec fn is_floor_sqrt(n: int, r: int) -> bool {
    &&& 0 <= r
    &&& r * r <= n
    &&& n < (r + 1) * (r + 1)
}

impl Square for i128 {
    open spec fn sq_fits(&self) -> bool {
        *self * *self <= i128::MAX
    }

    open spec fn sq_spec(&self) -> i128 {
        (*self * *self) as i128
    }

    fn sq(&self) -> (r: i128) {
        assert(0 <= *self * *self) by (nonlinear_arith);
        *self * *self
    }
}

impl IsVeryClose for i32 {
    open spec fn very_close(&self, other: &i32) -> bool {
        coordinates_very_close(*self as int, *other as int)
    }

    fn is_very_close_to(&self, other: &i32) -> (r: bool) {
        *self == *other
    }
}

impl Minimum for i32 {
    open spec fn less_than(&self, other: &i32) -> bool {
        *self < *other
    }

    fn min<'a>(&'a self, other: &'a i32) -> (r: &'a i32) {
        if *self < *other {
            self
        } else {
            other
        }
    }
}

/// The square root of `n`, rounded down to a whole number.
pub fn integer_sqrt(n: i128) -> (r: i128)
    requires
        0 <= n,
    ensures
        is_floor_sqrt(n as int, r as int),
{
    let mut lo: i128 = 0;
    let mut hi: i128 = SQRT_LIMIT;
    assert(n < SQRT_LIMIT * SQRT_LIMIT) by (nonlinear_arith)
        requires
            n <= i128::MAX,
    ;
    while hi - lo > 1
        invariant
            0 <= lo < hi <= SQRT_LIMIT,
            lo * lo <= n < hi * hi,
        decreases hi - lo,
    {
        let mid: i128 = lo + (hi - lo) / 2;
        assert(0 <= mid * mid <= i128::MAX) by (nonlinear_arith)
            requires
                0 <= mid <= SQRT_LIMIT - 1,
        ;
        if mid * mid <= n {
            lo = mid;
        } else {
            hi = mid;
        }
    }
    lo
}

} // verus!
