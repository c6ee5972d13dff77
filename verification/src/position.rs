//! Points in space, on a grid of micro-ångströms.

use vstd::prelude::*;
use crate::scalar::{integer_sqrt, is_floor_sqrt};
use crate::traits::{IsVeryClose, Square};

verus! {

/// A point in an unbounded Euclidean frame. Each coordinate is a whole
/// number of micro-ångströms.
#[derive(Clone, Copy, Debug, PartialEq, Eq, Structural)]
pub struct Position {
    pub x: i32,
    pub y: i32,
    pub z: i32,
}

/// `a / b` rounded towards minus infinity.
fn floor_div(a: i64, b: i64) -> (q: i64)
    requires
        0 < b,
        i64::MIN + b <= a,
    ensures
        q == a / b,
{
    if a >= 0 {
        a / b
    } else {
        let up: i64 = (b - 1 - a) / b;
        proof {
            let n = b - 1 - a;
            vstd::arithmetic::div_mod::lemma_fundamental_div_mod(n, b as int);
            vstd::arithmetic::div_mod::lemma_mod_bound(n, b as int);
            let r = b - 1 - n % (b as int);
            assert(a == b * (-up) + r) by (nonlinear_arith)
                requires
                    n == b * up + n % (b as int),
                    n == b - 1 - a,
                    r == b - 1 - n % (b as int),
            ;
            vstd::arithmetic::div_mod::lemma_fundamental_div_mod_converse(
                a as int,
                b as int,
                -up,
                r,
            );
        }
        -up
    }
}

impl Position {
    /// The square of the Euclidean distance between two points.
    pub open spec fn spec_distance_squared(self, other: Position) -> int {
        (self.x - other.x) * (self.x - other.x) + (self.y - other.y) * (self.y - other.y) + (self.z
            - other.z) * (self.z - other.z)
    }

    /// The point halfway between two points, each coordinate rounded down.
    pub open spec fn spec_midpoint(self, other: Position) -> Position {
        Position {
            x: ((self.x + other.x) / 2) as i32,
            y: ((self.y + other.y) / 2) as i32,
            z: ((self.z + other.z) / 2) as i32,
        }
    }

    /// Whether the sum of two points has coordinates that fit.
    pub open spec fn sum_fits(self, rhs: Position) -> bool {
        &&& i32::MIN <= self.x + rhs.x <= i32::MAX
        &&& i32::MIN <= self.y + rhs.y <= i32::MAX
        &&& i32::MIN <= self.z + rhs.z <= i32::MAX
    }

    /// Whether the mirror image of the point through the origin has
    /// coordinates that fit.
    pub open spec fn neg_fits(self) -> bool {
        &&& self.x != i32::MIN
        &&& self.y != i32::MIN
        &&& self.z != i32::MIN
    }

    /// Squared distances are not negative and stay below 2⁶⁶.
    pub proof fn lemma_distance_squared_bounds(self, other: Position)
        ensures
            0 <= self.spec_distance_squared(other) < 0x4_0000_0000_0000_0000,
    {
        lemma_square_of_difference(self.x - other.x);
        lemma_square_of_difference(self.y - other.y);
        lemma_square_of_difference(self.z - other.z);
    }

    /// The point halfway between `self` and `other`.
    pub fn midpoint(&self, other: &Position) -> (r: Position)
        ensures
            r == self.spec_midpoint(*other),
    {
        Position {
            x: floor_div(self.x as i64 + other.x as i64, 2) as i32,
            y: floor_div(self.y as i64 + other.y as i64, 2) as i32,
            z: floor_div(self.z as i64 + other.z as i64, 2) as i32,
        }
    }

    /// The exact square of the distance to `other`, in square
    /// micro-ångströms.
    pub fn distance_squared_to(&self, other: &Position) -> (r: i128)
        ensures
            r == self.spec_distance_squared(*other),
            0 <= r < 0x4_0000_0000_0000_0000,
    {
        let dx: i128 = self.x as i128 - other.x as i128;
        let dy: i128 = self.y as i128 - other.y as i128;
        let dz: i128 = self.z as i128 - other.z as i128;
        proof {
            lemma_square_of_difference(dx as int);
            lemma_square_of_difference(dy as int);
            lemma_square_of_difference(dz as int);
        }
        dx.sq() + dy.sq() + dz.sq()
    }

    /// The Euclidean distance to `other` in micro-ångströms, rounded down.
    pub fn distance_to(&self, other: &Position) -> (r: i64)
        ensures
            is_floor_sqrt(self.spec_distance_squared(*other), r as int),
    {
        let squared: i128 = self.distance_squared_to(other);
        let root: i128 = integer_sqrt(squared);
        assert(root < 0x2_0000_0000) by (nonlinear_arith)
            requires
                0 <= root,
                root * root <= squared,
                squared < 0x4_0000_0000_0000_0000,
        ;
        root as i64
    }

    /// Adds `rhs` to the point, coordinate by coordinate.
    pub fn add_assign(&mut self, rhs: &Position)
        requires
            old(self).sum_fits(*rhs),
        ensures
            final(self).x == old(self).x + rhs.x,
            final(self).y == old(self).y + rhs.y,
            final(self).z == old(self).z + rhs.z,
    {
        self.x = self.x + rhs.x;
        self.y = self.y + rhs.y;
        self.z = self.z + rhs.z;
    }

    /// Divides each coordinate by `rhs`, rounding down: with `add_assign`
    /// this averages points.
    pub fn div_assign(&mut self, rhs: u32)
        requires
            rhs != 0,
        ensures
            final(self).x == (old(self).x as int) / (rhs as int),
            final(self).y == (old(self).y as int) / (rhs as int),
            final(self).z == (old(self).z as int) / (rhs as int),
    {
        proof {
            lemma_quotient_bounds(self.x as int, rhs as int);
            lemma_quotient_bounds(self.y as int, rhs as int);
            lemma_quotient_bounds(self.z as int, rhs as int);
        }
        self.x = floor_div(self.x as i64, rhs as i64) as i32;
        self.y = floor_div(self.y as i64, rhs as i64) as i32;
        self.z = floor_div(self.z as i64, rhs as i64) as i32;
    }

    /// The mirror image of the point through the origin.
    pub fn neg(self) -> (r: Position)
        requires
            self.neg_fits(),
        ensures
            r.x == -self.x,
            r.y == -self.y,
            r.z == -self.z,
    {
        Position { x: -self.x, y: -self.y, z: -self.z }
    }
}

/// The square of a difference of two coordinates is below 2⁶⁴.
proof fn lemma_square_of_difference(d: int)
    requires
        -0xffff_ffff <= d <= 0xffff_ffff,
    ensures
        0 <= d * d < 0x1_0000_0000_0000_0000,
{
    assert(0 <= d * d <= 0xffff_ffff * 0xffff_ffff) by (nonlinear_arith)
        requires
            -0xffff_ffff <= d <= 0xffff_ffff,
    ;
}

/// Dividing by a positive number brings a coordinate no further from zero
/// than it was, up to the rounding.
proof fn lemma_quotient_bounds(a: int, b: int)
    requires
        0 < b,
        i32::MIN <= a <= i32::MAX,
    ensures
        i32::MIN <= a / b <= i32::MAX,
{
    vstd::arithmetic::div_mod::lemma_fundamental_div_mod(a, b);
    vstd::arithmetic::div_mod::lemma_mod_bound(a, b);
    let q = a / b;
    let r = a % b;
    assert(i32::MIN <= q <= i32::MAX) by (nonlinear_arith)
        requires
            a == b * q + r,
            0 <= r < b,
            0 < b,
            i32::MIN <= a <= i32::MAX,
    ;
}

impl Default for Position {
    /// The origin.
    fn default() -> (r: Position)
        ensures
            r == (Position { x: 0, y: 0, z: 0 }),
    {
        Position { x: 0, y: 0, z: 0 }
    }
}

impl IsVeryClose for Position {
    /// Two points are very close when each pair of coordinates is.
    open spec fn very_close(&self, other: &Position) -> bool {
        &&& self.x.very_close(&other.x)
        &&& self.y.very_close(&other.y)
        &&& self.z.very_close(&other.z)
    }

    fn is_very_close_to(&self, other: &Position) -> (r: bool) {
        self.x.is_very_close_to(&other.x) && self.y.is_very_close_to(&other.y)
            && self.z.is_very_close_to(&other.z)
    }
}

} // verus!
