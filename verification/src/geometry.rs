use vstd::prelude::*;
use crate::units::REACH;

verus! {

/// A point of the grid.
#[derive(Clone, Copy, Debug, PartialEq, Eq, Structural)]
pub struct Point {
    pub x: i64,
    pub y: i64,
}

/// `r` is the integer square root of `n`: the largest natural number whose
/// square does not exceed `n`.
pub open spec fn is_floor_sqrt(r: int, n: int) -> bool {
    0 <= r && r * r <= n < (r + 1) * (r + 1)
}

/// The integer square root of `n`.
pub open spec fn floor_sqrt(n: nat) -> nat {
    choose|r: nat| is_floor_sqrt(r as int, n as int)
}

/// Squares are monotone on the naturals.
pub proof fn lemma_square_le(a: int, b: int)
    requires
        0 <= a <= b,
    ensures
        a * a <= b * b,
{
    assert(a * a <= b * b) by (nonlinear_arith)
        requires
            0 <= a <= b,
    ;
}

/// A smaller square has the smaller root.
pub proof fn lemma_square_lt_rev(a: int, b: int)
    requires
        0 <= a,
        0 <= b,
        a * a < b * b,
    ensures
        a < b,
{
    if a >= b {
        lemma_square_le(b, a);
    }
}

/// At most one number is the integer square root of `n`.
pub proof fn lemma_floor_sqrt_unique(r1: int, r2: int, n: int)
    requires
        is_floor_sqrt(r1, n),
        is_floor_sqrt(r2, n),
    ensures
        r1 == r2,
{
    if r1 < r2 {
        lemma_square_le(r1 + 1, r2);
    } else if r2 < r1 {
        lemma_square_le(r2 + 1, r1);
    }
}

/// A number with the defining property is the integer square root.
pub proof fn lemma_floor_sqrt_is(r: int, n: int)
    requires
        is_floor_sqrt(r, n),
    ensures
        n >= 0,
        floor_sqrt(n as nat) == r,
{
    assert(r * r >= 0) by (nonlinear_arith);
    let w = r as nat;
    assert(is_floor_sqrt(w as int, (n as nat) as int));
    let c = floor_sqrt(n as nat);
    assert(is_floor_sqrt(c as int, n));
    lemma_floor_sqrt_unique(c as int, r, n);
}

/// Every natural number has an integer square root.
pub proof fn lemma_floor_sqrt_exists(n: nat)
    ensures
        is_floor_sqrt(floor_sqrt(n) as int, n as int),
    decreases n,
{
    if n == 0 {
        assert(is_floor_sqrt(0nat as int, n as int));
    } else {
        lemma_floor_sqrt_exists((n - 1) as nat);
        let r = floor_sqrt((n - 1) as nat);
        assert((r + 2) * (r + 2) > (r + 1) * (r + 1)) by (nonlinear_arith)
            requires
                r >= 0,
        ;
        if (r + 1) * (r + 1) <= n {
            assert(is_floor_sqrt((r + 1) as nat as int, n as int));
        } else {
            assert(is_floor_sqrt(r as int, n as int));
        }
    }
}

/// Computes the integer square root by bisection.
pub fn isqrt(n: u128) -> (r: u64)
    ensures
        is_floor_sqrt(r as int, n as int),
        r == floor_sqrt(n as nat),
{
    let mut lo: u128 = 0;
    let mut hi: u128 = 18446744073709551616;
    assert(n < hi * hi) by (nonlinear_arith)
        requires
            hi == 18446744073709551616,
            n <= u128::MAX,
    ;
    while hi - lo > 1
        invariant
            lo < hi <= 18446744073709551616,
            lo * lo <= n < hi * hi,
        decreases hi - lo,
    {
        let mid: u128 = lo + (hi - lo) / 2;
        assert(mid * mid <= u128::MAX) by (nonlinear_arith)
            requires
                mid <= 18446744073709551615,
        ;
        if mid * mid <= n {
            lo = mid;
        } else {
            hi = mid;
        }
    }
    proof {
        assert(hi == lo + 1);
        lemma_floor_sqrt_is(lo as int, n as int);
    }
    lo as u64
}

impl Point {
    /// The point with the given coordinates.
    pub fn new(x: i64, y: i64) -> (p: Point)
        ensures
            p == (Point { x, y }),
    {
        Point { x, y }
    }

    /// Both coordinates lie within [`REACH`] of zero.
    pub open spec fn in_range(self) -> bool {
        -REACH <= self.x <= REACH && -REACH <= self.y <= REACH
    }

    /// Tells whether both coordinates lie within [`REACH`] of zero.
    pub fn is_in_range(&self) -> (r: bool)
        ensures
            r == self.in_range(),
    {
        -REACH <= self.x && self.x <= REACH && -REACH <= self.y && self.y <= REACH
    }

    /// The square of the Euclidean distance between two points.
    pub open spec fn dist2(self, other: Point) -> int {
        (self.x - other.x) * (self.x - other.x) + (self.y - other.y) * (self.y - other.y)
    }

    /// The Euclidean distance between the two points is less than `radius`.
    pub open spec fn near(self, other: Point, radius: int) -> bool {
        radius > 0 && self.dist2(other) < radius * radius
    }

    /// Tells whether `other` lies at a distance of less than `radius`.
    pub fn is_within(&self, other: &Point, radius: i64) -> (r: bool)
        ensures
            r == self.near(*other, radius as int),
    {
        if radius <= 0 {
            return false;
        }
        let dx: i128 = self.x as i128 - other.x as i128;
        let dy: i128 = self.y as i128 - other.y as i128;
        let r: i128 = radius as i128;
        proof {
            assert(dx * dx >= 0 && dy * dy >= 0) by (nonlinear_arith);
            if dx >= r {
                lemma_square_le(r as int, dx as int);
            }
            if dx <= -r {
                lemma_square_le(r as int, -dx as int);
                assert((-dx) * (-dx) == dx * dx) by (nonlinear_arith);
            }
            if dy >= r {
                lemma_square_le(r as int, dy as int);
            }
            if dy <= -r {
                lemma_square_le(r as int, -dy as int);
                assert((-dy) * (-dy) == dy * dy) by (nonlinear_arith);
            }
        }
        if dx >= r || dx <= -r || dy >= r || dy <= -r {
            return false;
        }
        assert(dx * dx < r * r && dy * dy < r * r && r * r < 0x4000_0000_0000_0000_0000_0000_0000_0000)
            by (nonlinear_arith)
            requires
                -r < dx < r,
                -r < dy < r,
                0 < r < 0x8000_0000_0000_0000,
        ;
        dx * dx + dy * dy < r * r
    }
}

} // verus!
