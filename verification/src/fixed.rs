//! Fixed-point scalars, points and direction vectors, and the Euclidean length.

use vstd::prelude::*;

verus! {

/// The fixed-point representation of 1: sixteen fractional bits.
pub const ONE: i64 = 65536;

/// The largest magnitude of a world coordinate, in fixed-point units.
pub const COORD_MAX: i64 = 0x8000_0000_0000;

/// A position in the world, in fixed-point units.
#[derive(Clone, Copy, Debug, PartialEq, Eq, Structural)]
pub struct Point {
    pub x: i64,
    pub y: i64,
}

/// A direction in the world: the fixed-point vector that one step along it covers.
/// A heading of angle `a` is the vector (`ONE`·cos `a`, `ONE`·sin `a`).
#[derive(Clone, Copy, Debug, PartialEq, Eq, Structural)]
pub struct Direction {
    pub dx: i32,
    pub dy: i32,
}

impl Point {
    /// Both coordinates lie within `COORD_MAX` of the origin.
    pub open spec fn in_world(self) -> bool {
        &&& -COORD_MAX <= self.x <= COORD_MAX
        &&& -COORD_MAX <= self.y <= COORD_MAX
    }

    /// The point reached from `self` after `steps` steps along `dir`.
    pub open spec fn advanced(self, dir: Direction, steps: int) -> (int, int) {
        (self.x + steps * dir.dx, self.y + steps * dir.dy)
    }

    /// Whether both coordinates lie within `COORD_MAX` of the origin.
    pub fn is_in_world(&self) -> (b: bool)
        ensures
            b == self.in_world(),
    {
        -COORD_MAX <= self.x && self.x <= COORD_MAX && -COORD_MAX <= self.y && self.y <= COORD_MAX
    }
}

impl Direction {
    /// A direction is a vector that is not zero and no longer than one world
    /// unit along either axis.
    pub open spec fn wf(self) -> bool {
        &&& -ONE <= self.dx <= ONE
        &&& -ONE <= self.dy <= ONE
        &&& (self.dx != 0 || self.dy != 0)
    }

    /// Whether the vector is a direction.
    pub fn is_wf(&self) -> (b: bool)
        ensures
            b == self.wf(),
    {
        -65536 <= self.dx && self.dx <= 65536 && -65536 <= self.dy && self.dy <= 65536 && (self.dx
            != 0 || self.dy != 0)
    }
}

/// `r` is the integer square root of `n`: the largest integer whose square is at most `n`.
pub open spec fn is_isqrt(n: int, r: int) -> bool {
    0 <= r && r * r <= n < (r + 1) * (r + 1)
}

/// The integer square root of `n`.
pub open spec fn isqrt(n: int) -> int {
    choose|r: int| is_isqrt(n, r)
}

/// The length of the vector (`dx`, `dy`), rounded down.
pub open spec fn hypot(dx: int, dy: int) -> int {
    isqrt(dx * dx + dy * dy)
}

/// Among numbers that are not negative, the larger has the larger square.
proof fn lemma_square_monotonic(a: int, b: int)
    by (nonlinear_arith)
    requires
        0 <= a <= b,
    ensures
        a * a <= b * b,
{
}

/// Every natural number has an integer square root.
pub proof fn lemma_isqrt_exists(n: int)
    requires
        0 <= n,
    ensures
        is_isqrt(n, isqrt(n)),
    decreases n,
{
    if n == 0 {
        assert(is_isqrt(0, 0));
    } else {
        lemma_isqrt_exists(n - 1);
        let r = isqrt(n - 1);
        if (r + 1) * (r + 1) <= n {
            assert((r + 2) * (r + 2) > (r + 1) * (r + 1)) by (nonlinear_arith)
                requires
                    0 <= r,
            ;
            assert(is_isqrt(n, r + 1));
        } else {
            assert(is_isqrt(n, r));
        }
    }
}

/// The integer square root is unique.
pub proof fn lemma_isqrt_unique(n: int, r: int)
    requires
        is_isqrt(n, r),
    ensures
        r == isqrt(n),
{
    let s = isqrt(n);
    assert(is_isqrt(n, s));
    if r < s {
        lemma_square_monotonic(r + 1, s);
    } else if s < r {
        lemma_square_monotonic(s + 1, r);
    }
}

/// The integer square root of `n`: the largest integer whose square is at
/// most `n`.
pub fn integer_sqrt(n: u128) -> (r: u64)
    ensures
        r == isqrt(n as int),
        is_isqrt(n as int, r as int),
{
    let mut lo: u128 = 0;
    let mut hi: u128 = 0x1_0000_0000_0000_0000;
    while hi - lo > 1
        invariant
            lo < hi <= 0x1_0000_0000_0000_0000,
            lo * lo <= n < hi * hi,
        decreases hi - lo,
    {
        let mid: u128 = lo + (hi - lo) / 2;
        assert(mid * mid <= 0xffff_ffff_ffff_ffff * 0xffff_ffff_ffff_ffff) by (nonlinear_arith)
            requires
                0 <= mid <= 0xffff_ffff_ffff_ffff,
        ;
        if mid * mid <= n {
            lo = mid;
        } else {
            hi = mid;
        }
    }
    proof {
        lemma_isqrt_unique(n as int, lo as int);
    }
    lo as u64
}

/// The magnitude of `v`.
pub fn magnitude(v: i64) -> (m: u128)
    ensures
        m == if v < 0 { -(v as int) } else { v as int },
{
    if v < 0 {
        (-(v as i128)) as u128
    } else {
        v as u128
    }
}

/// The length of the vector (`dx`, `dy`), rounded down to a whole fixed-point unit.
pub fn length(dx: i64, dy: i64) -> (len: u64)
    ensures
        len == hypot(dx as int, dy as int),
        is_isqrt(dx * dx + dy * dy, len as int),
{
    let ax = magnitude(dx);
    let ay = magnitude(dy);
    assert(ax * ax <= 0x8000_0000_0000_0000 * 0x8000_0000_0000_0000) by (nonlinear_arith)
        requires
            0 <= ax <= 0x8000_0000_0000_0000,
    ;
    assert(ay * ay <= 0x8000_0000_0000_0000 * 0x8000_0000_0000_0000) by (nonlinear_arith)
        requires
            0 <= ay <= 0x8000_0000_0000_0000,
    ;
    assert(ax * ax == dx * dx) by (nonlinear_arith)
        requires
            ax == dx || ax == -dx,
    ;
    assert(ay * ay == dy * dy) by (nonlinear_arith)
        requires
            ay == dy || ay == -dy,
    ;
    integer_sqrt(ax * ax + ay * ay)
}

/// The distance between two points of the world, rounded down to a whole
/// fixed-point unit.
pub fn distance(a: Point, b: Point) -> (d: u64)
    requires
        a.in_world(),
        b.in_world(),
    ensures
        d == hypot(b.x - a.x, b.y - a.y),
        is_isqrt((b.x - a.x) * (b.x - a.x) + (b.y - a.y) * (b.y - a.y), d as int),
{
    length(b.x - a.x, b.y - a.y)
}

} // verus!
