//! Exact integer geometry for toolpaths: points, planes, distances and the
//! arc radius test.

use vstd::prelude::*;

verus! {

/// The largest magnitude that a coordinate may have, in millionths.
pub const COORD_LIMIT: i64 = 1_000_000_000_000_000_000;

/// How far the start radius and the end radius of an arc may differ, in
/// millionths: a hundredth of a unit.
pub const ARC_TOLERANCE: i64 = 10_000;

/// A point or a displacement, each axis in millionths.
#[derive(Clone, Copy, Debug, PartialEq, Eq, Structural)]
pub struct Vec3 {
    pub x: i64,
    pub y: i64,
    pub z: i64,
}

/// A point in a plane, each axis in millionths.
#[derive(Clone, Copy, Debug, PartialEq, Eq, Structural)]
pub struct Vec2 {
    pub x: i64,
    pub y: i64,
}

/// The plane in which arcs are drawn.
#[derive(Clone, Copy, Debug, PartialEq, Eq, Structural)]
pub enum MotionPlane {
    XY,
    XZ,
    YZ,
}

/// Whether `c` is a coordinate within the limit.
pub open spec fn coord_in_range(c: int) -> bool {
    -COORD_LIMIT <= c <= COORD_LIMIT
}

impl Vec3 {
    /// Whether every axis is within the coordinate limit.
    pub open spec fn in_range(self) -> bool {
        coord_in_range(self.x as int) && coord_in_range(self.y as int) && coord_in_range(
            self.z as int,
        )
    }

    /// The origin.
    pub fn zero() -> (r: Vec3)
        ensures
            r == (Vec3 { x: 0, y: 0, z: 0 }),
    {
        Vec3 { x: 0, y: 0, z: 0 }
    }

    /// Executable test for `in_range`.
    pub fn is_in_range(&self) -> (r: bool)
        ensures
            r == self.in_range(),
    {
        within_limit(self.x) && within_limit(self.y) && within_limit(self.z)
    }
}

/// Executable test for `coord_in_range`.
pub fn within_limit(c: i64) -> (r: bool)
    ensures
        r == coord_in_range(c as int),
{
    -COORD_LIMIT <= c && c <= COORD_LIMIT
}

/// The point `v` in the axes of plane `p`: the first two axes span the plane
/// and the third is normal to it.
pub open spec fn swizzle_spec(v: Vec3, p: MotionPlane) -> Vec3 {
    match p {
        MotionPlane::XY => v,
        MotionPlane::XZ => Vec3 { x: v.z, y: v.x, z: v.y },
        MotionPlane::YZ => Vec3 { x: v.y, y: v.z, z: v.x },
    }
}

/// The machine point whose plane axes are `v`: the inverse of `swizzle_spec`.
pub open spec fn unswizzle_spec(v: Vec3, p: MotionPlane) -> Vec3 {
    match p {
        MotionPlane::XY => v,
        MotionPlane::XZ => Vec3 { x: v.y, y: v.z, z: v.x },
        MotionPlane::YZ => Vec3 { x: v.z, y: v.x, z: v.y },
    }
}

/// Takes a machine point into the axes of plane `p`.
pub fn swizzle(v: Vec3, p: MotionPlane) -> (r: Vec3)
    ensures
        r == swizzle_spec(v, p),
        unswizzle_spec(r, p) == v,
{
    match p {
        MotionPlane::XY => v,
        MotionPlane::XZ => Vec3 { x: v.z, y: v.x, z: v.y },
        MotionPlane::YZ => Vec3 { x: v.y, y: v.z, z: v.x },
    }
}

/// Takes a point in the axes of plane `p` back into machine axes.
pub fn unswizzle(v: Vec3, p: MotionPlane) -> (r: Vec3)
    ensures
        r == unswizzle_spec(v, p),
        swizzle_spec(r, p) == v,
{
    match p {
        MotionPlane::XY => v,
        MotionPlane::XZ => Vec3 { x: v.y, y: v.z, z: v.x },
        MotionPlane::YZ => Vec3 { x: v.z, y: v.x, z: v.y },
    }
}

/// The point a fortieth of the way from `a` to `b`, rounded down.
pub open spec fn blend_spec(a: int, b: int) -> int {
    (a * 975 + b * 25) / 1000
}

/// The point a fortieth of the way from `a` to `b` on each axis.
pub open spec fn blend_point(a: Vec3, b: Vec3) -> Vec3 {
    Vec3 {
        x: blend_spec(a.x as int, b.x as int) as i64,
        y: blend_spec(a.y as int, b.y as int) as i64,
        z: blend_spec(a.z as int, b.z as int) as i64,
    }
}

/// Weighs `a` at 97.5% and `b` at 2.5%.
pub fn blend(a: i64, b: i64) -> (r: i64)
    requires
        coord_in_range(a as int),
        coord_in_range(b as int),
    ensures
        r == blend_spec(a as int, b as int),
        coord_in_range(r as int),
{
    let n: i128 = (a as i128) * 975 + (b as i128) * 25;
    if n >= 0 {
        ((n as u128) / 1000) as i64
    } else {
        let m: u128 = ((-n) as u128 + 999) / 1000;
        -(m as i64)
    }
}

/// Weighs each axis of `a` at 97.5% and of `b` at 2.5%.
pub fn blend_points(a: Vec3, b: Vec3) -> (r: Vec3)
    requires
        a.in_range(),
        b.in_range(),
    ensures
        r == blend_point(a, b),
        r.in_range(),
{
    Vec3 { x: blend(a.x, b.x), y: blend(a.y, b.y), z: blend(a.z, b.z) }
}

/// The quotient of `n` by `d`, rounded down.
pub fn floor_div(n: i128, d: i128) -> (q: i128)
    requires
        0 < d <= 0x7fff_ffff_ffff_ffff,
        -0x4000_0000_0000_0000_0000_0000_0000_0000 <= n <= 0x4000_0000_0000_0000_0000_0000_0000_0000,
    ensures
        q == n / d,
        n >= 0 ==> 0 <= q <= n,
        n < 0 ==> n <= q < 0,
{
    if n >= 0 {
        assert(0 <= n / d <= n) by (nonlinear_arith)
            requires
                n >= 0,
                d >= 1,
        ;
        ((n as u128) / (d as u128)) as i128
    } else {
        let x: u128 = (-n) as u128 + (d as u128 - 1);
        let up: u128 = x / (d as u128);
        proof {
            let r = (x as int) % (d as int);
            vstd::arithmetic::div_mod::lemma_fundamental_div_mod(x as int, d as int);
            vstd::arithmetic::div_mod::lemma_mod_bound(x as int, d as int);
            assert(n == (-(up as int)) * d + (d - 1 - r)) by (nonlinear_arith)
                requires
                    x == d * up + r,
                    x == -n + d - 1,
            ;
            vstd::arithmetic::div_mod::lemma_fundamental_div_mod_converse(
                n as int,
                d as int,
                -(up as int),
                d - 1 - r,
            );
            assert(1 <= up <= -n) by (nonlinear_arith)
                requires
                    x == d * up + r,
                    x == -n + d - 1,
                    0 <= r < d,
                    n < 0,
                    d >= 1,
            ;
        }
        -(up as i128)
    }
}

/// Whether `r` is the integer square root of `n`: the largest integer whose
/// square does not exceed `n`.
pub open spec fn is_sqrt(n: nat, r: nat) -> bool {
    r * r <= n < (r + 1) * (r + 1)
}

/// The integer square root of `n`.
pub open spec fn isqrt(n: nat) -> nat {
    choose|r: nat| is_sqrt(n, r)
}

/// The square of the distance between `a` and `b`.
pub open spec fn dist_sq(a: Vec3, b: Vec3) -> nat {
    ((a.x - b.x) * (a.x - b.x) + (a.y - b.y) * (a.y - b.y) + (a.z - b.z) * (a.z - b.z)) as nat
}

/// The distance between `a` and `b`, rounded down to a millionth.
pub open spec fn distance(a: Vec3, b: Vec3) -> nat {
    isqrt(dist_sq(a, b))
}

/// Whether two radii, given by their squares `a` and `b`, differ by less than
/// the arc tolerance `t`.
///
/// With `hi` the larger square and `lo` the smaller, the roots differ by less
/// than `t` exactly when `hi < (sqrt(lo) + t)^2`, that is when
/// `hi - lo - t^2 < 2 * t * sqrt(lo)`; squaring once more removes the root.
pub open spec fn radii_agree(a: nat, b: nat) -> bool {
    let hi: int = if a >= b {
        a as int
    } else {
        b as int
    };
    let lo: int = if a >= b {
        b as int
    } else {
        a as int
    };
    let d: int = hi - lo - ARC_TOLERANCE * ARC_TOLERANCE;
    d < 0 || d * d < 4 * ARC_TOLERANCE * ARC_TOLERANCE * lo
}

/// Squares are monotone on the natural numbers.
pub proof fn lemma_square_monotone(a: nat, b: nat)
    requires
        a <= b,
    ensures
        a * a <= b * b,
{
    assert(a * a <= b * b) by (nonlinear_arith)
        requires
            0 <= a <= b,
    ;
}

/// The square of a number no larger than `m` in magnitude is at most the
/// square of `m`.
pub proof fn lemma_square_bound(d: int, m: int)
    requires
        -m <= d <= m,
    ensures
        0 <= d * d <= m * m,
{
    assert(0 <= d * d <= m * m) by (nonlinear_arith)
        requires
            -m <= d <= m,
    ;
}

/// A number has one integer square root only.
pub proof fn lemma_sqrt_unique(n: nat, r1: nat, r2: nat)
    requires
        is_sqrt(n, r1),
        is_sqrt(n, r2),
    ensures
        r1 == r2,
{
    if r1 < r2 {
        lemma_square_monotone(r1 + 1, r2);
    } else if r2 < r1 {
        lemma_square_monotone(r2 + 1, r1);
    }
}

/// The integer square root of `n`.
pub fn integer_sqrt(n: u128) -> (r: u128)
    ensures
        r == isqrt(n as nat),
        is_sqrt(n as nat, r as nat),
        r < 0x1_0000_0000_0000_0000,
{
    let mut lo: u128 = 0;
    let mut hi: u128 = 0x1_0000_0000_0000_0000;
    assert(n < hi * hi) by (nonlinear_arith)
        requires
            hi == 0x1_0000_0000_0000_0000,
            n <= u128::MAX,
    ;
    while hi - lo > 1
        invariant
            lo < hi <= 0x1_0000_0000_0000_0000,
            lo * lo <= n < hi * hi,
        decreases hi - lo,
    {
        let mid: u128 = lo + (hi - lo) / 2;
        assert(mid * mid <= 0xffff_ffff_ffff_ffff * 0xffff_ffff_ffff_ffff) by (nonlinear_arith)
            requires
                mid <= 0xffff_ffff_ffff_ffff,
        ;
        if mid * mid <= n {
            lo = mid;
        } else {
            hi = mid;
        }
    }
    proof {
        assert(is_sqrt(n as nat, lo as nat));
        let r = isqrt(n as nat);
        lemma_sqrt_unique(n as nat, lo as nat, r);
    }
    lo
}

/// The distance between two points within the coordinate limit.
pub fn point_distance(a: Vec3, b: Vec3) -> (r: u128)
    requires
        a.in_range(),
        b.in_range(),
    ensures
        r == distance(a, b),
        r < 0x4000_0000_0000_0000,
{
    let dx: i128 = a.x as i128 - b.x as i128;
    let dy: i128 = a.y as i128 - b.y as i128;
    let dz: i128 = a.z as i128 - b.z as i128;
    let xx: u128 = square(dx);
    let yy: u128 = square(dy);
    let zz: u128 = square(dz);
    proof {
        lemma_square_bound(dx as int, 2_000_000_000_000_000_000);
        lemma_square_bound(dy as int, 2_000_000_000_000_000_000);
        lemma_square_bound(dz as int, 2_000_000_000_000_000_000);
    }
    let n: u128 = xx + yy + zz;
    let r = integer_sqrt(n);
    proof {
        if r >= 0x4000_0000_0000_0000 {
            lemma_square_monotone(0x4000_0000_0000_0000, r as nat);
        }
    }
    r
}

/// The square of a difference of two coordinates.
pub fn square(d: i128) -> (r: u128)
    requires
        -4_000_000_000_000_000_000 <= d <= 4_000_000_000_000_000_000,
    ensures
        r == d * d,
        r <= 16_000_000_000_000_000_000_000_000_000_000_000_000,
{
    let m: u128 = if d < 0 {
        (-d) as u128
    } else {
        d as u128
    };
    assert(m * m == d * d && m * m <= 16_000_000_000_000_000_000_000_000_000_000_000_000)
        by (nonlinear_arith)
        requires
            m == d || m == -d,
            0 <= m <= 4_000_000_000_000_000_000,
    ;
    m * m
}

/// Whether two radii, given by their squares, differ by less than the arc
/// tolerance.
pub fn radii_within_tolerance(a: u128, b: u128) -> (r: bool)
    requires
        a < 0x1000_0000_0000_0000_0000_0000_0000_0000,
        b < 0x1000_0000_0000_0000_0000_0000_0000_0000,
    ensures
        r == radii_agree(a as nat, b as nat),
{
    let hi: u128 = if a >= b {
        a
    } else {
        b
    };
    let lo: u128 = if a >= b {
        b
    } else {
        a
    };
    if hi - lo < 100_000_000 {
        return true;
    }
    let d: u128 = hi - lo - 100_000_000;
    let q: u128 = d / 20_000;
    let e: u128 = d % 20_000;
    if q >= 0x4000_0000_0000_0000 {
        proof {
            let k: int = 20_000int * 0x4000_0000_0000_0000int;
            lemma_square_bound(k, d as int);
            assert(k * k == 400_000_000 * 0x1000_0000_0000_0000_0000_0000_0000_0000) by (nonlinear_arith)
                requires
                    k == 20_000 * 0x4000_0000_0000_0000,
            ;
        }
        return false;
    }
    assert(q * q <= 0x4000_0000_0000_0000 * 0x4000_0000_0000_0000 && (q + 1) * (q + 1)
        <= 0x4000_0000_0000_0000 * 0x4000_0000_0000_0000) by (nonlinear_arith)
        requires
            q < 0x4000_0000_0000_0000,
    ;
    let qq: u128 = q * q;
    if qq >= lo {
        assert(d * d >= 400_000_000 * lo) by (nonlinear_arith)
            requires
                d >= 20_000 * q,
                qq == q * q,
                qq >= lo,
                lo >= 0,
                q >= 0,
        ;
        return false;
    }
    let above: u128 = (q + 1) * (q + 1);
    if above <= lo {
        assert(d * d < 400_000_000 * lo) by (nonlinear_arith)
            requires
                0 <= d < 20_000 * (q + 1),
                above == (q + 1) * (q + 1),
                above <= lo,
                q >= 0,
        ;
        return true;
    }
    let gap: u128 = lo - qq;
    assert(gap <= 2 * q) by (nonlinear_arith)
        requires
            gap == lo - q * q,
            lo < (q + 1) * (q + 1),
    ;
    assert(40_000 * q * e <= 40_000 * 0x4000_0000_0000_0000 * 20_000) by (nonlinear_arith)
        requires
            0 <= q < 0x4000_0000_0000_0000,
            0 <= e < 20_000,
    ;
    assert(e * e <= 400_000_000) by (nonlinear_arith)
        requires
            0 <= e < 20_000,
    ;
    let left: u128 = 40_000 * q * e + e * e;
    let right: u128 = 400_000_000 * gap;
    assert((left < right) == (d * d < 400_000_000 * lo)) by (nonlinear_arith)
        requires
            d == 20_000 * q + e,
            left == 40_000 * q * e + e * e,
            right == 400_000_000 * gap,
            gap == lo - q * q,
    ;
    left < right
}

/// Every number has an integer square root.
pub proof fn lemma_sqrt_exists(n: nat)
    ensures
        is_sqrt(n, isqrt(n)),
    decreases n,
{
    if n == 0 {
        assert(0nat * 0nat == 0 && (0nat + 1) * (0nat + 1) == 1) by (nonlinear_arith);
        assert(is_sqrt(0, 0));
    } else {
        lemma_sqrt_exists((n - 1) as nat);
        let r = isqrt((n - 1) as nat);
        if (r + 1) * (r + 1) <= n {
            assert(n < (r + 2) * (r + 2)) by (nonlinear_arith)
                requires
                    n - 1 < (r + 1) * (r + 1),
            ;
            assert(is_sqrt(n, r + 1));
        } else {
            assert(is_sqrt(n, r));
        }
    }
}

/// What the radius test means for distances: radii that agree differ by no
/// more than the tolerance once each is rounded down to a millionth, and
/// radii that differ by less than the tolerance once rounded down agree.
pub proof fn lemma_radii_agree_distance(a: nat, b: nat)
    requires
        a >= b,
    ensures
        radii_agree(a, b) ==> isqrt(a) - isqrt(b) <= ARC_TOLERANCE,
        isqrt(a) - isqrt(b) < ARC_TOLERANCE ==> radii_agree(a, b),
        radii_agree(a, b) == radii_agree(b, a),
{
    lemma_sqrt_exists(a);
    lemma_sqrt_exists(b);
    let q = isqrt(a) as int;
    let p = isqrt(b) as int;
    let hi = a as int;
    let lo = b as int;
    let t: int = 10_000;
    let d = hi - lo - t * t;
    if q - p > t {
        assert(hi >= (p + t + 1) * (p + t + 1)) by (nonlinear_arith)
            requires
                hi >= q * q,
                q >= p + t + 1,
                p >= 0,
                t >= 0,
        ;
        assert(d > 2 * t * (p + 1)) by (nonlinear_arith)
            requires
                hi >= (p + t + 1) * (p + t + 1),
                lo < (p + 1) * (p + 1),
                d == hi - lo - t * t,
        ;
        assert(d * d > 4 * t * t * lo) by (nonlinear_arith)
            requires
                d > 2 * t * (p + 1),
                lo < (p + 1) * (p + 1),
                p >= 0,
                t > 0,
                lo >= 0,
        ;
    }
    if q - p < t {
        assert(hi < (p + t) * (p + t)) by (nonlinear_arith)
            requires
                hi < (q + 1) * (q + 1),
                q + 1 <= p + t,
                q >= 0,
        ;
        assert(d < 2 * t * p) by (nonlinear_arith)
            requires
                hi < (p + t) * (p + t),
                lo >= p * p,
                d == hi - lo - t * t,
        ;
        if d >= 0 {
            assert(d * d < 4 * t * t * lo) by (nonlinear_arith)
                requires
                    0 <= d < 2 * t * p,
                    lo >= p * p,
                    p >= 0,
                    t > 0,
            ;
        }
    }
}

} // verus!
