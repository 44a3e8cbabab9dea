//! Integer square roots and the flat-Earth distance built on them.

use vstd::prelude::*;

verus! {

/// Hundredths of a millimetre spanned by one decimicro-degree: 111.1 km per degree.
pub const LENGTH_SCALE: i64 = 1111;

/// How many hundredths make up one millimetre.
pub const LENGTH_DIVISOR: u128 = 100;

/// `r` is the least natural number whose square reaches `n`.
pub open spec fn is_ceil_sqrt(n: nat, r: nat) -> bool {
    r * r >= n && (r == 0 || (r - 1) * (r - 1) < n)
}

/// The square root of `n`, rounded up to a whole number.
pub open spec fn ceil_sqrt(n: nat) -> nat {
    choose|r: nat| is_ceil_sqrt(n, r)
}

/// The squared Euclidean norm of the vector `(x, y)`.
pub open spec fn sq_norm(x: int, y: int) -> nat {
    (x * x + y * y) as nat
}

/// `a / b`, rounded up.
pub open spec fn div_ceil(a: nat, b: nat) -> nat
    recommends
        b > 0,
{
    (a + b - 1) as nat / b
}

/// Distance in millimetres between two points given in decimicro-degrees:
/// `sqrt(dlat^2 + dlon^2) * 111_100` metres for differences in degrees, rounded up
/// to a whole millimetre.
pub open spec fn flat_distance(lat_a: int, lon_a: int, lat_b: int, lon_b: int) -> nat {
    div_ceil(
        ceil_sqrt(sq_norm(LENGTH_SCALE * (lat_a - lat_b), LENGTH_SCALE * (lon_a - lon_b))),
        LENGTH_DIVISOR as nat,
    )
}

/// No distance between two points with 32-bit coordinates reaches this bound.
pub const DISTANCE_LIMIT: u64 = 0x20_0000_0000;

proof fn lemma_square_monotonic(a: nat, b: nat)
    requires
        a <= b,
    ensures
        a * a <= b * b,
{
    assert(a * a <= b * b) by (nonlinear_arith)
        requires
            a <= b,
    ;
}

/// Every natural number has a rounded-up square root.
pub proof fn lemma_ceil_sqrt_exists(n: nat)
    ensures
        is_ceil_sqrt(n, ceil_sqrt(n)),
    decreases n,
{
    if n == 0 {
        assert(is_ceil_sqrt(0, 0));
    } else {
        lemma_ceil_sqrt_exists((n - 1) as nat);
        let r = ceil_sqrt((n - 1) as nat);
        if r * r >= n {
            assert(is_ceil_sqrt(n, r));
        } else {
            assert(r * r == n - 1);
            assert((r + 1) * (r + 1) >= n) by (nonlinear_arith)
                requires
                    r * r == n - 1,
            ;
            assert(is_ceil_sqrt(n, r + 1));
        }
    }
}

/// The rounded-up square root is unique.
pub proof fn lemma_ceil_sqrt_unique(n: nat, r: nat)
    requires
        is_ceil_sqrt(n, r),
    ensures
        r == ceil_sqrt(n),
{
    let s = ceil_sqrt(n);
    assert(is_ceil_sqrt(n, s));
    if r < s {
        lemma_square_monotonic(r, (s - 1) as nat);
    } else if s < r {
        lemma_square_monotonic(s, (r - 1) as nat);
    }
}

/// Any number whose square reaches `n` bounds the rounded-up root of `n`.
pub proof fn lemma_ceil_sqrt_le(n: nat, r: nat)
    requires
        r * r >= n,
    ensures
        ceil_sqrt(n) <= r,
{
    lemma_ceil_sqrt_exists(n);
    let s = ceil_sqrt(n);
    if r < s {
        lemma_square_monotonic(r, (s - 1) as nat);
    }
}

/// Cauchy-Schwarz in the plane: the dot product is bounded by any pair of numbers whose
/// squares bound the squared norms.
proof fn lemma_dot_bound(ux: int, uy: int, vx: int, vy: int, a: nat, b: nat)
    requires
        a * a >= ux * ux + uy * uy,
        b * b >= vx * vx + vy * vy,
    ensures
        ux * vx + uy * vy <= a * b,
{
    let dot = ux * vx + uy * vy;
    let np = ux * ux + uy * uy;
    let nq = vx * vx + vy * vy;
    let ab = (a * b) as int;
    assert(ab >= 0) by (nonlinear_arith)
        requires
            ab == a * b,
    ;
    if dot > 0 {
        assert(np >= 0 && nq >= 0) by (nonlinear_arith)
            requires
                np == ux * ux + uy * uy,
                nq == vx * vx + vy * vy,
        ;
        let m1 = ux * vx;
        let m2 = uy * vy;
        let n1 = ux * vy;
        let n2 = uy * vx;
        assert((ux * ux) * (vx * vx) == m1 * m1) by (nonlinear_arith)
            requires
                m1 == ux * vx,
        ;
        assert((uy * uy) * (vy * vy) == m2 * m2) by (nonlinear_arith)
            requires
                m2 == uy * vy,
        ;
        assert((ux * ux) * (vy * vy) == n1 * n1) by (nonlinear_arith)
            requires
                n1 == ux * vy,
        ;
        assert((uy * uy) * (vx * vx) == n2 * n2) by (nonlinear_arith)
            requires
                n2 == uy * vx,
        ;
        assert(m1 * m2 == n1 * n2) by (nonlinear_arith)
            requires
                m1 == ux * vx,
                m2 == uy * vy,
                n1 == ux * vy,
                n2 == uy * vx,
        ;
        assert(np * nq == (ux * ux) * (vx * vx) + (ux * ux) * (vy * vy) + (uy * uy) * (vx * vx)
            + (uy * uy) * (vy * vy)) by (nonlinear_arith)
            requires
                np == ux * ux + uy * uy,
                nq == vx * vx + vy * vy,
        ;
        assert(dot * dot == m1 * m1 + 2 * (m1 * m2) + m2 * m2) by (nonlinear_arith)
            requires
                dot == m1 + m2,
        ;
        assert((n1 - n2) * (n1 - n2) == n1 * n1 - 2 * (n1 * n2) + n2 * n2) by (nonlinear_arith);
        assert(np * nq - dot * dot == (ux * vy - uy * vx) * (ux * vy - uy * vx));
        assert((ux * vy - uy * vx) * (ux * vy - uy * vx) >= 0) by (nonlinear_arith);
        assert(np * nq <= (a * a) * (b * b)) by (nonlinear_arith)
            requires
                0 <= np <= a * a,
                0 <= nq <= b * b,
        ;
        assert((a * a) * (b * b) == ab * ab) by (nonlinear_arith)
            requires
                ab == a * b,
        ;
        assert(dot <= ab) by (nonlinear_arith)
            requires
                dot * dot <= ab * ab,
                dot > 0,
                ab >= 0,
        ;
    }
}

/// The rounded-up norm of integer vectors obeys the triangle inequality.
pub proof fn lemma_norm_triangle(ux: int, uy: int, vx: int, vy: int)
    ensures
        ceil_sqrt(sq_norm(ux + vx, uy + vy)) <= ceil_sqrt(sq_norm(ux, uy)) + ceil_sqrt(
            sq_norm(vx, vy),
        ),
{
    let a = ceil_sqrt(sq_norm(ux, uy));
    let b = ceil_sqrt(sq_norm(vx, vy));
    lemma_ceil_sqrt_exists(sq_norm(ux, uy));
    lemma_ceil_sqrt_exists(sq_norm(vx, vy));
    assert(ux * ux + uy * uy >= 0) by (nonlinear_arith);
    assert(vx * vx + vy * vy >= 0) by (nonlinear_arith);
    lemma_dot_bound(ux, uy, vx, vy, a, b);
    let wx = ux + vx;
    let wy = uy + vy;
    assert(wx * wx + wy * wy >= 0) by (nonlinear_arith);
    assert((a + b) * (a + b) >= wx * wx + wy * wy) by (nonlinear_arith)
        requires
            wx == ux + vx,
            wy == uy + vy,
            a * a >= ux * ux + uy * uy,
            b * b >= vx * vx + vy * vy,
            ux * vx + uy * vy <= a * b,
    ;
    lemma_ceil_sqrt_le(sq_norm(wx, wy), a + b);
}

/// Rounding a quotient up is subadditive.
pub proof fn lemma_div_ceil_subadditive(x: nat, y: nat, z: nat, d: nat)
    requires
        d > 0,
        x <= y + z,
    ensures
        div_ceil(x, d) <= div_ceil(y, d) + div_ceil(z, d),
{
    let qy = div_ceil(y, d);
    let qz = div_ceil(z, d);
    assert(qy * d >= y) by (nonlinear_arith)
        requires
            d > 0,
            qy == (y + d - 1) / (d as int),
    ;
    assert(qz * d >= z) by (nonlinear_arith)
        requires
            d > 0,
            qz == (z + d - 1) / (d as int),
    ;
    assert((qy + qz) * d >= x) by (nonlinear_arith)
        requires
            qy * d >= y,
            qz * d >= z,
            x <= y + z,
    ;
    assert((x + d - 1) / (d as int) <= qy + qz) by (nonlinear_arith)
        requires
            d > 0,
            (qy + qz) * d >= x,
    ;
}

/// A point is at distance zero from itself.
pub proof fn lemma_flat_distance_identity(lat: int, lon: int)
    ensures
        flat_distance(lat, lon, lat, lon) == 0,
{
    assert(sq_norm(LENGTH_SCALE * (lat - lat), LENGTH_SCALE * (lon - lon)) == 0);
    assert(is_ceil_sqrt(0, 0));
    lemma_ceil_sqrt_unique(0, 0);
}

/// The distance does not depend on the direction of travel.
pub proof fn lemma_flat_distance_symmetric(lat_a: int, lon_a: int, lat_b: int, lon_b: int)
    ensures
        flat_distance(lat_a, lon_a, lat_b, lon_b) == flat_distance(lat_b, lon_b, lat_a, lon_a),
{
    let x = LENGTH_SCALE * (lat_a - lat_b);
    let y = LENGTH_SCALE * (lon_a - lon_b);
    let xr = LENGTH_SCALE * (lat_b - lat_a);
    let yr = LENGTH_SCALE * (lon_b - lon_a);
    assert(x * x == xr * xr) by (nonlinear_arith)
        requires
            x == -xr,
    ;
    assert(y * y == yr * yr) by (nonlinear_arith)
        requires
            y == -yr,
    ;
}

/// Going through a third point never shortens the way.
pub proof fn lemma_flat_distance_triangle(
    lat_a: int,
    lon_a: int,
    lat_b: int,
    lon_b: int,
    lat_c: int,
    lon_c: int,
)
    ensures
        flat_distance(lat_a, lon_a, lat_c, lon_c) <= flat_distance(lat_a, lon_a, lat_b, lon_b)
            + flat_distance(lat_b, lon_b, lat_c, lon_c),
{
    let ux = LENGTH_SCALE * (lat_a - lat_b);
    let uy = LENGTH_SCALE * (lon_a - lon_b);
    let vx = LENGTH_SCALE * (lat_b - lat_c);
    let vy = LENGTH_SCALE * (lon_b - lon_c);
    lemma_norm_triangle(ux, uy, vx, vy);
    assert(ux + vx == LENGTH_SCALE * (lat_a - lat_c));
    assert(uy + vy == LENGTH_SCALE * (lon_a - lon_c));
    lemma_div_ceil_subadditive(
        ceil_sqrt(sq_norm(ux + vx, uy + vy)),
        ceil_sqrt(sq_norm(ux, uy)),
        ceil_sqrt(sq_norm(vx, vy)),
        LENGTH_DIVISOR as nat,
    );
}

/// Computes the square root of `n`, rounded up.
pub fn ceil_sqrt_u128(n: u128) -> (r: u128)
    ensures
        r == ceil_sqrt(n as nat),
        r <= 0x1_0000_0000_0000_0000,
{
    if n == 0 {
        proof {
            assert(is_ceil_sqrt(0, 0));
            lemma_ceil_sqrt_unique(0, 0);
        }
        return 0;
    }
    let mut low: u128 = 0;
    let mut high: u128 = 0x1_0000_0000_0000_0000;
    assert(high * high >= n) by (nonlinear_arith)
        requires
            high == 0x1_0000_0000_0000_0000,
            n <= u128::MAX,
    ;
    while high - low > 1
        invariant
            low < high <= 0x1_0000_0000_0000_0000,
            low * low < n,
            high * high >= n,
        decreases high - low,
    {
        let mid: u128 = low + (high - low) / 2;
        assert(mid * mid <= 0xffff_ffff_ffff_ffff * 0xffff_ffff_ffff_ffff) by (nonlinear_arith)
            requires
                0 <= mid <= 0xffff_ffff_ffff_ffff,
        ;
        if mid * mid >= n {
            high = mid;
        } else {
            low = mid;
        }
    }
    proof {
        assert(is_ceil_sqrt(n as nat, high as nat));
        lemma_ceil_sqrt_unique(n as nat, high as nat);
    }
    high
}

/// Between points with 32-bit coordinates the distance stays below `DISTANCE_LIMIT`.
pub proof fn lemma_flat_distance_bound(lat_a: i32, lon_a: i32, lat_b: i32, lon_b: i32)
    ensures
        flat_distance(lat_a as int, lon_a as int, lat_b as int, lon_b as int) < DISTANCE_LIMIT,
{
    let dlat = LENGTH_SCALE * (lat_a - lat_b);
    let dlon = LENGTH_SCALE * (lon_a - lon_b);
    assert(0 <= dlat * dlat <= 0x4c5_0000_0000 * 0x4c5_0000_0000) by (nonlinear_arith)
        requires
            -0x4c5_0000_0000 <= dlat <= 0x4c5_0000_0000,
    ;
    assert(0 <= dlon * dlon <= 0x4c5_0000_0000 * 0x4c5_0000_0000) by (nonlinear_arith)
        requires
            -0x4c5_0000_0000 <= dlon <= 0x4c5_0000_0000,
    ;
    let square = sq_norm(dlat, dlon);
    let bound: nat = 0x800_0000_0000;
    assert(bound * bound >= square) by (nonlinear_arith)
        requires
            bound == 0x800_0000_0000,
            square <= 2 * (0x4c5_0000_0000 * 0x4c5_0000_0000),
    ;
    lemma_ceil_sqrt_le(square, bound);
}

/// Computes the flat-Earth distance in millimetres between two points given in
/// decimicro-degrees.
pub fn flat_distance_mm(lat_a: i32, lon_a: i32, lat_b: i32, lon_b: i32) -> (d: u64)
    ensures
        d == flat_distance(lat_a as int, lon_a as int, lat_b as int, lon_b as int),
        d < DISTANCE_LIMIT,
{
    let scale: i128 = LENGTH_SCALE as i128;
    assert(scale == 1111);
    let dlat: i128 = (lat_a as i128 - lat_b as i128) * scale;
    let dlon: i128 = (lon_a as i128 - lon_b as i128) * scale;
    assert(0 <= dlat * dlat <= 0x4c5_0000_0000 * 0x4c5_0000_0000) by (nonlinear_arith)
        requires
            -0x4c5_0000_0000 <= dlat <= 0x4c5_0000_0000,
    ;
    assert(0 <= dlon * dlon <= 0x4c5_0000_0000 * 0x4c5_0000_0000) by (nonlinear_arith)
        requires
            -0x4c5_0000_0000 <= dlon <= 0x4c5_0000_0000,
    ;
    let square: u128 = (dlat * dlat + dlon * dlon) as u128;
    let root: u128 = ceil_sqrt_u128(square);
    proof {
        let bound: nat = 0x800_0000_0000;
        assert(bound * bound >= square) by (nonlinear_arith)
            requires
                bound == 0x800_0000_0000,
                square <= 2 * (0x4c5_0000_0000 * 0x4c5_0000_0000),
        ;
        lemma_ceil_sqrt_le(square as nat, bound);
    }
    let d: u128 = (root + (LENGTH_DIVISOR - 1)) / LENGTH_DIVISOR;
    d as u64
}

} // verus!
