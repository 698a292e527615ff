//! Fixed-point 2-D vector utilities: subtraction, dot product, facing
//! directions as unit vectors, and a normalization that is safe on the
//! zero vector.

use vstd::prelude::*;
use vstd::arithmetic::div_mod::{
    lemma_div_is_ordered_by_denominator, lemma_div_multiples_vanish, lemma_div_pos_is_pos,
    lemma_fundamental_div_mod, lemma_mod_division_less_than_divisor,
};

verus! {

/// Number of fixed-point ticks per world unit.
pub const SCALE: i64 = 1000;

/// `SCALE / sqrt(2)`, rounded: the magnitude of each component of a
/// diagonal unit vector.
pub const DIAG: i64 = 707;

/// Largest coordinate magnitude the vector routines accept; far beyond any
/// playing-field coordinate, it only keeps intermediate products inside the
/// machine integer range.
pub const MAX_COORD: i64 = 0x100_0000_0000;

/// A 2-D vector in fixed-point world coordinates.
#[derive(Clone, Copy, PartialEq, Eq, Structural, Debug)]
pub struct Vec2 {
    pub x: i64,
    pub y: i64,
}

/// Both components of `v` lie within `[-m, m]`.
pub open spec fn bounded(v: Vec2, m: int) -> bool {
    &&& -m <= v.x <= m
    &&& -m <= v.y <= m
}

/// Squared length of `v`.
pub open spec fn len2(v: Vec2) -> int {
    v.x * v.x + v.y * v.y
}

/// The vector from `b` to `a`, fitted back into machine coordinates.
pub open spec fn diff(a: Vec2, b: Vec2) -> Vec2 {
    Vec2 { x: (a.x - b.x) as i64, y: (a.y - b.y) as i64 }
}

/// Componentwise difference `a - b`.
pub fn vsub(a: Vec2, b: Vec2) -> (r: Vec2)
    requires
        bounded(a, MAX_COORD as int),
        bounded(b, MAX_COORD as int),
    ensures
        r.x == a.x - b.x,
        r.y == a.y - b.y,
{
    Vec2 { x: a.x - b.x, y: a.y - b.y }
}

/// Dot product of two integer pairs.
pub open spec fn dot_spec(ax: int, ay: int, bx: int, by: int) -> int {
    ax * bx + ay * by
}

/// Dot product. Both inputs are expected to be (near-)unit vectors, so the
/// result is a cosine-similarity proxy scaled by `SCALE * SCALE`.
pub fn dot(a: Vec2, b: Vec2) -> (r: i64)
    requires
        bounded(a, 0x4000_0000),
        bounded(b, 0x4000_0000),
    ensures
        r == dot_spec(a.x as int, a.y as int, b.x as int, b.y as int),
{
    proof {
        assert(-0x1000_0000_0000_0000 <= a.x * b.x <= 0x1000_0000_0000_0000)
            by (nonlinear_arith)
            requires
                -0x4000_0000 <= a.x <= 0x4000_0000,
                -0x4000_0000 <= b.x <= 0x4000_0000,
        ;
        assert(-0x1000_0000_0000_0000 <= a.y * b.y <= 0x1000_0000_0000_0000)
            by (nonlinear_arith)
            requires
                -0x4000_0000 <= a.y <= 0x4000_0000,
                -0x4000_0000 <= b.y <= 0x4000_0000,
        ;
    }
    a.x * b.x + a.y * b.y
}

/// The unit vector for a facing direction given in eighth turns
/// (0 = straight up, increasing clockwise), scaled by `SCALE`.
pub open spec fn dir_vec(d: int) -> (int, int) {
    if d == 0 {
        (0, -1000)
    } else if d == 1 {
        (707, -707)
    } else if d == 2 {
        (1000, 0)
    } else if d == 3 {
        (707, 707)
    } else if d == 4 {
        (0, 1000)
    } else if d == 5 {
        (-707, 707)
    } else if d == 6 {
        (-1000, 0)
    } else {
        (-707, -707)
    }
}

/// Converts a facing direction (eighth turns, 0 = up, clockwise) to its
/// fixed-point unit vector.
pub fn angle_to_vector(d: u8) -> (r: Vec2)
    requires
        d < 8,
    ensures
        r.x == dir_vec(d as int).0,
        r.y == dir_vec(d as int).1,
{
    if d == 0 {
        Vec2 { x: 0, y: -1000 }
    } else if d == 1 {
        Vec2 { x: 707, y: -707 }
    } else if d == 2 {
        Vec2 { x: 1000, y: 0 }
    } else if d == 3 {
        Vec2 { x: 707, y: 707 }
    } else if d == 4 {
        Vec2 { x: 0, y: 1000 }
    } else if d == 5 {
        Vec2 { x: -707, y: 707 }
    } else if d == 6 {
        Vec2 { x: -1000, y: 0 }
    } else {
        Vec2 { x: -707, y: -707 }
    }
}

/// The integer square root, rounded down.
pub open spec fn sqrt_floor(n: nat) -> nat
    decreases n,
{
    if n == 0 {
        0
    } else {
        let r = sqrt_floor((n - 1) as nat);
        if (r + 1) * (r + 1) <= n {
            (r + 1) as nat
        } else {
            r
        }
    }
}

/// `sqrt_floor(n)` is the largest integer whose square is at most `n`.
pub proof fn lemma_sqrt_floor_bounds(n: nat)
    ensures
        sqrt_floor(n) * sqrt_floor(n) <= n,
        n < (sqrt_floor(n) + 1) * (sqrt_floor(n) + 1),
    decreases n,
{
    if n == 0 {
        assert(sqrt_floor(0) == 0);
        assert(sqrt_floor(n) * sqrt_floor(n) <= n);
        assert(n < (sqrt_floor(n) + 1) * (sqrt_floor(n) + 1)) by (nonlinear_arith)
            requires
                n == 0nat,
                sqrt_floor(n) == 0nat,
        ;
    } else {
        lemma_sqrt_floor_bounds((n - 1) as nat);
        let r = sqrt_floor((n - 1) as nat);
        assert(r * r <= n - 1);
        assert(n - 1 < (r + 1) * (r + 1));
        if (r + 1) * (r + 1) <= n {
            assert(sqrt_floor(n) == r + 1);
            assert(n - 1 < (r + 1) * (r + 1));
            assert((r + 1) * (r + 1) < (r + 2) * (r + 2)) by (nonlinear_arith);
            assert(n < (r + 2) * (r + 2));
        } else {
            assert(sqrt_floor(n) == r);
            assert(r * r <= n - 1);
            assert(n < (r + 1) * (r + 1));
        }
    }
}

/// Any integer bracketing `n` between consecutive squares is `sqrt_floor(n)`.
pub proof fn lemma_sqrt_floor_unique(n: nat, r: nat)
    requires
        r * r <= n,
        n < (r + 1) * (r + 1),
    ensures
        r == sqrt_floor(n),
{
    lemma_sqrt_floor_bounds(n);
    let s = sqrt_floor(n);
    if r < s {
        assert((r + 1) * (r + 1) <= s * s) by (nonlinear_arith)
            requires
                r + 1 <= s,
        ;
    } else if s < r {
        assert((s + 1) * (s + 1) <= r * r) by (nonlinear_arith)
            requires
                s + 1 <= r,
        ;
    }
}

/// The integer square root is monotone.
pub proof fn lemma_sqrt_floor_mono(m: nat, n: nat)
    requires
        m <= n,
    ensures
        sqrt_floor(m) <= sqrt_floor(n),
{
    lemma_sqrt_floor_bounds(m);
    lemma_sqrt_floor_bounds(n);
    let a = sqrt_floor(m);
    let b = sqrt_floor(n);
    if b < a {
        assert((b + 1) * (b + 1) <= a * a) by (nonlinear_arith)
            requires
                b + 1 <= a,
        ;
    }
}

/// The integer square root of a perfect square is exact.
pub proof fn lemma_sqrt_floor_square(k: nat)
    ensures
        sqrt_floor(k * k) == k,
{
    assert(k * k < (k + 1) * (k + 1)) by (nonlinear_arith);
    lemma_sqrt_floor_unique(k * k, k);
}

/// Integer square root, rounded down, by bisection.
pub fn isqrt(n: u128) -> (r: u64)
    ensures
        r == sqrt_floor(n as nat),
        r * r <= n,
        n < (r + 1) * (r + 1),
{
    let mut lo: u128 = 0;
    let mut hi: u128 = 0x1_0000_0000_0000_0000;
    proof {
        assert(hi * hi > n) by (nonlinear_arith)
            requires
                hi == 0x1_0000_0000_0000_0000,
                n <= u128::MAX,
        ;
    }
    while lo + 1 < hi
        invariant
            lo < hi <= 0x1_0000_0000_0000_0000,
            lo * lo <= n,
            hi * hi > n,
        decreases hi - lo,
    {
        let mid = lo + (hi - lo) / 2;
        proof {
            assert(lo < mid < hi);
            assert(mid * mid <= 0xFFFF_FFFF_FFFF_FFFF * 0xFFFF_FFFF_FFFF_FFFF)
                by (nonlinear_arith)
                requires
                    0 <= mid <= 0xFFFF_FFFF_FFFF_FFFF,
            ;
        }
        if mid * mid <= n {
            lo = mid;
        } else {
            hi = mid;
        }
    }
    proof {
        lemma_sqrt_floor_unique(n as nat, lo as nat);
    }
    lo as u64
}

/// Fixed-point length of `v`: `sqrt_floor` of the squared length.
pub open spec fn sn_len(v: Vec2) -> int {
    sqrt_floor(len2(v) as nat) as int
}

/// The length of `v` on a grid one thousand times finer, for precise
/// normalization.
pub open spec fn sn_scaled_len(v: Vec2) -> int {
    sqrt_floor((len2(v) * 1_000_000) as nat) as int
}

/// One fixed-point component of the unit vector along `v` (zero when `v` is
/// the zero vector).
pub open spec fn sn_unit_comp(c: int, v: Vec2) -> int {
    if len2(v) == 0 {
        0
    } else if c >= 0 {
        (c * 1_000_000) / sn_scaled_len(v)
    } else {
        -(((-c) * 1_000_000) / sn_scaled_len(v))
    }
}

/// The x component of the unit vector along `v`.
pub open spec fn sn_unit_x(v: Vec2) -> int {
    sn_unit_comp(v.x as int, v)
}

/// The y component of the unit vector along `v`.
pub open spec fn sn_unit_y(v: Vec2) -> int {
    sn_unit_comp(v.y as int, v)
}

/// Normalizes `v`, returning its fixed-point unit vector and its length.
/// The zero vector has no meaningful direction: it comes back unchanged with
/// length zero, and callers must treat that as "no direction".
pub fn safe_normalize(v: Vec2) -> (r: (Vec2, i64))
    requires
        bounded(v, MAX_COORD as int),
    ensures
        r.0.x == sn_unit_x(v),
        r.0.y == sn_unit_y(v),
        r.1 == sn_len(v),
        -SCALE <= r.0.x <= SCALE,
        -SCALE <= r.0.y <= SCALE,
        0 <= r.1,
        (r.1 == 0) <==> (v.x == 0 && v.y == 0),
        r.1 * r.1 <= len2(v),
        len2(v) < (r.1 + 1) * (r.1 + 1),
{
    if v.x == 0 && v.y == 0 {
        proof {
            assert(len2(v) == 0) by (nonlinear_arith)
                requires
                    v.x == 0 && v.y == 0,
            ;
            assert(sqrt_floor(0nat) == 0);
        }
        (Vec2 { x: 0, y: 0 }, 0)
    } else {
        let ax: u64 = if v.x >= 0 {
            v.x as u64
        } else {
            (-v.x) as u64
        };
        let ay: u64 = if v.y >= 0 {
            v.y as u64
        } else {
            (-v.y) as u64
        };
        proof {
            assert(ax * ax == v.x * v.x && ax * ax <= 0x100_0000_0000 * 0x100_0000_0000)
                by (nonlinear_arith)
                requires
                    ax == (if v.x >= 0 { v.x as int } else { -(v.x as int) }),
                    -0x100_0000_0000 <= v.x <= 0x100_0000_0000,
            ;
            assert(ay * ay == v.y * v.y && ay * ay <= 0x100_0000_0000 * 0x100_0000_0000)
                by (nonlinear_arith)
                requires
                    ay == (if v.y >= 0 { v.y as int } else { -(v.y as int) }),
                    -0x100_0000_0000 <= v.y <= 0x100_0000_0000,
            ;
        }
        let n: u128 = (ax as u128) * (ax as u128) + (ay as u128) * (ay as u128);
        assert(n == len2(v));
        let len = isqrt(n);
        let m = isqrt(n * 1_000_000);
        proof {
            // v is not the zero vector, so its squared length is at least one
            // and the scaled length is at least the full scale factor.
            assert(n >= 1) by (nonlinear_arith)
                requires
                    n == len2(v),
                    ax * ax == v.x * v.x,
                    ay * ay == v.y * v.y,
                    ax >= 1 || ay >= 1,
            ;
            assert(sqrt_floor(1_000_000nat) == 1000) by {
                lemma_sqrt_floor_square(1000nat);
            }
            lemma_sqrt_floor_mono(1_000_000nat, (n * 1_000_000) as nat);
            assert(m >= 1000);
            lemma_sqrt_floor_mono(1nat, n as nat);
            lemma_sqrt_floor_square(1nat);
            assert(len >= 1);
            // the length fits comfortably in an i64
            assert(len <= 0x200_0000_0000) by (nonlinear_arith)
                requires
                    len * len <= n,
                    n <= 0x2_0000_0000_0000_0000_0000,
            ;
            // the scaled length dominates 1000 * ax and 1000 * ay, which
            // caps each unit component at the scale factor
            assert((1000 * ax) * (1000 * ax) == ax * ax * 1_000_000) by (nonlinear_arith);
            assert((1000 * ay) * (1000 * ay) == ay * ay * 1_000_000) by (nonlinear_arith);
            assert(ax * ax * 1_000_000 <= n * 1_000_000) by (nonlinear_arith)
                requires
                    ax * ax <= n,
            ;
            assert(ay * ay * 1_000_000 <= n * 1_000_000) by (nonlinear_arith)
                requires
                    ay * ay <= n,
            ;
            lemma_sqrt_floor_square((1000 * ax) as nat);
            lemma_sqrt_floor_square((1000 * ay) as nat);
            lemma_sqrt_floor_mono(((1000 * ax) * (1000 * ax)) as nat, (n * 1_000_000) as nat);
            lemma_sqrt_floor_mono(((1000 * ay) * (1000 * ay)) as nat, (n * 1_000_000) as nat);
            assert(m >= 1000 * ax && m >= 1000 * ay);
        }
        let ux = ax * 1_000_000 / m;
        let uy = ay * 1_000_000 / m;
        proof {
            lemma_unit_comp_capped(ax as int, m as int);
            lemma_unit_comp_capped(ay as int, m as int);
            assert(ux <= 1000 && uy <= 1000);
        }
        let rx: i64 = if v.x >= 0 {
            ux as i64
        } else {
            -(ux as i64)
        };
        let ry: i64 = if v.y >= 0 {
            uy as i64
        } else {
            -(uy as i64)
        };
        (Vec2 { x: rx, y: ry }, len as i64)
    }
}

/// With a scaled length of at least `1000 * a`, the unit component
/// `a * 1_000_000 / m` cannot exceed the scale factor.
proof fn lemma_unit_comp_capped(a: int, m: int)
    requires
        0 <= a,
        1000 <= m,
        m >= 1000 * a,
    ensures
        0 <= a * 1_000_000 / m <= 1000,
{
    lemma_div_pos_is_pos(a * 1_000_000, m);
    if a == 0 {
        assert(a * 1_000_000 == 0);
        assert(0int / m == 0) by (nonlinear_arith)
            requires
                m >= 1000,
        ;
    } else {
        lemma_div_is_ordered_by_denominator(a * 1_000_000, 1000 * a, m);
        assert(a * 1_000_000 == (1000 * a) * 1000) by (nonlinear_arith);
        lemma_div_multiples_vanish(1000, 1000 * a);
        assert(((1000 * a) * 1000) / (1000 * a) == 1000);
    }
}

/// The unit vector returned by `safe_normalize` for any nonzero vector has
/// length one within half a percent: its squared fixed-point length lies
/// within `[SCALE * SCALE - 4001, SCALE * SCALE + 2000]`.
pub proof fn lemma_unit_vec_length(v: Vec2)
    requires
        bounded(v, MAX_COORD as int),
        len2(v) > 0,
    ensures
        1_000_000 - 4002 < sn_unit_x(v) * sn_unit_x(v) + sn_unit_y(v) * sn_unit_y(v) <= 1_002_000,
{
    let a = if v.x >= 0 { v.x as int } else { -(v.x as int) };
    let b = if v.y >= 0 { v.y as int } else { -(v.y as int) };
    let n = len2(v);
    assert(n == a * a + b * b && a >= 0 && b >= 0) by (nonlinear_arith)
        requires
            a == (if v.x >= 0 { v.x as int } else { -(v.x as int) }),
            b == (if v.y >= 0 { v.y as int } else { -(v.y as int) }),
            n == len2(v),
            n == v.x * v.x + v.y * v.y,
    ;
    let m = sn_scaled_len(v);
    lemma_sqrt_floor_bounds((n * 1_000_000) as nat);
    assert(m * m <= n * 1_000_000 < (m + 1) * (m + 1));
    // m is at least the full scale factor
    lemma_sqrt_floor_square(1000nat);
    lemma_sqrt_floor_mono(1_000_000nat, (n * 1_000_000) as nat);
    assert(m >= 1000);
    // m dominates 1000 * a and 1000 * b
    assert((1000 * a) * (1000 * a) == a * a * 1_000_000 && a * a * 1_000_000 <= n * 1_000_000)
        by (nonlinear_arith)
        requires
            a * a <= n,
            a >= 0,
    ;
    assert((1000 * b) * (1000 * b) == b * b * 1_000_000 && b * b * 1_000_000 <= n * 1_000_000)
        by (nonlinear_arith)
        requires
            b * b <= n,
            b >= 0,
    ;
    lemma_sqrt_floor_square((1000 * a) as nat);
    lemma_sqrt_floor_square((1000 * b) as nat);
    lemma_sqrt_floor_mono(((1000 * a) * (1000 * a)) as nat, (n * 1_000_000) as nat);
    lemma_sqrt_floor_mono(((1000 * b) * (1000 * b)) as nat, (n * 1_000_000) as nat);
    assert(m >= 1000 * a && m >= 1000 * b);
    let qa = a * 1_000_000 / m;
    let qb = b * 1_000_000 / m;
    lemma_unit_comp_capped(a, m);
    lemma_unit_comp_capped(b, m);
    assert(0 <= qa <= 1000 && 0 <= qb <= 1000);
    // the unit components are qa and qb up to sign
    assert(sn_unit_x(v) * sn_unit_x(v) == qa * qa) by (nonlinear_arith)
        requires
            sn_unit_x(v) == qa || sn_unit_x(v) == -qa,
    ;
    assert(sn_unit_y(v) * sn_unit_y(v) == qb * qb) by (nonlinear_arith)
        requires
            sn_unit_y(v) == qb || sn_unit_y(v) == -qb,
    ;
    // bracket m * qa around a * 1_000_000
    lemma_fundamental_div_mod(a * 1_000_000, m);
    lemma_fundamental_div_mod(b * 1_000_000, m);
    lemma_mod_division_less_than_divisor(a * 1_000_000, m);
    lemma_mod_division_less_than_divisor(b * 1_000_000, m);
    assert(m * qa <= a * 1_000_000 < m * (qa + 1)) by (nonlinear_arith)
        requires
            a * 1_000_000 == m * qa + (a * 1_000_000) % m,
            0 <= (a * 1_000_000) % m < m,
    ;
    assert(m * qb <= b * 1_000_000 < m * (qb + 1)) by (nonlinear_arith)
        requires
            b * 1_000_000 == m * qb + (b * 1_000_000) % m,
            0 <= (b * 1_000_000) % m < m,
    ;
    // upper bound: (qa^2 + qb^2) m^2 <= n * 10^12 <= (m^2 + 2m) * 10^6
    assert((qa * qa + qb * qb) * (m * m) <= (n * 1_000_000) * 1_000_000) by (nonlinear_arith)
        requires
            0 <= m * qa <= a * 1_000_000,
            0 <= m * qb <= b * 1_000_000,
            n == a * a + b * b,
            0 <= qa && 0 <= qb,
    ;
    assert((n * 1_000_000) * 1_000_000 <= (m * m + 2 * m) * 1_000_000) by (nonlinear_arith)
        requires
            n * 1_000_000 < (m + 1) * (m + 1),
    ;
    assert(qa * qa + qb * qb <= 1_002_000) by (nonlinear_arith)
        requires
            (qa * qa + qb * qb) * (m * m) <= (m * m + 2 * m) * 1_000_000,
            m >= 1000,
    ;
    // lower bound: ((qa+1)^2 + (qb+1)^2) m^2 > n * 10^12 >= m^2 * 10^6
    assert(((qa + 1) * (qa + 1) + (qb + 1) * (qb + 1)) * (m * m) > (n * 1_000_000) * 1_000_000)
        by (nonlinear_arith)
        requires
            m * (qa + 1) > a * 1_000_000,
            m * (qb + 1) > b * 1_000_000,
            a >= 0,
            b >= 0,
            m >= 1000,
            n == a * a + b * b,
    ;
    assert((n * 1_000_000) * 1_000_000 >= (m * m) * 1_000_000) by (nonlinear_arith)
        requires
            m * m <= n * 1_000_000,
    ;
    assert((qa + 1) * (qa + 1) + (qb + 1) * (qb + 1) > 1_000_000) by (nonlinear_arith)
        requires
            ((qa + 1) * (qa + 1) + (qb + 1) * (qb + 1)) * (m * m) > (m * m) * 1_000_000,
            m >= 1000,
    ;
    assert(qa * qa + qb * qb > 1_000_000 - 4002) by (nonlinear_arith)
        requires
            (qa + 1) * (qa + 1) + (qb + 1) * (qb + 1) > 1_000_000,
            0 <= qa <= 1000,
            0 <= qb <= 1000,
    ;
}

/// Every facing direction has a nonzero unit vector whose squared length is
/// `SCALE * SCALE` within a third of a percent.
pub proof fn lemma_dir_vec_unit(d: int)
    requires
        0 <= d < 8,
    ensures
        dir_vec(d).0 != 0 || dir_vec(d).1 != 0,
        999698 <= dir_vec(d).0 * dir_vec(d).0 + dir_vec(d).1 * dir_vec(d).1 <= 1000000,
{
    if d == 0 {
        assert(dir_vec(d) == (0int, -1000int));
    } else if d == 1 {
        assert(dir_vec(d) == (707int, -707int));
    } else if d == 2 {
        assert(dir_vec(d) == (1000int, 0int));
    } else if d == 3 {
        assert(dir_vec(d) == (707int, 707int));
    } else if d == 4 {
        assert(dir_vec(d) == (0int, 1000int));
    } else if d == 5 {
        assert(dir_vec(d) == (-707int, 707int));
    } else if d == 6 {
        assert(dir_vec(d) == (-1000int, 0int));
    } else {
        assert(dir_vec(d) == (-707int, -707int));
    }
}

} // verus!
