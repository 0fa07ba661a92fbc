//! Fixed-point scalar and 3D vector arithmetic.
//!
//! Coordinates are `i64` values carrying `SCALE` fixed-point units per
//! world unit. Spec-level vectors are triples of mathematical integers;
//! every executable operation is proved to match its spec exactly.

use vstd::prelude::*;

verus! {

/// Fixed-point units per world unit: a vector of length `SCALE` is a unit vector.
pub const SCALE: i64 = 1000;

/// Bound on position and velocity coordinates accepted by the simulation.
pub const COORD_LIMIT: i64 = 1_000_000_000;

/// Largest component magnitude allowed into `v3_len` and `v3_normalize`.
pub const LEN_IN_LIMIT: i64 = 2_000_000_000_000_000_000;

/// Largest component magnitude allowed into `v3_normalize` and `v3_clamp`.
pub const NORM_IN_LIMIT: i64 = 1_000_000_000_000_000;

/// Truncating (round-toward-zero) division, the semantics of Rust's `/` on
/// signed integers, for a positive divisor.
pub open spec fn div_t(a: int, b: int) -> int
    recommends
        b > 0,
{
    if a >= 0 {
        a / b
    } else {
        -((-a) / b)
    }
}

/// The integer square root: the largest `r >= 0` with `r * r <= n`.
pub open spec fn sqrt_floor(n: int) -> int
    decreases n,
{
    if n < 1 {
        0
    } else {
        if (sqrt_floor(n - 1) + 1) * (sqrt_floor(n - 1) + 1) <= n {
            sqrt_floor(n - 1) + 1
        } else {
            sqrt_floor(n - 1)
        }
    }
}

pub proof fn lemma_sqrt_floor_bounds(n: int)
    requires
        n >= 0,
    ensures
        0 <= sqrt_floor(n),
        sqrt_floor(n) * sqrt_floor(n) <= n,
        n < (sqrt_floor(n) + 1) * (sqrt_floor(n) + 1),
    decreases n,
{
    if n == 0 {
    } else {
        lemma_sqrt_floor_bounds(n - 1);
        let r = sqrt_floor(n - 1);
        if (r + 1) * (r + 1) <= n {
            assert(n < (r + 2) * (r + 2)) by (nonlinear_arith)
                requires
                    0 <= r,
                    n - 1 < (r + 1) * (r + 1),
                    (r + 1) * (r + 1) <= n,
            ;
        }
    }
}

pub proof fn lemma_sqrt_floor_unique(n: int, r: int)
    requires
        n >= 0,
        r >= 0,
        r * r <= n,
        n < (r + 1) * (r + 1),
    ensures
        sqrt_floor(n) == r,
{
    lemma_sqrt_floor_bounds(n);
    let s = sqrt_floor(n);
    if s < r {
        assert((s + 1) * (s + 1) <= r * r) by (nonlinear_arith)
            requires
                0 <= s,
                s < r,
        ;
    }
    if r < s {
        assert((r + 1) * (r + 1) <= s * s) by (nonlinear_arith)
            requires
                0 <= r,
                r < s,
        ;
    }
}

/// Division by a positive divisor cannot grow a non-negative dividend.
pub proof fn lemma_div_bounds(a: int, b: int)
    requires
        a >= 0,
        b > 0,
    ensures
        0 <= a / b <= a,
{
    assert(0 <= a / b <= a) by (nonlinear_arith)
        requires
            a >= 0,
            b > 0,
    ;
}

/// Magnitude bound for truncating division: if `|a| <= c * b` then `|div_t(a, b)| <= c`.
pub proof fn lemma_div_t_bound(a: int, b: int, c: int)
    requires
        b > 0,
        c >= 0,
        -(c * b) <= a <= c * b,
    ensures
        -c <= div_t(a, b) <= c,
{
    if a >= 0 {
        assert(a / b <= c) by (nonlinear_arith)
            requires
                b > 0,
                c >= 0,
                a <= c * b,
                a >= 0,
        ;
        lemma_div_bounds(a, b);
    } else {
        assert((-a) / b <= c) by (nonlinear_arith)
            requires
                b > 0,
                c >= 0,
                -a <= c * b,
                -a >= 0,
        ;
        lemma_div_bounds(-a, b);
    }
}

/// Truncating division keeps the dividend's sign and reaches 1 once `a >= b`.
pub proof fn lemma_div_t_pos(a: int, b: int)
    requires
        b > 0,
        a >= b,
    ensures
        div_t(a, b) >= 1,
{
    assert(a / b >= 1) by (nonlinear_arith)
        requires
            b > 0,
            a >= b,
    ;
}

/// Truncating division of `i64` values, via unsigned division of magnitudes.
pub fn div_fix(a: i64, b: i64) -> (r: i64)
    requires
        b > 0,
        a > i64::MIN,
    ensures
        r as int == div_t(a as int, b as int),
{
    if a >= 0 {
        proof {
            lemma_div_bounds(a as int, b as int);
        }
        ((a as u64) / (b as u64)) as i64
    } else {
        proof {
            lemma_div_bounds(-(a as int), b as int);
        }
        let n: u64 = (-a) as u64;
        -((n / (b as u64)) as i64)
    }
}

/// Truncating division of `i128` values, via unsigned division of magnitudes.
pub fn div_fix_wide(a: i128, b: i128) -> (r: i128)
    requires
        b > 0,
        a > i128::MIN,
    ensures
        r as int == div_t(a as int, b as int),
{
    if a >= 0 {
        proof {
            lemma_div_bounds(a as int, b as int);
        }
        ((a as u128) / (b as u128)) as i128
    } else {
        proof {
            lemma_div_bounds(-(a as int), b as int);
        }
        let n: u128 = (-a) as u128;
        -((n / (b as u128)) as i128)
    }
}

/// Widening multiplication of `i64` values; the product always fits in `i128`.
pub fn mul_wide(a: i64, b: i64) -> (p: i128)
    ensures
        p as int == (a as int) * (b as int),
{
    proof {
        assert(-(0x8000_0000_0000_0000 * 0x8000_0000_0000_0000) <= (a as int) * (b as int)
            <= 0x8000_0000_0000_0000 * 0x8000_0000_0000_0000) by (nonlinear_arith)
            requires
                -0x8000_0000_0000_0000 <= a as int <= 0x7fff_ffff_ffff_ffff,
                -0x8000_0000_0000_0000 <= b as int <= 0x7fff_ffff_ffff_ffff,
        ;
    }
    (a as i128) * (b as i128)
}

/// `a * b / c` with truncating division, computed without intermediate overflow.
pub fn muldiv(a: i64, b: i64, c: i64) -> (r: i64)
    requires
        c > 0,
        -((i64::MAX as int) * (c as int)) <= (a as int) * (b as int) <= (i64::MAX as int) * (
        c as int),
    ensures
        r as int == div_t((a as int) * (b as int), c as int),
{
    let p: i128 = mul_wide(a, b);
    proof {
        assert((i64::MAX as int) * (c as int) < 0x8000_0000_0000_0000_0000_0000_0000_0000)
            by (nonlinear_arith)
            requires
                0 < c as int <= i64::MAX as int,
        ;
        lemma_div_t_bound(p as int, c as int, i64::MAX as int);
    }
    let q = div_fix_wide(p, c as i128);
    q as i64
}

/// Integer square root of a `u128`, by binary search.
pub fn isqrt(n: u128) -> (r: u128)
    ensures
        r as int == sqrt_floor(n as int),
{
    let mut lo: u128 = 0;
    let mut hi: u128 = 0x1_0000_0000_0000_0000;
    proof {
        assert((0x1_0000_0000_0000_0000 as int) * (0x1_0000_0000_0000_0000 as int) > n as int);
    }
    while lo + 1 < hi
        invariant
            0 <= lo < hi,
            hi <= 0x1_0000_0000_0000_0000,
            (lo as int) * (lo as int) <= n as int,
            (n as int) < (hi as int) * (hi as int),
        decreases hi - lo,
    {
        let mid = lo + (hi - lo) / 2;
        proof {
            assert((mid as int) * (mid as int) < u128::MAX as int) by (nonlinear_arith)
                requires
                    0 <= mid as int,
                    (mid as int) < 0x1_0000_0000_0000_0000,
            ;
        }
        if mid * mid <= n {
            lo = mid;
        } else {
            hi = mid;
        }
    }
    proof {
        lemma_sqrt_floor_unique(n as int, lo as int);
    }
    lo
}

/// A spec-level 3D vector: a triple of unbounded integers.
pub type Iv3 = (int, int, int);

pub open spec fn vzero() -> Iv3 {
    (0, 0, 0)
}

pub open spec fn vadd(a: Iv3, b: Iv3) -> Iv3 {
    (a.0 + b.0, a.1 + b.1, a.2 + b.2)
}

pub open spec fn vsub(a: Iv3, b: Iv3) -> Iv3 {
    (a.0 - b.0, a.1 - b.1, a.2 - b.2)
}

pub open spec fn vscale(k: int, a: Iv3) -> Iv3 {
    (k * a.0, k * a.1, k * a.2)
}

/// Componentwise truncating division by a positive scalar.
pub open spec fn vdiv(a: Iv3, k: int) -> Iv3
    recommends
        k > 0,
{
    (div_t(a.0, k), div_t(a.1, k), div_t(a.2, k))
}

pub open spec fn dot(a: Iv3, b: Iv3) -> int {
    a.0 * b.0 + a.1 * b.1 + a.2 * b.2
}

pub open spec fn norm_sq(a: Iv3) -> int {
    a.0 * a.0 + a.1 * a.1 + a.2 * a.2
}

pub open spec fn dist_sq(a: Iv3, b: Iv3) -> int {
    norm_sq(vsub(a, b))
}

/// The fixed-point length of a vector: the integer square root of its
/// squared norm.
pub open spec fn vlen(a: Iv3) -> int {
    sqrt_floor(norm_sq(a))
}

/// Fixed-point normalization: a vector of length about `SCALE` in the
/// direction of `a`, or zero when `a` is zero.
pub open spec fn vnorm(a: Iv3) -> Iv3 {
    let l = vlen(a);
    if l <= 0 {
        vzero()
    } else {
        (div_t(a.0 * (SCALE as int), l), div_t(a.1 * (SCALE as int), l), div_t(
            a.2 * (SCALE as int),
            l,
        ))
    }
}

/// Clamp the length of `a` to at most `m`, keeping its direction.
pub open spec fn vclamp(a: Iv3, m: int) -> Iv3
    recommends
        m >= 0,
{
    let l = vlen(a);
    if l > m {
        (div_t(a.0 * m, l), div_t(a.1 * m, l), div_t(a.2 * m, l))
    } else {
        a
    }
}

/// Every component of `a` lies in `[-m, m]`.
pub open spec fn bounded(a: Iv3, m: int) -> bool {
    -m <= a.0 <= m && -m <= a.1 <= m && -m <= a.2 <= m
}

/// An executable 3D vector in fixed-point coordinates.
#[derive(Clone, Copy, PartialEq, Eq, Structural, Debug)]
pub struct V3 {
    pub x: i64,
    pub y: i64,
    pub z: i64,
}

impl View for V3 {
    type V = Iv3;

    open spec fn view(&self) -> Iv3 {
        (self.x as int, self.y as int, self.z as int)
    }
}

pub fn v3_new(x: i64, y: i64, z: i64) -> (v: V3)
    ensures
        v@ == (x as int, y as int, z as int),
{
    V3 { x, y, z }
}

pub fn v3_zero() -> (v: V3)
    ensures
        v@ == vzero(),
{
    V3 { x: 0, y: 0, z: 0 }
}

pub fn v3_add(a: V3, b: V3) -> (c: V3)
    requires
        i64::MIN <= a@.0 + b@.0 <= i64::MAX,
        i64::MIN <= a@.1 + b@.1 <= i64::MAX,
        i64::MIN <= a@.2 + b@.2 <= i64::MAX,
    ensures
        c@ == vadd(a@, b@),
{
    V3 { x: a.x + b.x, y: a.y + b.y, z: a.z + b.z }
}

pub fn v3_sub(a: V3, b: V3) -> (c: V3)
    requires
        i64::MIN <= a@.0 - b@.0 <= i64::MAX,
        i64::MIN <= a@.1 - b@.1 <= i64::MAX,
        i64::MIN <= a@.2 - b@.2 <= i64::MAX,
    ensures
        c@ == vsub(a@, b@),
{
    V3 { x: a.x - b.x, y: a.y - b.y, z: a.z - b.z }
}

pub fn v3_scale(k: i64, a: V3) -> (c: V3)
    requires
        i64::MIN <= (k as int) * a@.0 <= i64::MAX,
        i64::MIN <= (k as int) * a@.1 <= i64::MAX,
        i64::MIN <= (k as int) * a@.2 <= i64::MAX,
    ensures
        c@ == vscale(k as int, a@),
{
    V3 { x: k * a.x, y: k * a.y, z: k * a.z }
}

/// The squared norm, computed in `i128` so that any `i64` components
/// within `LEN_IN_LIMIT` stay exact.
pub fn v3_norm_sq(a: V3) -> (n: i128)
    requires
        bounded(a@, LEN_IN_LIMIT as int),
    ensures
        n as int == norm_sq(a@),
        n >= 0,
{
    let xx = mul_wide(a.x, a.x);
    let yy = mul_wide(a.y, a.y);
    let zz = mul_wide(a.z, a.z);
    proof {
        assert(0 <= (a.x as int) * (a.x as int) <= (LEN_IN_LIMIT as int) * (LEN_IN_LIMIT as int))
            by (nonlinear_arith)
            requires
                -(LEN_IN_LIMIT as int) <= a.x as int <= LEN_IN_LIMIT as int,
        ;
        assert(0 <= (a.y as int) * (a.y as int) <= (LEN_IN_LIMIT as int) * (LEN_IN_LIMIT as int))
            by (nonlinear_arith)
            requires
                -(LEN_IN_LIMIT as int) <= a.y as int <= LEN_IN_LIMIT as int,
        ;
        assert(0 <= (a.z as int) * (a.z as int) <= (LEN_IN_LIMIT as int) * (LEN_IN_LIMIT as int))
            by (nonlinear_arith)
            requires
                -(LEN_IN_LIMIT as int) <= a.z as int <= LEN_IN_LIMIT as int,
        ;
    }
    xx + yy + zz
}

pub fn v3_dist_sq(a: V3, b: V3) -> (d: i128)
    requires
        bounded(a@, COORD_LIMIT as int),
        bounded(b@, COORD_LIMIT as int),
    ensures
        d as int == dist_sq(a@, b@),
        d >= 0,
{
    let diff = v3_sub(a, b);
    v3_norm_sq(diff)
}

pub fn v3_len(a: V3) -> (l: i64)
    requires
        bounded(a@, LEN_IN_LIMIT as int),
    ensures
        l as int == vlen(a@),
        l >= 0,
{
    let n = v3_norm_sq(a);
    let r = isqrt(n as u128);
    proof {
        assert((n as int) <= 4_000_000_000_000_000_000 * 4_000_000_000_000_000_000)
            by (nonlinear_arith)
            requires
                n as int == (a@.0) * (a@.0) + (a@.1) * (a@.1) + (a@.2) * (a@.2),
                -(LEN_IN_LIMIT as int) <= a@.0 <= LEN_IN_LIMIT as int,
                -(LEN_IN_LIMIT as int) <= a@.1 <= LEN_IN_LIMIT as int,
                -(LEN_IN_LIMIT as int) <= a@.2 <= LEN_IN_LIMIT as int,
        ;
        lemma_sqrt_floor_le(n as int, 4_000_000_000_000_000_000);
    }
    r as i64
}

/// Truncating division keeps the sign of the dividend.
pub proof fn lemma_div_t_sign(a: int, b: int)
    requires
        b > 0,
    ensures
        a >= 0 ==> div_t(a, b) >= 0,
        a <= 0 ==> div_t(a, b) <= 0,
{
    if a >= 0 {
        lemma_div_bounds(a, b);
    } else {
        lemma_div_bounds(-a, b);
    }
}

/// Truncating division is an odd function of the dividend.
pub proof fn lemma_div_t_neg(a: int, b: int)
    requires
        b > 0,
    ensures
        div_t(-a, b) == -div_t(a, b),
{
    if a == 0 {
        assert(div_t(0, b) == 0) by {
            lemma_div_bounds(0, b);
        };
    }
}

/// Every component of a vector is bounded by the vector's fixed-point length.
pub proof fn lemma_comp_le_len(a: Iv3)
    ensures
        bounded(a, vlen(a)),
{
    let ns = norm_sq(a);
    assert(a.0 * a.0 >= 0 && a.1 * a.1 >= 0 && a.2 * a.2 >= 0) by (nonlinear_arith);
    lemma_sqrt_floor_bounds(ns);
    let l = sqrt_floor(ns);
    if l == 0 {
        assert(ns < 1) by (nonlinear_arith)
            requires
                ns < (l + 1) * (l + 1),
                l == 0,
        ;
        assert(ns == 0);
        assert(a.0 == 0 && a.1 == 0 && a.2 == 0) by (nonlinear_arith)
            requires
                a.0 * a.0 + a.1 * a.1 + a.2 * a.2 == 0,
        ;
    } else {
        assert(-l <= a.0 <= l) by (nonlinear_arith)
            requires
                a.0 * a.0 + a.1 * a.1 + a.2 * a.2 < (l + 1) * (l + 1),
                a.1 * a.1 >= 0,
                a.2 * a.2 >= 0,
                l >= 1,
        ;
        assert(-l <= a.1 <= l) by (nonlinear_arith)
            requires
                a.0 * a.0 + a.1 * a.1 + a.2 * a.2 < (l + 1) * (l + 1),
                a.0 * a.0 >= 0,
                a.2 * a.2 >= 0,
                l >= 1,
        ;
        assert(-l <= a.2 <= l) by (nonlinear_arith)
            requires
                a.0 * a.0 + a.1 * a.1 + a.2 * a.2 < (l + 1) * (l + 1),
                a.0 * a.0 >= 0,
                a.1 * a.1 >= 0,
                l >= 1,
        ;
    }
}

/// A normalized vector has every component within `SCALE`.
pub proof fn lemma_vnorm_bounded(a: Iv3)
    ensures
        bounded(vnorm(a), SCALE as int),
{
    let ns = norm_sq(a);
    assert(a.0 * a.0 >= 0 && a.1 * a.1 >= 0 && a.2 * a.2 >= 0) by (nonlinear_arith);
    lemma_sqrt_floor_bounds(ns);
    lemma_comp_le_len(a);
    let l = sqrt_floor(ns);
    if l >= 1 {
        assert(-((SCALE as int) * l) <= a.0 * (SCALE as int) <= (SCALE as int) * l)
            by (nonlinear_arith)
            requires
                -l <= a.0 <= l,
                SCALE as int > 0,
        ;
        lemma_div_t_bound(a.0 * (SCALE as int), l, SCALE as int);
        assert(-((SCALE as int) * l) <= a.1 * (SCALE as int) <= (SCALE as int) * l)
            by (nonlinear_arith)
            requires
                -l <= a.1 <= l,
                SCALE as int > 0,
        ;
        lemma_div_t_bound(a.1 * (SCALE as int), l, SCALE as int);
        assert(-((SCALE as int) * l) <= a.2 * (SCALE as int) <= (SCALE as int) * l)
            by (nonlinear_arith)
            requires
                -l <= a.2 <= l,
                SCALE as int > 0,
        ;
        lemma_div_t_bound(a.2 * (SCALE as int), l, SCALE as int);
    }
}

proof fn lemma_norm_term_nonneg(x: int, l: int)
    requires
        l >= 1,
    ensures
        div_t(x * (SCALE as int), l) * x >= 0,
{
    lemma_div_t_sign(x * (SCALE as int), l);
    if x >= 0 {
        assert(x * (SCALE as int) >= 0) by (nonlinear_arith)
            requires
                x >= 0,
                SCALE as int > 0,
        ;
        assert(div_t(x * (SCALE as int), l) * x >= 0) by (nonlinear_arith)
            requires
                x >= 0,
                div_t(x * (SCALE as int), l) >= 0,
        ;
    } else {
        assert(x * (SCALE as int) <= 0) by (nonlinear_arith)
            requires
                x <= 0,
                SCALE as int > 0,
        ;
        assert(div_t(x * (SCALE as int), l) * x >= 0) by (nonlinear_arith)
            requires
                x <= 0,
                div_t(x * (SCALE as int), l) <= 0,
        ;
    }
}

proof fn lemma_norm_term_pos(x: int, l: int)
    requires
        l >= 1,
        x != 0,
        x >= 0 ==> x * (SCALE as int) >= l,
        x < 0 ==> (-x) * (SCALE as int) >= l,
    ensures
        div_t(x * (SCALE as int), l) * x >= 1,
{
    if x >= 0 {
        lemma_div_t_pos(x * (SCALE as int), l);
        assert(div_t(x * (SCALE as int), l) * x >= 1) by (nonlinear_arith)
            requires
                x >= 1,
                div_t(x * (SCALE as int), l) >= 1,
        ;
    } else {
        lemma_div_t_pos((-x) * (SCALE as int), l);
        assert((-x) * (SCALE as int) == -(x * (SCALE as int))) by (nonlinear_arith);
        lemma_div_t_neg(x * (SCALE as int), l);
        assert(div_t(x * (SCALE as int), l) * x >= 1) by (nonlinear_arith)
            requires
                x <= -1,
                div_t(x * (SCALE as int), l) <= -1,
        ;
    }
}

/// A nonzero vector's normalization is nonzero and points strictly along it.
pub proof fn lemma_vnorm_points_along(a: Iv3)
    requires
        a != vzero(),
    ensures
        dot(vnorm(a), a) > 0,
        vnorm(a) != vzero(),
{
    let ns = norm_sq(a);
    assert(a.0 * a.0 >= 0 && a.1 * a.1 >= 0 && a.2 * a.2 >= 0) by (nonlinear_arith);
    assert(a.0 != 0 || a.1 != 0 || a.2 != 0);
    if a.0 != 0 {
        assert(a.0 * a.0 >= 1) by (nonlinear_arith)
            requires
                a.0 != 0,
        ;
    }
    if a.1 != 0 {
        assert(a.1 * a.1 >= 1) by (nonlinear_arith)
            requires
                a.1 != 0,
        ;
    }
    if a.2 != 0 {
        assert(a.2 * a.2 >= 1) by (nonlinear_arith)
            requires
                a.2 != 0,
        ;
    }
    assert(ns >= 1);
    lemma_sqrt_floor_bounds(ns);
    lemma_sqrt_floor_ge(ns, 1);
    let l = sqrt_floor(ns);
    lemma_norm_term_nonneg(a.0, l);
    lemma_norm_term_nonneg(a.1, l);
    lemma_norm_term_nonneg(a.2, l);
    if a.0 * a.0 >= a.1 * a.1 && a.0 * a.0 >= a.2 * a.2 {
        lemma_principal_term(a.0, a.1, a.2, ns, l);
    } else if a.1 * a.1 >= a.0 * a.0 && a.1 * a.1 >= a.2 * a.2 {
        lemma_principal_term(a.1, a.0, a.2, ns, l);
        assert(norm_sq(a) == a.1 * a.1 + a.0 * a.0 + a.2 * a.2);
    } else {
        assert(a.2 * a.2 >= a.0 * a.0 && a.2 * a.2 >= a.1 * a.1);
        lemma_principal_term(a.2, a.0, a.1, ns, l);
        assert(norm_sq(a) == a.2 * a.2 + a.0 * a.0 + a.1 * a.1);
    }
    assert(dot(vnorm(a), a) > 0);
}

/// With `x` the largest-magnitude component, its normalization term is positive.
proof fn lemma_principal_term(x: int, p: int, q: int, ns: int, l: int)
    requires
        l >= 1,
        l * l <= ns,
        ns >= 1,
        ns == x * x + p * p + q * q,
        x * x >= p * p,
        x * x >= q * q,
    ensures
        div_t(x * (SCALE as int), l) * x >= 1,
{
    if x == 0 {
        assert(x * x == 0) by (nonlinear_arith)
            requires
                x == 0,
        ;
        assert(false);
    }
    let m = if x >= 0 {
        x
    } else {
        -x
    };
    if x >= 0 {
        assert(m == x);
    } else {
        assert(m * m == x * x) by (nonlinear_arith)
            requires
                m == -x,
        ;
    }
    assert(m >= 1);
    assert(ns <= 3 * (m * m));
    assert(l <= 2 * m) by (nonlinear_arith)
        requires
            l >= 1,
            m >= 1,
            l * l <= ns,
            ns <= 3 * (m * m),
    ;
    assert(m * (SCALE as int) >= 2 * m) by (nonlinear_arith)
        requires
            m >= 0,
            SCALE as int >= 2,
    ;
    if x >= 0 {
        assert(x * (SCALE as int) >= l);
    } else {
        assert((-x) * (SCALE as int) >= l);
    }
    lemma_norm_term_pos(x, l);
}

pub open spec fn iabs(x: int) -> int {
    if x >= 0 {
        x
    } else {
        -x
    }
}

/// Truncating division by one is the identity.
pub proof fn lemma_div_t_one(a: int)
    ensures
        div_t(a, 1) == a,
{
    if a >= 0 {
        assert(a / 1 == a) by (nonlinear_arith);
    } else {
        assert((-a) / 1 == -a) by (nonlinear_arith);
    }
}

/// Squared distance is symmetric.
pub proof fn lemma_dist_sq_sym(a: Iv3, b: Iv3)
    ensures
        dist_sq(a, b) == dist_sq(b, a),
{
    assert((a.0 - b.0) * (a.0 - b.0) == (b.0 - a.0) * (b.0 - a.0)) by (nonlinear_arith);
    assert((a.1 - b.1) * (a.1 - b.1) == (b.1 - a.1) * (b.1 - a.1)) by (nonlinear_arith);
    assert((a.2 - b.2) * (a.2 - b.2) == (b.2 - a.2) * (b.2 - a.2)) by (nonlinear_arith);
}

/// Some component of a nonzero vector carries at least half its length.
pub proof fn lemma_principal_component(a: Iv3)
    requires
        a != vzero(),
    ensures
        vlen(a) >= 1,
        (a.0 != 0 && 2 * iabs(a.0) >= vlen(a)) || (a.1 != 0 && 2 * iabs(a.1) >= vlen(a)) || (a.2
            != 0 && 2 * iabs(a.2) >= vlen(a)),
{
    let ns = norm_sq(a);
    assert(a.0 * a.0 >= 0 && a.1 * a.1 >= 0 && a.2 * a.2 >= 0) by (nonlinear_arith);
    if a.0 != 0 {
        assert(a.0 * a.0 >= 1) by (nonlinear_arith)
            requires
                a.0 != 0,
        ;
    }
    if a.1 != 0 {
        assert(a.1 * a.1 >= 1) by (nonlinear_arith)
            requires
                a.1 != 0,
        ;
    }
    if a.2 != 0 {
        assert(a.2 * a.2 >= 1) by (nonlinear_arith)
            requires
                a.2 != 0,
        ;
    }
    assert(ns >= 1);
    lemma_sqrt_floor_bounds(ns);
    lemma_sqrt_floor_ge(ns, 1);
    let l = sqrt_floor(ns);
    if a.0 * a.0 >= a.1 * a.1 && a.0 * a.0 >= a.2 * a.2 {
        lemma_principal_half(a.0, a.1, a.2, ns, l);
    } else if a.1 * a.1 >= a.0 * a.0 && a.1 * a.1 >= a.2 * a.2 {
        lemma_principal_half(a.1, a.0, a.2, ns, l);
    } else {
        assert(a.2 * a.2 >= a.0 * a.0 && a.2 * a.2 >= a.1 * a.1);
        lemma_principal_half(a.2, a.0, a.1, ns, l);
    }
}

proof fn lemma_principal_half(x: int, p: int, q: int, ns: int, l: int)
    requires
        l >= 1,
        l * l <= ns,
        ns >= 1,
        ns == x * x + p * p + q * q,
        x * x >= p * p,
        x * x >= q * q,
    ensures
        x != 0,
        2 * iabs(x) >= l,
{
    if x == 0 {
        assert(x * x == 0) by (nonlinear_arith)
            requires
                x == 0,
        ;
        assert(false);
    }
    let m = iabs(x);
    if x >= 0 {
        assert(m == x);
    } else {
        assert(m * m == x * x) by (nonlinear_arith)
            requires
                m == -x,
        ;
    }
    assert(m >= 1);
    assert(ns <= 3 * (m * m));
    assert(l <= 2 * m) by (nonlinear_arith)
        requires
            l >= 1,
            m >= 1,
            l * l <= ns,
            ns <= 3 * (m * m),
    ;
}

/// A drag term never pushes a component along the motion.
pub proof fn lemma_drag_term_nonpos(x: int, l: int, e: int)
    requires
        l >= 1,
        e <= 0,
    ensures
        div_t(e * div_t(x * (SCALE as int), l), SCALE as int) * x <= 0,
{
    let u = div_t(x * (SCALE as int), l);
    lemma_div_t_sign(x * (SCALE as int), l);
    if x >= 0 {
        assert(x * (SCALE as int) >= 0) by (nonlinear_arith)
            requires
                x >= 0,
                SCALE as int > 0,
        ;
        assert(e * u <= 0) by (nonlinear_arith)
            requires
                e <= 0,
                u >= 0,
        ;
        lemma_div_t_sign(e * u, SCALE as int);
        assert(div_t(e * u, SCALE as int) * x <= 0) by (nonlinear_arith)
            requires
                div_t(e * u, SCALE as int) <= 0,
                x >= 0,
        ;
    } else {
        assert(x * (SCALE as int) <= 0) by (nonlinear_arith)
            requires
                x <= 0,
                SCALE as int > 0,
        ;
        assert(e * u >= 0) by (nonlinear_arith)
            requires
                e <= 0,
                u <= 0,
        ;
        lemma_div_t_sign(e * u, SCALE as int);
        assert(div_t(e * u, SCALE as int) * x <= 0) by (nonlinear_arith)
            requires
                div_t(e * u, SCALE as int) >= 0,
                x <= 0,
        ;
    }
}

/// With at least a whole unit of excess and `x` a principal component,
/// the drag term strictly opposes the motion.
pub proof fn lemma_drag_term_neg(x: int, l: int, e: int)
    requires
        l >= 1,
        x != 0,
        2 * iabs(x) >= l,
        e <= -(SCALE as int),
    ensures
        div_t(e * div_t(x * (SCALE as int), l), SCALE as int) * x <= -1,
{
    let u = div_t(x * (SCALE as int), l);
    if x >= 1 {
        assert(x * (SCALE as int) >= l) by (nonlinear_arith)
            requires
                x >= 1,
                2 * x >= l,
                SCALE as int >= 2,
        ;
        lemma_div_t_pos(x * (SCALE as int), l);
        assert(e * u <= -(SCALE as int)) by (nonlinear_arith)
            requires
                e <= -(SCALE as int),
                u >= 1,
                SCALE as int > 0,
        ;
        lemma_div_t_pos(-(e * u), SCALE as int);
        lemma_div_t_neg(e * u, SCALE as int);
        assert(div_t(-(e * u), SCALE as int) == -div_t(e * u, SCALE as int));
        assert(div_t(e * u, SCALE as int) <= -1);
        assert(div_t(e * u, SCALE as int) * x <= -1) by (nonlinear_arith)
            requires
                div_t(e * u, SCALE as int) <= -1,
                x >= 1,
        ;
    } else {
        assert((-x) * (SCALE as int) >= l) by (nonlinear_arith)
            requires
                x <= -1,
                2 * (-x) >= l,
                SCALE as int >= 2,
        ;
        lemma_div_t_pos((-x) * (SCALE as int), l);
        assert((-x) * (SCALE as int) == -(x * (SCALE as int))) by (nonlinear_arith);
        lemma_div_t_neg(x * (SCALE as int), l);
        assert(u <= -1);
        assert(e * u >= SCALE as int) by (nonlinear_arith)
            requires
                e <= -(SCALE as int),
                u <= -1,
                SCALE as int > 0,
        ;
        lemma_div_t_pos(e * u, SCALE as int);
        assert(div_t(e * u, SCALE as int) * x <= -1) by (nonlinear_arith)
            requires
                div_t(e * u, SCALE as int) >= 1,
                x <= -1,
        ;
    }
}

/// If `n <= b * b` then the integer square root of `n` is at most `b`.
pub proof fn lemma_sqrt_floor_le(n: int, b: int)
    requires
        0 <= n,
        0 <= b,
        n <= b * b,
    ensures
        sqrt_floor(n) <= b,
{
    lemma_sqrt_floor_bounds(n);
    let s = sqrt_floor(n);
    if s > b {
        assert((b + 1) * (b + 1) <= s * s) by (nonlinear_arith)
            requires
                0 <= b,
                b < s,
        ;
        assert(b * b < (b + 1) * (b + 1)) by (nonlinear_arith)
            requires
                0 <= b,
        ;
    }
}

/// If `b * b <= n` then the integer square root of `n` is at least `b`.
pub proof fn lemma_sqrt_floor_ge(n: int, b: int)
    requires
        0 <= b,
        b * b <= n,
    ensures
        sqrt_floor(n) >= b,
{
    lemma_sqrt_floor_bounds(n);
    let s = sqrt_floor(n);
    if s < b {
        assert((s + 1) * (s + 1) <= b * b) by (nonlinear_arith)
            requires
                0 <= s,
                s < b,
        ;
    }
}

/// Fixed-point normalization: zero stays zero, anything else becomes a
/// vector of length about `SCALE` in the same direction.
pub fn v3_normalize(a: V3) -> (u: V3)
    requires
        bounded(a@, NORM_IN_LIMIT as int),
    ensures
        u@ == vnorm(a@),
        bounded(u@, SCALE as int),
{
    proof {
        lemma_vnorm_bounded(a@);
    }
    let l = v3_len(a);
    if l == 0 {
        v3_zero()
    } else {
        V3 {
            x: div_fix(a.x * SCALE, l),
            y: div_fix(a.y * SCALE, l),
            z: div_fix(a.z * SCALE, l),
        }
    }
}

/// Scaling a bounded vector multiplies its componentwise bound.
pub proof fn lemma_scale_bounded(k: int, a: Iv3, kb: int, ab: int)
    requires
        -kb <= k <= kb,
        bounded(a, ab),
        0 <= kb,
        0 <= ab,
    ensures
        bounded(vscale(k, a), kb * ab),
{
    assert(-(kb * ab) <= k * a.0 <= kb * ab) by (nonlinear_arith)
        requires
            -kb <= k <= kb,
            -ab <= a.0 <= ab,
            0 <= kb,
            0 <= ab,
    ;
    assert(-(kb * ab) <= k * a.1 <= kb * ab) by (nonlinear_arith)
        requires
            -kb <= k <= kb,
            -ab <= a.1 <= ab,
            0 <= kb,
            0 <= ab,
    ;
    assert(-(kb * ab) <= k * a.2 <= kb * ab) by (nonlinear_arith)
        requires
            -kb <= k <= kb,
            -ab <= a.2 <= ab,
            0 <= kb,
            0 <= ab,
    ;
}

/// Clamping never grows a componentwise bound, and caps it at `m`.
pub proof fn lemma_vclamp_bounded(a: Iv3, m: int, c: int)
    requires
        0 <= m <= c,
        bounded(a, c),
    ensures
        bounded(vclamp(a, m), c),
{
    let l = vlen(a);
    lemma_comp_le_len(a);
    assert(norm_sq(a) >= 0) by (nonlinear_arith);
    lemma_sqrt_floor_bounds(norm_sq(a));
    if l > m {
        assert(-(m * l) <= a.0 * m <= m * l) by (nonlinear_arith)
            requires
                -l <= a.0 <= l,
                m >= 0,
        ;
        lemma_div_t_bound(a.0 * m, l, m);
        assert(-(m * l) <= a.1 * m <= m * l) by (nonlinear_arith)
            requires
                -l <= a.1 <= l,
                m >= 0,
        ;
        lemma_div_t_bound(a.1 * m, l, m);
        assert(-(m * l) <= a.2 * m <= m * l) by (nonlinear_arith)
            requires
                -l <= a.2 <= l,
                m >= 0,
        ;
        lemma_div_t_bound(a.2 * m, l, m);
    }
}

/// Clamp the length of `a` to at most `m`, keeping its direction.
pub fn v3_clamp(a: V3, m: i64) -> (r: V3)
    requires
        bounded(a@, NORM_IN_LIMIT as int),
        0 <= m <= NORM_IN_LIMIT,
    ensures
        r@ == vclamp(a@, m as int),
        bounded(r@, NORM_IN_LIMIT as int),
{
    proof {
        lemma_vclamp_bounded(a@, m as int, NORM_IN_LIMIT as int);
    }
    let l = v3_len(a);
    if l > m {
        proof {
            lemma_comp_le_len(a@);
            assert(-((i64::MAX as int) * (l as int)) <= a@.0 * (m as int) <= (i64::MAX as int) * (
            l as int)) by (nonlinear_arith)
                requires
                    -(l as int) <= a@.0 <= l as int,
                    0 <= m as int <= i64::MAX as int,
                    l as int >= 1,
            ;
            assert(-((i64::MAX as int) * (l as int)) <= a@.1 * (m as int) <= (i64::MAX as int) * (
            l as int)) by (nonlinear_arith)
                requires
                    -(l as int) <= a@.1 <= l as int,
                    0 <= m as int <= i64::MAX as int,
                    l as int >= 1,
            ;
            assert(-((i64::MAX as int) * (l as int)) <= a@.2 * (m as int) <= (i64::MAX as int) * (
            l as int)) by (nonlinear_arith)
                requires
                    -(l as int) <= a@.2 <= l as int,
                    0 <= m as int <= i64::MAX as int,
                    l as int >= 1,
            ;
        }
        V3 { x: muldiv(a.x, m, l), y: muldiv(a.y, m, l), z: muldiv(a.z, m, l) }
    } else {
        a
    }
}

} // verus!
