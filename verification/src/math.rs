//! Integer square roots, the fixed-point speed-curve root, and truncating
//! division: the arithmetic kernel of the physics engine.

use vstd::prelude::*;

verus! {

/// `r` is the square root of `n`, rounded down.
pub open spec fn is_sqrt_floor(r: int, n: int) -> bool {
    0 <= r && r * r <= n && n < (r + 1) * (r + 1)
}

/// The square root of `n`, rounded down (meaningful for `n >= 0`).
pub open spec fn sqrt_floor(n: int) -> int {
    choose|r: int| is_sqrt_floor(r, n)
}

/// A number has at most one rounded-down square root.
pub proof fn lemma_sqrt_floor_unique(r1: int, r2: int, n: int)
    requires
        is_sqrt_floor(r1, n),
        is_sqrt_floor(r2, n),
    ensures
        r1 == r2,
{
    if r1 < r2 {
        assert((r1 + 1) * (r1 + 1) <= r2 * r2) by (nonlinear_arith)
            requires
                0 <= r1,
                r1 < r2,
        ;
    }
    if r2 < r1 {
        assert((r2 + 1) * (r2 + 1) <= r1 * r1) by (nonlinear_arith)
            requires
                0 <= r2,
                r2 < r1,
        ;
    }
}

/// A witness pins down `sqrt_floor`.
pub proof fn lemma_sqrt_floor_is(r: int, n: int)
    requires
        is_sqrt_floor(r, n),
    ensures
        sqrt_floor(n) == r,
{
    assert(is_sqrt_floor(sqrt_floor(n), n)) by {
        assert(exists|x: int| is_sqrt_floor(x, n));
    }
    lemma_sqrt_floor_unique(sqrt_floor(n), r, n);
}

/// A square's components are bounded by the root of the sum of squares:
/// `|a| <= sqrt_floor(a*a + extra)` whenever `extra >= 0`.
pub proof fn lemma_component_le_sqrt(a: int, extra: int, n: int)
    requires
        extra >= 0,
        is_sqrt_floor(n, a * a + extra),
    ensures
        (if a >= 0 { a } else { -a }) <= n,
{
    let abs_a = if a >= 0 { a } else { -a };
    assert((-a) * (-a) == a * a) by (nonlinear_arith);
    if abs_a > n {
        assert((n + 1) * (n + 1) <= abs_a * abs_a) by (nonlinear_arith)
            requires
                0 <= n,
                n < abs_a,
        ;
    }
}

/// The square root of `n`, rounded down, computed by bisection.
pub fn isqrt(n: i64) -> (r: i64)
    requires
        0 <= n <= 4_000_000_000_000_000_000,
    ensures
        is_sqrt_floor(r as int, n as int),
        r == sqrt_floor(n as int),
        0 <= r <= 2_000_000_000,
{
    let mut lo: i64 = 0;
    let mut hi: i64 = 2_000_000_001;
    while lo + 1 < hi
        invariant
            0 <= lo < hi <= 2_000_000_001,
            lo * lo <= n,
            n < hi * hi,
        decreases hi - lo,
    {
        let mid: i64 = lo + (hi - lo) / 2;
        assert(lo < mid < hi);
        assert(mid * mid <= 2_000_000_000 * 2_000_000_000) by (nonlinear_arith)
            requires
                0 <= mid <= 2_000_000_000,
        ;
        if mid * mid <= n {
            lo = mid;
        } else {
            hi = mid;
        }
    }
    proof {
        lemma_sqrt_floor_is(lo as int, n as int);
    }
    lo
}

/// The square of `x`.
pub open spec fn sq(x: int) -> int {
    x * x
}

/// `x` to the ninth power, written over repeated squaring: `x^8 * x`.
pub open spec fn pow9_spec(x: int) -> int {
    sq(sq(sq(x))) * x
}

/// `x` to the tenth power, written over repeated squaring: `x^8 * x^2`.
pub open spec fn pow10_spec(x: int) -> int {
    sq(sq(sq(x))) * sq(x)
}

/// Squaring preserves the order of non-negative numbers.
pub proof fn lemma_sq_monotone(a: int, b: int)
    requires
        0 <= a <= b,
    ensures
        0 <= sq(a) <= sq(b),
{
    assert(0 <= a * a <= b * b) by (nonlinear_arith)
        requires
            0 <= a <= b,
    ;
}

/// The tenth power preserves the order of non-negative numbers, strictly.
pub proof fn lemma_pow10_strictly_increases(a: int, b: int)
    requires
        0 <= a < b,
    ensures
        pow10_spec(a) < pow10_spec(b),
        pow9_spec(a) < pow9_spec(b),
        0 <= pow10_spec(a),
        0 <= pow9_spec(a),
{
    lemma_sq_monotone(a, b);
    lemma_sq_monotone(sq(a), sq(b));
    lemma_sq_monotone(sq(sq(a)), sq(sq(b)));
    let pa = sq(sq(sq(a)));
    let pb = sq(sq(sq(b)));
    assert(0 <= a * a < b * b) by (nonlinear_arith)
        requires
            0 <= a < b,
    ;
    assert(1 <= sq(b)) by (nonlinear_arith)
        requires
            1 <= b,
            sq(b) == b * b,
    ;
    assert(1 <= sq(sq(b))) by (nonlinear_arith)
        requires
            1 <= sq(b),
            sq(sq(b)) == sq(b) * sq(b),
    ;
    assert(1 <= sq(sq(sq(b)))) by (nonlinear_arith)
        requires
            1 <= sq(sq(b)),
            sq(sq(sq(b))) == sq(sq(b)) * sq(sq(b)),
    ;
    assert(pa * sq(a) < pb * sq(b) && 0 <= pa * sq(a)) by (nonlinear_arith)
        requires
            0 <= pa <= pb,
            0 <= sq(a) < sq(b),
            1 <= pb,
    ;
    assert(pa * a < pb * b && 0 <= pa * a) by (nonlinear_arith)
        requires
            0 <= pa <= pb,
            0 <= a < b,
            1 <= pb,
    ;
}

/// `y` is the tenth root of `m`, rounded down.
pub open spec fn is_root10(y: int, m: int) -> bool {
    0 <= y && pow10_spec(y) <= m && m < pow10_spec(y + 1)
}

/// The tenth root of `m`, rounded down (meaningful for `m >= 0`).
pub open spec fn root10_floor(m: int) -> int {
    choose|y: int| is_root10(y, m)
}

/// A number has at most one rounded-down tenth root.
pub proof fn lemma_root10_unique(y1: int, y2: int, m: int)
    requires
        is_root10(y1, m),
        is_root10(y2, m),
    ensures
        y1 == y2,
{
    if y1 < y2 {
        lemma_pow10_strictly_increases(y1, y1 + 1);
        if y1 + 1 < y2 {
            lemma_pow10_strictly_increases(y1 + 1, y2);
        }
    }
    if y2 < y1 {
        lemma_pow10_strictly_increases(y2, y2 + 1);
        if y2 + 1 < y1 {
            lemma_pow10_strictly_increases(y2 + 1, y1);
        }
    }
}

/// Every non-negative number has a rounded-down tenth root.
pub proof fn lemma_root10_exists(m: nat)
    ensures
        exists|y: int| is_root10(y, m as int),
    decreases m,
{
    if m == 0 {
        assert(pow10_spec(0) == 0 && pow10_spec(1) == 1);
        assert(is_root10(0, 0));
    } else {
        lemma_root10_exists((m - 1) as nat);
        let m1 = m as int - 1;
        let y = choose|y: int| is_root10(y, m1);
        if pow10_spec(y + 1) <= m as int {
            lemma_pow10_strictly_increases(y + 1, y + 2);
            assert(is_root10(y + 1, m as int));
        } else {
            assert(is_root10(y, m as int));
        }
    }
}

/// A witness pins down `root10_floor`.
pub proof fn lemma_root10_is(y: int, m: int)
    requires
        is_root10(y, m),
    ensures
        root10_floor(m) == y,
{
    assert(is_root10(root10_floor(m), m)) by {
        assert(exists|x: int| is_root10(x, m));
    }
    lemma_root10_unique(root10_floor(m), y, m);
}

/// `x` to the tenth power, for the small arguments of the speed curve.
pub fn pow10_i128(x: i64) -> (r: i128)
    requires
        0 <= x <= 4097,
    ensures
        r == pow10_spec(x as int),
        0 <= r,
{
    let x1 = x as i128;
    assert(0 <= x1 * x1 <= 16_785_409) by (nonlinear_arith)
        requires
            0 <= x1 <= 4097,
    ;
    let x2 = x1 * x1;
    assert(0 <= x2 * x2 <= 16_785_409 * 16_785_409) by (nonlinear_arith)
        requires
            0 <= x2 <= 16_785_409,
    ;
    let x4 = x2 * x2;
    assert(0 <= x4 * x4 <= (16_785_409 * 16_785_409) * (16_785_409 * 16_785_409)) by (
    nonlinear_arith)
        requires
            0 <= x4 <= 16_785_409 * 16_785_409,
    ;
    let x8 = x4 * x4;
    assert(0 <= x8 * x2 <= ((16_785_409 * 16_785_409) * (16_785_409 * 16_785_409)) * 16_785_409)
        by (nonlinear_arith)
        requires
            0 <= x8 <= (16_785_409 * 16_785_409) * (16_785_409 * 16_785_409),
            0 <= x2 <= 16_785_409,
    ;
    let r = x8 * x2;
    r
}

/// The tenth root of `m`, rounded down, computed by bisection; `m` must lie
/// below `4097^10`, as every value of the speed curve does.
pub fn iroot10(m: i128) -> (y: i64)
    requires
        0 <= m,
        m < pow10_spec(4097),
    ensures
        is_root10(y as int, m as int),
        y == root10_floor(m as int),
        0 <= y <= 4096,
{
    let mut lo: i64 = 0;
    let mut hi: i64 = 4097;
    while lo + 1 < hi
        invariant
            0 <= lo < hi <= 4097,
            pow10_spec(lo as int) <= m,
            m < pow10_spec(hi as int),
        decreases hi - lo,
    {
        let mid: i64 = lo + (hi - lo) / 2;
        let p = pow10_i128(mid);
        if p <= m {
            lo = mid;
        } else {
            hi = mid;
        }
    }
    proof {
        lemma_root10_is(lo as int, m as int);
    }
    lo
}

/// Division rounding toward zero, as the machine division of `i64` does.
pub open spec fn sdiv(a: int, b: int) -> int {
    if a >= 0 {
        a / b
    } else {
        -((-a) / b)
    }
}

/// Truncating division never grows the magnitude of a bounded quotient:
/// `|a| <= k * b` gives `|sdiv(a, b)| <= k`.
pub proof fn lemma_sdiv_bound(a: int, b: int, k: int)
    requires
        b >= 1,
        0 <= k,
        -(k * b) <= a <= k * b,
    ensures
        -k <= sdiv(a, b) <= k,
{
    if a >= 0 {
        assert(a / b <= k) by (nonlinear_arith)
            requires
                b >= 1,
                0 <= a <= k * b,
        ;
        assert(a / b >= 0) by (nonlinear_arith)
            requires
                b >= 1,
                a >= 0,
        ;
    } else {
        assert((-a) / b <= k) by (nonlinear_arith)
            requires
                b >= 1,
                0 <= -a <= k * b,
        ;
        assert((-a) / b >= 0) by (nonlinear_arith)
            requires
                b >= 1,
                -a >= 0,
        ;
    }
}

/// Division of `i64` values, rounding toward zero.
pub fn div_trunc(a: i64, b: i64) -> (r: i64)
    requires
        b >= 1,
        a > i64::MIN,
    ensures
        r == sdiv(a as int, b as int),
{
    if a >= 0 {
        a / b
    } else {
        let q = (-a) / b;
        assert(0 <= q <= -(a as int)) by (nonlinear_arith)
            requires
                b >= 1,
                0 < -(a as int) < 0x8000_0000_0000_0000,
                q == (-(a as int)) / (b as int),
        ;
        -q
    }
}

} // verus!
