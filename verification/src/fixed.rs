//! Fixed-point arithmetic: sixteen fractional bits in an `i64`, with `i128`
//! intermediates so that no product or sum can overflow.

use vstd::prelude::*;
use vstd::arithmetic::div_mod::lemma_fundamental_div_mod_converse;
use vstd::arithmetic::div_mod::lemma_fundamental_div_mod;
use vstd::arithmetic::div_mod::lemma_mod_pos_bound;

verus! {

/// A real number `v` is stored as `floor(v * 65536)`.
pub type Fixed = i64;

/// The fixed-point representation of `1.0`.
pub const ONE: i64 = 65536;

/// The fixed-point representation of `0.5`.
pub const HALF: i64 = 32768;

/// The fixed-point representation of pi, rounded down.
pub const PI: i64 = 205887;

/// A full turn: exactly twice `PI`, so that half-open turns tile the line.
pub const TWO_PI: i64 = 411774;

/// The smaller of two integers.
pub open spec fn min_int(a: int, b: int) -> int {
    if a <= b {
        a
    } else {
        b
    }
}

/// The larger of two integers.
pub open spec fn max_int(a: int, b: int) -> int {
    if a >= b {
        a
    } else {
        b
    }
}

/// `v` forced into the closed interval `[lo, hi]` (with `lo <= hi`).
pub open spec fn clamp_int(v: int, lo: int, hi: int) -> int {
    if v < lo {
        lo
    } else if v > hi {
        hi
    } else {
        v
    }
}

/// A number forced into what a fixed-point number can hold.
pub open spec fn saturate(v: int) -> int {
    clamp_int(v, i64::MIN as int, i64::MAX as int)
}

/// The integer square root: the largest `r` with `r * r <= n`.
pub open spec fn is_sqrt_floor(n: int, r: int) -> bool {
    0 <= r && r * r <= n < (r + 1) * (r + 1)
}

/// The integer square root of `n`, for `n` that is not negative.
pub open spec fn sqrt_floor(n: int) -> int {
    choose|r: int| is_sqrt_floor(n, r)
}

/// Two candidates for the integer square root of the same number coincide.
pub proof fn lemma_sqrt_floor_unique(n: int, r1: int, r2: int)
    requires
        is_sqrt_floor(n, r1),
        is_sqrt_floor(n, r2),
    ensures
        r1 == r2,
{
    if r1 < r2 {
        assert((r1 + 1) * (r1 + 1) <= r2 * r2) by (nonlinear_arith)
            requires
                0 <= r1,
                r1 + 1 <= r2,
        ;
    } else if r2 < r1 {
        assert((r2 + 1) * (r2 + 1) <= r1 * r1) by (nonlinear_arith)
            requires
                0 <= r2,
                r2 + 1 <= r1,
        ;
    }
}

/// Every number that is not negative has an integer square root.
pub proof fn lemma_sqrt_floor_exists(n: int)
    requires
        n >= 0,
    ensures
        is_sqrt_floor(n, sqrt_floor(n)),
    decreases n,
{
    if n == 0 {
        assert(is_sqrt_floor(0, 0));
    } else {
        lemma_sqrt_floor_exists(n - 1);
        let r = sqrt_floor(n - 1);
        if (r + 1) * (r + 1) <= n {
            assert((r + 2) * (r + 2) > n) by (nonlinear_arith)
                requires
                    0 <= r,
                    (r + 1) * (r + 1) > n - 1,
            ;
            assert(is_sqrt_floor(n, r + 1));
        } else {
            assert(is_sqrt_floor(n, r));
        }
    }
}

/// A candidate for the integer square root is the integer square root.
pub proof fn lemma_sqrt_floor_is(n: int, r: int)
    requires
        is_sqrt_floor(n, r),
    ensures
        sqrt_floor(n) == r,
{
    lemma_sqrt_floor_unique(n, sqrt_floor(n), r);
}

/// The integer square root of a number that is at least `r * r` is at least
/// `r`.
pub proof fn lemma_sqrt_floor_at_least(n: int, r: int)
    requires
        0 <= r,
        r * r <= n,
    ensures
        sqrt_floor(n) >= r,
{
    assert(0 <= r * r) by (nonlinear_arith);
    lemma_sqrt_floor_exists(n);
    let s = sqrt_floor(n);
    if s < r {
        assert((s + 1) * (s + 1) <= r * r) by (nonlinear_arith)
            requires
                0 <= s,
                s + 1 <= r,
        ;
    }
}

/// The product of two bounded integers is bounded by the product of the bounds.
pub proof fn lemma_product_bound(a: int, b: int, bound_a: int, bound_b: int)
    requires
        -bound_a <= a <= bound_a,
        -bound_b <= b <= bound_b,
    ensures
        -(bound_a * bound_b) <= a * b <= bound_a * bound_b,
{
    assert(-(bound_a * bound_b) <= a * b <= bound_a * bound_b) by (nonlinear_arith)
        requires
            -bound_a <= a <= bound_a,
            -bound_b <= b <= bound_b,
    ;
}

/// The size of a number that fits in sixty-four bits.
pub fn magnitude(v: i128) -> (m: u128)
    requires
        -0x1_0000_0000_0000_0000 <= v <= 0x1_0000_0000_0000_0000,
    ensures
        m == if v < 0 {
            -v
        } else {
            v as int
        },
{
    if v < 0 {
        (-v) as u128
    } else {
        v as u128
    }
}

/// Computes `saturate`.
pub fn saturated(wide: i128) -> (v: Fixed)
    ensures
        v == saturate(wide as int),
{
    if wide > i64::MAX as i128 {
        i64::MAX
    } else if wide < i64::MIN as i128 {
        i64::MIN
    } else {
        wide as i64
    }
}

/// The sum of two fixed-point numbers, forced into what one can hold.
pub fn saturating_sum(a: Fixed, b: Fixed) -> (sum: Fixed)
    ensures
        sum == saturate(a + b),
{
    saturated((a as i128) + (b as i128))
}

/// Division rounding toward negative infinity, for a positive divisor.
pub fn floor_div(a: i128, b: i128) -> (q: i128)
    requires
        b > 0,
    ensures
        q == a / b,
{
    if a >= 0 {
        a / b
    } else {
        let n: i128 = -(a + 1);
        let qn: i128 = n / b;
        proof {
            let rn: int = (n as int) % (b as int);
            lemma_fundamental_div_mod(n as int, b as int);
            lemma_mod_pos_bound(n as int, b as int);
            assert(n == b * qn + rn);
            assert(a == (-qn - 1) * b + (b - 1 - rn)) by (nonlinear_arith)
                requires
                    n == b * qn + rn,
                    a == -n - 1,
            ;
            lemma_fundamental_div_mod_converse(a as int, b as int, -qn - 1, b - 1 - rn);
        }
        -qn - 1
    }
}

/// The remainder that goes with `floor_div`: always in `[0, b)`.
pub fn floor_mod(a: i128, b: i128) -> (r: i128)
    requires
        b > 0,
    ensures
        r == a % b,
        0 <= r < b,
{
    if a >= 0 {
        proof {
            lemma_mod_pos_bound(a as int, b as int);
        }
        a % b
    } else {
        let n: i128 = -(a + 1);
        let rn: i128 = n % b;
        proof {
            let qn: int = (n as int) / (b as int);
            lemma_fundamental_div_mod(n as int, b as int);
            lemma_mod_pos_bound(n as int, b as int);
            assert(n == b * qn + rn);
            assert(a == (-qn - 1) * b + (b - 1 - rn)) by (nonlinear_arith)
                requires
                    n == b * qn + rn,
                    a == -n - 1,
            ;
            lemma_fundamental_div_mod_converse(a as int, b as int, -qn - 1, b - 1 - rn);
        }
        b - 1 - rn
    }
}

/// The integer square root, by bisection.
pub fn isqrt(n: u128) -> (r: u128)
    ensures
        is_sqrt_floor(n as int, r as int),
        r == sqrt_floor(n as int),
        r < 0x1_0000_0000_0000_0000,
{
    let mut lo: u128 = 0;
    let mut hi: u128 = 0x1_0000_0000_0000_0000;
    assert(hi * hi > n) by (nonlinear_arith)
        requires
            hi == 0x1_0000_0000_0000_0000,
            n <= u128::MAX,
    ;
    while hi - lo > 1
        invariant
            lo < hi <= 0x1_0000_0000_0000_0000,
            lo * lo <= n < hi * hi,
        decreases hi - lo,
    {
        let mid: u128 = lo + (hi - lo) / 2;
        assert(mid * mid <= u128::MAX) by (nonlinear_arith)
            requires
                0 <= mid < 0x1_0000_0000_0000_0000,
        ;
        if mid * mid <= n {
            lo = mid;
        } else {
            hi = mid;
        }
    }
    proof {
        lemma_sqrt_floor_is(n as int, lo as int);
    }
    lo
}

} // verus!
