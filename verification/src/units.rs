//! Fixed-point quantities. Every length, coordinate and factor is an integer
//! count of millionths of its unit, so all of the geometry is exact integer
//! arithmetic with stated rounding (always towards negative infinity).

use vstd::arithmetic::div_mod::lemma_fundamental_div_mod_converse;
use vstd::prelude::*;

verus! {

/// Number of fixed-point steps in one whole unit.
pub const SCALE: i64 = 1_000_000;

/// Largest magnitude accepted for page extents and for the tuning values of a
/// configuration: a thousand million units.
pub const EXTENT_LIMIT: i64 = 1_000_000_000_000_000;

/// The nearest value to `x` that an `i64` can hold.
pub open spec fn clamp(x: int) -> int {
    if x < i64::MIN as int {
        i64::MIN as int
    } else if x > i64::MAX as int {
        i64::MAX as int
    } else {
        x
    }
}

/// `v` multiplied by the ratio `num / den`, rounded down.
pub open spec fn scaled(v: int, num: int, den: int) -> int {
    (v * num) / den
}

/// Whether `m` lies within the extent limit on either side of zero.
pub open spec fn within_limit(m: int) -> bool {
    -(EXTENT_LIMIT as int) <= m <= EXTENT_LIMIT as int
}

/// The least count of steps of size `step` that reaches `span`, never below zero.
pub open spec fn steps_to_cover(span: int, step: int) -> int {
    if span <= 0 {
        0
    } else {
        (span + step - 1) / step
    }
}

/// Whether `n` lies between the square of `r` and the next square.
pub open spec fn is_sqrt(n: nat, r: nat) -> bool {
    r * r <= n < (r + 1) * (r + 1)
}

/// The integer square root: the one `r` with `r * r <= n < (r + 1) * (r + 1)`.
pub open spec fn sqrt_floor(n: nat) -> nat {
    choose|r: nat| is_sqrt(n, r)
}

/// Every natural number has an integer square root.
pub proof fn lemma_sqrt_exists(n: nat)
    ensures
        is_sqrt(n, sqrt_floor(n)),
    decreases n,
{
    if n == 0 {
        assert(0 * 0 == 0 && (0 + 1) * (0 + 1) == 1) by (nonlinear_arith);
        assert(is_sqrt(n, 0));
    } else {
        lemma_sqrt_exists((n - 1) as nat);
        let p: nat = sqrt_floor((n - 1) as nat);
        if (p + 1) * (p + 1) <= n {
            let r: nat = p + 1;
            assert((r + 1) * (r + 1) == (p + 1) * (p + 1) + 2 * p + 3) by (nonlinear_arith)
                requires
                    r == p + 1,
            ;
            assert(is_sqrt(n, r));
        } else {
            assert(is_sqrt(n, p));
        }
    }
}

/// The integer square root is the only number that brackets `n` between two
/// consecutive squares.
pub proof fn lemma_sqrt_unique(n: nat, r: nat)
    requires
        is_sqrt(n, r),
    ensures
        r == sqrt_floor(n),
{
    lemma_sqrt_exists(n);
    let s = sqrt_floor(n);
    if r < s {
        assert((r + 1) * (r + 1) <= s * s) by (nonlinear_arith)
            requires
                r + 1 <= s,
        ;
    } else if s < r {
        assert((s + 1) * (s + 1) <= r * r) by (nonlinear_arith)
            requires
                s + 1 <= r,
        ;
    }
}

/// Narrows a wide intermediate result to `i64`, saturating at the ends.
pub fn saturate(x: i128) -> (r: i64)
    ensures
        r as int == clamp(x as int),
{
    if x < i64::MIN as i128 {
        i64::MIN
    } else if x > i64::MAX as i128 {
        i64::MAX
    } else {
        x as i64
    }
}

/// Division that rounds towards negative infinity, for a positive divisor.
pub fn floor_div(a: i128, b: i128) -> (q: i128)
    requires
        b > 0,
    ensures
        q as int == (a as int) / (b as int),
{
    if a >= 0 {
        a / b
    } else {
        // a = -(below + 1), so a / b = -(below / b) - 1, rounded down
        let below: i128 = -(a + 1);
        let whole: i128 = below / b;
        proof {
            let rest = below as int % b as int;
            vstd::arithmetic::div_mod::lemma_fundamental_div_mod(below as int, b as int);
            vstd::arithmetic::div_mod::lemma_mod_bound(below as int, b as int);
            assert(a as int == (-(whole as int) - 1) * (b as int) + (b as int - 1 - rest))
                by (nonlinear_arith)
                requires
                    below as int == (b as int) * (whole as int) + rest,
                    a as int == -(below as int) - 1,
            ;
            lemma_fundamental_div_mod_converse(
                a as int,
                b as int,
                -(whole as int) - 1,
                b as int - 1 - rest,
            );
        }
        -whole - 1
    }
}

/// `v * num / den` on machine integers; the product of two `i64` always fits.
pub fn scale(v: i64, num: i64, den: i64) -> (r: i128)
    requires
        den > 0,
    ensures
        r as int == scaled(v as int, num as int, den as int),
        -0x4000_0000_0000_0000_0000_0000_0000_0000 <= r <= 0x4000_0000_0000_0000_0000_0000_0000_0000,
{
    assert(-0x4000_0000_0000_0000_0000_0000_0000_0000 <= (v as int) * (num as int)
        <= 0x4000_0000_0000_0000_0000_0000_0000_0000) by (nonlinear_arith)
        requires
            -0x8000_0000_0000_0000 <= v as int <= 0x7fff_ffff_ffff_ffff,
            -0x8000_0000_0000_0000 <= num as int <= 0x7fff_ffff_ffff_ffff,
    ;
    let product: i128 = (v as i128) * (num as i128);
    let q = floor_div(product, den as i128);
    proof {
        lemma_floor_div_bounds(product as int, den as int);
    }
    q
}

/// A quotient by a positive divisor is no further from zero than the dividend,
/// give or take the one step that rounding down may add.
pub proof fn lemma_floor_div_bounds(a: int, b: int)
    requires
        b > 0,
    ensures
        a >= 0 ==> 0 <= a / b <= a,
        a < 0 ==> a <= a / b < 0,
{
    vstd::arithmetic::div_mod::lemma_fundamental_div_mod(a, b);
    vstd::arithmetic::div_mod::lemma_mod_bound(a, b);
    let q = a / b;
    let r = a % b;
    if a >= 0 {
        assert(0 <= q <= a) by (nonlinear_arith)
            requires
                a == b * q + r,
                0 <= r < b,
                b > 0,
                a >= 0,
        ;
    } else {
        assert(a <= q < 0) by (nonlinear_arith)
            requires
                a == b * q + r,
                0 <= r < b,
                b > 0,
                a < 0,
        ;
    }
}

/// The integer square root of `n`, found by bisection.
pub fn isqrt(n: u128) -> (r: u128)
    ensures
        r as nat == sqrt_floor(n as nat),
        r < 0x1_0000_0000_0000_0000,
{
    let mut lo: u128 = 0;
    let mut hi: u128 = 0x1_0000_0000_0000_0000;
    assert((hi as int) * (hi as int) > n as int) by (nonlinear_arith)
        requires
            hi as int == 0x1_0000_0000_0000_0000,
            n as int <= 0xffff_ffff_ffff_ffff_ffff_ffff_ffff_ffff,
    ;
    while hi - lo > 1
        invariant
            lo < hi <= 0x1_0000_0000_0000_0000,
            (lo as int) * (lo as int) <= n as int,
            (n as int) < (hi as int) * (hi as int),
        decreases hi - lo,
    {
        let mid: u128 = lo + (hi - lo) / 2;
        assert((mid as int) * (mid as int) <= 0xffff_ffff_ffff_ffff_ffff_ffff_ffff_ffff) by (nonlinear_arith)
            requires
                0 <= mid as int <= 0xffff_ffff_ffff_ffff,
        ;
        if mid * mid <= n {
            lo = mid;
        } else {
            hi = mid;
        }
    }
    proof {
        lemma_sqrt_unique(n as nat, lo as nat);
    }
    lo
}

} // verus!
