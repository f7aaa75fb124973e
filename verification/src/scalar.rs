//! Fixed-point scalars.
//!
//! A physical scalar is an `i64` counting `1/SCALE` units, so the value `1.0`
//! is stored as `SCALE`. Every arithmetic operation saturates at
//! `±MAX_SCALAR`, the numeric policy of this kernel: out-of-range results
//! degrade silently to the bound instead of halting a real-time step.
//! Multiplication and division truncate toward zero.

use vstd::prelude::*;

verus! {

/// Number of raw steps per physical unit.
pub const SCALE: i64 = 1024;

/// Half of `SCALE`, the raw representation of one half unit.
pub const HALF_SCALE: i64 = 512;

/// Saturation bound: every stored scalar stays in `[-MAX_SCALAR, MAX_SCALAR]`.
pub const MAX_SCALAR: i64 = 0x4_0000_0000_0000;

/// Whether `x` lies in the representable saturation range.
pub open spec fn in_range(x: int) -> bool {
    -MAX_SCALAR <= x <= MAX_SCALAR
}

/// Clamp `x` into the saturation range.
pub open spec fn sat(x: int) -> int {
    if x > MAX_SCALAR {
        MAX_SCALAR as int
    } else if x < -MAX_SCALAR {
        -MAX_SCALAR as int
    } else {
        x
    }
}

/// Magnitude of an integer.
pub open spec fn iabs(x: int) -> int {
    if x < 0 {
        -x
    } else {
        x
    }
}

/// Division truncating toward zero, the rounding used by all fixed-point
/// operations.
pub open spec fn tdiv(n: int, d: int) -> int
    recommends
        d != 0,
{
    if (n < 0) == (d < 0) {
        iabs(n) / iabs(d)
    } else {
        -(iabs(n) / iabs(d))
    }
}

/// Saturating fixed-point addition.
pub open spec fn spec_add(a: int, b: int) -> int {
    sat(a + b)
}

/// Saturating fixed-point subtraction.
pub open spec fn spec_sub(a: int, b: int) -> int {
    sat(a - b)
}

/// Saturating fixed-point negation.
pub open spec fn spec_neg(a: int) -> int {
    sat(-a)
}

/// Saturating fixed-point multiplication: `a * b` rescaled by `SCALE`.
pub open spec fn spec_mul(a: int, b: int) -> int {
    sat(tdiv(a * b, SCALE as int))
}

/// Saturating fixed-point division: `a / b` rescaled by `SCALE`.
pub open spec fn spec_div(a: int, b: int) -> int
    recommends
        b != 0,
{
    sat(tdiv(a * SCALE, b))
}

/// Floor of the square root of a natural number.
pub open spec fn sqrt_floor(n: nat) -> nat
    decreases n,
{
    if n == 0 {
        0
    } else {
        let r = sqrt_floor((n - 1) as nat);
        if (r + 1) * (r + 1) <= n {
            r + 1
        } else {
            r
        }
    }
}

/// `sqrt_floor(n)` really is the floor of the square root of `n`.
pub proof fn lemma_sqrt_floor(n: nat)
    ensures
        sqrt_floor(n) * sqrt_floor(n) <= n,
        n < (sqrt_floor(n) + 1) * (sqrt_floor(n) + 1),
    decreases n,
{
    if n > 0 {
        lemma_sqrt_floor((n - 1) as nat);
        let r = sqrt_floor((n - 1) as nat);
        assert(r * r <= n - 1 && n - 1 < (r + 1) * (r + 1));
        let s = sqrt_floor(n);
        if (r + 1) * (r + 1) <= n {
            assert(s == r + 1);
            assert(n <= (r + 1) * (r + 1)) by {
                assert(n - 1 < (r + 1) * (r + 1));
            }
            assert((s + 1) * (s + 1) > s * s) by (nonlinear_arith);
            assert(n < (s + 1) * (s + 1));
        } else {
            assert(s == r);
            assert(s * s <= n);
            assert(n < (s + 1) * (s + 1));
        }
    } else {
        assert(sqrt_floor(0) == 0);
        assert(n < (sqrt_floor(n) + 1) * (sqrt_floor(n) + 1)) by (nonlinear_arith)
            requires
                n == 0,
                sqrt_floor(n) == 0,
        ;
    }
}

/// Any `r` with `r^2 <= n < (r+1)^2` equals `sqrt_floor(n)`.
pub proof fn lemma_sqrt_floor_unique(n: nat, r: nat)
    requires
        r * r <= n,
        n < (r + 1) * (r + 1),
    ensures
        r == sqrt_floor(n),
{
    lemma_sqrt_floor(n);
    let s = sqrt_floor(n);
    if r < s {
        assert((r + 1) * (r + 1) <= s * s) by (nonlinear_arith)
            requires
                r + 1 <= s,
        ;
    }
    if s < r {
        assert((s + 1) * (s + 1) <= r * r) by (nonlinear_arith)
            requires
                s + 1 <= r,
        ;
    }
}

/// Clamp an `i128` intermediate into the scalar range.
fn clamp_i128(x: i128) -> (r: i64)
    ensures
        r as int == sat(x as int),
{
    if x > MAX_SCALAR as i128 {
        MAX_SCALAR
    } else if x < -(MAX_SCALAR as i128) {
        -MAX_SCALAR
    } else {
        x as i64
    }
}

/// Truncating division of an `i128` by a nonzero `i128`.
fn tdiv_i128(n: i128, d: i128) -> (r: i128)
    requires
        d != 0,
        n > i128::MIN,
        d > i128::MIN,
    ensures
        r as int == tdiv(n as int, d as int),
{
    let nm: u128 = if n < 0 {
        (-n) as u128
    } else {
        n as u128
    };
    let dm: u128 = if d < 0 {
        (-d) as u128
    } else {
        d as u128
    };
    let q: u128 = nm / dm;
    assert(q <= nm) by {
        vstd::arithmetic::div_mod::lemma_div_nonincreasing(nm as int, dm as int);
    }
    if (n < 0) == (d < 0) {
        q as i128
    } else {
        -(q as i128)
    }
}

/// Multiplying by a positive factor and truncating it away is the identity.
pub proof fn lemma_tdiv_mul_cancel(a: int, k: int)
    requires
        k > 0,
    ensures
        tdiv(a * k, k) == a,
{
    assert(iabs(a * k) == iabs(a) * k && ((a * k < 0) == (a < 0))) by (nonlinear_arith)
        requires
            k > 0,
    ;
    vstd::arithmetic::div_mod::lemma_div_multiples_vanish(iabs(a), k);
    assert(k * iabs(a) == iabs(a) * k) by (nonlinear_arith);
    assert((iabs(a) * k) / k == iabs(a));
}

/// Truncating division is invariant under doubling both operands.
pub proof fn lemma_tdiv_halve(a: int, b: int)
    requires
        b > 0,
    ensures
        tdiv(2 * a, 2 * b) == tdiv(a, b),
{
    assert(iabs(2 * a) == 2 * iabs(a));
    vstd::arithmetic::div_mod::lemma_div_denominator(2 * iabs(a), 2, b);
    vstd::arithmetic::div_mod::lemma_div_multiples_vanish(iabs(a), 2);
    assert((2 * iabs(a)) / 2 == iabs(a));
    assert((2 * iabs(a)) / (2 * b) == iabs(a) / b);
}

/// A nonnegative exact multiple divides back to its quotient.
pub proof fn lemma_tdiv_exact(m: int, d: int)
    requires
        d > 0,
        m >= 0,
        m % d == 0,
    ensures
        tdiv(m, d) * d == m,
        tdiv(m, d) >= 0,
{
    vstd::arithmetic::div_mod::lemma_fundamental_div_mod(m, d);
    vstd::arithmetic::div_mod::lemma_div_pos_is_pos(m, d);
    assert(m == d * (m / d) + m % d);
    assert((m / d) * d == d * (m / d)) by (nonlinear_arith);
}

/// The product of two `i64` values stays well inside the `i128` range.
pub proof fn lemma_i64_product_fits(a: int, b: int)
    requires
        i64::MIN <= a <= i64::MAX,
        i64::MIN <= b <= i64::MAX,
    ensures
        -0x4000_0000_0000_0000_0000_0000_0000_0000 <= a * b
            <= 0x4000_0000_0000_0000_0000_0000_0000_0000,
        a == b ==> a * b >= 0,
{
    assert(-0x4000_0000_0000_0000_0000_0000_0000_0000 <= a * b
        <= 0x4000_0000_0000_0000_0000_0000_0000_0000 && (a == b ==> a * b >= 0))
        by (nonlinear_arith)
        requires
            -0x8000_0000_0000_0000 <= a <= 0x7fff_ffff_ffff_ffff,
            -0x8000_0000_0000_0000 <= b <= 0x7fff_ffff_ffff_ffff,
    ;
}

/// Rescale a raw `i128` product sum by `SCALE` and clamp it, the final step
/// of fixed-point products.
pub(crate) fn sat_rescale(p: i128) -> (r: i64)
    requires
        p > i128::MIN,
    ensures
        r as int == sat(tdiv(p as int, SCALE as int)),
{
    let q: i128 = tdiv_i128(p, SCALE as i128);
    clamp_i128(q)
}

/// Truncating division of a scalar by a positive divisor, without rescaling:
/// both operands and the result share the same fixed-point scale.
pub fn tdiv_exec(a: i64, d: i64) -> (r: i64)
    requires
        d > 0,
    ensures
        r as int == tdiv(a as int, d as int),
{
    if a >= 0 {
        let q: u64 = (a as u64) / (d as u64);
        proof {
            vstd::arithmetic::div_mod::lemma_div_nonincreasing(a as int, d as int);
        }
        q as i64
    } else {
        let m: u128 = (-(a as i128)) as u128;
        let q: u128 = m / (d as u128);
        proof {
            vstd::arithmetic::div_mod::lemma_div_nonincreasing(m as int, d as int);
        }
        (-(q as i128)) as i64
    }
}

/// Saturating addition of two scalars.
pub fn sat_add(a: i64, b: i64) -> (r: i64)
    ensures
        r as int == spec_add(a as int, b as int),
{
    clamp_i128(a as i128 + b as i128)
}

/// Saturating subtraction of two scalars.
pub fn sat_sub(a: i64, b: i64) -> (r: i64)
    ensures
        r as int == spec_sub(a as int, b as int),
{
    clamp_i128(a as i128 - b as i128)
}

/// Saturating negation of a scalar.
pub fn sat_neg(a: i64) -> (r: i64)
    ensures
        r as int == spec_neg(a as int),
{
    clamp_i128(-(a as i128))
}

/// Saturating fixed-point multiplication of two scalars.
pub fn sat_mul(a: i64, b: i64) -> (r: i64)
    ensures
        r as int == spec_mul(a as int, b as int),
{
    assert((a as int) * (b as int) < i128::MAX && (a as int) * (b as int) > i128::MIN)
        by (nonlinear_arith)
        requires
            i64::MIN <= a <= i64::MAX,
            i64::MIN <= b <= i64::MAX,
    ;
    let p: i128 = a as i128 * b as i128;
    let q: i128 = tdiv_i128(p, SCALE as i128);
    clamp_i128(q)
}

/// Saturating fixed-point division of a scalar by a nonzero scalar.
pub fn sat_div(a: i64, b: i64) -> (r: i64)
    requires
        b != 0,
    ensures
        r as int == spec_div(a as int, b as int),
{
    assert((a as int) * (SCALE as int) < i128::MAX && (a as int) * (SCALE as int) > i128::MIN)
        by (nonlinear_arith)
        requires
            i64::MIN <= a <= i64::MAX,
            SCALE == 1024,
    ;
    let n: i128 = a as i128 * SCALE as i128;
    let q: i128 = tdiv_i128(n, b as i128);
    clamp_i128(q)
}

/// Floor square root of a 128-bit natural number.
pub fn isqrt_u128(n: u128) -> (r: u64)
    ensures
        r as nat == sqrt_floor(n as nat),
        (r as int) * (r as int) <= n as int,
        (n as int) < (r as int + 1) * (r as int + 1),
{
    let mut lo: u128 = 0;
    let mut hi: u128 = 0x1_0000_0000_0000_0000;
    assert((hi as int) * (hi as int) > n as int) by (nonlinear_arith)
        requires
            hi as int == 0x1_0000_0000_0000_0000,
            n <= u128::MAX,
    ;
    while lo + 1 < hi
        invariant
            lo < hi,
            hi <= 0x1_0000_0000_0000_0000,
            (lo as int) * (lo as int) <= n as int,
            (n as int) < (hi as int) * (hi as int),
        decreases hi - lo,
    {
        let mid: u128 = lo + (hi - lo) / 2;
        assert(lo < mid < hi);
        assert(mid * mid <= u128::MAX) by (nonlinear_arith)
            requires
                mid < 0x1_0000_0000_0000_0000,
        ;
        let m2: u128 = mid * mid;
        if m2 <= n {
            lo = mid;
        } else {
            hi = mid;
        }
    }
    proof {
        lemma_sqrt_floor_unique(n as nat, lo as nat);
    }
    lo as u64
}

} // verus!
