//! Saturating fixed-point arithmetic on `i64` raw values.
//!
//! A quantity `x` is stored as the raw integer closest to `x * FP_ONE`
//! (truncated toward zero). Every operation clamps its result into
//! `[-FP_SAT, FP_SAT]`, so a chain of operations can never overflow;
//! within that range the operations compute the exact truncated value.

use vstd::prelude::*;

verus! {

/// Raw value of the fixed-point number one.
pub const FP_ONE: i64 = 65536;

/// Saturation bound: every stored value lies in `[-FP_SAT, FP_SAT]`.
pub const FP_SAT: i64 = 0x8000_0000;

/// True when `x` lies in the representable range.
pub open spec fn fx_in_range(x: int) -> bool {
    -(FP_SAT as int) <= x <= FP_SAT as int
}

/// Clamp a mathematical integer into the representable range.
pub open spec fn sat(x: int) -> int {
    if x > FP_SAT as int {
        FP_SAT as int
    } else if x < -(FP_SAT as int) {
        -(FP_SAT as int)
    } else {
        x
    }
}

/// Division truncated toward zero, for a positive divisor.
pub open spec fn tdiv(a: int, b: int) -> int
    recommends
        b >= 1,
{
    if a >= 0 {
        a / b
    } else {
        -((-a) / b)
    }
}

/// Saturating fixed-point addition.
pub open spec fn fxs_add(a: int, b: int) -> int {
    sat(a + b)
}

/// Saturating fixed-point subtraction.
pub open spec fn fxs_sub(a: int, b: int) -> int {
    sat(a - b)
}

/// Saturating fixed-point multiplication (truncated toward zero).
pub open spec fn fxs_mul(a: int, b: int) -> int {
    sat(tdiv(a * b, FP_ONE as int))
}

/// Saturating fixed-point division (truncated toward zero), divisor >= 1 raw.
pub open spec fn fxs_div(a: int, b: int) -> int
    recommends
        b >= 1,
{
    sat(tdiv(a * FP_ONE, b))
}

/// Clamp an in-range mathematical integer back into an `i64`.
pub open spec fn fxc(x: int) -> i64 {
    sat(x) as i64
}

/// A truncating division by `b` of a value bounded by `m * b` is bounded
/// by `m`.
pub proof fn lemma_tdiv_bound(a: int, b: int, m: int)
    requires
        b >= 1,
        0 <= m,
        -(m * b) <= a <= m * b,
    ensures
        -m <= tdiv(a, b) <= m,
{
    vstd::arithmetic::div_mod::lemma_div_multiples_vanish(m, b);
    assert((b * m) / b == m);
    assert(m * b == b * m) by (nonlinear_arith);
    if a >= 0 {
        vstd::arithmetic::div_mod::lemma_div_pos_is_pos(a, b);
        vstd::arithmetic::div_mod::lemma_div_is_ordered(a, m * b, b);
        assert(a / b <= m);
        assert(tdiv(a, b) == a / b);
    } else {
        vstd::arithmetic::div_mod::lemma_div_pos_is_pos(-a, b);
        vstd::arithmetic::div_mod::lemma_div_is_ordered(-a, m * b, b);
        assert((-a) / b <= m);
        assert(tdiv(a, b) == -((-a) / b));
    }
}

/// A truncating division returns an exact multiple of the divisor
/// unchanged.
pub proof fn lemma_tdiv_multiple(a: int, b: int)
    requires
        b >= 1,
    ensures
        tdiv(a * b, b) == a,
{
    if a >= 0 {
        vstd::arithmetic::div_mod::lemma_div_multiples_vanish(a, b);
        assert(a * b == b * a) by (nonlinear_arith);
    } else {
        vstd::arithmetic::div_mod::lemma_div_multiples_vanish(-a, b);
        assert(-(a * b) == b * (-a)) by (nonlinear_arith);
    }
}

/// For non-negative dividends, truncating division is superadditive:
/// dividing two parts separately loses at least as much as dividing
/// their sum.
pub proof fn lemma_tdiv_superadd(a: int, b: int, d: int)
    requires
        0 <= a,
        0 <= b,
        1 <= d,
    ensures
        tdiv(a, d) + tdiv(b, d) <= tdiv(a + b, d),
{
    vstd::arithmetic::div_mod::lemma_fundamental_div_mod(a, d);
    vstd::arithmetic::div_mod::lemma_fundamental_div_mod(b, d);
    vstd::arithmetic::div_mod::lemma_mod_bound(a, d);
    vstd::arithmetic::div_mod::lemma_mod_bound(b, d);
    vstd::arithmetic::div_mod::lemma_div_pos_is_pos(a, d);
    vstd::arithmetic::div_mod::lemma_div_pos_is_pos(b, d);
    let q = a / d + b / d;
    assert(a + b == d * q + (a % d + b % d)) by (nonlinear_arith)
        requires
            a == d * (a / d) + a % d,
            b == d * (b / d) + b % d,
            q == a / d + b / d,
    ;
    assert(d * q >= 0) by (nonlinear_arith)
        requires
            q >= 0,
            d >= 1,
    ;
    vstd::arithmetic::div_mod::lemma_div_is_ordered(d * q, a + b, d);
    vstd::arithmetic::div_mod::lemma_div_multiples_vanish(q, d);
}

/// The raw product of two in-range values fits comfortably in an `i64`,
/// as `fx_mul` requires.
pub proof fn lemma_range_product(a: int, b: int)
    requires
        fx_in_range(a),
        fx_in_range(b),
    ensures
        -0x4000_0000_0000_0000 <= a * b <= 0x4000_0000_0000_0000,
{
    assert(-0x4000_0000_0000_0000 <= a * b <= 0x4000_0000_0000_0000) by (nonlinear_arith)
        requires
            -0x8000_0000 <= a <= 0x8000_0000,
            -0x8000_0000 <= b <= 0x8000_0000,
    ;
}

/// Clamp a raw `i64` into the representable range.
pub fn fx_sat(x: i64) -> (r: i64)
    ensures
        r == sat(x as int),
        fx_in_range(r as int),
{
    if x > FP_SAT {
        FP_SAT
    } else if x < -FP_SAT {
        -FP_SAT
    } else {
        x
    }
}

/// Truncating division of a raw value by a positive raw divisor.
pub fn fx_tdiv(a: i64, b: i64) -> (r: i64)
    requires
        b >= 1,
        a > i64::MIN,
    ensures
        r == tdiv(a as int, b as int),
{
    if a >= 0 {
        a / b
    } else {
        -((-a) / b)
    }
}

/// Saturating addition of two in-range values.
pub fn fx_add(a: i64, b: i64) -> (r: i64)
    requires
        fx_in_range(a as int),
        fx_in_range(b as int),
    ensures
        r == fxs_add(a as int, b as int),
        fx_in_range(r as int),
{
    fx_sat(a + b)
}

/// Saturating subtraction of two in-range values.
pub fn fx_sub(a: i64, b: i64) -> (r: i64)
    requires
        fx_in_range(a as int),
        fx_in_range(b as int),
    ensures
        r == fxs_sub(a as int, b as int),
        fx_in_range(r as int),
{
    fx_sat(a - b)
}

/// Saturating fixed-point multiplication; the raw product must fit in `i64`.
pub fn fx_mul(a: i64, b: i64) -> (r: i64)
    requires
        -0x4000_0000_0000_0000 <= a as int * b as int <= 0x4000_0000_0000_0000,
    ensures
        r == fxs_mul(a as int, b as int),
        fx_in_range(r as int),
{
    let p: i64 = a * b;
    fx_sat(fx_tdiv(p, FP_ONE))
}

/// Saturating fixed-point division by a positive raw divisor.
pub fn fx_div(a: i64, b: i64) -> (r: i64)
    requires
        fx_in_range(a as int),
        b >= 1,
    ensures
        r == fxs_div(a as int, b as int),
        fx_in_range(r as int),
{
    let p: i64 = a * FP_ONE;
    fx_sat(fx_tdiv(p, b))
}

} // verus!
