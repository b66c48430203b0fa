//! Exact fixed-point arithmetic shared by the domains: saturation, clamping, and division
//! that rounds toward zero, each stated over mathematical integers.

use vstd::prelude::*;

verus! {

/// `a + b`, saturating at the bounds of `i64`.
pub open spec fn sat_add(a: i64, b: i64) -> i64 {
    if a + b > i64::MAX {
        i64::MAX
    } else if a + b < i64::MIN {
        i64::MIN
    } else {
        (a + b) as i64
    }
}

/// `a + b`, saturating at the bounds of `i64`.
pub fn saturating_add(a: i64, b: i64) -> (r: i64)
    ensures
        r == sat_add(a, b),
{
    if b > 0 && a > i64::MAX - b {
        i64::MAX
    } else if b < 0 && a < i64::MIN - b {
        i64::MIN
    } else {
        a + b
    }
}

/// `n` clamped into `[lo, hi]`.
pub open spec fn clamp_spec(n: i64, lo: i64, hi: i64) -> i64 {
    if n < lo {
        lo
    } else if n > hi {
        hi
    } else {
        n
    }
}

/// `n` clamped into `[lo, hi]`.
pub fn clamp(n: i64, lo: i64, hi: i64) -> (r: i64)
    requires
        lo <= hi,
    ensures
        r == clamp_spec(n, lo, hi),
        lo <= r <= hi,
{
    if n < lo {
        lo
    } else if n > hi {
        hi
    } else {
        n
    }
}

/// A 64-bit word read as a two's-complement signed integer.
pub open spec fn tr64(x: u64) -> int {
    if x > i64::MAX {
        x - 0x1_0000_0000_0000_0000int
    } else {
        x as int
    }
}

/// Integer division rounding toward zero, by a positive divisor.
pub open spec fn trunc_div(a: int, b: int) -> int {
    if a >= 0 {
        a / b
    } else {
        -((-a) / b)
    }
}

/// An integer saturated into the range of `i64`.
pub open spec fn clamp64(x: int) -> i64 {
    if x > i64::MAX {
        i64::MAX
    } else if x < i64::MIN {
        i64::MIN
    } else {
        x as i64
    }
}

/// Integer division rounding toward zero, by a positive divisor.
pub fn div_toward_zero(a: i128, b: i128) -> (r: i128)
    requires
        b > 0,
        a > i128::MIN,
    ensures
        r == trunc_div(a as int, b as int),
{
    if a >= 0 {
        ((a as u128) / (b as u128)) as i128
    } else {
        let m = ((-a) as u128) / (b as u128);
        assert(m <= (-a) as u128) by (nonlinear_arith)
            requires
                m == ((-a) as u128) / (b as u128),
                b > 0,
        ;
        -(m as i128)
    }
}

/// An `i128` saturated into the range of `i64`.
pub fn saturate64(x: i128) -> (r: i64)
    ensures
        r == clamp64(x as int),
{
    if x > i64::MAX as i128 {
        i64::MAX
    } else if x < i64::MIN as i128 {
        i64::MIN
    } else {
        x as i64
    }
}

/// The greater of two integers.
pub open spec fn max_i64(a: i64, b: i64) -> i64 {
    if a >= b {
        a
    } else {
        b
    }
}

} // verus!
