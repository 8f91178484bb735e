//! Saturating integer arithmetic and the integer helpers that the battle
//! simulation relies on, each stated over mathematical integers.
use vstd::prelude::*;

verus! {

/// `v` clamped into the range of `i128`.
pub open spec fn clamp_i128(v: int) -> int {
    if v > i128::MAX {
        i128::MAX as int
    } else if v < i128::MIN {
        i128::MIN as int
    } else {
        v
    }
}

/// `v` clamped into the range of `i64`.
pub open spec fn clamp_i64(v: int) -> int {
    if v > i64::MAX {
        i64::MAX as int
    } else if v < i64::MIN {
        i64::MIN as int
    } else {
        v
    }
}

/// `v` clamped into the range of `u128`.
pub open spec fn clamp_u128(v: int) -> int {
    if v > u128::MAX {
        u128::MAX as int
    } else if v < 0 {
        0
    } else {
        v
    }
}

pub open spec fn max_int(a: int, b: int) -> int {
    if a >= b { a } else { b }
}

pub open spec fn min_int(a: int, b: int) -> int {
    if a <= b { a } else { b }
}

pub open spec fn abs_int(a: int) -> int {
    if a >= 0 { a } else { -a }
}

pub open spec fn signum_int(a: int) -> int {
    if a > 0 { 1 } else if a < 0 { -1 } else { 0 }
}

proof fn lemma_mul_sign(a: int, b: int)
    ensures
        (a > 0 && b > 0) ==> a * b > 0,
        (a < 0 && b < 0) ==> a * b > 0,
        (a > 0 && b < 0) ==> a * b < 0,
        (a < 0 && b > 0) ==> a * b < 0,
        (a == 0 || b == 0) ==> a * b == 0,
{
    assert((a > 0 && b > 0) ==> a * b > 0) by (nonlinear_arith);
    assert((a < 0 && b < 0) ==> a * b > 0) by (nonlinear_arith);
    assert((a > 0 && b < 0) ==> a * b < 0) by (nonlinear_arith);
    assert((a < 0 && b > 0) ==> a * b < 0) by (nonlinear_arith);
    assert((a == 0 || b == 0) ==> a * b == 0) by (nonlinear_arith);
}

/// An index as a mathematical integer.
pub open spec fn ix(k: usize) -> int {
    k as int
}

/// `i128::saturating_mul`.
pub fn sat_mul_i128(a: i128, b: i128) -> (r: i128)
    ensures
        r == clamp_i128(a * b),
{
    proof {
        lemma_mul_sign(a as int, b as int);
    }
    match a.checked_mul(b) {
        Some(v) => v,
        None => {
            if (a < 0) == (b < 0) {
                i128::MAX
            } else {
                i128::MIN
            }
        },
    }
}

/// `i128::saturating_add`.
pub fn sat_add_i128(a: i128, b: i128) -> (r: i128)
    ensures
        r == clamp_i128(a + b),
{
    match a.checked_add(b) {
        Some(v) => v,
        None => {
            if a < 0 {
                i128::MIN
            } else {
                i128::MAX
            }
        },
    }
}

/// `i64::saturating_sub`.
pub fn sat_sub_i64(a: i64, b: i64) -> (r: i64)
    ensures
        r == clamp_i64(a - b),
{
    match a.checked_sub(b) {
        Some(v) => v,
        None => {
            if b > 0 {
                i64::MIN
            } else {
                i64::MAX
            }
        },
    }
}

/// `i64::saturating_add`.
pub fn sat_add_i64(a: i64, b: i64) -> (r: i64)
    ensures
        r == clamp_i64(a + b),
{
    match a.checked_add(b) {
        Some(v) => v,
        None => {
            if a < 0 {
                i64::MIN
            } else {
                i64::MAX
            }
        },
    }
}

/// `i64::saturating_mul`.
pub fn sat_mul_i64(a: i64, b: i64) -> (r: i64)
    ensures
        r == clamp_i64(a * b),
{
    proof {
        lemma_mul_sign(a as int, b as int);
    }
    match a.checked_mul(b) {
        Some(v) => v,
        None => {
            if (a < 0) == (b < 0) {
                i64::MAX
            } else {
                i64::MIN
            }
        },
    }
}

/// `u128::saturating_mul`.
pub fn sat_mul_u128(a: u128, b: u128) -> (r: u128)
    ensures
        r == clamp_u128(a * b),
{
    proof {
        lemma_mul_sign(a as int, b as int);
    }
    match a.checked_mul(b) {
        Some(v) => v,
        None => u128::MAX,
    }
}

} // verus!
