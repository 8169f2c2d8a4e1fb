//! Saturating arithmetic and small integer helpers.

use vstd::prelude::*;

verus! {

pub open spec fn min_int(a: int, b: int) -> int {
    if a <= b {
        a
    } else {
        b
    }
}

pub open spec fn max_int(a: int, b: int) -> int {
    if a >= b {
        a
    } else {
        b
    }
}

/// `a * b`, or the largest `u64` where the product does not fit.
pub fn sat_mul_u64(a: u64, b: u64) -> (r: u64)
    ensures
        r == min_int(a * b, u64::MAX as int),
{
    match a.checked_mul(b) {
        Some(x) => x,
        None => u64::MAX,
    }
}

/// `a * b`, or the largest `u128` where the product does not fit.
pub fn sat_mul_u128(a: u128, b: u128) -> (r: u128)
    ensures
        r == min_int(a * b, u128::MAX as int),
{
    match a.checked_mul(b) {
        Some(x) => x,
        None => u128::MAX,
    }
}

/// `a + b`, or the largest `u64` where the sum does not fit.
pub fn sat_add_u64(a: u64, b: u64) -> (r: u64)
    ensures
        r == min_int(a + b, u64::MAX as int),
{
    a.saturating_add(b)
}

/// `a + b`, or the largest `u128` where the sum does not fit.
pub fn sat_add_u128(a: u128, b: u128) -> (r: u128)
    ensures
        r == min_int(a + b, u128::MAX as int),
{
    a.saturating_add(b)
}

pub fn min_u64(a: u64, b: u64) -> (r: u64)
    ensures
        r == min_int(a as int, b as int),
{
    if a <= b {
        a
    } else {
        b
    }
}

pub fn max_u64(a: u64, b: u64) -> (r: u64)
    ensures
        r == max_int(a as int, b as int),
{
    if a >= b {
        a
    } else {
        b
    }
}

} // verus!
