//! Saturating multiplication, which the running totals use.

use vstd::prelude::*;

verus! {

/// `a * b`, or the largest `u64` where the product is beyond it.
pub open spec fn saturated_product(a: u64, b: u64) -> u64 {
    if a * b > u64::MAX {
        u64::MAX
    } else {
        (a * b) as u64
    }
}

/// `a * b`, or the largest `u64` where the product is beyond it.
pub fn saturating_mul(a: u64, b: u64) -> (r: u64)
    ensures
        r == saturated_product(a, b),
{
    match a.checked_mul(b) {
        Some(v) => v,
        None => u64::MAX,
    }
}

} // verus!
