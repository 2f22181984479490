//! Uniform draws.

use vstd::prelude::*;
use crate::ieee::{ONE, UNIT_STEPS, above, fraction_of_unit, non_negative, unit_fraction};

verus! {

/// `rand::random_range` over `0..n`: some whole number below `n`, by chance.
/// It panics on an empty range, which the contract leaves out.
#[verifier::external_body]
fn random_below(n: u32) -> (r: u32)
    requires
        n > 0,
    ensures
        r < n,
{
    rand::random_range(0..n)
}

/// A number a uniform draw can give: a multiple of `2^-23` from zero to below
/// one.
pub open spec fn drawable(r: u32) -> bool {
    exists|k: u32| k < UNIT_STEPS && #[trigger] unit_fraction(k, r)
}

/// One uniform draw from the half-open unit interval.
pub fn unit_draw() -> (r: u32)
    ensures
        drawable(r),
        non_negative(r),
        above(ONE, r),
{
    let k: u32 = random_below(UNIT_STEPS);
    fraction_of_unit(k)
}

} // verus!
