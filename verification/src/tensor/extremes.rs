//! Signs, orders and largest entries.

use vstd::prelude::*;
use crate::ieee::{
    NEG_ZERO, ZERO, above, absolute, finite, larger, magnitude, nan, negated, negative,
    non_negative, rank, smaller, total_rank,
};
use crate::tensor::{first_maximum, last_total_maximum};

verus! {

/// Negation keeps the magnitude, turns the order round, and undoes itself.
pub proof fn law_negation(x: u32, y: u32)
    ensures
        negated(negated(x)) == x,
        magnitude(negated(x)) == magnitude(x),
        negative(negated(x)) == !negative(x),
        above(negated(x), negated(y)) == above(y, x),
{
}

/// The absolute value keeps the magnitude, is never negative, and is the same
/// for a value and its negation.
pub proof fn law_absolute(x: u32)
    ensures
        magnitude(absolute(x)) == magnitude(x),
        !negative(absolute(x)),
        absolute(negated(x)) == absolute(x),
        !negative(x) ==> absolute(x) == x,
{
}

/// The larger and the smaller of two numbers are the two numbers, in order, and
/// a NaN gives way to the other.
pub proof fn law_larger_and_smaller(a: u32, b: u32)
    ensures
        larger(a, b) == a || larger(a, b) == b,
        smaller(a, b) == a || smaller(a, b) == b,
        !nan(a) && !nan(b) ==> rank(larger(a, b)) >= rank(a) && rank(larger(a, b)) >= rank(b),
        !nan(a) && !nan(b) ==> rank(smaller(a, b)) <= rank(a) && rank(smaller(a, b)) <= rank(b),
        nan(a) ==> larger(a, b) == b && smaller(a, b) == b,
        !nan(a) && nan(b) ==> larger(a, b) == a && smaller(a, b) == a,
{
}

/// The rectifier keeps positive numbers and gives a zero for all others.
pub proof fn law_rectifier(x: u32)
    ensures
        above(x, ZERO) ==> larger(x, ZERO) == x,
        !above(x, ZERO) ==> magnitude(larger(x, ZERO)) == 0,
{
}

/// The position of the largest entry in the total order: none is larger, and
/// none behind it is as large.
pub proof fn law_argmax(s: Seq<u32>, m: int, i: int)
    requires
        last_total_maximum(s, m),
        0 <= i < s.len(),
    ensures
        0 <= m < s.len(),
        total_rank(s[i]) <= total_rank(s[m]),
        total_rank(s[i]) == total_rank(s[m]) ==> i <= m,
{
}

/// The total order: negative NaN, negative numbers, the two zeros apart,
/// positive numbers, positive NaN.
pub proof fn law_total_order(a: u32, b: u32)
    ensures
        !nan(a) && !nan(b) && rank(a) < rank(b) ==> total_rank(a) < total_rank(b),
        nan(a) && !nan(b) && !negative(a) ==> total_rank(a) > total_rank(b),
        nan(a) && !nan(b) && negative(a) ==> total_rank(a) < total_rank(b),
        total_rank(NEG_ZERO) < total_rank(ZERO),
        total_rank(a) == total_rank(b) ==> a == b,
{
}

/// The largest entry, NaN aside: a number no other exceeds, the first of equals.
pub proof fn law_first_maximum(s: Seq<u32>, m: int, i: int)
    requires
        first_maximum(s, m),
        0 <= i < s.len(),
        !nan(s[i]),
    ensures
        0 <= m < s.len(),
        !nan(s[m]),
        rank(s[i]) <= rank(s[m]),
        rank(s[i]) == rank(s[m]) ==> m <= i,
{
}

/// Finite numbers, infinities and NaN are apart, and a number is not below zero
/// exactly if it is a zero or above one.
pub proof fn law_classes(x: u32)
    ensures
        !(finite(x) && nan(x)),
        non_negative(x) <==> above(x, ZERO) || x == ZERO || x == NEG_ZERO,
        !finite(x) && !nan(x) ==> magnitude(x) == 0x7F80_0000,
{
}

} // verus!
