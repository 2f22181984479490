//! What a mask does to a row, given what the unit does on zeros, infinities and
//! small counts.

use vstd::prelude::*;
use crate::float::{
    FloatUnit, adds, adds64, divs64, exps64, linked, muls, narrows, subs64, traces, widens,
};
use crate::ieee::{
    COUNT_LIMIT64, INFINITY, NEG_INFINITY, NEG_INFINITY64, NEG_ZERO, ONE64, ZERO, ZERO64, above,
    finite, finite64, magnitude, magnitude64, nan, nan64, non_negative, rank, rank64,
};
use crate::tensor::finite::{
    any_nan, constant, corrects, distributes, exps_below, first_peak, masses, occurrences,
    partition_step, shares, softmaxes, stable, uniform, weighs,
};
use crate::tensor::laws::{law_correction_keeps_masses, lemma_occurrences_present, masks_out};

verus! {

/// The unit orders exponentials and small sums as IEEE 754 arithmetic does.
pub open spec fn orderly<F: FloatUnit>() -> bool {
    // Widening keeps classes and order.
    &&& forall|w: u64| #[trigger] widens::<F>(NEG_INFINITY, w) ==> w == NEG_INFINITY64
    &&& forall|x: u32, w: u64| finite(x) && #[trigger] widens::<F>(x, w) ==> finite64(w)
    &&& forall|x: u32, y: u32, v: u64, w: u64|
        !nan(x) && !nan(y) && rank(x) <= rank(y) && #[trigger] widens::<F>(x, v)
            && #[trigger] widens::<F>(y, w) ==> rank64(v) <= rank64(
            w,
        )
    // A difference from something no smaller is not positive.
    &&& forall|w: u64, t: u64, d: u64|
        !nan64(w) && finite64(t) && rank64(w) <= rank64(t) && #[trigger] subs64::<F>(w, t, d)
            ==> !nan64(d) && rank64(d) <= 0
    &&& forall|w: u64, t: u64, d: u64|
        finite64(t) && rank64(w) == rank64(t) && #[trigger] subs64::<F>(w, t, d) ==> magnitude64(d)
            == 0
    &&& forall|t: u64, d: u64|
        finite64(t) && #[trigger] subs64::<F>(NEG_INFINITY64, t, d) ==> d
            == NEG_INFINITY64
    // The exponential of something not positive is at most one.
    &&& forall|d: u64, e: u64|
        !nan64(d) && rank64(d) <= 0 && #[trigger] exps64::<F>(d, e) ==> e <= ONE64
    &&& forall|d: u64, e: u64|
        magnitude64(d) == 0 && #[trigger] exps64::<F>(d, e) ==> e == ONE64
    &&& forall|e: u64| #[trigger]
        exps64::<F>(NEG_INFINITY64, e) ==> e
            == ZERO64
    // Adding at most one to a count grows it and stays within the limit.
    &&& forall|a: u64, b: u64, r: u64|
        a <= COUNT_LIMIT64 && b <= ONE64 && #[trigger] adds64::<F>(a, b, r) ==> a <= r && b <= r
            && r <= COUNT_LIMIT64
    // One over a count is positive, zero over a count is zero.
    &&& forall|z: u64, q: u64, r: u32|
        ONE64 <= z <= COUNT_LIMIT64 && #[trigger] divs64::<F>(ONE64, z, q) && #[trigger] narrows::<
            F,
        >(q, r) ==> above(r, ZERO)
    &&& forall|z: u64, q: u64|
        ONE64 <= z <= COUNT_LIMIT64 && #[trigger] divs64::<F>(ZERO64, z, q) ==> q == ZERO64
    &&& forall|r: u32| #[trigger] narrows::<F>(ZERO64, r) ==> r == ZERO
}

/// The unit treats zeros and masks as IEEE 754 arithmetic does.
pub open spec fn exact_on_zero<F: FloatUnit>() -> bool {
    &&& forall|x: u32, r: u32|
        finite(x) && #[trigger] adds::<F>(x, NEG_INFINITY, r) ==> r == NEG_INFINITY
    &&& forall|x: u32, r: u32| finite(x) && #[trigger] adds::<F>(x, ZERO, r) ==> finite(r)
    &&& forall|v: u32, t: u32| finite(v) && #[trigger] muls::<F>(ZERO, v, t) ==> magnitude(t) == 0
    &&& forall|a: u32, z: u32, r: u32|
        magnitude(z) == 0 && !nan(a) && a != NEG_ZERO && #[trigger] adds::<F>(a, z, r) ==> r == a
    &&& forall|a: u32, b: u32| #[trigger] adds::<F>(a, b, NEG_ZERO) ==> a == NEG_ZERO
    &&& forall|a: u32, b: u32, r: u32| nan(a) && #[trigger] adds::<F>(a, b, r) ==> nan(r)
}

/// A row with a largest finite entry: no NaN, no `+Inf`, not masked throughout.
pub open spec fn maskable(logits: Seq<u32>) -> bool {
    &&& !any_nan(logits)
    &&& !logits.contains(INFINITY)
    &&& logits != constant(logits.len(), NEG_INFINITY)
}

proof fn lemma_entries(logits: Seq<u32>, m: int, i: int)
    requires
        maskable(logits),
        first_peak(logits, m),
        0 <= i < logits.len(),
    ensures
        finite(logits[m]),
        rank(logits[i]) <= rank(logits[m]),
        finite(logits[i]) || logits[i] == NEG_INFINITY,
        !nan(logits[i]),
{
    assert(!nan(logits[i]) && !nan(logits[m]));
    assert(logits[i] != INFINITY && logits[m] != INFINITY) by {
        assert(logits.contains(logits[i]) && logits.contains(logits[m]));
    }
    assert(!above(logits[i], logits[m]));
    if logits[m] == NEG_INFINITY {
        assert forall|j: int| 0 <= j < logits.len() implies logits[j] == NEG_INFINITY by {
            assert(!nan(logits[j]));
            assert(!above(logits[j], logits[m]));
        }
        assert(logits =~= constant(logits.len(), NEG_INFINITY));
    }
}

/// The exponential of an entry below the top.
proof fn lemma_exponential<F: FloatUnit>(logits: Seq<u32>, m: int, top: u64, i: int, e: u64)
    requires
        orderly::<F>(),
        maskable(logits),
        first_peak(logits, m),
        widens::<F>(logits[m], top),
        0 <= i < logits.len(),
        exps_below::<F>(logits[i], top, e),
    ensures
        e <= ONE64,
        i == m ==> e == ONE64,
        logits[i] == NEG_INFINITY ==> e == ZERO64,
{
    lemma_entries(logits, m, i);
    let (w, d) = choose|w: u64, d: u64| #[trigger]
        widens::<F>(logits[i], w) && #[trigger] subs64::<F>(w, top, d) && exps64::<F>(d, e);
    assert(rank64(w) <= rank64(top));
    assert(finite64(top));
    assert(!nan64(w));
    if i == m {
        assert(rank64(top) <= rank64(w));
        assert(magnitude64(d) == 0);
    }
    if logits[i] == NEG_INFINITY {
        assert(w == NEG_INFINITY64);
        assert(d == NEG_INFINITY64);
    }
}

proof fn lemma_partition_trace<F: FloatUnit>(
    logits: Seq<u32>,
    m: int,
    top: u64,
    trace: Seq<u64>,
    i: int,
)
    requires
        orderly::<F>(),
        maskable(logits),
        first_peak(logits, m),
        widens::<F>(logits[m], top),
        traces(partition_step::<F>(logits, top), ZERO64, logits.len(), trace),
        0 <= i <= logits.len(),
    ensures
        trace[i] <= COUNT_LIMIT64,
        m < i ==> trace[i] >= ONE64,
    decreases i,
{
    if i > 0 {
        lemma_partition_trace::<F>(logits, m, top, trace, i - 1);
        assert(linked(partition_step::<F>(logits, top), trace, i - 1));
        let e = choose|e: u64| #[trigger]
            exps_below::<F>(logits[i - 1], top, e) && adds64::<F>(trace[i - 1], e, trace[i]);
        lemma_exponential::<F>(logits, m, top, i - 1, e);
        assert(adds64::<F>(trace[i - 1], e, trace[i]));
    }
}

/// An orderly unit gives a masked entry no weight and the largest entry some.
pub proof fn law_orderly_masks_out<F: FloatUnit>(logits: Seq<u32>)
    requires
        orderly::<F>(),
        maskable(logits),
    ensures
        masks_out::<F>(logits),
{
    assert forall|m: int, top: u64, z: u64, row: Seq<u32>| #[trigger]
        stable::<F>(logits, m, top, z, row) implies above(row[m], ZERO) && forall|i: int|
        0 <= i < logits.len() && logits[i] == NEG_INFINITY ==> #[trigger] row[i] == ZERO by {
        let n = logits.len();
        let trace = choose|trace: Seq<u64>| #[trigger]
            traces(partition_step::<F>(logits, top), ZERO64, n, trace) && trace[n as int] == z;
        lemma_partition_trace::<F>(logits, m, top, trace, n as int);
        assert(finite64(z) && magnitude64(z) != 0);
        assert(weighs::<F>(logits[m], top, z, row[m]));
        let (e, q) = choose|e: u64, q: u64| #[trigger]
            exps_below::<F>(logits[m], top, e) && #[trigger] divs64::<F>(e, z, q) && narrows::<F>(
                q,
                row[m],
            );
        lemma_exponential::<F>(logits, m, top, m, e);
        assert(divs64::<F>(ONE64, z, q) && narrows::<F>(q, row[m]));
        assert forall|i: int| 0 <= i < n && logits[i] == NEG_INFINITY implies #[trigger] row[i]
            == ZERO by {
            assert(weighs::<F>(logits[i], top, z, row[i]));
            let (f, p) = choose|e: u64, q: u64| #[trigger]
                exps_below::<F>(logits[i], top, e) && #[trigger] divs64::<F>(e, z, q)
                    && narrows::<F>(q, row[i]);
            lemma_exponential::<F>(logits, m, top, i, f);
            assert(divs64::<F>(ZERO64, z, p));
            assert(narrows::<F>(ZERO64, row[i]));
        }
    }
}

/// The unit gives finite, non-negative shares and quotients of counts.
pub open spec fn proportionate<F: FloatUnit>() -> bool {
    &&& forall|k: usize, p: u32|
        k > 0 && #[trigger] shares::<F>(k, p) ==> finite(p) && non_negative(p)
    &&& forall|e: u64, z: u64, q: u64, r: u32|
        e <= ONE64 && ONE64 <= z <= COUNT_LIMIT64 && #[trigger] divs64::<F>(e, z, q)
            && #[trigger] narrows::<F>(q, r) ==> finite(r) && non_negative(r)
}

/// The softmax of a row without NaN holds finite, non-negative entries.
pub proof fn law_softmax_masses<F: FloatUnit>(logits: Seq<u32>, out: Seq<u32>)
    requires
        orderly::<F>(),
        proportionate::<F>(),
        !any_nan(logits),
        logits.len() <= usize::MAX,
        softmaxes::<F>(logits, out),
    ensures
        masses(out),
        out.len() == logits.len(),
{
    let n = logits.len();
    if n > 0 {
        let row = choose|row: Seq<u32>| #[trigger]
            distributes::<F>(logits, row) && corrects::<F>(row, out);
        if logits.contains(INFINITY) {
            let p = choose|p: u32| #[trigger]
                shares::<F>(occurrences(logits, INFINITY) as usize, p) && row == logits.map_values(
                    |x: u32| if x == INFINITY { p } else { ZERO },
                );
            let k = choose|k: int| 0 <= k < n && logits[k] == INFINITY;
            lemma_occurrences_present(logits, INFINITY, k);
        } else if logits == constant(n, NEG_INFINITY) {
            assert(uniform::<F>(n, row));
        } else {
            let (m, top, z) = choose|m: int, top: u64, z: u64| stable::<F>(logits, m, top, z, row);
            let trace = choose|trace: Seq<u64>| #[trigger]
                traces(partition_step::<F>(logits, top), ZERO64, n, trace) && trace[n as int] == z;
            lemma_partition_trace::<F>(logits, m, top, trace, n as int);
            assert forall|i: int| 0 <= i < row.len() implies finite(#[trigger] row[i])
                && non_negative(row[i]) by {
                assert(weighs::<F>(logits[i], top, z, row[i]));
                let (e, q) = choose|e: u64, q: u64| #[trigger]
                    exps_below::<F>(logits[i], top, e) && #[trigger] divs64::<F>(e, z, q)
                        && narrows::<F>(q, row[i]);
                lemma_exponential::<F>(logits, m, top, i, e);
                assert(narrows::<F>(q, row[i]));
            }
        }
        assert(masses(row));
        law_correction_keeps_masses::<F>(row, out);
    }
}

} // verus!
