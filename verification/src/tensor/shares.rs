//! The softmax of a row with a finite maximum, step by step.

use vstd::prelude::*;
use crate::float::{
    FloatUnit, adds, adds64, counts, deterministic, divs, divs64, exps64, linked, narrows, subs,
    subs64, traces, widens,
};
use crate::ieee::{ONE, ZERO, ZERO64, above, finite, finite64, magnitude64, non_negative};
use crate::tensor::entries::{law_sum_terms, total};
use crate::tensor::finite::{
    ResidualSteps, constant, corrects, distributes, exps_below, first_peak, masses, partition_step,
    residual_steps, shares, softmaxes, stable, uniform, weighs,
};
use crate::tensor::laws::lemma_exps_below_unique;
use crate::tensor::masking::maskable;

verus! {

/// The steps of one softmax.
pub struct SoftmaxTrace {
    pub peak: int,
    pub top: u64,
    pub wide: Seq<u64>,
    pub below: Seq<u64>,
    pub exps: Seq<u64>,
    pub partial: Seq<u64>,
    pub quotients: Seq<u64>,
    pub row: Seq<u32>,
    pub largest: int,
    pub sum: u32,
    pub gap: u32,
    pub corrected: u32,
}

spec fn between<F: FloatUnit>(x: u32, top: u64, p: u64, r: u64) -> u64 {
    choose|e: u64| #[trigger] exps_below::<F>(x, top, e) && adds64::<F>(p, e, r)
}

spec fn wide_below<F: FloatUnit>(x: u32, top: u64, e: u64) -> (u64, u64) {
    choose|t: (u64, u64)| #[trigger]
        widens::<F>(x, t.0) && subs64::<F>(t.0, top, t.1) && exps64::<F>(t.1, e)
}

proof fn lemma_wide_below<F: FloatUnit>(x: u32, top: u64, e: u64)
    requires
        exps_below::<F>(x, top, e),
    ensures
        ({
            let t = wide_below::<F>(x, top, e);
            widens::<F>(x, t.0) && subs64::<F>(t.0, top, t.1) && exps64::<F>(t.1, e)
        }),
{
    let (w, d) = choose|w: u64, d: u64| #[trigger]
        widens::<F>(x, w) && #[trigger] subs64::<F>(w, top, d) && exps64::<F>(d, e);
    let t = (w, d);
    assert(widens::<F>(x, t.0) && subs64::<F>(t.0, top, t.1) && exps64::<F>(t.1, e));
}

/// Entries of a softmax are the exponentials of their distance from the largest
/// logit over the sum of all exponentials, in binary64 and rounded; the residual
/// of the rounded row is added to its first largest entry.
pub proof fn law_softmax_entries<F: FloatUnit>(logits: Seq<u32>, out: Seq<u32>) -> (t: SoftmaxTrace)
    requires
        deterministic::<F>(),
        maskable(logits),
        logits.len() > 0,
        softmaxes::<F>(logits, out),
    ensures
        0 <= t.peak < logits.len(),
        forall|i: int| 0 <= i < logits.len() ==> !above(#[trigger] logits[i], logits[t.peak]),
        widens::<F>(logits[t.peak], t.top),
        t.wide.len() == logits.len(),
        t.below.len() == logits.len(),
        t.exps.len() == logits.len(),
        t.partial.len() == logits.len() + 1,
        t.row.len() == logits.len(),
        forall|i: int| 0 <= i < logits.len() ==> widens::<F>(logits[i], #[trigger] t.wide[i]),
        forall|i: int|
            0 <= i < logits.len() ==> subs64::<F>(t.wide[i], t.top, #[trigger] t.below[i]),
        forall|i: int| 0 <= i < logits.len() ==> exps64::<F>(t.below[i], #[trigger] t.exps[i]),
        t.partial[0] == ZERO64,
        forall|i: int|
            0 <= i < logits.len() ==> adds64::<F>(
                t.partial[i],
                #[trigger] t.exps[i],
                t.partial[i + 1],
            ),
        ({
            let z = t.partial[logits.len() as int];
            if magnitude64(z) == 0 || !finite64(z) {
                forall|i: int|
                    0 <= i < logits.len() ==> over_count::<F>(
                        logits.len() as usize,
                        #[trigger] t.row[i],
                    )
            } else {
                &&& t.quotients.len() == logits.len()
                &&& forall|i: int|
                    0 <= i < logits.len() ==> divs64::<F>(t.exps[i], z, #[trigger] t.quotients[i])
                &&& forall|i: int|
                    0 <= i < logits.len() ==> narrows::<F>(#[trigger] t.quotients[i], t.row[i])
            }
        }),
        !masses(t.row) ==> out == t.row,
        masses(t.row) && logits.len() == 1 ==> out == seq![ONE],
        masses(t.row) && logits.len() > 1 ==> {
            &&& 0 <= t.largest < logits.len()
            &&& forall|i: int|
                0 <= i < logits.len() ==> !above(#[trigger] t.row[i], t.row[t.largest])
            &&& forall|i: int| 0 <= i < t.largest ==> above(t.row[t.largest], #[trigger] t.row[i])
            &&& total::<F>(ZERO, t.row, t.sum)
            &&& !finite(t.sum) ==> out == t.row
            &&& finite(t.sum) ==> {
                &&& subs::<F>(ONE, t.sum, t.gap)
                &&& adds::<F>(t.row[t.largest], t.gap, t.corrected)
                &&& finite(t.corrected) && non_negative(t.corrected) ==> out == t.row.update(
                    t.largest,
                    t.corrected,
                )
                &&& !(finite(t.corrected) && non_negative(t.corrected)) ==> out == t.row
            }
        },
{
    let n = logits.len();
    let row = choose|row: Seq<u32>| #[trigger]
        distributes::<F>(logits, row) && corrects::<F>(row, out);
    let (m, top, z) = choose|m: int, top: u64, z: u64| stable::<F>(logits, m, top, z, row);
    let step = partition_step::<F>(logits, top);
    let partial = choose|trace: Seq<u64>| #[trigger]
        traces(step, ZERO64, n, trace) && trace[n as int] == z;
    let exps = Seq::new(n, |i: int| between::<F>(logits[i], top, partial[i], partial[i + 1]));
    assert forall|i: int| 0 <= i < n implies exps_below::<F>(logits[i], top, #[trigger] exps[i])
        && adds64::<F>(partial[i], exps[i], partial[i + 1]) by {
        assert(linked(step, partial, i));
        let (x, p, r) = (logits[i], partial[i], partial[i + 1]);
        assert(exists|e: u64| #[trigger] exps_below::<F>(x, top, e) && adds64::<F>(p, e, r));
    }
    let pairs = Seq::new(n, |i: int| wide_below::<F>(logits[i], top, exps[i]));
    let wide = Seq::new(n, |i: int| pairs[i].0);
    let below = Seq::new(n, |i: int| pairs[i].1);
    assert forall|i: int| 0 <= i < n implies widens::<F>(logits[i], #[trigger] wide[i]) by {
        assert(exps_below::<F>(logits[i], top, exps[i]));
        lemma_wide_below::<F>(logits[i], top, exps[i]);
    }
    assert forall|i: int| 0 <= i < n implies subs64::<F>(wide[i], top, #[trigger] below[i]) by {
        assert(exps_below::<F>(logits[i], top, exps[i]));
        lemma_wide_below::<F>(logits[i], top, exps[i]);
    }
    assert forall|i: int| 0 <= i < n implies exps64::<F>(below[i], #[trigger] exps[i]) by {
        assert(exps_below::<F>(logits[i], top, exps[i]));
        lemma_wide_below::<F>(logits[i], top, exps[i]);
    }
    let quotients = Seq::new(
        n,
        |i: int|
            choose|q: u64| #[trigger] divs64::<F>(exps[i], z, q) && narrows::<F>(q, row[i]),
    );
    if magnitude64(z) == 0 || !finite64(z) {
        let p = choose|p: u32| #[trigger] shares::<F>(n as usize, p) && row == constant(n, p);
        assert(uniform::<F>(n, row));
        assert forall|i: int| 0 <= i < n implies over_count::<F>(
            n as usize,
            #[trigger] row[i],
        ) by {
            assert(row[i] == p);
        }
    } else {
        assert forall|i: int| 0 <= i < n implies divs64::<F>(exps[i], z, #[trigger] quotients[i])
            && narrows::<F>(quotients[i], row[i]) by {
            assert(weighs::<F>(logits[i], top, z, row[i]));
            let (e, q) = choose|e: u64, q: u64| #[trigger]
                exps_below::<F>(logits[i], top, e) && #[trigger] divs64::<F>(e, z, q)
                    && narrows::<F>(q, row[i]);
            assert(exps_below::<F>(logits[i], top, exps[i]));
            lemma_exps_below_unique::<F>(logits[i], top, e, exps[i]);
            assert(divs64::<F>(exps[i], z, q) && narrows::<F>(q, row[i]));
        }
    }
    let r = choose|t: ResidualSteps| residual_steps::<F>(row, t, out);
    if masses(row) && n > 1 {
        assert(residual_steps::<F>(row, r, out));
        assert(first_peak(row, r.peak));
        law_sum_terms::<F>(ZERO, row, r.sum);
    }
    SoftmaxTrace {
        peak: m,
        top,
        wide,
        below,
        exps,
        partial,
        quotients,
        row,
        largest: r.peak,
        sum: r.sum,
        gap: r.gap,
        corrected: r.corrected,
    }
}

/// Equal logits get equal weights, but for one entry that takes the rounding
/// residual. Gives that entry.
pub proof fn law_softmax_equal_logits<F: FloatUnit>(logits: Seq<u32>, out: Seq<u32>) -> (k: int)
    requires
        deterministic::<F>(),
        maskable(logits),
        logits.len() > 0,
        softmaxes::<F>(logits, out),
    ensures
        out.len() == logits.len(),
        forall|i: int, j: int|
            0 <= i < logits.len() && 0 <= j < logits.len() && i != k && j != k && logits[i]
                == logits[j] ==> #[trigger] out[i] == #[trigger] out[j],
{
    let t = law_softmax_entries::<F>(logits, out);
    let n = logits.len() as int;
    let z = t.partial[n];
    let k = if masses(t.row) && n > 1 { t.largest } else { 0 };
    assert forall|i: int, j: int|
        0 <= i < n && 0 <= j < n && i != k && j != k && logits[i]
            == logits[j] implies #[trigger] out[i] == #[trigger] out[j] by {
        assert(widens::<F>(logits[i], t.wide[i]) && widens::<F>(logits[j], t.wide[j]));
        assert(subs64::<F>(t.wide[i], t.top, t.below[i]) && subs64::<F>(
            t.wide[j],
            t.top,
            t.below[j],
        ));
        assert(exps64::<F>(t.below[i], t.exps[i]) && exps64::<F>(t.below[j], t.exps[j]));
        if magnitude64(z) == 0 || !finite64(z) {
            assert(over_count::<F>(n as usize, t.row[i]) && over_count::<F>(
                n as usize,
                t.row[j],
            ));
            let c = choose|c: u32| #[trigger]
                counts::<F>(n as usize, c) && divs::<F>(ONE, c, t.row[i]);
            let d = choose|c: u32| #[trigger]
                counts::<F>(n as usize, c) && divs::<F>(ONE, c, t.row[j]);
            assert(c == d);
            assert(divs::<F>(ONE, c, t.row[i]) && divs::<F>(ONE, c, t.row[j]));
        } else {
            assert(divs64::<F>(t.exps[i], z, t.quotients[i]) && divs64::<F>(
                t.exps[j],
                z,
                t.quotients[j],
            ));
            assert(narrows::<F>(t.quotients[i], t.row[i]) && narrows::<F>(
                t.quotients[j],
                t.row[j],
            ));
        }
        assert(t.row[i] == t.row[j]);
    }
    k
}

/// `p` is one over `n`.
pub open spec fn over_count<F: FloatUnit>(n: usize, p: u32) -> bool {
    exists|c: u32| #[trigger] counts::<F>(n, c) && divs::<F>(ONE, c, p)
}

} // verus!
