//! Normalization of finite rows, given what the unit does in the range of
//! binary32 values.

use vstd::prelude::*;
use crate::float::{
    FloatUnit, adds64, counts64, deterministic, divs64, linked, muls64, narrows, subs64, traces,
    widens,
};
use crate::ieee::{
    ONE64, ROOT64, SPAN64, TOTAL64, ZERO64, finite, finite64, magnitude64, nan64, rank, rank64,
};
use crate::tensor::finite::{
    AffineSteps, WeightSteps, WelfordSteps, adds_square, affine, affine_steps, all_finite,
    layer_norm_with, layer_norms, positive_finite, rms_norm_with, rms_norms, saturates, scales,
    square_step, weight_steps, weights, welford_step, welford_steps,
};

verus! {

/// A running mean and summed squared deviation in their range after `i` values.
pub open spec fn tame(i: int, p: (u64, u64)) -> bool {
    &&& magnitude64(p.0) <= SPAN64
    &&& p.1 <= TOTAL64
    &&& i == 0 ==> p.0 == ZERO64
}

/// On finite binary32 values the unit's moments stay in range, inverse roots are
/// bounded, and no affine step gives NaN, as in IEEE 754 arithmetic.
pub open spec fn temperate<F: FloatUnit>() -> bool {
    &&& forall|x: u32, i: int, p: (u64, u64), t: WelfordSteps, r: (u64, u64)|
        finite(x) && 0 <= i < usize::MAX && tame(i, p) && #[trigger] welford_steps::<F>(
            x,
            i,
            p,
            t,
            r,
        ) ==> tame(i + 1, r)
    &&& forall|acc: u64, x: u32, r: u64|
        finite(x) && acc <= TOTAL64 && #[trigger] adds_square::<F>(acc, x, r) ==> r <= TOTAL64
    &&& forall|total: u64, n: nat, e: u32, eps: u64, r: u64|
        total <= TOTAL64 && 1 <= n <= usize::MAX && positive_finite(e) && #[trigger] widens::<F>(
            e,
            eps,
        ) && #[trigger] scales::<F>(total, n, eps, r) ==> r <= ROOT64
    &&& forall|x: u32, mean: u64, rstd: u64, w: u32, b: u32, t: AffineSteps, r: u32|
        finite(x) && finite(w) && finite(b) && magnitude64(mean) <= SPAN64 && rstd <= ROOT64
            && #[trigger] affine_steps::<F>(x, mean, rstd, w, b, t, r) ==> !nan64(t.y)
    &&& forall|x: u32, rstd: u64, w: u32, t: WeightSteps, r: u32|
        finite(x) && finite(w) && rstd <= ROOT64 && #[trigger] weight_steps::<F>(
            x,
            rstd,
            w,
            t,
            r,
        ) ==> !nan64(t.y)
}

pub proof fn lemma_moments_tame<F: FloatUnit>(x: Seq<u32>, trace: Seq<(u64, u64)>, i: int)
    requires
        temperate::<F>(),
        all_finite(x),
        x.len() <= usize::MAX,
        traces(welford_step::<F>(x), (ZERO64, ZERO64), x.len(), trace),
        0 <= i <= x.len(),
    ensures
        tame(i, trace[i]),
    decreases i,
{
    if i > 0 {
        lemma_moments_tame::<F>(x, trace, i - 1);
        assert(linked(welford_step::<F>(x), trace, i - 1));
        let (v, k, p, r) = (x[i - 1], i - 1, trace[i - 1], trace[i]);
        let t = choose|t: WelfordSteps| welford_steps::<F>(v, k, p, t, r);
        assert(welford_steps::<F>(v, k, p, t, r));
    }
}

pub proof fn lemma_squares_bounded<F: FloatUnit>(x: Seq<u32>, trace: Seq<u64>, i: int)
    requires
        temperate::<F>(),
        all_finite(x),
        traces(square_step::<F>(x), ZERO64, x.len(), trace),
        0 <= i <= x.len(),
    ensures
        trace[i] <= TOTAL64,
    decreases i,
{
    if i > 0 {
        lemma_squares_bounded::<F>(x, trace, i - 1);
        assert(linked(square_step::<F>(x), trace, i - 1));
        assert(adds_square::<F>(trace[i - 1], x[i - 1], trace[i]));
    }
}

/// Layer normalization of finite data with finite parameters is finite.
pub proof fn law_layer_norm_finite<F: FloatUnit>(
    x: Seq<u32>,
    weight: Seq<u32>,
    bias: Seq<u32>,
    e: u32,
    eps: u64,
    out: Seq<u32>,
)
    requires
        temperate::<F>(),
        0 < x.len() <= usize::MAX,
        weight.len() == x.len(),
        bias.len() == x.len(),
        all_finite(x),
        all_finite(weight),
        all_finite(bias),
        positive_finite(e),
        widens::<F>(e, eps),
        layer_norms::<F>(x, weight, bias, eps, out),
    ensures
        out.len() == x.len(),
        all_finite(out),
{
    let (mo, rstd) = choose|mo: (u64, u64), rstd: u64|
        layer_norm_with::<F>(x, weight, bias, eps, mo, rstd, out);
    let trace = choose|trace: Seq<(u64, u64)>| #[trigger]
        traces(welford_step::<F>(x), (ZERO64, ZERO64), x.len(), trace) && trace[x.len() as int]
            == mo;
    lemma_moments_tame::<F>(x, trace, x.len() as int);
    assert(widens::<F>(e, eps) && scales::<F>(mo.1, x.len(), eps, rstd));
    assert(finite64(rstd));
    assert forall|i: int| 0 <= i < out.len() implies finite(#[trigger] out[i]) by {
        assert(affine::<F>(x[i], mo.0, rstd, weight[i], bias[i], out[i]));
        let t = choose|t: AffineSteps|
            affine_steps::<F>(x[i], mo.0, rstd, weight[i], bias[i], t, out[i]);
        assert(affine_steps::<F>(x[i], mo.0, rstd, weight[i], bias[i], t, out[i]));
        assert(saturates::<F>(t.y, out[i]));
    }
}

/// Root-mean-square normalization of finite data with finite weights is finite.
pub proof fn law_rms_norm_finite<F: FloatUnit>(
    x: Seq<u32>,
    weight: Seq<u32>,
    e: u32,
    eps: u64,
    out: Seq<u32>,
)
    requires
        temperate::<F>(),
        0 < x.len() <= usize::MAX,
        weight.len() == x.len(),
        all_finite(x),
        all_finite(weight),
        positive_finite(e),
        widens::<F>(e, eps),
        rms_norms::<F>(x, weight, eps, out),
    ensures
        out.len() == x.len(),
        all_finite(out),
{
    let (total, rstd) = choose|total: u64, rstd: u64|
        rms_norm_with::<F>(x, weight, eps, total, rstd, out);
    let trace = choose|trace: Seq<u64>| #[trigger]
        traces(square_step::<F>(x), ZERO64, x.len(), trace) && trace[x.len() as int] == total;
    lemma_squares_bounded::<F>(x, trace, x.len() as int);
    assert(widens::<F>(e, eps) && scales::<F>(total, x.len(), eps, rstd));
    assert(finite64(rstd));
    assert forall|i: int| 0 <= i < out.len() implies finite(#[trigger] out[i]) by {
        assert(weights::<F>(x[i], rstd, weight[i], out[i]));
        let t = choose|t: WeightSteps| weight_steps::<F>(x[i], rstd, weight[i], t, out[i]);
        assert(weight_steps::<F>(x[i], rstd, weight[i], t, out[i]));
        assert(saturates::<F>(t.y, out[i]));
    }
}

// ── Constant rows ────────────────────────────────────────────────────

/// The unit is exact on zeros, on division by one and on differences of equals.
pub open spec fn exact_on_equals<F: FloatUnit>() -> bool {
    &&& forall|x: u32, w: u64| finite(x) && #[trigger] widens::<F>(x, w) ==> finite64(w)
    &&& forall|c: u64| #[trigger] counts64::<F>(1, c) ==> c == ONE64
    &&& forall|v: u64, z: u64, d: u64|
        finite64(v) && magnitude64(z) == 0 && #[trigger] subs64::<F>(v, z, d) ==> rank64(d)
            == rank64(v)
    &&& forall|v: u64, w: u64, d: u64|
        finite64(v) && rank64(v) == rank64(w) && #[trigger] subs64::<F>(v, w, d) ==> magnitude64(d)
            == 0
    &&& forall|v: u64, q: u64|
        finite64(v) && #[trigger] divs64::<F>(v, ONE64, q) ==> rank64(q) == rank64(v)
    &&& forall|n: usize, c: u64, z: u64, q: u64|
        n > 0 && magnitude64(z) == 0 && #[trigger] counts64::<F>(n, c) && #[trigger] divs64::<F>(
            z,
            c,
            q,
        ) ==> magnitude64(q) == 0
    &&& forall|a: u64, z: u64, r: u64|
        finite64(a) && magnitude64(z) == 0 && #[trigger] adds64::<F>(a, z, r) ==> rank64(r)
            == rank64(a)
    &&& forall|z: u64, a: u64, r: u64|
        finite64(a) && magnitude64(z) == 0 && #[trigger] adds64::<F>(z, a, r) ==> rank64(r)
            == rank64(a)
    &&& forall|a: u64, b: u64, r: u64|
        finite64(a) && finite64(b) && (magnitude64(a) == 0 || magnitude64(b) == 0)
            && #[trigger] muls64::<F>(a, b, r) ==> magnitude64(r)
            == 0
    // Rounding a widened value gives it back.
    &&& forall|b: u32, w: u64, y: u64, n: u32|
        finite(b) && rank64(y) == rank64(w) && #[trigger] widens::<F>(b, w)
            && #[trigger] narrows::<F>(y, n) ==> finite(n) && rank(n) == rank(b)
}

/// The running moments of equal values: their value, and no deviation.
proof fn lemma_constant_moments<F: FloatUnit>(
    x: Seq<u32>,
    c: u32,
    v: u64,
    trace: Seq<(u64, u64)>,
    i: int,
)
    requires
        deterministic::<F>(),
        exact_on_equals::<F>(),
        finite(c),
        widens::<F>(c, v),
        forall|j: int| 0 <= j < x.len() ==> #[trigger] x[j] == c,
        x.len() <= usize::MAX,
        traces(welford_step::<F>(x), (ZERO64, ZERO64), x.len(), trace),
        0 <= i <= x.len(),
    ensures
        magnitude64(trace[i].1) == 0,
        i == 0 ==> trace[i].0 == ZERO64,
        i > 0 ==> rank64(trace[i].0) == rank64(v),
    decreases i,
{
    if i > 0 {
        lemma_constant_moments::<F>(x, c, v, trace, i - 1);
        assert(linked(welford_step::<F>(x), trace, i - 1));
        let p = trace[i - 1];
        let r = trace[i];
        let k = i - 1;
        assert(x[k] == c);
        let t = choose|t: WelfordSteps| welford_steps::<F>(c, k, p, t, r);
        assert(widens::<F>(c, t.v) && widens::<F>(c, v));
        assert(t.v == v);
        assert(finite64(v));
        assert(subs64::<F>(v, p.0, t.delta));
        assert(counts64::<F>(i as usize, t.count) && divs64::<F>(t.delta, t.count, t.shift));
        assert(adds64::<F>(p.0, t.shift, r.0));
        if i == 1 {
            assert(rank64(t.delta) == rank64(v));
            assert(t.count == ONE64);
            assert(rank64(t.shift) == rank64(v));
            assert(finite64(t.shift));
            assert(rank64(r.0) == rank64(v));
        } else {
            assert(magnitude64(t.delta) == 0);
            assert(magnitude64(t.shift) == 0);
            assert(finite64(p.0));
            assert(rank64(r.0) == rank64(p.0));
        }
        assert(subs64::<F>(v, r.0, t.rest));
        assert(magnitude64(t.rest) == 0);
        assert(finite64(t.delta));
        assert(muls64::<F>(t.delta, t.rest, t.spread));
        assert(magnitude64(t.spread) == 0);
        assert(finite64(p.1));
        assert(adds64::<F>(p.1, t.spread, r.1));
        assert(rank64(r.1) == rank64(p.1));
    }
}

/// Layer normalization of a constant row gives the bias.
pub proof fn law_layer_norm_constant_row<F: FloatUnit>(
    x: Seq<u32>,
    c: u32,
    weight: Seq<u32>,
    bias: Seq<u32>,
    e: u32,
    eps: u64,
    out: Seq<u32>,
    i: int,
)
    requires
        deterministic::<F>(),
        temperate::<F>(),
        exact_on_equals::<F>(),
        x.len() <= usize::MAX,
        weight.len() == x.len(),
        bias.len() == x.len(),
        finite(c),
        forall|j: int| 0 <= j < x.len() ==> #[trigger] x[j] == c,
        all_finite(weight),
        all_finite(bias),
        positive_finite(e),
        widens::<F>(e, eps),
        layer_norms::<F>(x, weight, bias, eps, out),
        0 <= i < x.len(),
    ensures
        out.len() == x.len(),
        finite(out[i]),
        rank(out[i]) == rank(bias[i]),
{
    assert(all_finite(x));
    let (mo, rstd) = choose|mo: (u64, u64), rstd: u64|
        layer_norm_with::<F>(x, weight, bias, eps, mo, rstd, out);
    let trace = choose|trace: Seq<(u64, u64)>| #[trigger]
        traces(welford_step::<F>(x), (ZERO64, ZERO64), x.len(), trace) && trace[x.len() as int]
            == mo;
    lemma_moments_tame::<F>(x, trace, x.len() as int);
    assert(widens::<F>(e, eps) && scales::<F>(mo.1, x.len(), eps, rstd));
    assert(finite64(rstd));
    assert(affine::<F>(x[i], mo.0, rstd, weight[i], bias[i], out[i]));
    let t = choose|t: AffineSteps|
        affine_steps::<F>(x[i], mo.0, rstd, weight[i], bias[i], t, out[i]);
    assert(x[i] == c);
    lemma_constant_moments::<F>(x, c, t.x, trace, x.len() as int);
    assert(finite64(t.x));
    assert(subs64::<F>(t.x, mo.0, t.centred));
    assert(muls64::<F>(t.centred, rstd, t.scaled));
    assert(finite(weight[i]) && finite(bias[i]));
    assert(finite64(t.w));
    assert(muls64::<F>(t.scaled, t.w, t.weighted));
    assert(finite64(t.b));
    assert(adds64::<F>(t.weighted, t.b, t.y));
    assert(rank64(t.y) == rank64(t.b));
    assert(saturates::<F>(t.y, out[i]));
    let n = choose|n: u32| #[trigger]
        narrows::<F>(t.y, n) && out[i] == if finite(n) {
            n
        } else if nan64(t.y) {
            crate::ieee::NAN
        } else if crate::ieee::negative64(t.y) {
            crate::ieee::MIN
        } else {
            crate::ieee::MAX
        };
    assert(widens::<F>(bias[i], t.b) && narrows::<F>(t.y, n));
}

} // verus!
