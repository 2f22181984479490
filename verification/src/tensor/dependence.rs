//! What every entry of a normalized row depends on.

use vstd::prelude::*;
use crate::float::{
    FloatUnit, adds64, counts64, deterministic, divs64, linked, muls64, narrows, sqrts64, subs64,
    traces, widens,
};
use crate::ieee::{
    MAX, MIN, NAN, ONE64, ROOT64, SPAN64, ZERO64, finite, finite64, magnitude, magnitude64, nan64,
    negative64, rank, rank64,
};
use crate::tensor::TensorView;
use crate::tensor::finite::{
    AffineSteps, ScaleSteps, WeightSteps, WelfordSteps, affine, affine_steps, all_finite,
    divisible_norm, layer_norm_with, layer_norms, positive_finite, quotient, rms_norm_with,
    rms_norms, saturates, scale_steps, scales, square_step, square_sums, unit_length,
    unit_length_with, weight_steps, weights, welford_step, welford_steps,
};
use crate::tensor::laws::{
    lemma_affine_unique, lemma_moments_unique, lemma_saturates_unique, lemma_scales_unique,
    lemma_square_sums_unique,
};
use crate::tensor::norms::{exact_on_equals, lemma_moments_tame, lemma_squares_bounded, temperate};
use crate::tensor::ops::{layer_normalizes, rms_norm_rows, rms_normalizes};

verus! {

/// Centring and scaling binary32 values stays in the range of binary64, as in
/// IEEE 754 arithmetic.
pub open spec fn roomy<F: FloatUnit>() -> bool {
    &&& forall|x: u32, v: u64, mean: u64, d: u64, rstd: u64, s: u64|
        finite(x) && magnitude64(mean) <= SPAN64 && rstd <= ROOT64 && #[trigger] widens::<F>(x, v)
            && #[trigger] subs64::<F>(v, mean, d) && #[trigger] muls64::<F>(d, rstd, s) ==> finite64(
            s,
        )
    &&& forall|x: u32, v: u64, rstd: u64, s: u64|
        finite(x) && rstd <= ROOT64 && #[trigger] widens::<F>(x, v) && #[trigger] muls64::<F>(
            v,
            rstd,
            s,
        ) ==> finite64(s)
    &&& forall|x: u32, w: u64|
        magnitude(x) == 0 && #[trigger] widens::<F>(x, w) ==> magnitude64(w) == 0
}

// ── Layer normalization ──────────────────────────────────────────────

/// The steps of one layer normalization.
pub struct LayerNormTrace {
    pub running: Seq<(u64, u64)>,
    pub moments: Seq<WelfordSteps>,
    pub scale: ScaleSteps,
    pub rstd: u64,
    pub entries: Seq<AffineSteps>,
}

spec fn welford_between<F: FloatUnit>(
    x: u32,
    i: int,
    p: (u64, u64),
    r: (u64, u64),
) -> WelfordSteps {
    choose|t: WelfordSteps| welford_steps::<F>(x, i, p, t, r)
}

/// Layer normalization of a finite row: a running mean and summed squared
/// deviation over all entries in order, the inverse root of the mean square
/// deviation plus epsilon, and for every entry its distance from the mean times
/// that root, times its own weight, plus its own bias.
pub proof fn law_layer_norm_entries<F: FloatUnit>(
    x: Seq<u32>,
    weight: Seq<u32>,
    bias: Seq<u32>,
    eps: u64,
    out: Seq<u32>,
) -> (t: LayerNormTrace)
    requires
        all_finite(x),
        x.len() <= usize::MAX,
        layer_norms::<F>(x, weight, bias, eps, out),
    ensures
        out.len() == x.len(),
        t.running.len() == x.len() + 1,
        t.running[0] == (ZERO64, ZERO64),
        t.moments.len() == x.len(),
        forall|i: int|
            0 <= i < x.len() ==> {
                let s = #[trigger] t.moments[i];
                &&& widens::<F>(x[i], s.v)
                &&& subs64::<F>(s.v, t.running[i].0, s.delta)
                &&& counts64::<F>((i + 1) as usize, s.count)
                &&& divs64::<F>(s.delta, s.count, s.shift)
                &&& adds64::<F>(t.running[i].0, s.shift, t.running[i + 1].0)
                &&& subs64::<F>(s.v, t.running[i + 1].0, s.rest)
                &&& muls64::<F>(s.delta, s.rest, s.spread)
                &&& adds64::<F>(t.running[i].1, s.spread, t.running[i + 1].1)
            },
        counts64::<F>(x.len() as usize, t.scale.count),
        divs64::<F>(t.running[x.len() as int].1, t.scale.count, t.scale.share),
        adds64::<F>(t.scale.share, eps, t.scale.shifted),
        sqrts64::<F>(t.scale.shifted, t.scale.root),
        divs64::<F>(ONE64, t.scale.root, t.rstd),
        finite64(t.rstd) ==> t.entries.len() == x.len() && forall|i: int|
            0 <= i < x.len() ==> {
                let s = #[trigger] t.entries[i];
                &&& widens::<F>(x[i], s.x)
                &&& subs64::<F>(s.x, t.running[x.len() as int].0, s.centred)
                &&& muls64::<F>(s.centred, t.rstd, s.scaled)
                &&& widens::<F>(weight[i], s.w)
                &&& muls64::<F>(s.scaled, s.w, s.weighted)
                &&& widens::<F>(bias[i], s.b)
                &&& adds64::<F>(s.weighted, s.b, s.y)
                &&& saturates::<F>(s.y, out[i])
            },
        !finite64(t.rstd) ==> forall|i: int| 0 <= i < x.len() ==> #[trigger] out[i] == NAN,
{
    let n = x.len() as int;
    let (mo, rstd) = choose|mo: (u64, u64), rstd: u64|
        layer_norm_with::<F>(x, weight, bias, eps, mo, rstd, out);
    let running = choose|trace: Seq<(u64, u64)>| #[trigger]
        traces(welford_step::<F>(x), (ZERO64, ZERO64), x.len(), trace) && trace[x.len() as int]
            == mo;
    let moments = Seq::new(
        x.len(),
        |i: int| welford_between::<F>(x[i], i, running[i], running[i + 1]),
    );
    assert forall|i: int| 0 <= i < n implies welford_steps::<F>(
        x[i],
        i,
        running[i],
        #[trigger] moments[i],
        running[i + 1],
    ) by {
        assert(linked(welford_step::<F>(x), running, i));
        let (v, p, r) = (x[i], running[i], running[i + 1]);
        assert(exists|t: WelfordSteps| welford_steps::<F>(v, i, p, t, r));
    }
    let scale = choose|t: ScaleSteps| scale_steps::<F>(mo.1, x.len(), eps, t, rstd);
    let entries = Seq::new(
        x.len(),
        |i: int|
            choose|t: AffineSteps|
                affine_steps::<F>(x[i], mo.0, rstd, weight[i], bias[i], t, out[i]),
    );
    if finite64(rstd) {
        assert forall|i: int| 0 <= i < n implies affine_steps::<F>(
            x[i],
            mo.0,
            rstd,
            weight[i],
            bias[i],
            #[trigger] entries[i],
            out[i],
        ) by {
            assert(affine::<F>(x[i], mo.0, rstd, weight[i], bias[i], out[i]));
        }
    }
    LayerNormTrace { running, moments, scale, rstd, entries }
}

/// Entry `i` of a layer normalization depends on no weight and no bias but its
/// own: parameters that agree at `i` give the same entry.
pub proof fn law_layer_norm_own_parameters<F: FloatUnit>(
    x: Seq<u32>,
    weight1: Seq<u32>,
    bias1: Seq<u32>,
    weight2: Seq<u32>,
    bias2: Seq<u32>,
    eps: u64,
    out1: Seq<u32>,
    out2: Seq<u32>,
    i: int,
)
    requires
        deterministic::<F>(),
        layer_norms::<F>(x, weight1, bias1, eps, out1),
        layer_norms::<F>(x, weight2, bias2, eps, out2),
        0 <= i < x.len(),
        weight1[i] == weight2[i],
        bias1[i] == bias2[i],
    ensures
        out1[i] == out2[i],
{
    if all_finite(x) {
        let (mo, rstd) = choose|mo: (u64, u64), rstd: u64|
            layer_norm_with::<F>(x, weight1, bias1, eps, mo, rstd, out1);
        let (mo2, rstd2) = choose|mo: (u64, u64), rstd: u64|
            layer_norm_with::<F>(x, weight2, bias2, eps, mo, rstd, out2);
        lemma_moments_unique::<F>(x, mo, mo2);
        lemma_scales_unique::<F>(mo.1, x.len(), eps, rstd, rstd2);
        if finite64(rstd) {
            assert(affine::<F>(x[i], mo.0, rstd, weight1[i], bias1[i], out1[i]));
            assert(affine::<F>(x[i], mo.0, rstd, weight2[i], bias2[i], out2[i]));
            lemma_affine_unique::<F>(
                x[i],
                mo.0,
                rstd,
                weight1[i],
                bias1[i],
                out1[i],
                out2[i],
            );
        }
    }
}

/// What saturation gives for a value that is a widened binary32 value.
proof fn lemma_saturates_exact<F: FloatUnit>(y: u64, b: u32, w: u64, r: u32)
    requires
        exact_on_equals::<F>(),
        finite(b),
        widens::<F>(b, w),
        rank64(y) == rank64(w),
        saturates::<F>(y, r),
    ensures
        finite(r),
        rank(r) == rank(b),
{
    let n = choose|n: u32| #[trigger]
        narrows::<F>(y, n) && r == if finite(n) {
            n
        } else if nan64(y) {
            NAN
        } else if negative64(y) {
            MIN
        } else {
            MAX
        };
    assert(widens::<F>(b, w) && narrows::<F>(y, n));
}

/// An entry whose weight is zero is its bias, whatever the row and the other
/// weights are.
pub proof fn law_layer_norm_zero_weight<F: FloatUnit>(
    x: Seq<u32>,
    weight: Seq<u32>,
    bias: Seq<u32>,
    e: u32,
    eps: u64,
    out: Seq<u32>,
    i: int,
)
    requires
        temperate::<F>(),
        exact_on_equals::<F>(),
        roomy::<F>(),
        x.len() <= usize::MAX,
        all_finite(x),
        positive_finite(e),
        widens::<F>(e, eps),
        layer_norms::<F>(x, weight, bias, eps, out),
        0 <= i < x.len(),
        magnitude(weight[i]) == 0,
        finite(bias[i]),
    ensures
        finite(out[i]),
        rank(out[i]) == rank(bias[i]),
{
    let (mo, rstd) = choose|mo: (u64, u64), rstd: u64|
        layer_norm_with::<F>(x, weight, bias, eps, mo, rstd, out);
    let trace = choose|trace: Seq<(u64, u64)>| #[trigger]
        traces(welford_step::<F>(x), (ZERO64, ZERO64), x.len(), trace) && trace[x.len() as int]
            == mo;
    lemma_moments_tame::<F>(x, trace, x.len() as int);
    assert(widens::<F>(e, eps) && scales::<F>(mo.1, x.len(), eps, rstd));
    assert(affine::<F>(x[i], mo.0, rstd, weight[i], bias[i], out[i]));
    let t = choose|t: AffineSteps|
        affine_steps::<F>(x[i], mo.0, rstd, weight[i], bias[i], t, out[i]);
    assert(widens::<F>(x[i], t.x) && subs64::<F>(t.x, mo.0, t.centred) && muls64::<F>(
        t.centred,
        rstd,
        t.scaled,
    ));
    assert(finite64(t.scaled));
    assert(magnitude64(t.w) == 0);
    assert(muls64::<F>(t.scaled, t.w, t.weighted));
    assert(finite64(t.b));
    assert(adds64::<F>(t.weighted, t.b, t.y));
    lemma_saturates_exact::<F>(t.y, bias[i], t.b, out[i]);
}

/// Rows are normalized one by one: tensors that agree on row `p` give the same
/// row `p`.
pub proof fn law_layer_norm_by_row<F: FloatUnit>(
    x1: TensorView,
    x2: TensorView,
    weight: TensorView,
    bias: TensorView,
    eps: u32,
    r1: TensorView,
    r2: TensorView,
    p: int,
)
    requires
        deterministic::<F>(),
        layer_normalizes::<F>(x1, weight, bias, eps, r1),
        layer_normalizes::<F>(x2, weight, bias, eps, r2),
        x1.shape == x2.shape,
        0 <= p < x1.shape[0],
        x1.row(p) == x2.row(p),
    ensures
        r1.row(p) == r2.row(p),
{
    crate::transformer::causal_model::lemma_norm_row::<F>(x1, x2, weight, bias, eps, r1, r2, p);
}

// ── Root-mean-square normalization ───────────────────────────────────

/// The steps of one root-mean-square normalization.
pub struct RmsNormTrace {
    pub wide: Seq<u64>,
    pub squares: Seq<u64>,
    pub running: Seq<u64>,
    pub scale: ScaleSteps,
    pub rstd: u64,
    pub entries: Seq<WeightSteps>,
}

/// The sum of squares of a row, term by term.
proof fn lemma_square_terms<F: FloatUnit>(x: Seq<u32>, total: u64) -> (t: (
    Seq<u64>,
    Seq<u64>,
    Seq<u64>,
))
    requires
        square_sums::<F>(x, total),
    ensures
        t.0.len() == x.len(),
        t.1.len() == x.len(),
        t.2.len() == x.len() + 1,
        t.2[0] == ZERO64,
        t.2[x.len() as int] == total,
        forall|i: int| 0 <= i < x.len() ==> widens::<F>(x[i], #[trigger] t.0[i]),
        forall|i: int| 0 <= i < x.len() ==> muls64::<F>(t.0[i], t.0[i], #[trigger] t.1[i]),
        forall|i: int|
            0 <= i < x.len() ==> adds64::<F>(t.2[i], #[trigger] t.1[i], t.2[i + 1]),
{
    let step = square_step::<F>(x);
    let running = choose|trace: Seq<u64>| #[trigger]
        traces(step, ZERO64, x.len(), trace) && trace[x.len() as int] == total;
    let pairs = Seq::new(
        x.len(),
        |i: int|
            choose|p: (u64, u64)| #[trigger]
                widens::<F>(x[i], p.0) && muls64::<F>(p.0, p.0, p.1) && adds64::<F>(
                    running[i],
                    p.1,
                    running[i + 1],
                ),
    );
    assert forall|i: int| 0 <= i < x.len() implies {
        let p = #[trigger] pairs[i];
        widens::<F>(x[i], p.0) && muls64::<F>(p.0, p.0, p.1) && adds64::<F>(
            running[i],
            p.1,
            running[i + 1],
        )
    } by {
        assert(linked(step, running, i));
        let (v, q) = choose|v: u64, q: u64| #[trigger]
            widens::<F>(x[i], v) && #[trigger] muls64::<F>(v, v, q) && adds64::<F>(
                running[i],
                q,
                running[i + 1],
            );
        let w = (v, q);
        assert(widens::<F>(x[i], w.0) && muls64::<F>(w.0, w.0, w.1) && adds64::<F>(
            running[i],
            w.1,
            running[i + 1],
        ));
    }
    let wide = Seq::new(x.len(), |i: int| pairs[i].0);
    let squares = Seq::new(x.len(), |i: int| pairs[i].1);
    assert forall|i: int| 0 <= i < x.len() implies widens::<F>(x[i], #[trigger] wide[i]) by {
        assert(pairs[i].0 == wide[i]);
    }
    assert forall|i: int| 0 <= i < x.len() implies muls64::<F>(
        wide[i],
        wide[i],
        #[trigger] squares[i],
    ) && adds64::<F>(running[i], squares[i], running[i + 1]) by {
        assert(pairs[i].1 == squares[i]);
    }
    (wide, squares, running)
}

/// Root-mean-square normalization of a finite row: the sum of all squares in
/// order, the inverse root of their mean plus epsilon, and for every entry its
/// value times that root, times its own weight.
pub proof fn law_rms_norm_entries<F: FloatUnit>(
    x: Seq<u32>,
    weight: Seq<u32>,
    eps: u64,
    out: Seq<u32>,
) -> (t: RmsNormTrace)
    requires
        all_finite(x),
        rms_norms::<F>(x, weight, eps, out),
    ensures
        out.len() == x.len(),
        t.wide.len() == x.len(),
        t.squares.len() == x.len(),
        t.running.len() == x.len() + 1,
        t.running[0] == ZERO64,
        forall|i: int| 0 <= i < x.len() ==> widens::<F>(x[i], #[trigger] t.wide[i]),
        forall|i: int|
            0 <= i < x.len() ==> muls64::<F>(t.wide[i], t.wide[i], #[trigger] t.squares[i]),
        forall|i: int|
            0 <= i < x.len() ==> adds64::<F>(
                t.running[i],
                #[trigger] t.squares[i],
                t.running[i + 1],
            ),
        counts64::<F>(x.len() as usize, t.scale.count),
        divs64::<F>(t.running[x.len() as int], t.scale.count, t.scale.share),
        adds64::<F>(t.scale.share, eps, t.scale.shifted),
        sqrts64::<F>(t.scale.shifted, t.scale.root),
        divs64::<F>(ONE64, t.scale.root, t.rstd),
        finite64(t.rstd) ==> t.entries.len() == x.len() && forall|i: int|
            0 <= i < x.len() ==> {
                let s = #[trigger] t.entries[i];
                &&& widens::<F>(x[i], s.x)
                &&& muls64::<F>(s.x, t.rstd, s.scaled)
                &&& widens::<F>(weight[i], s.w)
                &&& muls64::<F>(s.scaled, s.w, s.y)
                &&& saturates::<F>(s.y, out[i])
            },
        !finite64(t.rstd) ==> forall|i: int| 0 <= i < x.len() ==> #[trigger] out[i] == NAN,
{
    let (total, rstd) = choose|total: u64, rstd: u64|
        rms_norm_with::<F>(x, weight, eps, total, rstd, out);
    let (wide, squares, running) = lemma_square_terms::<F>(x, total);
    let scale = choose|t: ScaleSteps| scale_steps::<F>(total, x.len(), eps, t, rstd);
    let entries = Seq::new(
        x.len(),
        |i: int| choose|t: WeightSteps| weight_steps::<F>(x[i], rstd, weight[i], t, out[i]),
    );
    if finite64(rstd) {
        assert forall|i: int| 0 <= i < x.len() implies weight_steps::<F>(
            x[i],
            rstd,
            weight[i],
            #[trigger] entries[i],
            out[i],
        ) by {
            assert(weights::<F>(x[i], rstd, weight[i], out[i]));
        }
    }
    RmsNormTrace { wide, squares, running, scale, rstd, entries }
}

proof fn lemma_weights_unique<F: FloatUnit>(x: u32, rstd: u64, w: u32, a: u32, b: u32)
    requires
        deterministic::<F>(),
        weights::<F>(x, rstd, w, a),
        weights::<F>(x, rstd, w, b),
    ensures
        a == b,
{
    let s = choose|t: WeightSteps| weight_steps::<F>(x, rstd, w, t, a);
    let t = choose|t: WeightSteps| weight_steps::<F>(x, rstd, w, t, b);
    assert(widens::<F>(x, s.x) && widens::<F>(x, t.x));
    assert(muls64::<F>(s.x, rstd, s.scaled) && muls64::<F>(s.x, rstd, t.scaled));
    assert(widens::<F>(w, s.w) && widens::<F>(w, t.w));
    assert(muls64::<F>(s.scaled, s.w, s.y) && muls64::<F>(s.scaled, s.w, t.y));
    lemma_saturates_unique::<F>(s.y, a, b);
}

/// Entry `i` of a root-mean-square normalization depends on no weight but its
/// own.
pub proof fn law_rms_norm_own_weight<F: FloatUnit>(
    x: Seq<u32>,
    weight1: Seq<u32>,
    weight2: Seq<u32>,
    eps: u64,
    out1: Seq<u32>,
    out2: Seq<u32>,
    i: int,
)
    requires
        deterministic::<F>(),
        rms_norms::<F>(x, weight1, eps, out1),
        rms_norms::<F>(x, weight2, eps, out2),
        0 <= i < x.len(),
        weight1[i] == weight2[i],
    ensures
        out1[i] == out2[i],
{
    if all_finite(x) {
        let (total, rstd) = choose|total: u64, rstd: u64|
            rms_norm_with::<F>(x, weight1, eps, total, rstd, out1);
        let (total2, rstd2) = choose|total: u64, rstd: u64|
            rms_norm_with::<F>(x, weight2, eps, total, rstd, out2);
        lemma_square_sums_unique::<F>(x, total, total2);
        lemma_scales_unique::<F>(total, x.len(), eps, rstd, rstd2);
        if finite64(rstd) {
            assert(weights::<F>(x[i], rstd, weight1[i], out1[i]));
            assert(weights::<F>(x[i], rstd, weight2[i], out2[i]));
            lemma_weights_unique::<F>(x[i], rstd, weight1[i], out1[i], out2[i]);
        }
    }
}

/// An entry whose weight is zero is zero.
pub proof fn law_rms_norm_zero_weight<F: FloatUnit>(
    x: Seq<u32>,
    weight: Seq<u32>,
    e: u32,
    eps: u64,
    out: Seq<u32>,
    i: int,
)
    requires
        temperate::<F>(),
        exact_on_equals::<F>(),
        roomy::<F>(),
        x.len() <= usize::MAX,
        all_finite(x),
        positive_finite(e),
        widens::<F>(e, eps),
        rms_norms::<F>(x, weight, eps, out),
        0 <= i < x.len(),
        magnitude(weight[i]) == 0,
    ensures
        magnitude(out[i]) == 0,
{
    let (total, rstd) = choose|total: u64, rstd: u64|
        rms_norm_with::<F>(x, weight, eps, total, rstd, out);
    let trace = choose|trace: Seq<u64>| #[trigger]
        traces(square_step::<F>(x), ZERO64, x.len(), trace) && trace[x.len() as int] == total;
    lemma_squares_bounded::<F>(x, trace, x.len() as int);
    assert(widens::<F>(e, eps) && scales::<F>(total, x.len(), eps, rstd));
    assert(weights::<F>(x[i], rstd, weight[i], out[i]));
    let t = choose|t: WeightSteps| weight_steps::<F>(x[i], rstd, weight[i], t, out[i]);
    assert(widens::<F>(x[i], t.x) && muls64::<F>(t.x, rstd, t.scaled));
    assert(finite64(t.scaled));
    assert(magnitude64(t.w) == 0);
    assert(muls64::<F>(t.scaled, t.w, t.y));
    lemma_saturates_exact::<F>(t.y, weight[i], t.w, out[i]);
}

/// Rows are normalized one by one.
pub proof fn law_rms_norm_by_row<F: FloatUnit>(
    x1: TensorView,
    x2: TensorView,
    weight: TensorView,
    eps: u32,
    r1: TensorView,
    r2: TensorView,
    p: int,
)
    requires
        deterministic::<F>(),
        rms_normalizes::<F>(x1, weight, eps, r1),
        rms_normalizes::<F>(x2, weight, eps, r2),
        x1.shape == x2.shape,
        0 <= p < x1.shape[0],
        x1.row(p) == x2.row(p),
    ensures
        r1.row(p) == r2.row(p),
{
    let w1 = choose|w: u64| #[trigger]
        widens::<F>(eps, w) && rms_norm_rows::<F>(x1, weight, w, r1);
    let w2 = choose|w: u64| #[trigger]
        widens::<F>(eps, w) && rms_norm_rows::<F>(x2, weight, w, r2);
    assert(w1 == w2);
    assert(rms_norms::<F>(x1.row(p), weight.data, w1, r1.row(p)));
    assert(rms_norms::<F>(x2.row(p), weight.data, w1, r2.row(p)));
    crate::tensor::laws::law_rms_norm_deterministic::<F>(
        x1.row(p),
        weight.data,
        w1,
        r1.row(p),
        r2.row(p),
    );
}

// ── Unit length ──────────────────────────────────────────────────────

/// The steps of one division by the Euclidean norm.
pub struct UnitTrace {
    pub wide: Seq<u64>,
    pub squares: Seq<u64>,
    pub running: Seq<u64>,
    pub norm: u64,
    pub quotients: Seq<u64>,
}

/// A finite vector is divided by the root of the sum of its squares where that
/// root is finite and above the floor, and stays as it is otherwise.
pub proof fn law_unit_length_entries<F: FloatUnit>(x: Seq<u32>, out: Seq<u32>) -> (t: UnitTrace)
    requires
        deterministic::<F>(),
        x.len() > 0,
        all_finite(x),
        unit_length::<F>(x, out),
    ensures
        t.wide.len() == x.len(),
        t.squares.len() == x.len(),
        t.running.len() == x.len() + 1,
        t.running[0] == ZERO64,
        forall|i: int| 0 <= i < x.len() ==> widens::<F>(x[i], #[trigger] t.wide[i]),
        forall|i: int|
            0 <= i < x.len() ==> muls64::<F>(t.wide[i], t.wide[i], #[trigger] t.squares[i]),
        forall|i: int|
            0 <= i < x.len() ==> adds64::<F>(
                t.running[i],
                #[trigger] t.squares[i],
                t.running[i + 1],
            ),
        sqrts64::<F>(t.running[x.len() as int], t.norm),
        out.len() == x.len(),
        !(finite64(t.norm) && rank64(t.norm) > rank64(0x3E45_798E_E230_8C3A)) ==> out == x,
        finite64(t.norm) && rank64(t.norm) > rank64(0x3E45_798E_E230_8C3A) ==> t.quotients.len()
            == x.len(),
        finite64(t.norm) && rank64(t.norm) > rank64(0x3E45_798E_E230_8C3A) ==> forall|i: int|
            0 <= i < x.len() ==> divs64::<F>(t.wide[i], t.norm, #[trigger] t.quotients[i]),
        finite64(t.norm) && rank64(t.norm) > rank64(0x3E45_798E_E230_8C3A) ==> forall|i: int|
            0 <= i < x.len() ==> narrows::<F>(#[trigger] t.quotients[i], out[i]),
{
    let (total, norm) = choose|total: u64, norm: u64| unit_length_with::<F>(x, total, norm, out);
    let (wide, squares, running) = lemma_square_terms::<F>(x, total);
    let quotients = Seq::new(
        x.len(),
        |i: int|
            choose|q: u64| #[trigger]
                divs64::<F>(wide[i], norm, q) && narrows::<F>(q, out[i]),
    );
    if divisible_norm(norm) {
        assert forall|i: int| 0 <= i < x.len() implies divs64::<F>(
            wide[i],
            norm,
            #[trigger] quotients[i],
        ) && narrows::<F>(quotients[i], out[i]) by {
            assert(quotient::<F>(x[i], norm, out[i]));
            let (w, q) = choose|w: u64, q: u64| #[trigger]
                widens::<F>(x[i], w) && #[trigger] divs64::<F>(w, norm, q) && narrows::<F>(
                    q,
                    out[i],
                );
            assert(widens::<F>(x[i], wide[i]) && widens::<F>(x[i], w));
            assert(divs64::<F>(wide[i], norm, q) && narrows::<F>(q, out[i]));
        }
    }
    UnitTrace { wide, squares, running, norm, quotients }
}

} // verus!
