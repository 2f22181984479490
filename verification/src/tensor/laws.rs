//! What holds of the tensor kernels as a whole.

use vstd::prelude::*;
use crate::error::ErrorView;
use crate::float::{
    FloatUnit, add_step, adds, adds64, counts, counts64, deterministic, divs, divs64, exps64,
    lemma_reaches_unique, linked, muls, muls64, narrows, sqrts64, subs, subs64, sums, traces,
    widens,
};
use crate::ieee::{
    INFINITY, MAX, MIN, NAN, NEG_INFINITY, ONE, ZERO, above, finite, finite64, magnitude64,
    non_negative,
};
use crate::tensor::{
    TensorView, alloc_error, layout_error, reshape_error, softmaxes_last, transposed,
};
use crate::tensor::finite::{
    AffineSteps, ResidualSteps, ScaleSteps, WeightSteps, WelfordSteps, affine, affine_steps,
    all_finite, any_nan, constant, corrects, distributes, divisible_norm, exps_below, first_peak,
    layer_norm_with, layer_norms, masses, moments, occurrences, partition_step, partitions,
    quotient, residual_steps, rms_norm_with, rms_norms, saturates, scale_steps, scales, shares,
    softmaxes, square_step, square_sums, stable, uniform, unit_length, unit_length_with, weighs,
    weight_steps, weights, welford_step, welford_steps,
};
use crate::tensor::layout::{lemma_numel_2, numel};
use crate::tensor::matmul::{dot_step, dots, multiplies};
use crate::tensor::ops::{
    batched_matmuls, causal, first_unknown, looked_up, lookup_error, matmuls, plane, right_cols,
    right_plane,
};
use crate::tensor::rows::{
    lemma_entry_bounds, lemma_entry_position, lemma_position_entry, lemma_rows_determine, row_of,
};

verus! {

// ── Layout ───────────────────────────────────────────────────────────

/// Transposing twice gives the matrix back.
pub proof fn law_transpose_twice(t: TensorView)
    requires
        t.wf(),
        t.shape.len() == 2,
    ensures
        transposed(transposed(t)) == t,
{
    let rows = t.shape[0] as int;
    let cols = t.shape[1] as int;
    let u = transposed(t);
    let v = transposed(u);
    lemma_numel_2(t.shape);
    assert(rows * cols == cols * rows) by (nonlinear_arith);
    assert(v.shape =~= t.shape);
    assert forall|k: int| 0 <= k < t.data.len() implies v.data[k] == t.data[k] by {
        lemma_position_entry(rows, cols, k);
        let r = k / cols;
        let c = k % cols;
        assert(v.data[k] == u.data[c * rows + r]);
        lemma_entry_bounds(cols, rows, c, r);
        lemma_entry_position(rows, c, r);
        assert(u.data[c * rows + r] == t.data[r * cols + c]);
    }
    assert(v.data =~= t.data);
}

/// Element `(i, j)` of the transpose is element `(j, i)` of the matrix.
pub proof fn law_transpose_entries(t: TensorView, i: int, j: int)
    requires
        t.wf(),
        t.shape.len() == 2,
        0 <= i < t.shape[1],
        0 <= j < t.shape[0],
    ensures
        transposed(t).at(i, j) == t.at(j, i),
{
    let rows = t.shape[0] as int;
    let cols = t.shape[1] as int;
    lemma_numel_2(t.shape);
    assert(rows * cols == cols * rows) by (nonlinear_arith);
    lemma_entry_bounds(cols, rows, i, j);
    lemma_entry_position(rows, i, j);
}

/// A shape that can be taken can be given back.
pub proof fn law_reshape_back(t: TensorView, shape: Seq<usize>)
    requires
        t.wf(),
        reshape_error(t.shape, shape) is None,
    ensures
        reshape_error(shape, t.shape) is None,
{
}

/// Every shape a fresh buffer can be made for holds exactly that buffer.
pub proof fn law_allocated_is_well_formed(shape: Seq<usize>)
    requires
        alloc_error(shape) is None,
    ensures
        layout_error(numel(shape), shape) is None,
{
}

// ── Masks and lookup ─────────────────────────────────────────────────

/// A position sees itself and what precedes it, and nothing behind it.
pub proof fn law_causal_mask(n: usize, i: int, j: int)
    requires
        0 <= i < n,
        0 <= j < n,
    ensures
        causal(n).at(i, j) == if j <= i { ZERO } else { NEG_INFINITY },
{
    lemma_entry_bounds(n as int, n as int, i, j);
    lemma_entry_position(n as int, i, j);
}

/// Entry `(i, c)` of a lookup is entry `c` of row `ids[i]`.
pub proof fn law_lookup_entries(table: TensorView, ids: Seq<u32>, i: int, c: int)
    requires
        table.shape.len() == 2,
        0 <= i < ids.len(),
        0 <= c < table.shape[1],
    ensures
        looked_up(table, ids).at(i, c) == table.at(ids[i] as int, c),
{
    let dim = table.shape[1] as int;
    lemma_entry_bounds(ids.len() as int, dim, i, c);
    lemma_entry_position(dim, i, c);
}

/// A refused lookup names the first id without a row.
pub proof fn law_lookup_names_first(table: Seq<usize>, ids: Seq<u32>, i: int)
    requires
        table.len() == 2,
        first_unknown(ids, table[0], i),
    ensures
        lookup_error(table, ids) == Some(
            ErrorView::TokenIndex { index: ids[i] as usize, vocab_size: table[0] },
        ),
{
    let c = choose|c: int| first_unknown(ids, table[0], c);
    assert(first_unknown(ids, table[0], c));
    assert(c == i);
}

// ── Non-finite input ─────────────────────────────────────────────────

/// The softmax of nothing is nothing.
pub proof fn law_softmax_empty<F: FloatUnit>(out: Seq<u32>)
    requires
        softmaxes::<F>(seq![], out),
    ensures
        out.len() == 0,
{
}

/// One NaN makes the whole softmax row NaN.
pub proof fn law_softmax_nan<F: FloatUnit>(logits: Seq<u32>, out: Seq<u32>)
    requires
        any_nan(logits),
        softmaxes::<F>(logits, out),
    ensures
        out.len() == logits.len(),
        forall|i: int| 0 <= i < out.len() ==> out[i] == NAN,
{
}

/// In a row with infinities, wherever equal shares are positive, everything
/// that is not `+Inf` gets zero, and every `+Inf` behind the first the same
/// share.
pub proof fn law_softmax_infinite<F: FloatUnit>(logits: Seq<u32>, out: Seq<u32>) -> (p: u32)
    requires
        !any_nan(logits),
        logits.len() <= usize::MAX,
        logits.contains(INFINITY),
        softmaxes::<F>(logits, out),
        forall|k: usize, p: u32| #[trigger]
            shares::<F>(k, p) && k > 0 ==> finite(p) && above(p, ZERO),
    ensures
        out.len() == logits.len(),
        shares::<F>(occurrences(logits, INFINITY) as usize, p),
        forall|i: int|
            0 <= i < logits.len() && logits[i] != INFINITY ==> #[trigger] out[i] == ZERO,
        forall|i: int, j: int|
            0 <= j < i < logits.len() && #[trigger] logits[i] == INFINITY
                && #[trigger] logits[j] == INFINITY ==> out[i] == p,
{
    let row = choose|row: Seq<u32>| #[trigger]
        distributes::<F>(logits, row) && corrects::<F>(row, out);
    let p = choose|p: u32| #[trigger]
        shares::<F>(occurrences(logits, INFINITY) as usize, p) && row == logits.map_values(
            |x: u32| if x == INFINITY { p } else { ZERO },
        );
    let k = choose|k: int| 0 <= k < logits.len() && logits[k] == INFINITY;
    lemma_occurrences_present(logits, INFINITY, k);
    assert(row[k] == p);
    assert(masses(row));
    if row.len() == 1 {
        assert(k == 0);
    } else {
        let t = choose|t: ResidualSteps| residual_steps::<F>(row, t, out);
        assert(row[t.peak] == p) by {
            assert(!above(row[k], row[t.peak]));
        }
        assert forall|i: int, j: int|
            0 <= j < i < logits.len() && #[trigger] logits[i] == INFINITY
                && #[trigger] logits[j] == INFINITY implies out[i] == p by {
            assert(row[j] == p);
            assert(i != t.peak);
        }
    }
    p
}

/// The largest entry keeps a positive weight, and `-Inf` none.
pub open spec fn masks_out<F: FloatUnit>(logits: Seq<u32>) -> bool {
    forall|m: int, top: u64, z: u64, row: Seq<u32>| #[trigger]
        stable::<F>(logits, m, top, z, row) ==> above(row[m], ZERO) && forall|i: int|
            0 <= i < logits.len() && logits[i] == NEG_INFINITY ==> #[trigger] row[i] == ZERO
}

/// An entry of `-Inf` beside a larger one gets no mass, wherever its exponential
/// vanishes and the largest entry's does not.
pub proof fn law_softmax_masked_entry<F: FloatUnit>(logits: Seq<u32>, out: Seq<u32>, i: int)
    requires
        masks_out::<F>(logits),
        !any_nan(logits),
        !logits.contains(INFINITY),
        logits != constant(logits.len(), NEG_INFINITY),
        softmaxes::<F>(logits, out),
        0 <= i < logits.len(),
        logits[i] == NEG_INFINITY,
    ensures
        out[i] == ZERO,
{
    let row = choose|row: Seq<u32>| #[trigger]
        distributes::<F>(logits, row) && corrects::<F>(row, out);
    let (m, top, z) = choose|m: int, top: u64, z: u64| stable::<F>(logits, m, top, z, row);
    assert(stable::<F>(logits, m, top, z, row));
    assert(row[i] == ZERO);
    if masses(row) {
        if row.len() == 1 {
            assert(m == i);
        } else {
            let t = choose|t: ResidualSteps| residual_steps::<F>(row, t, out);
            assert(t.peak != i) by {
                assert(!above(row[m], row[t.peak]));
            }
        }
    }
}

/// The unit is exact on zero and one.
pub open spec fn exact_on_units<F: FloatUnit>() -> bool {
    &&& forall|r: u32| #[trigger] counts::<F>(1, r) ==> r == ONE
    &&& forall|r: u32| #[trigger] divs::<F>(ONE, ONE, r) ==> r == ONE
    &&& forall|r: u32| #[trigger] adds::<F>(ZERO, ZERO, r) ==> r == ZERO
    &&& forall|r: u32| #[trigger] adds::<F>(ZERO, ONE, r) ==> r == ONE
    &&& forall|r: u32| #[trigger] adds::<F>(ONE, ZERO, r) ==> r == ONE
    &&& forall|r: u32| #[trigger] subs::<F>(ONE, ONE, r) ==> r == ZERO
}

/// `1` at position `k`, `0` elsewhere.
pub open spec fn one_hot(n: nat, k: int) -> Seq<u32> {
    Seq::new(n, |i: int| if i == k { ONE } else { ZERO })
}

proof fn lemma_occurrences_absent(s: Seq<u32>, x: u32)
    requires
        occurrences(s, x) == 0,
    ensures
        !s.contains(x),
    decreases s.len(),
{
    if s.len() > 0 {
        lemma_occurrences_absent(s.drop_last(), x);
        assert forall|i: int| 0 <= i < s.len() implies s[i] != x by {
            if i < s.len() - 1 {
                assert(s[i] == s.drop_last()[i]);
                assert(s.drop_last().contains(s[i]));
            }
        }
    }
}

proof fn lemma_occurrences_bound(s: Seq<u32>, x: u32)
    ensures
        occurrences(s, x) <= s.len(),
    decreases s.len(),
{
    if s.len() > 0 {
        lemma_occurrences_bound(s.drop_last(), x);
    }
}

pub proof fn lemma_occurrences_present(s: Seq<u32>, x: u32, k: int)
    requires
        0 <= k < s.len(),
        s[k] == x,
    ensures
        1 <= occurrences(s, x) <= s.len(),
        occurrences(s, x) == 1 ==> forall|i: int| 0 <= i < s.len() && i != k ==> s[i] != x,
    decreases s.len(),
{
    let rest = s.drop_last();
    lemma_occurrences_bound(rest, x);
    if k < s.len() - 1 {
        lemma_occurrences_present(rest, x, k);
        if occurrences(s, x) == 1 {
            assert forall|i: int| 0 <= i < s.len() && i != k implies s[i] != x by {
                if i < s.len() - 1 {
                    assert(s[i] == rest[i]);
                }
            }
        }
    } else if occurrences(s, x) == 1 {
        lemma_occurrences_absent(rest, x);
        assert forall|i: int| 0 <= i < s.len() && i != k implies s[i] != x by {
            assert(s[i] == rest[i]);
            assert(rest.contains(rest[i]));
        }
    }
}

proof fn lemma_one_hot_trace<F: FloatUnit>(n: nat, k: int, trace: Seq<u32>, i: int)
    requires
        exact_on_units::<F>(),
        0 <= k < n,
        0 <= i <= n,
        traces(add_step::<F>(one_hot(n, k)), ZERO, n, trace),
    ensures
        trace[i] == if k < i { ONE } else { ZERO },
    decreases i,
{
    if i > 0 {
        lemma_one_hot_trace::<F>(n, k, trace, i - 1);
        assert(linked(add_step::<F>(one_hot(n, k)), trace, i - 1));
        assert(adds::<F>(trace[i - 1], one_hot(n, k)[i - 1], trace[i]));
    }
}

/// A single `+Inf` takes the whole mass: one there, zero elsewhere.
pub proof fn law_softmax_one_hot<F: FloatUnit>(logits: Seq<u32>, k: int, out: Seq<u32>)
    requires
        exact_on_units::<F>(),
        !any_nan(logits),
        0 <= k < logits.len(),
        logits[k] == INFINITY,
        occurrences(logits, INFINITY) == 1,
        softmaxes::<F>(logits, out),
    ensures
        out == one_hot(logits.len(), k),
{
    let n = logits.len();
    let row = choose|row: Seq<u32>| #[trigger]
        distributes::<F>(logits, row) && corrects::<F>(row, out);
    let p = choose|p: u32| #[trigger]
        shares::<F>(occurrences(logits, INFINITY) as usize, p) && row == logits.map_values(
            |x: u32| if x == INFINITY { p } else { ZERO },
        );
    let c = choose|c: u32| #[trigger] counts::<F>(1, c) && divs::<F>(ONE, c, p);
    assert(divs::<F>(ONE, ONE, p));
    lemma_occurrences_present(logits, INFINITY, k);
    assert(row =~= one_hot(n, k));
    if n == 1 {
        assert(out =~= one_hot(n, k));
    } else {
        assert(masses(row));
        let t = choose|t: ResidualSteps| residual_steps::<F>(row, t, out);
        let step = add_step::<F>(row);
        let trace = choose|trace: Seq<u32>| #[trigger]
            traces(step, ZERO, n, trace) && trace[n as int] == t.sum;
        lemma_one_hot_trace::<F>(n, k, trace, n as int);
        assert(t.sum == ONE);
        assert(subs::<F>(ONE, ONE, t.gap));
        assert(t.peak == k) by {
            assert(!above(row[k], row[t.peak]));
        }
        assert(adds::<F>(ONE, ZERO, t.corrected));
        assert(out =~= one_hot(n, k));
    }
}

/// Folding the residual keeps a row of finite, non-negative entries finite and
/// non-negative.
pub proof fn law_correction_keeps_masses<F: FloatUnit>(row: Seq<u32>, out: Seq<u32>)
    requires
        masses(row),
        corrects::<F>(row, out),
    ensures
        masses(out),
        out.len() == row.len(),
{
    if row.len() > 1 {
        let t = choose|t: ResidualSteps| residual_steps::<F>(row, t, out);
        assert forall|i: int| 0 <= i < out.len() implies finite(#[trigger] out[i]) && non_negative(
            out[i],
        ) by {
            if i != t.peak {
                assert(out[i] == row[i]);
            }
        }
    }
}

/// A row masked throughout spreads its mass evenly: every entry behind the
/// first holds the equal share.
pub proof fn law_softmax_masked<F: FloatUnit>(n: nat, out: Seq<u32>) -> (p: u32)
    requires
        n > 1,
        softmaxes::<F>(constant(n, NEG_INFINITY), out),
    ensures
        shares::<F>(n as usize, p),
        out.len() == n,
        forall|i: int| 1 <= i < n ==> out[i] == p,
{
    let logits = constant(n, NEG_INFINITY);
    assert(!any_nan(logits));
    assert(!logits.contains(INFINITY));
    let row = choose|row: Seq<u32>| #[trigger]
        distributes::<F>(logits, row) && corrects::<F>(row, out);
    let p = choose|p: u32| #[trigger] shares::<F>(n as usize, p) && row == constant(n, p);
    if masses(row) {
        let t = choose|t: ResidualSteps| residual_steps::<F>(row, t, out);
        assert(t.peak == 0) by {
            if t.peak > 0 {
                assert(above(row[t.peak], row[0]));
            }
        }
    }
    p
}

/// A non-finite value makes its layer-normalized row NaN.
pub proof fn law_layer_norm_nan<F: FloatUnit>(
    x: Seq<u32>,
    weight: Seq<u32>,
    bias: Seq<u32>,
    eps: u64,
    out: Seq<u32>,
)
    requires
        !all_finite(x),
        layer_norms::<F>(x, weight, bias, eps, out),
    ensures
        out == constant(x.len(), NAN),
{
}

/// A non-finite value makes its root-mean-square-normalized row NaN.
pub proof fn law_rms_norm_nan<F: FloatUnit>(
    x: Seq<u32>,
    weight: Seq<u32>,
    eps: u64,
    out: Seq<u32>,
)
    requires
        !all_finite(x),
        rms_norms::<F>(x, weight, eps, out),
    ensures
        out == constant(x.len(), NAN),
{
}

/// Layer normalization never gives an infinity: overflow saturates.
pub proof fn law_layer_norm_saturates<F: FloatUnit>(
    x: Seq<u32>,
    weight: Seq<u32>,
    bias: Seq<u32>,
    eps: u64,
    out: Seq<u32>,
    i: int,
)
    requires
        layer_norms::<F>(x, weight, bias, eps, out),
        0 <= i < out.len(),
    ensures
        finite(out[i]) || out[i] == NAN,
{
    if all_finite(x) {
        let (mo, rstd) = choose|mo: (u64, u64), rstd: u64|
            layer_norm_with::<F>(x, weight, bias, eps, mo, rstd, out);
        if finite64(rstd) {
            assert(affine::<F>(x[i], mo.0, rstd, weight[i], bias[i], out[i]));
        }
    }
}

/// Root-mean-square normalization never gives an infinity: overflow saturates.
pub proof fn law_rms_norm_saturates<F: FloatUnit>(
    x: Seq<u32>,
    weight: Seq<u32>,
    eps: u64,
    out: Seq<u32>,
    i: int,
)
    requires
        rms_norms::<F>(x, weight, eps, out),
        0 <= i < out.len(),
    ensures
        finite(out[i]) || out[i] == NAN,
{
    if all_finite(x) {
        let (total, rstd) = choose|total: u64, rstd: u64|
            rms_norm_with::<F>(x, weight, eps, total, rstd, out);
        if finite64(rstd) {
            assert(weights::<F>(x[i], rstd, weight[i], out[i]));
        }
    }
}

/// A non-finite value makes a normalized vector NaN, and nothing stays nothing.
pub proof fn law_unit_length_nan<F: FloatUnit>(x: Seq<u32>, out: Seq<u32>)
    requires
        !all_finite(x),
        unit_length::<F>(x, out),
    ensures
        out == constant(x.len(), NAN),
{
}

/// A finite vector whose norm is at or below the floor stays as it is.
pub proof fn law_unit_length_floor<F: FloatUnit>(x: Seq<u32>, out: Seq<u32>)
    requires
        all_finite(x),
        unit_length::<F>(x, out),
        forall|total: u64, norm: u64|
            square_sums::<F>(x, total) && #[trigger] sqrts64::<F>(total, norm) ==> !divisible_norm(
                norm,
            ),
    ensures
        out == x,
{
    if x.len() > 0 {
        let (total, norm) = choose|total: u64, norm: u64|
            unit_length_with::<F>(x, total, norm, out);
        assert(sqrts64::<F>(total, norm));
    }
}

// ── Determinism ──────────────────────────────────────────────────────

/// A unit that gives one answer per question gives one sum.
pub proof fn law_sum_deterministic<F: FloatUnit>(init: u32, s: Seq<u32>, r: u32, q: u32)
    requires
        deterministic::<F>(),
        sums::<F>(init, s, r),
        sums::<F>(init, s, q),
    ensures
        r == q,
{
    let step = add_step::<F>(s);
    assert forall|i: int, p: u32, a: u32, b: u32| #[trigger] step(i, p, a) && #[trigger] step(
        i,
        p,
        b,
    ) implies a == b by {
        assert(adds::<F>(p, s[i], a) && adds::<F>(p, s[i], b));
    }
    lemma_reaches_unique(step, init, s.len(), r, q);
}

/// A unit that gives one answer per question gives one matrix product.
pub proof fn law_product_deterministic<F: FloatUnit>(
    a: Seq<u32>,
    b: Seq<u32>,
    m: nat,
    k: nat,
    n: nat,
    x: Seq<u32>,
    y: Seq<u32>,
)
    requires
        deterministic::<F>(),
        multiplies::<F>(a, b, m, k, n, x),
        multiplies::<F>(a, b, m, k, n, y),
    ensures
        x == y,
{
    assert forall|i: int| 0 <= i < x.len() implies x[i] == y[i] by {
        lemma_position_entry(m as int, n as int, i);
        let r = i / n as int;
        let c = i % n as int;
        let arow = row_of(a, k, r);
        let step = dot_step::<F>(arow, b, n as int, c);
        assert(dots::<F>(arow, b, n as int, c, x[r * n + c]));
        assert(dots::<F>(arow, b, n as int, c, y[r * n + c]));
        assert forall|p: int, acc: u32, u: u32, v: u32| #[trigger] step(p, acc, u)
            && #[trigger] step(p, acc, v) implies u == v by {
            let s = choose|s: u32| #[trigger]
                muls::<F>(arow[p], b[p * n + c], s) && adds::<F>(acc, s, u);
            let t = choose|t: u32| #[trigger]
                muls::<F>(arow[p], b[p * n + c], t) && adds::<F>(acc, t, v);
            assert(s == t);
            assert(adds::<F>(acc, s, u) && adds::<F>(acc, s, v));
        }
        lemma_reaches_unique(step, ZERO, arow.len(), x[r * n + c], y[r * n + c]);
    }
    assert(x =~= y);
}

proof fn lemma_shares_unique<F: FloatUnit>(k: usize, p: u32, q: u32)
    requires
        deterministic::<F>(),
        shares::<F>(k, p),
        shares::<F>(k, q),
    ensures
        p == q,
{
    let c = choose|c: u32| #[trigger] counts::<F>(k, c) && divs::<F>(ONE, c, p);
    let d = choose|d: u32| #[trigger] counts::<F>(k, d) && divs::<F>(ONE, d, q);
    assert(c == d);
    assert(divs::<F>(ONE, c, p) && divs::<F>(ONE, c, q));
}

proof fn lemma_uniform_unique<F: FloatUnit>(n: nat, a: Seq<u32>, b: Seq<u32>)
    requires
        deterministic::<F>(),
        uniform::<F>(n, a),
        uniform::<F>(n, b),
    ensures
        a == b,
{
    let p = choose|p: u32| #[trigger] shares::<F>(n as usize, p) && a == constant(n, p);
    let q = choose|q: u32| #[trigger] shares::<F>(n as usize, q) && b == constant(n, q);
    lemma_shares_unique::<F>(n as usize, p, q);
}

pub proof fn lemma_exps_below_unique<F: FloatUnit>(x: u32, top: u64, a: u64, b: u64)
    requires
        deterministic::<F>(),
        exps_below::<F>(x, top, a),
        exps_below::<F>(x, top, b),
    ensures
        a == b,
{
    let (w, d) = choose|w: u64, d: u64| #[trigger]
        widens::<F>(x, w) && #[trigger] subs64::<F>(w, top, d) && exps64::<F>(d, a);
    let (v, e) = choose|v: u64, e: u64| #[trigger]
        widens::<F>(x, v) && #[trigger] subs64::<F>(v, top, e) && exps64::<F>(e, b);
    assert(w == v);
    assert(d == e);
    assert(exps64::<F>(d, a) && exps64::<F>(d, b));
}

proof fn lemma_partitions_unique<F: FloatUnit>(logits: Seq<u32>, top: u64, a: u64, b: u64)
    requires
        deterministic::<F>(),
        partitions::<F>(logits, top, a),
        partitions::<F>(logits, top, b),
    ensures
        a == b,
{
    let step = partition_step::<F>(logits, top);
    assert forall|i: int, p: u64, u: u64, v: u64| #[trigger] step(i, p, u) && #[trigger] step(
        i,
        p,
        v,
    ) implies u == v by {
        let e = choose|e: u64| #[trigger]
            exps_below::<F>(logits[i], top, e) && adds64::<F>(p, e, u);
        let f = choose|f: u64| #[trigger]
            exps_below::<F>(logits[i], top, f) && adds64::<F>(p, f, v);
        lemma_exps_below_unique::<F>(logits[i], top, e, f);
        assert(adds64::<F>(p, e, u) && adds64::<F>(p, e, v));
    }
    lemma_reaches_unique(step, 0u64, logits.len(), a, b);
}

proof fn lemma_weighs_unique<F: FloatUnit>(x: u32, top: u64, z: u64, a: u32, b: u32)
    requires
        deterministic::<F>(),
        weighs::<F>(x, top, z, a),
        weighs::<F>(x, top, z, b),
    ensures
        a == b,
{
    let (e, q) = choose|e: u64, q: u64| #[trigger]
        exps_below::<F>(x, top, e) && #[trigger] divs64::<F>(e, z, q) && narrows::<F>(q, a);
    let (f, p) = choose|f: u64, p: u64| #[trigger]
        exps_below::<F>(x, top, f) && #[trigger] divs64::<F>(f, z, p) && narrows::<F>(p, b);
    lemma_exps_below_unique::<F>(x, top, e, f);
    assert(q == p);
    assert(narrows::<F>(q, a) && narrows::<F>(q, b));
}

proof fn lemma_first_peak_unique(s: Seq<u32>, a: int, b: int)
    requires
        first_peak(s, a),
        first_peak(s, b),
    ensures
        a == b,
{
    if a < b {
        assert(above(s[b], s[a]));
        assert(!above(s[b], s[a]));
    } else if b < a {
        assert(above(s[a], s[b]));
        assert(!above(s[a], s[b]));
    }
}

proof fn lemma_distributes_unique<F: FloatUnit>(logits: Seq<u32>, a: Seq<u32>, b: Seq<u32>)
    requires
        deterministic::<F>(),
        distributes::<F>(logits, a),
        distributes::<F>(logits, b),
    ensures
        a == b,
{
    if logits.contains(INFINITY) {
        let k = occurrences(logits, INFINITY) as usize;
        let p = choose|p: u32| #[trigger]
            shares::<F>(k, p) && a == logits.map_values(
                |x: u32| if x == INFINITY { p } else { ZERO },
            );
        let q = choose|q: u32| #[trigger]
            shares::<F>(k, q) && b == logits.map_values(
                |x: u32| if x == INFINITY { q } else { ZERO },
            );
        lemma_shares_unique::<F>(k, p, q);
        assert(a =~= b);
    } else if logits == constant(logits.len(), NEG_INFINITY) {
        lemma_uniform_unique::<F>(logits.len(), a, b);
    } else {
        let (m, top, z) = choose|m: int, top: u64, z: u64| stable::<F>(logits, m, top, z, a);
        let (m2, top2, z2) = choose|m: int, top: u64, z: u64| stable::<F>(logits, m, top, z, b);
        lemma_first_peak_unique(logits, m, m2);
        assert(widens::<F>(logits[m], top) && widens::<F>(logits[m], top2));
        lemma_partitions_unique::<F>(logits, top, z, z2);
        if magnitude64(z) == 0 || !finite64(z) {
            lemma_uniform_unique::<F>(logits.len(), a, b);
        } else {
            assert forall|i: int| 0 <= i < a.len() implies a[i] == b[i] by {
                assert(weighs::<F>(logits[i], top, z, a[i]));
                assert(weighs::<F>(logits[i], top, z, b[i]));
                lemma_weighs_unique::<F>(logits[i], top, z, a[i], b[i]);
            }
            assert(a =~= b);
        }
    }
}

proof fn lemma_corrects_unique<F: FloatUnit>(row: Seq<u32>, a: Seq<u32>, b: Seq<u32>)
    requires
        deterministic::<F>(),
        corrects::<F>(row, a),
        corrects::<F>(row, b),
    ensures
        a == b,
{
    if row.len() > 1 && masses(row) {
        let s = choose|t: ResidualSteps| residual_steps::<F>(row, t, a);
        let t = choose|t: ResidualSteps| residual_steps::<F>(row, t, b);
        lemma_first_peak_unique(row, s.peak, t.peak);
        law_sum_deterministic::<F>(ZERO, row, s.sum, t.sum);
        if finite(s.sum) {
            assert(subs::<F>(ONE, s.sum, s.gap) && subs::<F>(ONE, s.sum, t.gap));
            assert(adds::<F>(row[s.peak], s.gap, s.corrected) && adds::<F>(
                row[s.peak],
                s.gap,
                t.corrected,
            ));
        }
    }
}

/// A unit that gives one answer per question gives one softmax.
pub proof fn law_softmax_deterministic<F: FloatUnit>(logits: Seq<u32>, a: Seq<u32>, b: Seq<u32>)
    requires
        deterministic::<F>(),
        softmaxes::<F>(logits, a),
        softmaxes::<F>(logits, b),
    ensures
        a == b,
{
    if logits.len() > 0 && !any_nan(logits) {
        let x = choose|row: Seq<u32>| #[trigger]
            distributes::<F>(logits, row) && corrects::<F>(row, a);
        let y = choose|row: Seq<u32>| #[trigger]
            distributes::<F>(logits, row) && corrects::<F>(row, b);
        lemma_distributes_unique::<F>(logits, x, y);
        lemma_corrects_unique::<F>(x, a, b);
    }
}

pub proof fn lemma_saturates_unique<F: FloatUnit>(y: u64, a: u32, b: u32)
    requires
        deterministic::<F>(),
        saturates::<F>(y, a),
        saturates::<F>(y, b),
    ensures
        a == b,
{
    let n = choose|n: u32| #[trigger]
        narrows::<F>(y, n) && a == if finite(n) {
            n
        } else if crate::ieee::nan64(y) {
            NAN
        } else if crate::ieee::negative64(y) {
            MIN
        } else {
            MAX
        };
    let m = choose|m: u32| #[trigger]
        narrows::<F>(y, m) && b == if finite(m) {
            m
        } else if crate::ieee::nan64(y) {
            NAN
        } else if crate::ieee::negative64(y) {
            MIN
        } else {
            MAX
        };
    assert(n == m);
}

pub proof fn lemma_scales_unique<F: FloatUnit>(total: u64, n: nat, eps: u64, a: u64, b: u64)
    requires
        deterministic::<F>(),
        scales::<F>(total, n, eps, a),
        scales::<F>(total, n, eps, b),
    ensures
        a == b,
{
    let s = choose|t: ScaleSteps| scale_steps::<F>(total, n, eps, t, a);
    let t = choose|t: ScaleSteps| scale_steps::<F>(total, n, eps, t, b);
    assert(counts64::<F>(n as usize, s.count) && counts64::<F>(n as usize, t.count));
    assert(divs64::<F>(total, s.count, s.share) && divs64::<F>(total, s.count, t.share));
    assert(adds64::<F>(s.share, eps, s.shifted) && adds64::<F>(s.share, eps, t.shifted));
    assert(sqrts64::<F>(s.shifted, s.root) && sqrts64::<F>(s.shifted, t.root));
    assert(divs64::<F>(crate::ieee::ONE64, s.root, a) && divs64::<F>(
        crate::ieee::ONE64,
        s.root,
        b,
    ));
}

pub proof fn lemma_moments_unique<F: FloatUnit>(x: Seq<u32>, a: (u64, u64), b: (u64, u64))
    requires
        deterministic::<F>(),
        moments::<F>(x, a),
        moments::<F>(x, b),
    ensures
        a == b,
{
    let step = welford_step::<F>(x);
    assert forall|i: int, p: (u64, u64), u: (u64, u64), v: (u64, u64)| #[trigger] step(i, p, u)
        && #[trigger] step(i, p, v) implies u == v by {
        let s = choose|t: WelfordSteps| welford_steps::<F>(x[i], i, p, t, u);
        let t = choose|t: WelfordSteps| welford_steps::<F>(x[i], i, p, t, v);
        assert(widens::<F>(x[i], s.v) && widens::<F>(x[i], t.v));
        assert(subs64::<F>(s.v, p.0, s.delta) && subs64::<F>(s.v, p.0, t.delta));
        assert(counts64::<F>((i + 1) as usize, s.count) && counts64::<F>(
            (i + 1) as usize,
            t.count,
        ));
        assert(divs64::<F>(s.delta, s.count, s.shift) && divs64::<F>(
            s.delta,
            s.count,
            t.shift,
        ));
        assert(adds64::<F>(p.0, s.shift, u.0) && adds64::<F>(p.0, s.shift, v.0));
        assert(subs64::<F>(s.v, u.0, s.rest) && subs64::<F>(s.v, u.0, t.rest));
        assert(muls64::<F>(s.delta, s.rest, s.spread) && muls64::<F>(
            s.delta,
            s.rest,
            t.spread,
        ));
        assert(adds64::<F>(p.1, s.spread, u.1) && adds64::<F>(p.1, s.spread, v.1));
    }
    lemma_reaches_unique(step, (0u64, 0u64), x.len(), a, b);
}

/// A unit that gives one answer per question gives one layer normalization.
pub proof fn law_layer_norm_deterministic<F: FloatUnit>(
    x: Seq<u32>,
    weight: Seq<u32>,
    bias: Seq<u32>,
    eps: u64,
    a: Seq<u32>,
    b: Seq<u32>,
)
    requires
        deterministic::<F>(),
        layer_norms::<F>(x, weight, bias, eps, a),
        layer_norms::<F>(x, weight, bias, eps, b),
    ensures
        a == b,
{
    if all_finite(x) {
        let (mo, rstd) = choose|mo: (u64, u64), rstd: u64|
            layer_norm_with::<F>(x, weight, bias, eps, mo, rstd, a);
        let (mo2, rstd2) = choose|mo: (u64, u64), rstd: u64|
            layer_norm_with::<F>(x, weight, bias, eps, mo, rstd, b);
        lemma_moments_unique::<F>(x, mo, mo2);
        lemma_scales_unique::<F>(mo.1, x.len(), eps, rstd, rstd2);
        if finite64(rstd) {
            assert forall|i: int| 0 <= i < a.len() implies a[i] == b[i] by {
                assert(affine::<F>(x[i], mo.0, rstd, weight[i], bias[i], a[i]));
                assert(affine::<F>(x[i], mo.0, rstd, weight[i], bias[i], b[i]));
                lemma_affine_unique::<F>(x[i], mo.0, rstd, weight[i], bias[i], a[i], b[i]);
            }
            assert(a =~= b);
        }
    }
}

pub proof fn lemma_affine_unique<F: FloatUnit>(
    x: u32,
    mean: u64,
    rstd: u64,
    w: u32,
    bias: u32,
    a: u32,
    b: u32,
)
    requires
        deterministic::<F>(),
        affine::<F>(x, mean, rstd, w, bias, a),
        affine::<F>(x, mean, rstd, w, bias, b),
    ensures
        a == b,
{
    let s = choose|t: AffineSteps| affine_steps::<F>(x, mean, rstd, w, bias, t, a);
    let t = choose|t: AffineSteps| affine_steps::<F>(x, mean, rstd, w, bias, t, b);
    assert(widens::<F>(x, s.x) && widens::<F>(x, t.x));
    assert(subs64::<F>(s.x, mean, s.centred) && subs64::<F>(s.x, mean, t.centred));
    assert(muls64::<F>(s.centred, rstd, s.scaled) && muls64::<F>(s.centred, rstd, t.scaled));
    assert(widens::<F>(w, s.w) && widens::<F>(w, t.w));
    assert(muls64::<F>(s.scaled, s.w, s.weighted) && muls64::<F>(s.scaled, s.w, t.weighted));
    assert(widens::<F>(bias, s.b) && widens::<F>(bias, t.b));
    assert(adds64::<F>(s.weighted, s.b, s.y) && adds64::<F>(s.weighted, s.b, t.y));
    lemma_saturates_unique::<F>(s.y, a, b);
}

pub proof fn lemma_square_sums_unique<F: FloatUnit>(x: Seq<u32>, a: u64, b: u64)
    requires
        deterministic::<F>(),
        square_sums::<F>(x, a),
        square_sums::<F>(x, b),
    ensures
        a == b,
{
    let step = square_step::<F>(x);
    assert forall|i: int, p: u64, u: u64, v: u64| #[trigger] step(i, p, u) && #[trigger] step(
        i,
        p,
        v,
    ) implies u == v by {
        let (w, q) = choose|w: u64, q: u64| #[trigger]
            widens::<F>(x[i], w) && #[trigger] muls64::<F>(w, w, q) && adds64::<F>(p, q, u);
        let (y, z) = choose|w: u64, q: u64| #[trigger]
            widens::<F>(x[i], w) && #[trigger] muls64::<F>(w, w, q) && adds64::<F>(p, q, v);
        assert(w == y);
        assert(q == z);
        assert(adds64::<F>(p, q, u) && adds64::<F>(p, q, v));
    }
    lemma_reaches_unique(step, 0u64, x.len(), a, b);
}

/// A unit that gives one answer per question gives one root-mean-square
/// normalization.
pub proof fn law_rms_norm_deterministic<F: FloatUnit>(
    x: Seq<u32>,
    weight: Seq<u32>,
    eps: u64,
    a: Seq<u32>,
    b: Seq<u32>,
)
    requires
        deterministic::<F>(),
        rms_norms::<F>(x, weight, eps, a),
        rms_norms::<F>(x, weight, eps, b),
    ensures
        a == b,
{
    if all_finite(x) {
        let (total, rstd) = choose|total: u64, rstd: u64|
            rms_norm_with::<F>(x, weight, eps, total, rstd, a);
        let (total2, rstd2) = choose|total: u64, rstd: u64|
            rms_norm_with::<F>(x, weight, eps, total, rstd, b);
        lemma_square_sums_unique::<F>(x, total, total2);
        lemma_scales_unique::<F>(total, x.len(), eps, rstd, rstd2);
        if finite64(rstd) {
            assert forall|i: int| 0 <= i < a.len() implies a[i] == b[i] by {
                assert(weights::<F>(x[i], rstd, weight[i], a[i]));
                assert(weights::<F>(x[i], rstd, weight[i], b[i]));
                let s = choose|t: WeightSteps| weight_steps::<F>(x[i], rstd, weight[i], t, a[i]);
                let t = choose|t: WeightSteps| weight_steps::<F>(x[i], rstd, weight[i], t, b[i]);
                assert(widens::<F>(x[i], s.x) && widens::<F>(x[i], t.x));
                assert(muls64::<F>(s.x, rstd, s.scaled) && muls64::<F>(s.x, rstd, t.scaled));
                assert(widens::<F>(weight[i], s.w) && widens::<F>(weight[i], t.w));
                assert(muls64::<F>(s.scaled, s.w, s.y) && muls64::<F>(s.scaled, s.w, t.y));
                lemma_saturates_unique::<F>(s.y, a[i], b[i]);
            }
            assert(a =~= b);
        }
    }
}

/// A unit that gives one answer per question gives one normalized vector.
pub proof fn law_unit_length_deterministic<F: FloatUnit>(x: Seq<u32>, a: Seq<u32>, b: Seq<u32>)
    requires
        deterministic::<F>(),
        unit_length::<F>(x, a),
        unit_length::<F>(x, b),
    ensures
        a == b,
{
    if x.len() > 0 && all_finite(x) {
        let (total, norm) = choose|total: u64, norm: u64|
            unit_length_with::<F>(x, total, norm, a);
        let (total2, norm2) = choose|total: u64, norm: u64|
            unit_length_with::<F>(x, total, norm, b);
        lemma_square_sums_unique::<F>(x, total, total2);
        assert(sqrts64::<F>(total, norm) && sqrts64::<F>(total, norm2));
        if divisible_norm(norm) {
            assert forall|i: int| 0 <= i < a.len() implies a[i] == b[i] by {
                assert(quotient::<F>(x[i], norm, a[i]));
                assert(quotient::<F>(x[i], norm, b[i]));
                let (w, q) = choose|w: u64, q: u64| #[trigger]
                    widens::<F>(x[i], w) && #[trigger] divs64::<F>(w, norm, q) && narrows::<F>(
                        q,
                        a[i],
                    );
                let (v, p) = choose|w: u64, q: u64| #[trigger]
                    widens::<F>(x[i], w) && #[trigger] divs64::<F>(w, norm, q) && narrows::<F>(
                        q,
                        b[i],
                    );
                assert(w == v);
                assert(q == p);
                assert(narrows::<F>(q, a[i]) && narrows::<F>(q, b[i]));
            }
            assert(a =~= b);
        }
    }
}

/// Row `i` of a softmax along the last axis is the softmax of that row, whatever
/// the other rows hold.
pub proof fn law_softmax_last_by_row<F: FloatUnit>(
    t: TensorView,
    r: TensorView,
    i: int,
    row: Seq<u32>,
)
    requires
        deterministic::<F>(),
        t.shape.len() == 2,
        softmaxes_last::<F>(t, r),
        0 <= i < t.shape[0],
        softmaxes::<F>(t.row(i), row),
    ensures
        r.row(i) == row,
{
    assert(softmaxes::<F>(t.row(i), r.row(i)));
    law_softmax_deterministic::<F>(t.row(i), r.row(i), row);
}

/// A unit that gives one answer per question gives one softmax along the last
/// axis.
pub proof fn law_softmax_last_deterministic<F: FloatUnit>(
    t: TensorView,
    a: TensorView,
    b: TensorView,
)
    requires
        deterministic::<F>(),
        t.shape.len() <= 2,
        a.wf(),
        b.wf(),
        softmaxes_last::<F>(t, a),
        softmaxes_last::<F>(t, b),
    ensures
        a == b,
{
    if t.shape.len() == 2 {
        lemma_numel_2(t.shape);
        assert forall|i: int| 0 <= i < t.shape[0] implies #[trigger] row_of(
            a.data,
            t.shape[1] as nat,
            i,
        ) == row_of(b.data, t.shape[1] as nat, i) by {
            assert(softmaxes::<F>(t.row(i), b.row(i)));
            law_softmax_last_by_row::<F>(t, a, i, b.row(i));
        }
        lemma_rows_determine(a.data, b.data, t.shape[0] as nat, t.shape[1] as nat);
    } else {
        law_softmax_deterministic::<F>(t.data, a.data, b.data);
    }
}

/// Every batch of a batched product is the matrix product of its operands, the
/// shared right operand included.
pub proof fn law_batch_is_matmul<F: FloatUnit>(
    a: TensorView,
    b: TensorView,
    r: TensorView,
    i: int,
    c: TensorView,
)
    requires
        deterministic::<F>(),
        a.shape.len() == 3,
        b.shape.len() == 3 || b.shape.len() == 2,
        batched_matmuls::<F>(a, b, r),
        0 <= i < a.shape[0],
        matmuls::<F>(
            TensorView { data: plane(a, i), shape: seq![a.shape[1], a.shape[2]] },
            TensorView {
                data: right_plane(b, i),
                shape: seq![a.shape[2], right_cols(b.shape)],
            },
            c,
        ),
    ensures
        plane(r, i) == c.data,
        c.shape == seq![r.shape[1], r.shape[2]],
{
    assert(multiplies::<F>(
        plane(a, i),
        right_plane(b, i),
        a.shape[1] as nat,
        a.shape[2] as nat,
        right_cols(b.shape) as nat,
        plane(r, i),
    ));
    law_product_deterministic::<F>(
        plane(a, i),
        right_plane(b, i),
        a.shape[1] as nat,
        a.shape[2] as nat,
        right_cols(b.shape) as nat,
        plane(r, i),
        c.data,
    );
}

} // verus!
