//! Attention looks back and not ahead.

use vstd::prelude::*;
use crate::float::{
    FloatUnit, accumulates, adds, counts, deterministic, divs, lemma_reaches_match,
    lemma_traces_match, linked, muls, sqrts, traces,
};
use crate::ieee::{INFINITY, NEG_INFINITY, NEG_ZERO, ONE, ZERO, finite, magnitude, nan};
use crate::tensor::{TensorView, alloc_error};
use crate::tensor::finite::{all_finite, any_nan, constant, softmaxes};
use crate::tensor::laws::{law_causal_mask, law_softmax_deterministic, law_softmax_masked_entry};
use crate::tensor::layout::lemma_numel_3;
use crate::tensor::masking::{exact_on_zero, law_orderly_masks_out, maskable, orderly};
use crate::tensor::matmul::{dot_step, dots, multiplies};
use crate::tensor::ops::{batched_matmuls, causal, matmuls, plane, right_plane};
use crate::tensor::rows::{lemma_entry_bounds, lemma_row_bounds, lemma_rows_determine, row_of};
use crate::transformer::attention::{
    AttentionStages, MultiHeadAttention, masks, new_attention_error,
};
use crate::transformer::heads::{swaps, transposes_planes};
use crate::transformer::laws::{law_fresh_attention_valid, law_valid_attention_accepts};
use crate::transformer::linear::{inverse_roots, linears, tiled};

verus! {

// ── Rows of rows ─────────────────────────────────────────────────────

/// Row `p` of block `h` is row `h * a + p` of the whole.
pub proof fn lemma_nested_row(d: Seq<u32>, blocks: nat, a: nat, w: nat, h: int, p: int)
    requires
        d.len() == blocks * (a * w),
        0 <= h < blocks,
        0 <= p < a,
    ensures
        row_of(row_of(d, a * w, h), w, p) == row_of(d, w, h * a + p),
        row_of(d, a * w, h).len() == a * w,
        0 <= h * a + p < blocks * a,
        d.len() == (blocks * a) * w,
{
    lemma_row_bounds(blocks as int, (a * w) as int, h);
    lemma_row_bounds(a as int, w as int, p);
    lemma_entry_bounds(blocks as int, a as int, h, p);
    assert((h * a + p) * w == h * (a * w) + p * w) by (nonlinear_arith);
    assert(blocks * (a * w) == (blocks * a) * w) by (nonlinear_arith);
    lemma_row_bounds((blocks * a) as int, w as int, h * a + p);
    assert(row_of(row_of(d, a * w, h), w, p) =~= row_of(d, w, h * a + p));
}

/// Entry `c` of row `r`.
pub proof fn lemma_row_entry(d: Seq<u32>, rows: nat, cols: nat, r: int, c: int)
    requires
        d.len() == rows * cols,
        0 <= r < rows,
        0 <= c < cols,
    ensures
        row_of(d, cols, r)[c] == d[r * cols + c],
        row_of(d, cols, r).len() == cols,
        0 <= r * cols + c < d.len(),
{
    lemma_row_bounds(rows as int, cols as int, r);
}

/// Buffers agree on row `p`.
pub open spec fn same_row(d1: Seq<u32>, d2: Seq<u32>, cols: nat, p: int) -> bool {
    row_of(d1, cols, p) == row_of(d2, cols, p)
}

// ── Row by row ───────────────────────────────────────────────────────

proof fn lemma_accumulates_same<F: FloatUnit>(
    a: u32,
    b: u32,
    acc: u32,
    u: u32,
    v: u32,
)
    requires
        deterministic::<F>(),
        accumulates::<F>(a, b, acc, u),
        accumulates::<F>(a, b, acc, v),
    ensures
        u == v,
{
    let s = choose|s: u32| #[trigger] muls::<F>(a, b, s) && adds::<F>(acc, s, u);
    let t = choose|t: u32| #[trigger] muls::<F>(a, b, t) && adds::<F>(acc, t, v);
    assert(s == t);
    assert(adds::<F>(acc, s, u) && adds::<F>(acc, s, v));
}

/// Products of equal rows with columns that hold the same entries are equal.
pub proof fn lemma_dots_same<F: FloatUnit>(
    row: Seq<u32>,
    b1: Seq<u32>,
    b2: Seq<u32>,
    n: int,
    j: int,
    u: u32,
    v: u32,
)
    requires
        deterministic::<F>(),
        dots::<F>(row, b1, n, j, u),
        dots::<F>(row, b2, n, j, v),
        forall|c: int| 0 <= c < row.len() ==> #[trigger] b1[c * n + j] == b2[c * n + j],
    ensures
        u == v,
{
    let s1 = dot_step::<F>(row, b1, n, j);
    let s2 = dot_step::<F>(row, b2, n, j);
    assert forall|c: int, p: u32, q1: u32, q2: u32|
        0 <= c < row.len() && #[trigger] s1(c, p, q1) && #[trigger] s2(c, p, q2) implies q1
        == q2 by {
        assert(b1[c * n + j] == b2[c * n + j]);
        lemma_accumulates_same::<F>(row[c], b1[c * n + j], p, q1, q2);
    }
    lemma_reaches_match(s1, s2, ZERO, row.len(), u, v);
}

/// An affine map takes equal rows to equal rows.
pub proof fn lemma_linear_row<F: FloatUnit>(
    x1: TensorView,
    x2: TensorView,
    w: TensorView,
    bias: TensorView,
    r1: TensorView,
    r2: TensorView,
    p: int,
)
    requires
        deterministic::<F>(),
        x1.shape == x2.shape,
        x1.shape.len() == 2,
        w.shape.len() == 2,
        linears::<F>(x1, w, bias, r1),
        linears::<F>(x2, w, bias, r2),
        0 <= p < x1.shape[0],
        same_row(x1.data, x2.data, x1.shape[1] as nat, p),
    ensures
        r1.shape == seq![x1.shape[0], w.shape[1]],
        r2.shape == r1.shape,
        r1.data.len() == x1.shape[0] * w.shape[1],
        r2.data.len() == r1.data.len(),
        same_row(r1.data, r2.data, w.shape[1] as nat, p),
{
    let (m, k, n) = (x1.shape[0] as nat, x1.shape[1] as nat, w.shape[1] as nat);
    let t = tiled(bias.data, x1.shape[0]);
    let p1 = choose|q: TensorView| #[trigger]
        matmuls::<F>(x1, w, q) && crate::tensor::zips(
            |a: u32, b: u32, c: u32| adds::<F>(a, b, c),
            q,
            tiled(bias.data, x1.shape[0]),
            r1,
        );
    let p2 = choose|q: TensorView| #[trigger]
        matmuls::<F>(x2, w, q) && crate::tensor::zips(
            |a: u32, b: u32, c: u32| adds::<F>(a, b, c),
            q,
            tiled(bias.data, x2.shape[0]),
            r2,
        );
    assert forall|c: int| 0 <= c < n implies row_of(r1.data, n, p)[c] == row_of(
        r2.data,
        n,
        p,
    )[c] by {
        lemma_row_entry(r1.data, m, n, p, c);
        lemma_row_entry(r2.data, m, n, p, c);
        let e = p * n + c;
        assert(dots::<F>(row_of(x1.data, k, p), w.data, n as int, c, p1.data[p * n + c]));
        assert(dots::<F>(row_of(x2.data, k, p), w.data, n as int, c, p2.data[p * n + c]));
        lemma_dots_same::<F>(
            row_of(x1.data, k, p),
            w.data,
            w.data,
            n as int,
            c,
            p1.data[e],
            p2.data[e],
        );
        assert(adds::<F>(p1.data[e], t.data[e], r1.data[e]));
        assert(adds::<F>(p2.data[e], t.data[e], r2.data[e]));
    }
    lemma_row_bounds(m as int, n as int, p);
    assert(row_of(r1.data, n, p) =~= row_of(r2.data, n, p));
}

/// Splitting takes equal rows to equal rows of every head.
proof fn lemma_split_row(
    d1: Seq<u32>,
    d2: Seq<u32>,
    seq: nat,
    nh: nat,
    hd: nat,
    o1: Seq<u32>,
    o2: Seq<u32>,
    p: int,
    h: int,
)
    requires
        d1.len() == seq * (nh * hd),
        d2.len() == seq * (nh * hd),
        swaps(d1, seq, nh, hd, o1),
        swaps(d2, seq, nh, hd, o2),
        0 <= p < seq,
        0 <= h < nh,
        same_row(d1, d2, nh * hd, p),
    ensures
        same_row(o1, o2, hd, h * seq + p),
{
    lemma_nested_row(d1, seq, nh, hd, p, h);
    lemma_nested_row(d2, seq, nh, hd, p, h);
    assert(row_of(o1, hd, h * seq + p) == row_of(d1, hd, p * nh + h));
    assert(row_of(o2, hd, h * seq + p) == row_of(d2, hd, p * nh + h));
}

/// Merging takes rows that are equal in every head to equal rows.
proof fn lemma_merge_row(
    d1: Seq<u32>,
    d2: Seq<u32>,
    seq: nat,
    nh: nat,
    hd: nat,
    o1: Seq<u32>,
    o2: Seq<u32>,
    p: int,
)
    requires
        swaps(d1, nh, seq, hd, o1),
        swaps(d2, nh, seq, hd, o2),
        0 <= p < seq,
        forall|h: int| 0 <= h < nh ==> #[trigger] same_row(d1, d2, hd, h * seq + p),
    ensures
        o1.len() == seq * (nh * hd),
        o2.len() == seq * (nh * hd),
        same_row(o1, o2, nh * hd, p),
{
    assert((seq * nh) * hd == seq * (nh * hd)) by (nonlinear_arith);
    let r1 = row_of(o1, nh * hd, p);
    let r2 = row_of(o2, nh * hd, p);
    lemma_row_bounds(seq as int, (nh * hd) as int, p);
    assert forall|h: int| 0 <= h < nh implies #[trigger] row_of(r1, hd, h) == row_of(r2, hd, h) by {
        lemma_nested_row(o1, seq, nh, hd, p, h);
        lemma_nested_row(o2, seq, nh, hd, p, h);
        assert(row_of(o1, hd, p * nh + h) == row_of(d1, hd, h * seq + p));
        assert(row_of(o2, hd, p * nh + h) == row_of(d2, hd, h * seq + p));
        assert(same_row(d1, d2, hd, h * seq + p));
    }
    lemma_rows_determine(r1, r2, nh, hd);
}

// ── Scores, mask and context ─────────────────────────────────────────

/// Two runs over inputs that agree on the first rows, up to the split heads.
pub open spec fn heads_agree(
    t1: AttentionStages,
    t2: AttentionStages,
    seq: nat,
    nh: nat,
    hd: nat,
    i: int,
) -> bool {
    forall|h: int, p: int|
        0 <= h < nh && 0 <= p <= i ==> #[trigger] row_of(t1.qh.data, hd, h * seq + p) == row_of(
            t2.qh.data,
            hd,
            h * seq + p,
        ) && row_of(t1.kh.data, hd, h * seq + p) == row_of(t2.kh.data, hd, h * seq + p) && row_of(
            t1.vh.data,
            hd,
            h * seq + p,
        ) == row_of(t2.vh.data, hd, h * seq + p)
}

/// Nothing on the way overflows: the projected values and the scores are
/// finite, and no context entry is NaN.
pub open spec fn steady(t: AttentionStages) -> bool {
    &&& all_finite(t.v.data)
    &&& all_finite(t.scaled.data)
    &&& !any_nan(t.ctx.data)
}

/// Entry `c` of head `h` at position `j`, read from the transposed keys.
pub proof fn lemma_key_entry(kh: TensorView, kt: TensorView, h: int, j: int, c: int)
    requires
        kh.wf(),
        kt.wf(),
        kh.shape.len() == 3,
        transposes_planes(kh, kt),
        0 <= h < kh.shape[0],
        0 <= j < kh.shape[1],
        0 <= c < kh.shape[2],
    ensures
        plane(kt, h)[c * kh.shape[1] + j] == row_of(
            kh.data,
            kh.shape[2] as nat,
            h * kh.shape[1] + j,
        )[c],
{
    let (nh, seq, hd) = (kh.shape[0] as nat, kh.shape[1] as nat, kh.shape[2] as nat);
    lemma_numel_3(kh.shape);
    lemma_numel_3(kt.shape);
    assert(seq * hd == hd * seq) by (nonlinear_arith);
    let d = plane(kh, h);
    let o = plane(kt, h);
    lemma_nested_row(kh.data, nh, seq, hd, h, j);
    lemma_row_bounds(nh as int, (hd * seq) as int, h);
    assert(swaps(d, seq, hd, 1, o));
    assert(row_of(o, 1, c * seq + j) == row_of(d, 1, j * hd + c));
    lemma_entry_bounds(hd as int, seq as int, c, j);
    lemma_entry_bounds(seq as int, hd as int, j, c);
    assert(row_of(o, 1, c * seq + j)[0] == o[c * seq + j]);
    assert(row_of(d, 1, j * hd + c)[0] == d[j * hd + c]);
    lemma_row_entry(d, seq, hd, j, c);
}

/// The score of a query for an earlier key depends on their rows alone.
proof fn lemma_score_same<F: FloatUnit>(
    t1: AttentionStages,
    t2: AttentionStages,
    seq: usize,
    nh: usize,
    hd: usize,
    i: int,
    h: int,
    p: int,
    j: int,
)
    requires
        deterministic::<F>(),
        t1.wf(),
        t2.wf(),
        t1.qh.shape == seq![nh, seq, hd],
        t2.qh.shape == seq![nh, seq, hd],
        t1.kh.shape == seq![nh, seq, hd],
        t2.kh.shape == seq![nh, seq, hd],
        transposes_planes(t1.kh, t1.kt),
        transposes_planes(t2.kh, t2.kt),
        batched_matmuls::<F>(t1.qh, t1.kt, t1.scores),
        batched_matmuls::<F>(t2.qh, t2.kt, t2.scores),
        heads_agree(t1, t2, seq as nat, nh as nat, hd as nat, i),
        0 <= h < nh,
        0 <= j <= p <= i,
        i < seq,
    ensures
        plane(t1.scores, h)[p * seq + j] == plane(t2.scores, h)[p * seq + j],
{
    lemma_numel_3(t1.qh.shape);
    assert(seq * hd == hd * seq) by (nonlinear_arith);
    let row = row_of(plane(t1.qh, h), hd as nat, p);
    lemma_nested_row(t1.qh.data, nh as nat, seq as nat, hd as nat, h, p);
    lemma_nested_row(t2.qh.data, nh as nat, seq as nat, hd as nat, h, p);
    assert(row_of(t1.qh.data, hd as nat, h * seq + p) == row_of(t2.qh.data, hd as nat, h * seq + p));
    assert(row == row_of(plane(t2.qh, h), hd as nat, p));
    lemma_row_bounds(seq as int, hd as int, p);
    assert(row.len() == hd);
    let b1 = plane(t1.kt, h);
    let b2 = plane(t2.kt, h);
    assert(multiplies::<F>(
        plane(t1.qh, h),
        right_plane(t1.kt, h),
        seq as nat,
        hd as nat,
        seq as nat,
        plane(t1.scores, h),
    ));
    assert(multiplies::<F>(
        plane(t2.qh, h),
        right_plane(t2.kt, h),
        seq as nat,
        hd as nat,
        seq as nat,
        plane(t2.scores, h),
    ));
    assert forall|c: int| 0 <= c < row.len() implies #[trigger] b1[c * seq + j] == b2[c * seq
        + j] by {
        lemma_key_entry(t1.kh, t1.kt, h, j, c);
        lemma_key_entry(t2.kh, t2.kt, h, j, c);
        assert(row_of(t1.qh.data, hd as nat, h * seq + j) == row_of(
            t2.qh.data,
            hd as nat,
            h * seq + j,
        ));
    }
    lemma_dots_same::<F>(
        row,
        b1,
        b2,
        seq as int,
        j,
        plane(t1.scores, h)[p * seq + j],
        plane(t2.scores, h)[p * seq + j],
    );
}

pub proof fn lemma_inverse_root_same<F: FloatUnit>(n: usize, a: u32, b: u32)
    requires
        deterministic::<F>(),
        inverse_roots::<F>(n, a),
        inverse_roots::<F>(n, b),
    ensures
        a == b,
{
    let (c, r) = choose|c: u32, r: u32| #[trigger]
        counts::<F>(n, c) && #[trigger] sqrts::<F>(c, r) && divs::<F>(ONE, r, a);
    let (d, s) = choose|c: u32, r: u32| #[trigger]
        counts::<F>(n, c) && #[trigger] sqrts::<F>(c, r) && divs::<F>(ONE, r, b);
    assert(c == d);
    assert(r == s);
    assert(divs::<F>(ONE, r, a) && divs::<F>(ONE, r, b));
}

/// Entry `e` of matrix `h` of a `[nh, seq, seq]` tensor.
pub proof fn lemma_square_entry(t: TensorView, nh: usize, seq: usize, h: int, p: int, j: int)
    requires
        t.wf(),
        t.shape == seq![nh, seq, seq],
        0 <= h < nh,
        0 <= p < seq,
        0 <= j < seq,
    ensures
        plane(t, h)[p * seq + j] == row_of(t.data, seq as nat, h * seq + p)[j],
        plane(t, h)[p * seq + j] == t.data[h * (seq * seq) + (p * seq + j)],
        0 <= h * (seq * seq) + (p * seq + j) < t.data.len(),
        plane(t, h).len() == seq * seq,
        0 <= p * seq + j < seq * seq,
        row_of(t.data, seq as nat, h * seq + p).len() == seq,
        0 <= h * seq + p < nh * seq,
{
    lemma_numel_3(t.shape);
    lemma_nested_row(t.data, nh as nat, seq as nat, seq as nat, h, p);
    lemma_row_entry(plane(t, h), seq as nat, seq as nat, p, j);
    lemma_row_entry(t.data, nh as nat, (seq * seq) as nat, h, p * seq + j);
}

/// One masked score.
pub proof fn lemma_masked_entry<F: FloatUnit>(
    a: MultiHeadAttention,
    x: TensorView,
    t: AttentionStages,
    r: TensorView,
    h: int,
    p: int,
    j: int,
)
    requires
        exact_on_zero::<F>(),
        a.staged::<F>(x, t, r),
        steady(t),
        0 <= h < a.num_heads,
        0 <= p < x.shape[0],
        0 <= j < x.shape[0],
    ensures
        t.scores.shape == seq![a.num_heads, x.shape[0], x.shape[0]],
        t.scaled.shape == t.scores.shape,
        t.masked.shape == t.scores.shape,
        muls::<F>(
            plane(t.scores, h)[p * x.shape[0] + j],
            t.scale,
            plane(t.scaled, h)[p * x.shape[0] + j],
        ),
        adds::<F>(
            plane(t.scaled, h)[p * x.shape[0] + j],
            if j <= p { ZERO } else { NEG_INFINITY },
            plane(t.masked, h)[p * x.shape[0] + j],
        ),
        j <= p ==> finite(row_of(t.masked.data, x.shape[0] as nat, h * x.shape[0] + p)[j]),
        j > p ==> row_of(t.masked.data, x.shape[0] as nat, h * x.shape[0] + p)[j] == NEG_INFINITY,
{
    let (seq, nh) = (x.shape[0], a.num_heads);
    assert(t.scores.shape =~= seq![nh, seq, seq]);
    lemma_square_entry(t.scores, nh, seq, h, p, j);
    lemma_square_entry(t.scaled, nh, seq, h, p, j);
    lemma_square_entry(t.masked, nh, seq, h, p, j);
    let e = p * seq + j;
    let g = h * (seq * seq) + e;
    assert(muls::<F>(t.scores.data[g], t.scale, t.scaled.data[g]));
    law_causal_mask(seq, p, j);
    assert(causal(seq).data.len() == seq * seq);
    assert(masks::<F>(t.scaled, causal(seq), t.masked));
    assert(adds::<F>(plane(t.scaled, h)[e], causal(seq).data[e], plane(t.masked, h)[e]));
    assert(finite(t.scaled.data[g]));
}

/// Rows of masked scores agree.
proof fn lemma_masked_row_same<F: FloatUnit>(
    a: MultiHeadAttention,
    x1: TensorView,
    x2: TensorView,
    t1: AttentionStages,
    t2: AttentionStages,
    r1: TensorView,
    r2: TensorView,
    i: int,
    h: int,
    p: int,
)
    requires
        deterministic::<F>(),
        exact_on_zero::<F>(),
        x1.shape == x2.shape,
        a.staged::<F>(x1, t1, r1),
        a.staged::<F>(x2, t2, r2),
        steady(t1),
        steady(t2),
        heads_agree(t1, t2, x1.shape[0] as nat, a.num_heads as nat, a.head_dim as nat, i),
        0 <= h < a.num_heads,
        0 <= p <= i,
        i < x1.shape[0],
    ensures
        same_row(t1.masked.data, t2.masked.data, x1.shape[0] as nat, h * x1.shape[0] + p),
        row_of(t1.masked.data, x1.shape[0] as nat, h * x1.shape[0] + p).len() == x1.shape[0],
{
    let (seq, nh, hd) = (x1.shape[0], a.num_heads, a.head_dim);
    let m1 = row_of(t1.masked.data, seq as nat, h * seq + p);
    let m2 = row_of(t2.masked.data, seq as nat, h * seq + p);
    lemma_masked_entry::<F>(a, x1, t1, r1, h, p, p);
    lemma_masked_entry::<F>(a, x2, t2, r2, h, p, p);
    lemma_square_entry(t1.masked, nh, seq, h, p, p);
    lemma_square_entry(t2.masked, nh, seq, h, p, p);
    lemma_inverse_root_same::<F>(hd, t1.scale, t2.scale);
    assert forall|j: int| 0 <= j < seq implies m1[j] == m2[j] by {
        lemma_masked_entry::<F>(a, x1, t1, r1, h, p, j);
        lemma_masked_entry::<F>(a, x2, t2, r2, h, p, j);
        lemma_square_entry(t1.masked, nh, seq, h, p, j);
        lemma_square_entry(t2.masked, nh, seq, h, p, j);
        if j <= p {
            lemma_score_same::<F>(t1, t2, seq, nh, hd, i, h, p, j);
            let e = p * seq + j;
            assert(plane(t1.scaled, h)[e] == plane(t2.scaled, h)[e]);
        }
    }
    assert(m1 =~= m2);
}

/// Weights of later positions vanish.
proof fn lemma_weight_vanishes<F: FloatUnit>(
    a: MultiHeadAttention,
    x: TensorView,
    t: AttentionStages,
    r: TensorView,
    h: int,
    p: int,
    j: int,
)
    requires
        orderly::<F>(),
        exact_on_zero::<F>(),
        a.staged::<F>(x, t, r),
        steady(t),
        0 <= h < a.num_heads,
        0 <= p < j,
        j < x.shape[0],
    ensures
        row_of(t.attn.data, x.shape[0] as nat, h * x.shape[0] + p)[j] == ZERO,
{
    let (seq, nh) = (x.shape[0], a.num_heads);
    let row = row_of(t.masked.data, seq as nat, h * seq + p);
    lemma_masked_entry::<F>(a, x, t, r, h, p, p);
    lemma_masked_entry::<F>(a, x, t, r, h, p, j);
    lemma_square_entry(t.masked, nh, seq, h, p, p);
    assert forall|c: int| 0 <= c < row.len() implies !nan(#[trigger] row[c]) && row[c]
        != INFINITY by {
        lemma_masked_entry::<F>(a, x, t, r, h, p, c);
    }
    assert(!any_nan(row));
    assert(!row.contains(INFINITY));
    assert(row[p] != constant(row.len(), NEG_INFINITY)[p]);
    assert(maskable(row));
    law_orderly_masks_out::<F>(row);
    assert(softmaxes::<F>(row, row_of(t.attn.data, seq as nat, h * seq + p)));
    law_softmax_masked_entry::<F>(row, row_of(t.attn.data, seq as nat, h * seq + p), j);
}

/// A partial sum that later terms of zero leave as it is.
proof fn lemma_trace_settles<F: FloatUnit>(
    w: Seq<u32>,
    b: Seq<u32>,
    n: int,
    c: int,
    trace: Seq<u32>,
    from: int,
    k: int,
)
    requires
        exact_on_zero::<F>(),
        traces(dot_step::<F>(w, b, n, c), ZERO, w.len(), trace),
        !nan(trace[w.len() as int]),
        0 <= from <= k <= w.len(),
        forall|j: int|
            from <= j < w.len() ==> #[trigger] w[j] == ZERO && finite(b[j * n + c]),
    ensures
        trace[k] == trace[from],
    decreases k - from,
{
    if k > from {
        lemma_trace_settles::<F>(w, b, n, c, trace, from, k - 1);
        lemma_trace_not_nan::<F>(w, b, n, c, trace, k - 1);
        lemma_trace_not_negative_zero::<F>(w, b, n, c, trace, k - 1);
        assert(linked(dot_step::<F>(w, b, n, c), trace, k - 1));
        assert(w[k - 1] == ZERO);
        let s = choose|s: u32| #[trigger]
            muls::<F>(w[k - 1], b[(k - 1) * n + c], s) && adds::<F>(trace[k - 1], s, trace[k]);
        assert(magnitude(s) == 0);
    }
}

/// A NaN on the way would be one at the end.
proof fn lemma_trace_not_nan<F: FloatUnit>(
    w: Seq<u32>,
    b: Seq<u32>,
    n: int,
    c: int,
    trace: Seq<u32>,
    k: int,
)
    requires
        exact_on_zero::<F>(),
        traces(dot_step::<F>(w, b, n, c), ZERO, w.len(), trace),
        !nan(trace[w.len() as int]),
        0 <= k <= w.len(),
    ensures
        !nan(trace[k]),
    decreases w.len() - k,
{
    if k < w.len() {
        lemma_trace_not_nan::<F>(w, b, n, c, trace, k + 1);
        assert(linked(dot_step::<F>(w, b, n, c), trace, k));
        let s = choose|s: u32| #[trigger]
            muls::<F>(w[k], b[k * n + c], s) && adds::<F>(trace[k], s, trace[k + 1]);
        assert(adds::<F>(trace[k], s, trace[k + 1]));
    }
}

/// A sum started at zero is never negative zero.
proof fn lemma_trace_not_negative_zero<F: FloatUnit>(
    w: Seq<u32>,
    b: Seq<u32>,
    n: int,
    c: int,
    trace: Seq<u32>,
    k: int,
)
    requires
        exact_on_zero::<F>(),
        traces(dot_step::<F>(w, b, n, c), ZERO, w.len(), trace),
        0 <= k <= w.len(),
    ensures
        trace[k] != NEG_ZERO,
    decreases k,
{
    if k > 0 {
        lemma_trace_not_negative_zero::<F>(w, b, n, c, trace, k - 1);
        assert(linked(dot_step::<F>(w, b, n, c), trace, k - 1));
        let s = choose|s: u32| #[trigger]
            muls::<F>(w[k - 1], b[(k - 1) * n + c], s) && adds::<F>(trace[k - 1], s, trace[k]);
        if trace[k] == NEG_ZERO {
            assert(adds::<F>(trace[k - 1], s, NEG_ZERO));
        }
    }
}

/// Weighted sums that agree up to `from` and have no weight behind it are equal.
proof fn lemma_context_entry_same<F: FloatUnit>(
    w: Seq<u32>,
    b1: Seq<u32>,
    b2: Seq<u32>,
    n: int,
    c: int,
    from: int,
    u: u32,
    v: u32,
)
    requires
        deterministic::<F>(),
        exact_on_zero::<F>(),
        dots::<F>(w, b1, n, c, u),
        dots::<F>(w, b2, n, c, v),
        !nan(u),
        !nan(v),
        0 <= from <= w.len(),
        forall|j: int| 0 <= j < from ==> #[trigger] b1[j * n + c] == b2[j * n + c],
        forall|j: int|
            from <= j < w.len() ==> #[trigger] w[j] == ZERO && finite(b1[j * n + c]) && finite(
                b2[j * n + c],
            ),
    ensures
        u == v,
{
    let s1 = dot_step::<F>(w, b1, n, c);
    let s2 = dot_step::<F>(w, b2, n, c);
    let t1 = choose|t: Seq<u32>| #[trigger]
        traces(s1, ZERO, w.len(), t) && t[w.len() as int] == u;
    let t2 = choose|t: Seq<u32>| #[trigger]
        traces(s2, ZERO, w.len(), t) && t[w.len() as int] == v;
    assert forall|j: int, p: u32, q1: u32, q2: u32|
        0 <= j < from && #[trigger] s1(j, p, q1) && #[trigger] s2(j, p, q2) implies q1 == q2 by {
        assert(b1[j * n + c] == b2[j * n + c]);
        lemma_accumulates_same::<F>(w[j], b1[j * n + c], p, q1, q2);
    }
    lemma_traces_match(s1, s2, ZERO, w.len(), t1, t2, from);
    lemma_trace_settles::<F>(w, b1, n, c, t1, from, w.len() as int);
    lemma_trace_settles::<F>(w, b2, n, c, t2, from, w.len() as int);
}

/// Value `c` of head `h` at position `j`, read from the matrix of that head.
pub proof fn lemma_value_entry(vh: TensorView, nh: usize, seq: usize, hd: usize, h: int, j: int, c: int)
    requires
        vh.wf(),
        vh.shape == seq![nh, seq, hd],
        0 <= h < nh,
        0 <= j < seq,
        0 <= c < hd,
    ensures
        plane(vh, h)[j * hd + c] == row_of(vh.data, hd as nat, h * seq + j)[c],
        row_of(vh.data, hd as nat, h * seq + j).len() == hd,
{
    lemma_numel_3(vh.shape);
    lemma_nested_row(vh.data, nh as nat, seq as nat, hd as nat, h, j);
    lemma_row_entry(plane(vh, h), seq as nat, hd as nat, j, c);
}

/// Splitting keeps values finite.
proof fn lemma_split_finite(
    d: Seq<u32>,
    seq: nat,
    nh: nat,
    hd: nat,
    o: Seq<u32>,
    h: int,
    j: int,
    c: int,
)
    requires
        d.len() == seq * (nh * hd),
        swaps(d, seq, nh, hd, o),
        all_finite(d),
        0 <= h < nh,
        0 <= j < seq,
        0 <= c < hd,
    ensures
        finite(row_of(o, hd, h * seq + j)[c]),
{
    assert(row_of(o, hd, h * seq + j) == row_of(d, hd, j * nh + h));
    lemma_nested_row(d, seq, nh, hd, j, h);
    lemma_row_entry(d, seq * nh, hd, j * nh + h, c);
}

/// Rows of the context agree.
proof fn lemma_context_row_same<F: FloatUnit>(
    a: MultiHeadAttention,
    x1: TensorView,
    x2: TensorView,
    t1: AttentionStages,
    t2: AttentionStages,
    r1: TensorView,
    r2: TensorView,
    i: int,
    h: int,
    p: int,
)
    requires
        deterministic::<F>(),
        orderly::<F>(),
        exact_on_zero::<F>(),
        x1.shape == x2.shape,
        a.staged::<F>(x1, t1, r1),
        a.staged::<F>(x2, t2, r2),
        steady(t1),
        steady(t2),
        heads_agree(t1, t2, x1.shape[0] as nat, a.num_heads as nat, a.head_dim as nat, i),
        t1.v.data.len() == x1.shape[0] * (a.num_heads * a.head_dim),
        t2.v.data.len() == x1.shape[0] * (a.num_heads * a.head_dim),
        0 <= h < a.num_heads,
        0 <= p <= i,
        i < x1.shape[0],
    ensures
        same_row(t1.ctx.data, t2.ctx.data, a.head_dim as nat, h * x1.shape[0] + p),
{
    let (seq, nh, hd) = (x1.shape[0], a.num_heads, a.head_dim);
    lemma_masked_row_same::<F>(a, x1, x2, t1, t2, r1, r2, i, h, p);
    lemma_masked_entry::<F>(a, x1, t1, r1, h, p, p);
    lemma_masked_entry::<F>(a, x2, t2, r2, h, p, p);
    lemma_square_entry(t1.attn, nh, seq, h, p, p);
    lemma_square_entry(t2.attn, nh, seq, h, p, p);
    let q = h * seq + p;
    let w = row_of(t1.attn.data, seq as nat, q);
    assert(softmaxes::<F>(row_of(t1.masked.data, seq as nat, q), w));
    assert(softmaxes::<F>(
        row_of(t2.masked.data, seq as nat, q),
        row_of(t2.attn.data, seq as nat, q),
    ));
    law_softmax_deterministic::<F>(
        row_of(t1.masked.data, seq as nat, q),
        w,
        row_of(t2.attn.data, seq as nat, q),
    );
    assert(t1.ctx.shape =~= seq![nh, seq, hd]);
    assert(t2.ctx.shape =~= seq![nh, seq, hd]);
    lemma_numel_3(t1.ctx.shape);
    lemma_numel_3(t1.attn.shape);
    lemma_nested_row(t1.attn.data, nh as nat, seq as nat, seq as nat, h, p);
    lemma_nested_row(t2.attn.data, nh as nat, seq as nat, seq as nat, h, p);
    lemma_nested_row(t1.ctx.data, nh as nat, seq as nat, hd as nat, h, p);
    lemma_nested_row(t2.ctx.data, nh as nat, seq as nat, hd as nat, h, p);
    let b1 = plane(t1.vh, h);
    let b2 = plane(t2.vh, h);
    assert(multiplies::<F>(
        plane(t1.attn, h),
        right_plane(t1.vh, h),
        seq as nat,
        seq as nat,
        hd as nat,
        plane(t1.ctx, h),
    ));
    assert(multiplies::<F>(
        plane(t2.attn, h),
        right_plane(t2.vh, h),
        seq as nat,
        seq as nat,
        hd as nat,
        plane(t2.ctx, h),
    ));
    let c1 = row_of(t1.ctx.data, hd as nat, q);
    let c2 = row_of(t2.ctx.data, hd as nat, q);
    assert forall|c: int| 0 <= c < hd implies c1[c] == c2[c] by {
        lemma_value_entry(t1.ctx, nh, seq, hd, h, p, c);
        lemma_value_entry(t2.ctx, nh, seq, hd, h, p, c);
        lemma_row_entry(t1.ctx.data, (nh * seq) as nat, hd as nat, q, c);
        lemma_row_entry(t2.ctx.data, (nh * seq) as nat, hd as nat, q, c);
        assert(!nan(t1.ctx.data[q * hd + c]) && !nan(t2.ctx.data[q * hd + c]));
        assert forall|j: int| 0 <= j < p + 1 implies #[trigger] b1[j * hd + c] == b2[j * hd + c] by {
            lemma_value_entry(t1.vh, nh, seq, hd, h, j, c);
            lemma_value_entry(t2.vh, nh, seq, hd, h, j, c);
            assert(row_of(t1.qh.data, hd as nat, h * seq + j) == row_of(
                t2.qh.data,
                hd as nat,
                h * seq + j,
            ));
        }
        assert forall|j: int| p + 1 <= j < w.len() implies #[trigger] w[j] == ZERO && finite(
            b1[j * hd + c],
        ) && finite(b2[j * hd + c]) by {
            lemma_weight_vanishes::<F>(a, x1, t1, r1, h, p, j);
            lemma_value_entry(t1.vh, nh, seq, hd, h, j, c);
            lemma_value_entry(t2.vh, nh, seq, hd, h, j, c);
            lemma_split_finite(
                t1.v.data,
                seq as nat,
                nh as nat,
                hd as nat,
                t1.vh.data,
                h,
                j,
                c,
            );
            lemma_split_finite(
                t2.v.data,
                seq as nat,
                nh as nat,
                hd as nat,
                t2.vh.data,
                h,
                j,
                c,
            );
        }
        lemma_context_entry_same::<F>(
            w,
            b1,
            b2,
            hd as int,
            c,
            p + 1,
            plane(t1.ctx, h)[p * hd + c],
            plane(t2.ctx, h)[p * hd + c],
        );
    }
    lemma_row_bounds((nh * seq) as int, hd as int, q);
    assert(c1 =~= c2);
}

// ── The law ──────────────────────────────────────────────────────────

impl MultiHeadAttention {
    /// No pass over `x` overflows on the way.
    pub open spec fn overflow_free<F: FloatUnit>(&self, x: TensorView) -> bool {
        forall|t: AttentionStages, r: TensorView| #[trigger] self.staged::<F>(x, t, r) ==> steady(t)
    }
}

/// No later position influences an earlier output row: outputs for inputs that
/// agree on rows `0..=i` agree on those rows, given a unit that is orderly and
/// exact on zero, and inputs on which nothing overflows.
pub proof fn law_attention_is_causal<F: FloatUnit>(
    a: MultiHeadAttention,
    x1: TensorView,
    x2: TensorView,
    r1: TensorView,
    r2: TensorView,
    i: int,
    p: int,
)
    requires
        deterministic::<F>(),
        orderly::<F>(),
        exact_on_zero::<F>(),
        a.wire_error() is None,
        x1.wf(),
        x2.wf(),
        x1.shape.len() == 2,
        x1.shape[1] == a.dim,
        x2.shape == x1.shape,
        a.attends::<F>(x1, r1),
        a.attends::<F>(x2, r2),
        a.overflow_free::<F>(x1),
        a.overflow_free::<F>(x2),
        0 <= p <= i,
        i < x1.shape[0],
        forall|q: int| 0 <= q <= i ==> #[trigger] x1.row(q) == x2.row(q),
    ensures
        r1.shape == x1.shape,
        r2.shape == x1.shape,
        r1.row(p) == r2.row(p),
{
    let (seq, nh, hd, dim) = (x1.shape[0], a.num_heads, a.head_dim, a.dim);
    let t1 = choose|t: AttentionStages| a.staged::<F>(x1, t, r1);
    let t2 = choose|t: AttentionStages| a.staged::<F>(x2, t, r2);
    assert(a.staged::<F>(x1, t1, r1) && a.staged::<F>(x2, t2, r2));
    assert(steady(t1) && steady(t2));
    assert forall|h: int, q: int| 0 <= h < nh && 0 <= q <= i implies #[trigger] row_of(
        t1.qh.data,
        hd as nat,
        h * seq + q,
    ) == row_of(t2.qh.data, hd as nat, h * seq + q) && row_of(
        t1.kh.data,
        hd as nat,
        h * seq + q,
    ) == row_of(t2.kh.data, hd as nat, h * seq + q) && row_of(
        t1.vh.data,
        hd as nat,
        h * seq + q,
    ) == row_of(t2.vh.data, hd as nat, h * seq + q) by {
        assert(x1.row(q) == x2.row(q));
        lemma_linear_row::<F>(x1, x2, a.wq@, a.wb_q@, t1.q, t2.q, q);
        lemma_linear_row::<F>(x1, x2, a.wk@, a.wb_k@, t1.k, t2.k, q);
        lemma_linear_row::<F>(x1, x2, a.wv@, a.wb_v@, t1.v, t2.v, q);
        let (s, n, d) = (seq as nat, nh as nat, hd as nat);
        lemma_split_row(t1.q.data, t2.q.data, s, n, d, t1.qh.data, t2.qh.data, q, h);
        lemma_split_row(t1.k.data, t2.k.data, s, n, d, t1.kh.data, t2.kh.data, q, h);
        lemma_split_row(t1.v.data, t2.v.data, s, n, d, t1.vh.data, t2.vh.data, q, h);
    }
    assert(heads_agree(t1, t2, seq as nat, nh as nat, hd as nat, i));
    assert(x1.row(p) == x2.row(p));
    lemma_linear_row::<F>(x1, x2, a.wv@, a.wb_v@, t1.v, t2.v, p);
    assert forall|h: int| 0 <= h < nh implies #[trigger] same_row(
        t1.ctx.data,
        t2.ctx.data,
        hd as nat,
        h * seq + p,
    ) by {
        lemma_context_row_same::<F>(a, x1, x2, t1, t2, r1, r2, i, h, p);
    }
    lemma_merge_row(
        t1.ctx.data,
        t2.ctx.data,
        seq as nat,
        nh as nat,
        hd as nat,
        t1.merged.data,
        t2.merged.data,
        p,
    );
    lemma_linear_row::<F>(t1.merged, t2.merged, a.wo@, a.wb_o@, r1, r2, p);
    assert(r1.shape =~= x1.shape);
}

/// Fresh attention accepts both inputs and is causal on them.
pub proof fn law_fresh_attention_is_causal<F: FloatUnit>(
    a: MultiHeadAttention,
    dim: usize,
    num_heads: usize,
    x1: TensorView,
    x2: TensorView,
    r1: TensorView,
    r2: TensorView,
    i: int,
    p: int,
)
    requires
        deterministic::<F>(),
        orderly::<F>(),
        exact_on_zero::<F>(),
        new_attention_error(dim, num_heads) is None,
        a.wf(),
        a.fresh::<F>(dim, num_heads),
        x1.wf(),
        x2.wf(),
        x1.shape.len() == 2,
        x1.shape[1] == dim,
        x2.shape == x1.shape,
        alloc_error(x1.shape) is None,
        a.core_error(x1.shape[0]) is None,
        a.attends::<F>(x1, r1),
        a.attends::<F>(x2, r2),
        a.overflow_free::<F>(x1),
        a.overflow_free::<F>(x2),
        0 <= p <= i,
        i < x1.shape[0],
        forall|q: int| 0 <= q <= i ==> #[trigger] x1.row(q) == x2.row(q),
    ensures
        a.forward_error(x1.shape) is None,
        a.forward_error(x2.shape) is None,
        r1.shape == x1.shape,
        r2.shape == x1.shape,
        r1.row(p) == r2.row(p),
{
    law_fresh_attention_valid::<F>(a, dim, num_heads);
    assert(x1.shape =~= seq![x1.shape[0], a.dim]);
    law_valid_attention_accepts(a, x1.shape[0]);
    law_attention_is_causal::<F>(a, x1, x2, r1, r2, i, p);
}

} // verus!
