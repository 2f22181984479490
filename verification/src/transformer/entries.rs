//! What every layer computes, entry by entry, from its input and its weights.

use vstd::prelude::*;
use crate::float::{FloatUnit, adds, counts, divs, muls, sqrts};
use crate::ieee::{NEG_INFINITY, ONE, ZERO};
use crate::tensor::{TensorView, gelus, zips};
use crate::tensor::entries::{
    column, inner, law_batch_entries, law_matmul_entries, lemma_entry_of_row,
};
use crate::tensor::finite::softmaxes;
use crate::tensor::laws::law_causal_mask;
use crate::tensor::layout::{lemma_numel_2, lemma_numel_3};
use crate::tensor::ops::{causal, matmuls, plane};
use crate::tensor::rows::{lemma_entry_bounds, lemma_entry_position, lemma_row_bounds, row_of};
use crate::transformer::attention::{AttentionStages, MultiHeadAttention, masks};
use crate::transformer::block::FeedForward;
use crate::transformer::causal::{
    lemma_key_entry, lemma_nested_row, lemma_square_entry, lemma_value_entry,
};
use crate::transformer::linear::{linears, tiled};

verus! {

/// `r` is the product of a row and column `c` of `w`, plus entry `c` of the bias.
pub open spec fn projects<F: FloatUnit>(
    row: Seq<u32>,
    w: TensorView,
    bias: Seq<u32>,
    c: int,
    r: u32,
) -> bool {
    exists|acc: u32| #[trigger] inner::<F>(row, column(w, c), acc) && adds::<F>(acc, bias[c], r)
}

/// Entry `(p, c)` of an affine map is row `p` times column `c` plus bias `c`.
pub proof fn law_linear_entries<F: FloatUnit>(
    x: TensorView,
    w: TensorView,
    bias: TensorView,
    r: TensorView,
    p: int,
    c: int,
)
    requires
        x.shape.len() == 2,
        x.data.len() == x.shape[0] * x.shape[1],
        w.shape.len() == 2,
        w.shape[0] == x.shape[1],
        bias.data.len() == w.shape[1],
        linears::<F>(x, w, bias, r),
        0 <= p < x.shape[0],
        0 <= c < w.shape[1],
    ensures
        r.shape == seq![x.shape[0], w.shape[1]],
        r.data.len() == x.shape[0] * w.shape[1],
        projects::<F>(x.row(p), w, bias.data, c, r.at(p, c)),
{
    let m = choose|m: TensorView| #[trigger]
        matmuls::<F>(x, w, m) && zips(
            |a: u32, b: u32, c: u32| adds::<F>(a, b, c),
            m,
            tiled(bias.data, x.shape[0]),
            r,
        );
    law_matmul_entries::<F>(x, w, m, p, c);
    let n = w.shape[1] as int;
    let e = p * n + c;
    lemma_entry_bounds(x.shape[0] as int, n, p, c);
    lemma_entry_position(n, p, c);
    let tiles = tiled(bias.data, x.shape[0]);
    assert(tiles.data[e] == bias.data[c]);
    assert(adds::<F>(m.data[e], tiles.data[e], r.data[e]));
}

// ── Feed-forward networks ────────────────────────────────────────────

/// A feed-forward network projects every row by its first matrix and bias, puts
/// every entry through the GELU, and projects by its second matrix and bias.
/// Gives the entries before and behind the GELU.
pub proof fn law_feed_forward_entries<F: FloatUnit>(
    f: FeedForward,
    x: TensorView,
    r: TensorView,
) -> (t: (TensorView, TensorView))
    requires
        f.wf(),
        f.own_wire_error() is None,
        x.wf(),
        x.shape.len() == 2,
        x.shape[1] == f.w1@.shape[0],
        f.feeds::<F>(x, r),
    ensures
        t.0.shape == seq![x.shape[0], f.w1@.shape[1]],
        t.1.shape == t.0.shape,
        r.shape == x.shape,
        t.0.data.len() == x.shape[0] * f.w1@.shape[1],
        t.1.data.len() == t.0.data.len(),
        f.staged::<F>(x, t.0, t.1, r),
        forall|p: int, c: int|
            0 <= p < x.shape[0] && 0 <= c < f.w1@.shape[1] ==> projects::<F>(
                x.row(p),
                f.w1@,
                f.b1@.data,
                c,
                #[trigger] t.0.at(p, c),
            ),
        forall|p: int, c: int|
            0 <= p < x.shape[0] && 0 <= c < f.w1@.shape[1] ==> gelus::<F>(
                t.0.at(p, c),
                #[trigger] t.1.at(p, c),
            ),
        forall|p: int, c: int|
            0 <= p < x.shape[0] && 0 <= c < x.shape[1] ==> projects::<F>(
                t.1.row(p),
                f.w2@,
                f.b2@.data,
                c,
                #[trigger] r.at(p, c),
            ),
{
    let (h, g) = choose|h: TensorView, g: TensorView| f.staged::<F>(x, h, g, r);
    let (s, n, d) = (x.shape[0] as int, f.w1@.shape[1] as int, x.shape[1] as int);
    lemma_numel_2(f.b1@.shape);
    assert(f.b1@.data.len() == 1 * n);
    lemma_numel_2(f.b2@.shape);
    lemma_numel_2(x.shape);
    let m = choose|m: TensorView| #[trigger]
        matmuls::<F>(x, f.w1@, m) && zips(
            |a: u32, b: u32, c: u32| adds::<F>(a, b, c),
            m,
            tiled(f.b1@.data, x.shape[0]),
            h,
        );
    assert(h.shape == seq![x.shape[0], f.w1@.shape[1]]);
    lemma_numel_2(h.shape);
    assert(h.data.len() == s * n);
    assert(f.w1@.wf());
    assert(g.data.len() == s * n);
    assert forall|p: int, c: int| 0 <= p < s && 0 <= c < n implies projects::<F>(
        x.row(p),
        f.w1@,
        f.b1@.data,
        c,
        #[trigger] h.at(p, c),
    ) by {
        law_linear_entries::<F>(x, f.w1@, f.b1@, h, p, c);
    }
    assert forall|p: int, c: int| 0 <= p < s && 0 <= c < n implies gelus::<F>(
        h.at(p, c),
        #[trigger] g.at(p, c),
    ) by {
        lemma_entry_bounds(s, n, p, c);
        assert(gelus::<F>(h.data[p * n + c], g.data[p * n + c]));
    }
    let k = choose|k: TensorView| #[trigger]
        matmuls::<F>(g, f.w2@, k) && zips(
            |a: u32, b: u32, c: u32| adds::<F>(a, b, c),
            k,
            tiled(f.b2@.data, g.shape[0]),
            r,
        );
    assert(r.shape =~= x.shape);
    assert forall|p: int, c: int| 0 <= p < s && 0 <= c < d implies projects::<F>(
        g.row(p),
        f.w2@,
        f.b2@.data,
        c,
        #[trigger] r.at(p, c),
    ) by {
        law_linear_entries::<F>(g, f.w2@, f.b2@, r, p, c);
    }
    (h, g)
}

// ── Attention ────────────────────────────────────────────────────────

/// The entries of head `h` in a row of heads of width `hd`.
pub open spec fn head_of(row: Seq<u32>, hd: nat, h: int) -> Seq<u32> {
    row.subrange(h * hd, h * hd + hd)
}

/// `r` is the product of a query and a key, times `scale`, plus `mask`.
pub open spec fn scored<F: FloatUnit>(
    query: Seq<u32>,
    key: Seq<u32>,
    scale: u32,
    mask: u32,
    r: u32,
) -> bool {
    exists|dot: u32, scaled: u32| #[trigger]
        inner::<F>(query, key, dot) && #[trigger] muls::<F>(dot, scale, scaled) && adds::<F>(
            scaled,
            mask,
            r,
        )
}

/// The scores of position `p` in head `h`, for every position.
pub open spec fn scores_of(t: AttentionStages, seq: usize, h: int, p: int) -> Seq<u32> {
    row_of(t.masked.data, seq as nat, h * seq + p)
}

/// The weights position `p` gives to every position in head `h`.
pub open spec fn weights_of(t: AttentionStages, seq: usize, h: int, p: int) -> Seq<u32> {
    row_of(t.attn.data, seq as nat, h * seq + p)
}

/// The projections of an attention pass: queries by `wq` and `wb_q`, keys by
/// `wk` and `wb_k`, values by `wv` and `wb_v`, the output from the context by
/// `wo` and `wb_o`.
pub proof fn lemma_attention_projections<F: FloatUnit>(
    a: MultiHeadAttention,
    x: TensorView,
    t: AttentionStages,
    r: TensorView,
    p: int,
    c: int,
)
    requires
        a.wf(),
        a.wire_error() is None,
        x.wf(),
        x.shape.len() == 2,
        x.shape[1] == a.dim,
        a.staged::<F>(x, t, r),
        0 <= p < x.shape[0],
        0 <= c < a.dim,
    ensures
        t.q.shape == x.shape,
        t.k.shape == x.shape,
        t.v.shape == x.shape,
        t.merged.shape == x.shape,
        r.shape == x.shape,
        t.q.data.len() == x.shape[0] * a.dim,
        t.k.data.len() == x.shape[0] * a.dim,
        t.v.data.len() == x.shape[0] * a.dim,
        t.merged.data.len() == x.shape[0] * a.dim,
        r.data.len() == x.shape[0] * a.dim,
        projects::<F>(x.row(p), a.wq@, a.wb_q@.data, c, t.q.at(p, c)),
        projects::<F>(x.row(p), a.wk@, a.wb_k@.data, c, t.k.at(p, c)),
        projects::<F>(x.row(p), a.wv@, a.wb_v@.data, c, t.v.at(p, c)),
        projects::<F>(t.merged.row(p), a.wo@, a.wb_o@.data, c, r.at(p, c)),
{
    lemma_numel_2(x.shape);
    lemma_numel_2(a.wb_q@.shape);
    lemma_numel_2(t.merged.shape);
    law_linear_entries::<F>(x, a.wq@, a.wb_q@, t.q, p, c);
    law_linear_entries::<F>(x, a.wk@, a.wb_k@, t.k, p, c);
    law_linear_entries::<F>(x, a.wv@, a.wb_v@, t.v, p, c);
    assert(t.q.shape =~= x.shape && t.k.shape =~= x.shape && t.v.shape =~= x.shape);
    assert(t.merged.shape =~= x.shape);
    law_linear_entries::<F>(t.merged, a.wo@, a.wb_o@, r, p, c);
    assert(r.shape =~= x.shape);
}

/// Head `h` of row `p`, read from the split heads.
proof fn lemma_head_row(
    d: TensorView,
    seq: usize,
    nh: usize,
    hd: usize,
    split: TensorView,
    h: int,
    p: int,
)
    requires
        d.shape == seq![seq, (nh * hd) as usize],
        d.data.len() == seq * (nh * hd),
        nh * hd <= usize::MAX,
        crate::transformer::heads::swaps(d.data, seq as nat, nh as nat, hd as nat, split.data),
        0 <= h < nh,
        0 <= p < seq,
    ensures
        row_of(split.data, hd as nat, h * seq + p) == head_of(d.row(p), hd as nat, h),
        head_of(d.row(p), hd as nat, h).len() == hd,
        0 <= h * hd,
        h * hd + hd <= nh * hd,
        d.row(p).len() == nh * hd,
{
    lemma_nested_row(d.data, seq as nat, nh as nat, hd as nat, p, h);
    lemma_row_bounds(nh as int, hd as int, h);
    lemma_row_bounds(seq as int, (nh * hd) as int, p);
}

/// The score of position `p` for position `j` in head `h` is the product of the
/// query of `p` and the key of `j` in that head over the root of the head width;
/// later positions are masked.
pub proof fn lemma_attention_scores<F: FloatUnit>(
    a: MultiHeadAttention,
    x: TensorView,
    t: AttentionStages,
    r: TensorView,
    h: int,
    p: int,
    j: int,
)
    requires
        a.wf(),
        a.wire_error() is None,
        x.wf(),
        x.shape.len() == 2,
        x.shape[1] == a.dim,
        a.staged::<F>(x, t, r),
        0 <= h < a.num_heads,
        0 <= p < x.shape[0],
        0 <= j < x.shape[0],
    ensures
        exists|n: u32, root: u32| #[trigger]
            counts::<F>(a.head_dim, n) && #[trigger] sqrts::<F>(n, root) && divs::<F>(
                ONE,
                root,
                t.scale,
            ),
        scores_of(t, x.shape[0], h, p).len() == x.shape[0],
        scored::<F>(
            head_of(t.q.row(p), a.head_dim as nat, h),
            head_of(t.k.row(j), a.head_dim as nat, h),
            t.scale,
            if j <= p { ZERO } else { NEG_INFINITY },
            scores_of(t, x.shape[0], h, p)[j],
        ),
        softmaxes::<F>(scores_of(t, x.shape[0], h, p), weights_of(t, x.shape[0], h, p)),
{
    let (seq, nh, hd) = (x.shape[0], a.num_heads, a.head_dim);
    assert(a.dim > 0);
    lemma_attention_projections::<F>(a, x, t, r, p, 0);
    assert(t.q.shape =~= seq![seq, (nh * hd) as usize]);
    assert(t.k.shape =~= seq![seq, (nh * hd) as usize]);
    lemma_head_row(t.q, seq, nh, hd, t.qh, h, p);
    lemma_head_row(t.k, seq, nh, hd, t.kh, h, j);
    lemma_numel_3(t.qh.shape);
    lemma_numel_3(t.kt.shape);
    lemma_nested_row(t.qh.data, nh as nat, seq as nat, hd as nat, h, p);
    let key = head_of(t.k.row(j), hd as nat, h);
    assert forall|i: int| 0 <= i < key.len() implies #[trigger] key[i] == plane(t.kt, h)[i * seq
        + j] by {
        lemma_key_entry(t.kh, t.kt, h, j, i);
    }
    assert(seq * hd == hd * seq) by (nonlinear_arith);
    law_batch_entries::<F>(t.qh, t.kt, t.scores, h, p, j, key);
    assert(t.scores.shape =~= seq![nh, seq, seq]);
    lemma_square_entry(t.scores, nh, seq, h, p, j);
    lemma_square_entry(t.scaled, nh, seq, h, p, j);
    lemma_square_entry(t.masked, nh, seq, h, p, j);
    let e = p * seq + j;
    let g = h * (seq * seq) + e;
    assert(muls::<F>(t.scores.data[g], t.scale, t.scaled.data[g]));
    law_causal_mask(seq, p, j);
    assert(causal(seq).data.len() == seq * seq);
    assert(masks::<F>(t.scaled, causal(seq), t.masked));
    assert(adds::<F>(plane(t.scaled, h)[e], causal(seq).data[e], plane(t.masked, h)[e]));
    let (dot, scaled) = (plane(t.scores, h)[e], plane(t.scaled, h)[e]);
    assert(inner::<F>(head_of(t.q.row(p), hd as nat, h), key, dot) && muls::<F>(
        dot,
        t.scale,
        scaled,
    ));
    assert(softmaxes::<F>(
        row_of(t.masked.data, seq as nat, h * seq + p),
        row_of(t.attn.data, seq as nat, h * seq + p),
    ));
}

/// The values of entry `c`, position by position.
pub open spec fn values_at(t: AttentionStages, seq: usize, c: int) -> Seq<u32> {
    Seq::new(seq as nat, |j: int| t.v.at(j, c))
}

/// Entry `i` of head `h` in the context of position `p` is the product of the
/// weights of `p` in that head and the values of that entry.
pub proof fn lemma_attention_context<F: FloatUnit>(
    a: MultiHeadAttention,
    x: TensorView,
    t: AttentionStages,
    r: TensorView,
    h: int,
    p: int,
    i: int,
)
    requires
        a.wf(),
        a.wire_error() is None,
        x.wf(),
        x.shape.len() == 2,
        x.shape[1] == a.dim,
        a.staged::<F>(x, t, r),
        0 <= h < a.num_heads,
        0 <= p < x.shape[0],
        0 <= i < a.head_dim,
    ensures
        0 <= h * a.head_dim + i < a.dim,
        inner::<F>(
            weights_of(t, x.shape[0], h, p),
            values_at(t, x.shape[0], h * a.head_dim + i),
            t.merged.at(p, h * a.head_dim + i),
        ),
{
    let (seq, nh, hd) = (x.shape[0], a.num_heads, a.head_dim);
    lemma_entry_bounds(nh as int, hd as int, h, i);
    lemma_attention_projections::<F>(a, x, t, r, p, 0);
    lemma_attention_scores::<F>(a, x, t, r, h, p, p);
    assert(t.v.shape =~= seq![seq, (nh * hd) as usize]);
    assert(t.merged.shape =~= seq![seq, (nh * hd) as usize]);
    assert(t.scores.shape =~= seq![nh, seq, seq]);
    assert(t.ctx.shape =~= seq![nh, seq, hd]);
    let c = h * hd + i;
    let col = values_at(t, seq, c);
    lemma_numel_3(t.attn.shape);
    lemma_numel_3(t.vh.shape);
    lemma_numel_3(t.ctx.shape);
    lemma_nested_row(t.attn.data, nh as nat, seq as nat, seq as nat, h, p);
    assert forall|j: int| 0 <= j < col.len() implies #[trigger] col[j] == plane(t.vh, h)[j * hd
        + i] by {
        lemma_value_entry(t.vh, nh, seq, hd, h, j, i);
        lemma_head_row(t.v, seq, nh, hd, t.vh, h, j);
        lemma_entry_of_row(t.v, j, c);
    }
    law_batch_entries::<F>(t.attn, t.vh, t.ctx, h, p, i, col);
    lemma_value_entry(t.ctx, nh, seq, hd, h, p, i);
    assert((seq * nh) * hd == seq * (nh * hd)) by (nonlinear_arith);
    lemma_nested_row(t.merged.data, seq as nat, nh as nat, hd as nat, p, h);
    assert(row_of(t.merged.data, hd as nat, p * nh + h) == row_of(
        t.ctx.data,
        hd as nat,
        h * seq + p,
    ));
    lemma_row_bounds(nh as int, hd as int, h);
    lemma_entry_of_row(t.merged, p, c);
    assert(t.merged.row(p)[c] == row_of(t.merged.row(p), hd as nat, h)[i]);
}

/// What attention gives, entry by entry. Queries, keys and values are
/// projections of the input by their own matrices and biases; the score of
/// position `p` for position `j` is their product in a head, scaled by the root
/// of its width and masked for later positions; the context is the softmax of
/// the scores times the values; the output is a projection of the context.
/// Gives the intermediate tensors.
pub proof fn law_attention_entries<F: FloatUnit>(
    a: MultiHeadAttention,
    x: TensorView,
    r: TensorView,
) -> (t: AttentionStages)
    requires
        a.wf(),
        a.wire_error() is None,
        x.wf(),
        x.shape.len() == 2,
        x.shape[1] == a.dim,
        a.attends::<F>(x, r),
    ensures
        a.staged::<F>(x, t, r),
        x.shape[0] > 0 ==> t.q.shape == x.shape && t.k.shape == x.shape && t.v.shape == x.shape
            && t.merged.shape == x.shape && r.shape == x.shape,
        exists|n: u32, root: u32| #[trigger]
            counts::<F>(a.head_dim, n) && #[trigger] sqrts::<F>(n, root) && divs::<F>(
                ONE,
                root,
                t.scale,
            ),
        forall|p: int, c: int|
            0 <= p < x.shape[0] && 0 <= c < a.dim ==> projects::<F>(
                x.row(p),
                a.wq@,
                a.wb_q@.data,
                c,
                #[trigger] t.q.at(p, c),
            ),
        forall|p: int, c: int|
            0 <= p < x.shape[0] && 0 <= c < a.dim ==> projects::<F>(
                x.row(p),
                a.wk@,
                a.wb_k@.data,
                c,
                #[trigger] t.k.at(p, c),
            ),
        forall|p: int, c: int|
            0 <= p < x.shape[0] && 0 <= c < a.dim ==> projects::<F>(
                x.row(p),
                a.wv@,
                a.wb_v@.data,
                c,
                #[trigger] t.v.at(p, c),
            ),
        forall|h: int, p: int, j: int|
            0 <= h < a.num_heads && 0 <= p < x.shape[0] && 0 <= j < x.shape[0] ==> scored::<F>(
                head_of(t.q.row(p), a.head_dim as nat, h),
                head_of(t.k.row(j), a.head_dim as nat, h),
                t.scale,
                if j <= p { ZERO } else { NEG_INFINITY },
                #[trigger] scores_of(t, x.shape[0], h, p)[j],
            ),
        forall|h: int, p: int|
            0 <= h < a.num_heads && 0 <= p < x.shape[0] ==> (#[trigger] scores_of(
                t,
                x.shape[0],
                h,
                p,
            )).len() == x.shape[0],
        forall|h: int, p: int|
            0 <= h < a.num_heads && 0 <= p < x.shape[0] ==> softmaxes::<F>(
                scores_of(t, x.shape[0], h, p),
                #[trigger] weights_of(t, x.shape[0], h, p),
            ),
        forall|h: int, p: int, i: int|
            0 <= h < a.num_heads && 0 <= p < x.shape[0] && 0 <= i < a.head_dim ==> inner::<F>(
                weights_of(t, x.shape[0], h, p),
                values_at(t, x.shape[0], h * a.head_dim + i),
                #[trigger] t.merged.at(p, h * a.head_dim + i),
            ),
        forall|p: int, c: int|
            0 <= p < x.shape[0] && 0 <= c < a.dim ==> projects::<F>(
                t.merged.row(p),
                a.wo@,
                a.wb_o@.data,
                c,
                #[trigger] r.at(p, c),
            ),
{
    let t = choose|t: AttentionStages| a.staged::<F>(x, t, r);
    if x.shape[0] > 0 {
        lemma_attention_projections::<F>(a, x, t, r, 0, 0);
    }
    assert forall|p: int, c: int| 0 <= p < x.shape[0] && 0 <= c < a.dim implies projects::<F>(
        x.row(p),
        a.wq@,
        a.wb_q@.data,
        c,
        #[trigger] t.q.at(p, c),
    ) by {
        lemma_attention_projections::<F>(a, x, t, r, p, c);
    }
    assert forall|p: int, c: int| 0 <= p < x.shape[0] && 0 <= c < a.dim implies projects::<F>(
        x.row(p),
        a.wk@,
        a.wb_k@.data,
        c,
        #[trigger] t.k.at(p, c),
    ) by {
        lemma_attention_projections::<F>(a, x, t, r, p, c);
    }
    assert forall|p: int, c: int| 0 <= p < x.shape[0] && 0 <= c < a.dim implies projects::<F>(
        x.row(p),
        a.wv@,
        a.wb_v@.data,
        c,
        #[trigger] t.v.at(p, c),
    ) by {
        lemma_attention_projections::<F>(a, x, t, r, p, c);
    }
    assert forall|p: int, c: int| 0 <= p < x.shape[0] && 0 <= c < a.dim implies projects::<F>(
        t.merged.row(p),
        a.wo@,
        a.wb_o@.data,
        c,
        #[trigger] r.at(p, c),
    ) by {
        lemma_attention_projections::<F>(a, x, t, r, p, c);
    }
    assert forall|h: int, p: int, j: int|
        0 <= h < a.num_heads && 0 <= p < x.shape[0] && 0 <= j < x.shape[0] implies scored::<F>(
        head_of(t.q.row(p), a.head_dim as nat, h),
        head_of(t.k.row(j), a.head_dim as nat, h),
        t.scale,
        if j <= p { ZERO } else { NEG_INFINITY },
        #[trigger] scores_of(t, x.shape[0], h, p)[j],
    ) by {
        lemma_attention_scores::<F>(a, x, t, r, h, p, j);
    }
    assert forall|h: int, p: int| 0 <= h < a.num_heads && 0 <= p < x.shape[0] implies (
    #[trigger] scores_of(t, x.shape[0], h, p)).len() == x.shape[0] by {
        lemma_attention_scores::<F>(a, x, t, r, h, p, p);
    }
    assert forall|h: int, p: int| 0 <= h < a.num_heads && 0 <= p < x.shape[0] implies softmaxes::<F>(
        scores_of(t, x.shape[0], h, p),
        #[trigger] weights_of(t, x.shape[0], h, p),
    ) by {
        lemma_attention_scores::<F>(a, x, t, r, h, p, p);
    }
    assert forall|h: int, p: int, i: int|
        0 <= h < a.num_heads && 0 <= p < x.shape[0] && 0 <= i < a.head_dim implies inner::<F>(
        weights_of(t, x.shape[0], h, p),
        values_at(t, x.shape[0], h * a.head_dim + i),
        #[trigger] t.merged.at(p, h * a.head_dim + i),
    ) by {
        lemma_attention_context::<F>(a, x, t, r, h, p, i);
    }
    t
}

} // verus!
