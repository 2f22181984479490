//! How the results of the layers relate to their inputs and weights, and to the
//! results of other calls.

use vstd::prelude::*;
use crate::float::{FloatUnit, adds, deterministic, muls};
use crate::ieee::{NEG_INFINITY, ONE, ZERO, finite, magnitude, nan};
use crate::tensor::TensorView;
use crate::tensor::entries::{
    absorbing, all_zero, column, inner, lemma_entry_of_row, lemma_inner_unique, lemma_inner_zero,
};
use crate::tensor::finite::{all_finite, any_nan, corrects, distributes, masses, softmaxes};
use crate::tensor::laws::law_softmax_deterministic;
use crate::tensor::layout::lemma_numel_2;
use crate::tensor::masking::{exact_on_zero, law_softmax_masses, orderly, proportionate};
use crate::tensor::rows::{lemma_entry_bounds, lemma_position_entry, lemma_row_bounds};
use crate::transformer::attention::{AttentionStages, MultiHeadAttention};
use crate::transformer::block::FeedForward;
use crate::transformer::causal::{lemma_inverse_root_same, lemma_masked_entry};
use crate::transformer::causal_model::lemma_feed_row;
use crate::transformer::entries::{
    head_of, law_attention_entries, law_feed_forward_entries, lemma_attention_context,
    lemma_attention_projections, lemma_attention_scores, projects, scored, scores_of, values_at,
    weights_of,
};

verus! {

// ── Projections ──────────────────────────────────────────────────────

pub proof fn lemma_projects_unique<F: FloatUnit>(
    row: Seq<u32>,
    w: TensorView,
    bias: Seq<u32>,
    c: int,
    u: u32,
    v: u32,
)
    requires
        deterministic::<F>(),
        projects::<F>(row, w, bias, c, u),
        projects::<F>(row, w, bias, c, v),
    ensures
        u == v,
{
    let p = choose|acc: u32| #[trigger]
        inner::<F>(row, column(w, c), acc) && adds::<F>(acc, bias[c], u);
    let q = choose|acc: u32| #[trigger]
        inner::<F>(row, column(w, c), acc) && adds::<F>(acc, bias[c], v);
    lemma_inner_unique::<F>(row, column(w, c), p, q);
    assert(adds::<F>(p, bias[c], u) && adds::<F>(p, bias[c], v));
}

/// A projection of or by zeros is its bias added to zero.
pub proof fn lemma_projects_zero<F: FloatUnit>(
    row: Seq<u32>,
    w: TensorView,
    bias: Seq<u32>,
    c: int,
    r: u32,
)
    requires
        exact_on_zero::<F>(),
        absorbing::<F>(),
        w.wf(),
        w.shape.len() == 2,
        row.len() == w.shape[0],
        0 <= c < w.shape[1],
        all_finite(row),
        all_finite(w.data),
        all_zero(row) || all_zero(w.data),
        projects::<F>(row, w, bias, c, r),
    ensures
        adds::<F>(ZERO, bias[c], r),
{
    let p = choose|acc: u32| #[trigger]
        inner::<F>(row, column(w, c), acc) && adds::<F>(acc, bias[c], r);
    let col = column(w, c);
    lemma_numel_2(w.shape);
    assert forall|i: int| 0 <= i < col.len() implies finite(#[trigger] col[i]) && (all_zero(w.data)
        ==> magnitude(col[i]) == 0) by {
        lemma_entry_bounds(w.shape[0] as int, w.shape[1] as int, i, c);
    }
    lemma_inner_zero::<F>(row, col, p);
}

/// Two projections give the same row.
pub open spec fn project_alike<F: FloatUnit>(
    row1: Seq<u32>,
    w1: TensorView,
    bias1: Seq<u32>,
    row2: Seq<u32>,
    w2: TensorView,
    bias2: Seq<u32>,
    dim: usize,
) -> bool {
    forall|c: int, u: u32, v: u32|
        0 <= c < dim && #[trigger] projects::<F>(row1, w1, bias1, c, u) && #[trigger] projects::<F>(
            row2,
            w2,
            bias2,
            c,
            v,
        ) ==> u == v
}

proof fn lemma_scored_unique<F: FloatUnit>(
    q: Seq<u32>,
    k: Seq<u32>,
    scale: u32,
    mask: u32,
    u: u32,
    v: u32,
)
    requires
        deterministic::<F>(),
        scored::<F>(q, k, scale, mask, u),
        scored::<F>(q, k, scale, mask, v),
    ensures
        u == v,
{
    let (d, s) = choose|dot: u32, scaled: u32| #[trigger]
        inner::<F>(q, k, dot) && #[trigger] muls::<F>(dot, scale, scaled) && adds::<F>(
            scaled,
            mask,
            u,
        );
    let (e, t) = choose|dot: u32, scaled: u32| #[trigger]
        inner::<F>(q, k, dot) && #[trigger] muls::<F>(dot, scale, scaled) && adds::<F>(
            scaled,
            mask,
            v,
        );
    lemma_inner_unique::<F>(q, k, d, e);
    assert(s == t);
    assert(adds::<F>(s, mask, u) && adds::<F>(s, mask, v));
}

// ── Attention ────────────────────────────────────────────────────────

/// An output row of attention follows from the query of its own position and
/// the keys and values of all: two calls, of whatever weights and inputs, whose
/// queries agree at position `p` and whose keys and values agree everywhere
/// give the same row `p`.
pub proof fn law_attention_row_determined<F: FloatUnit>(
    a1: MultiHeadAttention,
    a2: MultiHeadAttention,
    x1: TensorView,
    x2: TensorView,
    r1: TensorView,
    r2: TensorView,
    p: int,
)
    requires
        deterministic::<F>(),
        a1.wf(),
        a2.wf(),
        a1.wire_error() is None,
        a2.wire_error() is None,
        a2.num_heads == a1.num_heads,
        a2.dim == a1.dim,
        a2.wo@ == a1.wo@,
        a2.wb_o@ == a1.wb_o@,
        x1.wf(),
        x2.wf(),
        x1.shape.len() == 2,
        x1.shape[1] == a1.dim,
        x2.shape == x1.shape,
        a1.attends::<F>(x1, r1),
        a2.attends::<F>(x2, r2),
        0 <= p < x1.shape[0],
        project_alike::<F>(
            x1.row(p),
            a1.wq@,
            a1.wb_q@.data,
            x2.row(p),
            a2.wq@,
            a2.wb_q@.data,
            a1.dim,
        ),
        forall|j: int|
            0 <= j < x1.shape[0] ==> project_alike::<F>(
                #[trigger] x1.row(j),
                a1.wk@,
                a1.wb_k@.data,
                x2.row(j),
                a2.wk@,
                a2.wb_k@.data,
                a1.dim,
            ),
        forall|j: int|
            0 <= j < x1.shape[0] ==> project_alike::<F>(
                #[trigger] x1.row(j),
                a1.wv@,
                a1.wb_v@.data,
                x2.row(j),
                a2.wv@,
                a2.wb_v@.data,
                a1.dim,
            ),
    ensures
        r1.shape == x1.shape,
        r2.shape == x1.shape,
        r1.row(p) == r2.row(p),
{
    let (seq, nh, hd, dim) = (x1.shape[0], a1.num_heads, a1.head_dim, a1.dim);
    assert(a2.head_dim == hd) by (nonlinear_arith)
        requires
            nh * a2.head_dim == nh * hd,
            nh > 0,
    ;
    let t1 = law_attention_entries::<F>(a1, x1, r1);
    let t2 = law_attention_entries::<F>(a2, x2, r2);
    lemma_attention_projections::<F>(a1, x1, t1, r1, p, 0);
    lemma_attention_projections::<F>(a2, x2, t2, r2, p, 0);
    lemma_inverse_root_same::<F>(hd, t1.scale, t2.scale);
    // Queries at the position, keys and values everywhere.
    assert forall|c: int| 0 <= c < dim implies t1.q.row(p)[c] == t2.q.row(p)[c] by {
        lemma_entry_of_row(t1.q, p, c);
        lemma_entry_of_row(t2.q, p, c);
        assert(projects::<F>(x1.row(p), a1.wq@, a1.wb_q@.data, c, t1.q.at(p, c)));
        assert(projects::<F>(x2.row(p), a2.wq@, a2.wb_q@.data, c, t2.q.at(p, c)));
    }
    lemma_row_bounds(seq as int, dim as int, p);
    assert(t1.q.row(p) =~= t2.q.row(p));
    assert forall|j: int| 0 <= j < seq implies #[trigger] t1.k.row(j) == t2.k.row(j) by {
        assert(x1.row(j) == x1.row(j));
        lemma_row_bounds(seq as int, dim as int, j);
        assert forall|c: int| 0 <= c < dim implies t1.k.row(j)[c] == t2.k.row(j)[c] by {
            lemma_entry_of_row(t1.k, j, c);
            lemma_entry_of_row(t2.k, j, c);
            assert(projects::<F>(x1.row(j), a1.wk@, a1.wb_k@.data, c, t1.k.at(j, c)));
            assert(projects::<F>(x2.row(j), a2.wk@, a2.wb_k@.data, c, t2.k.at(j, c)));
        }
        assert(t1.k.row(j) =~= t2.k.row(j));
    }
    assert forall|j: int, c: int| 0 <= j < seq && 0 <= c < dim implies #[trigger] t1.v.at(j, c)
        == t2.v.at(j, c) by {
        assert(x1.row(j) == x1.row(j));
        assert(projects::<F>(x1.row(j), a1.wv@, a1.wb_v@.data, c, t1.v.at(j, c)));
        assert(projects::<F>(x2.row(j), a2.wv@, a2.wb_v@.data, c, t2.v.at(j, c)));
    }
    // The context of the position.
    assert forall|c: int| 0 <= c < dim implies t1.merged.row(p)[c] == t2.merged.row(p)[c] by {
        lemma_position_entry(nh as int, hd as int, c);
        let (h, i) = (c / hd as int, c % hd as int);
        let (s1, s2) = (scores_of(t1, seq, h, p), scores_of(t2, seq, h, p));
        lemma_attention_scores::<F>(a1, x1, t1, r1, h, p, p);
        lemma_attention_scores::<F>(a2, x2, t2, r2, h, p, p);
        assert forall|j: int| 0 <= j < seq implies s1[j] == s2[j] by {
            lemma_attention_scores::<F>(a1, x1, t1, r1, h, p, j);
            lemma_attention_scores::<F>(a2, x2, t2, r2, h, p, j);
            assert(t1.k.row(j) == t2.k.row(j));
            lemma_scored_unique::<F>(
                head_of(t1.q.row(p), hd as nat, h),
                head_of(t1.k.row(j), hd as nat, h),
                t1.scale,
                if j <= p { ZERO } else { NEG_INFINITY },
                s1[j],
                s2[j],
            );
        }
        assert(s1 =~= s2);
        law_softmax_deterministic::<F>(s1, weights_of(t1, seq, h, p), weights_of(t2, seq, h, p));
        assert(values_at(t1, seq, c) =~= values_at(t2, seq, c));
        lemma_attention_context::<F>(a1, x1, t1, r1, h, p, i);
        lemma_attention_context::<F>(a2, x2, t2, r2, h, p, i);
        lemma_inner_unique::<F>(
            weights_of(t1, seq, h, p),
            values_at(t1, seq, c),
            t1.merged.at(p, c),
            t2.merged.at(p, c),
        );
        lemma_entry_of_row(t1.merged, p, c);
        lemma_entry_of_row(t2.merged, p, c);
    }
    assert(t1.merged.row(p) =~= t2.merged.row(p));
    assert forall|c: int| 0 <= c < dim implies r1.row(p)[c] == r2.row(p)[c] by {
        lemma_entry_of_row(r1, p, c);
        lemma_entry_of_row(r2, p, c);
        assert(projects::<F>(t1.merged.row(p), a1.wo@, a1.wb_o@.data, c, r1.at(p, c)));
        assert(projects::<F>(t2.merged.row(p), a2.wo@, a2.wb_o@.data, c, r2.at(p, c)));
        lemma_projects_unique::<F>(
            t1.merged.row(p),
            a1.wo@,
            a1.wb_o@.data,
            c,
            r1.at(p, c),
            r2.at(p, c),
        );
    }
    assert(r1.row(p) =~= r2.row(p));
}

/// Attention with a query matrix of zeros asks every position the same: the
/// score of a key is the same for every position that sees it.
pub proof fn law_zero_queries_ask_alike<F: FloatUnit>(
    a: MultiHeadAttention,
    x: TensorView,
    t: AttentionStages,
    r: TensorView,
    h: int,
    p: int,
    q: int,
    j: int,
)
    requires
        deterministic::<F>(),
        exact_on_zero::<F>(),
        absorbing::<F>(),
        a.wf(),
        a.wire_error() is None,
        x.wf(),
        x.shape.len() == 2,
        x.shape[1] == a.dim,
        all_finite(x.data),
        all_zero(a.wq@.data),
        a.staged::<F>(x, t, r),
        0 <= h < a.num_heads,
        0 <= j <= p < x.shape[0],
        j <= q < x.shape[0],
    ensures
        scores_of(t, x.shape[0], h, p)[j] == scores_of(t, x.shape[0], h, q)[j],
{
    lemma_attention_scores::<F>(a, x, t, r, h, p, j);
    lemma_attention_scores::<F>(a, x, t, r, h, q, j);
    lemma_zero_projection_rows::<F>(x, a.wq@, a.wb_q@.data, p, q);
    lemma_attention_projections::<F>(a, x, t, r, p, 0);
    assert forall|c: int| 0 <= c < a.dim implies t.q.row(p)[c] == t.q.row(q)[c] by {
        lemma_attention_projections::<F>(a, x, t, r, p, c);
        lemma_attention_projections::<F>(a, x, t, r, q, c);
        lemma_entry_of_row(t.q, p, c);
        lemma_entry_of_row(t.q, q, c);
    }
    lemma_row_bounds(x.shape[0] as int, a.dim as int, p);
    lemma_row_bounds(x.shape[0] as int, a.dim as int, q);
    assert(t.q.row(p) =~= t.q.row(q));
    lemma_scored_unique::<F>(
        head_of(t.q.row(p), a.head_dim as nat, h),
        head_of(t.k.row(j), a.head_dim as nat, h),
        t.scale,
        ZERO,
        scores_of(t, x.shape[0], h, p)[j],
        scores_of(t, x.shape[0], h, q)[j],
    );
}

/// Attention with a key matrix of zeros scores every visible position alike.
pub proof fn law_zero_keys_score_alike<F: FloatUnit>(
    a: MultiHeadAttention,
    x: TensorView,
    t: AttentionStages,
    r: TensorView,
    h: int,
    p: int,
    i: int,
    j: int,
)
    requires
        deterministic::<F>(),
        exact_on_zero::<F>(),
        absorbing::<F>(),
        a.wf(),
        a.wire_error() is None,
        x.wf(),
        x.shape.len() == 2,
        x.shape[1] == a.dim,
        all_finite(x.data),
        all_zero(a.wk@.data),
        a.staged::<F>(x, t, r),
        0 <= h < a.num_heads,
        0 <= i <= p,
        0 <= j <= p,
        p < x.shape[0],
    ensures
        scores_of(t, x.shape[0], h, p)[i] == scores_of(t, x.shape[0], h, p)[j],
{
    lemma_attention_scores::<F>(a, x, t, r, h, p, i);
    lemma_attention_scores::<F>(a, x, t, r, h, p, j);
    lemma_zero_projection_rows::<F>(x, a.wk@, a.wb_k@.data, i, j);
    lemma_attention_projections::<F>(a, x, t, r, p, 0);
    assert forall|c: int| 0 <= c < a.dim implies t.k.row(i)[c] == t.k.row(j)[c] by {
        lemma_attention_projections::<F>(a, x, t, r, i, c);
        lemma_attention_projections::<F>(a, x, t, r, j, c);
        lemma_entry_of_row(t.k, i, c);
        lemma_entry_of_row(t.k, j, c);
    }
    lemma_row_bounds(x.shape[0] as int, a.dim as int, i);
    lemma_row_bounds(x.shape[0] as int, a.dim as int, j);
    assert(t.k.row(i) =~= t.k.row(j));
    lemma_scored_unique::<F>(
        head_of(t.q.row(p), a.head_dim as nat, h),
        head_of(t.k.row(i), a.head_dim as nat, h),
        t.scale,
        ZERO,
        scores_of(t, x.shape[0], h, p)[i],
        scores_of(t, x.shape[0], h, p)[j],
    );
}

/// A matrix of zeros projects all rows to one.
proof fn lemma_zero_projection_rows<F: FloatUnit>(
    x: TensorView,
    w: TensorView,
    bias: Seq<u32>,
    p: int,
    q: int,
)
    requires
        deterministic::<F>(),
        exact_on_zero::<F>(),
        absorbing::<F>(),
        x.wf(),
        w.wf(),
        x.shape.len() == 2,
        w.shape.len() == 2,
        w.shape[0] == x.shape[1],
        all_finite(x.data),
        all_zero(w.data),
        0 <= p < x.shape[0],
        0 <= q < x.shape[0],
    ensures
        project_alike::<F>(x.row(p), w, bias, x.row(q), w, bias, w.shape[1]),
{
    lemma_numel_2(x.shape);
    assert(all_finite(w.data)) by {
        assert forall|i: int| 0 <= i < w.data.len() implies finite(#[trigger] w.data[i]) by {
            assert(magnitude(w.data[i]) == 0);
        }
    }
    lemma_row_finite(x, p);
    lemma_row_finite(x, q);
    assert forall|c: int, u: u32, v: u32|
        0 <= c < w.shape[1] && #[trigger] projects::<F>(x.row(p), w, bias, c, u)
            && #[trigger] projects::<F>(x.row(q), w, bias, c, v) implies u == v by {
        lemma_projects_zero::<F>(x.row(p), w, bias, c, u);
        lemma_projects_zero::<F>(x.row(q), w, bias, c, v);
    }
}

pub proof fn lemma_row_finite(x: TensorView, p: int)
    requires
        x.shape.len() == 2,
        x.data.len() == x.shape[0] * x.shape[1],
        all_finite(x.data),
        0 <= p < x.shape[0],
    ensures
        all_finite(x.row(p)),
        x.row(p).len() == x.shape[1],
{
    lemma_row_bounds(x.shape[0] as int, x.shape[1] as int, p);
    assert forall|i: int| 0 <= i < x.row(p).len() implies finite(#[trigger] x.row(p)[i]) by {
        lemma_entry_of_row(x, p, i);
    }
}

impl MultiHeadAttention {
    /// The context of every pass over `x` is finite.
    pub open spec fn context_finite<F: FloatUnit>(&self, x: TensorView) -> bool {
        forall|t: AttentionStages, r: TensorView| #[trigger]
            self.staged::<F>(x, t, r) ==> all_finite(t.merged.data)
    }
}

/// Attention with an output matrix of zeros gives its output bias.
pub proof fn law_zero_output_gives_bias<F: FloatUnit>(
    a: MultiHeadAttention,
    x: TensorView,
    r: TensorView,
    p: int,
    c: int,
)
    requires
        exact_on_zero::<F>(),
        absorbing::<F>(),
        a.wf(),
        a.wire_error() is None,
        x.wf(),
        x.shape.len() == 2,
        x.shape[1] == a.dim,
        a.attends::<F>(x, r),
        a.context_finite::<F>(x),
        all_zero(a.wo@.data),
        0 <= p < x.shape[0],
        0 <= c < a.dim,
    ensures
        r.shape == x.shape,
        adds::<F>(ZERO, a.wb_o@.data[c], r.at(p, c)),
{
    let t = law_attention_entries::<F>(a, x, r);
    lemma_attention_projections::<F>(a, x, t, r, p, c);
    assert(all_finite(a.wo@.data)) by {
        assert forall|i: int| 0 <= i < a.wo@.data.len() implies finite(
            #[trigger] a.wo@.data[i],
        ) by {
            assert(magnitude(a.wo@.data[i]) == 0);
        }
    }
    assert(a.staged::<F>(x, t, r));
    lemma_row_finite(t.merged, p);
    lemma_projects_zero::<F>(t.merged.row(p), a.wo@, a.wb_o@.data, c, r.at(p, c));
}

/// Attention whose values are zeros gives its output bias, whatever it attends
/// to.
pub proof fn law_zero_values_give_bias<F: FloatUnit>(
    a: MultiHeadAttention,
    x: TensorView,
    r: TensorView,
    p: int,
    c: int,
)
    requires
        orderly::<F>(),
        proportionate::<F>(),
        exact_on_zero::<F>(),
        absorbing::<F>(),
        a.wf(),
        a.wire_error() is None,
        x.wf(),
        x.shape.len() == 2,
        x.shape[1] == a.dim,
        a.attends::<F>(x, r),
        a.overflow_free::<F>(x),
        all_finite(x.data),
        all_zero(a.wv@.data),
        all_zero(a.wb_v@.data),
        all_finite(a.wo@.data),
        0 <= p < x.shape[0],
        0 <= c < a.dim,
    ensures
        adds::<F>(ZERO, a.wb_o@.data[c], r.at(p, c)),
{
    let (seq, nh, hd, dim) = (x.shape[0], a.num_heads, a.head_dim, a.dim);
    let t = law_attention_entries::<F>(a, x, r);
    assert(a.staged::<F>(x, t, r));
    lemma_attention_projections::<F>(a, x, t, r, p, c);
    lemma_numel_2(x.shape);
    lemma_numel_2(a.wb_v@.shape);
    assert(all_finite(a.wv@.data)) by {
        assert forall|i: int| 0 <= i < a.wv@.data.len() implies finite(
            #[trigger] a.wv@.data[i],
        ) by {
            assert(magnitude(a.wv@.data[i]) == 0);
        }
    }
    assert forall|j: int, k: int| 0 <= j < seq && 0 <= k < dim implies #[trigger] t.v.at(j, k)
        == ZERO by {
        assert(projects::<F>(x.row(j), a.wv@, a.wb_v@.data, k, t.v.at(j, k)));
        lemma_row_finite(x, j);
        lemma_projects_zero::<F>(x.row(j), a.wv@, a.wb_v@.data, k, t.v.at(j, k));
        assert(magnitude(a.wb_v@.data[k]) == 0);
    }
    let m = t.merged.row(p);
    lemma_row_bounds(seq as int, dim as int, p);
    assert forall|k: int| 0 <= k < m.len() implies #[trigger] m[k] == ZERO by {
        lemma_position_entry(nh as int, hd as int, k);
        let (h, i) = (k / hd as int, k % hd as int);
        lemma_attention_context::<F>(a, x, t, r, h, p, i);
        lemma_weights_masses::<F>(a, x, t, r, h, p);
        let vs = values_at(t, seq, k);
        assert forall|j: int| 0 <= j < vs.len() implies #[trigger] vs[j] == ZERO by {
            assert(t.v.at(j, k) == ZERO);
        }
        lemma_inner_zero::<F>(weights_of(t, seq, h, p), vs, t.merged.at(p, k));
        lemma_entry_of_row(t.merged, p, k);
    }
    lemma_projects_zero::<F>(m, a.wo@, a.wb_o@.data, c, r.at(p, c));
}

/// Attention weights are finite where nothing overflows.
pub proof fn lemma_weights_masses<F: FloatUnit>(
    a: MultiHeadAttention,
    x: TensorView,
    t: AttentionStages,
    r: TensorView,
    h: int,
    p: int,
)
    requires
        orderly::<F>(),
        proportionate::<F>(),
        exact_on_zero::<F>(),
        a.wf(),
        a.wire_error() is None,
        x.wf(),
        x.shape.len() == 2,
        x.shape[1] == a.dim,
        a.staged::<F>(x, t, r),
        a.overflow_free::<F>(x),
        0 <= h < a.num_heads,
        0 <= p < x.shape[0],
    ensures
        all_finite(weights_of(t, x.shape[0], h, p)),
        weights_of(t, x.shape[0], h, p).len() == x.shape[0],
{
    let s = scores_of(t, x.shape[0], h, p);
    lemma_attention_scores::<F>(a, x, t, r, h, p, p);
    assert forall|j: int| 0 <= j < s.len() implies !nan(#[trigger] s[j]) by {
        lemma_masked_entry::<F>(a, x, t, r, h, p, j);
    }
    assert(!any_nan(s));
    law_softmax_masses::<F>(s, weights_of(t, x.shape[0], h, p));
}

/// The softmax of a single number is one.
proof fn lemma_single_weight<F: FloatUnit>(s: Seq<u32>, w: Seq<u32>)
    requires
        orderly::<F>(),
        proportionate::<F>(),
        s.len() == 1,
        finite(s[0]),
        softmaxes::<F>(s, w),
    ensures
        w == seq![ONE],
{
    assert(!nan(s[0]));
    assert(!any_nan(s));
    law_softmax_masses::<F>(s, w);
    let row = choose|row: Seq<u32>| #[trigger]
        distributes::<F>(s, row) && corrects::<F>(row, w);
    assert(w.len() == 1);
    assert(row.len() == 1);
    if !masses(row) {
        assert(w == row);
    }
}

/// A position on its own attends to itself, whatever it asks: attentions that
/// differ in queries and keys alone give the same output for a sequence of one.
pub proof fn law_attention_alone<F: FloatUnit>(
    a1: MultiHeadAttention,
    a2: MultiHeadAttention,
    x: TensorView,
    r1: TensorView,
    r2: TensorView,
)
    requires
        deterministic::<F>(),
        orderly::<F>(),
        proportionate::<F>(),
        exact_on_zero::<F>(),
        a1.wf(),
        a2.wf(),
        a1.wire_error() is None,
        a2.wire_error() is None,
        a2.num_heads == a1.num_heads,
        a2.dim == a1.dim,
        a2.wv@ == a1.wv@,
        a2.wb_v@ == a1.wb_v@,
        a2.wo@ == a1.wo@,
        a2.wb_o@ == a1.wb_o@,
        x.wf(),
        x.shape == seq![1usize, a1.dim],
        a1.attends::<F>(x, r1),
        a2.attends::<F>(x, r2),
        a1.overflow_free::<F>(x),
        a2.overflow_free::<F>(x),
    ensures
        r1.row(0) == r2.row(0),
{
    let (nh, hd, dim) = (a1.num_heads, a1.head_dim, a1.dim);
    assert(a2.head_dim == hd) by (nonlinear_arith)
        requires
            nh * a2.head_dim == nh * hd,
            nh > 0,
    ;
    let t1 = law_attention_entries::<F>(a1, x, r1);
    let t2 = law_attention_entries::<F>(a2, x, r2);
    assert(a1.staged::<F>(x, t1, r1) && a2.staged::<F>(x, t2, r2));
    lemma_attention_projections::<F>(a1, x, t1, r1, 0, 0);
    lemma_attention_projections::<F>(a2, x, t2, r2, 0, 0);
    lemma_row_bounds(1, dim as int, 0);
    assert forall|c: int| 0 <= c < dim implies t1.merged.row(0)[c] == t2.merged.row(0)[c] by {
        lemma_position_entry(nh as int, hd as int, c);
        let (h, i) = (c / hd as int, c % hd as int);
        lemma_attention_scores::<F>(a1, x, t1, r1, h, 0, 0);
        lemma_attention_scores::<F>(a2, x, t2, r2, h, 0, 0);
        lemma_masked_entry::<F>(a1, x, t1, r1, h, 0, 0);
        lemma_masked_entry::<F>(a2, x, t2, r2, h, 0, 0);
        lemma_single_weight::<F>(scores_of(t1, 1, h, 0), weights_of(t1, 1, h, 0));
        lemma_single_weight::<F>(scores_of(t2, 1, h, 0), weights_of(t2, 1, h, 0));
        lemma_attention_projections::<F>(a1, x, t1, r1, 0, c);
        lemma_attention_projections::<F>(a2, x, t2, r2, 0, c);
        lemma_projects_unique::<F>(
            x.row(0),
            a1.wv@,
            a1.wb_v@.data,
            c,
            t1.v.at(0, c),
            t2.v.at(0, c),
        );
        assert(values_at(t1, 1, c) =~= values_at(t2, 1, c));
        lemma_attention_context::<F>(a1, x, t1, r1, h, 0, i);
        lemma_attention_context::<F>(a2, x, t2, r2, h, 0, i);
        lemma_inner_unique::<F>(
            weights_of(t1, 1, h, 0),
            values_at(t1, 1, c),
            t1.merged.at(0, c),
            t2.merged.at(0, c),
        );
        lemma_entry_of_row(t1.merged, 0, c);
        lemma_entry_of_row(t2.merged, 0, c);
    }
    assert(t1.merged.row(0) =~= t2.merged.row(0));
    assert forall|c: int| 0 <= c < dim implies r1.row(0)[c] == r2.row(0)[c] by {
        lemma_attention_projections::<F>(a1, x, t1, r1, 0, c);
        lemma_attention_projections::<F>(a2, x, t2, r2, 0, c);
        lemma_entry_of_row(r1, 0, c);
        lemma_entry_of_row(r2, 0, c);
        lemma_projects_unique::<F>(
            t1.merged.row(0),
            a1.wo@,
            a1.wb_o@.data,
            c,
            r1.at(0, c),
            r2.at(0, c),
        );
    }
    assert(r1.row(0) =~= r2.row(0));
}

// ── Feed-forward networks ────────────────────────────────────────────

impl FeedForward {
    /// The entries behind the GELU of every pass over `x` are finite.
    pub open spec fn hidden_finite<F: FloatUnit>(&self, x: TensorView) -> bool {
        forall|h: TensorView, g: TensorView, r: TensorView| #[trigger]
            self.staged::<F>(x, h, g, r) ==> all_finite(g.data)
    }
}

/// A network with a second matrix of zeros gives its second bias.
pub proof fn law_zero_second_gives_bias<F: FloatUnit>(
    f: FeedForward,
    x: TensorView,
    r: TensorView,
    p: int,
    c: int,
)
    requires
        exact_on_zero::<F>(),
        absorbing::<F>(),
        f.wf(),
        f.own_wire_error() is None,
        x.wf(),
        x.shape.len() == 2,
        x.shape[1] == f.w1@.shape[0],
        f.feeds::<F>(x, r),
        f.hidden_finite::<F>(x),
        all_zero(f.w2@.data),
        0 <= p < x.shape[0],
        0 <= c < x.shape[1],
    ensures
        r.shape == x.shape,
        adds::<F>(ZERO, f.b2@.data[c], r.at(p, c)),
{
    let (h, g) = law_feed_forward_entries::<F>(f, x, r);
    assert(f.staged::<F>(x, h, g, r));
    assert(all_finite(f.w2@.data)) by {
        assert forall|i: int| 0 <= i < f.w2@.data.len() implies finite(
            #[trigger] f.w2@.data[i],
        ) by {
            assert(magnitude(f.w2@.data[i]) == 0);
        }
    }
    lemma_row_finite(g, p);
    assert(projects::<F>(g.row(p), f.w2@, f.b2@.data, c, r.at(p, c)));
    lemma_projects_zero::<F>(g.row(p), f.w2@, f.b2@.data, c, r.at(p, c));
}

/// Rows of a network follow from the same row of its input: inputs that agree
/// on row `p` give the same row `p`.
pub proof fn law_feed_forward_by_row<F: FloatUnit>(
    f: FeedForward,
    x1: TensorView,
    x2: TensorView,
    r1: TensorView,
    r2: TensorView,
    p: int,
)
    requires
        deterministic::<F>(),
        f.wf(),
        f.own_wire_error() is None,
        x1.wf(),
        x2.wf(),
        x1.shape.len() == 2,
        x1.shape[1] == f.w1@.shape[0],
        x2.shape == x1.shape,
        f.feeds::<F>(x1, r1),
        f.feeds::<F>(x2, r2),
        0 <= p < x1.shape[0],
        x1.row(p) == x2.row(p),
    ensures
        r1.shape == x1.shape,
        r2.shape == x1.shape,
        r1.row(p) == r2.row(p),
{
    let t1 = law_feed_forward_entries::<F>(f, x1, r1);
    lemma_feed_row::<F>(f, x1, x2, r1, r2, p);
    assert(r1.shape =~= x1.shape);
}

} // verus!
