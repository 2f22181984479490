//! Blocks and the language model look back and not ahead.

use vstd::prelude::*;
use crate::float::{
    FloatUnit, adds, deterministic, divs, lemma_traces_prefix, linked, muls, reaches, sqrts, tanhs,
    traces, widens,
};
use crate::ieee::{HALF, ONE, PI, TWO};
use crate::tensor::{GELU_CUBIC, GeluSteps, TensorView, gelu_steps, gelus};
use crate::tensor::finite::layer_norms;
use crate::tensor::laws::{law_layer_norm_deterministic, law_lookup_entries};
use crate::tensor::layout::lemma_numel_2;
use crate::tensor::masking::{exact_on_zero, orderly};
use crate::tensor::matmul::dots;
use crate::tensor::ops::{layer_norm_rows, layer_normalizes, looked_up, matmuls};
use crate::tensor::rows::{lemma_row_bounds, row_of};
use crate::transformer::block::{BlockStages, FeedForward, NORM_EPS, TransformerBlock, residual};
use crate::transformer::causal::{
    law_attention_is_causal, lemma_dots_same, lemma_linear_row, lemma_row_entry, same_row,
};
use crate::transformer::model::{TransformerLM, block_step, positions};

verus! {

// ── Row by row ───────────────────────────────────────────────────────

/// Layer normalization takes equal rows to equal rows.
pub proof fn lemma_norm_row<F: FloatUnit>(
    x1: TensorView,
    x2: TensorView,
    weight: TensorView,
    bias: TensorView,
    eps: u32,
    r1: TensorView,
    r2: TensorView,
    p: int,
)
    requires
        deterministic::<F>(),
        layer_normalizes::<F>(x1, weight, bias, eps, r1),
        layer_normalizes::<F>(x2, weight, bias, eps, r2),
        x1.shape == x2.shape,
        0 <= p < x1.shape[0],
        x1.row(p) == x2.row(p),
    ensures
        r1.shape == x1.shape,
        r2.shape == x1.shape,
        r1.row(p) == r2.row(p),
{
    let w1 = choose|w: u64| #[trigger]
        widens::<F>(eps, w) && layer_norm_rows::<F>(x1, weight, bias, w, r1);
    let w2 = choose|w: u64| #[trigger]
        widens::<F>(eps, w) && layer_norm_rows::<F>(x2, weight, bias, w, r2);
    assert(w1 == w2);
    assert(layer_norms::<F>(
        x1.row(p),
        weight.data,
        bias.data,
        w1,
        r1.row(p),
    ));
    assert(layer_norms::<F>(
        x2.row(p),
        weight.data,
        bias.data,
        w1,
        r2.row(p),
    ));
    law_layer_norm_deterministic::<F>(
        x1.row(p),
        weight.data,
        bias.data,
        w1,
        r1.row(p),
        r2.row(p),
    );
}

/// A sum takes equal rows to equal rows.
pub proof fn lemma_residual_row<F: FloatUnit>(
    x1: TensorView,
    y1: TensorView,
    r1: TensorView,
    x2: TensorView,
    y2: TensorView,
    r2: TensorView,
    rows: nat,
    cols: nat,
    p: int,
)
    requires
        deterministic::<F>(),
        residual::<F>(x1, y1, r1),
        residual::<F>(x2, y2, r2),
        x1.data.len() == rows * cols,
        x2.data.len() == rows * cols,
        y1.data.len() == rows * cols,
        y2.data.len() == rows * cols,
        0 <= p < rows,
        same_row(x1.data, x2.data, cols, p),
        same_row(y1.data, y2.data, cols, p),
    ensures
        same_row(r1.data, r2.data, cols, p),
{
    lemma_row_bounds(rows as int, cols as int, p);
    assert forall|c: int| 0 <= c < cols implies row_of(r1.data, cols, p)[c] == row_of(
        r2.data,
        cols,
        p,
    )[c] by {
        lemma_row_entry(x1.data, rows, cols, p, c);
        lemma_row_entry(x2.data, rows, cols, p, c);
        lemma_row_entry(y1.data, rows, cols, p, c);
        lemma_row_entry(y2.data, rows, cols, p, c);
        lemma_row_entry(r1.data, rows, cols, p, c);
        lemma_row_entry(r2.data, rows, cols, p, c);
        let e = p * cols + c;
        assert(adds::<F>(x1.data[e], y1.data[e], r1.data[e]));
        assert(adds::<F>(x2.data[e], y2.data[e], r2.data[e]));
    }
    assert(row_of(r1.data, cols, p) =~= row_of(r2.data, cols, p));
}

proof fn lemma_gelu_same<F: FloatUnit>(x: u32, a: u32, b: u32)
    requires
        deterministic::<F>(),
        gelus::<F>(x, a),
        gelus::<F>(x, b),
    ensures
        a == b,
{
    let s = choose|t: GeluSteps| gelu_steps::<F>(x, t, a);
    let t = choose|t: GeluSteps| gelu_steps::<F>(x, t, b);
    assert(divs::<F>(TWO, PI, s.ratio) && divs::<F>(TWO, PI, t.ratio));
    assert(sqrts::<F>(s.ratio, s.c) && sqrts::<F>(s.ratio, t.c));
    assert(muls::<F>(x, HALF, s.half) && muls::<F>(x, HALF, t.half));
    assert(muls::<F>(GELU_CUBIC, x, s.x1) && muls::<F>(GELU_CUBIC, x, t.x1));
    assert(muls::<F>(s.x1, x, s.x2) && muls::<F>(s.x1, x, t.x2));
    assert(muls::<F>(s.x2, x, s.x3) && muls::<F>(s.x2, x, t.x3));
    assert(adds::<F>(x, s.x3, s.inner) && adds::<F>(x, s.x3, t.inner));
    assert(muls::<F>(s.c, s.inner, s.angle) && muls::<F>(s.c, s.inner, t.angle));
    assert(tanhs::<F>(s.angle, s.tanh) && tanhs::<F>(s.angle, t.tanh));
    assert(adds::<F>(ONE, s.tanh, s.gate) && adds::<F>(ONE, s.tanh, t.gate));
    assert(muls::<F>(s.half, s.gate, a) && muls::<F>(s.half, s.gate, b));
}

/// A feed-forward network takes equal rows to equal rows.
pub proof fn lemma_feed_row<F: FloatUnit>(
    f: FeedForward,
    x1: TensorView,
    x2: TensorView,
    r1: TensorView,
    r2: TensorView,
    p: int,
)
    requires
        deterministic::<F>(),
        f.w1@.shape.len() == 2,
        f.w2@.shape.len() == 2,
        f.feeds::<F>(x1, r1),
        f.feeds::<F>(x2, r2),
        x1.shape == x2.shape,
        x1.shape.len() == 2,
        0 <= p < x1.shape[0],
        same_row(x1.data, x2.data, x1.shape[1] as nat, p),
    ensures
        r1.shape == seq![x1.shape[0], f.w2@.shape[1]],
        r2.shape == r1.shape,
        same_row(r1.data, r2.data, f.w2@.shape[1] as nat, p),
{
    let (h1, g1) = choose|h: TensorView, g: TensorView| f.staged::<F>(x1, h, g, r1);
    let (h2, g2) = choose|h: TensorView, g: TensorView| f.staged::<F>(x2, h, g, r2);
    lemma_linear_row::<F>(x1, x2, f.w1@, f.b1@, h1, h2, p);
    let (rows, cols) = (x1.shape[0] as nat, f.w1@.shape[1] as nat);
    lemma_row_bounds(rows as int, cols as int, p);
    assert forall|c: int| 0 <= c < cols implies row_of(g1.data, cols, p)[c] == row_of(
        g2.data,
        cols,
        p,
    )[c] by {
        lemma_row_entry(h1.data, rows, cols, p, c);
        lemma_row_entry(h2.data, rows, cols, p, c);
        lemma_row_entry(g1.data, rows, cols, p, c);
        lemma_row_entry(g2.data, rows, cols, p, c);
        let e = p * cols + c;
        assert(gelus::<F>(h1.data[e], g1.data[e]));
        assert(gelus::<F>(h2.data[e], g2.data[e]));
        lemma_gelu_same::<F>(h1.data[e], g1.data[e], g2.data[e]);
    }
    assert(row_of(g1.data, cols, p) =~= row_of(g2.data, cols, p));
    lemma_linear_row::<F>(g1, g2, f.w2@, f.b2@, r1, r2, p);
}

/// A matrix product takes equal rows to equal rows.
proof fn lemma_matmul_row<F: FloatUnit>(
    x1: TensorView,
    x2: TensorView,
    w: TensorView,
    r1: TensorView,
    r2: TensorView,
    p: int,
)
    requires
        deterministic::<F>(),
        matmuls::<F>(x1, w, r1),
        matmuls::<F>(x2, w, r2),
        x1.shape == x2.shape,
        0 <= p < x1.shape[0],
        x1.row(p) == x2.row(p),
    ensures
        r1.shape == seq![x1.shape[0], w.shape[1]],
        r2.shape == r1.shape,
        r1.row(p) == r2.row(p),
{
    let (m, k, n) = (x1.shape[0] as nat, x1.shape[1] as nat, w.shape[1] as nat);
    lemma_row_bounds(m as int, n as int, p);
    assert forall|c: int| 0 <= c < n implies r1.row(p)[c] == r2.row(p)[c] by {
        lemma_row_entry(r1.data, m, n, p, c);
        lemma_row_entry(r2.data, m, n, p, c);
        assert(dots::<F>(row_of(x1.data, k, p), w.data, n as int, c, r1.data[p * n + c]));
        assert(dots::<F>(row_of(x2.data, k, p), w.data, n as int, c, r2.data[p * n + c]));
        lemma_dots_same::<F>(
            row_of(x1.data, k, p),
            w.data,
            w.data,
            n as int,
            c,
            r1.data[p * n + c],
            r2.data[p * n + c],
        );
    }
    assert(r1.row(p) =~= r2.row(p));
}

// ── Blocks ───────────────────────────────────────────────────────────

impl TransformerBlock {
    /// No pass over `x` overflows in the attention of the block.
    pub open spec fn overflow_free<F: FloatUnit>(&self, x: TensorView) -> bool {
        forall|t: BlockStages, r: TensorView| #[trigger]
            self.staged::<F>(x, t, r) ==> self.attn.overflow_free::<F>(t.normed)
    }
}

/// No later position influences an earlier output row of a block, under the
/// premises under which none does in its attention.
pub proof fn law_block_is_causal<F: FloatUnit>(
    b: TransformerBlock,
    x1: TensorView,
    x2: TensorView,
    r1: TensorView,
    r2: TensorView,
    i: int,
    p: int,
)
    requires
        deterministic::<F>(),
        orderly::<F>(),
        exact_on_zero::<F>(),
        b.wire_error() is None,
        x1.wf(),
        x2.wf(),
        x1.shape.len() == 2,
        x1.shape[1] == b.dim,
        x2.shape == x1.shape,
        b.transforms::<F>(x1, r1),
        b.transforms::<F>(x2, r2),
        b.overflow_free::<F>(x1),
        b.overflow_free::<F>(x2),
        0 <= p <= i,
        i < x1.shape[0],
        forall|q: int| 0 <= q <= i ==> #[trigger] x1.row(q) == x2.row(q),
    ensures
        r1.shape == x1.shape,
        r2.shape == x1.shape,
        r1.wf(),
        r2.wf(),
        r1.row(p) == r2.row(p),
{
    let (rows, cols) = (x1.shape[0] as nat, x1.shape[1] as nat);
    let t1 = choose|t: BlockStages| b.staged::<F>(x1, t, r1);
    let t2 = choose|t: BlockStages| b.staged::<F>(x2, t, r2);
    assert(b.staged::<F>(x1, t1, r1) && b.staged::<F>(x2, t2, r2));
    lemma_numel_2(x1.shape);
    assert forall|q: int| 0 <= q <= i implies #[trigger] t1.normed.row(q) == t2.normed.row(q) by {
        assert(x1.row(q) == x2.row(q));
        lemma_norm_row::<F>(
            x1,
            x2,
            b.ln1_w@,
            b.ln1_b@,
            NORM_EPS,
            t1.normed,
            t2.normed,
            q,
        );
    }
    assert(x1.row(p) == x2.row(p));
    lemma_norm_row::<F>(x1, x2, b.ln1_w@, b.ln1_b@, NORM_EPS, t1.normed, t2.normed, p);
    law_attention_is_causal::<F>(
        b.attn,
        t1.normed,
        t2.normed,
        t1.attended,
        t2.attended,
        i,
        p,
    );
    lemma_residual_row::<F>(
        x1,
        t1.attended,
        t1.mid,
        x2,
        t2.attended,
        t2.mid,
        rows,
        cols,
        p,
    );
    assert(t1.mid.row(p) == t2.mid.row(p));
    lemma_norm_row::<F>(
        t1.mid,
        t2.mid,
        b.ln2_w@,
        b.ln2_b@,
        NORM_EPS,
        t1.normed2,
        t2.normed2,
        p,
    );
    lemma_feed_row::<F>(b.ffn, t1.normed2, t2.normed2, t1.fed, t2.fed, p);
    assert(t1.fed.shape =~= x1.shape);
    lemma_residual_row::<F>(t1.mid, t1.fed, r1, t2.mid, t2.fed, r2, rows, cols, p);
}

// ── The model ────────────────────────────────────────────────────────

impl TransformerLM {
    /// No pass over a sequence overflows in the attention of a block.
    pub open spec fn overflow_free<F: FloatUnit>(&self, ids: Seq<u32>) -> bool {
        forall|start: TensorView, k: nat, x: TensorView|
            k < self.blocks@.len() && #[trigger] self.starts::<F>(ids, start)
                && #[trigger] reaches(block_step::<F>(self.blocks@), start, k, x)
                ==> self.blocks@[k as int].overflow_free::<F>(x)
    }
}

pub proof fn lemma_block_valid(m: TransformerLM, j: int, k: int)
    requires
        m.blocks_wire_error(j) is None,
        0 <= j <= k < m.blocks@.len(),
    ensures
        m.block_wire_error(k) is None,
    decreases k - j,
{
    if j < k {
        lemma_block_valid(m, j + 1, k);
    }
}

/// The states behind every block agree on the first rows.
proof fn lemma_blocks_rows<F: FloatUnit>(
    m: TransformerLM,
    ids1: Seq<u32>,
    ids2: Seq<u32>,
    s1: TensorView,
    s2: TensorView,
    t1: Seq<TensorView>,
    t2: Seq<TensorView>,
    i: int,
    k: int,
)
    requires
        deterministic::<F>(),
        orderly::<F>(),
        exact_on_zero::<F>(),
        m.blocks_wire_error(0) is None,
        m.starts::<F>(ids1, s1),
        m.starts::<F>(ids2, s2),
        m.overflow_free::<F>(ids1),
        m.overflow_free::<F>(ids2),
        traces(block_step::<F>(m.blocks@), s1, m.blocks@.len(), t1),
        traces(block_step::<F>(m.blocks@), s2, m.blocks@.len(), t2),
        s1.shape.len() == 2,
        s1.shape[1] == m.config.dim,
        s2.shape == s1.shape,
        0 <= i < s1.shape[0],
        forall|q: int| 0 <= q <= i ==> #[trigger] s1.row(q) == s2.row(q),
        0 <= k <= m.blocks@.len(),
    ensures
        t1[k].wf(),
        t2[k].wf(),
        t1[k].shape == s1.shape,
        t2[k].shape == s1.shape,
        forall|q: int| 0 <= q <= i ==> #[trigger] t1[k].row(q) == t2[k].row(q),
    decreases k,
{
    if k > 0 {
        lemma_blocks_rows::<F>(m, ids1, ids2, s1, s2, t1, t2, i, k - 1);
        let step = block_step::<F>(m.blocks@);
        let j = k - 1;
        let b = m.blocks@[j];
        assert(linked(step, t1, j) && linked(step, t2, j));
        lemma_traces_prefix(step, s1, m.blocks@.len(), t1, j as nat);
        lemma_traces_prefix(step, s2, m.blocks@.len(), t2, j as nat);
        assert(b.overflow_free::<F>(t1[j]) && b.overflow_free::<F>(t2[j]));
        lemma_block_valid(m, 0, j);
        assert(b.transforms::<F>(t1[j], t1[k]) && b.transforms::<F>(t2[j], t2[k]));
        law_block_is_causal::<F>(b, t1[j], t2[j], t1[k], t2[k], i, 0);
        assert forall|q: int| 0 <= q <= i implies #[trigger] t1[k].row(q) == t2[k].row(q) by {
            law_block_is_causal::<F>(b, t1[j], t2[j], t1[k], t2[k], i, q);
        }
    }
}

/// No later token influences an earlier hidden state: hidden states of sequences
/// of one length that agree on tokens `0..=i` agree on those rows.
pub proof fn law_hidden_states_are_causal<F: FloatUnit>(
    m: TransformerLM,
    ids1: Seq<u32>,
    ids2: Seq<u32>,
    r1: TensorView,
    r2: TensorView,
    i: int,
    p: int,
)
    requires
        deterministic::<F>(),
        orderly::<F>(),
        exact_on_zero::<F>(),
        m.wire_error() is None,
        ids1.len() == ids2.len(),
        ids1.len() <= usize::MAX,
        0 <= p <= i < ids1.len(),
        forall|q: int| 0 <= q <= i ==> #[trigger] ids1[q] == ids2[q],
        m.hides::<F>(ids1, r1),
        m.hides::<F>(ids2, r2),
        m.overflow_free::<F>(ids1),
        m.overflow_free::<F>(ids2),
    ensures
        r1.shape == seq![ids1.len() as usize, m.config.dim],
        r2.shape == r1.shape,
        r1.row(p) == r2.row(p),
{
    let n = ids1.len();
    let dim = m.config.dim as nat;
    let (s1, e1) = choose|s: TensorView, e: TensorView| m.hidden_staged::<F>(ids1, s, e, r1);
    let (s2, e2) = choose|s: TensorView, e: TensorView| m.hidden_staged::<F>(ids2, s, e, r2);
    assert(m.hidden_staged::<F>(ids1, s1, e1, r1) && m.hidden_staged::<F>(ids2, s2, e2, r2));
    let k1 = looked_up(m.tok_embed@, ids1);
    let k2 = looked_up(m.tok_embed@, ids2);
    let pos = looked_up(m.pos_embed@, positions(n));
    assert(pos.data.len() == n * dim);
    assert forall|q: int| 0 <= q <= i implies #[trigger] s1.row(q) == s2.row(q) by {
        assert(ids1[q] == ids2[q]);
        lemma_row_bounds(n as int, dim as int, q);
        assert forall|c: int| 0 <= c < dim implies row_of(k1.data, dim, q)[c] == row_of(
            k2.data,
            dim,
            q,
        )[c] by {
            lemma_row_entry(k1.data, n, dim, q, c);
            lemma_row_entry(k2.data, n, dim, q, c);
            law_lookup_entries(m.tok_embed@, ids1, q, c);
            law_lookup_entries(m.tok_embed@, ids2, q, c);
        }
        assert(row_of(k1.data, dim, q) =~= row_of(k2.data, dim, q));
        lemma_residual_row::<F>(k1, pos, s1, k2, pos, s2, n, dim, q);
    }
    let step = block_step::<F>(m.blocks@);
    let t1 = choose|t: Seq<TensorView>| #[trigger]
        traces(step, s1, m.blocks@.len(), t) && t[m.blocks@.len() as int] == e1;
    let t2 = choose|t: Seq<TensorView>| #[trigger]
        traces(step, s2, m.blocks@.len(), t) && t[m.blocks@.len() as int] == e2;
    lemma_blocks_rows::<F>(
        m,
        ids1,
        ids2,
        s1,
        s2,
        t1,
        t2,
        i,
        m.blocks@.len() as int,
    );
    assert(e1.row(p) == e2.row(p));
    lemma_norm_row::<F>(e1, e2, m.final_ln_w@, m.final_ln_b@, NORM_EPS, r1, r2, p);
    assert(r1.shape =~= seq![n as usize, m.config.dim]);
}

/// No later token influences an earlier row of logits.
pub proof fn law_model_is_causal<F: FloatUnit>(
    m: TransformerLM,
    ids1: Seq<u32>,
    ids2: Seq<u32>,
    r1: TensorView,
    r2: TensorView,
    i: int,
    p: int,
)
    requires
        deterministic::<F>(),
        orderly::<F>(),
        exact_on_zero::<F>(),
        m.wire_error() is None,
        ids1.len() == ids2.len(),
        ids1.len() <= usize::MAX,
        0 <= p <= i < ids1.len(),
        forall|q: int| 0 <= q <= i ==> #[trigger] ids1[q] == ids2[q],
        m.scores::<F>(ids1, r1),
        m.scores::<F>(ids2, r2),
        m.overflow_free::<F>(ids1),
        m.overflow_free::<F>(ids2),
    ensures
        r1.shape == seq![ids1.len() as usize, m.config.vocab_size],
        r2.shape == r1.shape,
        r1.row(p) == r2.row(p),
{
    let h1 = choose|h: TensorView| #[trigger]
        m.hides::<F>(ids1, h) && matmuls::<F>(h, m.lm_head@, r1);
    let h2 = choose|h: TensorView| #[trigger]
        m.hides::<F>(ids2, h) && matmuls::<F>(h, m.lm_head@, r2);
    law_hidden_states_are_causal::<F>(m, ids1, ids2, h1, h2, i, p);
    lemma_matmul_row::<F>(h1, h2, m.lm_head@, r1, r2, p);
    assert(r1.shape =~= seq![ids1.len() as usize, m.config.vocab_size]);
}

} // verus!
