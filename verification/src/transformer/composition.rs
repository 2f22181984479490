//! How blocks and the language model are put together.

use vstd::prelude::*;
use crate::float::{FloatUnit, adds, deterministic, linked, traces, widens};
use crate::ieee::{ZERO, magnitude};
use crate::tensor::TensorView;
use crate::tensor::entries::{
    absorbing, alike, all_zero, column, inner, law_matmul_entries, lemma_entry_of_row, neutral_zero,
};
use crate::tensor::finite::layer_norms;
use crate::tensor::laws::law_lookup_entries;
use crate::tensor::layout::lemma_numel_2;
use crate::tensor::masking::exact_on_zero;
use crate::tensor::ops::{layer_norm_rows, layer_normalizes, looked_up, matmuls};
use crate::tensor::rows::{
    lemma_entry_bounds, lemma_position_entry, lemma_row_bounds, lemma_rows_determine, row_of,
};
use crate::transformer::attention::MultiHeadAttention;
use crate::transformer::block::{BlockStages, TransformerBlock};
use crate::transformer::causal_model::{
    lemma_block_valid, lemma_feed_row, lemma_norm_row, lemma_residual_row,
};
use crate::transformer::entries::projects;
use crate::transformer::model::{TransformerLM, block_step, positions};
use crate::transformer::relations::{
    law_attention_row_determined, law_zero_output_gives_bias, law_zero_second_gives_bias,
    lemma_projects_unique, project_alike,
};

verus! {

/// Matrices with the same rows are equal.
proof fn lemma_same_rows(a: TensorView, b: TensorView)
    requires
        a.shape == b.shape,
        a.shape.len() == 2,
        a.data.len() == a.shape[0] * a.shape[1],
        b.data.len() == a.data.len(),
        forall|p: int| 0 <= p < a.shape[0] ==> #[trigger] a.row(p) == b.row(p),
    ensures
        a == b,
{
    let (rows, cols) = (a.shape[0] as nat, a.shape[1] as nat);
    assert forall|r: int| 0 <= r < rows implies #[trigger] row_of(a.data, cols, r) == row_of(
        b.data,
        cols,
        r,
    ) by {
        assert(a.row(r) == b.row(r));
    }
    lemma_rows_determine(a.data, b.data, rows, cols);
}

// ── Blocks ───────────────────────────────────────────────────────────

/// A block adds to its input the attention over the normalized input, and to
/// that sum the network over the normalized sum. The first normalization has
/// the parameters `ln1`, the second `ln2`, both the epsilon `1e-5`.
pub proof fn law_block_entries<F: FloatUnit>(
    b: TransformerBlock,
    x: TensorView,
    r: TensorView,
) -> (t: BlockStages)
    requires
        b.transforms::<F>(x, r),
    ensures
        b.staged::<F>(x, t, r),
        layer_normalizes::<F>(x, b.ln1_w@, b.ln1_b@, 0x3727_C5AC, t.normed),
        b.attn.attends::<F>(t.normed, t.attended),
        t.mid.data.len() == x.data.len(),
        forall|e: int|
            0 <= e < x.data.len() ==> adds::<F>(
                x.data[e],
                t.attended.data[e],
                #[trigger] t.mid.data[e],
            ),
        layer_normalizes::<F>(t.mid, b.ln2_w@, b.ln2_b@, 0x3727_C5AC, t.normed2),
        b.ffn.feeds::<F>(t.normed2, t.fed),
        r.shape == x.shape,
        r.data.len() == x.data.len(),
        forall|e: int|
            0 <= e < x.data.len() ==> adds::<F>(
                t.mid.data[e],
                t.fed.data[e],
                #[trigger] r.data[e],
            ),
{
    let t = choose|t: BlockStages| b.staged::<F>(x, t, r);
    assert forall|e: int| 0 <= e < x.data.len() implies adds::<F>(
        x.data[e],
        t.attended.data[e],
        #[trigger] t.mid.data[e],
    ) by {}
    assert forall|e: int| 0 <= e < x.data.len() implies adds::<F>(
        t.mid.data[e],
        t.fed.data[e],
        #[trigger] r.data[e],
    ) by {}
    t
}

impl TransformerBlock {
    /// No pass over `x` overflows between the matrices of the network.
    pub open spec fn hidden_finite<F: FloatUnit>(&self, x: TensorView) -> bool {
        forall|t: BlockStages, r: TensorView| #[trigger]
            self.staged::<F>(x, t, r) ==> self.ffn.hidden_finite::<F>(t.normed2)
    }

    /// No pass over `x` overflows in the context of the attention.
    pub open spec fn context_finite<F: FloatUnit>(&self, x: TensorView) -> bool {
        forall|t: BlockStages, r: TensorView| #[trigger]
            self.staged::<F>(x, t, r) ==> self.attn.context_finite::<F>(t.normed)
    }
}

/// What the network adds is zero where its second matrix and bias are.
proof fn lemma_fed_zero<F: FloatUnit>(b: TransformerBlock, x: TensorView, t: BlockStages, r: TensorView, e: int)
    requires
        exact_on_zero::<F>(),
        absorbing::<F>(),
        b.wf(),
        b.wire_error() is None,
        x.wf(),
        x.shape.len() == 2,
        x.shape[1] == b.dim,
        b.staged::<F>(x, t, r),
        b.hidden_finite::<F>(x),
        all_zero(b.ffn.w2@.data),
        all_zero(b.ffn.b2@.data),
        0 <= e < x.data.len(),
    ensures
        t.fed.data[e] == ZERO,
{
    let (s, d) = (x.shape[0] as int, x.shape[1] as int);
    lemma_numel_2(x.shape);
    lemma_position_entry(s, d, e);
    let (p, c) = (e / d, e % d);
    lemma_numel_2(b.ffn.b2@.shape);
    assert(b.ffn.b2@.data.len() == 1 * d);
    assert(t.normed2.shape == x.shape);
    law_zero_second_gives_bias::<F>(b.ffn, t.normed2, t.fed, p, c);
    assert(magnitude(b.ffn.b2@.data[c]) == 0);
}

/// What the attention adds is zero where its output matrix and bias are.
proof fn lemma_attended_zero<F: FloatUnit>(
    b: TransformerBlock,
    x: TensorView,
    t: BlockStages,
    r: TensorView,
    e: int,
)
    requires
        exact_on_zero::<F>(),
        absorbing::<F>(),
        b.wf(),
        b.wire_error() is None,
        x.wf(),
        x.shape.len() == 2,
        x.shape[1] == b.dim,
        b.staged::<F>(x, t, r),
        b.context_finite::<F>(x),
        all_zero(b.attn.wo@.data),
        all_zero(b.attn.wb_o@.data),
        0 <= e < x.data.len(),
    ensures
        t.attended.data[e] == ZERO,
{
    let (s, d) = (x.shape[0] as int, x.shape[1] as int);
    lemma_numel_2(x.shape);
    lemma_position_entry(s, d, e);
    let (p, c) = (e / d, e % d);
    lemma_numel_2(b.attn.wb_o@.shape);
    assert(b.attn.wb_o@.data.len() == 1 * d);
    assert(t.normed.shape == x.shape);
    law_zero_output_gives_bias::<F>(b.attn, t.normed, t.attended, p, c);
    assert(magnitude(b.attn.wb_o@.data[c]) == 0);
}

/// A block whose network has a second matrix and bias of zeros gives the sum of
/// its input and the attention over the normalized input. Gives the normalized
/// input, the attention over it and the sum.
pub proof fn law_block_without_network<F: FloatUnit>(
    b: TransformerBlock,
    x: TensorView,
    r: TensorView,
) -> (t: (TensorView, TensorView, TensorView))
    requires
        exact_on_zero::<F>(),
        absorbing::<F>(),
        neutral_zero::<F>(),
        b.wf(),
        b.wire_error() is None,
        x.wf(),
        x.shape.len() == 2,
        x.shape[1] == b.dim,
        b.transforms::<F>(x, r),
        b.hidden_finite::<F>(x),
        all_zero(b.ffn.w2@.data),
        all_zero(b.ffn.b2@.data),
    ensures
        layer_normalizes::<F>(x, b.ln1_w@, b.ln1_b@, 0x3727_C5AC, t.0),
        b.attn.attends::<F>(t.0, t.1),
        r.shape == x.shape,
        forall|e: int|
            0 <= e < x.data.len() ==> adds::<F>(
                x.data[e],
                t.1.data[e],
                #[trigger] t.2.data[e],
            ),
        forall|e: int| 0 <= e < x.data.len() ==> alike(#[trigger] r.data[e], t.2.data[e]),
{
    let t = law_block_entries::<F>(b, x, r);
    assert forall|e: int| 0 <= e < x.data.len() implies alike(
        #[trigger] r.data[e],
        t.mid.data[e],
    ) by {
        lemma_fed_zero::<F>(b, x, t, r, e);
        assert(adds::<F>(t.mid.data[e], ZERO, r.data[e]));
    }
    (t.normed, t.attended, t.mid)
}

/// A block whose attention has an output matrix and bias of zeros gives the sum
/// of its input and the network over the normalized input, zeros aside. Gives
/// the input as the network finds it, its normalization, and what is added.
pub proof fn law_block_without_attention<F: FloatUnit>(
    b: TransformerBlock,
    x: TensorView,
    r: TensorView,
) -> (t: (TensorView, TensorView, TensorView))
    requires
        exact_on_zero::<F>(),
        absorbing::<F>(),
        neutral_zero::<F>(),
        b.wf(),
        b.wire_error() is None,
        x.wf(),
        x.shape.len() == 2,
        x.shape[1] == b.dim,
        b.transforms::<F>(x, r),
        b.context_finite::<F>(x),
        all_zero(b.attn.wo@.data),
        all_zero(b.attn.wb_o@.data),
    ensures
        t.0.shape == x.shape,
        forall|e: int| 0 <= e < x.data.len() ==> alike(#[trigger] t.0.data[e], x.data[e]),
        layer_normalizes::<F>(t.0, b.ln2_w@, b.ln2_b@, 0x3727_C5AC, t.1),
        b.ffn.feeds::<F>(t.1, t.2),
        forall|e: int|
            0 <= e < x.data.len() ==> adds::<F>(
                t.0.data[e],
                t.2.data[e],
                #[trigger] r.data[e],
            ),
{
    let t = law_block_entries::<F>(b, x, r);
    assert forall|e: int| 0 <= e < x.data.len() implies alike(
        #[trigger] t.mid.data[e],
        x.data[e],
    ) by {
        lemma_attended_zero::<F>(b, x, t, r, e);
        assert(adds::<F>(x.data[e], ZERO, t.mid.data[e]));
    }
    (t.mid, t.normed2, t.fed)
}

/// A block that adds nothing passes its input on.
pub proof fn law_idle_block_passes<F: FloatUnit>(
    b: TransformerBlock,
    x: TensorView,
    r: TensorView,
    e: int,
)
    requires
        exact_on_zero::<F>(),
        absorbing::<F>(),
        neutral_zero::<F>(),
        b.wf(),
        b.wire_error() is None,
        x.wf(),
        x.shape.len() == 2,
        x.shape[1] == b.dim,
        b.transforms::<F>(x, r),
        b.context_finite::<F>(x),
        b.hidden_finite::<F>(x),
        all_zero(b.attn.wo@.data),
        all_zero(b.attn.wb_o@.data),
        all_zero(b.ffn.w2@.data),
        all_zero(b.ffn.b2@.data),
        0 <= e < x.data.len(),
    ensures
        r.shape == x.shape,
        alike(r.data[e], x.data[e]),
{
    let t = law_block_entries::<F>(b, x, r);
    lemma_attended_zero::<F>(b, x, t, r, e);
    lemma_fed_zero::<F>(b, x, t, r, e);
    assert(adds::<F>(x.data[e], ZERO, t.mid.data[e]));
    assert(adds::<F>(t.mid.data[e], ZERO, r.data[e]));
}

/// A unit that gives one answer per question gives one attention output.
pub proof fn law_attention_deterministic<F: FloatUnit>(
    a: MultiHeadAttention,
    x: TensorView,
    r1: TensorView,
    r2: TensorView,
    p: int,
)
    requires
        deterministic::<F>(),
        a.wf(),
        a.wire_error() is None,
        x.wf(),
        x.shape.len() == 2,
        x.shape[1] == a.dim,
        a.attends::<F>(x, r1),
        a.attends::<F>(x, r2),
        0 <= p < x.shape[0],
    ensures
        r1.shape == x.shape,
        r2.shape == x.shape,
        r1.row(p) == r2.row(p),
{
    lemma_projects_alike::<F>(x.row(p), a.wq@, a.wb_q@.data, a.dim);
    assert forall|j: int| 0 <= j < x.shape[0] implies project_alike::<F>(
        #[trigger] x.row(j),
        a.wk@,
        a.wb_k@.data,
        x.row(j),
        a.wk@,
        a.wb_k@.data,
        a.dim,
    ) by {
        lemma_projects_alike::<F>(x.row(j), a.wk@, a.wb_k@.data, a.dim);
    }
    assert forall|j: int| 0 <= j < x.shape[0] implies project_alike::<F>(
        #[trigger] x.row(j),
        a.wv@,
        a.wb_v@.data,
        x.row(j),
        a.wv@,
        a.wb_v@.data,
        a.dim,
    ) by {
        lemma_projects_alike::<F>(x.row(j), a.wv@, a.wb_v@.data, a.dim);
    }
    law_attention_row_determined::<F>(a, a, x, x, r1, r2, p);
}

proof fn lemma_projects_alike<F: FloatUnit>(row: Seq<u32>, w: TensorView, bias: Seq<u32>, dim: usize)
    requires
        deterministic::<F>(),
    ensures
        project_alike::<F>(row, w, bias, row, w, bias, dim),
{
    assert forall|c: int, u: u32, v: u32|
        0 <= c < dim && #[trigger] projects::<F>(row, w, bias, c, u) && #[trigger] projects::<F>(
            row,
            w,
            bias,
            c,
            v,
        ) implies u == v by {
        lemma_projects_unique::<F>(row, w, bias, c, u, v);
    }
}

/// A unit that gives one answer per question gives one block output.
pub proof fn law_block_deterministic<F: FloatUnit>(
    b: TransformerBlock,
    x: TensorView,
    r1: TensorView,
    r2: TensorView,
)
    requires
        deterministic::<F>(),
        b.wf(),
        b.wire_error() is None,
        x.wf(),
        x.shape.len() == 2,
        x.shape[1] == b.dim,
        b.transforms::<F>(x, r1),
        b.transforms::<F>(x, r2),
    ensures
        r1 == r2,
{
    let t1 = law_block_entries::<F>(b, x, r1);
    let t2 = law_block_entries::<F>(b, x, r2);
    let (rows, cols) = (x.shape[0] as nat, x.shape[1] as nat);
    lemma_numel_2(x.shape);
    assert(t1.normed.shape == x.shape && t2.normed.shape == x.shape);
    assert forall|p: int| 0 <= p < rows implies #[trigger] t1.normed.row(p) == t2.normed.row(p) by {
        lemma_norm_row::<F>(x, x, b.ln1_w@, b.ln1_b@, 0x3727_C5AC, t1.normed, t2.normed, p);
    }
    lemma_same_rows(t1.normed, t2.normed);
    assert(t1.normed == t2.normed);
    assert forall|p: int| 0 <= p < rows implies #[trigger] r1.row(p) == r2.row(p) by {
        law_attention_deterministic::<F>(b.attn, t1.normed, t1.attended, t2.attended, p);
        lemma_residual_row::<F>(
            x,
            t1.attended,
            t1.mid,
            x,
            t2.attended,
            t2.mid,
            rows,
            cols,
            p,
        );
        assert(t1.mid.row(p) == t2.mid.row(p));
        lemma_norm_row::<F>(
            t1.mid,
            t2.mid,
            b.ln2_w@,
            b.ln2_b@,
            0x3727_C5AC,
            t1.normed2,
            t2.normed2,
            p,
        );
        lemma_feed_row::<F>(b.ffn, t1.normed2, t2.normed2, t1.fed, t2.fed, p);
        assert(t1.fed.shape =~= x.shape);
        lemma_residual_row::<F>(t1.mid, t1.fed, r1, t2.mid, t2.fed, r2, rows, cols, p);
    }
    lemma_same_rows(r1, r2);
    assert(r1 == r2);
}

// ── The model ────────────────────────────────────────────────────────

/// The blocks start from the sum of two table rows at every position: the row
/// of its token in the token table, and the row of the position itself in the
/// position table.
pub proof fn law_start_entries<F: FloatUnit>(
    m: TransformerLM,
    ids: Seq<u32>,
    start: TensorView,
    p: int,
    c: int,
)
    requires
        m.wf(),
        m.wire_error() is None,
        m.starts::<F>(ids, start),
        ids.len() <= usize::MAX,
        ids.len() <= u32::MAX + 1,
        0 <= p < ids.len(),
        0 <= c < m.config.dim,
    ensures
        start.shape == seq![ids.len() as usize, m.config.dim],
        start.data.len() == ids.len() * m.config.dim,
        adds::<F>(
            m.tok_embed@.data[ids[p] * m.config.dim + c],
            m.pos_embed@.data[p * m.config.dim + c],
            start.data[p * m.config.dim + c],
        ),
{
    let dim = m.config.dim as int;
    let n = ids.len() as int;
    let k = looked_up(m.tok_embed@, ids);
    let q = looked_up(m.pos_embed@, positions(ids.len()));
    lemma_entry_bounds(n, dim, p, c);
    law_lookup_entries(m.tok_embed@, ids, p, c);
    law_lookup_entries(m.pos_embed@, positions(ids.len()), p, c);
    assert(positions(ids.len())[p] == p);
    assert(start.shape =~= seq![ids.len() as usize, m.config.dim]);
    let e = p * dim + c;
    assert(adds::<F>(k.data[e], q.data[e], start.data[e]));
}

/// Hidden states come from the sums of token and position rows, through every
/// block in order, and the final normalization. Gives the state before every
/// block and behind the last.
pub proof fn law_hidden_states_entries<F: FloatUnit>(
    m: TransformerLM,
    ids: Seq<u32>,
    r: TensorView,
) -> (states: Seq<TensorView>)
    requires
        m.wf(),
        m.wire_error() is None,
        m.hides::<F>(ids, r),
        ids.len() <= usize::MAX,
        ids.len() <= u32::MAX + 1,
    ensures
        r.wf(),
        r.shape == seq![ids.len() as usize, m.config.dim],
        states.len() == m.blocks@.len() + 1,
        forall|k: int|
            0 <= k <= m.blocks@.len() ==> (#[trigger] states[k]).wf() && states[k].shape == seq![
                ids.len() as usize,
                m.config.dim,
            ],
        forall|p: int, c: int|
            0 <= p < ids.len() && 0 <= c < m.config.dim ==> adds::<F>(
                m.tok_embed@.at(ids[p] as int, c),
                m.pos_embed@.at(p, c),
                #[trigger] states[0].at(p, c),
            ),
        forall|k: int|
            0 <= k < m.blocks@.len() ==> (#[trigger] m.blocks@[k]).transforms::<F>(
                states[k],
                states[k + 1],
            ),
        layer_normalizes::<F>(
            states[m.blocks@.len() as int],
            m.final_ln_w@,
            m.final_ln_b@,
            0x3727_C5AC,
            r,
        ),
{
    let (s, e) = choose|s: TensorView, e: TensorView| m.hidden_staged::<F>(ids, s, e, r);
    let step = block_step::<F>(m.blocks@);
    let states = choose|t: Seq<TensorView>| #[trigger]
        traces(step, s, m.blocks@.len(), t) && t[m.blocks@.len() as int] == e;
    assert forall|p: int, c: int| 0 <= p < ids.len() && 0 <= c < m.config.dim implies adds::<F>(
        m.tok_embed@.at(ids[p] as int, c),
        m.pos_embed@.at(p, c),
        #[trigger] states[0].at(p, c),
    ) by {
        law_start_entries::<F>(m, ids, s, p, c);
    }
    assert(s.shape =~= seq![ids.len() as usize, m.config.dim]);
    assert forall|k: int| 0 <= k < m.blocks@.len() implies (#[trigger] m.blocks@[k]).transforms::<
        F,
    >(states[k], states[k + 1]) by {
        assert(linked(step, states, k));
    }
    assert forall|k: int| 0 <= k <= m.blocks@.len() implies (#[trigger] states[k]).wf()
        && states[k].shape == s.shape by {
        lemma_states_shape::<F>(m, states, k);
    }
    states
}

/// Blocks keep the shape.
proof fn lemma_states_shape<F: FloatUnit>(m: TransformerLM, states: Seq<TensorView>, k: int)
    requires
        states[0].wf(),
        0 <= k <= m.blocks@.len(),
        forall|j: int|
            0 <= j < m.blocks@.len() ==> (#[trigger] m.blocks@[j]).transforms::<F>(
                states[j],
                states[j + 1],
            ),
    ensures
        states[k].wf(),
        states[k].shape == states[0].shape,
    decreases k,
{
    if k > 0 {
        lemma_states_shape::<F>(m, states, k - 1);
        let b = m.blocks@[k - 1];
        let t = law_block_entries::<F>(b, states[k - 1], states[k]);
    }
}

/// Without layers, a hidden state is the normalized sum of the row of its token
/// and the row of its position. Gives that sum.
pub proof fn law_hidden_states_without_layers<F: FloatUnit>(
    m: TransformerLM,
    ids: Seq<u32>,
    r: TensorView,
    p: int,
) -> (t: (Seq<u32>, u64))
    requires
        m.wf(),
        m.wire_error() is None,
        m.blocks@.len() == 0,
        m.hides::<F>(ids, r),
        ids.len() <= usize::MAX,
        ids.len() <= u32::MAX + 1,
        0 <= p < ids.len(),
    ensures
        t.0.len() == m.config.dim,
        forall|c: int|
            0 <= c < m.config.dim ==> adds::<F>(
                m.tok_embed@.at(ids[p] as int, c),
                m.pos_embed@.at(p, c),
                #[trigger] t.0[c],
            ),
        widens::<F>(0x3727_C5AC, t.1),
        layer_norms::<F>(t.0, m.final_ln_w@.data, m.final_ln_b@.data, t.1, r.row(p)),
{
    let states = law_hidden_states_entries::<F>(m, ids, r);
    let s = states[0];
    let w = choose|w: u64| #[trigger]
        widens::<F>(0x3727_C5AC, w) && layer_norm_rows::<F>(
            s,
            m.final_ln_w@,
            m.final_ln_b@,
            w,
            r,
        );
    lemma_numel_2(s.shape);
    lemma_row_bounds(ids.len() as int, m.config.dim as int, p);
    assert forall|c: int| 0 <= c < m.config.dim implies adds::<F>(
        m.tok_embed@.at(ids[p] as int, c),
        m.pos_embed@.at(p, c),
        #[trigger] s.row(p)[c],
    ) by {
        lemma_entry_of_row(s, p, c);
        assert(adds::<F>(m.tok_embed@.at(ids[p] as int, c), m.pos_embed@.at(p, c), s.at(p, c)));
    }
    assert(layer_norms::<F>(s.row(p), m.final_ln_w@.data, m.final_ln_b@.data, w, r.row(p)));
    (s.row(p), w)
}

/// Entry `v` of the logits of position `p` is its hidden state times column `v`
/// of the head. Gives the hidden states.
pub proof fn law_logits_entries<F: FloatUnit>(
    m: TransformerLM,
    ids: Seq<u32>,
    r: TensorView,
) -> (h: TensorView)
    requires
        m.wf(),
        m.wire_error() is None,
        m.scores::<F>(ids, r),
        ids.len() <= usize::MAX,
        ids.len() <= u32::MAX + 1,
    ensures
        m.hides::<F>(ids, h),
        r.shape == seq![ids.len() as usize, m.config.vocab_size],
        forall|p: int, v: int|
            0 <= p < ids.len() && 0 <= v < m.config.vocab_size ==> inner::<F>(
                h.row(p),
                column(m.lm_head@, v),
                #[trigger] r.at(p, v),
            ),
{
    let h = choose|h: TensorView| #[trigger]
        m.hides::<F>(ids, h) && matmuls::<F>(h, m.lm_head@, r);
    let states = law_hidden_states_entries::<F>(m, ids, h);
    lemma_numel_2(h.shape);
    assert forall|p: int, v: int| 0 <= p < ids.len() && 0 <= v < m.config.vocab_size implies inner::<
        F,
    >(h.row(p), column(m.lm_head@, v), #[trigger] r.at(p, v)) by {
        law_matmul_entries::<F>(h, m.lm_head@, r, p, v);
    }
    assert(r.shape =~= seq![ids.len() as usize, m.config.vocab_size]);
    h
}

/// States that start equal stay equal.
proof fn lemma_states_same<F: FloatUnit>(
    m1: TransformerLM,
    m2: TransformerLM,
    s1: Seq<TensorView>,
    s2: Seq<TensorView>,
    k: int,
)
    requires
        deterministic::<F>(),
        m1.wf(),
        m1.wire_error() is None,
        m2.blocks@ == m1.blocks@,
        s1[0] == s2[0],
        0 <= k <= m1.blocks@.len(),
        forall|j: int|
            0 <= j <= m1.blocks@.len() ==> (#[trigger] s1[j]).wf() && s1[j].shape.len() == 2
                && s1[j].shape[1] == m1.config.dim,
        forall|j: int|
            0 <= j < m1.blocks@.len() ==> (#[trigger] m1.blocks@[j]).transforms::<F>(
                s1[j],
                s1[j + 1],
            ),
        forall|j: int|
            0 <= j < m2.blocks@.len() ==> (#[trigger] m2.blocks@[j]).transforms::<F>(
                s2[j],
                s2[j + 1],
            ),
    ensures
        s1[k] == s2[k],
    decreases k,
{
    if k > 0 {
        lemma_states_same::<F>(m1, m2, s1, s2, k - 1);
        let b = m1.blocks@[k - 1];
        assert(m2.blocks@[k - 1] == b);
        lemma_block_valid(m1, 0, k - 1);
        assert(s1[k - 1].wf());
        law_block_deterministic::<F>(b, s1[k - 1], s1[k], s2[k]);
    }
}

/// A sequence enters a model only through the sums of its token rows and the
/// rows of its positions: models with the same blocks and final normalization
/// give the same hidden states for sequences of one length whose sums agree at
/// every position.
pub proof fn law_hidden_states_from_sums<F: FloatUnit>(
    m1: TransformerLM,
    m2: TransformerLM,
    ids1: Seq<u32>,
    ids2: Seq<u32>,
    r1: TensorView,
    r2: TensorView,
)
    requires
        deterministic::<F>(),
        m1.wf(),
        m2.wf(),
        m1.wire_error() is None,
        m2.wire_error() is None,
        m2.config.dim == m1.config.dim,
        m2.blocks@ == m1.blocks@,
        m2.final_ln_w@ == m1.final_ln_w@,
        m2.final_ln_b@ == m1.final_ln_b@,
        ids1.len() == ids2.len(),
        ids1.len() <= usize::MAX,
        ids1.len() <= u32::MAX + 1,
        m1.hides::<F>(ids1, r1),
        m2.hides::<F>(ids2, r2),
        forall|p: int, c: int, u: u32, v: u32|
            0 <= p < ids1.len() && 0 <= c < m1.config.dim && #[trigger] adds::<F>(
                m1.tok_embed@.at(ids1[p] as int, c),
                m1.pos_embed@.at(p, c),
                u,
            ) && #[trigger] adds::<F>(
                m2.tok_embed@.at(ids2[p] as int, c),
                m2.pos_embed@.at(p, c),
                v,
            ) ==> u == v,
    ensures
        r1 == r2,
{
    let s1 = law_hidden_states_entries::<F>(m1, ids1, r1);
    let s2 = law_hidden_states_entries::<F>(m2, ids2, r2);
    let (n, dim) = (ids1.len() as int, m1.config.dim as int);
    let (a, b) = (s1[0], s2[0]);
    lemma_numel_2(a.shape);
    assert forall|e: int| 0 <= e < a.data.len() implies a.data[e] == b.data[e] by {
        lemma_position_entry(n, dim, e);
        let (p, c) = (e / dim, e % dim);
        assert(adds::<F>(
            m1.tok_embed@.at(ids1[p] as int, c),
            m1.pos_embed@.at(p, c),
            a.at(p, c),
        ));
        assert(adds::<F>(
            m2.tok_embed@.at(ids2[p] as int, c),
            m2.pos_embed@.at(p, c),
            b.at(p, c),
        ));
    }
    assert(a.data =~= b.data);
    assert(a == b);
    let last = m1.blocks@.len() as int;
    lemma_states_same::<F>(m1, m2, s1, s2, last);
    assert(s1[last].wf());
    lemma_numel_2(r1.shape);
    assert forall|p: int| 0 <= p < n implies #[trigger] r1.row(p) == r2.row(p) by {
        lemma_norm_row::<F>(
            s1[last],
            s1[last],
            m1.final_ln_w@,
            m1.final_ln_b@,
            0x3727_C5AC,
            r1,
            r2,
            p,
        );
    }
    lemma_same_rows(r1, r2);
    assert(r1 == r2);
}

} // verus!
