//! What a valid and a fresh model hold.

use vstd::prelude::*;
use crate::float::{FloatUnit, counts, divs, sqrts};
use crate::ieee::{ONE, ZERO};
use crate::tensor::{TensorView, samples};
use crate::tensor::layout::{lemma_numel_1, lemma_numel_2};
use crate::transformer::attention::{MultiHeadAttention, sampled};
use crate::transformer::block::{FeedForward, TransformerBlock};
use crate::transformer::causal_model::lemma_block_valid;
use crate::transformer::linear::inverse_roots;
use crate::transformer::model::{TransformerConfig, TransformerLM};

verus! {

// ── Valid parts ──────────────────────────────────────────────────────

/// Attention is valid exactly if its heads fill its width, its matrices are
/// square and its biases are rows of that width.
pub proof fn law_attention_valid_exactly(a: MultiHeadAttention)
    ensures
        a.wire_error() is None <==> {
            &&& a.dim > 0
            &&& a.num_heads > 0
            &&& a.num_heads * a.head_dim == a.dim
            &&& a.wq@.shape == seq![a.dim, a.dim]
            &&& a.wk@.shape == seq![a.dim, a.dim]
            &&& a.wv@.shape == seq![a.dim, a.dim]
            &&& a.wo@.shape == seq![a.dim, a.dim]
            &&& a.wb_q@.shape == seq![1usize, a.dim]
            &&& a.wb_k@.shape == seq![1usize, a.dim]
            &&& a.wb_v@.shape == seq![1usize, a.dim]
            &&& a.wb_o@.shape == seq![1usize, a.dim]
        },
{
}

/// A network is valid exactly if its second matrix leads back from where its
/// first leads, and each bias has the width of its matrix.
pub proof fn law_network_valid_exactly(f: FeedForward, dim: usize, ff_dim: usize)
    ensures
        f.wire_error(dim, ff_dim) is None <==> {
            &&& f.w1@.shape == seq![dim, ff_dim]
            &&& f.b1@.shape == seq![1usize, ff_dim]
            &&& f.w2@.shape == seq![ff_dim, dim]
            &&& f.b2@.shape == seq![1usize, dim]
        },
{
}

/// A block is valid exactly if its parts are and share its width.
pub proof fn law_block_valid_exactly(b: TransformerBlock)
    ensures
        b.wire_error() is None <==> {
            &&& b.attn.wire_error() is None
            &&& b.attn.dim == b.dim
            &&& b.ffn.w1@.shape.len() == 2
            &&& b.ffn.wire_error(b.dim, b.ffn.w1@.shape[1]) is None
            &&& b.ln1_w@.shape == seq![b.dim]
            &&& b.ln1_b@.shape == seq![b.dim]
            &&& b.ln2_w@.shape == seq![b.dim]
            &&& b.ln2_b@.shape == seq![b.dim]
        },
{
}

/// A model is valid only if every block is and has the configured dimensions,
/// and every table has its configured shape.
pub proof fn law_model_valid_parts(m: TransformerLM, k: int)
    requires
        m.wire_error() is None,
    ensures
        m.config.dim > 0,
        m.config.num_heads > 0,
        m.config.dim % m.config.num_heads == 0,
        m.blocks@.len() == m.config.num_layers,
        0 <= k < m.blocks@.len() ==> m.blocks@[k].wire_error() is None && m.blocks@[k].dim
            == m.config.dim && m.blocks@[k].attn.num_heads == m.config.num_heads
            && m.blocks@[k].ffn.w1@.shape == seq![m.config.dim, m.config.ff_dim],
        m.tok_embed@.shape == seq![m.config.vocab_size, m.config.dim],
        m.pos_embed@.shape == seq![m.config.max_seq_len, m.config.dim],
        m.final_ln_w@.shape == seq![m.config.dim],
        m.final_ln_b@.shape == seq![m.config.dim],
        m.lm_head@.shape == seq![m.config.dim, m.config.vocab_size],
{
    if 0 <= k < m.blocks@.len() {
        lemma_block_valid(m, 0, k);
    }
}

// ── Counting weights ─────────────────────────────────────────────────

/// Elements of the tensors of attention.
pub open spec fn attention_elements(a: MultiHeadAttention) -> nat {
    a.wq@.data.len() + a.wk@.data.len() + a.wv@.data.len() + a.wo@.data.len() + a.wb_q@.data.len()
        + a.wb_k@.data.len() + a.wb_v@.data.len() + a.wb_o@.data.len()
}

/// Elements of the tensors of a network.
pub open spec fn network_elements(f: FeedForward) -> nat {
    f.w1@.data.len() + f.b1@.data.len() + f.w2@.data.len() + f.b2@.data.len()
}

/// Elements of the tensors of a block.
pub open spec fn block_elements(b: TransformerBlock) -> nat {
    attention_elements(b.attn) + network_elements(b.ffn) + b.ln1_w@.data.len()
        + b.ln1_b@.data.len() + b.ln2_w@.data.len() + b.ln2_b@.data.len()
}

/// Elements of the tensors of the first `n` blocks.
pub open spec fn blocks_elements(blocks: Seq<TransformerBlock>, n: nat) -> nat
    decreases n,
{
    if n == 0 {
        0
    } else {
        blocks_elements(blocks, (n - 1) as nat) + block_elements(blocks[n - 1])
    }
}

/// The weights a configuration implies for a block are the elements of every
/// valid block of its dimensions.
pub proof fn law_block_params_counted(b: TransformerBlock, c: TransformerConfig)
    requires
        b.wf(),
        b.wire_error() is None,
        b.dim == c.dim,
        b.ffn.w1@.shape[1] == c.ff_dim,
    ensures
        c.block_params() == block_elements(b),
        attention_elements(b.attn) == 4 * (b.attn.dim * b.attn.dim) + 4 * b.attn.dim,
{
    law_block_valid_exactly(b);
    law_attention_valid_exactly(b.attn);
    law_network_valid_exactly(b.ffn, b.dim, c.ff_dim);
    let (d, f) = (c.dim as int, c.ff_dim as int);
    lemma_numel_2(b.attn.wq@.shape);
    lemma_numel_2(b.attn.wb_q@.shape);
    lemma_numel_2(b.ffn.w1@.shape);
    lemma_numel_2(b.ffn.b1@.shape);
    lemma_numel_2(b.ffn.w2@.shape);
    lemma_numel_2(b.ffn.b2@.shape);
    lemma_numel_1(b.ln1_w@.shape);
    assert(f * d == d * f) by (nonlinear_arith);
}

proof fn lemma_blocks_counted(m: TransformerLM, n: nat)
    requires
        m.wf(),
        m.wire_error() is None,
        n <= m.blocks@.len(),
    ensures
        blocks_elements(m.blocks@, n) == n * m.config.block_params(),
    decreases n,
{
    let p = m.config.block_params();
    if n > 0 {
        lemma_blocks_counted(m, (n - 1) as nat);
        law_model_valid_parts(m, n - 1);
        assert(m.blocks@[n - 1].wf());
        law_block_params_counted(m.blocks@[n - 1], m.config);
        assert((n - 1) * p + p == n * p) by (nonlinear_arith);
    } else {
        assert(0 * p == 0);
    }
}

/// The weights a configuration implies are the elements of every valid model,
/// its position table aside.
pub proof fn law_params_counted(m: TransformerLM)
    requires
        m.wf(),
        m.wire_error() is None,
    ensures
        m.config.total_params() == m.tok_embed@.data.len() + blocks_elements(
            m.blocks@,
            m.blocks@.len(),
        ) + m.final_ln_w@.data.len() + m.final_ln_b@.data.len() + m.lm_head@.data.len(),
{
    law_model_valid_parts(m, 0);
    lemma_blocks_counted(m, m.blocks@.len());
    lemma_numel_2(m.tok_embed@.shape);
    lemma_numel_2(m.lm_head@.shape);
    lemma_numel_1(m.final_ln_w@.shape);
}

// ── Fresh parts ──────────────────────────────────────────────────────

/// Every entry is a normal sample around zero of deviation `std`.
pub open spec fn drawn<F: FloatUnit>(t: TensorView, std: u32) -> bool {
    forall|i: int| 0 <= i < t.data.len() ==> samples::<F>(ZERO, std, #[trigger] t.data[i])
}

/// Every entry is `x`.
pub open spec fn only(t: TensorView, x: u32) -> bool {
    forall|i: int| 0 <= i < t.data.len() ==> #[trigger] t.data[i] == x
}

/// `s` is one over the root of `n`.
pub open spec fn over_root<F: FloatUnit>(n: usize, s: u32) -> bool {
    exists|c: u32, root: u32| #[trigger]
        counts::<F>(n, c) && #[trigger] sqrts::<F>(c, root) && divs::<F>(ONE, root, s)
}

/// Fresh attention draws its matrices around zero with deviation one over the
/// root of the width, and has no biases. Gives the deviation.
pub proof fn law_fresh_attention_weights<F: FloatUnit>(
    a: MultiHeadAttention,
    dim: usize,
    num_heads: usize,
) -> (s: u32)
    requires
        a.fresh::<F>(dim, num_heads),
    ensures
        a.dim == dim,
        a.num_heads == num_heads,
        a.head_dim == dim / num_heads,
        over_root::<F>(dim, s),
        drawn::<F>(a.wq@, s),
        drawn::<F>(a.wk@, s),
        drawn::<F>(a.wv@, s),
        drawn::<F>(a.wo@, s),
        only(a.wb_q@, ZERO),
        only(a.wb_k@, ZERO),
        only(a.wb_v@, ZERO),
        only(a.wb_o@, ZERO),
{
    let s = choose|s: u32| #[trigger]
        inverse_roots::<F>(dim, s) && sampled::<F>(a.wq@, dim, dim, s) && sampled::<F>(
            a.wk@,
            dim,
            dim,
            s,
        ) && sampled::<F>(a.wv@, dim, dim, s) && sampled::<F>(a.wo@, dim, dim, s);
    s
}

/// A fresh network draws its matrices around zero with deviation one over the
/// root of its outer width, and has no biases. Gives the deviation.
pub proof fn law_fresh_network_weights<F: FloatUnit>(
    f: FeedForward,
    dim: usize,
    ff_dim: usize,
) -> (s: u32)
    requires
        f.fresh::<F>(dim, ff_dim),
    ensures
        over_root::<F>(dim, s),
        drawn::<F>(f.w1@, s),
        drawn::<F>(f.w2@, s),
        only(f.b1@, ZERO),
        only(f.b2@, ZERO),
{
    let s = choose|s: u32| #[trigger]
        inverse_roots::<F>(dim, s) && sampled::<F>(f.w1@, dim, ff_dim, s) && sampled::<F>(
            f.w2@,
            ff_dim,
            dim,
            s,
        );
    s
}

/// The normalizations of a fresh block neither scale nor shift.
pub proof fn law_fresh_block_weights<F: FloatUnit>(
    b: TransformerBlock,
    dim: usize,
    num_heads: usize,
    ff_dim: usize,
)
    requires
        b.fresh::<F>(dim, num_heads, ff_dim),
    ensures
        b.dim == dim,
        b.attn.fresh::<F>(dim, num_heads),
        b.ffn.fresh::<F>(dim, ff_dim),
        only(b.ln1_w@, ONE),
        only(b.ln1_b@, ZERO),
        only(b.ln2_w@, ONE),
        only(b.ln2_b@, ZERO),
{
}

/// A fresh model draws its tables and its head around zero with deviation
/// `0.02`, has fresh blocks, and a final normalization that neither scales nor
/// shifts.
pub proof fn law_fresh_model_weights<F: FloatUnit>(
    m: TransformerLM,
    cfg: TransformerConfig,
    k: int,
)
    requires
        m.fresh::<F>(cfg),
    ensures
        m.config == cfg,
        m.blocks@.len() == cfg.num_layers,
        0 <= k < m.blocks@.len() ==> m.blocks@[k].fresh::<F>(cfg.dim, cfg.num_heads, cfg.ff_dim),
        drawn::<F>(m.tok_embed@, 0x3CA3_D70A),
        drawn::<F>(m.pos_embed@, 0x3CA3_D70A),
        drawn::<F>(m.lm_head@, 0x3CA3_D70A),
        only(m.final_ln_w@, ONE),
        only(m.final_ln_b@, ZERO),
{
}

} // verus!
