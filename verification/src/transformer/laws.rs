//! What holds of the transformer layers as a whole.

use vstd::prelude::*;
use crate::float::FloatUnit;
use crate::tensor::alloc_error;
use crate::tensor::layout::{lemma_numel_1, lemma_numel_2};
use crate::tensor::ops::all_known;
use crate::transformer::attention::MultiHeadAttention;
use crate::transformer::block::{FeedForward, TransformerBlock};
use crate::transformer::model::{TransformerConfig, TransformerLM, blocks_error, positions};

verus! {

// ── Fresh weights agree with their dimensions ────────────────────────

/// Fresh attention passes its own check.
pub proof fn law_fresh_attention_valid<F: FloatUnit>(
    a: MultiHeadAttention,
    dim: usize,
    num_heads: usize,
)
    requires
        dim > 0,
        num_heads > 0,
        dim % num_heads == 0,
        a.fresh::<F>(dim, num_heads),
    ensures
        a.wire_error() is None,
        a.num_heads * a.head_dim == dim,
{
    vstd::arithmetic::div_mod::lemma_fundamental_div_mod(dim as int, num_heads as int);
}

/// A fresh feed-forward network passes its own check.
pub proof fn law_fresh_ffn_valid<F: FloatUnit>(f: FeedForward, dim: usize, ff_dim: usize)
    requires
        f.fresh::<F>(dim, ff_dim),
    ensures
        f.wire_error(dim, ff_dim) is None,
{
}

/// A fresh block passes its own check.
pub proof fn law_fresh_block_valid<F: FloatUnit>(
    b: TransformerBlock,
    dim: usize,
    num_heads: usize,
    ff_dim: usize,
)
    requires
        dim > 0,
        num_heads > 0,
        dim % num_heads == 0,
        b.fresh::<F>(dim, num_heads, ff_dim),
    ensures
        b.wire_error() is None,
{
    law_fresh_attention_valid::<F>(b.attn, dim, num_heads);
    law_fresh_ffn_valid::<F>(b.ffn, dim, ff_dim);
    assert(b.ffn.w1@.shape[1] == ff_dim);
}

/// A fresh model passes its own check.
pub proof fn law_fresh_model_valid<F: FloatUnit>(m: TransformerLM, cfg: TransformerConfig)
    requires
        cfg.wire_error() is None,
        m.fresh::<F>(cfg),
    ensures
        m.wire_error() is None,
{
    lemma_fresh_blocks_valid::<F>(m, cfg, 0);
}

proof fn lemma_fresh_blocks_valid<F: FloatUnit>(m: TransformerLM, cfg: TransformerConfig, i: int)
    requires
        cfg.wire_error() is None,
        m.fresh::<F>(cfg),
        0 <= i <= m.blocks@.len(),
    ensures
        m.blocks_wire_error(i) is None,
    decreases m.blocks@.len() - i,
{
    if i < m.blocks@.len() {
        let b = m.blocks@[i];
        assert(b.fresh::<F>(cfg.dim, cfg.num_heads, cfg.ff_dim));
        law_fresh_block_valid::<F>(b, cfg.dim, cfg.num_heads, cfg.ff_dim);
        assert(b.ffn.w1@.shape[1] == cfg.ff_dim);
        lemma_fresh_blocks_valid::<F>(m, cfg, i + 1);
    }
}

// ── Checked weights accept every input that can be stored ────────────

/// Attention that passes its check accepts every `[seq, dim]` input whose
/// intermediate tensors can be stored.
pub proof fn law_valid_attention_accepts(a: MultiHeadAttention, seq: usize)
    requires
        a.wf(),
        a.wire_error() is None,
        alloc_error(seq![seq, a.dim]) is None,
        a.core_error(seq) is None,
    ensures
        a.forward_error(seq![seq, a.dim]) is None,
{
}

/// A feed-forward network that passes its check accepts every `[seq, dim]`
/// input whose intermediate tensors can be stored.
pub proof fn law_valid_ffn_accepts(f: FeedForward, dim: usize, ff_dim: usize, seq: usize)
    requires
        f.wf(),
        f.wire_error(dim, ff_dim) is None,
        alloc_error(seq![seq, dim]) is None,
        alloc_error(seq![seq, ff_dim]) is None,
    ensures
        f.forward_error(seq![seq, dim]) is None,
{
    lemma_numel_2(seq![1usize, ff_dim]);
    lemma_numel_2(seq![1usize, dim]);
}

/// A block that passes its check accepts every `[seq, dim]` input whose
/// intermediate tensors can be stored.
pub proof fn law_valid_block_accepts(b: TransformerBlock, seq: usize)
    requires
        b.wf(),
        b.wire_error() is None,
        alloc_error(seq![seq, b.dim]) is None,
        alloc_error(seq![seq, b.ffn.w1@.shape[1]]) is None,
        b.attn.core_error(seq) is None,
    ensures
        b.forward_error(seq![seq, b.dim]) is None,
{
    let x = seq![seq, b.dim];
    lemma_numel_1(seq![b.dim]);
    law_valid_attention_accepts(b.attn, seq);
    law_valid_ffn_accepts(b.ffn, b.dim, b.ffn.w1@.shape[1], seq);
    assert(seq![x[0], b.ffn.w2@.shape[1]] =~= x);
}

/// A model that passes its check accepts every sequence of known ids within
/// its length whose intermediate tensors can be stored.
pub proof fn law_valid_model_accepts(m: TransformerLM, ids: Seq<u32>)
    requires
        m.wf(),
        m.wire_error() is None,
        ids.len() <= m.config.max_seq_len,
        ids.len() <= u32::MAX,
        all_known(ids, m.config.vocab_size),
        alloc_error(seq![ids.len() as usize, m.config.dim]) is None,
        alloc_error(seq![ids.len() as usize, m.config.ff_dim]) is None,
        alloc_error(seq![ids.len() as usize, m.config.vocab_size]) is None,
        forall|i: int|
            0 <= i < m.blocks@.len() ==> (#[trigger] m.blocks@[i]).attn.core_error(
                ids.len() as usize,
            ) is None,
    ensures
        m.forward_error(ids) is None,
{
    let n = ids.len() as usize;
    let x = seq![n, m.config.dim];
    assert(all_known(positions(ids.len()), m.config.max_seq_len));
    lemma_numel_1(seq![m.config.dim]);
    lemma_blocks_accept(m, n, 0);
}

proof fn lemma_blocks_accept(m: TransformerLM, n: usize, i: int)
    requires
        m.wf(),
        0 <= i <= m.blocks@.len(),
        m.blocks_wire_error(i) is None,
        alloc_error(seq![n, m.config.dim]) is None,
        alloc_error(seq![n, m.config.ff_dim]) is None,
        forall|j: int|
            0 <= j < m.blocks@.len() ==> (#[trigger] m.blocks@[j]).attn.core_error(n) is None,
    ensures
        blocks_error(m.blocks@, i, seq![n, m.config.dim]) is None,
    decreases m.blocks@.len() - i,
{
    if i < m.blocks@.len() {
        let b = m.blocks@[i];
        assert(m.block_wire_error(i) is None);
        assert(b.wf());
        assert(b.attn.core_error(n) is None);
        law_valid_block_accepts(b, n);
        lemma_blocks_accept(m, n, i + 1);
    }
}

} // verus!
