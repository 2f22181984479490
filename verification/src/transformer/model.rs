//! The decoder-only language model.

use vstd::prelude::*;
use vstd::string::StringExecFns;
use crate::error::{CortexError, ErrorView, unwrap_compat};
use crate::float::{FloatUnit, lemma_reaches_start, lemma_reaches_step, reaches};
use crate::ieee::{ONE, ZERO};
use crate::tensor::{Tensor, TensorView, alloc_error, pairing_error};
use crate::tensor::layout::{shape1, shape2};
use crate::tensor::ops::{
    layer_normalizes, looked_up, lookup_error, matmul_error, matmuls, norm_error, try_embedding,
    try_layer_norm, try_matmul,
};
use crate::text::{decimal, size_text};
use crate::transformer::attention::{filled_with, sampled};
use crate::transformer::block::{NORM_EPS, TransformerBlock, new_block_error, residual};
use crate::transformer::linear::{either, expect_shape, shape_error};

verus! {

/// Deviation of the embedding and head weights: `0.02` as binary32.
pub const EMBED_STD: u32 = 0x3CA3_D70A;

/// Dimensions of a decoder-only transformer.
#[derive(Clone, Copy, Debug)]
pub struct TransformerConfig {
    pub vocab_size: usize,
    pub dim: usize,
    pub num_heads: usize,
    pub num_layers: usize,
    pub ff_dim: usize,
    pub max_seq_len: usize,
}

impl TransformerConfig {
    /// Weights of one block: attention, feed-forward network and two norms.
    pub open spec fn block_params(self) -> int {
        4 * (self.dim * self.dim) + 4 * self.dim + (2 * (self.dim * self.ff_dim) + self.dim
            + self.ff_dim) + 4 * self.dim
    }

    /// Weights of the whole model: embedding, blocks, final norm and head.
    pub open spec fn total_params(self) -> int {
        self.vocab_size * self.dim + self.num_layers * self.block_params() + 2 * self.dim + self.dim
            * self.vocab_size
    }

    /// Why the heads do not fit the width.
    pub open spec fn wire_error(self) -> Option<ErrorView> {
        if self.dim == 0 || self.num_heads == 0 || self.dim % self.num_heads != 0 {
            Some(ErrorView::InvalidConfig("transformer head dimensions disagree"@))
        } else {
            None
        }
    }

    /// A small configuration of about two million weights.
    pub fn tiny() -> (r: Self)
        ensures
            r == (TransformerConfig {
                vocab_size: 4096,
                dim: 128,
                num_heads: 4,
                num_layers: 4,
                ff_dim: 512,
                max_seq_len: 256,
            }),
    {
        TransformerConfig {
            vocab_size: 4096,
            dim: 128,
            num_heads: 4,
            num_layers: 4,
            ff_dim: 512,
            max_seq_len: 256,
        }
    }

    /// A configuration at the scale of OLMo-1B.
    pub fn olmo_1b() -> (r: Self)
        ensures
            r == (TransformerConfig {
                vocab_size: 50280,
                dim: 2048,
                num_heads: 16,
                num_layers: 16,
                ff_dim: 8192,
                max_seq_len: 2048,
            }),
    {
        TransformerConfig {
            vocab_size: 50280,
            dim: 2048,
            num_heads: 16,
            num_layers: 16,
            ff_dim: 8192,
            max_seq_len: 2048,
        }
    }

    /// Number of weights the configuration implies.
    pub fn estimated_params(&self) -> (r: usize)
        requires
            self.total_params() <= usize::MAX,
            self.block_params() <= usize::MAX,
        ensures
            r == self.total_params(),
    {
        proof {
            let d = self.dim as int;
            let f = self.ff_dim as int;
            let v = self.vocab_size as int;
            let l = self.num_layers as int;
            let b = self.block_params();
            assert(0 <= d * d && 0 <= d * f && 0 <= v * d && 0 <= d * v) by (nonlinear_arith)
                requires
                    0 <= d,
                    0 <= f,
                    0 <= v,
            ;
            assert(0 <= l * b) by (nonlinear_arith)
                requires
                    0 <= l,
                    0 <= b,
            ;
            assert((4 * d) * d == 4 * (d * d)) by (nonlinear_arith);
            assert((2 * d) * f == 2 * (d * f)) by (nonlinear_arith);
        }
        let embed: usize = self.vocab_size * self.dim;
        let attn: usize = 4 * self.dim * self.dim + 4 * self.dim;
        let ffn: usize = 2 * self.dim * self.ff_dim + self.dim + self.ff_dim;
        let ln: usize = 4 * self.dim;
        let per_block: usize = attn + ffn + ln;
        let final_ln: usize = 2 * self.dim;
        let lm_head: usize = self.dim * self.vocab_size;
        embed + self.num_layers * per_block + final_ln + lm_head
    }

    /// Checks that the heads fit the width.
    pub fn validate_wire(&self) -> (r: Result<(), CortexError>)
        ensures
            match self.wire_error() {
                Some(e) => r matches Err(x) && x@ == e,
                None => r is Ok,
            },
    {
        if self.dim == 0 || self.num_heads == 0 || self.dim % self.num_heads != 0 {
            return Err(
                CortexError::InvalidConfig(
                    String::from_str("transformer head dimensions disagree"),
                ),
            );
        }
        Ok(())
    }
}

/// Decoder-only language model: token and position embeddings, blocks, a final
/// layer normalization and a head.
#[derive(Clone)]
pub struct TransformerLM {
    pub config: TransformerConfig,
    /// `[vocab_size, dim]`
    pub tok_embed: Tensor,
    /// `[max_seq_len, dim]`
    pub pos_embed: Tensor,
    pub blocks: Vec<TransformerBlock>,
    /// `[dim]`
    pub final_ln_w: Tensor,
    /// `[dim]`
    pub final_ln_b: Tensor,
    /// `[dim, vocab_size]`
    pub lm_head: Tensor,
}

/// Why no model can be made from a configuration.
pub open spec fn new_model_error(cfg: TransformerConfig) -> Option<ErrorView> {
    if cfg.num_heads == 0 || cfg.dim % cfg.num_heads != 0 {
        Some(
            ErrorView::InvalidConfig(
                "TransformerLM: num_heads ("@ + decimal(cfg.num_heads as nat)
                    + ") must be nonzero and divide dim ("@ + decimal(cfg.dim as nat) + ")"@,
            ),
        )
    } else {
        either(
            if cfg.num_layers == 0 {
                None
            } else {
                new_block_error(cfg.dim, cfg.num_heads, cfg.ff_dim)
            },
            either(
                alloc_error(seq![cfg.vocab_size, cfg.dim]),
                either(
                    alloc_error(seq![cfg.max_seq_len, cfg.dim]),
                    either(
                        alloc_error(seq![cfg.dim]),
                        alloc_error(seq![cfg.dim, cfg.vocab_size]),
                    ),
                ),
            ),
        )
    }
}

/// The ids `0, 1, .., n - 1`.
pub open spec fn positions(n: nat) -> Seq<u32> {
    Seq::new(n, |i: int| i as u32)
}

/// Why one of the blocks from `i` on refuses a tensor of shape `x`.
pub open spec fn blocks_error(
    blocks: Seq<TransformerBlock>,
    i: int,
    x: Seq<usize>,
) -> Option<ErrorView>
    decreases blocks.len() - i,
{
    if i < 0 || i >= blocks.len() {
        None
    } else {
        either(blocks[i].forward_error(x), blocks_error(blocks, i + 1, x))
    }
}

/// Step `i` runs block `i`.
pub open spec fn block_step<F: FloatUnit>(blocks: Seq<TransformerBlock>) -> spec_fn(
    int,
    TensorView,
    TensorView,
) -> bool {
    |i: int, x: TensorView, r: TensorView| blocks[i].transforms::<F>(x, r)
}

impl TransformerLM {
    /// Every weight is well-formed.
    pub open spec fn wf(&self) -> bool {
        &&& self.tok_embed@.wf()
        &&& self.pos_embed@.wf()
        &&& forall|i: int| 0 <= i < self.blocks@.len() ==> (#[trigger] self.blocks@[i]).wf()
        &&& self.final_ln_w@.wf()
        &&& self.final_ln_b@.wf()
        &&& self.lm_head@.wf()
    }

    /// Why the parts of the model disagree with its configuration.
    pub open spec fn wire_error(&self) -> Option<ErrorView> {
        let c = self.config;
        either(
            c.wire_error(),
            if self.blocks@.len() != c.num_layers {
                Some(ErrorView::InvalidConfig("transformer layer count disagrees"@))
            } else {
                either(
                    self.blocks_wire_error(0),
                    either(
                        shape_error(self.tok_embed@, seq![c.vocab_size, c.dim]),
                        either(
                            shape_error(self.pos_embed@, seq![c.max_seq_len, c.dim]),
                            either(
                                shape_error(self.final_ln_w@, seq![c.dim]),
                                either(
                                    shape_error(self.final_ln_b@, seq![c.dim]),
                                    shape_error(self.lm_head@, seq![c.dim, c.vocab_size]),
                                ),
                            ),
                        ),
                    ),
                )
            },
        )
    }

    /// Why one of the blocks from `i` on disagrees with the configuration.
    pub open spec fn blocks_wire_error(&self, i: int) -> Option<ErrorView>
        decreases self.blocks@.len() - i,
    {
        if i < 0 || i >= self.blocks@.len() {
            None
        } else {
            either(self.block_wire_error(i), self.blocks_wire_error(i + 1))
        }
    }

    /// Why block `i` disagrees with the configuration.
    pub open spec fn block_wire_error(&self, i: int) -> Option<ErrorView> {
        let b = self.blocks@[i];
        let c = self.config;
        either(
            b.wire_error(),
            if b.dim != c.dim || b.attn.num_heads != c.num_heads || b.ffn.w1@.shape[1] != c.ff_dim {
                Some(ErrorView::InvalidConfig("block dimensions disagree with the config"@))
            } else {
                None
            },
        )
    }

    /// Fresh weights for a configuration.
    pub open spec fn fresh<F: FloatUnit>(&self, cfg: TransformerConfig) -> bool {
        &&& self.config == cfg
        &&& sampled::<F>(self.tok_embed@, cfg.vocab_size, cfg.dim, EMBED_STD)
        &&& sampled::<F>(self.pos_embed@, cfg.max_seq_len, cfg.dim, EMBED_STD)
        &&& self.blocks@.len() == cfg.num_layers
        &&& forall|i: int|
            0 <= i < self.blocks@.len() ==> (#[trigger] self.blocks@[i]).fresh::<F>(
                cfg.dim,
                cfg.num_heads,
                cfg.ff_dim,
            )
        &&& filled_with(self.final_ln_w@, seq![cfg.dim], ONE)
        &&& filled_with(self.final_ln_b@, seq![cfg.dim], ZERO)
        &&& sampled::<F>(self.lm_head@, cfg.dim, cfg.vocab_size, EMBED_STD)
    }

    /// Why the hidden states of a sequence of ids are refused.
    pub open spec fn hidden_error(&self, ids: Seq<u32>) -> Option<ErrorView> {
        let n = ids.len() as usize;
        let tok = self.tok_embed@.shape;
        let pos = self.pos_embed@.shape;
        let x = seq![n, tok[1]];
        if n > self.config.max_seq_len {
            Some(ErrorView::InputLengthMismatch { expected: self.config.max_seq_len, got: n })
        } else {
            either(
                lookup_error(tok, ids),
                if n > 0 && n - 1 > u32::MAX {
                    Some(ErrorView::InputLengthMismatch { expected: u32::MAX as usize, got: n })
                } else {
                    either(
                        lookup_error(pos, positions(ids.len())),
                        either(
                            pairing_error(x, seq![n, pos[1]]),
                            either(
                                blocks_error(self.blocks@, 0, x),
                                norm_error(
                                    "layer_norm"@,
                                    x,
                                    seq![self.final_ln_w@, self.final_ln_b@],
                                    NORM_EPS,
                                ),
                            ),
                        ),
                    )
                },
            )
        }
    }

    /// `start` is the sum of token and position embeddings.
    pub open spec fn starts<F: FloatUnit>(&self, ids: Seq<u32>, start: TensorView) -> bool {
        &&& start.wf()
        &&& residual::<F>(
            looked_up(self.tok_embed@, ids),
            looked_up(self.pos_embed@, positions(ids.len())),
            start,
        )
    }

    /// `r` normalizes `end`, which the blocks make of `start`.
    pub open spec fn hidden_staged<F: FloatUnit>(
        &self,
        ids: Seq<u32>,
        start: TensorView,
        end: TensorView,
        r: TensorView,
    ) -> bool {
        &&& r.wf()
        &&& self.starts::<F>(ids, start)
        &&& reaches(block_step::<F>(self.blocks@), start, self.blocks@.len(), end)
        &&& layer_normalizes::<F>(end, self.final_ln_w@, self.final_ln_b@, NORM_EPS, r)
    }

    /// `r` holds the hidden states of a sequence: embeddings, blocks in order,
    /// final normalization.
    pub open spec fn hides<F: FloatUnit>(&self, ids: Seq<u32>, r: TensorView) -> bool {
        exists|start: TensorView, end: TensorView| self.hidden_staged::<F>(ids, start, end, r)
    }

    /// Why a forward pass over a sequence of ids is refused.
    pub open spec fn forward_error(&self, ids: Seq<u32>) -> Option<ErrorView> {
        either(
            self.hidden_error(ids),
            matmul_error(seq![ids.len() as usize, self.tok_embed@.shape[1]], self.lm_head@.shape),
        )
    }

    /// `r` holds the logits of a sequence: its hidden states times the head.
    pub open spec fn scores<F: FloatUnit>(&self, ids: Seq<u32>, r: TensorView) -> bool {
        exists|h: TensorView| #[trigger]
            self.hides::<F>(ids, h) && matmuls::<F>(h, self.lm_head@, r)
    }

    /// [`TransformerLM::try_new`] for a configuration known to fit.
    pub fn new<F: FloatUnit>(cfg: TransformerConfig) -> (r: Self)
        requires
            new_model_error(cfg) is None,
        ensures
            r.wf(),
            r.fresh::<F>(cfg),
    {
        unwrap_compat(Self::try_new::<F>(cfg), "TransformerLM::new")
    }

    /// A fresh model.
    pub fn try_new<F: FloatUnit>(cfg: TransformerConfig) -> (r: Result<Self, CortexError>)
        ensures
            match new_model_error(cfg) {
                Some(e) => r matches Err(x) && x@ == e,
                None => r matches Ok(t) && t.wf() && t.fresh::<F>(cfg),
            },
    {
        if cfg.num_heads == 0 || cfg.dim % cfg.num_heads != 0 {
            let mut msg: String = String::from_str("TransformerLM: num_heads (");
            msg.append(size_text(cfg.num_heads).as_str());
            msg.append(") must be nonzero and divide dim (");
            msg.append(size_text(cfg.dim).as_str());
            msg.append(")");
            return Err(CortexError::InvalidConfig(msg));
        }
        let mut blocks: Vec<TransformerBlock> = Vec::new();
        let mut i: usize = 0;
        while i < cfg.num_layers
            invariant
                i <= cfg.num_layers,
                cfg.num_heads != 0 && cfg.dim % cfg.num_heads == 0,
                i > 0 ==> new_block_error(cfg.dim, cfg.num_heads, cfg.ff_dim) is None,
                blocks@.len() == i,
                forall|j: int|
                    0 <= j < i ==> (#[trigger] blocks@[j]).wf() && blocks@[j].fresh::<F>(
                        cfg.dim,
                        cfg.num_heads,
                        cfg.ff_dim,
                    ),
            decreases cfg.num_layers - i,
        {
            match TransformerBlock::try_new::<F>(cfg.dim, cfg.num_heads, cfg.ff_dim) {
                Ok(b) => {
                    blocks.push(b);
                },
                Err(e) => {
                    return Err(e);
                },
            }
            i += 1;
        }
        let tok_embed: Tensor = match Tensor::try_randn::<F>(
            shape2(cfg.vocab_size, cfg.dim).as_slice(),
            ZERO,
            EMBED_STD,
        ) {
            Ok(t) => t,
            Err(e) => {
                return Err(e);
            },
        };
        let pos_embed: Tensor = match Tensor::try_randn::<F>(
            shape2(cfg.max_seq_len, cfg.dim).as_slice(),
            ZERO,
            EMBED_STD,
        ) {
            Ok(t) => t,
            Err(e) => {
                return Err(e);
            },
        };
        let flat: Vec<usize> = shape1(cfg.dim);
        let final_ln_w: Tensor = match Tensor::try_ones(flat.as_slice()) {
            Ok(t) => t,
            Err(e) => {
                return Err(e);
            },
        };
        let final_ln_b: Tensor = Tensor::zeros(flat.as_slice());
        let lm_head: Tensor = match Tensor::try_randn::<F>(
            shape2(cfg.dim, cfg.vocab_size).as_slice(),
            ZERO,
            EMBED_STD,
        ) {
            Ok(t) => t,
            Err(e) => {
                return Err(e);
            },
        };
        Ok(
            TransformerLM {
                config: cfg,
                tok_embed,
                pos_embed,
                blocks,
                final_ln_w,
                final_ln_b,
                lm_head,
            },
        )
    }

    /// [`TransformerLM::try_forward`] of a sequence known to fit.
    pub fn forward<F: FloatUnit>(&self, token_ids: &[u32]) -> (r: Tensor)
        requires
            self.wf(),
            self.forward_error(token_ids@) is None,
        ensures
            r@.wf(),
            r@.shape == seq![token_ids@.len() as usize, self.lm_head@.shape[1]],
            self.scores::<F>(token_ids@, r@),
    {
        unwrap_compat(self.try_forward::<F>(token_ids), "TransformerLM::forward")
    }

    /// The logits of a sequence, `[seq, vocab_size]`.
    pub fn try_forward<F: FloatUnit>(&self, token_ids: &[u32]) -> (r: Result<Tensor, CortexError>)
        requires
            self.wf(),
        ensures
            match self.forward_error(token_ids@) {
                Some(e) => r matches Err(x) && x@ == e,
                None => r matches Ok(t) && t@.wf() && t@.shape == seq![
                    token_ids@.len() as usize,
                    self.lm_head@.shape[1],
                ] && self.scores::<F>(token_ids@, t@),
            },
    {
        let h: Tensor = match self.try_hidden_states::<F>(token_ids) {
            Ok(t) => t,
            Err(e) => {
                return Err(e);
            },
        };
        let r: Result<Tensor, CortexError> = try_matmul::<F>(&h, &self.lm_head);
        assert(self.hides::<F>(token_ids@, h@));
        r
    }

    /// [`TransformerLM::try_hidden_states`] of a sequence known to fit.
    pub fn hidden_states<F: FloatUnit>(&self, token_ids: &[u32]) -> (r: Tensor)
        requires
            self.wf(),
            self.hidden_error(token_ids@) is None,
        ensures
            r@.wf(),
            r@.shape == seq![token_ids@.len() as usize, self.tok_embed@.shape[1]],
            self.hides::<F>(token_ids@, r@),
    {
        unwrap_compat(self.try_hidden_states::<F>(token_ids), "TransformerLM::hidden_states")
    }

    /// The hidden states of a sequence, before the head.
    pub fn try_hidden_states<F: FloatUnit>(&self, token_ids: &[u32]) -> (r: Result<
        Tensor,
        CortexError,
    >)
        requires
            self.wf(),
        ensures
            match self.hidden_error(token_ids@) {
                Some(e) => r matches Err(x) && x@ == e,
                None => r matches Ok(t) && t@.wf() && t@.shape == seq![
                    token_ids@.len() as usize,
                    self.tok_embed@.shape[1],
                ] && self.hides::<F>(token_ids@, t@),
            },
    {
        let seq_len: usize = token_ids.len();
        if seq_len > self.config.max_seq_len {
            return Err(
                CortexError::InputLengthMismatch {
                    expected: self.config.max_seq_len,
                    got: seq_len,
                },
            );
        }
        let tok: Tensor = match try_embedding(&self.tok_embed, token_ids) {
            Ok(t) => t,
            Err(e) => {
                return Err(e);
            },
        };
        if seq_len > 0 && seq_len - 1 > u32::MAX as usize {
            return Err(
                CortexError::InputLengthMismatch { expected: u32::MAX as usize, got: seq_len },
            );
        }
        let pos_ids: Vec<u32> = position_ids(seq_len);
        let pos: Tensor = match try_embedding(&self.pos_embed, pos_ids.as_slice()) {
            Ok(t) => t,
            Err(e) => {
                return Err(e);
            },
        };
        let start: Tensor = match tok.try_add::<F>(&pos) {
            Ok(t) => t,
            Err(e) => {
                return Err(e);
            },
        };
        let ghost step = block_step::<F>(self.blocks@);
        let ghost first = start@;
        let mut x: Tensor = start;
        proof {
            lemma_reaches_start(step, first);
        }
        let mut i: usize = 0;
        while i < self.blocks.len()
            invariant
                i <= self.blocks@.len(),
                self.wf(),
                x@.wf(),
                first.wf(),
                x@.shape == first.shape,
                step == block_step::<F>(self.blocks@),
                reaches(step, first, i as nat, x@),
                self.hidden_error(token_ids@) == either(
                    blocks_error(self.blocks@, i as int, first.shape),
                    norm_error(
                        "layer_norm"@,
                        first.shape,
                        seq![self.final_ln_w@, self.final_ln_b@],
                        NORM_EPS,
                    ),
                ),
            decreases self.blocks@.len() - i,
        {
            assert(self.blocks@[i as int].wf());
            match self.blocks[i].try_forward::<F>(&x) {
                Ok(next) => {
                    proof {
                        lemma_reaches_step(step, first, i as nat, x@, next@);
                    }
                    x = next;
                },
                Err(e) => {
                    return Err(e);
                },
            }
            i += 1;
        }
        match try_layer_norm::<F>(&x, &self.final_ln_w, &self.final_ln_b, NORM_EPS) {
            Ok(t) => {
                assert(self.hidden_staged::<F>(token_ids@, first, x@, t@));
                Ok(t)
            },
            Err(e) => Err(e),
        }
    }

    /// Number of weights the configuration implies.
    pub fn param_count(&self) -> (r: usize)
        requires
            self.config.total_params() <= usize::MAX,
            self.config.block_params() <= usize::MAX,
        ensures
            r == self.config.total_params(),
    {
        self.config.estimated_params()
    }

    /// Checks that the parts of the model agree with its configuration.
    pub fn validate_wire(&self) -> (r: Result<(), CortexError>)
        ensures
            match self.wire_error() {
                Some(e) => r matches Err(x) && x@ == e,
                None => r is Ok,
            },
    {
        match self.config.validate_wire() {
            Ok(_) => {},
            Err(e) => {
                return Err(e);
            },
        }
        if self.blocks.len() != self.config.num_layers {
            return Err(
                CortexError::InvalidConfig(String::from_str("transformer layer count disagrees")),
            );
        }
        let mut i: usize = 0;
        while i < self.blocks.len()
            invariant
                i <= self.blocks@.len(),
                self.blocks@.len() == self.config.num_layers,
                self.config.wire_error() is None,
                self.blocks_wire_error(0) == self.blocks_wire_error(i as int),
            decreases self.blocks@.len() - i,
        {
            let b: &TransformerBlock = &self.blocks[i];
            match b.validate_wire() {
                Ok(_) => {},
                Err(e) => {
                    return Err(e);
                },
            }
            if b.dim != self.config.dim || b.attn.num_heads != self.config.num_heads
                || b.ffn.w1.shape()[1] != self.config.ff_dim {
                return Err(
                    CortexError::InvalidConfig(
                        String::from_str("block dimensions disagree with the config"),
                    ),
                );
            }
            i += 1;
        }
        match expect_shape(
            &self.tok_embed,
            shape2(self.config.vocab_size, self.config.dim).as_slice(),
        ) {
            Ok(_) => {},
            Err(e) => {
                return Err(e);
            },
        }
        match expect_shape(
            &self.pos_embed,
            shape2(self.config.max_seq_len, self.config.dim).as_slice(),
        ) {
            Ok(_) => {},
            Err(e) => {
                return Err(e);
            },
        }
        let flat: Vec<usize> = shape1(self.config.dim);
        match expect_shape(&self.final_ln_w, flat.as_slice()) {
            Ok(_) => {},
            Err(e) => {
                return Err(e);
            },
        }
        match expect_shape(&self.final_ln_b, flat.as_slice()) {
            Ok(_) => {},
            Err(e) => {
                return Err(e);
            },
        }
        expect_shape(&self.lm_head, shape2(self.config.dim, self.config.vocab_size).as_slice())
    }
}

/// The ids `0, 1, .., n - 1`.
fn position_ids(n: usize) -> (r: Vec<u32>)
    requires
        n == 0 || n - 1 <= u32::MAX,
    ensures
        r@ == positions(n as nat),
{
    let mut v: Vec<u32> = Vec::new();
    let mut i: usize = 0;
    while i < n
        invariant
            i <= n,
            n == 0 || n - 1 <= u32::MAX,
            v@.len() == i,
            forall|j: int| 0 <= j < i ==> v@[j] == j as u32,
        decreases n - i,
    {
        v.push(i as u32);
        i += 1;
    }
    assert(v@ =~= positions(n as nat));
    v
}

} // verus!
