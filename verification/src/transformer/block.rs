//! Feed-forward networks and transformer blocks.

use vstd::prelude::*;
use crate::error::{CortexError, ErrorView, unwrap_compat};
use crate::float::{FloatUnit, adds};
use crate::ieee::{ONE, ZERO};
use crate::tensor::{Tensor, TensorView, alloc_error, gelus, maps, pairing_error, zips};
use crate::tensor::layout::{shape1, shape2};
use crate::tensor::ops::{layer_normalizes, norm_error, try_layer_norm};
use crate::transformer::attention::{MultiHeadAttention, filled_with, new_attention_error, sampled};
use crate::transformer::linear::{
    either, expect_shape, inverse_root, inverse_roots, linear_error, linears, shape_error,
    try_linear,
};

verus! {

/// Epsilon of every layer normalization: `1e-5` as binary32.
pub const NORM_EPS: u32 = 0x3727_C5AC;

/// Two affine maps with a GELU between them.
#[derive(Clone)]
pub struct FeedForward {
    /// `[dim, ff_dim]`
    pub w1: Tensor,
    /// `[1, ff_dim]`
    pub b1: Tensor,
    /// `[ff_dim, dim]`
    pub w2: Tensor,
    /// `[1, dim]`
    pub b2: Tensor,
}

/// Why a feed-forward network of these widths cannot be stored.
pub open spec fn new_ffn_error(dim: usize, ff_dim: usize) -> Option<ErrorView> {
    either(
        alloc_error(seq![dim, ff_dim]),
        either(
            alloc_error(seq![1usize, ff_dim]),
            either(alloc_error(seq![ff_dim, dim]), alloc_error(seq![1usize, dim])),
        ),
    )
}

impl FeedForward {
    /// Every weight is well-formed.
    pub open spec fn wf(&self) -> bool {
        &&& self.w1@.wf()
        &&& self.b1@.wf()
        &&& self.w2@.wf()
        &&& self.b2@.wf()
    }

    /// Why the weights do not fit the widths `dim` and `ff_dim`.
    pub open spec fn wire_error(&self, dim: usize, ff_dim: usize) -> Option<ErrorView> {
        either(
            shape_error(self.w1@, seq![dim, ff_dim]),
            either(
                shape_error(self.b1@, seq![1usize, ff_dim]),
                either(
                    shape_error(self.w2@, seq![ff_dim, dim]),
                    shape_error(self.b2@, seq![1usize, dim]),
                ),
            ),
        )
    }

    /// Why a forward pass over a tensor of shape `x` is refused.
    pub open spec fn forward_error(&self, x: Seq<usize>) -> Option<ErrorView> {
        if x.len() != 2 {
            Some(ErrorView::RankMismatch { expected: 2, got: x.len() as usize })
        } else {
            either(
                linear_error(x, self.w1@.shape, self.b1@.data.len()),
                linear_error(
                    seq![x[0], self.w1@.shape[1]],
                    self.w2@.shape,
                    self.b2@.data.len(),
                ),
            )
        }
    }

    /// `r` is `gelu(x @ w1 + b1) @ w2 + b2`.
    pub open spec fn feeds<F: FloatUnit>(&self, x: TensorView, r: TensorView) -> bool {
        exists|h: TensorView, g: TensorView| self.staged::<F>(x, h, g, r)
    }

    pub open spec fn staged<F: FloatUnit>(
        &self,
        x: TensorView,
        h: TensorView,
        g: TensorView,
        r: TensorView,
    ) -> bool {
        &&& linears::<F>(x, self.w1@, self.b1@, h)
        &&& maps(|a: u32, b: u32| gelus::<F>(a, b), h, g)
        &&& linears::<F>(g, self.w2@, self.b2@, r)
    }

    /// Fresh weights: normal samples of deviation `1 / sqrt(dim)`, zero biases.
    pub open spec fn fresh<F: FloatUnit>(&self, dim: usize, ff_dim: usize) -> bool {
        &&& exists|s: u32| #[trigger]
            inverse_roots::<F>(dim, s) && sampled::<F>(self.w1@, dim, ff_dim, s) && sampled::<F>(
                self.w2@,
                ff_dim,
                dim,
                s,
            )
        &&& filled_with(self.b1@, seq![1usize, ff_dim], ZERO)
        &&& filled_with(self.b2@, seq![1usize, dim], ZERO)
    }

    /// Checks that the weights fit the widths `dim` and `ff_dim`.
    pub fn validate_wire(&self, dim: usize, ff_dim: usize) -> (r: Result<(), CortexError>)
        ensures
            match self.wire_error(dim, ff_dim) {
                Some(e) => r matches Err(x) && x@ == e,
                None => r is Ok,
            },
    {
        match expect_shape(&self.w1, shape2(dim, ff_dim).as_slice()) {
            Ok(_) => {},
            Err(e) => {
                return Err(e);
            },
        }
        match expect_shape(&self.b1, shape2(1, ff_dim).as_slice()) {
            Ok(_) => {},
            Err(e) => {
                return Err(e);
            },
        }
        match expect_shape(&self.w2, shape2(ff_dim, dim).as_slice()) {
            Ok(_) => {},
            Err(e) => {
                return Err(e);
            },
        }
        expect_shape(&self.b2, shape2(1, dim).as_slice())
    }

    /// Why the weights disagree among themselves: the first matrix sets the
    /// widths.
    pub open spec fn own_wire_error(&self) -> Option<ErrorView> {
        let w = self.w1@.shape;
        if w.len() != 2 {
            Some(ErrorView::RankMismatch { expected: 2, got: w.len() as usize })
        } else {
            self.wire_error(w[0], w[1])
        }
    }

    /// Checks that the weights agree with the widths of the first matrix.
    pub fn validate_own_wire(&self) -> (r: Result<(), CortexError>)
        ensures
            match self.own_wire_error() {
                Some(e) => r matches Err(x) && x@ == e,
                None => r is Ok,
            },
    {
        if self.w1.ndim() != 2 {
            return Err(CortexError::RankMismatch { expected: 2, got: self.w1.ndim() });
        }
        self.validate_wire(self.w1.shape()[0], self.w1.shape()[1])
    }

    /// [`FeedForward::try_new`] for widths known to fit.
    pub fn new<F: FloatUnit>(dim: usize, ff_dim: usize) -> (r: Self)
        requires
            new_ffn_error(dim, ff_dim) is None,
        ensures
            r.wf(),
            r.fresh::<F>(dim, ff_dim),
    {
        unwrap_compat(Self::try_new::<F>(dim, ff_dim), "FeedForward::new")
    }

    /// A fresh network `dim -> ff_dim -> dim`.
    pub fn try_new<F: FloatUnit>(dim: usize, ff_dim: usize) -> (r: Result<Self, CortexError>)
        ensures
            match new_ffn_error(dim, ff_dim) {
                Some(e) => r matches Err(x) && x@ == e,
                None => r matches Ok(t) && t.wf() && t.fresh::<F>(dim, ff_dim),
            },
    {
        let scale: u32 = inverse_root::<F>(dim);
        let w1: Tensor = match Tensor::try_randn::<F>(
            shape2(dim, ff_dim).as_slice(),
            ZERO,
            scale,
        ) {
            Ok(t) => t,
            Err(e) => {
                return Err(e);
            },
        };
        let b1: Tensor = match Tensor::try_zeros(shape2(1, ff_dim).as_slice()) {
            Ok(t) => t,
            Err(e) => {
                return Err(e);
            },
        };
        let w2: Tensor = match Tensor::try_randn::<F>(
            shape2(ff_dim, dim).as_slice(),
            ZERO,
            scale,
        ) {
            Ok(t) => t,
            Err(e) => {
                return Err(e);
            },
        };
        let b2: Tensor = match Tensor::try_zeros(shape2(1, dim).as_slice()) {
            Ok(t) => t,
            Err(e) => {
                return Err(e);
            },
        };
        assert(inverse_roots::<F>(dim, scale));
        Ok(FeedForward { w1, b1, w2, b2 })
    }

    /// [`FeedForward::try_forward`] of an input known to fit.
    pub fn forward<F: FloatUnit>(&self, x: &Tensor) -> (r: Tensor)
        requires
            self.wf(),
            x@.wf(),
            self.forward_error(x@.shape) is None,
        ensures
            r@.wf(),
            r@.shape == seq![x@.shape[0], self.w2@.shape[1]],
            self.feeds::<F>(x@, r@),
    {
        unwrap_compat(self.try_forward::<F>(x), "FeedForward::forward")
    }

    /// The network over every row of `x: [seq, dim]`.
    pub fn try_forward<F: FloatUnit>(&self, x: &Tensor) -> (r: Result<Tensor, CortexError>)
        requires
            self.wf(),
            x@.wf(),
        ensures
            match self.forward_error(x@.shape) {
                Some(e) => r matches Err(v) && v@ == e,
                None => r matches Ok(t) && t@.wf() && t@.shape == seq![
                    x@.shape[0],
                    self.w2@.shape[1],
                ] && self.feeds::<F>(x@, t@),
            },
    {
        if x.ndim() != 2 {
            return Err(CortexError::RankMismatch { expected: 2, got: x.ndim() });
        }
        let h: Tensor = match try_linear::<F>(x, &self.w1, &self.b1) {
            Ok(t) => t,
            Err(e) => {
                return Err(e);
            },
        };
        let g: Tensor = h.gelu::<F>();
        match try_linear::<F>(&g, &self.w2, &self.b2) {
            Ok(t) => {
                assert(self.staged::<F>(x@, h@, g@, t@));
                Ok(t)
            },
            Err(e) => Err(e),
        }
    }

    /// Number of weights.
    pub fn param_count(&self) -> (r: usize)
        requires
            self.w1@.data.len() + self.b1@.data.len() + self.w2@.data.len() + self.b2@.data.len()
                <= usize::MAX,
        ensures
            r == self.w1@.data.len() + self.b1@.data.len() + self.w2@.data.len()
                + self.b2@.data.len(),
    {
        self.w1.numel() + self.b1.numel() + self.w2.numel() + self.b2.numel()
    }
}

/// One pre-norm block: attention and a feed-forward network, each behind a
/// layer normalization and added to its input.
#[derive(Clone)]
pub struct TransformerBlock {
    pub attn: MultiHeadAttention,
    pub ffn: FeedForward,
    pub ln1_w: Tensor,
    pub ln1_b: Tensor,
    pub ln2_w: Tensor,
    pub ln2_b: Tensor,
    pub dim: usize,
}

/// Why a block of these dimensions cannot be made.
pub open spec fn new_block_error(dim: usize, num_heads: usize, ff_dim: usize) -> Option<
    ErrorView,
> {
    either(
        new_attention_error(dim, num_heads),
        either(new_ffn_error(dim, ff_dim), alloc_error(seq![dim])),
    )
}

/// `r` is the elementwise sum.
pub open spec fn residual<F: FloatUnit>(x: TensorView, y: TensorView, r: TensorView) -> bool {
    zips(|a: u32, b: u32, c: u32| adds::<F>(a, b, c), x, y, r)
}

/// Intermediate tensors of one block.
pub struct BlockStages {
    pub normed: TensorView,
    pub attended: TensorView,
    pub mid: TensorView,
    pub normed2: TensorView,
    pub fed: TensorView,
}

impl BlockStages {
    /// Every intermediate tensor is well-formed.
    pub open spec fn wf(self) -> bool {
        &&& self.normed.wf()
        &&& self.attended.wf()
        &&& self.mid.wf()
        &&& self.normed2.wf()
        &&& self.fed.wf()
    }
}

impl TransformerBlock {
    /// Every weight is well-formed.
    pub open spec fn wf(&self) -> bool {
        &&& self.attn.wf()
        &&& self.ffn.wf()
        &&& self.ln1_w@.wf()
        &&& self.ln1_b@.wf()
        &&& self.ln2_w@.wf()
        &&& self.ln2_b@.wf()
    }

    /// Why the parts of the block disagree.
    pub open spec fn wire_error(&self) -> Option<ErrorView> {
        let flat = seq![self.dim];
        either(
            self.attn.wire_error(),
            if self.attn.dim != self.dim {
                Some(ErrorView::InvalidConfig("block dimensions disagree"@))
            } else if self.ffn.w1@.shape.len() != 2 {
                Some(
                    ErrorView::RankMismatch {
                        expected: 2,
                        got: self.ffn.w1@.shape.len() as usize,
                    },
                )
            } else {
                either(
                    self.ffn.wire_error(self.dim, self.ffn.w1@.shape[1]),
                    either(
                        shape_error(self.ln1_w@, flat),
                        either(
                            shape_error(self.ln1_b@, flat),
                            either(shape_error(self.ln2_w@, flat), shape_error(self.ln2_b@, flat)),
                        ),
                    ),
                )
            },
        )
    }

    /// Why a forward pass over a tensor of shape `x` is refused.
    pub open spec fn forward_error(&self, x: Seq<usize>) -> Option<ErrorView> {
        either(
            norm_error("layer_norm"@, x, seq![self.ln1_w@, self.ln1_b@], NORM_EPS),
            either(
                self.attn.forward_error(x),
                either(
                    norm_error("layer_norm"@, x, seq![self.ln2_w@, self.ln2_b@], NORM_EPS),
                    either(
                        self.ffn.forward_error(x),
                        pairing_error(x, seq![x[0], self.ffn.w2@.shape[1]]),
                    ),
                ),
            ),
        )
    }

    pub open spec fn staged<F: FloatUnit>(
        &self,
        x: TensorView,
        t: BlockStages,
        r: TensorView,
    ) -> bool {
        &&& t.wf()
        &&& r.wf()
        &&& layer_normalizes::<F>(x, self.ln1_w@, self.ln1_b@, NORM_EPS, t.normed)
        &&& self.attn.attends::<F>(t.normed, t.attended)
        &&& residual::<F>(x, t.attended, t.mid)
        &&& layer_normalizes::<F>(t.mid, self.ln2_w@, self.ln2_b@, NORM_EPS, t.normed2)
        &&& self.ffn.feeds::<F>(t.normed2, t.fed)
        &&& residual::<F>(t.mid, t.fed, r)
    }

    /// `r` is the block output for `x`: `y + ffn(norm(y))` with
    /// `y = x + attn(norm(x))`.
    pub open spec fn transforms<F: FloatUnit>(&self, x: TensorView, r: TensorView) -> bool {
        exists|t: BlockStages| self.staged::<F>(x, t, r)
    }

    /// Fresh parts: unit norms without shift.
    pub open spec fn fresh<F: FloatUnit>(
        &self,
        dim: usize,
        num_heads: usize,
        ff_dim: usize,
    ) -> bool {
        &&& self.dim == dim
        &&& self.attn.fresh::<F>(dim, num_heads)
        &&& self.ffn.fresh::<F>(dim, ff_dim)
        &&& filled_with(self.ln1_w@, seq![dim], ONE)
        &&& filled_with(self.ln1_b@, seq![dim], ZERO)
        &&& filled_with(self.ln2_w@, seq![dim], ONE)
        &&& filled_with(self.ln2_b@, seq![dim], ZERO)
    }

    /// Checks that the parts of the block agree on their dimensions.
    pub fn validate_wire(&self) -> (r: Result<(), CortexError>)
        ensures
            match self.wire_error() {
                Some(e) => r matches Err(x) && x@ == e,
                None => r is Ok,
            },
    {
        match self.attn.validate_wire() {
            Ok(_) => {},
            Err(e) => {
                return Err(e);
            },
        }
        if self.attn.dim != self.dim {
            return Err(CortexError::InvalidConfig(String::from_str("block dimensions disagree")));
        }
        if self.ffn.w1.ndim() != 2 {
            return Err(CortexError::RankMismatch { expected: 2, got: self.ffn.w1.ndim() });
        }
        match self.ffn.validate_wire(self.dim, self.ffn.w1.shape()[1]) {
            Ok(_) => {},
            Err(e) => {
                return Err(e);
            },
        }
        let flat: Vec<usize> = shape1(self.dim);
        match expect_shape(&self.ln1_w, flat.as_slice()) {
            Ok(_) => {},
            Err(e) => {
                return Err(e);
            },
        }
        match expect_shape(&self.ln1_b, flat.as_slice()) {
            Ok(_) => {},
            Err(e) => {
                return Err(e);
            },
        }
        match expect_shape(&self.ln2_w, flat.as_slice()) {
            Ok(_) => {},
            Err(e) => {
                return Err(e);
            },
        }
        expect_shape(&self.ln2_b, flat.as_slice())
    }

    /// [`TransformerBlock::try_new`] for dimensions known to fit.
    pub fn new<F: FloatUnit>(dim: usize, num_heads: usize, ff_dim: usize) -> (r: Self)
        requires
            new_block_error(dim, num_heads, ff_dim) is None,
        ensures
            r.wf(),
            r.fresh::<F>(dim, num_heads, ff_dim),
    {
        unwrap_compat(Self::try_new::<F>(dim, num_heads, ff_dim), "TransformerBlock::new")
    }

    /// A fresh block.
    pub fn try_new<F: FloatUnit>(dim: usize, num_heads: usize, ff_dim: usize) -> (r: Result<
        Self,
        CortexError,
    >)
        ensures
            match new_block_error(dim, num_heads, ff_dim) {
                Some(e) => r matches Err(x) && x@ == e,
                None => r matches Ok(t) && t.wf() && t.fresh::<F>(dim, num_heads, ff_dim),
            },
    {
        let attn: MultiHeadAttention = match MultiHeadAttention::try_new::<F>(dim, num_heads) {
            Ok(t) => t,
            Err(e) => {
                return Err(e);
            },
        };
        let ffn: FeedForward = match FeedForward::try_new::<F>(dim, ff_dim) {
            Ok(t) => t,
            Err(e) => {
                return Err(e);
            },
        };
        let flat: Vec<usize> = shape1(dim);
        let ln1_w: Tensor = match Tensor::try_ones(flat.as_slice()) {
            Ok(t) => t,
            Err(e) => {
                return Err(e);
            },
        };
        let ln1_b: Tensor = Tensor::zeros(flat.as_slice());
        let ln2_w: Tensor = Tensor::ones(flat.as_slice());
        let ln2_b: Tensor = Tensor::zeros(flat.as_slice());
        Ok(TransformerBlock { attn, ffn, ln1_w, ln1_b, ln2_w, ln2_b, dim })
    }

    /// [`TransformerBlock::try_forward`] of an input known to fit.
    pub fn forward<F: FloatUnit>(&self, x: &Tensor) -> (r: Tensor)
        requires
            self.wf(),
            x@.wf(),
            self.forward_error(x@.shape) is None,
        ensures
            r@.wf(),
            r@.shape == x@.shape,
            self.transforms::<F>(x@, r@),
    {
        unwrap_compat(self.try_forward::<F>(x), "TransformerBlock::forward")
    }

    /// The block over `x: [seq, dim]`.
    pub fn try_forward<F: FloatUnit>(&self, x: &Tensor) -> (r: Result<Tensor, CortexError>)
        requires
            self.wf(),
            x@.wf(),
        ensures
            match self.forward_error(x@.shape) {
                Some(e) => r matches Err(v) && v@ == e,
                None => r matches Ok(t) && t@.wf() && t@.shape == x@.shape && self.transforms::<F>(
                    x@,
                    t@,
                ),
            },
    {
        let normed: Tensor = match try_layer_norm::<F>(x, &self.ln1_w, &self.ln1_b, NORM_EPS) {
            Ok(t) => t,
            Err(e) => {
                return Err(e);
            },
        };
        let attended: Tensor = match self.attn.try_forward::<F>(&normed) {
            Ok(t) => t,
            Err(e) => {
                return Err(e);
            },
        };
        let mid: Tensor = match x.try_add::<F>(&attended) {
            Ok(t) => t,
            Err(e) => {
                return Err(e);
            },
        };
        let normed2: Tensor = match try_layer_norm::<F>(
            &mid,
            &self.ln2_w,
            &self.ln2_b,
            NORM_EPS,
        ) {
            Ok(t) => t,
            Err(e) => {
                return Err(e);
            },
        };
        let fed: Tensor = match self.ffn.try_forward::<F>(&normed2) {
            Ok(t) => t,
            Err(e) => {
                return Err(e);
            },
        };
        let out: Tensor = match mid.try_add::<F>(&fed) {
            Ok(t) => t,
            Err(e) => {
                return Err(e);
            },
        };
        proof {
            let t = BlockStages {
                normed: normed@,
                attended: attended@,
                mid: mid@,
                normed2: normed2@,
                fed: fed@,
            };
            assert(self.staged::<F>(x@, t, out@));
        }
        Ok(out)
    }

    /// Number of weights.
    pub fn param_count(&self) -> (r: usize)
        requires
            4 * (self.attn.dim * self.attn.dim) + 4 * self.attn.dim + self.ffn.w1@.data.len()
                + self.ffn.b1@.data.len() + self.ffn.w2@.data.len() + self.ffn.b2@.data.len() + 4
                * self.dim <= usize::MAX,
        ensures
            r == 4 * (self.attn.dim * self.attn.dim) + 4 * self.attn.dim + self.ffn.w1@.data.len()
                + self.ffn.b1@.data.len() + self.ffn.w2@.data.len() + self.ffn.b2@.data.len() + 4
                * self.dim,
    {
        proof {
            let d = self.attn.dim as int;
            assert(0 <= d * d) by (nonlinear_arith);
        }
        self.attn.param_count() + self.ffn.param_count() + 4 * self.dim
    }
}

} // verus!
