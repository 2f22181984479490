//! Multi-head self-attention.

use vstd::prelude::*;
use vstd::string::StringExecFns;
use crate::error::{CortexError, ErrorView, unwrap_compat};
use crate::float::{FloatUnit, adds, muls};
use crate::ieee::ZERO;
use crate::tensor::{Tensor, TensorView, alloc_error, maps, samples};
use crate::tensor::finite::{softmax_row, softmaxes};
use crate::tensor::layout::{lemma_numel_2, lemma_numel_3, numel, shape2};
use crate::tensor::ops::{batched_matmuls, causal, plane, try_batched_matmul, try_causal_mask};
use crate::tensor::rows::{lemma_push_row, row_of, row_slice};
use crate::text::{decimal, size_text};
use crate::transformer::heads::{
    lemma_extents, merge_heads, reshape_heads, swaps, transpose_last_two, transposes_planes,
};
use crate::transformer::linear::{
    either, expect_shape, inverse_root, inverse_roots, linear_error, linears, shape_error,
    try_linear,
};

verus! {

/// Multi-head self-attention with causal masking.
///
/// Projection weights are `[dim, dim]` matrices, biases `[1, dim]`.
#[derive(Clone)]
pub struct MultiHeadAttention {
    pub num_heads: usize,
    pub head_dim: usize,
    pub dim: usize,
    pub wq: Tensor,
    pub wb_q: Tensor,
    pub wk: Tensor,
    pub wb_k: Tensor,
    pub wv: Tensor,
    pub wb_v: Tensor,
    pub wo: Tensor,
    pub wb_o: Tensor,
}

/// Why attention of width `dim` cannot have `num_heads` heads.
pub open spec fn new_attention_error(dim: usize, num_heads: usize) -> Option<ErrorView> {
    if dim == 0 || num_heads == 0 || dim % num_heads != 0 {
        Some(
            ErrorView::InvalidConfig(
                "MultiHeadAttention: dim ("@ + decimal(dim as nat) + ") and num_heads ("@ + decimal(
                    num_heads as nat,
                )
                    + ") must be nonzero, and num_heads must divide dim"@,
            ),
        )
    } else {
        either(alloc_error(seq![dim, dim]), alloc_error(seq![1usize, dim]))
    }
}

/// A `[rows, cols]` matrix of normal samples around zero.
pub open spec fn sampled<F: FloatUnit>(
    t: TensorView,
    rows: usize,
    cols: usize,
    std: u32,
) -> bool {
    &&& t.wf()
    &&& t.shape == seq![rows, cols]
    &&& forall|i: int| 0 <= i < t.data.len() ==> samples::<F>(ZERO, std, #[trigger] t.data[i])
}

/// A tensor of the given shape with `x` everywhere.
pub open spec fn filled_with(t: TensorView, shape: Seq<usize>, x: u32) -> bool {
    &&& t.wf()
    &&& t.shape == shape
    &&& t.data == Seq::new(numel(shape), |i: int| x)
}

/// `scores` with the mask added to every matrix.
pub open spec fn masks<F: FloatUnit>(scores: TensorView, mask: TensorView, r: TensorView) -> bool {
    &&& r.shape == scores.shape
    &&& forall|h: int, i: int|
        0 <= h < scores.shape[0] && 0 <= i < mask.data.len() ==> adds::<F>(
            plane(scores, h)[i],
            mask.data[i],
            #[trigger] plane(r, h)[i],
        )
}

/// Every row of every matrix of `r` is the softmax of that row of `t`.
pub open spec fn softmaxes_rows<F: FloatUnit>(t: TensorView, r: TensorView) -> bool {
    &&& r.shape == t.shape
    &&& forall|q: int|
        0 <= q < t.shape[0] * t.shape[1] ==> softmaxes::<F>(
            row_of(t.data, t.shape[2] as nat, q),
            #[trigger] row_of(r.data, t.shape[2] as nat, q),
        )
}

/// Intermediate tensors of one attention pass.
pub struct AttentionStages {
    pub q: TensorView,
    pub k: TensorView,
    pub v: TensorView,
    pub qh: TensorView,
    pub kh: TensorView,
    pub vh: TensorView,
    pub kt: TensorView,
    pub scale: u32,
    pub scores: TensorView,
    pub scaled: TensorView,
    pub masked: TensorView,
    pub attn: TensorView,
    pub ctx: TensorView,
    pub merged: TensorView,
}

impl AttentionStages {
    /// Every intermediate tensor is well-formed.
    pub open spec fn wf(self) -> bool {
        &&& self.q.wf()
        &&& self.k.wf()
        &&& self.v.wf()
        &&& self.qh.wf()
        &&& self.kh.wf()
        &&& self.vh.wf()
        &&& self.kt.wf()
        &&& self.scores.wf()
        &&& self.scaled.wf()
        &&& self.masked.wf()
        &&& self.attn.wf()
        &&& self.ctx.wf()
        &&& self.merged.wf()
    }
}

/// `r` is `t` split into heads.
pub open spec fn splits_heads(t: TensorView, seq: usize, nh: usize, hd: usize, r: TensorView) -> bool {
    &&& r.shape == seq![nh, seq, hd]
    &&& swaps(t.data, seq as nat, nh as nat, hd as nat, r.data)
}

/// `r` is `t` with its heads side by side.
pub open spec fn merges_heads(t: TensorView, seq: usize, nh: usize, hd: usize, r: TensorView) -> bool {
    &&& r.shape == seq![seq, (nh * hd) as usize]
    &&& swaps(t.data, nh as nat, seq as nat, hd as nat, r.data)
}

impl MultiHeadAttention {
    /// Every weight is well-formed.
    pub open spec fn wf(&self) -> bool {
        &&& self.wq@.wf()
        &&& self.wb_q@.wf()
        &&& self.wk@.wf()
        &&& self.wb_k@.wf()
        &&& self.wv@.wf()
        &&& self.wb_v@.wf()
        &&& self.wo@.wf()
        &&& self.wb_o@.wf()
    }

    /// Why the stored dimensions and weights disagree.
    pub open spec fn wire_error(&self) -> Option<ErrorView> {
        let square = seq![self.dim, self.dim];
        let flat = seq![1usize, self.dim];
        if self.dim == 0 || self.num_heads == 0 || self.num_heads * self.head_dim != self.dim {
            Some(ErrorView::InvalidConfig("attention head dimensions disagree"@))
        } else {
            either(
                shape_error(self.wq@, square),
                either(
                    shape_error(self.wk@, square),
                    either(
                        shape_error(self.wv@, square),
                        either(
                            shape_error(self.wo@, square),
                            self.bias_error(flat),
                        ),
                    ),
                ),
            )
        }
    }

    /// Why a bias does not have the shape `flat`.
    pub open spec fn bias_error(&self, flat: Seq<usize>) -> Option<ErrorView> {
        either(
            shape_error(self.wb_q@, flat),
            either(
                shape_error(self.wb_k@, flat),
                either(shape_error(self.wb_v@, flat), shape_error(self.wb_o@, flat)),
            ),
        )
    }

    /// Why a forward pass over a tensor of shape `x` is refused.
    pub open spec fn forward_error(&self, x: Seq<usize>) -> Option<ErrorView> {
        let (nh, hd) = (self.num_heads, self.head_dim);
        if x.len() != 2 {
            Some(ErrorView::RankMismatch { expected: 2, got: x.len() as usize })
        } else if x[1] != self.dim {
            Some(
                ErrorView::DimMismatch {
                    op: "MultiHeadAttention::try_forward"@,
                    axis: 1,
                    expected: self.dim,
                    got: x[1],
                },
            )
        } else if nh == 0 || nh * hd != self.dim {
            Some(
                ErrorView::InvalidConfig(
                    "MultiHeadAttention: num_heads ("@ + decimal(nh as nat) + ") * head_dim ("@
                        + decimal(hd as nat) + ") != dim ("@ + decimal(self.dim as nat) + ")"@,
                ),
            )
        } else {
            either(
                self.bias_error(seq![1usize, self.dim]),
                either(
                    linear_error(x, self.wq@.shape, self.dim as nat),
                    either(
                        linear_error(x, self.wk@.shape, self.dim as nat),
                        either(
                            linear_error(x, self.wv@.shape, self.dim as nat),
                            either(
                                self.core_error(x[0]),
                                linear_error(x, self.wo@.shape, self.dim as nat),
                            ),
                        ),
                    ),
                ),
            )
        }
    }

    /// Why the scores, the mask or the context of `seq` positions cannot be stored.
    pub open spec fn core_error(&self, seq: usize) -> Option<ErrorView> {
        either(
            alloc_error(seq![self.num_heads, seq, seq]),
            either(
                alloc_error(seq![seq, seq]),
                alloc_error(seq![self.num_heads, seq, self.head_dim]),
            ),
        )
    }

    /// `r` follows from `x` through the stages `t`.
    pub open spec fn staged<F: FloatUnit>(
        &self,
        x: TensorView,
        t: AttentionStages,
        r: TensorView,
    ) -> bool {
        let seq = x.shape[0];
        let (nh, hd) = (self.num_heads, self.head_dim);
        &&& t.wf()
        &&& linears::<F>(x, self.wq@, self.wb_q@, t.q)
        &&& linears::<F>(x, self.wk@, self.wb_k@, t.k)
        &&& linears::<F>(x, self.wv@, self.wb_v@, t.v)
        &&& splits_heads(t.q, seq, nh, hd, t.qh)
        &&& splits_heads(t.k, seq, nh, hd, t.kh)
        &&& splits_heads(t.v, seq, nh, hd, t.vh)
        &&& transposes_planes(t.kh, t.kt)
        &&& inverse_roots::<F>(hd, t.scale)
        &&& batched_matmuls::<F>(t.qh, t.kt, t.scores)
        &&& maps(|a: u32, b: u32| muls::<F>(a, t.scale, b), t.scores, t.scaled)
        &&& masks::<F>(t.scaled, causal(seq), t.masked)
        &&& softmaxes_rows::<F>(t.masked, t.attn)
        &&& batched_matmuls::<F>(t.attn, t.vh, t.ctx)
        &&& merges_heads(t.ctx, seq, nh, hd, t.merged)
        &&& linears::<F>(t.merged, self.wo@, self.wb_o@, r)
    }

    /// `r` is the attention output for `x`.
    pub open spec fn attends<F: FloatUnit>(&self, x: TensorView, r: TensorView) -> bool {
        exists|t: AttentionStages| self.staged::<F>(x, t, r)
    }

    /// Fresh weights: normal samples of deviation `1 / sqrt(dim)`, zero biases.
    pub open spec fn fresh<F: FloatUnit>(&self, dim: usize, num_heads: usize) -> bool {
        &&& self.num_heads == num_heads
        &&& self.head_dim == dim / num_heads
        &&& self.dim == dim
        &&& exists|s: u32| #[trigger]
            inverse_roots::<F>(dim, s) && sampled::<F>(self.wq@, dim, dim, s) && sampled::<F>(
                self.wk@,
                dim,
                dim,
                s,
            ) && sampled::<F>(self.wv@, dim, dim, s) && sampled::<F>(self.wo@, dim, dim, s)
        &&& filled_with(self.wb_q@, seq![1usize, dim], ZERO)
        &&& filled_with(self.wb_k@, seq![1usize, dim], ZERO)
        &&& filled_with(self.wb_v@, seq![1usize, dim], ZERO)
        &&& filled_with(self.wb_o@, seq![1usize, dim], ZERO)
    }

    /// Checks that dimensions and weights agree.
    pub fn validate_wire(&self) -> (r: Result<(), CortexError>)
        ensures
            match self.wire_error() {
                Some(e) => r matches Err(x) && x@ == e,
                None => r is Ok,
            },
    {
        let product: Option<usize> = self.num_heads.checked_mul(self.head_dim);
        if self.dim == 0 || self.num_heads == 0 || product != Some(self.dim) {
            return Err(
                CortexError::InvalidConfig(String::from_str("attention head dimensions disagree")),
            );
        }
        let square: Vec<usize> = shape2(self.dim, self.dim);
        match expect_shape(&self.wq, square.as_slice()) {
            Ok(_) => {},
            Err(e) => {
                return Err(e);
            },
        }
        match expect_shape(&self.wk, square.as_slice()) {
            Ok(_) => {},
            Err(e) => {
                return Err(e);
            },
        }
        match expect_shape(&self.wv, square.as_slice()) {
            Ok(_) => {},
            Err(e) => {
                return Err(e);
            },
        }
        match expect_shape(&self.wo, square.as_slice()) {
            Ok(_) => {},
            Err(e) => {
                return Err(e);
            },
        }
        self.check_biases()
    }

    fn check_biases(&self) -> (r: Result<(), CortexError>)
        ensures
            match self.bias_error(seq![1usize, self.dim]) {
                Some(e) => r matches Err(x) && x@ == e,
                None => r is Ok,
            },
    {
        let flat: Vec<usize> = shape2(1, self.dim);
        match expect_shape(&self.wb_q, flat.as_slice()) {
            Ok(_) => {},
            Err(e) => {
                return Err(e);
            },
        }
        match expect_shape(&self.wb_k, flat.as_slice()) {
            Ok(_) => {},
            Err(e) => {
                return Err(e);
            },
        }
        match expect_shape(&self.wb_v, flat.as_slice()) {
            Ok(_) => {},
            Err(e) => {
                return Err(e);
            },
        }
        expect_shape(&self.wb_o, flat.as_slice())
    }

    /// [`MultiHeadAttention::try_new`] for dimensions known to fit.
    pub fn new<F: FloatUnit>(dim: usize, num_heads: usize) -> (r: Self)
        requires
            new_attention_error(dim, num_heads) is None,
        ensures
            r.wf(),
            r.fresh::<F>(dim, num_heads),
    {
        unwrap_compat(Self::try_new::<F>(dim, num_heads), "MultiHeadAttention::new")
    }

    /// Fresh attention of width `dim`, which `num_heads` must divide.
    pub fn try_new<F: FloatUnit>(dim: usize, num_heads: usize) -> (r: Result<Self, CortexError>)
        ensures
            match new_attention_error(dim, num_heads) {
                Some(e) => r matches Err(x) && x@ == e,
                None => r matches Ok(t) && t.wf() && t.fresh::<F>(dim, num_heads),
            },
    {
        if dim == 0 || num_heads == 0 || dim % num_heads != 0 {
            let mut msg: String = String::from_str("MultiHeadAttention: dim (");
            msg.append(size_text(dim).as_str());
            msg.append(") and num_heads (");
            msg.append(size_text(num_heads).as_str());
            msg.append(") must be nonzero, and num_heads must divide dim");
            return Err(CortexError::InvalidConfig(msg));
        }
        let scale: u32 = inverse_root::<F>(dim);
        let square: Vec<usize> = shape2(dim, dim);
        let flat: Vec<usize> = shape2(1, dim);
        let wq: Tensor = match Tensor::try_randn::<F>(square.as_slice(), ZERO, scale) {
            Ok(t) => t,
            Err(e) => {
                return Err(e);
            },
        };
        let wb_q: Tensor = match Tensor::try_zeros(flat.as_slice()) {
            Ok(t) => t,
            Err(e) => {
                return Err(e);
            },
        };
        let wk: Tensor = Tensor::randn::<F>(square.as_slice(), ZERO, scale);
        let wb_k: Tensor = Tensor::zeros(flat.as_slice());
        let wv: Tensor = Tensor::randn::<F>(square.as_slice(), ZERO, scale);
        let wb_v: Tensor = Tensor::zeros(flat.as_slice());
        let wo: Tensor = Tensor::randn::<F>(square.as_slice(), ZERO, scale);
        let wb_o: Tensor = Tensor::zeros(flat.as_slice());
        let head_dim: usize = dim / num_heads;
        assert(inverse_roots::<F>(dim, scale));
        Ok(
            MultiHeadAttention {
                num_heads,
                head_dim,
                dim,
                wq,
                wb_q,
                wk,
                wb_k,
                wv,
                wb_v,
                wo,
                wb_o,
            },
        )
    }

    /// [`MultiHeadAttention::try_forward`] of an input known to fit.
    pub fn forward<F: FloatUnit>(&self, x: &Tensor) -> (r: Tensor)
        requires
            self.wf(),
            x@.wf(),
            self.forward_error(x@.shape) is None,
        ensures
            r@.wf(),
            r@.shape == x@.shape,
            self.attends::<F>(x@, r@),
    {
        unwrap_compat(self.try_forward::<F>(x), "MultiHeadAttention::forward")
    }

    /// Attention over `x: [seq, dim]`, giving `[seq, dim]`.
    pub fn try_forward<F: FloatUnit>(&self, x: &Tensor) -> (r: Result<Tensor, CortexError>)
        requires
            self.wf(),
            x@.wf(),
        ensures
            match self.forward_error(x@.shape) {
                Some(e) => r matches Err(v) && v@ == e,
                None => r matches Ok(t) && t@.wf() && t@.shape == x@.shape && self.attends::<F>(
                    x@,
                    t@,
                ),
            },
    {
        if x.ndim() != 2 {
            return Err(CortexError::RankMismatch { expected: 2, got: x.ndim() });
        }
        let seq_len: usize = x.shape()[0];
        let nh: usize = self.num_heads;
        let hd: usize = self.head_dim;
        if x.shape()[1] != self.dim {
            return Err(
                CortexError::DimMismatch {
                    op: "MultiHeadAttention::try_forward",
                    axis: 1,
                    expected: self.dim,
                    got: x.shape()[1],
                },
            );
        }
        let width: Option<usize> = nh.checked_mul(hd);
        if nh == 0 || width != Some(self.dim) {
            let mut msg: String = String::from_str("MultiHeadAttention: num_heads (");
            msg.append(size_text(nh).as_str());
            msg.append(") * head_dim (");
            msg.append(size_text(hd).as_str());
            msg.append(") != dim (");
            msg.append(size_text(self.dim).as_str());
            msg.append(")");
            return Err(CortexError::InvalidConfig(msg));
        }
        match self.check_biases() {
            Ok(_) => {},
            Err(e) => {
                return Err(e);
            },
        }
        proof {
            lemma_numel_2(seq![1usize, self.dim]);
            lemma_numel_2(x@.shape);
        }
        let q: Tensor = match try_linear::<F>(x, &self.wq, &self.wb_q) {
            Ok(t) => t,
            Err(e) => {
                return Err(e);
            },
        };
        let k: Tensor = match try_linear::<F>(x, &self.wk, &self.wb_k) {
            Ok(t) => t,
            Err(e) => {
                return Err(e);
            },
        };
        let v: Tensor = match try_linear::<F>(x, &self.wv, &self.wb_v) {
            Ok(t) => t,
            Err(e) => {
                return Err(e);
            },
        };
        proof {
            assert(seq![x@.shape[0], self.wq@.shape[1]][1] == seq![x@.shape[0], self.dim][1]);
            assert(seq![x@.shape[0], self.wk@.shape[1]][1] == seq![x@.shape[0], self.dim][1]);
            assert(seq![x@.shape[0], self.wv@.shape[1]][1] == seq![x@.shape[0], self.dim][1]);
            lemma_numel_2(q@.shape);
            lemma_numel_2(k@.shape);
            lemma_numel_2(v@.shape);
        }
        let qh: Tensor = reshape_heads(&q, seq_len, nh, hd);
        let kh: Tensor = reshape_heads(&k, seq_len, nh, hd);
        let vh: Tensor = reshape_heads(&v, seq_len, nh, hd);
        let kt: Tensor = transpose_last_two(&kh);
        let scale: u32 = inverse_root::<F>(hd);
        let scores: Tensor = match try_batched_matmul::<F>(&qh, &kt) {
            Ok(t) => t,
            Err(e) => {
                return Err(e);
            },
        };
        let scaled: Tensor = scores.scale::<F>(scale);
        let mask: Tensor = match try_causal_mask(seq_len) {
            Ok(t) => t,
            Err(e) => {
                return Err(e);
            },
        };
        let masked: Tensor = apply_mask_batched::<F>(&scaled, &mask);
        let attn: Tensor = batched_softmax::<F>(&masked);
        let ctx: Tensor = match try_batched_matmul::<F>(&attn, &vh) {
            Ok(t) => t,
            Err(e) => {
                return Err(e);
            },
        };
        proof {
            lemma_numel_3(ctx@.shape);
            lemma_extents(seq_len as int, nh as int, hd as int);
        }
        let merged: Tensor = merge_heads(&ctx, seq_len, nh, hd);
        assert(merged@.shape =~= x@.shape);
        let out: Tensor = match try_linear::<F>(&merged, &self.wo, &self.wb_o) {
            Ok(t) => t,
            Err(e) => {
                return Err(e);
            },
        };
        proof {
            assert(seq![x@.shape[0], self.wo@.shape[1]][1] == seq![x@.shape[0], self.dim][1]);
            assert(out@.shape =~= x@.shape);
            let t = AttentionStages {
                q: q@,
                k: k@,
                v: v@,
                qh: qh@,
                kh: kh@,
                vh: vh@,
                kt: kt@,
                scale,
                scores: scores@,
                scaled: scaled@,
                masked: masked@,
                attn: attn@,
                ctx: ctx@,
                merged: merged@,
            };
            assert(self.staged::<F>(x@, t, out@));
        }
        Ok(out)
    }

    /// Number of weights: four `[dim, dim]` matrices and four biases.
    pub fn param_count(&self) -> (r: usize)
        requires
            4 * (self.dim * self.dim) + 4 * self.dim <= usize::MAX,
        ensures
            r == 4 * (self.dim * self.dim) + 4 * self.dim,
    {
        proof {
            let d = self.dim as int;
            assert((4 * d) * d == 4 * (d * d)) by (nonlinear_arith);
        }
        4 * self.dim * self.dim + 4 * self.dim
    }
}

/// Adds a `[seq, seq]` mask to every matrix of `[nh, seq, seq]` scores.
fn apply_mask_batched<F: FloatUnit>(scores: &Tensor, mask: &Tensor) -> (r: Tensor)
    requires
        scores@.wf(),
        scores@.shape.len() == 3,
        mask@.data.len() == scores@.shape[1] * scores@.shape[2],
    ensures
        r@.wf(),
        masks::<F>(scores@, mask@, r@),
{
    let nh: usize = scores.shape()[0];
    let m: usize = scores.shape()[1];
    let n: usize = scores.shape()[2];
    proof {
        lemma_numel_3(scores@.shape);
    }
    let len: usize = mask.numel();
    let mut out: Vec<u32> = Vec::new();
    let mut h: usize = 0;
    while h < nh
        invariant
            h <= nh,
            scores@.shape.len() == 3,
            nh == scores@.shape[0],
            m == scores@.shape[1],
            n == scores@.shape[2],
            len == m * n,
            len == mask@.data.len(),
            scores@.data.len() == nh * len,
            out@.len() == h * len,
            forall|q: int, i: int|
                0 <= q < h && 0 <= i < len ==> adds::<F>(
                    plane(scores@, q)[i],
                    mask@.data[i],
                    #[trigger] row_of(out@, len as nat, q)[i],
                ),
        decreases nh - h,
    {
        let part: &[u32] = row_slice(scores.data(), nh, len, h);
        let mut row: Vec<u32> = Vec::new();
        let mut i: usize = 0;
        while i < len
            invariant
                i <= len,
                len == mask@.data.len(),
                part@.len() == len,
                row@.len() == i,
                forall|j: int|
                    0 <= j < i ==> adds::<F>(part@[j], mask@.data[j], #[trigger] row@[j]),
            decreases len - i,
        {
            row.push(F::add32(part[i], mask.data()[i]));
            i += 1;
        }
        let ghost before = out@;
        let ghost added = row@;
        proof {
            lemma_push_row(out@, row@, len as nat, h as int);
        }
        out.append(&mut row);
        assert forall|q: int, i: int| 0 <= q < h + 1 && 0 <= i < len implies adds::<F>(
            plane(scores@, q)[i],
            mask@.data[i],
            #[trigger] row_of(out@, len as nat, q)[i],
        ) by {
            if q < h {
                assert(row_of(out@, len as nat, q) == row_of(before, len as nat, q));
            } else {
                assert(row_of(out@, len as nat, q) == added);
            }
        }
        h += 1;
    }
    let r: Tensor = Tensor::from_vec(out, scores.shape());
    assert forall|q: int, i: int| 0 <= q < nh && 0 <= i < len implies adds::<F>(
        plane(scores@, q)[i],
        mask@.data[i],
        #[trigger] plane(r@, q)[i],
    ) by {
        assert(plane(r@, q)[i] == row_of(out@, len as nat, q)[i]);
    }
    r
}

/// Softmax of every row of `[nh, seq, seq]` scores. A row masked throughout
/// becomes uniform over the whole row.
fn batched_softmax<F: FloatUnit>(t: &Tensor) -> (r: Tensor)
    requires
        t@.wf(),
        t@.shape.len() == 3,
    ensures
        r@.wf(),
        softmaxes_rows::<F>(t@, r@),
{
    let nh: usize = t.shape()[0];
    let m: usize = t.shape()[1];
    let n: usize = t.shape()[2];
    proof {
        lemma_numel_3(t@.shape);
        assert(nh * (m * n) == (nh * m) * n) by (nonlinear_arith);
    }
    let len: usize = t.numel();
    let mut out: Vec<u32> = Vec::new();
    if n == 0 {
        assert((nh * m) * 0 == 0) by (nonlinear_arith);
        let r: Tensor = Tensor::from_vec(out, t.shape());
        assert forall|q: int| 0 <= q < t@.shape[0] * t@.shape[1] implies softmaxes::<F>(
            row_of(t@.data, 0, q),
            #[trigger] row_of(r@.data, 0, q),
        ) by {
            assert(q * 0 == 0) by (nonlinear_arith);
            assert(row_of(t@.data, 0, q) =~= row_of(r@.data, 0, q));
        }
        return r;
    }
    assert(nh * m <= (nh * m) * n) by (nonlinear_arith)
        requires
            0 <= nh * m,
            1 <= n,
    ;
    let rows: usize = nh * m;
    let mut q: usize = 0;
    while q < rows
        invariant
            q <= rows,
            rows == t@.shape[0] * t@.shape[1],
            t@.shape.len() == 3,
            n == t@.shape[2],
            t@.data.len() == rows * n,
            out@.len() == q * n,
            forall|p: int|
                0 <= p < q ==> softmaxes::<F>(
                    row_of(t@.data, n as nat, p),
                    #[trigger] row_of(out@, n as nat, p),
                ),
        decreases rows - q,
    {
        let mut row: Vec<u32> = softmax_row::<F>(row_slice(t.data(), rows, n, q));
        proof {
            lemma_push_row(out@, row@, n as nat, q as int);
        }
        out.append(&mut row);
        q += 1;
    }
    Tensor::from_vec(out, t.shape())
}

} // verus!
