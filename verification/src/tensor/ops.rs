//! Kernels over whole tensors: products, normalization, lookup, masks.
//!
//! A `try_` function reports what it rejects; its namesake without the prefix
//! is for arguments known to be accepted.

use vstd::prelude::*;
use vstd::slice::slice_to_vec;
use vstd::string::StringExecFns;
use crate::error::{CortexError, ErrorView, unwrap_compat};
use crate::float::{FloatUnit, widens};
use crate::ieee::{NEG_INFINITY, ZERO};
use crate::tensor::{Tensor, TensorView, alloc_error, check_alloc, softmax_error, softmaxes_last};
use crate::tensor::finite::{
    layer_norm_row, layer_norms, positive_finite, rms_norm_row, rms_norms, validate_norm_eps,
};
use crate::tensor::layout::{lemma_numel_2, lemma_numel_3, numel, shape2, shape3};
use crate::tensor::matmul::{multiplies, product};
use crate::tensor::rows::{
    lemma_entry_bounds, lemma_entry_position, lemma_position_entry, lemma_push_row,
    lemma_row_bounds, row_of, row_slice,
};
use crate::text::{bracketed, sizes, sizes_text};

verus! {

// ── Matrix products ──────────────────────────────────────────────────

/// Why two tensors have no matrix product.
pub open spec fn matmul_error(a: Seq<usize>, b: Seq<usize>) -> Option<ErrorView> {
    if a.len() != 2 {
        Some(ErrorView::RankMismatch { expected: 2, got: a.len() as usize })
    } else if b.len() != 2 {
        Some(ErrorView::RankMismatch { expected: 2, got: b.len() as usize })
    } else if a[1] != b[0] {
        Some(ErrorView::MatmulDim { m: a[0], k1: a[1], k2: b[0], n: b[1] })
    } else {
        alloc_error(seq![a[0], b[1]])
    }
}

/// `r` is the matrix product of `a: [m, k]` and `b: [k, n]`.
pub open spec fn matmuls<F: FloatUnit>(a: TensorView, b: TensorView, r: TensorView) -> bool {
    &&& r.shape == seq![a.shape[0], b.shape[1]]
    &&& multiplies::<F>(
        a.data,
        b.data,
        a.shape[0] as nat,
        a.shape[1] as nat,
        b.shape[1] as nat,
        r.data,
    )
}

/// [`try_matmul`] of operands known to fit.
pub fn matmul<F: FloatUnit>(a: &Tensor, b: &Tensor) -> (r: Tensor)
    requires
        a@.wf(),
        b@.wf(),
        matmul_error(a@.shape, b@.shape) is None,
    ensures
        r@.wf(),
        matmuls::<F>(a@, b@, r@),
{
    unwrap_compat(try_matmul::<F>(a, b), "matmul")
}

/// Matrix product `[m, k] x [k, n] -> [m, n]`.
pub fn try_matmul<F: FloatUnit>(a: &Tensor, b: &Tensor) -> (r: Result<Tensor, CortexError>)
    requires
        a@.wf(),
        b@.wf(),
    ensures
        match matmul_error(a@.shape, b@.shape) {
            Some(e) => r matches Err(x) && x@ == e,
            None => r matches Ok(t) && t@.wf() && matmuls::<F>(a@, b@, t@),
        },
{
    if a.ndim() != 2 {
        return Err(CortexError::RankMismatch { expected: 2, got: a.ndim() });
    }
    if b.ndim() != 2 {
        return Err(CortexError::RankMismatch { expected: 2, got: b.ndim() });
    }
    let m: usize = a.shape()[0];
    let k: usize = a.shape()[1];
    let k2: usize = b.shape()[0];
    let n: usize = b.shape()[1];
    if k != k2 {
        return Err(CortexError::MatmulDim { m, k1: k, k2, n });
    }
    let shape: Vec<usize> = shape2(m, n);
    match check_alloc(shape.as_slice()) {
        Ok(_) => {},
        Err(e) => {
            return Err(e);
        },
    }
    proof {
        lemma_numel_2(a@.shape);
        lemma_numel_2(b@.shape);
        lemma_numel_2(shape@);
    }
    let out: Vec<u32> = product::<F>(a.data(), b.data(), m, k, n);
    Tensor::try_from_vec(out, shape.as_slice())
}

/// The right operand is one matrix for every batch.
pub open spec fn shared_right(b: Seq<usize>) -> bool {
    b.len() == 2
}

/// Columns of the right operand of a batched product.
pub open spec fn right_cols(b: Seq<usize>) -> usize {
    b[b.len() - 1]
}

/// Why two tensors have no batched matrix product.
pub open spec fn batched_matmul_error(a: Seq<usize>, b: Seq<usize>) -> Option<ErrorView> {
    if a.len() == 2 && b.len() == 2 {
        matmul_error(a, b)
    } else if a.len() != 3 {
        Some(ErrorView::RankMismatch { expected: 3, got: a.len() as usize })
    } else if b.len() == 3 && b[0] != a[0] {
        Some(
            ErrorView::DimMismatch { op: "batched_matmul"@, axis: 0, expected: a[0], got: b[0] },
        )
    } else if b.len() == 3 && b[1] != a[2] {
        Some(
            ErrorView::DimMismatch { op: "batched_matmul"@, axis: 1, expected: a[2], got: b[1] },
        )
    } else if b.len() != 3 && b.len() != 2 {
        Some(ErrorView::RankMismatch { expected: 2, got: b.len() as usize })
    } else if b.len() == 2 && b[0] != a[2] {
        Some(
            ErrorView::DimMismatch { op: "batched_matmul"@, axis: 0, expected: a[2], got: b[0] },
        )
    } else {
        alloc_error(seq![a[0], a[1], right_cols(b)])
    }
}

/// Matrix `i` of a rank-3 tensor.
pub open spec fn plane(t: TensorView, i: int) -> Seq<u32> {
    row_of(t.data, (t.shape[1] * t.shape[2]) as nat, i)
}

/// The right operand of batch `i`.
pub open spec fn right_plane(b: TensorView, i: int) -> Seq<u32> {
    if shared_right(b.shape) { b.data } else { plane(b, i) }
}

/// `r` holds the matrix product of every batch of `a: [batch, m, k]` with the
/// same batch of `b: [batch, k, n]`, or with `b: [k, n]` itself.
pub open spec fn batched_matmuls<F: FloatUnit>(
    a: TensorView,
    b: TensorView,
    r: TensorView,
) -> bool {
    if a.shape.len() == 2 {
        matmuls::<F>(a, b, r)
    } else {
        &&& r.shape == seq![a.shape[0], a.shape[1], right_cols(b.shape)]
        &&& forall|i: int|
            0 <= i < a.shape[0] ==> multiplies::<F>(
                plane(a, i),
                right_plane(b, i),
                a.shape[1] as nat,
                a.shape[2] as nat,
                right_cols(b.shape) as nat,
                #[trigger] plane(r, i),
            )
    }
}

/// [`try_batched_matmul`] of operands known to fit.
pub fn batched_matmul<F: FloatUnit>(a: &Tensor, b: &Tensor) -> (r: Tensor)
    requires
        a@.wf(),
        b@.wf(),
        batched_matmul_error(a@.shape, b@.shape) is None,
    ensures
        r@.wf(),
        batched_matmuls::<F>(a@, b@, r@),
{
    unwrap_compat(try_batched_matmul::<F>(a, b), "batched_matmul")
}

/// Batched matrix product `[batch, m, k] x [batch, k, n] -> [batch, m, n]`. A
/// rank-2 right operand serves every batch; two matrices give their product.
pub fn try_batched_matmul<F: FloatUnit>(a: &Tensor, b: &Tensor) -> (r: Result<
    Tensor,
    CortexError,
>)
    requires
        a@.wf(),
        b@.wf(),
    ensures
        match batched_matmul_error(a@.shape, b@.shape) {
            Some(e) => r matches Err(x) && x@ == e,
            None => r matches Ok(t) && t@.wf() && batched_matmuls::<F>(a@, b@, t@),
        },
{
    if a.ndim() == 2 && b.ndim() == 2 {
        return try_matmul::<F>(a, b);
    }
    if a.ndim() != 3 {
        return Err(CortexError::RankMismatch { expected: 3, got: a.ndim() });
    }
    let batch: usize = a.shape()[0];
    let m: usize = a.shape()[1];
    let k: usize = a.shape()[2];
    let batched: bool = b.ndim() == 3;
    let n: usize;
    if batched {
        if b.shape()[0] != batch {
            return Err(
                CortexError::DimMismatch {
                    op: "batched_matmul",
                    axis: 0,
                    expected: batch,
                    got: b.shape()[0],
                },
            );
        }
        if b.shape()[1] != k {
            return Err(
                CortexError::DimMismatch {
                    op: "batched_matmul",
                    axis: 1,
                    expected: k,
                    got: b.shape()[1],
                },
            );
        }
        n = b.shape()[2];
    } else {
        if b.ndim() != 2 {
            return Err(CortexError::RankMismatch { expected: 2, got: b.ndim() });
        }
        if b.shape()[0] != k {
            return Err(
                CortexError::DimMismatch {
                    op: "batched_matmul",
                    axis: 0,
                    expected: k,
                    got: b.shape()[0],
                },
            );
        }
        n = b.shape()[1];
    }
    let shape: Vec<usize> = shape3(batch, m, n);
    match check_alloc(shape.as_slice()) {
        Ok(_) => {},
        Err(e) => {
            return Err(e);
        },
    }
    proof {
        lemma_numel_3(a@.shape);
        lemma_numel_3(shape@);
        if batched {
            lemma_numel_3(b@.shape);
        } else {
            lemma_numel_2(b@.shape);
        }
    }
    let mut out: Vec<u32> = Vec::new();
    let mut bi: usize = 0;
    while bi < batch
        invariant
            bi <= batch,
            a@.wf(),
            b@.wf(),
            a@.shape.len() == 3,
            batch == a@.shape[0],
            m == a@.shape[1],
            k == a@.shape[2],
            a@.data.len() == batch * (m * k),
            m * k <= usize::MAX,
            m * n <= usize::MAX,
            n == right_cols(b@.shape),
            batched == (b@.shape.len() == 3),
            batched ==> b@.shape[0] == batch && b@.shape[1] == k && b@.data.len() == batch * (k
                * n) && k * n <= usize::MAX,
            !batched ==> b@.shape.len() == 2 && b@.data.len() == k * n,
            out@.len() == bi * (m * n),
            forall|i: int|
                0 <= i < bi ==> multiplies::<F>(
                    plane(a@, i),
                    right_plane(b@, i),
                    m as nat,
                    k as nat,
                    n as nat,
                    #[trigger] row_of(out@, (m * n) as nat, i),
                ),
        decreases batch - bi,
    {
        let left: &[u32] = row_slice(a.data(), batch, m * k, bi);
        let mut part: Vec<u32> = if batched {
            product::<F>(left, row_slice(b.data(), batch, k * n, bi), m, k, n)
        } else {
            product::<F>(left, b.data(), m, k, n)
        };
        proof {
            lemma_push_row(out@, part@, (m * n) as nat, bi as int);
        }
        out.append(&mut part);
        bi += 1;
    }
    Tensor::try_from_vec(out, shape.as_slice())
}

// ── Normalization ────────────────────────────────────────────────────

/// Why a tensor is not `[batch, dim]` with affine parameters of width `dim`,
/// `eps` aside. `op` names the operation.
pub open spec fn norm_shape_error(
    op: Seq<char>,
    x: Seq<usize>,
    params: Seq<TensorView>,
) -> Option<ErrorView> {
    if x.len() != 2 {
        Some(
            ErrorView::InvalidConfig(
                op + ": expects 2-D [batch, dim], got "@ + bracketed(sizes(x)),
            ),
        )
    } else if x[1] == 0 {
        Some(ErrorView::ZeroWidth { op, axis: 1 })
    } else if params.len() > 0 && params[0].data.len() != x[1] {
        Some(ErrorView::ShapeMismatch { expected: seq![x[1]], got: params[0].shape })
    } else if params.len() > 1 && params[1].data.len() != x[1] {
        Some(ErrorView::ShapeMismatch { expected: seq![x[1]], got: params[1].shape })
    } else {
        None
    }
}

/// Why a normalization is refused: its shapes first, then `eps`.
pub open spec fn norm_error(
    op: Seq<char>,
    x: Seq<usize>,
    params: Seq<TensorView>,
    eps: u32,
) -> Option<ErrorView> {
    match norm_shape_error(op, x, params) {
        Some(e) => Some(e),
        None => if positive_finite(eps) {
            None
        } else {
            Some(ErrorView::InvalidEpsilon { eps })
        },
    }
}

/// Every row of `r` is the layer normalization of that row of `x`.
pub open spec fn layer_norm_rows<F: FloatUnit>(
    x: TensorView,
    weight: TensorView,
    bias: TensorView,
    eps: u64,
    r: TensorView,
) -> bool {
    &&& r.shape == x.shape
    &&& forall|i: int|
        0 <= i < x.shape[0] ==> layer_norms::<F>(
            x.row(i),
            weight.data,
            bias.data,
            eps,
            #[trigger] r.row(i),
        )
}

/// `r` is the layer normalization of `x`.
pub open spec fn layer_normalizes<F: FloatUnit>(
    x: TensorView,
    weight: TensorView,
    bias: TensorView,
    eps: u32,
    r: TensorView,
) -> bool {
    exists|w: u64| #[trigger] widens::<F>(eps, w) && layer_norm_rows::<F>(x, weight, bias, w, r)
}

/// Every row of `r` is the root-mean-square normalization of that row of `x`.
pub open spec fn rms_norm_rows<F: FloatUnit>(
    x: TensorView,
    weight: TensorView,
    eps: u64,
    r: TensorView,
) -> bool {
    &&& r.shape == x.shape
    &&& forall|i: int|
        0 <= i < x.shape[0] ==> rms_norms::<F>(x.row(i), weight.data, eps, #[trigger] r.row(i))
}

/// `r` is the root-mean-square normalization of `x`.
pub open spec fn rms_normalizes<F: FloatUnit>(
    x: TensorView,
    weight: TensorView,
    eps: u32,
    r: TensorView,
) -> bool {
    exists|w: u64| #[trigger] widens::<F>(eps, w) && rms_norm_rows::<F>(x, weight, w, r)
}

/// Rejects an input that is not a matrix of positive width.
fn check_norm_input(op: &'static str, x: &Tensor) -> (r: Result<usize, CortexError>)
    ensures
        match norm_shape_error(op@, x@.shape, seq![]) {
            Some(e) => r matches Err(v) && v@ == e,
            None => r matches Ok(cols) && cols == x@.shape[1],
        },
{
    if x.ndim() != 2 {
        let mut msg: String = String::from_str(op);
        msg.append(": expects 2-D [batch, dim], got ");
        msg.append(sizes_text(x.shape()).as_str());
        return Err(CortexError::InvalidConfig(msg));
    }
    let cols: usize = x.shape()[1];
    if cols == 0 {
        return Err(CortexError::ZeroWidth { op, axis: 1 });
    }
    Ok(cols)
}

fn check_param(param: &Tensor, cols: usize) -> (r: Result<(), CortexError>)
    ensures
        match r {
            Ok(_) => param@.data.len() == cols,
            Err(e) => param@.data.len() != cols && e@ == (ErrorView::ShapeMismatch {
                expected: seq![cols],
                got: param@.shape,
            }),
        },
{
    if param.numel() != cols {
        let expected: Vec<usize> = vec![cols; 1];
        assert(expected@ =~= seq![cols]);
        return Err(CortexError::ShapeMismatch { expected, got: slice_to_vec(param.shape()) });
    }
    Ok(())
}

/// [`try_layer_norm`] of arguments known to be accepted.
pub fn layer_norm<F: FloatUnit>(x: &Tensor, weight: &Tensor, bias: &Tensor, eps: u32) -> (r: Tensor)
    requires
        x@.wf(),
        norm_error("layer_norm"@, x@.shape, seq![weight@, bias@], eps) is None,
    ensures
        r@.wf(),
        layer_normalizes::<F>(x@, weight@, bias@, eps, r@),
{
    unwrap_compat(try_layer_norm::<F>(x, weight, bias, eps), "layer_norm")
}

/// Layer normalization over the last axis of a `[batch, dim]` tensor.
pub fn try_layer_norm<F: FloatUnit>(x: &Tensor, weight: &Tensor, bias: &Tensor, eps: u32) -> (r:
    Result<Tensor, CortexError>)
    requires
        x@.wf(),
    ensures
        match norm_error("layer_norm"@, x@.shape, seq![weight@, bias@], eps) {
            Some(e) => r matches Err(v) && v@ == e,
            None => r matches Ok(t) && t@.wf() && layer_normalizes::<F>(
                x@,
                weight@,
                bias@,
                eps,
                t@,
            ),
        },
{
    let cols: usize = match check_norm_input("layer_norm", x) {
        Ok(cols) => cols,
        Err(e) => {
            return Err(e);
        },
    };
    match check_param(weight, cols) {
        Ok(_) => {},
        Err(e) => {
            return Err(e);
        },
    }
    match check_param(bias, cols) {
        Ok(_) => {},
        Err(e) => {
            return Err(e);
        },
    }
    let wide: u64 = match validate_norm_eps::<F>(eps) {
        Ok(w) => w,
        Err(e) => {
            return Err(e);
        },
    };
    let rows: usize = x.shape()[0];
    proof {
        lemma_numel_2(x@.shape);
    }
    let mut out: Vec<u32> = Vec::new();
    let mut r: usize = 0;
    while r < rows
        invariant
            r <= rows,
            cols > 0,
            x@.shape.len() == 2,
            rows == x@.shape[0],
            cols == x@.shape[1],
            x@.data.len() == rows * cols,
            weight@.data.len() == cols,
            bias@.data.len() == cols,
            out@.len() == r * cols,
            forall|i: int|
                0 <= i < r ==> layer_norms::<F>(
                    x@.row(i),
                    weight@.data,
                    bias@.data,
                    wide,
                    #[trigger] row_of(out@, cols as nat, i),
                ),
        decreases rows - r,
    {
        let mut row: Vec<u32> = layer_norm_row::<F>(
            row_slice(x.data(), rows, cols, r),
            weight.data(),
            bias.data(),
            wide,
        );
        proof {
            lemma_push_row(out@, row@, cols as nat, r as int);
        }
        out.append(&mut row);
        r += 1;
    }
    let t: Tensor = Tensor::from_vec(out, x.shape());
    assert(layer_norm_rows::<F>(x@, weight@, bias@, wide, t@));
    Ok(t)
}

/// [`try_rms_norm`] of arguments known to be accepted.
pub fn rms_norm<F: FloatUnit>(x: &Tensor, weight: &Tensor, eps: u32) -> (r: Tensor)
    requires
        x@.wf(),
        norm_error("rms_norm"@, x@.shape, seq![weight@], eps) is None,
    ensures
        r@.wf(),
        rms_normalizes::<F>(x@, weight@, eps, r@),
{
    unwrap_compat(try_rms_norm::<F>(x, weight, eps), "rms_norm")
}

/// Root-mean-square normalization over the last axis of a `[batch, dim]` tensor.
pub fn try_rms_norm<F: FloatUnit>(x: &Tensor, weight: &Tensor, eps: u32) -> (r: Result<
    Tensor,
    CortexError,
>)
    requires
        x@.wf(),
    ensures
        match norm_error("rms_norm"@, x@.shape, seq![weight@], eps) {
            Some(e) => r matches Err(v) && v@ == e,
            None => r matches Ok(t) && t@.wf() && rms_normalizes::<F>(x@, weight@, eps, t@),
        },
{
    let cols: usize = match check_norm_input("rms_norm", x) {
        Ok(cols) => cols,
        Err(e) => {
            return Err(e);
        },
    };
    match check_param(weight, cols) {
        Ok(_) => {},
        Err(e) => {
            return Err(e);
        },
    }
    let wide: u64 = match validate_norm_eps::<F>(eps) {
        Ok(w) => w,
        Err(e) => {
            return Err(e);
        },
    };
    let rows: usize = x.shape()[0];
    proof {
        lemma_numel_2(x@.shape);
    }
    let mut out: Vec<u32> = Vec::new();
    let mut r: usize = 0;
    while r < rows
        invariant
            r <= rows,
            cols > 0,
            x@.shape.len() == 2,
            rows == x@.shape[0],
            cols == x@.shape[1],
            x@.data.len() == rows * cols,
            weight@.data.len() == cols,
            out@.len() == r * cols,
            forall|i: int|
                0 <= i < r ==> rms_norms::<F>(
                    x@.row(i),
                    weight@.data,
                    wide,
                    #[trigger] row_of(out@, cols as nat, i),
                ),
        decreases rows - r,
    {
        let mut row: Vec<u32> = rms_norm_row::<F>(
            row_slice(x.data(), rows, cols, r),
            weight.data(),
            wide,
        );
        proof {
            lemma_push_row(out@, row@, cols as nat, r as int);
        }
        out.append(&mut row);
        r += 1;
    }
    let t: Tensor = Tensor::from_vec(out, x.shape());
    assert(rms_norm_rows::<F>(x@, weight@, wide, t@));
    Ok(t)
}

// ── Softmax ──────────────────────────────────────────────────────────

/// [`try_softmax`] of a tensor of rank at most two.
pub fn softmax<F: FloatUnit>(x: &Tensor) -> (r: Tensor)
    requires
        x@.wf(),
        x@.shape.len() <= 2,
    ensures
        r@.wf(),
        softmaxes_last::<F>(x@, r@),
{
    x.softmax_last::<F>()
}

/// Softmax along the last axis.
pub fn try_softmax<F: FloatUnit>(x: &Tensor) -> (r: Result<Tensor, CortexError>)
    requires
        x@.wf(),
    ensures
        match softmax_error(x@.shape) {
            Some(e) => r matches Err(v) && v@ == e,
            None => r matches Ok(t) && t@.wf() && softmaxes_last::<F>(x@, t@),
        },
{
    x.try_softmax_last::<F>()
}

// ── Lookup and masks ─────────────────────────────────────────────────

/// `i` is the first id without a row in the table.
pub open spec fn first_unknown(ids: Seq<u32>, vocab: usize, i: int) -> bool {
    &&& 0 <= i < ids.len()
    &&& ids[i] >= vocab
    &&& forall|j: int| 0 <= j < i ==> (#[trigger] ids[j]) < vocab
}

pub open spec fn all_known(ids: Seq<u32>, vocab: usize) -> bool {
    forall|j: int| 0 <= j < ids.len() ==> (#[trigger] ids[j]) < vocab
}

/// Row `ids[i]` of the table for every `i`.
pub open spec fn looked_up(table: TensorView, ids: Seq<u32>) -> TensorView {
    let dim = table.shape[1];
    TensorView {
        data: Seq::new(
            (ids.len() * dim) as nat,
            |x: int| table.at(ids[x / (dim as int)] as int, x % (dim as int)),
        ),
        shape: seq![ids.len() as usize, dim],
    }
}

/// Why an embedding lookup is refused.
pub open spec fn lookup_error(table: Seq<usize>, ids: Seq<u32>) -> Option<ErrorView> {
    if table.len() != 2 {
        Some(ErrorView::RankMismatch { expected: 2, got: table.len() as usize })
    } else if !all_known(ids, table[0]) {
        let i = choose|i: int| first_unknown(ids, table[0], i);
        Some(ErrorView::TokenIndex { index: ids[i] as usize, vocab_size: table[0] })
    } else {
        alloc_error(seq![ids.len() as usize, table[1]])
    }
}

/// [`try_embedding`] of ids known to have a row.
pub fn embedding(table: &Tensor, ids: &[u32]) -> (r: Tensor)
    requires
        table@.wf(),
        lookup_error(table@.shape, ids@) is None,
    ensures
        r@.wf(),
        r@ == looked_up(table@, ids@),
{
    unwrap_compat(try_embedding(table, ids), "embedding")
}

fn check_ids(ids: &[u32], vocab: usize) -> (r: Result<(), CortexError>)
    ensures
        match r {
            Ok(_) => all_known(ids@, vocab),
            Err(e) => exists|i: int| #[trigger]
                first_unknown(ids@, vocab, i) && e@ == (ErrorView::TokenIndex {
                    index: ids@[i] as usize,
                    vocab_size: vocab,
                }),
        },
{
    let mut i: usize = 0;
    while i < ids.len()
        invariant
            i <= ids@.len(),
            forall|j: int| 0 <= j < i ==> (#[trigger] ids@[j]) < vocab,
        decreases ids@.len() - i,
    {
        if ids[i] as usize >= vocab {
            assert(first_unknown(ids@, vocab, i as int));
            return Err(CortexError::TokenIndex { index: ids[i] as usize, vocab_size: vocab });
        }
        i += 1;
    }
    Ok(())
}

/// Embedding lookup: row `ids[i]` of `[vocab, dim]` for every `i`, as `[len, dim]`.
pub fn try_embedding(table: &Tensor, ids: &[u32]) -> (r: Result<Tensor, CortexError>)
    requires
        table@.wf(),
    ensures
        match lookup_error(table@.shape, ids@) {
            Some(e) => r matches Err(x) && x@ == e,
            None => r matches Ok(t) && t@.wf() && t@ == looked_up(table@, ids@),
        },
{
    if table.ndim() != 2 {
        return Err(CortexError::RankMismatch { expected: 2, got: table.ndim() });
    }
    let vocab: usize = table.shape()[0];
    let dim: usize = table.shape()[1];
    match check_ids(ids, vocab) {
        Ok(_) => {},
        Err(e) => {
            proof {
                let i = choose|i: int| #[trigger]
                    first_unknown(ids@, vocab, i) && e@ == (ErrorView::TokenIndex {
                        index: ids@[i] as usize,
                        vocab_size: vocab,
                    });
                let c = choose|i: int| first_unknown(ids@, vocab, i);
                assert(first_unknown(ids@, vocab, c));
                assert(i == c);
                assert(ids@[i] >= vocab);
            }
            return Err(e);
        },
    }
    let shape: Vec<usize> = shape2(ids.len(), dim);
    match check_alloc(shape.as_slice()) {
        Ok(_) => {},
        Err(e) => {
            return Err(e);
        },
    }
    proof {
        lemma_numel_2(table@.shape);
        lemma_numel_2(shape@);
    }
    let mut out: Vec<u32> = Vec::new();
    let mut i: usize = 0;
    while i < ids.len()
        invariant
            i <= ids@.len(),
            table@.shape.len() == 2,
            vocab == table@.shape[0],
            dim == table@.shape[1],
            table@.data.len() == vocab * dim,
            all_known(ids@, vocab),
            out@.len() == i * dim,
            forall|q: int|
                0 <= q < i ==> #[trigger] row_of(out@, dim as nat, q) == table@.row(ids@[q] as int),
        decreases ids@.len() - i,
    {
        let id: usize = ids[i] as usize;
        let mut row: Vec<u32> = slice_to_vec(row_slice(table.data(), vocab, dim, id));
        proof {
            lemma_push_row(out@, row@, dim as nat, i as int);
        }
        out.append(&mut row);
        i += 1;
    }
    proof {
        let goal = looked_up(table@, ids@).data;
        assert forall|x: int| 0 <= x < out@.len() implies out@[x] == goal[x] by {
            lemma_position_entry(ids@.len() as int, dim as int, x);
            let q = x / dim as int;
            let c = x % dim as int;
            assert(row_of(out@, dim as nat, q) == table@.row(ids@[q] as int));
            lemma_row_bounds(ids@.len() as int, dim as int, q);
            lemma_row_bounds(vocab as int, dim as int, ids@[q] as int);
            assert(out@[x] == row_of(out@, dim as nat, q)[c]);
            assert(table@.row(ids@[q] as int)[c] == table@.at(ids@[q] as int, c));
        }
        assert(out@ =~= goal);
    }
    Tensor::try_from_vec(out, shape.as_slice())
}

/// The causal mask: negative infinity above the diagonal, zero elsewhere.
pub open spec fn causal(n: usize) -> TensorView {
    TensorView {
        data: Seq::new(
            (n * n) as nat,
            |x: int| if x % (n as int) > x / (n as int) { NEG_INFINITY } else { ZERO },
        ),
        shape: seq![n, n],
    }
}

/// [`try_causal_mask`] for a length known to fit.
pub fn causal_mask(seq_len: usize) -> (r: Tensor)
    requires
        alloc_error(seq![seq_len, seq_len]) is None,
    ensures
        r@.wf(),
        r@ == causal(seq_len),
{
    unwrap_compat(try_causal_mask(seq_len), "causal_mask")
}

/// Causal attention mask of a sequence: a position sees itself and what precedes it.
pub fn try_causal_mask(seq_len: usize) -> (r: Result<Tensor, CortexError>)
    ensures
        match alloc_error(seq![seq_len, seq_len]) {
            Some(e) => r matches Err(x) && x@ == e,
            None => r matches Ok(t) && t@.wf() && t@ == causal(seq_len),
        },
{
    let shape: Vec<usize> = shape2(seq_len, seq_len);
    let len: usize = match check_alloc(shape.as_slice()) {
        Ok(n) => n,
        Err(e) => {
            return Err(e);
        },
    };
    proof {
        lemma_numel_2(shape@);
    }
    let mut data: Vec<u32> = vec![ZERO; len];
    proof {
        assert forall|r: int, c: int| 0 <= r < seq_len && 0 <= c < seq_len implies #[trigger] data@[
            r * seq_len + c] == ZERO by {
            lemma_entry_bounds(seq_len as int, seq_len as int, r, c);
        }
    }
    let mut i: usize = 0;
    while i < seq_len
        invariant
            i <= seq_len,
            len == seq_len * seq_len,
            data@.len() == len,
            forall|r: int, c: int|
                0 <= r < seq_len && 0 <= c < seq_len ==> #[trigger] data@[r * seq_len + c] == if r
                    < i && c > r {
                    NEG_INFINITY
                } else {
                    ZERO
                },
        decreases seq_len - i,
    {
        let mut j: usize = i + 1;
        while j < seq_len
            invariant
                i < seq_len,
                i < j <= seq_len,
                len == seq_len * seq_len,
                data@.len() == len,
                forall|r: int, c: int|
                    0 <= r < seq_len && 0 <= c < seq_len ==> #[trigger] data@[r * seq_len + c]
                        == if c > r && (r < i || (r == i && c < j)) {
                        NEG_INFINITY
                    } else {
                        ZERO
                    },
            decreases seq_len - j,
        {
            let ghost before = data@;
            proof {
                lemma_entry_bounds(seq_len as int, seq_len as int, i as int, j as int);
            }
            data.set(i * seq_len + j, NEG_INFINITY);
            proof {
                assert forall|r: int, c: int| 0 <= r < seq_len && 0 <= c < seq_len implies (
                #[trigger] data@[r * seq_len + c]) == if c > r && (r < i || (r == i && c < j + 1)) {
                    NEG_INFINITY
                } else {
                    ZERO
                } by {
                    lemma_entry_bounds(seq_len as int, seq_len as int, r, c);
                    lemma_entry_position(seq_len as int, r, c);
                    lemma_entry_position(seq_len as int, i as int, j as int);
                    if r * seq_len + c == i * seq_len + j {
                        assert(r == i && c == j);
                    } else {
                        assert(before[r * seq_len + c] == data@[r * seq_len + c]);
                    }
                }
            }
            j += 1;
        }
        i += 1;
    }
    proof {
        assert forall|x: int| 0 <= x < len implies data@[x] == causal(seq_len).data[x] by {
            lemma_position_entry(seq_len as int, seq_len as int, x);
            let r = x / seq_len as int;
            let c = x % seq_len as int;
            assert(data@[r * seq_len + c] == if r < i && c > r { NEG_INFINITY } else { ZERO });
        }
        assert(data@ =~= causal(seq_len).data);
    }
    Tensor::try_from_vec(data, shape.as_slice())
}

} // verus!
