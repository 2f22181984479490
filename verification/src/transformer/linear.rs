//! Affine maps shared by the layers.

use vstd::prelude::*;
use vstd::slice::slice_to_vec;
use crate::error::{CortexError, ErrorView};
use crate::float::{FloatUnit, adds, counts, divs, sqrts};
use crate::ieee::ONE;
use crate::tensor::{Tensor, TensorView, alloc_error, check_alloc, pairing_error, zips};
use crate::tensor::layout::{lemma_numel_2, numel, same_shape, shape2};
use crate::tensor::ops::{matmul_error, matmuls, try_matmul};
use crate::tensor::rows::{lemma_position_entry, lemma_push_row, lemma_row_bounds, row_of};

verus! {

/// The first of two errors.
pub open spec fn either(a: Option<ErrorView>, b: Option<ErrorView>) -> Option<ErrorView> {
    match a {
        Some(e) => Some(e),
        None => b,
    }
}

/// Why a tensor does not have the shape `expected`.
pub open spec fn shape_error(t: TensorView, expected: Seq<usize>) -> Option<ErrorView> {
    if t.shape != expected {
        Some(ErrorView::ShapeMismatch { expected, got: t.shape })
    } else {
        None
    }
}

/// Rejects a tensor of another shape than `expected`.
pub fn expect_shape(tensor: &Tensor, expected: &[usize]) -> (r: Result<(), CortexError>)
    ensures
        match shape_error(tensor@, expected@) {
            Some(e) => r matches Err(x) && x@ == e,
            None => r is Ok,
        },
{
    if !same_shape(tensor.shape(), expected) {
        return Err(
            CortexError::ShapeMismatch {
                expected: slice_to_vec(expected),
                got: slice_to_vec(tensor.shape()),
            },
        );
    }
    Ok(())
}

/// `rows` copies of a row.
pub open spec fn tiled(row: Seq<u32>, rows: usize) -> TensorView {
    TensorView {
        data: Seq::new((rows * row.len()) as nat, |x: int| row[x % (row.len() as int)]),
        shape: seq![rows, row.len() as usize],
    }
}

/// Tiles the elements of `bias` to `[rows, numel]`.
pub fn broadcast_row(bias: &Tensor, rows: usize) -> (r: Result<Tensor, CortexError>)
    ensures
        match alloc_error(seq![rows, bias@.data.len() as usize]) {
            Some(e) => r matches Err(x) && x@ == e,
            None => r matches Ok(t) && t@.wf() && t@ == tiled(bias@.data, rows),
        },
{
    let cols: usize = bias.numel();
    let shape: Vec<usize> = shape2(rows, cols);
    match check_alloc(shape.as_slice()) {
        Ok(_) => {},
        Err(e) => {
            return Err(e);
        },
    }
    proof {
        lemma_numel_2(shape@);
    }
    let mut out: Vec<u32> = Vec::new();
    let mut r: usize = 0;
    while r < rows
        invariant
            r <= rows,
            cols == bias@.data.len(),
            out@.len() == r * cols,
            forall|q: int| 0 <= q < r ==> #[trigger] row_of(out@, cols as nat, q) == bias@.data,
        decreases rows - r,
    {
        let mut row: Vec<u32> = slice_to_vec(bias.data());
        proof {
            lemma_push_row(out@, row@, cols as nat, r as int);
        }
        out.append(&mut row);
        r += 1;
    }
    proof {
        let goal = tiled(bias@.data, rows).data;
        assert forall|x: int| 0 <= x < out@.len() implies out@[x] == goal[x] by {
            lemma_position_entry(rows as int, cols as int, x);
            let q = x / cols as int;
            assert(row_of(out@, cols as nat, q) == bias@.data);
            lemma_row_bounds(rows as int, cols as int, q);
            assert(out@[x] == row_of(out@, cols as nat, q)[x % cols as int]);
        }
        assert(out@ =~= goal);
    }
    Tensor::try_from_vec(out, shape.as_slice())
}

/// Why `x @ w + b` is refused, for a matrix `x` and a bias of `n` elements.
pub open spec fn linear_error(x: Seq<usize>, w: Seq<usize>, n: nat) -> Option<ErrorView> {
    either(
        matmul_error(x, w),
        either(
            alloc_error(seq![x[0], n as usize]),
            pairing_error(seq![x[0], w[1]], seq![x[0], n as usize]),
        ),
    )
}

/// `r` is `x @ w` plus the bias on every row.
pub open spec fn linears<F: FloatUnit>(
    x: TensorView,
    w: TensorView,
    bias: TensorView,
    r: TensorView,
) -> bool {
    exists|p: TensorView| #[trigger]
        matmuls::<F>(x, w, p) && zips(
            |a: u32, b: u32, c: u32| adds::<F>(a, b, c),
            p,
            tiled(bias.data, x.shape[0]),
            r,
        )
}

/// `x @ w + b`, the bias added to every row.
pub fn try_linear<F: FloatUnit>(x: &Tensor, w: &Tensor, bias: &Tensor) -> (r: Result<
    Tensor,
    CortexError,
>)
    requires
        x@.wf(),
        w@.wf(),
        x@.shape.len() == 2,
    ensures
        match linear_error(x@.shape, w@.shape, bias@.data.len()) {
            Some(e) => r matches Err(v) && v@ == e,
            None => r matches Ok(t) && t@.wf() && linears::<F>(x@, w@, bias@, t@) && t@.shape
                == seq![x@.shape[0], w@.shape[1]],
        },
{
    let p: Tensor = match try_matmul::<F>(x, w) {
        Ok(p) => p,
        Err(e) => {
            return Err(e);
        },
    };
    let tiles: Tensor = match broadcast_row(bias, x.shape()[0]) {
        Ok(t) => t,
        Err(e) => {
            return Err(e);
        },
    };
    let r: Result<Tensor, CortexError> = p.try_add::<F>(&tiles);
    assert(matmuls::<F>(x@, w@, p@));
    r
}

/// `s` is `1 / sqrt(n)`.
pub open spec fn inverse_roots<F: FloatUnit>(n: usize, s: u32) -> bool {
    exists|c: u32, root: u32| #[trigger]
        counts::<F>(n, c) && #[trigger] sqrts::<F>(c, root) && divs::<F>(ONE, root, s)
}

/// `1 / sqrt(n)`.
pub fn inverse_root<F: FloatUnit>(n: usize) -> (s: u32)
    ensures
        inverse_roots::<F>(n, s),
{
    let c: u32 = F::count32(n);
    let root: u32 = F::sqrt32(c);
    let s: u32 = F::div32(ONE, root);
    assert(counts::<F>(n, c) && sqrts::<F>(c, root) && divs::<F>(ONE, root, s));
    s
}

} // verus!
