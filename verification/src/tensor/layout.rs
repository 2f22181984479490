//! Row-major layout: element counts and strides of a shape.

use vstd::prelude::*;
use vstd::slice::slice_to_vec;
use crate::error::{CortexError, ErrorView};

verus! {

/// Product of the extents from axis `i` on.
pub open spec fn extent_from(shape: Seq<usize>, i: int) -> nat
    decreases shape.len() - i,
{
    if i < 0 || i >= shape.len() { 1 } else { shape[i] as nat * extent_from(shape, i + 1) }
}

/// Number of elements of a shape; `1` for a scalar.
pub open spec fn numel(shape: Seq<usize>) -> nat {
    extent_from(shape, 0)
}

/// Row-major strides: the last is `1`, each earlier one the product of the following extents.
pub open spec fn strides(shape: Seq<usize>) -> Seq<nat> {
    Seq::new(shape.len(), |i: int| extent_from(shape, i + 1))
}

/// Every row-major stride is representable.
pub open spec fn strides_fit(shape: Seq<usize>) -> bool {
    forall|i: int| 0 <= i < shape.len() ==> #[trigger] strides(shape)[i] <= usize::MAX
}

/// The element count and every stride are representable.
pub open spec fn fits(shape: Seq<usize>) -> bool {
    numel(shape) <= usize::MAX && strides_fit(shape)
}

/// A buffer of `n` four-byte elements stays within the allocation limit.
pub open spec fn allocatable(n: nat) -> bool {
    4 * n <= isize::MAX
}

pub proof fn lemma_extent_unfold(shape: Seq<usize>, i: int)
    requires
        0 <= i < shape.len(),
    ensures
        extent_from(shape, i) == shape[i] as nat * extent_from(shape, i + 1),
{
}

/// A zero extent empties the shape.
pub proof fn lemma_extent_zero(shape: Seq<usize>, i: int, k: int)
    requires
        0 <= i <= k < shape.len(),
        shape[k] == 0,
    ensures
        extent_from(shape, i) == 0,
    decreases k - i,
{
    if i < k {
        lemma_extent_zero(shape, i + 1, k);
        assert(shape[i] as nat * 0 == 0) by (nonlinear_arith);
    } else {
        assert(0 * extent_from(shape, i + 1) == 0) by (nonlinear_arith);
    }
}

pub proof fn lemma_extent_positive(shape: Seq<usize>, i: int)
    requires
        0 <= i <= shape.len(),
        forall|k: int| 0 <= k < shape.len() ==> shape[k] > 0,
    ensures
        extent_from(shape, i) >= 1,
    decreases shape.len() - i,
{
    if i < shape.len() {
        lemma_extent_positive(shape, i + 1);
        assert(shape[i] as nat * extent_from(shape, i + 1) >= 1) by (nonlinear_arith)
            requires
                shape[i] > 0,
                extent_from(shape, i + 1) >= 1,
        ;
    }
}

/// The innermost extent is the last one.
pub proof fn lemma_extent_tail(shape: Seq<usize>)
    ensures
        extent_from(shape, shape.len() as int) == 1,
        shape.len() > 0 ==> extent_from(shape, shape.len() - 1) == shape.last(),
{
    if shape.len() > 0 {
        lemma_extent_unfold(shape, shape.len() - 1);
        assert(shape.last() as nat * 1 == shape.last()) by (nonlinear_arith);
    }
}

pub proof fn lemma_numel_1(shape: Seq<usize>)
    requires
        shape.len() == 1,
    ensures
        numel(shape) == shape[0],
        strides_fit(shape),
{
    lemma_extent_tail(shape);
}

pub proof fn lemma_numel_2(shape: Seq<usize>)
    requires
        shape.len() == 2,
    ensures
        numel(shape) == shape[0] * shape[1],
        strides_fit(shape),
{
    lemma_extent_tail(shape);
    lemma_extent_unfold(shape, 0);
    assert(strides(shape)[0] == shape[1]);
    assert(strides(shape)[1] == 1);
}

pub proof fn lemma_numel_3(shape: Seq<usize>)
    requires
        shape.len() == 3,
    ensures
        numel(shape) == shape[0] * (shape[1] * shape[2]),
        strides_fit(shape) == (shape[1] * shape[2] <= usize::MAX),
{
    lemma_extent_tail(shape);
    lemma_extent_unfold(shape, 1);
    lemma_extent_unfold(shape, 0);
    assert(strides(shape)[0] == shape[1] * shape[2]);
    assert(strides(shape)[1] == shape[2]);
    assert(strides(shape)[2] == 1);
}

/// Element count of `shape` in checked arithmetic. A zero extent anywhere makes
/// it `0`, whatever the product of the others would be.
pub fn checked_numel(shape: &[usize]) -> (r: Result<usize, CortexError>)
    ensures
        match r {
            Ok(n) => n == numel(shape@),
            Err(e) => numel(shape@) > usize::MAX && e@ == (ErrorView::SizeOverflow { shape: shape@ }),
        },
{
    let mut k: usize = 0;
    while k < shape.len()
        invariant
            k <= shape@.len(),
            forall|j: int| 0 <= j < k ==> shape@[j] > 0,
        decreases shape@.len() - k,
    {
        if shape[k] == 0 {
            proof {
                lemma_extent_zero(shape@, 0, k as int);
            }
            return Ok(0);
        }
        k += 1;
    }
    let mut acc: usize = 1;
    assert(1 * extent_from(shape@, 0) == numel(shape@)) by (nonlinear_arith);
    let mut i: usize = 0;
    while i < shape.len()
        invariant
            i <= shape@.len(),
            forall|j: int| 0 <= j < shape@.len() ==> shape@[j] > 0,
            acc * extent_from(shape@, i as int) == numel(shape@),
        decreases shape@.len() - i,
    {
        proof {
            lemma_extent_unfold(shape@, i as int);
            lemma_extent_positive(shape@, i + 1);
            let d = shape@[i as int] as int;
            let rest = extent_from(shape@, i + 1) as int;
            assert((acc * d) * rest == acc * (d * rest)) by (nonlinear_arith);
            assert(acc * d <= (acc * d) * rest) by (nonlinear_arith)
                requires
                    rest >= 1,
                    acc >= 0,
                    d >= 0,
            ;
        }
        match acc.checked_mul(shape[i]) {
            Some(next) => {
                acc = next;
            },
            None => {
                return Err(CortexError::SizeOverflow { shape: slice_to_vec(shape) });
            },
        }
        i += 1;
    }
    assert(acc * 1 == acc) by (nonlinear_arith);
    Ok(acc)
}

/// Rejects an element count whose byte size exceeds the allocation limit.
pub fn check_f32_alloc(numel: usize, shape: &[usize]) -> (r: Result<(), CortexError>)
    ensures
        match r {
            Ok(_) => allocatable(numel as nat),
            Err(e) => !allocatable(numel as nat) && e@ == (ErrorView::SizeOverflow {
                shape: shape@,
            }),
        },
{
    if numel > (isize::MAX as usize) / 4 {
        Err(CortexError::SizeOverflow { shape: slice_to_vec(shape) })
    } else {
        Ok(())
    }
}

/// Row-major strides of `shape` in checked arithmetic. A zero-sized axis can
/// still overflow a leading stride, as in `[0, usize::MAX, 2]`.
pub fn try_compute_strides(shape: &[usize]) -> (r: Result<Vec<usize>, CortexError>)
    ensures
        match r {
            Ok(v) => v@.len() == shape@.len() && forall|i: int|
                0 <= i < v@.len() ==> v@[i] == #[trigger] strides(shape@)[i],
            Err(e) => !strides_fit(shape@) && e@ == (ErrorView::SizeOverflow { shape: shape@ }),
        },
        r is Ok == strides_fit(shape@),
{
    let n: usize = shape.len();
    let mut out: Vec<usize> = vec![1usize; n];
    if n == 0 {
        return Ok(out);
    }
    let mut i: usize = n - 1;
    assert(strides(shape@)[n - 1] == 1);
    while i > 0
        invariant
            n == shape@.len(),
            out@.len() == n,
            i < n,
            forall|j: int| i <= j < n ==> out@[j] == #[trigger] strides(shape@)[j],
        decreases i,
    {
        proof {
            assert(strides(shape@)[i as int] == out@[i as int]);
            lemma_extent_unfold(shape@, i as int);
            assert(strides(shape@)[i - 1] == shape@[i as int] * out@[i as int]);
            assert(out@[i as int] * shape@[i as int] == shape@[i as int] * out@[i as int])
                by (nonlinear_arith);
        }
        match out[i].checked_mul(shape[i]) {
            Some(s) => {
                out.set(i - 1, s);
            },
            None => {
                assert(strides(shape@)[i - 1] > usize::MAX);
                return Err(CortexError::SizeOverflow { shape: slice_to_vec(shape) });
            },
        }
        i -= 1;
    }
    assert forall|j: int| 0 <= j < n implies #[trigger] strides(shape@)[j] <= usize::MAX by {
        assert(out@[j] == strides(shape@)[j]);
    }
    Ok(out)
}

pub fn same_shape(a: &[usize], b: &[usize]) -> (r: bool)
    ensures
        r == (a@ == b@),
{
    if a.len() != b.len() {
        return false;
    }
    let mut i: usize = 0;
    while i < a.len()
        invariant
            i <= a@.len(),
            a@.len() == b@.len(),
            forall|j: int| 0 <= j < i ==> a@[j] == b@[j],
        decreases a@.len() - i,
    {
        if a[i] != b[i] {
            return false;
        }
        i += 1;
    }
    assert(a@ =~= b@);
    true
}

/// A shape of one extent.
pub fn shape1(a: usize) -> (r: Vec<usize>)
    ensures
        r@ == seq![a],
{
    let v: Vec<usize> = vec![a; 1];
    assert(v@ =~= seq![a]);
    v
}

/// A shape of two extents.
pub fn shape2(a: usize, b: usize) -> (r: Vec<usize>)
    ensures
        r@ == seq![a, b],
{
    let mut v: Vec<usize> = shape1(a);
    v.push(b);
    assert(v@ =~= seq![a, b]);
    v
}

/// A shape of three extents.
pub fn shape3(a: usize, b: usize, c: usize) -> (r: Vec<usize>)
    ensures
        r@ == seq![a, b, c],
{
    let mut v: Vec<usize> = shape2(a, b);
    v.push(c);
    assert(v@ =~= seq![a, b, c]);
    v
}

/// The strides of a non-empty shape end in `1`, and each earlier stride is the
/// following stride times the following extent.
pub proof fn law_strides_recurrence(shape: Seq<usize>, i: int)
    requires
        0 <= i < shape.len(),
    ensures
        i == shape.len() - 1 ==> strides(shape)[i] == 1,
        i < shape.len() - 1 ==> strides(shape)[i] == strides(shape)[i + 1] * shape[i + 1],
{
    if i < shape.len() - 1 {
        lemma_extent_unfold(shape, i + 1);
        assert(shape[i + 1] as nat * extent_from(shape, i + 2) == extent_from(shape, i + 2)
            * shape[i + 1] as nat) by (nonlinear_arith);
    }
}

/// The element count is the first stride times the first extent.
pub proof fn law_numel_from_strides(shape: Seq<usize>)
    requires
        shape.len() > 0,
    ensures
        numel(shape) == shape[0] * strides(shape)[0],
{
    lemma_extent_unfold(shape, 0);
}

/// A shape is empty exactly when one of its extents is zero.
pub proof fn law_zero_axis_empties(shape: Seq<usize>)
    ensures
        numel(shape) == 0 <==> exists|k: int| 0 <= k < shape.len() && shape[k] == 0,
{
    if exists|k: int| 0 <= k < shape.len() && shape[k] == 0 {
        let k = choose|k: int| 0 <= k < shape.len() && shape[k] == 0;
        lemma_extent_zero(shape, 0, k);
    } else {
        lemma_extent_positive(shape, 0);
    }
}

} // verus!
