//! Row-major dense tensors.

pub mod activations;
pub mod dependence;
pub mod entries;
pub mod extremes;
pub mod finite;
pub mod laws;
pub mod layout;
pub mod masking;
pub mod matmul;
pub mod norms;
pub mod ops;
pub mod rows;
pub mod shares;

use vstd::prelude::*;
use vstd::slice::slice_to_vec;
use vstd::string::StringExecFns;
use crate::error::{CortexError, ErrorView, unwrap_compat};
use crate::float::{
    FloatUnit, adds, coss, counts, divs, exps, fixes, lns, muls, sqrts, subs, sum_from, sums, tanhs,
};
use crate::ieee::{
    HALF, NEG_INFINITY, NEG_ZERO, ONE, PI, TWO, ZERO, above, abs_bits, absolute, is_above, is_nan,
    is_total_above, larger, nan, neg_bits, negated, pick_larger, total_rank,
};
use crate::random::{drawable, unit_draw};
use crate::tensor::finite::{softmax_row, softmaxes};
use crate::tensor::layout::{
    allocatable, check_f32_alloc, checked_numel, fits, lemma_numel_1, lemma_numel_2, numel,
    same_shape, shape1, shape2, strides, strides_fit, try_compute_strides,
};
use crate::tensor::rows::{
    lemma_entry_bounds, lemma_entry_position, lemma_position_entry, lemma_push_row, row_of,
    row_slice,
};
use crate::text::{bracketed, decimal, size_text, sizes, sizes_text};

verus! {

/// Row-major dense tensor of binary32 patterns.
///
/// One contiguous buffer, addressed as `data[i * ncols + j]` and its rank-`n`
/// generalization. There are no strided views and no broadcasting; reshaping
/// and transposing return fresh buffers. Strides follow from the shape and are
/// recomputed by [`Tensor::row_major_strides`].
#[derive(Debug)]
pub struct Tensor {
    data: Vec<u32>,
    shape: Vec<usize>,
}

/// The mathematical content of a [`Tensor`].
#[verifier::ext_equal]
pub struct TensorView {
    pub data: Seq<u32>,
    pub shape: Seq<usize>,
}

impl TensorView {
    /// The buffer has exactly the elements the shape implies, and every stride
    /// is representable.
    pub open spec fn wf(self) -> bool {
        self.data.len() == numel(self.shape) && fits(self.shape)
    }

    /// Element `(i, j)` of a rank-2 tensor.
    pub open spec fn at(self, i: int, j: int) -> u32 {
        self.data[i * self.shape[1] + j]
    }

    /// Row `i` of a rank-2 tensor.
    pub open spec fn row(self, i: int) -> Seq<u32> {
        row_of(self.data, self.shape[1] as nat, i)
    }
}

impl View for Tensor {
    type V = TensorView;

    closed spec fn view(&self) -> TensorView {
        TensorView { data: self.data@, shape: self.shape@ }
    }
}

impl Clone for Tensor {
    fn clone(&self) -> (r: Self)
        ensures
            r@ == self@,
    {
        Tensor {
            data: slice_to_vec(self.data.as_slice()),
            shape: slice_to_vec(self.shape.as_slice()),
        }
    }
}

// ── Error conditions ─────────────────────────────────────────────────

/// Why `len` elements cannot be laid out under `shape`.
pub open spec fn layout_error(len: nat, shape: Seq<usize>) -> Option<ErrorView> {
    if !fits(shape) {
        Some(ErrorView::SizeOverflow { shape })
    } else if len != numel(shape) {
        Some(ErrorView::ShapeMismatch { expected: shape, got: seq![len as usize] })
    } else {
        None
    }
}

/// Why a fresh buffer cannot be made for `shape`.
pub open spec fn alloc_error(shape: Seq<usize>) -> Option<ErrorView> {
    if !fits(shape) || !allocatable(numel(shape)) {
        Some(ErrorView::SizeOverflow { shape })
    } else {
        None
    }
}

/// Why a tensor of shape `from` cannot take the shape `to`.
pub open spec fn reshape_error(from: Seq<usize>, to: Seq<usize>) -> Option<ErrorView> {
    if numel(to) > usize::MAX {
        Some(ErrorView::SizeOverflow { shape: to })
    } else if numel(to) != numel(from) {
        Some(ErrorView::ShapeMismatch { expected: from, got: to })
    } else if !strides_fit(to) {
        Some(ErrorView::SizeOverflow { shape: to })
    } else {
        None
    }
}

/// Why a tensor is not a matrix.
pub open spec fn rank2_error(shape: Seq<usize>) -> Option<ErrorView> {
    if shape.len() != 2 {
        Some(ErrorView::RankMismatch { expected: 2, got: shape.len() as usize })
    } else {
        None
    }
}

/// Why two shapes cannot be combined element by element.
pub open spec fn pairing_error(a: Seq<usize>, b: Seq<usize>) -> Option<ErrorView> {
    if a != b {
        Some(ErrorView::ShapeMismatch { expected: a, got: b })
    } else {
        None
    }
}

pub open spec fn softmax_error(shape: Seq<usize>) -> Option<ErrorView> {
    if shape.len() > 2 {
        Some(
            ErrorView::InvalidConfig(
                "softmax_last: max 2-D, got rank "@ + decimal(shape.len()),
            ),
        )
    } else {
        None
    }
}

pub open spec fn row_error(shape: Seq<usize>, idx: usize) -> Option<ErrorView> {
    if shape.len() != 2 {
        rank2_error(shape)
    } else if idx >= shape[0] {
        Some(ErrorView::IndexOutOfBounds { axis: 0, index: idx, size: shape[0] })
    } else {
        None
    }
}

// ── Results ──────────────────────────────────────────────────────────

/// The transposed matrix.
pub open spec fn transposed(t: TensorView) -> TensorView {
    let rows = t.shape[0];
    let cols = t.shape[1];
    TensorView {
        data: Seq::new(
            t.data.len(),
            |k: int| t.data[(k % (rows as int)) * cols + k / (rows as int)],
        ),
        shape: seq![cols, rows],
    }
}

/// `r` pairs the elements of `a` and `b` by `op`.
pub open spec fn zips(
    op: spec_fn(u32, u32, u32) -> bool,
    a: TensorView,
    b: TensorView,
    r: TensorView,
) -> bool {
    &&& r.shape == a.shape
    &&& r.data.len() == a.data.len()
    &&& forall|i: int| 0 <= i < r.data.len() ==> op(a.data[i], b.data[i], #[trigger] r.data[i])
}

/// `r` maps the elements of `a` by `op`.
pub open spec fn maps(op: spec_fn(u32, u32) -> bool, a: TensorView, r: TensorView) -> bool {
    &&& r.shape == a.shape
    &&& r.data.len() == a.data.len()
    &&& forall|i: int| 0 <= i < r.data.len() ==> op(a.data[i], #[trigger] r.data[i])
}

/// Intermediate values of the tanh form of GELU.
pub struct GeluSteps {
    pub ratio: u32,
    pub c: u32,
    pub half: u32,
    pub x1: u32,
    pub x2: u32,
    pub x3: u32,
    pub inner: u32,
    pub angle: u32,
    pub tanh: u32,
    pub gate: u32,
}

/// `0.044715` as binary32.
pub const GELU_CUBIC: u32 = 0x3D37_2713;

pub open spec fn gelu_steps<F: FloatUnit>(x: u32, t: GeluSteps, r: u32) -> bool {
    &&& divs::<F>(TWO, PI, t.ratio)
    &&& sqrts::<F>(t.ratio, t.c)
    &&& muls::<F>(x, HALF, t.half)
    &&& muls::<F>(GELU_CUBIC, x, t.x1)
    &&& muls::<F>(t.x1, x, t.x2)
    &&& muls::<F>(t.x2, x, t.x3)
    &&& adds::<F>(x, t.x3, t.inner)
    &&& muls::<F>(t.c, t.inner, t.angle)
    &&& tanhs::<F>(t.angle, t.tanh)
    &&& adds::<F>(ONE, t.tanh, t.gate)
    &&& muls::<F>(t.half, t.gate, r)
}

/// `r` is `x * 0.5 * (1 + tanh(sqrt(2 / pi) * (x + 0.044715 * x * x * x)))`.
pub open spec fn gelus<F: FloatUnit>(x: u32, r: u32) -> bool {
    exists|t: GeluSteps| gelu_steps::<F>(x, t, r)
}

/// `r` is `x / (1 + e)`.
pub open spec fn damps<F: FloatUnit>(x: u32, e: u32, r: u32) -> bool {
    exists|d: u32| #[trigger] adds::<F>(ONE, e, d) && divs::<F>(x, d, r)
}

/// `r` is `x / (1 + exp(-x))`.
pub open spec fn silus<F: FloatUnit>(x: u32, r: u32) -> bool {
    exists|e: u32| #[trigger] exps::<F>(negated(x), e) && damps::<F>(x, e, r)
}

/// `r` is the mean of `s`: its left-to-right sum over its length.
pub open spec fn means<F: FloatUnit>(s: Seq<u32>, r: u32) -> bool {
    exists|sum: u32, n: u32| #[trigger]
        sums::<F>(NEG_ZERO, s, sum) && #[trigger] counts::<F>(s.len() as usize, n) && divs::<F>(
            sum,
            n,
            r,
        )
}

/// `m` is the first position whose value no other value exceeds, NaN aside.
pub open spec fn first_maximum(s: Seq<u32>, m: int) -> bool {
    &&& 0 <= m < s.len()
    &&& !nan(s[m])
    &&& forall|i: int| 0 <= i < s.len() ==> !above(#[trigger] s[i], s[m])
    &&& forall|i: int| 0 <= i < m ==> nan(#[trigger] s[i]) || above(s[m], s[i])
}

/// `m` is the last position that is largest in the total order.
pub open spec fn last_total_maximum(s: Seq<u32>, m: int) -> bool {
    &&& 0 <= m < s.len()
    &&& forall|i: int| 0 <= i < s.len() ==> total_rank(#[trigger] s[i]) <= total_rank(s[m])
    &&& forall|i: int| m < i < s.len() ==> total_rank(#[trigger] s[i]) < total_rank(s[m])
}

/// Lower bound of the first uniform draw: `1e-7` as binary32.
pub const DRAW_FLOOR: u32 = 0x33D6_BF95;

/// `-2` as binary32.
pub const NEG_TWO: u32 = 0xC000_0000;

/// Intermediate values of one normal sample.
pub struct SampleSteps {
    pub ln: u32,
    pub twice: u32,
    pub radius: u32,
    pub turn: u32,
    pub angle: u32,
    pub cos: u32,
    pub z: u32,
    pub scaled: u32,
}

pub open spec fn sample_steps<F: FloatUnit>(
    mean: u32,
    std: u32,
    first: u32,
    second: u32,
    t: SampleSteps,
    r: u32,
) -> bool {
    &&& lns::<F>(larger(first, DRAW_FLOOR), t.ln)
    &&& muls::<F>(NEG_TWO, t.ln, t.twice)
    &&& sqrts::<F>(t.twice, t.radius)
    &&& muls::<F>(TWO, PI, t.turn)
    &&& muls::<F>(t.turn, second, t.angle)
    &&& coss::<F>(t.angle, t.cos)
    &&& muls::<F>(t.radius, t.cos, t.z)
    &&& muls::<F>(std, t.z, t.scaled)
    &&& adds::<F>(mean, t.scaled, r)
}

/// `r` is the Box-Muller sample of two draws `u` and `v`:
/// `mean + std * sqrt(-2 ln u) * cos(2 pi v)`, the first raised to [`DRAW_FLOOR`].
pub open spec fn sample_of_draws<F: FloatUnit>(
    mean: u32,
    std: u32,
    first: u32,
    second: u32,
    r: u32,
) -> bool {
    exists|t: SampleSteps| sample_steps::<F>(mean, std, first, second, t, r)
}

/// `r` is one Box-Muller sample of two uniform draws.
pub open spec fn samples<F: FloatUnit>(mean: u32, std: u32, r: u32) -> bool {
    exists|first: u32, second: u32|
        drawable(first) && drawable(second) && #[trigger] sample_of_draws::<F>(
            mean,
            std,
            first,
            second,
            r,
        )
}

// ── Elements ─────────────────────────────────────────────────────────

fn gelu_of<F: FloatUnit>(x: u32) -> (r: u32)
    ensures
        gelus::<F>(x, r),
{
    let ratio: u32 = F::div32(TWO, PI);
    let c: u32 = F::sqrt32(ratio);
    let half: u32 = F::mul32(x, HALF);
    let x1: u32 = F::mul32(GELU_CUBIC, x);
    let x2: u32 = F::mul32(x1, x);
    let x3: u32 = F::mul32(x2, x);
    let inner: u32 = F::add32(x, x3);
    let angle: u32 = F::mul32(c, inner);
    let tanh: u32 = F::tanh32(angle);
    let gate: u32 = F::add32(ONE, tanh);
    let r: u32 = F::mul32(half, gate);
    assert(gelu_steps::<F>(
        x,
        GeluSteps { ratio, c, half, x1, x2, x3, inner, angle, tanh, gate },
        r,
    ));
    r
}

fn damp_of<F: FloatUnit>(x: u32, e: u32) -> (r: u32)
    ensures
        damps::<F>(x, e, r),
{
    let d: u32 = F::add32(ONE, e);
    let r: u32 = F::div32(x, d);
    assert(adds::<F>(ONE, e, d) && divs::<F>(x, d, r));
    r
}

fn silu_of<F: FloatUnit>(x: u32) -> (r: u32)
    ensures
        silus::<F>(x, r),
{
    let e: u32 = F::exp32(neg_bits(x));
    assert(exps::<F>(negated(x), e));
    damp_of::<F>(x, e)
}

/// The normal sample of two uniform draws, by the Box-Muller transform.
pub fn box_muller<F: FloatUnit>(mean: u32, std: u32, first: u32, second: u32) -> (r: u32)
    ensures
        sample_of_draws::<F>(mean, std, first, second, r),
{
    let ln: u32 = F::ln32(pick_larger(first, DRAW_FLOOR));
    let twice: u32 = F::mul32(NEG_TWO, ln);
    let radius: u32 = F::sqrt32(twice);
    let turn: u32 = F::mul32(TWO, PI);
    let angle: u32 = F::mul32(turn, second);
    let cos: u32 = F::cos32(angle);
    let z: u32 = F::mul32(radius, cos);
    let scaled: u32 = F::mul32(std, z);
    let r: u32 = F::add32(mean, scaled);
    assert(sample_steps::<F>(
        mean,
        std,
        first,
        second,
        SampleSteps { ln, twice, radius, turn, angle, cos, z, scaled },
        r,
    ));
    r
}

/// One normal sample.
fn sample_of<F: FloatUnit>(mean: u32, std: u32) -> (r: u32)
    ensures
        samples::<F>(mean, std, r),
{
    let first: u32 = unit_draw();
    let second: u32 = unit_draw();
    box_muller::<F>(mean, std, first, second)
}

/// Checks that a fresh buffer can be made for `shape` and gives its length.
pub fn check_alloc(shape: &[usize]) -> (r: Result<usize, CortexError>)
    ensures
        match alloc_error(shape@) {
            Some(e) => r matches Err(x) && x@ == e,
            None => r matches Ok(n) && n == numel(shape@),
        },
{
    let n: usize = match checked_numel(shape) {
        Ok(n) => n,
        Err(e) => {
            return Err(e);
        },
    };
    match check_f32_alloc(n, shape) {
        Ok(_) => {},
        Err(e) => {
            return Err(e);
        },
    }
    match try_compute_strides(shape) {
        Ok(_) => {},
        Err(e) => {
            return Err(e);
        },
    }
    Ok(n)
}

fn try_filled(shape: &[usize], val: u32) -> (r: Result<Tensor, CortexError>)
    ensures
        match alloc_error(shape@) {
            Some(e) => r matches Err(x) && x@ == e,
            None => r matches Ok(t) && t@.wf() && t@.shape == shape@ && t@.data == Seq::new(
                numel(shape@),
                |i: int| val,
            ),
        },
{
    let n: usize = match check_alloc(shape) {
        Ok(n) => n,
        Err(e) => {
            return Err(e);
        },
    };
    let t: Tensor = Tensor { data: vec![val; n], shape: slice_to_vec(shape) };
    assert(t@.data =~= Seq::new(numel(shape@), |i: int| val));
    Ok(t)
}

impl Tensor {
    // ── Constructors ─────────────────────────────────────────────────

    /// [`Tensor::try_from_vec`] for a buffer known to fit.
    pub fn from_vec(data: Vec<u32>, shape: &[usize]) -> (r: Self)
        requires
            layout_error(data@.len(), shape@) is None,
        ensures
            r@.wf(),
            r@ == (TensorView { data: data@, shape: shape@ }),
    {
        unwrap_compat(Self::try_from_vec(data, shape), "Tensor::from_vec")
    }

    /// Takes ownership of a contiguous row-major buffer once its element count
    /// and strides are known to be representable and to match `shape`.
    pub fn try_from_vec(data: Vec<u32>, shape: &[usize]) -> (r: Result<Self, CortexError>)
        ensures
            match layout_error(data@.len(), shape@) {
                Some(e) => r matches Err(x) && x@ == e,
                None => r matches Ok(t) && t@.wf() && t@ == (TensorView {
                    data: data@,
                    shape: shape@,
                }),
            },
    {
        let n: usize = match checked_numel(shape) {
            Ok(n) => n,
            Err(e) => {
                return Err(e);
            },
        };
        match try_compute_strides(shape) {
            Ok(_) => {},
            Err(e) => {
                return Err(e);
            },
        }
        if data.len() != n {
            let got: Vec<usize> = shape1(data.len());
            return Err(CortexError::ShapeMismatch { expected: slice_to_vec(shape), got });
        }
        Ok(Tensor { data, shape: slice_to_vec(shape) })
    }

    /// [`Tensor::try_zeros`] for a shape known to fit.
    pub fn zeros(shape: &[usize]) -> (r: Self)
        requires
            alloc_error(shape@) is None,
        ensures
            r@.wf(),
            r@.shape == shape@,
            r@.data == Seq::new(numel(shape@), |i: int| ZERO),
    {
        unwrap_compat(Self::try_zeros(shape), "Tensor::zeros")
    }

    /// A tensor of zeros.
    pub fn try_zeros(shape: &[usize]) -> (r: Result<Self, CortexError>)
        ensures
            match alloc_error(shape@) {
                Some(e) => r matches Err(x) && x@ == e,
                None => r matches Ok(t) && t@.wf() && t@.shape == shape@ && t@.data == Seq::new(
                    numel(shape@),
                    |i: int| ZERO,
                ),
            },
    {
        try_filled(shape, ZERO)
    }

    /// [`Tensor::try_ones`] for a shape known to fit.
    pub fn ones(shape: &[usize]) -> (r: Self)
        requires
            alloc_error(shape@) is None,
        ensures
            r@.wf(),
            r@.shape == shape@,
            r@.data == Seq::new(numel(shape@), |i: int| ONE),
    {
        unwrap_compat(Self::try_ones(shape), "Tensor::ones")
    }

    /// A tensor of ones.
    pub fn try_ones(shape: &[usize]) -> (r: Result<Self, CortexError>)
        ensures
            match alloc_error(shape@) {
                Some(e) => r matches Err(x) && x@ == e,
                None => r matches Ok(t) && t@.wf() && t@.shape == shape@ && t@.data == Seq::new(
                    numel(shape@),
                    |i: int| ONE,
                ),
            },
    {
        try_filled(shape, ONE)
    }

    /// [`Tensor::try_full`] for a shape known to fit.
    pub fn full(shape: &[usize], val: u32) -> (r: Self)
        requires
            alloc_error(shape@) is None,
        ensures
            r@.wf(),
            r@.shape == shape@,
            r@.data == Seq::new(numel(shape@), |i: int| val),
    {
        unwrap_compat(Self::try_full(shape, val), "Tensor::full")
    }

    /// A tensor of copies of `val`.
    pub fn try_full(shape: &[usize], val: u32) -> (r: Result<Self, CortexError>)
        ensures
            match alloc_error(shape@) {
                Some(e) => r matches Err(x) && x@ == e,
                None => r matches Ok(t) && t@.wf() && t@.shape == shape@ && t@.data == Seq::new(
                    numel(shape@),
                    |i: int| val,
                ),
            },
    {
        try_filled(shape, val)
    }

    /// [`Tensor::try_randn`] for a shape known to fit.
    pub fn randn<F: FloatUnit>(shape: &[usize], mean: u32, std: u32) -> (r: Self)
        requires
            alloc_error(shape@) is None,
        ensures
            r@.wf(),
            r@.shape == shape@,
            forall|i: int|
                0 <= i < r@.data.len() ==> samples::<F>(mean, std, #[trigger] r@.data[i]),
    {
        unwrap_compat(Self::try_randn::<F>(shape, mean, std), "Tensor::randn")
    }

    /// A tensor of independent normal samples.
    pub fn try_randn<F: FloatUnit>(shape: &[usize], mean: u32, std: u32) -> (r: Result<
        Self,
        CortexError,
    >)
        ensures
            match alloc_error(shape@) {
                Some(e) => r matches Err(x) && x@ == e,
                None => r matches Ok(t) && t@.wf() && t@.shape == shape@ && forall|i: int|
                    0 <= i < t@.data.len() ==> samples::<F>(mean, std, #[trigger] t@.data[i]),
            },
    {
        let n: usize = match check_alloc(shape) {
            Ok(n) => n,
            Err(e) => {
                return Err(e);
            },
        };
        let mut data: Vec<u32> = Vec::new();
        let mut i: usize = 0;
        while i < n
            invariant
                i <= n,
                data@.len() == i,
                forall|j: int| 0 <= j < i ==> samples::<F>(mean, std, #[trigger] data@[j]),
            decreases n - i,
        {
            data.push(sample_of::<F>(mean, std));
            i += 1;
        }
        Self::try_from_vec(data, shape)
    }

    // ── Accessors ────────────────────────────────────────────────────

    /// The contiguous row-major storage.
    #[inline]
    pub fn data(&self) -> (r: &[u32])
        ensures
            r@ == self@.data,
    {
        self.data.as_slice()
    }

    /// Mutable access to the contiguous row-major storage. Its length is fixed
    /// by the shape.
    #[inline]
    pub fn data_mut(&mut self) -> (r: &mut [u32])
        ensures
            r@ == old(self)@.data,
            final(self)@.data == final(r)@,
            final(self)@.shape == old(self)@.shape,
    {
        self.data.as_mut_slice()
    }

    #[inline]
    pub fn shape(&self) -> (r: &[usize])
        ensures
            r@ == self@.shape,
    {
        self.shape.as_slice()
    }

    /// [`Tensor::try_row_major_strides`] of a well-formed tensor.
    #[inline]
    pub fn row_major_strides(&self) -> (r: Vec<usize>)
        requires
            self@.wf(),
        ensures
            r@.len() == self@.shape.len(),
            forall|i: int| 0 <= i < r@.len() ==> r@[i] == #[trigger] strides(self@.shape)[i],
    {
        unwrap_compat(self.try_row_major_strides(), "Tensor::row_major_strides")
    }

    /// The strides the shape implies.
    #[inline]
    pub fn try_row_major_strides(&self) -> (r: Result<Vec<usize>, CortexError>)
        ensures
            match r {
                Ok(v) => v@.len() == self@.shape.len() && forall|i: int|
                    0 <= i < v@.len() ==> v@[i] == #[trigger] strides(self@.shape)[i],
                Err(e) => e@ == (ErrorView::SizeOverflow { shape: self@.shape }),
            },
            r is Ok == strides_fit(self@.shape),
    {
        try_compute_strides(self.shape.as_slice())
    }

    #[inline]
    pub fn numel(&self) -> (r: usize)
        ensures
            r == self@.data.len(),
    {
        self.data.len()
    }

    #[inline]
    pub fn ndim(&self) -> (r: usize)
        ensures
            r == self@.shape.len(),
    {
        self.shape.len()
    }

    // ── Reshape / transpose (copying) ────────────────────────────────

    /// [`Tensor::try_reshape`] for a shape known to fit.
    pub fn reshape(&self, new_shape: &[usize]) -> (r: Self)
        requires
            self@.wf(),
            reshape_error(self@.shape, new_shape@) is None,
        ensures
            r@.wf(),
            r@ == (TensorView { data: self@.data, shape: new_shape@ }),
    {
        unwrap_compat(self.try_reshape(new_shape), "Tensor::reshape")
    }

    /// A copy of the elements, in the same order, under another shape of the
    /// same element count.
    pub fn try_reshape(&self, new_shape: &[usize]) -> (r: Result<Self, CortexError>)
        requires
            self@.wf(),
        ensures
            match reshape_error(self@.shape, new_shape@) {
                Some(e) => r matches Err(x) && x@ == e,
                None => r matches Ok(t) && t@.wf() && t@ == (TensorView {
                    data: self@.data,
                    shape: new_shape@,
                }),
            },
    {
        let n: usize = match checked_numel(new_shape) {
            Ok(n) => n,
            Err(e) => {
                return Err(e);
            },
        };
        if n != self.numel() {
            return Err(
                CortexError::ShapeMismatch {
                    expected: slice_to_vec(self.shape.as_slice()),
                    got: slice_to_vec(new_shape),
                },
            );
        }
        Self::try_from_vec(slice_to_vec(self.data.as_slice()), new_shape)
    }

    /// Takes another shape of the same element count without copying. On error
    /// nothing changes.
    pub fn reshape_in_place(&mut self, new_shape: &[usize]) -> (r: Result<(), CortexError>)
        requires
            old(self)@.wf(),
        ensures
            final(self)@.wf(),
            match reshape_error(old(self)@.shape, new_shape@) {
                Some(e) => r matches Err(x) && x@ == e && final(self)@ == old(self)@,
                None => r is Ok && final(self)@ == (TensorView {
                    data: old(self)@.data,
                    shape: new_shape@,
                }),
            },
    {
        let n: usize = match checked_numel(new_shape) {
            Ok(n) => n,
            Err(e) => {
                return Err(e);
            },
        };
        if n != self.numel() {
            return Err(
                CortexError::ShapeMismatch {
                    expected: slice_to_vec(self.shape.as_slice()),
                    got: slice_to_vec(new_shape),
                },
            );
        }
        match try_compute_strides(new_shape) {
            Ok(_) => {},
            Err(e) => {
                return Err(e);
            },
        }
        self.shape = slice_to_vec(new_shape);
        Ok(())
    }

    /// [`Tensor::try_transpose`] of a matrix.
    pub fn transpose(&self) -> (r: Self)
        requires
            self@.wf(),
            self@.shape.len() == 2,
        ensures
            r@.wf(),
            r@ == transposed(self@),
    {
        unwrap_compat(self.try_transpose(), "Tensor::transpose")
    }

    /// A fresh `[cols, rows]` matrix with rows and columns exchanged.
    pub fn try_transpose(&self) -> (r: Result<Self, CortexError>)
        requires
            self@.wf(),
        ensures
            match rank2_error(self@.shape) {
                Some(e) => r matches Err(x) && x@ == e,
                None => r matches Ok(t) && t@.wf() && t@ == transposed(self@),
            },
    {
        if self.ndim() != 2 {
            return Err(CortexError::RankMismatch { expected: 2, got: self.ndim() });
        }
        let rows: usize = self.shape[0];
        let cols: usize = self.shape[1];
        let n: usize = self.data.len();
        let mut out: Vec<u32> = vec![ZERO; n];
        let ghost goal = transposed(self@).data;
        proof {
            lemma_numel_2(self@.shape);
            lemma_numel_2(seq![cols, rows]);
            assert(rows * cols == cols * rows) by (nonlinear_arith);
        }
        let mut r: usize = 0;
        while r < rows
            invariant
                r <= rows,
                self@.shape.len() == 2,
                rows == self@.shape[0],
                cols == self@.shape[1],
                n == self@.data.len(),
                n == rows * cols,
                n == cols * rows,
                out@.len() == n,
                goal == transposed(self@).data,
                forall|q: int, c: int|
                    0 <= q < r && 0 <= c < cols ==> out@[#[trigger] (c * rows + q)]
                        == goal[c * rows + q],
            decreases rows - r,
        {
            let mut c: usize = 0;
            while c < cols
                invariant
                    c <= cols,
                    r < rows,
                    self@.shape.len() == 2,
                    rows == self@.shape[0],
                    cols == self@.shape[1],
                    n == self@.data.len(),
                    n == rows * cols,
                    n == cols * rows,
                    out@.len() == n,
                    goal == transposed(self@).data,
                    forall|q: int, d: int|
                        0 <= q < r && 0 <= d < cols ==> out@[#[trigger] (d * rows + q)]
                            == goal[d * rows + q],
                    forall|d: int|
                        0 <= d < c ==> out@[#[trigger] (d * rows + r)] == goal[d * rows + r],
                decreases cols - c,
            {
                proof {
                    lemma_entry_bounds(rows as int, cols as int, r as int, c as int);
                    lemma_entry_bounds(cols as int, rows as int, c as int, r as int);
                    lemma_entry_position(rows as int, c as int, r as int);
                }
                let ghost before = out@;
                out.set(c * rows + r, self.data[r * cols + c]);
                proof {
                    let k = c * rows + r;
                    assert(goal[k] == self@.data[r * cols + c]);
                    assert forall|q: int, d: int| 0 <= q < r && 0 <= d < cols implies out@[
                        #[trigger] (d * rows + q)] == goal[d * rows + q] by {
                        lemma_entry_position(rows as int, d, q);
                        lemma_entry_bounds(cols as int, rows as int, d, q);
                        assert(d * rows + q != k);
                    }
                    assert forall|d: int| 0 <= d < c + 1 implies out@[#[trigger] (d * rows + r)]
                        == goal[d * rows + r] by {
                        lemma_entry_position(rows as int, d, r as int);
                        lemma_entry_bounds(cols as int, rows as int, d, r as int);
                    }
                }
                c += 1;
            }
            proof {
                assert forall|q: int, d: int| 0 <= q < r + 1 && 0 <= d < cols implies out@[
                    #[trigger] (d * rows + q)] == goal[d * rows + q] by {
                    if q == r {
                    }
                }
            }
            r += 1;
        }
        proof {
            assert forall|k: int| 0 <= k < n implies out@[k] == goal[k] by {
                lemma_position_entry(cols as int, rows as int, k);
                let d = k / rows as int;
                let q = k % rows as int;
                assert(out@[d * rows + q] == goal[d * rows + q]);
            }
            assert(out@ =~= goal);
        }
        let shape: Vec<usize> = shape2(cols, rows);
        Self::try_from_vec(out, shape.as_slice())
    }

    // ── Element-wise ops ─────────────────────────────────────────────

    /// [`Tensor::try_add`] of tensors of one shape.
    pub fn add<F: FloatUnit>(&self, other: &Tensor) -> (r: Self)
        requires
            self@.wf(),
            other@.wf(),
            self@.shape == other@.shape,
        ensures
            r@.wf(),
            zips(|a: u32, b: u32, c: u32| adds::<F>(a, b, c), self@, other@, r@),
    {
        unwrap_compat(self.try_add::<F>(other), "Tensor::add")
    }

    /// Element-wise sum of two tensors of one shape.
    pub fn try_add<F: FloatUnit>(&self, other: &Tensor) -> (r: Result<Self, CortexError>)
        requires
            self@.wf(),
            other@.wf(),
        ensures
            match pairing_error(self@.shape, other@.shape) {
                Some(e) => r matches Err(x) && x@ == e,
                None => r matches Ok(t) && t@.wf() && zips(
                    |a: u32, b: u32, c: u32| adds::<F>(a, b, c),
                    self@,
                    other@,
                    t@,
                ),
            },
    {
        let f = |a: u32, b: u32| -> (c: u32)
            ensures
                (adds::<F>(a, b, c)),
        {
            F::add32(a, b)
        };
        self.try_elementwise(other, f)
    }

    /// [`Tensor::try_sub`] of tensors of one shape.
    pub fn sub<F: FloatUnit>(&self, other: &Tensor) -> (r: Self)
        requires
            self@.wf(),
            other@.wf(),
            self@.shape == other@.shape,
        ensures
            r@.wf(),
            zips(|a: u32, b: u32, c: u32| subs::<F>(a, b, c), self@, other@, r@),
    {
        unwrap_compat(self.try_sub::<F>(other), "Tensor::sub")
    }

    /// Element-wise difference of two tensors of one shape.
    pub fn try_sub<F: FloatUnit>(&self, other: &Tensor) -> (r: Result<Self, CortexError>)
        requires
            self@.wf(),
            other@.wf(),
        ensures
            match pairing_error(self@.shape, other@.shape) {
                Some(e) => r matches Err(x) && x@ == e,
                None => r matches Ok(t) && t@.wf() && zips(
                    |a: u32, b: u32, c: u32| subs::<F>(a, b, c),
                    self@,
                    other@,
                    t@,
                ),
            },
    {
        let f = |a: u32, b: u32| -> (c: u32)
            ensures
                (subs::<F>(a, b, c)),
        {
            F::sub32(a, b)
        };
        self.try_elementwise(other, f)
    }

    /// [`Tensor::try_mul`] of tensors of one shape.
    pub fn mul<F: FloatUnit>(&self, other: &Tensor) -> (r: Self)
        requires
            self@.wf(),
            other@.wf(),
            self@.shape == other@.shape,
        ensures
            r@.wf(),
            zips(|a: u32, b: u32, c: u32| muls::<F>(a, b, c), self@, other@, r@),
    {
        unwrap_compat(self.try_mul::<F>(other), "Tensor::mul")
    }

    /// Element-wise product of two tensors of one shape.
    pub fn try_mul<F: FloatUnit>(&self, other: &Tensor) -> (r: Result<Self, CortexError>)
        requires
            self@.wf(),
            other@.wf(),
        ensures
            match pairing_error(self@.shape, other@.shape) {
                Some(e) => r matches Err(x) && x@ == e,
                None => r matches Ok(t) && t@.wf() && zips(
                    |a: u32, b: u32, c: u32| muls::<F>(a, b, c),
                    self@,
                    other@,
                    t@,
                ),
            },
    {
        let f = |a: u32, b: u32| -> (c: u32)
            ensures
                (muls::<F>(a, b, c)),
        {
            F::mul32(a, b)
        };
        self.try_elementwise(other, f)
    }

    fn try_elementwise(&self, other: &Tensor, f: impl Fn(u32, u32) -> u32) -> (r: Result<
        Self,
        CortexError,
    >)
        requires
            self@.wf(),
            other@.wf(),
            forall|a: u32, b: u32| #[trigger] call_requires(f, (a, b)),
        ensures
            match pairing_error(self@.shape, other@.shape) {
                Some(e) => r matches Err(x) && x@ == e,
                None => r matches Ok(t) && t@.wf() && zips(
                    |a: u32, b: u32, c: u32| call_ensures(f, (a, b), c),
                    self@,
                    other@,
                    t@,
                ),
            },
    {
        if !same_shape(self.shape.as_slice(), other.shape.as_slice()) {
            return Err(
                CortexError::ShapeMismatch {
                    expected: slice_to_vec(self.shape.as_slice()),
                    got: slice_to_vec(other.shape.as_slice()),
                },
            );
        }
        let mut data: Vec<u32> = Vec::new();
        let mut i: usize = 0;
        while i < self.data.len()
            invariant
                i <= self@.data.len(),
                self@.data.len() == other@.data.len(),
                data@.len() == i,
                forall|a: u32, b: u32| #[trigger] call_requires(f, (a, b)),
                forall|j: int|
                    0 <= j < i ==> call_ensures(
                        f,
                        (self@.data[j], other@.data[j]),
                        #[trigger] data@[j],
                    ),
            decreases self@.data.len() - i,
        {
            data.push(f(self.data[i], other.data[i]));
            i += 1;
        }
        Self::try_from_vec(data, self.shape.as_slice())
    }

    fn mapped(&self, f: impl Fn(u32) -> u32) -> (r: Self)
        requires
            self@.wf(),
            forall|a: u32| #[trigger] call_requires(f, (a,)),
        ensures
            r@.wf(),
            maps(|a: u32, c: u32| call_ensures(f, (a,), c), self@, r@),
    {
        let mut data: Vec<u32> = Vec::new();
        let mut i: usize = 0;
        while i < self.data.len()
            invariant
                i <= self@.data.len(),
                data@.len() == i,
                forall|a: u32| #[trigger] call_requires(f, (a,)),
                forall|j: int|
                    0 <= j < i ==> call_ensures(f, (self@.data[j],), #[trigger] data@[j]),
            decreases self@.data.len() - i,
        {
            data.push(f(self.data[i]));
            i += 1;
        }
        Self::from_vec(data, self.shape.as_slice())
    }

    /// Every element times `s`.
    pub fn scale<F: FloatUnit>(&self, s: u32) -> (r: Self)
        requires
            self@.wf(),
        ensures
            r@.wf(),
            maps(|x: u32, y: u32| muls::<F>(x, s, y), self@, r@),
    {
        let f = |x: u32| -> (y: u32)
            ensures
                (muls::<F>(x, s, y)),
        {
            F::mul32(x, s)
        };
        self.mapped(f)
    }

    /// Every element plus `s`.
    pub fn add_scalar<F: FloatUnit>(&self, s: u32) -> (r: Self)
        requires
            self@.wf(),
        ensures
            r@.wf(),
            maps(|x: u32, y: u32| adds::<F>(x, s, y), self@, r@),
    {
        let f = |x: u32| -> (y: u32)
            ensures
                (adds::<F>(x, s, y)),
        {
            F::add32(x, s)
        };
        self.mapped(f)
    }

    // ── Activation functions ─────────────────────────────────────────

    /// The larger of every element and zero; NaN gives zero.
    pub fn relu(&self) -> (r: Self)
        requires
            self@.wf(),
        ensures
            r@.wf(),
            maps(|x: u32, y: u32| y == larger(x, ZERO), self@, r@),
    {
        let f = |x: u32| -> (y: u32)
            ensures
                (y == larger(x, ZERO)),
        {
            pick_larger(x, ZERO)
        };
        self.mapped(f)
    }

    /// The tanh form of the Gaussian error linear unit.
    pub fn gelu<F: FloatUnit>(&self) -> (r: Self)
        requires
            self@.wf(),
        ensures
            r@.wf(),
            maps(|x: u32, y: u32| gelus::<F>(x, y), self@, r@),
    {
        let f = |x: u32| -> (y: u32)
            ensures
                (gelus::<F>(x, y)),
        {
            gelu_of::<F>(x)
        };
        self.mapped(f)
    }

    /// `x / (1 + exp(-x))` of every element.
    pub fn silu<F: FloatUnit>(&self) -> (r: Self)
        requires
            self@.wf(),
        ensures
            r@.wf(),
            maps(|x: u32, y: u32| silus::<F>(x, y), self@, r@),
    {
        let f = |x: u32| -> (y: u32)
            ensures
                (silus::<F>(x, y)),
        {
            silu_of::<F>(x)
        };
        self.mapped(f)
    }

    /// `x / (1 + |x|)` of every element.
    pub fn fast_sigmoid<F: FloatUnit>(&self) -> (r: Self)
        requires
            self@.wf(),
        ensures
            r@.wf(),
            maps(|x: u32, y: u32| damps::<F>(x, absolute(x), y), self@, r@),
    {
        let f = |x: u32| -> (y: u32)
            ensures
                (damps::<F>(x, absolute(x), y)),
        {
            damp_of::<F>(x, abs_bits(x))
        };
        self.mapped(f)
    }

    // ── Reductions ───────────────────────────────────────────────────

    /// Left-to-right sum, started at negative zero, the additive identity.
    pub fn sum<F: FloatUnit>(&self) -> (r: u32)
        ensures
            sums::<F>(NEG_ZERO, self@.data, r),
    {
        sum_from::<F>(NEG_ZERO, self.data.as_slice())
    }

    /// The sum over the element count.
    pub fn mean<F: FloatUnit>(&self) -> (r: u32)
        ensures
            means::<F>(self@.data, r),
    {
        let sum: u32 = self.sum::<F>();
        let n: u32 = F::count32(self.data.len());
        let r: u32 = F::div32(sum, n);
        assert(sums::<F>(NEG_ZERO, self@.data, sum) && counts::<F>(self@.data.len() as usize, n)
            && divs::<F>(sum, n, r));
        r
    }

    /// The largest value, NaN aside; negative infinity if there is none.
    pub fn max_val(&self) -> (r: u32)
        ensures
            if forall|i: int| 0 <= i < self@.data.len() ==> nan(#[trigger] self@.data[i]) {
                r == NEG_INFINITY
            } else {
                exists|m: int| #[trigger] first_maximum(self@.data, m) && r == self@.data[m]
            },
    {
        let n: usize = self.data.len();
        let mut best: Option<usize> = None;
        let mut i: usize = 0;
        while i < n
            invariant
                i <= n,
                n == self@.data.len(),
                match best {
                    None => forall|j: int| 0 <= j < i ==> nan(#[trigger] self@.data[j]),
                    Some(m) => {
                        &&& m < i
                        &&& !nan(self@.data[m as int])
                        &&& forall|j: int|
                            0 <= j < i ==> !above(#[trigger] self@.data[j], self@.data[m as int])
                        &&& forall|j: int|
                            0 <= j < m ==> nan(#[trigger] self@.data[j]) || above(
                                self@.data[m as int],
                                self@.data[j],
                            )
                    },
                },
            decreases n - i,
        {
            match best {
                None => {
                    if !is_nan(self.data[i]) {
                        best = Some(i);
                    }
                },
                Some(m) => {
                    if is_above(self.data[i], self.data[m]) {
                        best = Some(i);
                    }
                },
            }
            i += 1;
        }
        match best {
            None => NEG_INFINITY,
            Some(m) => {
                assert(first_maximum(self@.data, m as int));
                self.data[m]
            },
        }
    }

    /// Position of the largest element in the IEEE 754 total order, the last of
    /// equals; `0` for an empty tensor. A positive NaN sorts above `+Inf`, a
    /// negative NaN below `-Inf`.
    pub fn argmax(&self) -> (r: usize)
        ensures
            if self@.data.len() == 0 {
                r == 0
            } else {
                last_total_maximum(self@.data, r as int)
            },
    {
        let n: usize = self.data.len();
        if n == 0 {
            return 0;
        }
        let mut m: usize = 0;
        let mut i: usize = 1;
        while i < n
            invariant
                m < i <= n,
                n == self@.data.len(),
                forall|j: int|
                    0 <= j < i ==> total_rank(#[trigger] self@.data[j]) <= total_rank(
                        self@.data[m as int],
                    ),
                forall|j: int|
                    m < j < i ==> total_rank(#[trigger] self@.data[j]) < total_rank(
                        self@.data[m as int],
                    ),
            decreases n - i,
        {
            if !is_total_above(self.data[m], self.data[i]) {
                m = i;
            }
            i += 1;
        }
        m
    }

    /// [`Tensor::try_softmax_last`] of a tensor of rank at most two.
    pub fn softmax_last<F: FloatUnit>(&self) -> (r: Self)
        requires
            self@.wf(),
            self@.shape.len() <= 2,
        ensures
            r@.wf(),
            softmaxes_last::<F>(self@, r@),
    {
        unwrap_compat(self.try_softmax_last::<F>(), "Tensor::softmax_last")
    }

    /// Softmax along the last axis: of the whole buffer up to rank one, of each
    /// row of a matrix.
    pub fn try_softmax_last<F: FloatUnit>(&self) -> (r: Result<Self, CortexError>)
        requires
            self@.wf(),
        ensures
            match softmax_error(self@.shape) {
                Some(e) => r matches Err(x) && x@ == e,
                None => r matches Ok(t) && t@.wf() && softmaxes_last::<F>(self@, t@),
            },
    {
        if self.ndim() > 2 {
            let mut msg: String = String::from_str("softmax_last: max 2-D, got rank ");
            msg.append(size_text(self.ndim()).as_str());
            return Err(CortexError::InvalidConfig(msg));
        }
        if self.ndim() <= 1 {
            let data: Vec<u32> = softmax_row::<F>(self.data.as_slice());
            return Ok(Self::from_vec(data, self.shape.as_slice()));
        }
        let rows: usize = self.shape[0];
        let cols: usize = self.shape[1];
        proof {
            lemma_numel_2(self@.shape);
        }
        let mut data: Vec<u32> = Vec::new();
        if cols == 0 {
            assert(rows * 0 == 0) by (nonlinear_arith);
            let t: Self = Self::from_vec(data, self.shape.as_slice());
            assert forall|i: int| 0 <= i < rows implies softmaxes::<F>(
                self@.row(i),
                #[trigger] t@.row(i),
            ) by {
                assert(i * 0 == 0) by (nonlinear_arith);
                assert(t@.row(i) =~= self@.row(i));
            }
            return Ok(t);
        }
        let mut r: usize = 0;
        while r < rows
            invariant
                r <= rows,
                self@.shape.len() == 2,
                rows == self@.shape[0],
                cols == self@.shape[1],
                self@.data.len() == rows * cols,
                data@.len() == r * cols,
                forall|q: int|
                    0 <= q < r ==> softmaxes::<F>(
                        self@.row(q),
                        #[trigger] row_of(data@, cols as nat, q),
                    ),
            decreases rows - r,
        {
            let mut row: Vec<u32> = softmax_row::<F>(
                row_slice(self.data.as_slice(), rows, cols, r),
            );
            proof {
                lemma_push_row(data@, row@, cols as nat, r as int);
            }
            data.append(&mut row);
            r += 1;
        }
        Ok(Self::from_vec(data, self.shape.as_slice()))
    }

    // ── Text ─────────────────────────────────────────────────────────

    /// The shape and the first eight elements, to four digits.
    pub fn debug_text<F: FloatUnit>(&self) -> (r: String)
        ensures
            exists|shown: Seq<Seq<char>>| #[trigger]
                shows_head::<F>(self@.data, shown) && r@ == "Tensor(shape="@ + bracketed(
                    sizes(self@.shape),
                ) + ", data=["@ + joined(shown) + (if self@.data.len() > 8 {
                    ", ..."@
                } else {
                    ""@
                }) + "])"@,
    {
        let mut out: String = String::from_str("Tensor(shape=");
        out.append(sizes_text(self.shape.as_slice()).as_str());
        out.append(", data=[");
        let ghost start = out@;
        let ghost mut shown: Seq<Seq<char>> = seq![];
        let n: usize = if self.data.len() < 8 {
            self.data.len()
        } else {
            8
        };
        let mut i: usize = 0;
        assert(start + joined(shown) =~= out@);
        while i < n
            invariant
                i <= n,
                n <= self@.data.len(),
                n <= 8,
                shown.len() == i,
                out@ == start + joined(shown),
                forall|j: int|
                    0 <= j < i ==> fixed_as::<F>(self@.data[j], #[trigger] shown[j]),
            decreases n - i,
        {
            if i > 0 {
                out.append(", ");
            }
            let v: String = F::fixed32(self.data[i]);
            out.append(v.as_str());
            proof {
                let before = shown;
                shown = shown.push(v@);
                assert(fixes::<F>(self@.data[i as int], v));
                assert(fixed_as::<F>(self@.data[i as int], v@));
                assert(shown.drop_last() =~= before);
                assert(out@ =~= start + joined(shown));
            }
            i += 1;
        }
        proof {
            assert(shows_head::<F>(self@.data, shown));
            reveal_strlit("");
        }
        if self.data.len() > 8 {
            out.append(", ...");
        }
        out.append("])");
        out
    }

    // ── Row / slice access ───────────────────────────────────────────

    /// [`Tensor::try_row`] for a row known to exist.
    pub fn row(&self, idx: usize) -> (r: Self)
        requires
            self@.wf(),
            row_error(self@.shape, idx) is None,
        ensures
            r@.wf(),
            r@ == (TensorView { data: self@.row(idx as int), shape: seq![self@.shape[1]] }),
    {
        unwrap_compat(self.try_row(idx), "Tensor::row")
    }

    /// A copy of row `idx` of a matrix.
    pub fn try_row(&self, idx: usize) -> (r: Result<Self, CortexError>)
        requires
            self@.wf(),
        ensures
            match row_error(self@.shape, idx) {
                Some(e) => r matches Err(x) && x@ == e,
                None => r matches Ok(t) && t@.wf() && t@ == (TensorView {
                    data: self@.row(idx as int),
                    shape: seq![self@.shape[1]],
                }),
            },
    {
        if self.ndim() != 2 {
            return Err(CortexError::RankMismatch { expected: 2, got: self.ndim() });
        }
        let rows: usize = self.shape[0];
        let cols: usize = self.shape[1];
        if idx >= rows {
            return Err(CortexError::IndexOutOfBounds { axis: 0, index: idx, size: rows });
        }
        proof {
            lemma_numel_2(self@.shape);
        }
        let row: Vec<u32> = slice_to_vec(row_slice(self.data.as_slice(), rows, cols, idx));
        let shape: Vec<usize> = shape1(cols);
        proof {
            lemma_numel_1(shape@);
        }
        Self::try_from_vec(row, shape.as_slice())
    }
}

/// `text` is what the unit returns for `x` to four digits.
pub open spec fn fixed_as<F: FloatUnit>(x: u32, text: Seq<char>) -> bool {
    exists|s: String| #[trigger] fixes::<F>(x, s) && s@ == text
}

/// `shown` holds the first eight elements, to four digits.
pub open spec fn shows_head<F: FloatUnit>(data: Seq<u32>, shown: Seq<Seq<char>>) -> bool {
    &&& shown.len() == if data.len() < 8 { data.len() } else { 8 }
    &&& forall|i: int| 0 <= i < shown.len() ==> fixed_as::<F>(data[i], #[trigger] shown[i])
}

/// The parts separated by commas.
pub open spec fn joined(parts: Seq<Seq<char>>) -> Seq<char>
    decreases parts.len(),
{
    if parts.len() == 0 {
        seq![]
    } else if parts.len() == 1 {
        parts[0]
    } else {
        joined(parts.drop_last()) + ", "@ + parts.last()
    }
}

/// `r` is the softmax of `t` along its last axis.
pub open spec fn softmaxes_last<F: FloatUnit>(t: TensorView, r: TensorView) -> bool {
    &&& r.shape == t.shape
    &&& if t.shape.len() == 2 {
        forall|i: int| 0 <= i < t.shape[0] ==> softmaxes::<F>(t.row(i), #[trigger] r.row(i))
    } else {
        softmaxes::<F>(t.data, r.data)
    }
}

} // verus!
